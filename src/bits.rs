//! The dirty set: a `hibitset::BitSet` of entity slots, seen through the set
//! of slots it holds.
use vstd::prelude::*;

verus! {

/// Largest slot bound that `hibitset::BitSet::add` accepts on every target
/// (`MAX_EID` is 2^20 with 32-bit words and 2^24 with 64-bit words).
pub const SLOT_LIMIT: u32 = 1048576;

#[verifier::external_type_specification]
#[verifier::external_body]
pub struct ExBitSet(hibitset::BitSet);

/// The slots that a bit set holds.
pub uninterp spec fn bits_of(b: hibitset::BitSet) -> Set<u32>;

/// The set of slots that occur in a sequence of events.
pub open spec fn slots_of(events: Seq<u32>) -> Set<u32> {
    Set::new(|x: u32| events.contains(x))
}

/// Relies on `hibitset::BitSet::new`: a new set is empty.
pub assume_specification[ hibitset::BitSet::new ]() -> (r: hibitset::BitSet)
    ensures
        bits_of(r) == Set::<u32>::empty(),
;

/// Relies on `hibitset::BitSet::add`: the slot is added; the result tells
/// whether it was there already. It panics only above `MAX_EID`.
pub assume_specification[ hibitset::BitSet::add ](b: &mut hibitset::BitSet, id: u32) -> (r: bool)
    requires
        id < SLOT_LIMIT,
    ensures
        bits_of(*final(b)) == bits_of(*old(b)).insert(id),
        r == bits_of(*old(b)).contains(id),
;

/// Relies on `hibitset::BitSet::clear`: the set is left empty.
pub assume_specification[ hibitset::BitSet::clear ](b: &mut hibitset::BitSet)
    ensures
        bits_of(*final(b)) == Set::<u32>::empty(),
;

/// Adds every slot of `events` to `set`.
pub fn add_all(set: &mut hibitset::BitSet, events: &Vec<u32>)
    requires
        forall|i: int| 0 <= i < events@.len() ==> events@[i] < SLOT_LIMIT,
    ensures
        bits_of(*final(set)) == bits_of(*old(set)).union(slots_of(events@)),
{
    let mut i: usize = 0;
    while i < events.len()
        invariant
            i <= events@.len(),
            forall|k: int| 0 <= k < events@.len() ==> events@[k] < SLOT_LIMIT,
            bits_of(*set) == bits_of(*old(set)).union(slots_of(events@.subrange(0, i as int))),
        decreases events@.len() - i,
    {
        let id = events[i];
        set.add(id);
        proof {
            let before = events@.subrange(0, i as int);
            let after = events@.subrange(0, i + 1);
            assert(after == before.push(id));
            assert(slots_of(after) =~= slots_of(before).insert(id)) by {
                assert forall|x: u32| slots_of(after).contains(x) <==> slots_of(before).insert(
                    id,
                ).contains(x) by {
                    if before.contains(x) {
                        let j = choose|j: int| 0 <= j < before.len() && before[j] == x;
                        assert(after[j] == x);
                    }
                    if x == id {
                        assert(after[i as int] == x);
                    }
                    if after.contains(x) && x != id {
                        let j = choose|j: int| 0 <= j < after.len() && after[j] == x;
                        assert(j < i);
                        assert(before[j] == x);
                    }
                };
            };
            assert(bits_of(*set) =~= bits_of(*old(set)).union(slots_of(after)));
        }
        i = i + 1;
    }
    assert(events@.subrange(0, events@.len() as int) == events@);
}

} // verus!
