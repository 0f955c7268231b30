//! Laws of change tracking, stated over the logs of the change streams and
//! the view of the registry that the operations' contracts speak of.
//!
//! A refresh at cursor position `pos` leaves `delta(log, pos)` in the dirty set
//! and moves the cursor to `log.len()`; flagging a slot appends it to the log
//! of its kind alone.
use vstd::prelude::*;
use crate::bits::slots_of;
use crate::events::{ChangeEvents, EventKind, ReadChangeAdapter};
use crate::track::{delta, TrackKey, TrackRegistry, TrackView};

verus! {

proof fn lemma_delta_of_appended(log: Seq<u32>, ids: Seq<u32>)
    ensures
        delta(log + ids, log.len()) == slots_of(ids),
{
    let all = log + ids;
    assert(all.subrange(log.len() as int, all.len() as int) =~= ids);
}

/// Deltas: when a refresh has brought the cursor to the end of the log and
/// the slots `ids` are then flagged, the next refresh yields exactly those
/// slots, and a refresh right after it, with nothing flagged between, yields
/// none.
pub proof fn law_delta(log: Seq<u32>, ids: Seq<u32>)
    ensures
        delta(log + ids, log.len()) == slots_of(ids),
        forall|x: u32| #[trigger] slots_of(ids).contains(x) <==> ids.contains(x),
        delta(log + ids, (log + ids).len()) == Set::<u32>::empty(),
{
    lemma_delta_of_appended(log, ids);
    let all = log + ids;
    assert(delta(all, all.len()) =~= Set::<u32>::empty());
}

/// No double counting: a slot inserted and then modified is seen once by the
/// tracker of insertions, in the refresh after its insertion and not in the
/// one after its modification; the tracker of modifications sees it once, in
/// the refresh after its modification.
pub proof fn law_no_double_counting(inserted: Seq<u32>, modified: Seq<u32>, e: u32)
    ensures
        delta(inserted.push(e), inserted.len()) == set![e],
        delta(inserted.push(e), inserted.push(e).len()) == Set::<u32>::empty(),
        delta(modified.push(e), modified.len()) == set![e],
{
    lemma_delta_of_appended(inserted, seq![e]);
    lemma_delta_of_appended(modified, seq![e]);
    assert(inserted + seq![e] == inserted.push(e));
    assert(modified + seq![e] == modified.push(e));
    assert(slots_of(seq![e]) =~= set![e]) by {
        assert(seq![e][0] == e);
    };
    let all = inserted.push(e);
    assert(delta(all, all.len()) =~= Set::<u32>::empty());
}

/// Independence across kinds: flagging a slot with one kind leaves what a
/// tracker of the other kind will see unchanged, wherever its cursor stands.
pub proof fn law_kinds_independent(
    before: ChangeEvents,
    after: ChangeEvents,
    kind: EventKind,
    other: EventKind,
    id: u32,
    pos: nat,
)
    requires
        after.change_log(kind) == before.change_log(kind).push(id),
        forall|k: EventKind| k != kind ==> #[trigger] after.change_log(k) == before.change_log(k),
        other != kind,
    ensures
        delta(after.change_log(other), pos) == delta(before.change_log(other), pos),
{
}

/// One state per key: once a state is registered under `key`, the key is
/// taken, so a second setup under it is refused.
pub proof fn law_single_state_per_key(
    before: TrackRegistry,
    after: TrackRegistry,
    key: TrackKey,
    state: TrackView,
)
    requires
        after@ == before@.insert(key, state),
    ensures
        after@.contains_key(key),
{
}

} // verus!
