//! The persistent state of a change-tracked system, the registry that holds
//! at most one such state per (component type, event kind), and the run
//! protocol: refresh the dirty set, then hand it to the system's logic.
use vstd::prelude::*;
use hibitset::BitSet;
use shrev::ReaderId;
use crate::bits::{bits_of, slots_of, SLOT_LIMIT};
use crate::channel::{reader_pos, reader_stream};
use crate::events::{EventKind, ReadChangeAdapter, WriteChangeAdapter};

verus! {

/// A component type whose storage emits change events. Its tag tells it
/// apart from every other tracked component type of the world.
pub trait TrackedComponent {
    fn component_tag() -> u64;
}

/// Logic that reacts to the entities whose tracked component changed.
pub trait OnChangesSystem<'a> {
    /// The auxiliary data that the logic declares besides the dirty set.
    type SysData;

    /// Called on each run with the slots changed since the previous run.
    fn run_with_changed(&mut self, changed: &BitSet, data: Self::SysData);
}

/// Names one tracked slot of a world: a component type and an event kind.
#[derive(Clone, Copy, Debug, PartialEq, Eq, Structural)]
pub struct TrackKey {
    pub component: u64,
    pub kind: EventKind,
}

impl TrackKey {
    /// The key of component type `C` under `kind`.
    pub fn of<C: TrackedComponent>(kind: EventKind) -> (r: TrackKey)
        ensures
            r.kind == kind,
    {
        TrackKey { component: C::component_tag(), kind }
    }
}

/// What a persistent state holds, seen abstractly: the cursor's position and
/// stream, and the slots of the dirty set.
pub struct TrackView {
    pub pos: nat,
    pub stream: nat,
    pub dirty: Set<u32>,
}

/// The persistent state of one change-tracked system: its own cursor into
/// one change stream, and a dirty set that is reused from run to run.
pub struct TrackData {
    key: TrackKey,
    reader: ReaderId<u32>,
    dirty: BitSet,
}

/// What a refresh at `pos` leaves in the dirty set: the slots flagged in
/// `log` from `pos` on.
pub open spec fn delta(log: Seq<u32>, pos: nat) -> Set<u32> {
    slots_of(log.subrange(pos as int, log.len() as int))
}

impl TrackData {
    pub closed spec fn key(&self) -> TrackKey {
        self.key
    }

    pub closed spec fn view(&self) -> TrackView {
        TrackView {
            pos: reader_pos(self.reader),
            stream: reader_stream(self.reader),
            dirty: bits_of(self.dirty),
        }
    }

    /// A state for `key` around a freshly minted cursor, with an empty dirty set.
    pub fn new(reader: ReaderId<u32>, key: TrackKey) -> (r: TrackData)
        ensures
            r.key() == key,
            r@ == (TrackView {
                pos: reader_pos(reader),
                stream: reader_stream(reader),
                dirty: Set::empty(),
            }),
    {
        TrackData { key, reader, dirty: BitSet::new() }
    }

    /// The key this state tracks.
    pub fn track_key(&self) -> (r: TrackKey)
        ensures
            r == self.key(),
    {
        self.key
    }

    /// The dirty set left by the latest refresh.
    pub fn dirty(&self) -> (r: &BitSet)
        ensures
            bits_of(*r) == self@.dirty,
    {
        &self.dirty
    }

    /// Replaces the dirty set by the slots flagged in the tracked stream since
    /// the previous refresh, and moves the cursor past them. Cursor and dirty
    /// set are two disjoint fields of this one exclusively held state.
    pub fn refresh<R: ReadChangeAdapter>(&mut self, changes: &R)
        requires
            old(self)@.stream == changes.change_stream(old(self).key().kind),
            old(self)@.pos <= changes.change_log(old(self).key().kind).len(),
            forall|i: int|
                0 <= i < changes.change_log(old(self).key().kind).len() ==> changes.change_log(
                    old(self).key().kind,
                )[i] < SLOT_LIMIT,
        ensures
            final(self).key() == old(self).key(),
            final(self)@ == (TrackView {
                pos: changes.change_log(old(self).key().kind).len(),
                stream: old(self)@.stream,
                dirty: delta(changes.change_log(old(self).key().kind), old(self)@.pos),
            }),
    {
        self.dirty.clear();
        changes.populate_changed(self.key.kind, &mut self.reader, &mut self.dirty);
        assert(bits_of(self.dirty) =~= delta(
            changes.change_log(self.key.kind),
            reader_pos(old(self).reader),
        ));
    }
}

/// One run of a change-tracked system: refreshes `state` against `changes`,
/// then calls the system's logic with the new dirty set and `data`.
pub fn run<'a, S: OnChangesSystem<'a>, R: ReadChangeAdapter>(
    system: &mut S,
    state: &mut TrackData,
    changes: &R,
    data: S::SysData,
)
    requires
        old(state)@.stream == changes.change_stream(old(state).key().kind),
        old(state)@.pos <= changes.change_log(old(state).key().kind).len(),
        forall|i: int|
            0 <= i < changes.change_log(old(state).key().kind).len() ==> changes.change_log(
                old(state).key().kind,
            )[i] < SLOT_LIMIT,
    ensures
        final(state).key() == old(state).key(),
        final(state)@ == (TrackView {
            pos: changes.change_log(old(state).key().kind).len(),
            stream: old(state)@.stream,
            dirty: delta(changes.change_log(old(state).key().kind), old(state)@.pos),
        }),
{
    state.refresh(changes);
    system.run_with_changed(state.dirty(), data);
}

/// The states of a world's change-tracked systems, at most one per key.
pub struct TrackRegistry {
    states: Vec<TrackData>,
}

impl TrackRegistry {
    /// No two states share a key.
    pub closed spec fn wf(&self) -> bool {
        forall|i: int, j: int|
            0 <= i < self.states@.len() && 0 <= j < self.states@.len() && i != j
                ==> self.states@[i].key() != self.states@[j].key()
    }

    /// Each registered key with what its state holds.
    pub closed spec fn view(&self) -> Map<TrackKey, TrackView> {
        Map::new(
            |k: TrackKey| exists|i: int| 0 <= i < self.states@.len() && self.states@[i].key() == k,
            |k: TrackKey|
                self.states@[choose|i: int|
                    0 <= i < self.states@.len() && self.states@[i].key() == k]@,
        )
    }

    proof fn lemma_view_at(&self, i: int)
        requires
            self.wf(),
            0 <= i < self.states@.len(),
        ensures
            self@.contains_key(self.states@[i].key()),
            self@[self.states@[i].key()] == self.states@[i]@,
    {
        let k = self.states@[i].key();
        assert(self@.contains_key(k));
        let j = choose|j: int| 0 <= j < self.states@.len() && self.states@[j].key() == k;
        assert(j == i);
    }

    /// A registry with no state.
    pub fn new() -> (r: TrackRegistry)
        ensures
            r.wf(),
            r@ == Map::<TrackKey, TrackView>::empty(),
    {
        let r = TrackRegistry { states: Vec::new() };
        assert(r@ =~= Map::<TrackKey, TrackView>::empty());
        r
    }

    fn position(&self, key: TrackKey) -> (r: Option<usize>)
        requires
            self.wf(),
        ensures
            match r {
                Some(i) => i < self.states@.len() && self.states@[i as int].key() == key,
                None => !self@.contains_key(key),
            },
    {
        let mut i: usize = 0;
        while i < self.states.len()
            invariant
                i <= self.states@.len(),
                forall|j: int| 0 <= j < i ==> self.states@[j].key() != key,
            decreases self.states@.len() - i,
        {
            if self.states[i].track_key() == key {
                return Some(i);
            }
            i = i + 1;
        }
        None
    }

    /// Whether a state for `key` is registered.
    pub fn is_registered(&self, key: TrackKey) -> (r: bool)
        requires
            self.wf(),
        ensures
            r == self@.contains_key(key),
    {
        self.position(key).is_some()
    }

    /// The setup of a change-tracked system: mints a cursor into the stream
    /// of `key.kind` of `changes` and registers a state for `key` around it,
    /// with an empty dirty set. At most one state per key may exist, so `key`
    /// must not be registered yet.
    pub fn setup<W: WriteChangeAdapter>(&mut self, changes: &mut W, key: TrackKey)
        requires
            old(self).wf(),
            !old(self)@.contains_key(key),
        ensures
            final(self).wf(),
            final(self)@ == old(self)@.insert(
                key,
                TrackView {
                    pos: old(changes).change_log(key.kind).len(),
                    stream: final(changes).change_stream(key.kind),
                    dirty: Set::empty(),
                },
            ),
            forall|k: EventKind| #[trigger]
                final(changes).change_log(k) == old(changes).change_log(k),
            forall|k: EventKind| #[trigger]
                final(changes).change_stream(k) == old(changes).change_stream(k),
    {
        let reader = changes.track_changed(key.kind);
        let data = TrackData::new(reader, key);
        let ghost before = self.states@;
        self.states.push(data);
        proof {
            assert forall|i: int, j: int|
                0 <= i < self.states@.len() && 0 <= j < self.states@.len() && i != j implies
                self.states@[i].key() != self.states@[j].key() by {
                if i < before.len() && j < before.len() {
                    assert(self.states@[i] == before[i]);
                    assert(self.states@[j] == before[j]);
                } else if i < before.len() {
                    assert(self.states@[i] == before[i]);
                    assert(old(self)@.contains_key(before[i].key()));
                } else {
                    assert(self.states@[j] == before[j]);
                    assert(old(self)@.contains_key(before[j].key()));
                }
            };
            let new_view = old(self)@.insert(key, data@);
            assert forall|k: TrackKey| #[trigger] self@.contains_key(k) == new_view.contains_key(k) by {
                if k == key {
                    assert(self.states@[before.len() as int].key() == key);
                }
                if new_view.contains_key(k) && k != key {
                    let i = choose|i: int| 0 <= i < before.len() && before[i].key() == k;
                    assert(self.states@[i] == before[i]);
                }
                if self@.contains_key(k) && k != key {
                    let i = choose|i: int| 0 <= i < self.states@.len() && self.states@[i].key() == k;
                    assert(self.states@[i] == before[i]);
                }
            };
            assert forall|k: TrackKey| #[trigger] self@.contains_key(k) implies self@[k]
                == new_view[k] by {
                if k == key {
                    self.lemma_view_at(before.len() as int);
                } else {
                    let i = choose|i: int| 0 <= i < self.states@.len() && self.states@[i].key() == k;
                    self.lemma_view_at(i);
                    assert(self.states@[i] == before[i]);
                    old(self).lemma_view_at(i);
                }
            };
            assert(self@ =~= new_view);
        }
    }

    /// The dirty set of the state for `key`, if one is registered.
    pub fn dirty_of(&self, key: TrackKey) -> (r: Option<&BitSet>)
        requires
            self.wf(),
        ensures
            match r {
                Some(b) => self@.contains_key(key) && bits_of(*b) == self@[key].dirty,
                None => !self@.contains_key(key),
            },
    {
        match self.position(key) {
            Some(i) => {
                proof {
                    self.lemma_view_at(i as int);
                }
                Some(self.states[i].dirty())
            },
            None => None,
        }
    }

    /// One run of the change-tracked system registered under `key`: refreshes
    /// its state against `changes` and calls the system's logic with the new
    /// dirty set and `data`. The other states are left as they were.
    pub fn run<'a, S: OnChangesSystem<'a>, R: ReadChangeAdapter>(
        &mut self,
        system: &mut S,
        key: TrackKey,
        changes: &R,
        data: S::SysData,
    )
        requires
            old(self).wf(),
            old(self)@.contains_key(key),
            old(self)@[key].stream == changes.change_stream(key.kind),
            old(self)@[key].pos <= changes.change_log(key.kind).len(),
            forall|i: int|
                0 <= i < changes.change_log(key.kind).len() ==> changes.change_log(key.kind)[i]
                    < SLOT_LIMIT,
        ensures
            final(self).wf(),
            final(self)@ == old(self)@.insert(
                key,
                TrackView {
                    pos: changes.change_log(key.kind).len(),
                    stream: old(self)@[key].stream,
                    dirty: delta(changes.change_log(key.kind), old(self)@[key].pos),
                },
            ),
    {
        let i = match self.position(key) {
            Some(i) => i,
            None => {
                return ;
            },
        };
        proof {
            self.lemma_view_at(i as int);
        }
        let ghost before = self.states@;
        run(system, &mut self.states[i], changes, data);
        proof {
            assert forall|a: int, b: int|
                0 <= a < self.states@.len() && 0 <= b < self.states@.len() && a != b implies
                self.states@[a].key() != self.states@[b].key() by {
                assert(self.states@[a].key() == before[a].key());
                assert(self.states@[b].key() == before[b].key());
            };
            let new_view = old(self)@.insert(key, self.states@[i as int]@);
            assert forall|k: TrackKey| new_view.contains_key(k) implies #[trigger] self@.contains_key(k) by {
                if k == key {
                    assert(self.states@[i as int].key() == key);
                } else {
                    assert(old(self)@.contains_key(k));
                    let j = choose|j: int| 0 <= j < before.len() && before[j].key() == k;
                    assert(self.states@[j].key() == before[j].key());
                    assert(self.states@[j].key() == k);
                }
            };
            assert forall|k: TrackKey| #[trigger] self@.contains_key(k) implies new_view.contains_key(k) by {
                if k != key {
                    let j = choose|j: int| 0 <= j < self.states@.len() && self.states@[j].key() == k;
                    assert(self.states@[j].key() == before[j].key());
                    assert(before[j].key() == k);
                    assert(old(self)@.contains_key(k));
                }
            };
            assert forall|k: TrackKey| #[trigger] self@.contains_key(k) implies self@[k]
                == new_view[k] by {
                let j = choose|j: int| 0 <= j < self.states@.len() && self.states@[j].key() == k;
                self.lemma_view_at(j);
                if j != i {
                    assert(self.states@[j] == before[j]);
                    old(self).lemma_view_at(j);
                }
            };
            assert(self@ =~= new_view);
        }
    }
}

} // verus!
