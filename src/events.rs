//! The change streams of one tracked component type, and the two capabilities
//! that generic code uses on them: minting a cursor (write access) and draining
//! new events at a cursor into a dirty set (read access).
use vstd::prelude::*;
use hibitset::BitSet;
use shrev::{EventChannel, ReaderId};
use crate::bits::{add_all, bits_of, slots_of, SLOT_LIMIT};
use crate::channel::{
    channel_ident, channel_log, new_channel, read_events, reader_pos, reader_stream,
    register_reader, write_event,
};

verus! {

/// Which category of change a cursor observes.
#[derive(Clone, Copy, Debug, PartialEq, Eq, Structural)]
pub enum EventKind {
    Inserted,
    Modified,
}

/// Read access to change streams: drains the events that are new at a
/// cursor into a set of slots, with shared access to the storage only.
pub trait ReadChangeAdapter {
    /// Every slot flagged so far in the stream of `kind`, oldest first.
    spec fn change_log(&self, kind: EventKind) -> Seq<u32>;

    /// The identity of the stream of `kind`, which its cursors carry.
    spec fn change_stream(&self, kind: EventKind) -> nat;

    /// Adds to `value` every slot flagged in the stream of `kind` since the
    /// cursor last read, and moves the cursor to the end of the stream.
    fn populate_changed(&self, kind: EventKind, reader_id: &mut ReaderId<u32>, value: &mut BitSet)
        requires
            reader_stream(*old(reader_id)) == self.change_stream(kind),
            reader_pos(*old(reader_id)) <= self.change_log(kind).len(),
            forall|i: int|
                0 <= i < self.change_log(kind).len() ==> self.change_log(kind)[i] < SLOT_LIMIT,
        ensures
            bits_of(*final(value)) == bits_of(*old(value)).union(
                slots_of(
                    self.change_log(kind).subrange(
                        reader_pos(*old(reader_id)) as int,
                        self.change_log(kind).len() as int,
                    ),
                ),
            ),
            reader_pos(*final(reader_id)) == self.change_log(kind).len(),
            reader_stream(*final(reader_id)) == reader_stream(*old(reader_id)),
    ;
}

/// Write access to change streams: mints a cursor positioned at "now".
pub trait WriteChangeAdapter: ReadChangeAdapter {
    /// A new cursor into the stream of `kind` that sees no past events.
    /// The streams themselves are left as they were.
    fn track_changed(&mut self, kind: EventKind) -> (r: ReaderId<u32>)
        ensures
            reader_stream(r) == final(self).change_stream(kind),
            reader_pos(r) == old(self).change_log(kind).len(),
            forall|k: EventKind| #[trigger]
                final(self).change_log(k) == old(self).change_log(k),
            forall|k: EventKind| #[trigger]
                final(self).change_stream(k) == old(self).change_stream(k),
    ;
}

/// The change streams of one tracked component type's storage: one channel
/// of inserted slots and one of modified slots.
pub struct ChangeEvents {
    inserted: EventChannel<u32>,
    modified: EventChannel<u32>,
}

impl ChangeEvents {
    /// Every flagged slot is one that a dirty set can hold.
    pub open spec fn wf(&self) -> bool {
        forall|k: EventKind, i: int|
            0 <= i < self.change_log(k).len() ==> #[trigger] self.change_log(k)[i] < SLOT_LIMIT
    }

    /// Streams with nothing flagged yet.
    pub fn new() -> (r: Self)
        ensures
            r.wf(),
            forall|k: EventKind| #[trigger] r.change_log(k) == Seq::<u32>::empty(),
    {
        ChangeEvents { inserted: new_channel(), modified: new_channel() }
    }

    /// Records that `kind` happened to slot `id`: the slot is appended to
    /// that stream alone.
    pub fn flag(&mut self, kind: EventKind, id: u32)
        requires
            old(self).wf(),
            id < SLOT_LIMIT,
        ensures
            final(self).wf(),
            final(self).change_log(kind) == old(self).change_log(kind).push(id),
            forall|k: EventKind| k != kind ==> #[trigger] final(self).change_log(k) == old(self).change_log(k),
            forall|k: EventKind| #[trigger] final(self).change_stream(k) == old(self).change_stream(k),
    {
        match kind {
            EventKind::Inserted => write_event(&mut self.inserted, id),
            EventKind::Modified => write_event(&mut self.modified, id),
        }
        assert forall|k: EventKind, i: int| 0 <= i < self.change_log(k).len() implies #[trigger] self.change_log(
            k,
        )[i] < SLOT_LIMIT by {
            if k == kind && i == old(self).change_log(k).len() {
            } else {
                assert(self.change_log(k)[i] == old(self).change_log(k)[i]);
            }
        };
    }
}

impl ReadChangeAdapter for ChangeEvents {
    closed spec fn change_log(&self, kind: EventKind) -> Seq<u32> {
        match kind {
            EventKind::Inserted => channel_log(self.inserted),
            EventKind::Modified => channel_log(self.modified),
        }
    }

    closed spec fn change_stream(&self, kind: EventKind) -> nat {
        match kind {
            EventKind::Inserted => channel_ident(self.inserted),
            EventKind::Modified => channel_ident(self.modified),
        }
    }

    fn populate_changed(&self, kind: EventKind, reader_id: &mut ReaderId<u32>, value: &mut BitSet) {
        let events = match kind {
            EventKind::Inserted => read_events(&self.inserted, reader_id),
            EventKind::Modified => read_events(&self.modified, reader_id),
        };
        add_all(value, &events);
    }
}

impl WriteChangeAdapter for ChangeEvents {
    fn track_changed(&mut self, kind: EventKind) -> (r: ReaderId<u32>) {
        match kind {
            EventKind::Inserted => register_reader(&mut self.inserted),
            EventKind::Modified => register_reader(&mut self.modified),
        }
    }
}

} // verus!
