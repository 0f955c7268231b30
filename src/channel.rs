//! Change streams: `shrev` event channels of entity slots, seen as the log of
//! every slot written to them, and cursors (`shrev::ReaderId`) seen as a
//! position in that log together with the stream they belong to.
use vstd::prelude::*;
use shrev::{EventChannel, ReaderId};

verus! {

#[verifier::external_type_specification]
#[verifier::external_body]
#[verifier::reject_recursive_types(E)]
pub struct ExEventChannel<E>(shrev::EventChannel<E>);

#[verifier::external_type_specification]
#[verifier::external_body]
#[verifier::reject_recursive_types(T)]
pub struct ExReaderId<T: 'static>(shrev::ReaderId<T>);

/// Every event written to a channel, oldest first.
pub uninterp spec fn channel_log(c: EventChannel<u32>) -> Seq<u32>;

/// The identity of a channel (the instance id that its readers carry).
pub uninterp spec fn channel_ident(c: EventChannel<u32>) -> nat;

/// How many events of its channel's log a reader has already been handed.
pub uninterp spec fn reader_pos(r: ReaderId<u32>) -> nat;

/// The identity of the channel that a reader was registered with.
pub uninterp spec fn reader_stream(r: ReaderId<u32>) -> nat;

/// Relies on `shrev::EventChannel::new`: a new channel holds no events.
#[verifier::external_body]
pub(crate) fn new_channel() -> (r: EventChannel<u32>)
    ensures
        channel_log(r) == Seq::<u32>::empty(),
{
    EventChannel::new()
}

/// Relies on `shrev::EventChannel::single_write`: the event is appended for
/// every reader; the channel grows rather than overwrite unread events.
#[verifier::external_body]
pub(crate) fn write_event(c: &mut EventChannel<u32>, event: u32)
    ensures
        channel_log(*final(c)) == channel_log(*old(c)).push(event),
        channel_ident(*final(c)) == channel_ident(*old(c)),
{
    c.single_write(event)
}

/// Relies on `shrev::EventChannel::register_reader`: the new reader belongs
/// to this channel and sees only events written after its creation.
#[verifier::external_body]
pub(crate) fn register_reader(c: &mut EventChannel<u32>) -> (r: ReaderId<u32>)
    ensures
        channel_log(*final(c)) == channel_log(*old(c)),
        channel_ident(*final(c)) == channel_ident(*old(c)),
        reader_stream(r) == channel_ident(*final(c)),
        reader_pos(r) == channel_log(*old(c)).len(),
{
    c.register_reader()
}

/// Relies on `shrev::EventChannel::read`: it hands out every event written
/// since the reader's last read, in order, and moves the reader past them.
/// It panics on a reader of another channel.
#[verifier::external_body]
pub(crate) fn read_events(c: &EventChannel<u32>, r: &mut ReaderId<u32>) -> (v: Vec<u32>)
    requires
        reader_stream(*old(r)) == channel_ident(*c),
        reader_pos(*old(r)) <= channel_log(*c).len(),
    ensures
        v@ == channel_log(*c).subrange(reader_pos(*old(r)) as int, channel_log(*c).len() as int),
        reader_pos(*final(r)) == channel_log(*c).len(),
        reader_stream(*final(r)) == reader_stream(*old(r)),
{
    c.read(r).copied().collect()
}

} // verus!
