//! The persistent vectors (`imbl::Vector`) that hold a channel's buffer and
//! its queues of blocked senders and receivers.
//!
//! Each vector sits in a private field of a struct of this crate; what it holds
//! is named by a spec function, and every method the channel logic calls is a
//! small trusted wrapper whose contract states what `imbl`'s source does.
use vstd::prelude::*;

verus! {

/// A blocked sender as the queue stores it: (flag id, resume token, message id).
pub type SenderEntry = (usize, u64, u64);

/// A blocked receiver as the queue stores it: (flag id, resume token).
pub type ReceiverEntry = (usize, u64);

/// The buffer of a buffered channel: message ids, oldest first.
#[verifier::external_body]
pub struct MessageBuffer {
    items: imbl::Vector<u64>,
}

/// The queue of blocked senders, oldest first.
#[verifier::external_body]
pub struct SenderQueue {
    items: imbl::Vector<SenderEntry>,
}

/// The queue of blocked receivers, oldest first.
#[verifier::external_body]
pub struct ReceiverQueue {
    items: imbl::Vector<ReceiverEntry>,
}

/// What a message buffer holds, front first.
pub uninterp spec fn buffer_items(b: MessageBuffer) -> Seq<u64>;

/// What a sender queue holds, front first.
pub uninterp spec fn sender_items(q: SenderQueue) -> Seq<SenderEntry>;

/// What a receiver queue holds, front first.
pub uninterp spec fn receiver_items(q: ReceiverQueue) -> Seq<ReceiverEntry>;

/// `imbl::Vector::new` for the buffer: an empty vector.
#[verifier::external_body]
pub(crate) fn buffer_new() -> (b: MessageBuffer)
    ensures
        buffer_items(b) == Seq::<u64>::empty(),
{
    MessageBuffer { items: imbl::Vector::new() }
}

/// `imbl::Vector::len` for the buffer: the number of items.
#[verifier::external_body]
pub(crate) fn buffer_len(b: &MessageBuffer) -> (n: usize)
    ensures
        n == buffer_items(*b).len(),
{
    b.items.len()
}

/// `imbl::Vector::push_back` for the buffer: appends at the back.
#[verifier::external_body]
pub(crate) fn buffer_push_back(b: &mut MessageBuffer, m: u64)
    ensures
        buffer_items(*final(b)) == buffer_items(*old(b)).push(m),
{
    b.items.push_back(m)
}

/// `imbl::Vector::pop_front` for the buffer: removes and returns the first item,
/// or returns `None` and leaves an empty vector as it is.
#[verifier::external_body]
pub(crate) fn buffer_pop_front(b: &mut MessageBuffer) -> (r: Option<u64>)
    ensures
        buffer_items(*old(b)).len() == 0 ==> r is None && buffer_items(*final(b)) == buffer_items(
            *old(b),
        ),
        buffer_items(*old(b)).len() > 0 ==> r == Some(buffer_items(*old(b))[0])
            && buffer_items(*final(b)) == buffer_items(*old(b)).drop_first(),
{
    b.items.pop_front()
}

/// `imbl::Vector::new` for the sender queue: an empty vector.
#[verifier::external_body]
pub(crate) fn senders_new() -> (q: SenderQueue)
    ensures
        sender_items(q) == Seq::<SenderEntry>::empty(),
{
    SenderQueue { items: imbl::Vector::new() }
}

/// `imbl::Vector::len` for the sender queue.
#[verifier::external_body]
pub(crate) fn senders_len(q: &SenderQueue) -> (n: usize)
    ensures
        n == sender_items(*q).len(),
{
    q.items.len()
}

/// `imbl::Vector::get` for the sender queue: the item at `i`, which exists.
#[verifier::external_body]
pub(crate) fn senders_get(q: &SenderQueue, i: usize) -> (e: SenderEntry)
    requires
        i < sender_items(*q).len(),
    ensures
        e == sender_items(*q)[i as int],
{
    *q.items.get(i).unwrap()
}

/// `imbl::Vector::push_back` for the sender queue.
#[verifier::external_body]
pub(crate) fn senders_push_back(q: &mut SenderQueue, e: SenderEntry)
    ensures
        sender_items(*final(q)) == sender_items(*old(q)).push(e),
{
    q.items.push_back(e)
}

/// `imbl::Vector::new` for the receiver queue: an empty vector.
#[verifier::external_body]
pub(crate) fn receivers_new() -> (q: ReceiverQueue)
    ensures
        receiver_items(q) == Seq::<ReceiverEntry>::empty(),
{
    ReceiverQueue { items: imbl::Vector::new() }
}

/// `imbl::Vector::len` for the receiver queue.
#[verifier::external_body]
pub(crate) fn receivers_len(q: &ReceiverQueue) -> (n: usize)
    ensures
        n == receiver_items(*q).len(),
{
    q.items.len()
}

/// `imbl::Vector::get` for the receiver queue: the item at `i`, which exists.
#[verifier::external_body]
pub(crate) fn receivers_get(q: &ReceiverQueue, i: usize) -> (e: ReceiverEntry)
    requires
        i < receiver_items(*q).len(),
    ensures
        e == receiver_items(*q)[i as int],
{
    *q.items.get(i).unwrap()
}

/// `imbl::Vector::push_back` for the receiver queue.
#[verifier::external_body]
pub(crate) fn receivers_push_back(q: &mut ReceiverQueue, e: ReceiverEntry)
    ensures
        receiver_items(*final(q)) == receiver_items(*old(q)).push(e),
{
    q.items.push_back(e)
}

} // verus!
