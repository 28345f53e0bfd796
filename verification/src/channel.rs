//! Channels: the rendezvous protocol between blocked senders and receivers,
//! and the bounded buffer of buffered channels.
//!
//! A channel holds the queue of blocked senders (`putq`), the queue of
//! blocked receivers (`getq`) and, when buffered, a FIFO buffer of at most
//! `capacity` messages. Messages and waiters are named by ids: a message by a
//! `u64`, a waiter by the flag it blocked with and a `u64` resume token. What
//! an operation owes to waiters is handed back as a list of [`Wake`]s.
use vstd::prelude::*;
use crate::flag::{Flag, FlagTable, cas, flag_state, store_flag, keeps_synched};
use crate::queue::{
    MessageBuffer, ReceiverEntry, ReceiverQueue, SenderEntry, SenderQueue, buffer_items,
    buffer_len, buffer_new, buffer_pop_front, buffer_push_back, receiver_items, receivers_get,
    receivers_len, receivers_new, receivers_push_back, sender_items, senders_get, senders_len,
    senders_new, senders_push_back,
};
use crate::state::OpState;

verus! {

/// How often (in enqueues) a waiter queue drops waiters whose flag is `Synched`.
pub const GC_INTERVAL: usize = 64;

/// The value that resumes a synchronizing party.
#[derive(Debug, Clone, Copy, PartialEq, Eq, Structural)]
pub enum Resumption {
    /// A receive completed with this message.
    Message(u64),
    /// A send completed.
    Sent,
}

/// A blocked party to resume: its token and the value it resumes with.
#[derive(Debug, Clone, Copy, PartialEq, Eq, Structural)]
pub struct Wake {
    pub token: u64,
    pub value: Resumption,
}

/// The outcome of a non-blocking attempt: the value for the party that
/// attempted, if it succeeded, and the blocked peer it completed, if any.
#[derive(Debug, Clone, Copy, PartialEq, Eq, Structural)]
pub struct Attempt {
    pub value: Option<Resumption>,
    pub wake: Option<Wake>,
}

/// A send that found no room: the channel is not buffered, or its buffer is full.
#[derive(Debug, Clone, Copy, PartialEq, Eq, Structural)]
pub struct ChannelFull;

/// A buffered channel was asked for with capacity zero.
#[derive(Debug, Clone, Copy, PartialEq, Eq, Structural)]
pub struct ZeroCapacity;

/// The abstract state of a channel.
pub struct ChannelView {
    pub senders: Seq<SenderEntry>,
    pub receivers: Seq<ReceiverEntry>,
    pub send_gc_counter: usize,
    pub recv_gc_counter: usize,
    pub capacity: Option<usize>,
    pub buffer: Option<Seq<u64>>,
}

pub struct Channel {
    putq: SenderQueue,
    getq: ReceiverQueue,
    putq_gc_counter: usize,
    getq_gc_counter: usize,
    capacity: Option<usize>,
    buffer: Option<MessageBuffer>,
}

impl View for Channel {
    type V = ChannelView;

    closed spec fn view(&self) -> ChannelView {
        ChannelView {
            senders: sender_items(self.putq),
            receivers: receiver_items(self.getq),
            send_gc_counter: self.putq_gc_counter,
            recv_gc_counter: self.getq_gc_counter,
            capacity: self.capacity,
            buffer: match self.buffer {
                Some(b) => Some(buffer_items(b)),
                None => None,
            },
        }
    }
}

// ---------------------------------------------------------------------------
// The abstract protocol
// ---------------------------------------------------------------------------

/// A channel is well formed for a table of `n` flags when it is buffered
/// exactly when it has a capacity, its buffer holds at most that many
/// messages, and every waiter's flag is in the table.
pub open spec fn channel_wf(c: ChannelView, n: nat) -> bool {
    &&& c.capacity is Some <==> c.buffer is Some
    &&& (c.buffer matches Some(b) ==> b.len() <= c.capacity->0)
    &&& forall|i: int| 0 <= i < c.senders.len() ==> (#[trigger] c.senders[i]).0 < n
    &&& forall|i: int| 0 <= i < c.receivers.len() ==> (#[trigger] c.receivers[i]).0 < n
}

/// The flag ids of a queue of senders.
pub open spec fn sender_flags(q: Seq<SenderEntry>) -> Seq<usize> {
    q.map_values(|e: SenderEntry| e.0)
}

/// The flag ids of a queue of receivers.
pub open spec fn receiver_flags(q: Seq<ReceiverEntry>) -> Seq<usize> {
    q.map_values(|e: ReceiverEntry| e.0)
}

/// A waiter can be matched when its flag is `Waiting` and is not the flag of
/// the party looking for a match (a choice never matches itself).
pub open spec fn matchable(flags: Seq<OpState>, id: usize, own: Option<usize>) -> bool {
    &&& flags[id as int] == OpState::Waiting
    &&& own != Some(id)
}

/// `i` is the first matchable position among the flag ids `ids`.
pub open spec fn is_first_match(flags: Seq<OpState>, ids: Seq<usize>, own: Option<usize>, i: int) -> bool {
    &&& 0 <= i < ids.len()
    &&& matchable(flags, ids[i], own)
    &&& forall|j: int| 0 <= j < i ==> !matchable(flags, #[trigger] ids[j], own)
}

/// The first matchable position among the flag ids `ids`, if any.
pub open spec fn first_match(flags: Seq<OpState>, ids: Seq<usize>, own: Option<usize>) -> Option<int> {
    if exists|i: int| is_first_match(flags, ids, own, i) {
        Some(choose|i: int| is_first_match(flags, ids, own, i))
    } else {
        None
    }
}

/// A channel with no waiters and an empty buffer (or none, for capacity `None`).
pub open spec fn empty_channel(capacity: Option<usize>) -> ChannelView {
    ChannelView {
        senders: Seq::empty(),
        receivers: Seq::empty(),
        send_gc_counter: 0,
        recv_gc_counter: 0,
        capacity,
        buffer: match capacity {
            Some(_) => Some(Seq::empty()),
            None => None,
        },
    }
}

/// A buffered channel with room for one more message.
pub open spec fn has_room(c: ChannelView) -> bool {
    &&& c.buffer matches Some(b)
    &&& c.capacity matches Some(cap)
    &&& b.len() < cap
}

/// A buffered channel holding at least one message.
pub open spec fn has_buffered(c: ChannelView) -> bool {
    c.buffer matches Some(b) && b.len() > 0
}

/// What a receive would find without blocking.
pub open spec fn recv_ready(c: ChannelView, flags: Seq<OpState>) -> bool {
    has_buffered(c) || first_match(flags, sender_flags(c.senders), None) is Some
}

/// What a send would find without blocking.
pub open spec fn send_ready(c: ChannelView, flags: Seq<OpState>) -> bool {
    first_match(flags, receiver_flags(c.receivers), None) is Some || has_room(c)
}

/// The non-blocking receive: the oldest buffered message, else the message of
/// the first sender still waiting, whose flag commits and who is resumed.
pub open spec fn recv_attempt(c: ChannelView, flags: Seq<OpState>) -> (ChannelView, Seq<OpState>, Attempt) {
    if has_buffered(c) {
        let b = c.buffer->0;
        (
            ChannelView { buffer: Some(b.drop_first()), ..c },
            flags,
            Attempt { value: Some(Resumption::Message(b[0])), wake: None },
        )
    } else {
        match first_match(flags, sender_flags(c.senders), None) {
            Some(i) => {
                let s = c.senders[i];
                (
                    c,
                    flags.update(s.0 as int, OpState::Synched),
                    Attempt {
                        value: Some(Resumption::Message(s.2)),
                        wake: Some(Wake { token: s.1, value: Resumption::Sent }),
                    },
                )
            },
            None => (c, flags, Attempt { value: None, wake: None }),
        }
    }
}

/// The non-blocking send: hand the message to the first receiver still
/// waiting, else append it to the buffer when there is room.
pub open spec fn send_attempt(c: ChannelView, flags: Seq<OpState>, msg: u64) -> (ChannelView, Seq<OpState>, Attempt) {
    match first_match(flags, receiver_flags(c.receivers), None) {
        Some(i) => {
            let r = c.receivers[i];
            (
                c,
                flags.update(r.0 as int, OpState::Synched),
                Attempt {
                    value: Some(Resumption::Sent),
                    wake: Some(Wake { token: r.1, value: Resumption::Message(msg) }),
                },
            )
        },
        None => if has_room(c) {
            (
                ChannelView { buffer: Some(c.buffer->0.push(msg)), ..c },
                flags,
                Attempt { value: Some(Resumption::Sent), wake: None },
            )
        } else {
            (c, flags, Attempt { value: None, wake: None })
        },
    }
}

/// The counter of a waiter queue after one more enqueue (it wraps around).
pub open spec fn next_counter(n: usize) -> usize {
    if n == usize::MAX { 0 } else { (n + 1) as usize }
}

/// Whether the enqueue counted by `n` sweeps the queue.
pub open spec fn sweeps(n: usize) -> bool {
    n % GC_INTERVAL == 0
}

/// The sender queue with the waiters whose flag is `Synched` dropped.
pub open spec fn live_senders(q: Seq<SenderEntry>, flags: Seq<OpState>) -> Seq<SenderEntry> {
    q.filter(|e: SenderEntry| flags[e.0 as int] != OpState::Synched)
}

/// The receiver queue with the waiters whose flag is `Synched` dropped.
pub open spec fn live_receivers(q: Seq<ReceiverEntry>, flags: Seq<OpState>) -> Seq<ReceiverEntry> {
    q.filter(|e: ReceiverEntry| flags[e.0 as int] != OpState::Synched)
}

/// The channel after a blocked receiver with flag `own` and token `token`
/// joins the receiver queue, and the queue is swept when its turn comes.
pub open spec fn enqueue_receiver(c: ChannelView, flags: Seq<OpState>, own: usize, token: u64) -> ChannelView {
    let q = c.receivers.push((own, token));
    ChannelView {
        receivers: if sweeps(c.recv_gc_counter) { live_receivers(q, flags) } else { q },
        recv_gc_counter: next_counter(c.recv_gc_counter),
        ..c
    }
}

/// The channel after a blocked sender joins the sender queue.
pub open spec fn enqueue_sender(c: ChannelView, flags: Seq<OpState>, own: usize, token: u64, msg: u64) -> ChannelView {
    let q = c.senders.push((own, token, msg));
    ChannelView {
        senders: if sweeps(c.send_gc_counter) { live_senders(q, flags) } else { q },
        send_gc_counter: next_counter(c.send_gc_counter),
        ..c
    }
}

/// The blocking receive with flag `own`: enqueue, then, while `own` is still
/// waiting, take the oldest buffered message, or commit with the first
/// waiting sender of another flag; both flags then become `Synched`.
pub open spec fn recv_block(c: ChannelView, flags: Seq<OpState>, own: usize, token: u64) -> (ChannelView, Seq<OpState>, Seq<Wake>) {
    let c1 = enqueue_receiver(c, flags, own, token);
    if flags[own as int] != OpState::Waiting {
        (c1, flags, Seq::empty())
    } else if has_buffered(c1) {
        let b = c1.buffer->0;
        (
            ChannelView { buffer: Some(b.drop_first()), ..c1 },
            flags.update(own as int, OpState::Synched),
            seq![Wake { token, value: Resumption::Message(b[0]) }],
        )
    } else {
        match first_match(flags, sender_flags(c1.senders), Some(own)) {
            Some(i) => {
                let s = c1.senders[i];
                (
                    c1,
                    flags.update(s.0 as int, OpState::Synched).update(own as int, OpState::Synched),
                    seq![
                        Wake { token: s.1, value: Resumption::Sent },
                        Wake { token, value: Resumption::Message(s.2) },
                    ],
                )
            },
            None => (c1, flags, Seq::empty()),
        }
    }
}

/// The blocking send with flag `own`: enqueue, then, while `own` is still
/// waiting, commit with the first waiting receiver of another flag.
pub open spec fn send_block(c: ChannelView, flags: Seq<OpState>, own: usize, token: u64, msg: u64) -> (ChannelView, Seq<OpState>, Seq<Wake>) {
    let c1 = enqueue_sender(c, flags, own, token, msg);
    if flags[own as int] != OpState::Waiting {
        (c1, flags, Seq::empty())
    } else {
        match first_match(flags, receiver_flags(c1.receivers), Some(own)) {
            Some(i) => {
                let r = c1.receivers[i];
                (
                    c1,
                    flags.update(r.0 as int, OpState::Synched).update(own as int, OpState::Synched),
                    seq![
                        Wake { token: r.1, value: Resumption::Message(msg) },
                        Wake { token, value: Resumption::Sent },
                    ],
                )
            },
            None => (c1, flags, Seq::empty()),
        }
    }
}

/// The producer-side send that never blocks: append to the buffer when there
/// is room, else refuse.
pub open spec fn try_send_result(c: ChannelView, msg: u64) -> (ChannelView, Result<(), ChannelFull>) {
    if has_room(c) {
        (ChannelView { buffer: Some(c.buffer->0.push(msg)), ..c }, Ok(()))
    } else {
        (c, Err(ChannelFull))
    }
}

// ---------------------------------------------------------------------------
// Lemmas on first matches and sweeps
// ---------------------------------------------------------------------------

/// A first matchable position is the one that `first_match` picks.
pub proof fn lemma_first_match_is(flags: Seq<OpState>, ids: Seq<usize>, own: Option<usize>, i: int)
    requires
        is_first_match(flags, ids, own, i),
    ensures
        first_match(flags, ids, own) == Some(i),
{
    let k = choose|k: int| is_first_match(flags, ids, own, k);
    assert(is_first_match(flags, ids, own, k));
    if k < i {
        assert(!matchable(flags, ids[k], own));
    } else if i < k {
        assert(!matchable(flags, ids[i], own));
    }
}

/// With no matchable position there is no first match.
pub proof fn lemma_first_match_none(flags: Seq<OpState>, ids: Seq<usize>, own: Option<usize>)
    requires
        forall|j: int| 0 <= j < ids.len() ==> !matchable(flags, #[trigger] ids[j], own),
    ensures
        first_match(flags, ids, own) is None,
{
    if exists|i: int| is_first_match(flags, ids, own, i) {
        let k = choose|k: int| is_first_match(flags, ids, own, k);
        assert(matchable(flags, ids[k], own));
    }
}

/// The first match, when there is one, is a matchable position before which
/// nothing is matchable.
pub proof fn lemma_first_match_spec(flags: Seq<OpState>, ids: Seq<usize>, own: Option<usize>)
    ensures
        first_match(flags, ids, own) matches Some(i) ==> is_first_match(flags, ids, own, i),
        first_match(flags, ids, own) is None ==> forall|j: int|
            0 <= j < ids.len() ==> !matchable(flags, #[trigger] ids[j], own),
{
    if first_match(flags, ids, own) is None {
        assert forall|j: int| 0 <= j < ids.len() implies !matchable(flags, #[trigger] ids[j], own) by {
            if matchable(flags, ids[j], own) {
                // the least matchable position would be a first match
                let m = least_matchable(flags, ids, own, j);
                assert(is_first_match(flags, ids, own, m));
            }
        }
    }
}

/// The least matchable position at or below a matchable position `j`.
proof fn least_matchable(flags: Seq<OpState>, ids: Seq<usize>, own: Option<usize>, j: int) -> (m: int)
    requires
        0 <= j < ids.len(),
        matchable(flags, ids[j], own),
    ensures
        is_first_match(flags, ids, own, m),
    decreases j,
{
    if exists|k: int| 0 <= k < j && matchable(flags, #[trigger] ids[k], own) {
        let k = choose|k: int| 0 <= k < j && matchable(flags, #[trigger] ids[k], own);
        least_matchable(flags, ids, own, k)
    } else {
        j
    }
}

/// One more step of a filter over a prefix.
proof fn lemma_filter_take_step<A>(s: Seq<A>, p: spec_fn(A) -> bool, i: int)
    requires
        0 <= i < s.len(),
    ensures
        s.take(i + 1).filter(p) == if p(s[i]) {
            s.take(i).filter(p).push(s[i])
        } else {
            s.take(i).filter(p)
        },
{
    reveal(Seq::filter);
    assert(s.take(i + 1).drop_last() =~= s.take(i));
}

// ---------------------------------------------------------------------------
// Executable channel operations
// ---------------------------------------------------------------------------

/// The next value of a queue's enqueue counter, wrapping around at the top.
fn bump_counter(n: usize) -> (m: usize)
    ensures
        m == next_counter(n),
{
    if n == usize::MAX {
        0
    } else {
        n + 1
    }
}

impl Channel {
    /// A rendezvous channel: no buffer, every send meets a receive.
    pub fn new_rendezvous() -> (c: Channel)
        ensures
            c@ == empty_channel(None),
            channel_wf(c@, 0),
    {
        Channel {
            putq: senders_new(),
            getq: receivers_new(),
            putq_gc_counter: 0,
            getq_gc_counter: 0,
            capacity: None,
            buffer: None,
        }
    }

    /// A buffered channel that holds up to `capacity` messages.
    pub fn new_buffered(capacity: usize) -> (c: Channel)
        ensures
            c@ == empty_channel(Some(capacity)),
            channel_wf(c@, 0),
    {
        Channel {
            putq: senders_new(),
            getq: receivers_new(),
            putq_gc_counter: 0,
            getq_gc_counter: 0,
            capacity: Some(capacity),
            buffer: Some(buffer_new()),
        }
    }

    /// The capacity of a buffered channel; `None` for a rendezvous channel.
    pub fn capacity(&self) -> (c: Option<usize>)
        ensures
            c == self@.capacity,
    {
        self.capacity
    }

    /// The number of buffered messages (zero for a rendezvous channel).
    pub fn buffered_len(&self) -> (n: usize)
        ensures
            n == match self@.buffer {
                Some(b) => b.len(),
                None => 0,
            },
    {
        match &self.buffer {
            Some(b) => buffer_len(b),
            None => 0,
        }
    }

    /// Whether the channel is well formed for a table of `n` flags (see
    /// [`channel_wf`]): what every operation on it expects.
    pub fn check_wf(&self, n: usize) -> (ok: bool)
        ensures
            ok == channel_wf(self@, n as nat),
    {
        let shape_ok = match (&self.buffer, self.capacity) {
            (Some(b), Some(cap)) => buffer_len(b) <= cap,
            (None, None) => true,
            _ => false,
        };
        if !shape_ok {
            return false;
        }
        let ns = senders_len(&self.putq);
        let mut i: usize = 0;
        while i < ns
            invariant
                ns == self@.senders.len(),
                i <= ns,
                forall|k: int| 0 <= k < i ==> (#[trigger] self@.senders[k]).0 < n,
            decreases ns - i,
        {
            let e = senders_get(&self.putq, i);
            if e.0 >= n {
                return false;
            }
            i = i + 1;
        }
        let nr = receivers_len(&self.getq);
        let mut j: usize = 0;
        while j < nr
            invariant
                nr == self@.receivers.len(),
                j <= nr,
                forall|k: int| 0 <= k < j ==> (#[trigger] self@.receivers[k]).0 < n,
            decreases nr - j,
        {
            let e = receivers_get(&self.getq, j);
            if e.0 >= n {
                return false;
            }
            j = j + 1;
        }
        true
    }

    /// Drops the blocked senders whose flag is `Synched`, on every
    /// `GC_INTERVAL`-th enqueue.
    fn gc_senders(&mut self, flags: &FlagTable)
        requires
            forall|i: int| 0 <= i < old(self)@.senders.len() ==> (#[trigger] old(self)@.senders[i]).0 < flags@.len(),
        ensures
            final(self)@ == (ChannelView {
                senders: if sweeps(old(self)@.send_gc_counter) {
                    live_senders(old(self)@.senders, flags@)
                } else {
                    old(self)@.senders
                },
                send_gc_counter: next_counter(old(self)@.send_gc_counter),
                ..old(self)@
            }),
            forall|i: int| 0 <= i < final(self)@.senders.len() ==> (#[trigger] final(self)@.senders[i]).0 < flags@.len(),
    {
        let count = self.putq_gc_counter;
        self.putq_gc_counter = bump_counter(count);
        if count % GC_INTERVAL == 0 {
            let ghost q = sender_items(self.putq);
            let ghost p = |e: SenderEntry| flags@[e.0 as int] != OpState::Synched;
            let mut kept = senders_new();
            let n = senders_len(&self.putq);
            let mut i: usize = 0;
            while i < n
                invariant
                    n == q.len(),
                    q == sender_items(self.putq),
                    i <= n,
                    p == (|e: SenderEntry| flags@[e.0 as int] != OpState::Synched),
                    forall|k: int| 0 <= k < q.len() ==> (#[trigger] q[k]).0 < flags@.len(),
                    sender_items(kept) == q.take(i as int).filter(p),
                    forall|k: int| 0 <= k < sender_items(kept).len() ==> (#[trigger] sender_items(kept)[k]).0 < flags@.len(),
                decreases n - i,
            {
                let e = senders_get(&self.putq, i);
                proof {
                    lemma_filter_take_step(q, p, i as int);
                }
                if flag_state(flags, Flag { id: e.0 }) != OpState::Synched {
                    senders_push_back(&mut kept, e);
                }
                i = i + 1;
            }
            proof {
                assert(q.take(n as int) =~= q);
            }
            self.putq = kept;
        }
    }

    /// Drops the blocked receivers whose flag is `Synched`, on every
    /// `GC_INTERVAL`-th enqueue.
    fn gc_receivers(&mut self, flags: &FlagTable)
        requires
            forall|i: int| 0 <= i < old(self)@.receivers.len() ==> (#[trigger] old(self)@.receivers[i]).0 < flags@.len(),
        ensures
            final(self)@ == (ChannelView {
                receivers: if sweeps(old(self)@.recv_gc_counter) {
                    live_receivers(old(self)@.receivers, flags@)
                } else {
                    old(self)@.receivers
                },
                recv_gc_counter: next_counter(old(self)@.recv_gc_counter),
                ..old(self)@
            }),
            forall|i: int| 0 <= i < final(self)@.receivers.len() ==> (#[trigger] final(self)@.receivers[i]).0 < flags@.len(),
    {
        let count = self.getq_gc_counter;
        self.getq_gc_counter = bump_counter(count);
        if count % GC_INTERVAL == 0 {
            let ghost q = receiver_items(self.getq);
            let ghost p = |e: ReceiverEntry| flags@[e.0 as int] != OpState::Synched;
            let mut kept = receivers_new();
            let n = receivers_len(&self.getq);
            let mut i: usize = 0;
            while i < n
                invariant
                    n == q.len(),
                    q == receiver_items(self.getq),
                    i <= n,
                    p == (|e: ReceiverEntry| flags@[e.0 as int] != OpState::Synched),
                    forall|k: int| 0 <= k < q.len() ==> (#[trigger] q[k]).0 < flags@.len(),
                    receiver_items(kept) == q.take(i as int).filter(p),
                    forall|k: int| 0 <= k < receiver_items(kept).len() ==> (#[trigger] receiver_items(kept)[k]).0 < flags@.len(),
                decreases n - i,
            {
                let e = receivers_get(&self.getq, i);
                proof {
                    lemma_filter_take_step(q, p, i as int);
                }
                if flag_state(flags, Flag { id: e.0 }) != OpState::Synched {
                    receivers_push_back(&mut kept, e);
                }
                i = i + 1;
            }
            proof {
                assert(q.take(n as int) =~= q);
            }
            self.getq = kept;
        }
    }

    /// Whether a receive could complete without blocking: a message is
    /// buffered, or some blocked sender is still waiting.
    pub fn poll_recv(&self, flags: &FlagTable) -> (ready: bool)
        requires
            channel_wf(self@, flags@.len()),
        ensures
            ready == recv_ready(self@, flags@),
    {
        if let Some(b) = &self.buffer {
            if buffer_len(b) > 0 {
                return true;
            }
        }
        let ghost ids = sender_flags(self@.senders);
        let n = senders_len(&self.putq);
        let mut i: usize = 0;
        while i < n
            invariant
                n == self@.senders.len(),
                ids == sender_flags(self@.senders),
                ids.len() == n,
                channel_wf(self@, flags@.len()),
                i <= n,
                forall|j: int| 0 <= j < i ==> !matchable(flags@, #[trigger] ids[j], None),
            decreases n - i,
        {
            let e = senders_get(&self.putq, i);
            assert(ids[i as int] == e.0);
            if flag_state(flags, Flag { id: e.0 }) == OpState::Waiting {
                proof {
                    lemma_first_match_is(flags@, ids, None, i as int);
                }
                return true;
            }
            i = i + 1;
        }
        proof {
            lemma_first_match_none(flags@, ids, None);
        }
        false
    }

    /// Whether a send could complete without blocking: some blocked receiver
    /// is still waiting, or the buffer has room.
    pub fn poll_send(&self, flags: &FlagTable) -> (ready: bool)
        requires
            channel_wf(self@, flags@.len()),
        ensures
            ready == send_ready(self@, flags@),
    {
        let ghost ids = receiver_flags(self@.receivers);
        let n = receivers_len(&self.getq);
        let mut i: usize = 0;
        while i < n
            invariant
                n == self@.receivers.len(),
                ids == receiver_flags(self@.receivers),
                ids.len() == n,
                channel_wf(self@, flags@.len()),
                i <= n,
                forall|j: int| 0 <= j < i ==> !matchable(flags@, #[trigger] ids[j], None),
            decreases n - i,
        {
            let e = receivers_get(&self.getq, i);
            assert(ids[i as int] == e.0);
            if flag_state(flags, Flag { id: e.0 }) == OpState::Waiting {
                proof {
                    lemma_first_match_is(flags@, ids, None, i as int);
                }
                return true;
            }
            i = i + 1;
        }
        proof {
            lemma_first_match_none(flags@, ids, None);
        }
        match (&self.buffer, self.capacity) {
            (Some(b), Some(cap)) => buffer_len(b) < cap,
            _ => false,
        }
    }

    /// The non-blocking receive (see [`recv_attempt`]).
    pub fn do_recv(&mut self, flags: &mut FlagTable) -> (a: Attempt)
        requires
            channel_wf(old(self)@, old(flags)@.len()),
        ensures
            (final(self)@, final(flags)@, a) == recv_attempt(old(self)@, old(flags)@),
            channel_wf(final(self)@, final(flags)@.len()),
    {
        if let Some(mut b) = self.buffer.take() {
            let popped = buffer_pop_front(&mut b);
            self.buffer = Some(b);
            if let Some(m) = popped {
                assert(self@.senders == old(self)@.senders);
                assert(self@.receivers == old(self)@.receivers);
                return Attempt { value: Some(Resumption::Message(m)), wake: None };
            }
        }
        let ghost ids = sender_flags(self@.senders);
        let ghost flags0 = flags@;
        let n = senders_len(&self.putq);
        let mut i: usize = 0;
        while i < n
            invariant
                n == self@.senders.len(),
                ids == sender_flags(self@.senders),
                ids.len() == n,
                self@ == old(self)@,
                flags@ == flags0,
                flags0 == old(flags)@,
                !has_buffered(old(self)@),
                channel_wf(self@, flags@.len()),
                i <= n,
                forall|j: int| 0 <= j < i ==> !matchable(flags0, #[trigger] ids[j], None),
            decreases n - i,
        {
            let e = senders_get(&self.putq, i);
            assert(ids[i as int] == e.0);
            if cas(flags, Flag { id: e.0 }, OpState::Waiting, OpState::Synched) {
                proof {
                    lemma_first_match_is(flags0, ids, None, i as int);
                }
                return Attempt {
                    value: Some(Resumption::Message(e.2)),
                    wake: Some(Wake { token: e.1, value: Resumption::Sent }),
                };
            }
            i = i + 1;
        }
        proof {
            lemma_first_match_none(flags0, ids, None);
        }
        Attempt { value: None, wake: None }
    }

    /// The non-blocking send of message `msg` (see [`send_attempt`]).
    pub fn do_send(&mut self, flags: &mut FlagTable, msg: u64) -> (a: Attempt)
        requires
            channel_wf(old(self)@, old(flags)@.len()),
        ensures
            (final(self)@, final(flags)@, a) == send_attempt(old(self)@, old(flags)@, msg),
            channel_wf(final(self)@, final(flags)@.len()),
    {
        let ghost ids = receiver_flags(self@.receivers);
        let ghost flags0 = flags@;
        let n = receivers_len(&self.getq);
        let mut i: usize = 0;
        while i < n
            invariant
                n == self@.receivers.len(),
                ids == receiver_flags(self@.receivers),
                ids.len() == n,
                self@ == old(self)@,
                flags@ == flags0,
                flags0 == old(flags)@,
                channel_wf(self@, flags@.len()),
                i <= n,
                forall|j: int| 0 <= j < i ==> !matchable(flags0, #[trigger] ids[j], None),
            decreases n - i,
        {
            let e = receivers_get(&self.getq, i);
            assert(ids[i as int] == e.0);
            if cas(flags, Flag { id: e.0 }, OpState::Waiting, OpState::Synched) {
                proof {
                    lemma_first_match_is(flags0, ids, None, i as int);
                }
                return Attempt {
                    value: Some(Resumption::Sent),
                    wake: Some(Wake { token: e.1, value: Resumption::Message(msg) }),
                };
            }
            i = i + 1;
        }
        proof {
            lemma_first_match_none(flags0, ids, None);
        }
        if let Some(cap) = self.capacity {
            if let Some(mut b) = self.buffer.take() {
                if buffer_len(&b) < cap {
                    buffer_push_back(&mut b, msg);
                    self.buffer = Some(b);
                    return Attempt { value: Some(Resumption::Sent), wake: None };
                }
                self.buffer = Some(b);
            }
        }
        Attempt { value: None, wake: None }
    }

    /// The send of a producer that never blocks (see [`try_send_result`]):
    /// blocked receivers are not considered, only the buffer.
    pub fn try_send(&mut self, msg: u64) -> (r: Result<(), ChannelFull>)
        ensures
            (final(self)@, r) == try_send_result(old(self)@, msg),
            forall|n: nat| channel_wf(old(self)@, n) ==> channel_wf(final(self)@, n),
    {
        if let Some(cap) = self.capacity {
            if let Some(mut b) = self.buffer.take() {
                if buffer_len(&b) < cap {
                    buffer_push_back(&mut b, msg);
                    self.buffer = Some(b);
                    assert(self@.senders == old(self)@.senders);
                    assert(self@.receivers == old(self)@.receivers);
                    return Ok(());
                }
                self.buffer = Some(b);
            }
        }
        Err(ChannelFull)
    }

    /// The blocking receive of a party with flag `own` and resume token
    /// `token` (see [`recv_block`]). The returned wakes name the parties to
    /// resume: the matched sender first, then the receiver itself.
    pub fn block_recv(&mut self, flags: &mut FlagTable, own: Flag, token: u64) -> (wakes: Vec<Wake>)
        requires
            channel_wf(old(self)@, old(flags)@.len()),
            old(flags).holds(own),
        ensures
            (final(self)@, final(flags)@, wakes@) == recv_block(old(self)@, old(flags)@, own.id, token),
            channel_wf(final(self)@, final(flags)@.len()),
    {
        receivers_push_back(&mut self.getq, (own.id, token));
        self.gc_receivers(flags);
        let ghost c1 = self@;
        let ghost flags0 = flags@;
        assert(c1 == enqueue_receiver(old(self)@, old(flags)@, own.id, token));
        let mut wakes: Vec<Wake> = Vec::new();
        if let Some(mut b) = self.buffer.take() {
            if buffer_len(&b) > 0 && cas(flags, own, OpState::Waiting, OpState::Synched) {
                let ghost b0 = buffer_items(b);
                let popped = buffer_pop_front(&mut b);
                self.buffer = Some(b);
                match popped {
                    Some(m) => {
                        wakes.push(Wake { token, value: Resumption::Message(m) });
                    },
                    None => {
                        store_flag(flags, own, OpState::Waiting);
                    },
                }
                assert(self@.senders == c1.senders);
                assert(self@.receivers == c1.receivers);
                assert(wakes@ =~= seq![Wake { token, value: Resumption::Message(b0[0]) }]);
                return wakes;
            }
            self.buffer = Some(b);
        }
        assert(self@ == c1);
        let ghost ids = sender_flags(self@.senders);
        let n = senders_len(&self.putq);
        let mut i: usize = 0;
        while i < n
            invariant
                n == self@.senders.len(),
                ids == sender_flags(self@.senders),
                ids.len() == n,
                self@ == c1,
                c1 == enqueue_receiver(old(self)@, old(flags)@, own.id, token),
                flags@ == flags0,
                flags0 == old(flags)@,
                wakes@ == Seq::<Wake>::empty(),
                flags.holds(own),
                channel_wf(self@, flags@.len()),
                i <= n,
                flags0[own.id as int] == OpState::Waiting ==> !has_buffered(c1),
                flags0[own.id as int] == OpState::Waiting ==> forall|j: int|
                    0 <= j < i ==> !matchable(flags0, #[trigger] ids[j], Some(own.id)),
            decreases n - i,
        {
            let e = senders_get(&self.putq, i);
            assert(ids[i as int] == e.0);
            let peer = Flag { id: e.0 };
            if flag_state(flags, peer) != OpState::Synched {
                if !cas(flags, own, OpState::Waiting, OpState::Claimed) {
                    return wakes;
                }
                if cas(flags, peer, OpState::Waiting, OpState::Synched) {
                    store_flag(flags, own, OpState::Synched);
                    wakes.push(Wake { token: e.1, value: Resumption::Sent });
                    wakes.push(Wake { token, value: Resumption::Message(e.2) });
                    proof {
                        lemma_first_match_is(flags0, ids, Some(own.id), i as int);
                        assert(flags@ =~= flags0.update(e.0 as int, OpState::Synched).update(
                            own.id as int,
                            OpState::Synched,
                        ));
                        assert(wakes@ =~= seq![
                            Wake { token: e.1, value: Resumption::Sent },
                            Wake { token, value: Resumption::Message(e.2) },
                        ]);
                    }
                    return wakes;
                }
                store_flag(flags, own, OpState::Waiting);
                assert(flags@ =~= flags0);
            }
            i = i + 1;
        }
        proof {
            if flags0[own.id as int] == OpState::Waiting {
                lemma_first_match_none(flags0, ids, Some(own.id));
            }
        }
        wakes
    }

    /// The blocking send of message `msg` by a party with flag `own` and
    /// resume token `token` (see [`send_block`]). The returned wakes name the
    /// matched receiver first, then the sender itself.
    pub fn block_send(&mut self, flags: &mut FlagTable, own: Flag, token: u64, msg: u64) -> (wakes: Vec<Wake>)
        requires
            channel_wf(old(self)@, old(flags)@.len()),
            old(flags).holds(own),
        ensures
            (final(self)@, final(flags)@, wakes@) == send_block(old(self)@, old(flags)@, own.id, token, msg),
            channel_wf(final(self)@, final(flags)@.len()),
    {
        senders_push_back(&mut self.putq, (own.id, token, msg));
        self.gc_senders(flags);
        let ghost c1 = self@;
        let ghost flags0 = flags@;
        assert(c1 == enqueue_sender(old(self)@, old(flags)@, own.id, token, msg));
        let mut wakes: Vec<Wake> = Vec::new();
        let ghost ids = receiver_flags(self@.receivers);
        let n = receivers_len(&self.getq);
        let mut i: usize = 0;
        while i < n
            invariant
                n == self@.receivers.len(),
                ids == receiver_flags(self@.receivers),
                ids.len() == n,
                self@ == c1,
                c1 == enqueue_sender(old(self)@, old(flags)@, own.id, token, msg),
                flags@ == flags0,
                flags0 == old(flags)@,
                wakes@ == Seq::<Wake>::empty(),
                flags.holds(own),
                channel_wf(self@, flags@.len()),
                i <= n,
                flags0[own.id as int] == OpState::Waiting ==> forall|j: int|
                    0 <= j < i ==> !matchable(flags0, #[trigger] ids[j], Some(own.id)),
            decreases n - i,
        {
            let e = receivers_get(&self.getq, i);
            assert(ids[i as int] == e.0);
            let peer = Flag { id: e.0 };
            if flag_state(flags, peer) != OpState::Synched {
                if !cas(flags, own, OpState::Waiting, OpState::Claimed) {
                    return wakes;
                }
                if cas(flags, peer, OpState::Waiting, OpState::Synched) {
                    store_flag(flags, own, OpState::Synched);
                    wakes.push(Wake { token: e.1, value: Resumption::Message(msg) });
                    wakes.push(Wake { token, value: Resumption::Sent });
                    proof {
                        lemma_first_match_is(flags0, ids, Some(own.id), i as int);
                        assert(flags@ =~= flags0.update(e.0 as int, OpState::Synched).update(
                            own.id as int,
                            OpState::Synched,
                        ));
                        assert(wakes@ =~= seq![
                            Wake { token: e.1, value: Resumption::Message(msg) },
                            Wake { token, value: Resumption::Sent },
                        ]);
                    }
                    return wakes;
                }
                store_flag(flags, own, OpState::Waiting);
                assert(flags@ =~= flags0);
            }
            i = i + 1;
        }
        proof {
            if flags0[own.id as int] == OpState::Waiting {
                lemma_first_match_none(flags0, ids, Some(own.id));
            }
        }
        wakes
    }
}

/// A fresh rendezvous channel.
pub fn make_rendezvous_channel() -> (c: Channel)
    ensures
        c@ == empty_channel(None),
{
    Channel::new_rendezvous()
}

/// A fresh buffered channel of the given capacity; a capacity of zero is
/// refused.
pub fn make_buffered_channel(capacity: usize) -> (r: Result<Channel, ZeroCapacity>)
    ensures
        capacity == 0 <==> r is Err,
        r matches Ok(c) ==> c@ == empty_channel(Some(capacity)),
{
    if capacity == 0 {
        return Err(ZeroCapacity);
    }
    Ok(Channel::new_buffered(capacity))
}

} // verus!
