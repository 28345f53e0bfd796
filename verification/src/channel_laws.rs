//! Laws of the channel protocol, stated over the abstract transitions that
//! the channel operations implement.
use vstd::prelude::*;
use crate::channel::{
    Attempt, ChannelView, Resumption, Wake, channel_wf, enqueue_receiver, enqueue_sender, first_match,
    has_room, live_receivers, live_senders, recv_ready, send_ready, matchable, lemma_first_match_spec, receiver_flags, recv_attempt, recv_block, send_attempt,
    send_block, sender_flags,
};
use crate::flag::keeps_synched;
use crate::queue::{ReceiverEntry, SenderEntry};
use crate::state::OpState;

verus! {

/// No channel operation ever moves a `Synched` flag back: an operation that
/// has committed stays committed.
pub proof fn lemma_channel_steps_keep_synched(
    c: ChannelView,
    flags: Seq<OpState>,
    own: usize,
    token: u64,
    msg: u64,
)
    requires
        channel_wf(c, flags.len()),
        own < flags.len(),
    ensures
        keeps_synched(flags, recv_attempt(c, flags).1),
        keeps_synched(flags, send_attempt(c, flags, msg).1),
        keeps_synched(flags, recv_block(c, flags, own, token).1),
        keeps_synched(flags, send_block(c, flags, own, token, msg).1),
{
    lemma_first_match_spec(flags, sender_flags(c.senders), None);
    lemma_first_match_spec(flags, receiver_flags(c.receivers), None);
    lemma_first_match_spec(flags, sender_flags(c.senders), Some(own));
    lemma_first_match_spec(flags, receiver_flags(c.receivers), Some(own));
    let c1 = enqueue_receiver(c, flags, own, token);
    let c2 = enqueue_sender(c, flags, own, token, msg);
    assert(c1.senders == c.senders);
    assert(c2.receivers == c.receivers);
}

/// A non-blocking attempt resumes a blocked peer only if that peer's flag was
/// `Waiting`, and commits it to `Synched`: a blocked party is resumed at
/// most once, and a party whose sync is over (flag retired) never is.
/// The message handed over is the peer's own (for a receive) or the one sent.
pub proof fn lemma_attempt_wakes_only_waiting_peers(c: ChannelView, flags: Seq<OpState>, msg: u64)
    requires
        channel_wf(c, flags.len()),
    ensures
        recv_attempt(c, flags).2.wake matches Some(w) ==> exists|i: int|
            0 <= i < c.senders.len() && #[trigger] c.senders[i].1 == w.token
                && flags[c.senders[i].0 as int] == OpState::Waiting
                && recv_attempt(c, flags).1[c.senders[i].0 as int] == OpState::Synched
                && w.value == Resumption::Sent
                && recv_attempt(c, flags).2.value == Some(Resumption::Message(c.senders[i].2)),
        send_attempt(c, flags, msg).2.wake matches Some(w) ==> exists|i: int|
            0 <= i < c.receivers.len() && #[trigger] c.receivers[i].1 == w.token
                && flags[c.receivers[i].0 as int] == OpState::Waiting
                && send_attempt(c, flags, msg).1[c.receivers[i].0 as int] == OpState::Synched
                && w.value == Resumption::Message(msg)
                && send_attempt(c, flags, msg).2.value == Some(Resumption::Sent),
{
    lemma_first_match_spec(flags, sender_flags(c.senders), None);
    lemma_first_match_spec(flags, receiver_flags(c.receivers), None);
    if let Some(i) = first_match(flags, sender_flags(c.senders), None) {
        assert(c.senders[i].1 == c.senders[i].1);
    }
    if let Some(i) = first_match(flags, receiver_flags(c.receivers), None) {
        assert(c.receivers[i].1 == c.receivers[i].1);
    }
}

/// A blocking operation commits with a peer only if the peer's flag was
/// `Waiting` and is not its own flag (a choice that both sends and receives
/// on one channel never meets itself), and then both flags are `Synched`.
pub proof fn lemma_block_matches_other_waiting_peer(
    c: ChannelView,
    flags: Seq<OpState>,
    own: usize,
    token: u64,
    msg: u64,
)
    requires
        channel_wf(c, flags.len()),
        own < flags.len(),
    ensures
        recv_block(c, flags, own, token).2.len() == 2 ==> exists|i: int|
            0 <= i < c.senders.len() && #[trigger] c.senders[i].1 == recv_block(c, flags, own, token).2[0].token
                && c.senders[i].0 != own
                && flags[c.senders[i].0 as int] == OpState::Waiting
                && recv_block(c, flags, own, token).1[c.senders[i].0 as int] == OpState::Synched
                && recv_block(c, flags, own, token).1[own as int] == OpState::Synched
                && recv_block(c, flags, own, token).2[1] == (Wake {
                    token,
                    value: Resumption::Message(c.senders[i].2),
                }),
        send_block(c, flags, own, token, msg).2.len() == 2 ==> exists|i: int|
            0 <= i < c.receivers.len() && #[trigger] c.receivers[i].1 == send_block(c, flags, own, token, msg).2[0].token
                && c.receivers[i].0 != own
                && flags[c.receivers[i].0 as int] == OpState::Waiting
                && send_block(c, flags, own, token, msg).1[c.receivers[i].0 as int] == OpState::Synched
                && send_block(c, flags, own, token, msg).1[own as int] == OpState::Synched
                && send_block(c, flags, own, token, msg).2[0].value == Resumption::Message(msg),
{
    lemma_first_match_spec(flags, sender_flags(c.senders), Some(own));
    lemma_first_match_spec(flags, receiver_flags(c.receivers), Some(own));
    let c1 = enqueue_receiver(c, flags, own, token);
    let c2 = enqueue_sender(c, flags, own, token, msg);
    assert(c1.senders == c.senders);
    assert(c2.receivers == c.receivers);
    if let Some(i) = first_match(flags, sender_flags(c.senders), Some(own)) {
        assert(c.senders[i].1 == c.senders[i].1);
    }
    if let Some(i) = first_match(flags, receiver_flags(c.receivers), Some(own)) {
        assert(c.receivers[i].1 == c.receivers[i].1);
    }
}

/// On a rendezvous channel a send completes only by handing its message to a
/// blocked receiver, and a receive only by taking a blocked sender's message:
/// nothing is ever stored.
pub proof fn lemma_rendezvous_needs_a_peer(c: ChannelView, flags: Seq<OpState>, msg: u64)
    requires
        channel_wf(c, flags.len()),
        c.buffer is None,
    ensures
        send_attempt(c, flags, msg).2.value is Some ==> (send_attempt(c, flags, msg).2.wake matches Some(
            w,
        ) && w.value == Resumption::Message(msg)),
        send_attempt(c, flags, msg).0 == c,
        recv_attempt(c, flags).2.value is Some ==> (recv_attempt(c, flags).2.wake matches Some(w)
            && w.value == Resumption::Sent),
        recv_attempt(c, flags).0 == c,
{
}

/// Sends one message after another on a channel whose receivers are not
/// waiting.
pub open spec fn send_all(c: ChannelView, flags: Seq<OpState>, ms: Seq<u64>) -> ChannelView
    decreases ms.len(),
{
    if ms.len() == 0 {
        c
    } else {
        send_all(send_attempt(c, flags, ms[0]).0, flags, ms.drop_first())
    }
}

/// The messages that `n` receives in a row hand back, up to the first that
/// does not complete.
pub open spec fn recv_values(c: ChannelView, flags: Seq<OpState>, n: nat) -> Seq<u64>
    decreases n,
{
    if n == 0 {
        Seq::empty()
    } else {
        let r = recv_attempt(c, flags);
        match r.2.value {
            Some(Resumption::Message(m)) => seq![m] + recv_values(r.0, r.1, (n - 1) as nat),
            _ => Seq::empty(),
        }
    }
}

/// With no receiver waiting and room for all of them, sends append their
/// messages to the buffer in order.
pub proof fn lemma_send_all_appends(c: ChannelView, flags: Seq<OpState>, ms: Seq<u64>)
    requires
        c.buffer is Some,
        c.capacity is Some,
        c.buffer->0.len() + ms.len() <= c.capacity->0,
        first_match(flags, receiver_flags(c.receivers), None) is None,
    ensures
        send_all(c, flags, ms).buffer == Some(c.buffer->0 + ms),
        send_all(c, flags, ms).receivers == c.receivers,
        send_all(c, flags, ms).capacity == c.capacity,
    decreases ms.len(),
{
    if ms.len() == 0 {
        assert(c.buffer->0 + ms =~= c.buffer->0);
    } else {
        let c2 = send_attempt(c, flags, ms[0]).0;
        assert(has_room(c));
        assert(c2.buffer == Some(c.buffer->0.push(ms[0])));
        lemma_send_all_appends(c2, flags, ms.drop_first());
        assert(c.buffer->0.push(ms[0]) + ms.drop_first() =~= c.buffer->0 + ms);
    }
}

/// Receives take buffered messages oldest first.
pub proof fn lemma_recv_values_take_buffer(c: ChannelView, flags: Seq<OpState>, n: nat)
    requires
        c.buffer is Some,
        n <= c.buffer->0.len(),
    ensures
        recv_values(c, flags, n) == c.buffer->0.take(n as int),
    decreases n,
{
    if n == 0 {
        assert(c.buffer->0.take(0) =~= Seq::<u64>::empty());
    } else {
        let b = c.buffer->0;
        let r = recv_attempt(c, flags);
        assert(r.0.buffer == Some(b.drop_first()));
        lemma_recv_values_take_buffer(r.0, r.1, (n - 1) as nat);
        assert(seq![b[0]] + b.drop_first().take(n - 1) =~= b.take(n as int));
    }
}

/// A buffered channel is first in, first out: messages sent into an empty
/// buffer (with no receiver waiting and room for all of them) come out of as
/// many receives in the order in which they were sent.
pub proof fn lemma_buffered_channel_is_fifo(c: ChannelView, flags: Seq<OpState>, ms: Seq<u64>)
    requires
        c.buffer == Some(Seq::<u64>::empty()),
        c.capacity is Some,
        ms.len() <= c.capacity->0,
        first_match(flags, receiver_flags(c.receivers), None) is None,
    ensures
        recv_values(send_all(c, flags, ms), flags, ms.len()) == ms,
{
    lemma_send_all_appends(c, flags, ms);
    let c2 = send_all(c, flags, ms);
    assert(Seq::<u64>::empty() + ms =~= ms);
    lemma_recv_values_take_buffer(c2, flags, ms.len());
    assert(ms.take(ms.len() as int) =~= ms);
}

/// A sweep of the sender queue drops only senders whose sync is over: every
/// sender whose flag is not `Synched` stays queued (so its message is not
/// lost), and every sender kept was queued before.
pub proof fn lemma_sender_sweep_keeps_pending(q: Seq<SenderEntry>, flags: Seq<OpState>, i: int)
    requires
        0 <= i < q.len(),
    ensures
        flags[q[i].0 as int] != OpState::Synched ==> live_senders(q, flags).contains(q[i]),
        forall|k: int| 0 <= k < live_senders(q, flags).len() ==> q.contains(#[trigger] live_senders(q, flags)[k])
            && flags[live_senders(q, flags)[k].0 as int] != OpState::Synched,
{
    let p = |e: SenderEntry| flags[e.0 as int] != OpState::Synched;
    #[allow(deprecated)]
    q.filter_lemma(p);
    assert forall|k: int| 0 <= k < live_senders(q, flags).len() implies q.contains(
        #[trigger] live_senders(q, flags)[k],
    ) by {
        q.lemma_filter_contains_rev(p, live_senders(q, flags)[k]);
    }
}

/// A sweep of the receiver queue drops only receivers whose sync is over.
pub proof fn lemma_receiver_sweep_keeps_pending(q: Seq<ReceiverEntry>, flags: Seq<OpState>, i: int)
    requires
        0 <= i < q.len(),
    ensures
        flags[q[i].0 as int] != OpState::Synched ==> live_receivers(q, flags).contains(q[i]),
        forall|k: int| 0 <= k < live_receivers(q, flags).len() ==> q.contains(#[trigger] live_receivers(q, flags)[k])
            && flags[live_receivers(q, flags)[k].0 as int] != OpState::Synched,
{
    let p = |e: ReceiverEntry| flags[e.0 as int] != OpState::Synched;
    #[allow(deprecated)]
    q.filter_lemma(p);
    assert forall|k: int| 0 <= k < live_receivers(q, flags).len() implies q.contains(
        #[trigger] live_receivers(q, flags)[k],
    ) by {
        q.lemma_filter_contains_rev(p, live_receivers(q, flags)[k]);
    }
}

/// On a buffered channel a send completes as soon as there is room, with or
/// without a receiver (buffered channels do not rendezvous); when no receiver
/// is waiting the message goes to the back of the buffer.
pub proof fn lemma_buffered_send_needs_room_only(c: ChannelView, flags: Seq<OpState>, msg: u64)
    requires
        channel_wf(c, flags.len()),
        has_room(c),
    ensures
        send_attempt(c, flags, msg).2.value == Some(Resumption::Sent),
        first_match(flags, receiver_flags(c.receivers), None) is None ==> send_attempt(c, flags, msg).0.buffer
            == Some(c.buffer->0.push(msg)),
{
}

/// A blocking operation that resumes anyone leaves its own flag `Synched`.
pub proof fn lemma_block_commits_own_flag(
    c: ChannelView,
    flags: Seq<OpState>,
    own: usize,
    token: u64,
    msg: u64,
)
    requires
        channel_wf(c, flags.len()),
        own < flags.len(),
    ensures
        recv_block(c, flags, own, token).2.len() > 0 ==> recv_block(c, flags, own, token).1[own as int]
            == OpState::Synched,
        send_block(c, flags, own, token, msg).2.len() > 0 ==> send_block(c, flags, own, token, msg).1[own as int]
            == OpState::Synched,
{
}

/// At most one alternative of a choice fires: the alternatives share one
/// flag, and once that flag is `Synched` (after any steps that keep `Synched`
/// flags `Synched`) no blocking operation with it resumes anyone, on any
/// channel.
pub proof fn lemma_synched_flag_blocks_fire_nothing(
    c: ChannelView,
    flags: Seq<OpState>,
    own: usize,
    token: u64,
    msg: u64,
)
    requires
        own < flags.len(),
        flags[own as int] == OpState::Synched,
    ensures
        recv_block(c, flags, own, token).2.len() == 0,
        recv_block(c, flags, own, token).1 == flags,
        send_block(c, flags, own, token, msg).2.len() == 0,
        send_block(c, flags, own, token, msg).1 == flags,
{
}

/// An attempt changes no flag but the one of the peer it resumes, from
/// `Waiting` to `Synched`: every other blocked party keeps waiting, so no
/// pending send or receive is lost.
pub proof fn lemma_attempt_touches_only_resumed_peer(c: ChannelView, flags: Seq<OpState>, msg: u64, j: int)
    requires
        channel_wf(c, flags.len()),
        0 <= j < flags.len(),
    ensures
        recv_attempt(c, flags).1.len() == flags.len(),
        recv_attempt(c, flags).1[j] != flags[j] ==> (recv_attempt(c, flags).2.wake matches Some(w)
            && flags[j] == OpState::Waiting
            && recv_attempt(c, flags).1[j] == OpState::Synched
            && exists|i: int| 0 <= i < c.senders.len() && #[trigger] c.senders[i].0 == j && c.senders[i].1 == w.token),
        send_attempt(c, flags, msg).1.len() == flags.len(),
        send_attempt(c, flags, msg).1[j] != flags[j] ==> (send_attempt(c, flags, msg).2.wake matches Some(w)
            && flags[j] == OpState::Waiting
            && send_attempt(c, flags, msg).1[j] == OpState::Synched
            && exists|i: int| 0 <= i < c.receivers.len() && #[trigger] c.receivers[i].0 == j && c.receivers[i].1 == w.token),
{
    lemma_first_match_spec(flags, sender_flags(c.senders), None);
    lemma_first_match_spec(flags, receiver_flags(c.receivers), None);
    if let Some(i) = first_match(flags, sender_flags(c.senders), None) {
        assert(c.senders[i].0 == c.senders[i].0);
    }
    if let Some(i) = first_match(flags, receiver_flags(c.receivers), None) {
        assert(c.receivers[i].0 == c.receivers[i].0);
    }
}

/// A non-blocking send on a channel where some blocked receiver is still
/// waiting hands its message to such a receiver, commits that receiver's
/// flag, and leaves the channel (and so its buffer) untouched: a consumer
/// blocked on an empty buffered channel is resumed by the next send.
pub proof fn lemma_send_prefers_waiting_receiver(c: ChannelView, flags: Seq<OpState>, msg: u64)
    requires
        channel_wf(c, flags.len()),
        exists|i: int| 0 <= i < c.receivers.len() && flags[(#[trigger] c.receivers[i]).0 as int] == OpState::Waiting,
    ensures
        send_attempt(c, flags, msg).0 == c,
        send_attempt(c, flags, msg).2.value == Some(Resumption::Sent),
        send_attempt(c, flags, msg).2.wake is Some,
        send_attempt(c, flags, msg).2.wake->0.value == Resumption::Message(msg),
        exists|j: int| 0 <= j < c.receivers.len()
            && (#[trigger] c.receivers[j]).1 == send_attempt(c, flags, msg).2.wake->0.token
            && flags[c.receivers[j].0 as int] == OpState::Waiting
            && send_attempt(c, flags, msg).1[c.receivers[j].0 as int] == OpState::Synched,
{
    let ids = receiver_flags(c.receivers);
    let i = choose|i: int| 0 <= i < c.receivers.len() && flags[(#[trigger] c.receivers[i]).0 as int] == OpState::Waiting;
    assert(ids[i] == c.receivers[i].0);
    assert(matchable(flags, ids[i], None));
    lemma_first_match_spec(flags, ids, None);
    let k = first_match(flags, ids, None)->0;
    assert(ids[k] == c.receivers[k].0);
    assert(c.receivers[k].1 == c.receivers[k].1);
}

/// A send's poll is ready exactly when a non-blocking send would complete,
/// and a receive's poll exactly when a non-blocking receive would; on a
/// buffered channel with room the send is ready and completes whether or not
/// a receiver is waiting.
pub proof fn lemma_poll_agrees_with_attempt(c: ChannelView, flags: Seq<OpState>, msg: u64)
    requires
        channel_wf(c, flags.len()),
    ensures
        send_ready(c, flags) == (send_attempt(c, flags, msg).2.value is Some),
        recv_ready(c, flags) == (recv_attempt(c, flags).2.value is Some),
        (c.buffer matches Some(b) && c.capacity matches Some(cap) && b.len() < cap) ==> (send_ready(c, flags)
            && send_attempt(c, flags, msg).2.value == Some(Resumption::Sent)),
        (c.buffer matches Some(b) && b.len() > 0) ==> recv_ready(c, flags),
{
}

/// Receives take buffered messages oldest first, before any blocked sender:
/// a blocking receive that is still waiting, like a non-blocking one, takes
/// the front of a non-empty buffer, drops it from the buffer, and commits no
/// sender.
pub proof fn lemma_recv_takes_oldest_buffered(c: ChannelView, flags: Seq<OpState>, own: usize, token: u64)
    requires
        channel_wf(c, flags.len()),
        own < flags.len(),
        c.buffer matches Some(b) && b.len() > 0,
    ensures
        recv_attempt(c, flags).2 == (Attempt { value: Some(Resumption::Message(c.buffer->0[0])), wake: None }),
        recv_attempt(c, flags).1 == flags,
        recv_attempt(c, flags).0.buffer == Some(c.buffer->0.drop_first()),
        flags[own as int] == OpState::Waiting ==> recv_block(c, flags, own, token).2 == seq![
            Wake { token, value: Resumption::Message(c.buffer->0[0]) },
        ],
        flags[own as int] == OpState::Waiting ==> recv_block(c, flags, own, token).0.buffer == Some(
            c.buffer->0.drop_first(),
        ),
        flags[own as int] == OpState::Waiting ==> recv_block(c, flags, own, token).1 == flags.update(
            own as int,
            OpState::Synched,
        ),
        recv_block(c, flags, own, token).0.senders == c.senders,
{
    let c1 = enqueue_receiver(c, flags, own, token);
    assert(c1.buffer == c.buffer);
    assert(c1.senders == c.senders);
}

} // verus!
