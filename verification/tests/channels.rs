use parlor::channel::{
    make_buffered_channel, make_rendezvous_channel, Attempt, Channel, ChannelFull, Resumption,
    Wake, ZeroCapacity,
};
use parlor::flag::{flag_state, new_flag, release_flag, FlagTable};
use parlor::state::OpState;

fn none() -> Attempt {
    Attempt { value: None, wake: None }
}

#[test]
fn test_producer_consumer_multiple() {
    let mut flags = FlagTable::new();
    let mut ch = Channel::new_buffered(10);
    for m in 0..10u64 {
        let a = ch.do_send(&mut flags, m);
        assert_eq!(a, Attempt { value: Some(Resumption::Sent), wake: None });
    }
    assert_eq!(ch.buffered_len(), 10);
    for m in 0..10u64 {
        assert!(ch.poll_recv(&flags));
        let a = ch.do_recv(&mut flags);
        assert_eq!(a, Attempt { value: Some(Resumption::Message(m)), wake: None });
    }
    assert!(!ch.poll_recv(&flags));
    assert_eq!(ch.do_recv(&mut flags), none());
}

#[test]
fn test_producer_try_send_full() {
    let mut ch = Channel::new_buffered(1);
    assert_eq!(ch.try_send(1), Ok(()));
    assert_eq!(ch.try_send(2), Err(ChannelFull));
    assert_eq!(ch.buffered_len(), 1);
}

#[test]
fn test_buffered_try_send_at_capacity() {
    let mut flags = FlagTable::new();
    let mut ch = Channel::new_buffered(2);
    assert_eq!(ch.try_send(1), Ok(()));
    assert_eq!(ch.try_send(2), Ok(()));
    assert_eq!(ch.try_send(3), Err(ChannelFull));
    assert_eq!(ch.do_recv(&mut flags).value, Some(Resumption::Message(1)));
    assert_eq!(ch.try_send(3), Ok(()));
}

#[test]
fn test_rust_buffered_channel_capacity_zero() {
    let mut ch = Channel::new_buffered(0);
    assert_eq!(ch.try_send(1), Err(ChannelFull));
    assert!(make_buffered_channel(0).is_err());
    assert!(matches!(make_buffered_channel(0), Err(ZeroCapacity)));
    let ok = make_buffered_channel(3).unwrap();
    assert_eq!(ok.capacity(), Some(3));
}

#[test]
fn rendezvous_try_send_always_refused() {
    let mut ch = make_rendezvous_channel();
    assert_eq!(ch.capacity(), None);
    assert_eq!(ch.try_send(7), Err(ChannelFull));
}

#[test]
fn rendezvous_send_waits_for_receiver() {
    let mut flags = FlagTable::new();
    let mut ch = Channel::new_rendezvous();
    assert!(!ch.poll_send(&flags));
    assert_eq!(ch.do_send(&mut flags, 42), none());
    // a receiver blocks
    let rf = new_flag(&mut flags);
    let wakes = ch.block_recv(&mut flags, rf, 100);
    assert!(wakes.is_empty());
    assert_eq!(flag_state(&flags, rf), OpState::Waiting);
    // now the send completes by handing the message to that receiver
    assert!(ch.poll_send(&flags));
    let a = ch.do_send(&mut flags, 42);
    assert_eq!(
        a,
        Attempt {
            value: Some(Resumption::Sent),
            wake: Some(Wake { token: 100, value: Resumption::Message(42) }),
        }
    );
    assert_eq!(flag_state(&flags, rf), OpState::Synched);
    // the receiver is not matched a second time
    assert_eq!(ch.do_send(&mut flags, 43), none());
}

#[test]
fn blocked_sender_is_taken_by_recv_attempt() {
    let mut flags = FlagTable::new();
    let mut ch = Channel::new_rendezvous();
    let sf = new_flag(&mut flags);
    assert!(ch.block_send(&mut flags, sf, 7, 99).is_empty());
    assert!(ch.poll_recv(&flags));
    let a = ch.do_recv(&mut flags);
    assert_eq!(
        a,
        Attempt {
            value: Some(Resumption::Message(99)),
            wake: Some(Wake { token: 7, value: Resumption::Sent }),
        }
    );
    assert_eq!(flag_state(&flags, sf), OpState::Synched);
}

#[test]
fn block_recv_matches_blocked_sender() {
    let mut flags = FlagTable::new();
    let mut ch = Channel::new_rendezvous();
    let sf = new_flag(&mut flags);
    let rf = new_flag(&mut flags);
    assert!(ch.block_send(&mut flags, sf, 1, 55).is_empty());
    let wakes = ch.block_recv(&mut flags, rf, 2);
    assert_eq!(
        wakes,
        vec![
            Wake { token: 1, value: Resumption::Sent },
            Wake { token: 2, value: Resumption::Message(55) },
        ]
    );
    assert_eq!(flag_state(&flags, sf), OpState::Synched);
    assert_eq!(flag_state(&flags, rf), OpState::Synched);
}

#[test]
fn block_send_matches_blocked_receiver() {
    let mut flags = FlagTable::new();
    let mut ch = Channel::new_rendezvous();
    let rf = new_flag(&mut flags);
    let sf = new_flag(&mut flags);
    assert!(ch.block_recv(&mut flags, rf, 3).is_empty());
    let wakes = ch.block_send(&mut flags, sf, 4, 77);
    assert_eq!(
        wakes,
        vec![
            Wake { token: 3, value: Resumption::Message(77) },
            Wake { token: 4, value: Resumption::Sent },
        ]
    );
}

#[test]
fn test_cancelled_recv_does_not_steal_message() {
    let mut flags = FlagTable::new();
    let mut ch = Channel::new_rendezvous();
    // a receive blocks, then is abandoned: its flag is retired
    let ghost = new_flag(&mut flags);
    assert!(ch.block_recv(&mut flags, ghost, 1).is_empty());
    release_flag(&mut flags, ghost);
    // a send finds no live receiver
    assert_eq!(ch.do_send(&mut flags, 42), none());
    // the sender blocks; a real receiver gets the message
    let sf = new_flag(&mut flags);
    assert!(ch.block_send(&mut flags, sf, 2, 42).is_empty());
    let a = ch.do_recv(&mut flags);
    assert_eq!(a.value, Some(Resumption::Message(42)));
    assert_eq!(a.wake, Some(Wake { token: 2, value: Resumption::Sent }));
}

#[test]
fn test_cancelled_send_message_not_delivered() {
    let mut flags = FlagTable::new();
    let mut ch = Channel::new_rendezvous();
    let ghost = new_flag(&mut flags);
    assert!(ch.block_send(&mut flags, ghost, 1, 99).is_empty());
    release_flag(&mut flags, ghost);
    let sf = new_flag(&mut flags);
    assert!(ch.block_send(&mut flags, sf, 2, 42).is_empty());
    let a = ch.do_recv(&mut flags);
    assert_eq!(a.value, Some(Resumption::Message(42)));
}

#[test]
fn choice_never_matches_itself() {
    // one choice that both sends and receives on the same channel, sharing one flag
    let mut flags = FlagTable::new();
    let mut ch = Channel::new_rendezvous();
    let f = new_flag(&mut flags);
    assert!(ch.block_send(&mut flags, f, 1, 5).is_empty());
    assert!(ch.block_recv(&mut flags, f, 2).is_empty());
    assert_eq!(flag_state(&flags, f), OpState::Waiting);
}

#[test]
fn synched_block_does_nothing() {
    let mut flags = FlagTable::new();
    let mut ch = Channel::new_buffered(2);
    assert_eq!(ch.try_send(9), Ok(()));
    let f = new_flag(&mut flags);
    release_flag(&mut flags, f);
    assert!(ch.block_recv(&mut flags, f, 1).is_empty());
    assert_eq!(ch.buffered_len(), 1);
}

#[test]
fn block_recv_takes_buffered_message() {
    let mut flags = FlagTable::new();
    let mut ch = Channel::new_buffered(2);
    assert_eq!(ch.try_send(9), Ok(()));
    let f = new_flag(&mut flags);
    let wakes = ch.block_recv(&mut flags, f, 4);
    assert_eq!(wakes, vec![Wake { token: 4, value: Resumption::Message(9) }]);
    assert_eq!(flag_state(&flags, f), OpState::Synched);
    assert_eq!(ch.buffered_len(), 0);
}

#[test]
fn test_buffered_at_capacity_blocks_then_drains() {
    let mut flags = FlagTable::new();
    let mut ch = Channel::new_buffered(2);
    assert_eq!(ch.do_send(&mut flags, 1).value, Some(Resumption::Sent));
    assert_eq!(ch.do_send(&mut flags, 2).value, Some(Resumption::Sent));
    assert!(!ch.poll_send(&flags));
    assert_eq!(ch.do_send(&mut flags, 3), none());
    let sf = new_flag(&mut flags);
    assert!(ch.block_send(&mut flags, sf, 30, 3).is_empty());
    assert_eq!(ch.do_recv(&mut flags).value, Some(Resumption::Message(1)));
    assert_eq!(ch.do_recv(&mut flags).value, Some(Resumption::Message(2)));
    let a = ch.do_recv(&mut flags);
    assert_eq!(a.value, Some(Resumption::Message(3)));
    assert_eq!(a.wake, Some(Wake { token: 30, value: Resumption::Sent }));
}

#[test]
fn test_gc_after_many_cancelled_operations() {
    let mut flags = FlagTable::new();
    let mut ch = Channel::new_rendezvous();
    for t in 0..80u64 {
        let f = new_flag(&mut flags);
        assert!(ch.block_recv(&mut flags, f, t).is_empty());
        release_flag(&mut flags, f);
    }
    let sf = new_flag(&mut flags);
    assert!(ch.block_send(&mut flags, sf, 1000, 999).is_empty());
    let a = ch.do_recv(&mut flags);
    assert_eq!(a.value, Some(Resumption::Message(999)));
}

#[test]
fn test_rendezvous_many_senders_one_receiver() {
    let mut flags = FlagTable::new();
    let mut ch = Channel::new_rendezvous();
    for i in 0..50u64 {
        let f = new_flag(&mut flags);
        assert!(ch.block_send(&mut flags, f, i, i).is_empty());
    }
    let mut got = Vec::new();
    for _ in 0..50 {
        match ch.do_recv(&mut flags).value {
            Some(Resumption::Message(m)) => got.push(m),
            other => panic!("unexpected {:?}", other),
        }
    }
    assert_eq!(got, (0..50u64).collect::<Vec<_>>());
    assert_eq!(ch.do_recv(&mut flags), none());
}

#[test]
fn test_producer_consumer_roundtrip() {
    let mut flags = FlagTable::new();
    let mut ch = Channel::new_buffered(10);
    assert_eq!(ch.do_send(&mut flags, 42).value, Some(Resumption::Sent));
    assert_eq!(ch.do_recv(&mut flags).value, Some(Resumption::Message(42)));
}

#[test]
fn test_rendezvous_contention_no_lost_messages() {
    let mut flags = FlagTable::new();
    let mut ch = Channel::new_rendezvous();
    let total = 100u64;
    let mut receivers = Vec::new();
    for t in 0..total {
        let f = new_flag(&mut flags);
        assert!(ch.block_recv(&mut flags, f, t).is_empty());
        receivers.push(f);
    }
    let mut received = Vec::new();
    for i in 0..total {
        // half of the senders attempt, the other half block
        if i % 2 == 0 {
            let a = ch.do_send(&mut flags, i);
            assert_eq!(a.value, Some(Resumption::Sent));
            match a.wake {
                Some(Wake { value: Resumption::Message(m), .. }) => received.push(m),
                other => panic!("unexpected {:?}", other),
            }
        } else {
            let f = new_flag(&mut flags);
            let wakes = ch.block_send(&mut flags, f, 1000 + i, i);
            assert_eq!(wakes.len(), 2);
            match wakes[0].value {
                Resumption::Message(m) => received.push(m),
                other => panic!("unexpected {:?}", other),
            }
            assert_eq!(wakes[1], Wake { token: 1000 + i, value: Resumption::Sent });
        }
    }
    for f in receivers {
        assert_eq!(flag_state(&flags, f), OpState::Synched);
    }
    received.sort();
    assert_eq!(received, (0..total).collect::<Vec<_>>());
}

#[test]
fn well_formedness_tracks_flag_table() {
    let mut flags = FlagTable::new();
    let mut ch = Channel::new_rendezvous();
    assert!(ch.check_wf(0));
    let f = new_flag(&mut flags);
    assert!(ch.block_recv(&mut flags, f, 1).is_empty());
    assert!(!ch.check_wf(0));
    assert!(ch.check_wf(1));
    assert!(Channel::new_buffered(3).check_wf(0));
}
