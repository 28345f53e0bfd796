use parlor::flag::{cas, flag_state, make_flag_cancel, new_flag, release_flag, store_flag, FlagTable};
use parlor::state::{op_state_code, op_state_from_code, OpState};

#[test]
fn state_codes_roundtrip() {
    assert_eq!(op_state_code(OpState::Waiting), 0);
    assert_eq!(op_state_code(OpState::Claimed), 1);
    assert_eq!(op_state_code(OpState::Synched), 2);
    for s in [OpState::Waiting, OpState::Claimed, OpState::Synched] {
        assert_eq!(op_state_from_code(op_state_code(s)), Some(s));
    }
    assert_eq!(op_state_from_code(3), None);
    assert_eq!(op_state_from_code(255), None);
}

#[test]
fn new_flag_starts_waiting() {
    let mut t = FlagTable::new();
    let a = new_flag(&mut t);
    let b = new_flag(&mut t);
    assert_eq!(a.id, 0);
    assert_eq!(b.id, 1);
    assert_eq!(t.len(), 2);
    assert_eq!(flag_state(&t, a), OpState::Waiting);
    assert_eq!(flag_state(&t, b), OpState::Waiting);
}

#[test]
fn cas_moves_only_from_expected() {
    let mut t = FlagTable::new();
    let f = new_flag(&mut t);
    assert!(!cas(&mut t, f, OpState::Claimed, OpState::Synched));
    assert_eq!(flag_state(&t, f), OpState::Waiting);
    assert!(cas(&mut t, f, OpState::Waiting, OpState::Claimed));
    assert_eq!(flag_state(&t, f), OpState::Claimed);
    store_flag(&mut t, f, OpState::Waiting);
    assert!(cas(&mut t, f, OpState::Waiting, OpState::Synched));
    // a committed flag commits only once
    assert!(!cas(&mut t, f, OpState::Waiting, OpState::Synched));
    assert_eq!(flag_state(&t, f), OpState::Synched);
}

#[test]
fn release_retires_a_waiting_flag() {
    let mut t = FlagTable::new();
    let f = new_flag(&mut t);
    let g = new_flag(&mut t);
    release_flag(&mut t, f);
    assert_eq!(flag_state(&t, f), OpState::Synched);
    assert_eq!(flag_state(&t, g), OpState::Waiting);
    store_flag(&mut t, g, OpState::Claimed);
    release_flag(&mut t, g);
    assert_eq!(flag_state(&t, g), OpState::Claimed);
}

#[test]
fn flag_cancel_slot() {
    let mut t = FlagTable::new();
    let f = new_flag(&mut t);
    let mut slot = make_flag_cancel();
    assert_eq!(slot.flag, None);
    // cancelling before anything was recorded does nothing
    slot.cancel(&mut t);
    assert_eq!(flag_state(&t, f), OpState::Waiting);
    slot.record(f);
    slot.cancel(&mut t);
    assert_eq!(flag_state(&t, f), OpState::Synched);
}
