//! The three states of a synchronization flag and their one-byte codes.
use vstd::prelude::*;

verus! {

/// Where an operation stands: still waiting for a peer, being committed by a
/// matcher, or done.
#[derive(Debug, Clone, Copy, PartialEq, Eq, Structural)]
pub enum OpState {
    Waiting,
    Claimed,
    Synched,
}

/// The byte that stands for a state: 0, 1 and 2 in declaration order.
pub open spec fn state_code(s: OpState) -> u8 {
    match s {
        OpState::Waiting => 0,
        OpState::Claimed => 1,
        OpState::Synched => 2,
    }
}

/// The state that a byte stands for, if any.
pub open spec fn state_of_code(c: u8) -> Option<OpState> {
    if c == 0 {
        Some(OpState::Waiting)
    } else if c == 1 {
        Some(OpState::Claimed)
    } else if c == 2 {
        Some(OpState::Synched)
    } else {
        None
    }
}

/// The byte code of a state.
pub fn op_state_code(s: OpState) -> (c: u8)
    ensures
        c == state_code(s),
{
    match s {
        OpState::Waiting => 0,
        OpState::Claimed => 1,
        OpState::Synched => 2,
    }
}

/// The state that a byte code stands for; `None` for a byte that no state has.
pub fn op_state_from_code(c: u8) -> (r: Option<OpState>)
    ensures
        r == state_of_code(c),
{
    if c == 0 {
        Some(OpState::Waiting)
    } else if c == 1 {
        Some(OpState::Claimed)
    } else if c == 2 {
        Some(OpState::Synched)
    } else {
        None
    }
}

/// Decoding the code of a state gives the state back, and every byte that
/// decodes is the code of the state it decodes to.
pub proof fn lemma_state_code_roundtrip(s: OpState, c: u8)
    ensures
        state_of_code(state_code(s)) == Some(s),
        state_of_code(c) matches Some(t) ==> state_code(t) == c,
        state_of_code(c) is Some <==> c < 3,
{
}

} // verus!
