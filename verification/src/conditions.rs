//! Conditions: single-shot boolean flags that, once signalled, stay signalled.
use vstd::prelude::*;

verus! {

/// A condition; its view is whether it has been signalled.
pub struct Condition {
    signalled: bool,
}

impl View for Condition {
    type V = bool;

    closed spec fn view(&self) -> bool {
        self.signalled
    }
}

/// A fresh, unsignalled condition.
pub fn make_condition() -> (c: Condition)
    ensures
        !c@,
{
    Condition { signalled: false }
}

/// What signalling does to a condition: it is signalled afterwards, and the
/// call reports whether it was the first.
pub open spec fn signal_result(signalled: bool) -> (bool, bool) {
    (true, !signalled)
}

/// Signals a condition and tells whether this call was the first to do so.
/// Afterwards the condition is signalled, whatever it was before.
pub fn signal(cond: &mut Condition) -> (was_first: bool)
    ensures
        (final(cond)@, was_first) == signal_result(old(cond)@),
{
    let was_first = !cond.signalled;
    cond.signalled = true;
    was_first
}

impl Condition {
    /// Whether a wait could complete without blocking: the condition is signalled.
    pub fn poll_wait(&self) -> (ready: bool)
        ensures
            ready == self@,
    {
        self.signalled
    }

    /// The non-blocking wait: fires with `true` once signalled, else nothing.
    pub fn do_wait(&self) -> (r: Option<bool>)
        ensures
            r == (if self@ { Some(true) } else { None::<bool> }),
    {
        if self.signalled {
            Some(true)
        } else {
            None
        }
    }
}

/// Signalling is single-shot: the first signal of a fresh condition reports
/// being first, no later signal does, and the condition stays signalled.
pub proof fn lemma_signal_single_shot(signalled: bool)
    ensures
        signal_result(false).1,
        signal_result(signalled).0,
        !signal_result(signal_result(signalled).0).1,
        signal_result(signal_result(signalled).0).0,
{
}

} // verus!
