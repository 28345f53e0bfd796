//! Timer events: fire after a delay, with `#f`; a zero delay fires at once.
use vstd::prelude::*;

verus! {

/// A timer event that fires `nanos` nanoseconds after it starts blocking.
#[derive(Debug, Clone, Copy, PartialEq, Eq, Structural)]
pub struct TimerEvent {
    pub nanos: u64,
}

/// A timer event for a delay of `nanos` nanoseconds.
pub fn make_timer_event(nanos: u64) -> (t: TimerEvent)
    ensures
        t.nanos == nanos,
{
    TimerEvent { nanos }
}

impl TimerEvent {
    /// Whether the timer fires without waiting: only a zero delay does.
    pub fn poll(&self) -> (ready: bool)
        ensures
            ready == (self.nanos == 0),
    {
        self.nanos == 0
    }

    /// The non-blocking attempt: a zero delay fires at once with `false`
    /// (the timer's value); any other delay has to block.
    pub fn attempt(&self) -> (r: Option<bool>)
        ensures
            r == (if self.nanos == 0 { Some(false) } else { None::<bool> }),
    {
        if self.nanos == 0 {
            Some(false)
        } else {
            None
        }
    }
}

} // verus!
