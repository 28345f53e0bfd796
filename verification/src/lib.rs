//! Verified core of a Concurrent ML style event library: synchronization
//! flags, the channel rendezvous protocol, and the combinators of choice.
pub mod state;
pub mod flag;
mod queue;
pub mod channel;
pub mod channel_laws;
pub mod event;
pub mod conditions;
pub mod timers;
