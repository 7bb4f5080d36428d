//! A screenshot daemon's core: the events that its producers send, the
//! translation of debounced filesystem notifications into those events, the
//! event loop's state machine, and the plan of termination-signal hooks.

pub mod event;
pub mod watch;
pub mod event_loop;
pub mod signals;
pub mod setup;
