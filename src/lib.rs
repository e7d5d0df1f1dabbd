//! Event-hook dispatch and debounced handler framework for an editor.
//!
//! Events go through an ordered bus to a fixed set of handlers; each
//! handler coalesces them per key and delivers the result, once its key has
//! been quiet for a delay, into a bounded queue that drops its oldest item.
pub mod bus;
pub mod channel;
pub mod debounce;
pub mod handler;
pub mod registry;
