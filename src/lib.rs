//! A deadline-ordered store of one-shot callbacks, for environments that
//! supply the current time themselves (firmware, interrupt handlers).
//!
//! The store keeps pending events in a binary min-heap keyed by deadline.
//! `Timer::expire(now)` removes every event whose deadline is at most `now`
//! and invokes its callback with `now`, in non-decreasing deadline order.
//! Events with equal deadlines fire in no particular order. There is no
//! cancellation: an event leaves the store by firing, or is dropped with it.
pub mod heap;
pub mod timer;
pub mod laws;

pub use heap::Event;
pub use timer::Timer;
