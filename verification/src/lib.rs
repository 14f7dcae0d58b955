//! An in-process event bus on a ring of slots: publishers claim sequence
//! numbers, write type-erased events into the slots, and subscribers read them
//! at their own pace while holding publishers back from slots not yet passed.
//!
//! The shared counters are plain atomics, so what a load returns cannot be
//! stated in a contract. Each decision the bus takes on the values it observed
//! is therefore a function of those values alone, with an exact contract, and
//! the module `protocol` proves what the decisions add up to.

pub mod event;
pub mod message;
pub mod protocol;
pub mod publisher;
pub mod ring_buffer;
pub mod sequence;
pub mod subscriber;
