//! A single-consumer, multi-producer task-serialization primitive.
//!
//! Independent callers submit units of work; the engine guarantees that only
//! one unit runs at a time and that units complete in strict submission
//! order, without a dedicated background worker.  One caller at a time is
//! elected *runner* and drains the shared FIFO store; every other caller
//! simply awaits the receiver paired with its own submission.

pub mod errors;
pub mod engine;
pub mod protocol;
pub mod store;
pub mod task;
