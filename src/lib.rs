//! A bulk file-write pipeline for a submission/completion I/O ring.
//!
//! The library decides what the ring is asked to do: the write plan (sizes,
//! offsets, batching), the ordered list of operations a run issues, and a
//! state machine that hands out enqueue, submit, drain and wait steps while
//! keeping completion accounting exact. The caller performs each step on the
//! real ring and reports the completions it harvested.

pub mod config;
pub mod engine;
pub mod plan;
pub mod timer;

pub use config::{Setup, BATCH_SIZE, DATA_LEN, DRAIN_EVERY, PAYLOAD_BYTE, TOTAL};
pub use engine::{Action, Engine, EngineError};
pub use plan::{Op, WritePlan};
pub use timer::Timer;
