//! A personal work-time tracker: records when a task starts and stops,
//! keeps an ordered log of time entries, and reports per-task durations
//! for the current day.
//!
//! The log — an ordered sequence of entries — is the sole persisted
//! state. `tracker` holds the business rules as pure transitions on a
//! loaded log; `codec` and `parse` define the persisted JSON form, with
//! the round-trip law proved in `codec_laws`; `cli` parses the command
//! line. Reading and writing the storage location itself is left to the
//! surrounding program.

pub mod cli;
pub mod codec;
pub mod codec_laws;
pub mod data;
pub mod error;
pub mod parse;
pub mod summary;
pub mod time;
pub mod tracker;
