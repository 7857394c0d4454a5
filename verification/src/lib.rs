//! Capture core of a signal scope: samples taken off a real-time audio
//! callback are queued, drained by a per-channel worker, and kept in two
//! circular histories (raw and block-aggregated) with a rising-edge trigger
//! index for a stable waveform display.
//!
//! - `sample`: a sample as a bit pattern, and how samples compare.
//! - `array_view`: the circular history and its trigger.
//! - `timing`: cycle-time diagnostics over windows of cycles.
//! - `queue`: the sample queue between the callback and a worker.
//! - `flag`: the shared enable flag of a port.
//! - `comm`: sizes, events, the update bus, and the stop signal.
//! - `portbuf`: a channel, its histories and its worker.
//! - `jackit`: the capture bridge and its real-time callback.
//!
//! The library does no floating-point arithmetic and calls no audio
//! backend. Its caller computes the mean of a block of samples, talks to
//! the backend, and owns the threads and the lock around a channel's
//! histories.

pub mod sample;
pub mod array_view;
pub mod timing;
pub mod queue;
pub mod flag;
pub mod comm;
pub mod portbuf;
pub mod jackit;
