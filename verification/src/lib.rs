//! Watch a single named operating-system process and report whenever the
//! sampled value of one of its resource metrics (CPU or resident memory)
//! changes.
//!
//! The crate provides:
//! - [`metric::Metric`]: the metric selector and its column in a process
//!   listing;
//! - [`context::Context`]: the immutable configuration of a watch;
//! - [`runner`]: the tokenizer for process-listing output and the pure
//!   sampling query over a captured listing, together with the [`runner::Runner`]
//!   capability that produces such a sample;
//! - [`watcher::Watcher`]: the polling state machine that detects value
//!   transitions and forwards them over a channel.

pub mod change;
pub mod context;
pub mod metric;
pub mod runner;
pub mod text;
pub mod watcher;
