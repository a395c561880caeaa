//! The core of a monitor for the live Wikipedia edit stream.
//!
//! Edits arrive on two bounded queues, one for humans and one for bots ([`ingest`]), and leave
//! them by priority ([`queue`]). Each has to be processed within two milliseconds. What is
//! measured of it (drift, latency, and the jitter of recent latencies) is recorded ([`monitor`]),
//! too much jitter holds the bots back ([`jitter`]), and a leaderboard counts the edits of each
//! domain ([`leaderboard`], [`tables`]). At the end of a run the samples are summed up
//! ([`stats`], [`report`]).
//!
//! The library computes; it neither reads the stream nor prints. The functions whose names begin
//! with `print` give the lines to be printed.

pub mod duration;
pub mod edit;
pub mod ingest;
pub mod jitter;
pub mod leaderboard;
pub mod monitor;
pub mod order;
pub mod queue;
pub mod report;
pub mod stats;
pub mod tables;
pub mod text;

pub use duration::Duration;
pub use edit::WikipediaEdit;
pub use jitter::{record_jitter, update_degraded_mode};
pub use leaderboard::{update_leaderboard, Leaderboard};
pub use monitor::{handle_packet, process_event, Monitor};
pub use report::print_final_statistics;
pub use stats::{avg_duration, RunStats};
pub use tables::{print_final_leaderboard, print_top_three};
