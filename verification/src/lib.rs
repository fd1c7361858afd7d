//! Verified core of a Prometheus exporter for Solana validators.
//!
//! The network client, the async loops and the metrics registry live outside
//! this crate; what they hand over is decided here: epoch arithmetic, stake
//! aggregation, leader-slot bookkeeping, reward tracking, vote-credit ranking
//! and vote-latency detection.
use vstd::prelude::*;

pub mod credits;
pub mod keys;
pub mod latency;
pub mod leader;
pub mod production;
pub mod rewards;
pub mod schedule;
pub mod slots;
pub mod stake;
pub mod text;

verus! {

} // verus!
