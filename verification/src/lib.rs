//! Chain-metrics ingestion library.
//!
//! The library pulls together the logic of a small chain-metrics service:
//! it walks a range of blocks to derive per-day transaction counts, computes
//! a seven-day moving average over the stored history, sweeps a fixed list of
//! confirmation targets for fee estimates, and reconciles everything against
//! previously stored rows with upsert semantics. The node RPC transport and
//! the relational database are outside collaborators: callers fetch raw block
//! and fee data, hand it in as plain values, and mirror the resulting store
//! contents back out.

use vstd::prelude::*;

pub mod pipeline;
pub mod store;

verus! {

/// Estimated number of blocks the network produces per day. A policy
/// constant used to bucket block heights into calendar days; it is an
/// approximation, not derived from actual inter-block timing.
pub const BLOCKS_PER_DAY: u64 = 144;

/// Seconds in a calendar day, used to bucket block timestamps into days.
pub const SECONDS_PER_DAY: u64 = 86400;

/// The calendar day (counted in days since the Unix epoch, UTC) that a
/// block timestamp falls on.
pub fn day_of_unix_time(time: u32) -> (day: u64)
    ensures
        day == time as u64 / SECONDS_PER_DAY,
{
    time as u64 / SECONDS_PER_DAY
}

} // verus!
