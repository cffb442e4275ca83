//! The records of a day of the Nasdaq feed, and their replay.
use vstd::prelude::*;
use crate::nasdaq::constants::{INTERVAL_NS, START_TIME_NS};

pub mod book;
pub mod chain;
pub mod constants;
pub mod data;
pub mod replay;
pub mod stat;

verus! {

/// The interval of the day that a time falls into, counted from the start
/// of the early session.
pub fn interval_loc(timestamp: u64) -> (interval: usize)
    requires
        timestamp >= START_TIME_NS,
        (timestamp - START_TIME_NS) / (INTERVAL_NS as int) <= usize::MAX,
    ensures
        interval == (timestamp - START_TIME_NS) / (INTERVAL_NS as int),
{
    ((timestamp - START_TIME_NS) / INTERVAL_NS) as usize
}

} // verus!
