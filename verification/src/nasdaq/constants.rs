//! The hours of the trading day, in nanoseconds since midnight.
use vstd::prelude::*;

verus! {

/// Minutes as nanoseconds.
pub open spec fn spec_min_to_ns(min: u64) -> int {
    min * 60 * 1000000000
}

/// Seconds as nanoseconds.
pub open spec fn spec_sec_to_ns(sec: u64) -> int {
    sec * 1000000000
}

/// Minutes as nanoseconds.
pub fn min_to_ns(min: u64) -> (ns: u64)
    requires
        spec_min_to_ns(min) <= u64::MAX,
    ensures
        ns == spec_min_to_ns(min),
{
    min * 60 * 1000000000
}

/// Seconds as nanoseconds.
pub fn sec_to_ns(sec: u64) -> (ns: u64)
    requires
        spec_sec_to_ns(sec) <= u64::MAX,
    ensures
        ns == spec_sec_to_ns(sec),
{
    sec * 1_000_000_000
}

/// The length of an interval of the statistics: one second.
pub const INTERVAL_NS: u64 = 1_000_000_000;

/// The early session starts at 4:00.
pub const START_TIME_NS: u64 = 14_400_000_000_000;

/// The late session ends at 20:00; messages come for a minute more.
pub const END_TIME_NS: u64 = 72_060_000_000_000;

/// The regular session starts at 9:30.
pub const REG_START_TIME_NS: u64 = 34_200_000_000_000;

/// The regular session ends at 16:00.
pub const REG_END_TIME_NS: u64 = 57_600_000_000_000;

/// How many intervals the day has.
pub const T_N: usize = 57660;

/// The first interval of the regular session.
pub const R_N: usize = 19800;

/// The first interval after the regular session.
pub const P_N: usize = 43200;

/// The constants are the hours that they stand for.
pub proof fn lemma_hours()
    ensures
        INTERVAL_NS == spec_sec_to_ns(1),
        START_TIME_NS == spec_min_to_ns(240),
        END_TIME_NS == spec_min_to_ns(1201),
        REG_START_TIME_NS == spec_min_to_ns(570),
        REG_END_TIME_NS == spec_min_to_ns(960),
        T_N == ((END_TIME_NS - START_TIME_NS - 1) / (INTERVAL_NS as int)) + 1,
        R_N == ((REG_START_TIME_NS - START_TIME_NS - 1) / (INTERVAL_NS as int)) + 1,
        P_N == ((REG_END_TIME_NS - START_TIME_NS - 1) / (INTERVAL_NS as int)) + 1,
{
}

} // verus!
