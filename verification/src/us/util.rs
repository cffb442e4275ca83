//! The kinds of securities and markets, and times and volumes as whole numbers.
use vstd::prelude::*;

verus! {

/// The kind of a security.
#[derive(Debug, Clone, PartialEq, Eq, Structural)]
pub enum SecurityType {
    ADR,
    CommonStock,
    Debentures,
    Etf,
    Foreign,
    UsDepositoryShares,
    Units,
    IndexLinkedNotes,
    Trust,
    OrdinaryShares,
    PreferedStock,
    Rights,
}

/// The market that data comes from.
#[derive(Debug, Clone, PartialEq, Eq, Structural)]
pub enum MarketType {
    Nasdaq,
    Arca,
}

/// The side that a job works.
#[derive(Debug, Clone, PartialEq, Eq, Structural)]
pub enum AskBidType {
    Ask,
    Bid,
}

/// A time of day in nanoseconds.
#[derive(Copy, Clone, Hash, PartialEq, Eq, Debug, Structural)]
pub struct Time {
    pub inner: u64,
}

impl Time {
    pub fn get_nanoseconds(&self) -> (nanoseconds: u64)
        ensures
            nanoseconds == self.inner,
    {
        self.inner
    }
}

/// A volume in shares.
#[derive(Debug, Clone, PartialEq, Eq, Structural)]
pub struct VolumeBasis {
    pub inner: u64,
}

impl VolumeBasis {
    pub fn get_inner(&self) -> (inner: u64)
        ensures
            inner == self.inner,
    {
        self.inner
    }
}

} // verus!
