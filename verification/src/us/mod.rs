//! What the venues of the United States share: sides as numbers, prices on a basis.
use vstd::prelude::*;
use crate::collections::Side;

pub mod price;
pub mod util;

verus! {

/// The number that stands for a side in a record.
pub open spec fn side_code(side: Side) -> u64 {
    match side {
        Side::Ask => 1,
        Side::Bid => 2,
    }
}

/// The number that stands for a side in a record: 1 for an ask, 2 for a bid.
pub fn encode_side(side: Side) -> (code: u64)
    ensures
        code == side_code(side),
{
    match side {
        Side::Bid => 2,
        Side::Ask => 1,
    }
}

/// The side that a number of a record stands for.
pub fn decode_side(side: u64) -> (decoded: Side)
    requires
        side == 1 || side == 2,
    ensures
        side_code(decoded) == side,
{
    if side == 1 {
        Side::Ask
    } else {
        Side::Bid
    }
}

/// Every side comes back from its number.
pub proof fn lemma_side_code_round_trip(side: Side)
    ensures
        side_code(side) == 1 || side_code(side) == 2,
        side_code(side) == 1 <==> side == Side::Ask,
        side_code(side) == 2 <==> side == Side::Bid,
{
}

} // verus!
