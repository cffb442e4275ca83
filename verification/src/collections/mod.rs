//! The order book and the types it is built from.
use vstd::prelude::*;

pub mod account;
pub mod book;
pub mod laws;
pub mod listing;
pub mod order;
pub mod order_map;
pub mod ordered;
pub mod queue;
pub mod side_book;
pub mod tally;
pub mod text_map;
pub mod tidy;
pub mod walk;

verus! {

/// The side of the market an order rests on.
#[derive(PartialEq, Eq, Hash, Debug, Clone, Copy, Structural)]
pub enum Side {
    Ask,
    Bid,
}

} // verus!
