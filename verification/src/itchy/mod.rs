//! What the library knows of the Nasdaq ITCH feed.
use vstd::prelude::*;
use crate::us::price::PriceBasis;

pub mod enums;

pub use crate::itchy::enums::{
    CrossType, EventCode, FinancialStatus, ImbalanceDirection, InterestFlag, IpoReleaseQualifier,
    IssueClassification, IssueSubType, LevelBreached, LuldRefPriceTier, MarketCategory,
    MarketMakerMode, MarketParticipantState, RegShoAction, TradingState,
};

verus! {

/// The side of an order.
pub type Side = crate::collections::Side;

/// A message of the feed.
#[derive(Debug, Clone, PartialEq)]
pub struct Message {
    /// The number of the security for the day, 0 for messages about no one security.
    pub stock_locate: u16,
    /// Nanoseconds since midnight.
    pub timestamp: u64,
    pub body: Body,
}

/// A new order.
#[derive(Debug, Clone, PartialEq)]
pub struct AddOrder {
    pub reference: u64,
    pub side: Side,
    pub shares: u32,
    pub price: PriceBasis,
    /// The firm that entered the order, where the order names it.
    pub mpid: Option<String>,
}

/// An order that takes the place of another.
#[derive(Debug, Clone, PartialEq)]
pub struct ReplaceOrder {
    pub old_reference: u64,
    pub new_reference: u64,
    pub shares: u32,
    pub price: PriceBasis,
}

/// The trade of an auction.
#[derive(Debug, Clone, PartialEq)]
pub struct CrossTrade {
    pub shares: u64,
    pub cross_price: PriceBasis,
    pub cross_type: CrossType,
}

/// A trade against an order that the book does not show.
#[derive(Debug, Clone, PartialEq)]
pub struct NonCrossTrade {
    pub reference: u64,
    pub side: Side,
    pub shares: u32,
    pub price: PriceBasis,
}

/// What the feed says of a security at the start of the day.
#[derive(Debug, Clone, PartialEq)]
pub struct StockDirectory {
    pub stock: String,
    pub market_category: MarketCategory,
    pub financial_status: FinancialStatus,
    pub round_lot_size: u32,
    pub round_lots_only: bool,
    pub issue_classification: IssueClassification,
    pub issue_subtype: IssueSubType,
}

/// A firm that makes a market in a security.
#[derive(Debug, Clone, PartialEq)]
pub struct MarketParticipantPosition {
    pub mpid: String,
    pub stock: String,
    pub primary_market_maker: bool,
    pub market_maker_mode: MarketMakerMode,
    pub market_participant_state: MarketParticipantState,
}

/// The imbalance of an auction.
#[derive(Debug, Clone, PartialEq)]
pub struct ImbalanceIndicator {
    pub paired_shares: u64,
    pub imbalance_shares: u64,
    pub imbalance_direction: ImbalanceDirection,
    pub stock: String,
    pub far_price: PriceBasis,
    pub near_price: PriceBasis,
    pub current_ref_price: PriceBasis,
    pub cross_type: CrossType,
    pub price_variation_indicator: char,
}

/// What a message says, by its kind.
#[derive(Debug, Clone, PartialEq)]
pub enum Body {
    AddOrder(AddOrder),
    Breach(LevelBreached),
    BrokenTrade { match_number: u64 },
    CrossTrade(CrossTrade),
    DeleteOrder { reference: u64 },
    Imbalance(ImbalanceIndicator),
    IpoQuotingPeriod,
    LULDAuctionCollar,
    MwcbDeclineLevel,
    NonCrossTrade(NonCrossTrade),
    OrderCancelled { reference: u64, cancelled: u32 },
    OrderExecuted { reference: u64, executed: u32, match_number: u64 },
    OrderExecutedWithPrice {
        reference: u64,
        executed: u32,
        match_number: u64,
        printable: bool,
        price: PriceBasis,
    },
    ParticipantPosition(MarketParticipantPosition),
    RegShoRestriction { action: RegShoAction },
    ReplaceOrder(ReplaceOrder),
    RetailPriceImprovementIndicator(InterestFlag),
    StockDirectory(StockDirectory),
    SystemEvent { event: EventCode },
    TradingAction { trading_state: TradingState },
}

} // verus!
