//! The codes and the messages of the NYSE Arca integrated feed.
use vstd::prelude::*;
use vstd::string::StrSliceExecFns;
use crate::collections::Side;
use crate::us::price::PriceBasis;

verus! {

/// The one character of a text that has one, and nothing for any other text.
pub open spec fn only_char(text: Seq<char>) -> Option<char> {
    if text.len() == 1 {
        Some(text[0])
    } else {
        None
    }
}

/// The one character of a text that has one.
pub fn single_char(text: &str) -> (c: Option<char>)
    ensures
        c == only_char(text@),
{
    if text.unicode_len() == 1 {
        Some(text.get_char(0))
    } else {
        None
    }
}

/// The side that a character stands for: `B` buys, `S` sells.
pub open spec fn side_of(code: char) -> Option<Side> {
    if code == 'B' {
        Some(Side::Bid)
    } else if code == 'S' {
        Some(Side::Ask)
    } else {
        None
    }
}

/// The side that a text names: `B` a bid, `S` an ask, anything else none.
pub fn parse_side(s: &str) -> (side: Option<Side>)
    ensures
        side == match only_char(s@) {
            Some(code) => side_of(code),
            None => None,
        },
{
    match single_char(s) {
        Some(code) => {
            if code == 'B' {
                Some(Side::Bid)
            } else if code == 'S' {
                Some(Side::Ask)
            } else {
                None
            }
        },
        None => None,
    }
}

/// Whether a modified order keeps its place in the queue.
#[derive(Debug, Clone, Copy, PartialEq, Eq, Structural)]
pub enum PositionChange {
    Lost,
    Kept,
}

/// Whether a character says that an order keeps its place.
pub open spec fn position_change_of(code: char) -> Option<PositionChange> {
    if code == '0' {
        Some(PositionChange::Kept)
    } else if code == '1' {
        Some(PositionChange::Lost)
    } else {
        None
    }
}

/// Whether a modified order keeps its place: `0` says it does, `1` that it does not.
pub fn parse_position_change(s: &str) -> (change: PositionChange)
    requires
        only_char(s@) matches Some(code) && position_change_of(code) is Some,
    ensures
        Some(change) == position_change_of(only_char(s@)->0),
{
    let code = single_char(s).unwrap();
    if code == '0' {
        PositionChange::Kept
    } else {
        PositionChange::Lost
    }
}

/// The sides on which retail price improvement is on offer: `A` the bid, `B` the offer, `C` both.
#[derive(Debug, Clone, Copy, PartialEq, Eq, Structural)]
pub enum RetailPriceImprovementExist {
    A,
    B,
    C,
}

/// The sides of retail price improvement that a character stands for.
pub open spec fn rpi_indicator_of(code: char) -> Option<RetailPriceImprovementExist> {
    if code == 'A' {
        Some(RetailPriceImprovementExist::A)
    } else if code == 'B' {
        Some(RetailPriceImprovementExist::B)
    } else if code == 'C' {
        Some(RetailPriceImprovementExist::C)
    } else {
        None
    }
}

/// The sides on which retail price improvement is on offer, where the text
/// names any.
pub fn parse_rti_indicator(s: &str) -> (indicator: Option<RetailPriceImprovementExist>)
    ensures
        indicator == match only_char(s@) {
            Some(code) => rpi_indicator_of(code),
            None => None,
        },
{
    match single_char(s) {
        Some(code) => {
            if code == 'A' {
                Some(RetailPriceImprovementExist::A)
            } else if code == 'B' {
                Some(RetailPriceImprovementExist::B)
            } else if code == 'C' {
                Some(RetailPriceImprovementExist::C)
            } else {
                None
            }
        },
        None => None,
    }
}

/// The auction that a cross trade comes from: `E` early opening, `O` opening, `R` reopening, `C` closing.
#[derive(Debug, Clone, Copy, PartialEq, Eq, Structural)]
pub enum CrossType {
    E,
    O,
    R,
    C,
}

/// The auction that a character stands for.
pub open spec fn cross_type_of(code: char) -> Option<CrossType> {
    if code == 'E' {
        Some(CrossType::E)
    } else if code == 'O' {
        Some(CrossType::O)
    } else if code == '5' {
        Some(CrossType::R)
    } else if code == '6' {
        Some(CrossType::C)
    } else {
        None
    }
}

/// The auction that a cross trade comes from.
pub fn parse_cross_type(s: &str) -> (cross_type: CrossType)
    requires
        only_char(s@) matches Some(code) && cross_type_of(code) is Some,
    ensures
        Some(cross_type) == cross_type_of(only_char(s@)->0),
{
    let code = single_char(s).unwrap();
    if code == 'E' {
        CrossType::E
    } else if code == 'O' {
        CrossType::O
    } else if code == '5' {
        CrossType::R
    } else {
        CrossType::C
    }
}

/// The settlement of a trade.
#[derive(Debug, Clone, Copy, PartialEq, Eq, Structural)]
pub enum TradeCondition1 {
    RegularSale,
    Cash,
    NextDayTrade,
}

/// The settlement that a character stands for.
pub open spec fn trade_condition_1_of(code: char) -> Option<TradeCondition1> {
    if code == '@' {
        Some(TradeCondition1::RegularSale)
    } else if code == 'C' {
        Some(TradeCondition1::Cash)
    } else if code == 'N' {
        Some(TradeCondition1::NextDayTrade)
    } else {
        None
    }
}

/// The settlement of a trade.
pub fn encode_trade_condition_1(s: &str) -> (condition: TradeCondition1)
    requires
        only_char(s@) matches Some(code) && trade_condition_1_of(code) is Some,
    ensures
        Some(condition) == trade_condition_1_of(only_char(s@)->0),
{
    let code = single_char(s).unwrap();
    if code == '@' {
        TradeCondition1::RegularSale
    } else if code == 'C' {
        TradeCondition1::Cash
    } else {
        TradeCondition1::NextDayTrade
    }
}

/// What kind of order or auction a trade comes from.
#[derive(Debug, Clone, Copy, PartialEq, Eq, Structural)]
pub enum TradeCondition2 {
    NotAvailable,
    IntermarketSweepOrder,
    MarketCenterOpeningTrade,
    MarketCenterReopeningTrade,
    MarketCenterClosingTrade,
    QualifiedContingentTrade,
}

/// The origin of a trade that a character stands for.
pub open spec fn trade_condition_2_of(code: char) -> Option<TradeCondition2> {
    if code == ' ' {
        Some(TradeCondition2::NotAvailable)
    } else if code == 'F' {
        Some(TradeCondition2::IntermarketSweepOrder)
    } else if code == 'O' {
        Some(TradeCondition2::MarketCenterOpeningTrade)
    } else if code == '5' {
        Some(TradeCondition2::MarketCenterReopeningTrade)
    } else if code == '6' {
        Some(TradeCondition2::MarketCenterClosingTrade)
    } else if code == '7' {
        Some(TradeCondition2::QualifiedContingentTrade)
    } else {
        None
    }
}

/// What kind of order or auction a trade comes from.
pub fn encode_trade_condition_2(s: &str) -> (condition: TradeCondition2)
    requires
        only_char(s@) matches Some(code) && trade_condition_2_of(code) is Some,
    ensures
        Some(condition) == trade_condition_2_of(only_char(s@)->0),
{
    let code = single_char(s).unwrap();
    if code == ' ' {
        TradeCondition2::NotAvailable
    } else if code == 'F' {
        TradeCondition2::IntermarketSweepOrder
    } else if code == 'O' {
        TradeCondition2::MarketCenterOpeningTrade
    } else if code == '5' {
        TradeCondition2::MarketCenterReopeningTrade
    } else if code == '6' {
        TradeCondition2::MarketCenterClosingTrade
    } else {
        TradeCondition2::QualifiedContingentTrade
    }
}

/// Whether a trade fell outside regular hours or out of sequence.
#[derive(Debug, Clone, Copy, PartialEq, Eq, Structural)]
pub enum TradeCondition3 {
    NotAvailable,
    ExtendedHoursTrade,
    ExtendedHoursSoldOutOfSequence,
    Sold,
}

/// The timing of a trade that a character stands for.
pub open spec fn trade_condition_3_of(code: char) -> Option<TradeCondition3> {
    if code == ' ' {
        Some(TradeCondition3::NotAvailable)
    } else if code == 'T' {
        Some(TradeCondition3::ExtendedHoursTrade)
    } else if code == 'U' {
        Some(TradeCondition3::ExtendedHoursSoldOutOfSequence)
    } else if code == 'Z' {
        Some(TradeCondition3::Sold)
    } else {
        None
    }
}

/// Whether a trade fell outside regular hours or out of sequence.
pub fn encode_trade_condition_3(s: &str) -> (condition: TradeCondition3)
    requires
        only_char(s@) matches Some(code) && trade_condition_3_of(code) is Some,
    ensures
        Some(condition) == trade_condition_3_of(only_char(s@)->0),
{
    let code = single_char(s).unwrap();
    if code == ' ' {
        TradeCondition3::NotAvailable
    } else if code == 'T' {
        TradeCondition3::ExtendedHoursTrade
    } else if code == 'U' {
        TradeCondition3::ExtendedHoursSoldOutOfSequence
    } else {
        TradeCondition3::Sold
    }
}

/// Whether a trade was an odd lot or contingent.
#[derive(Debug, Clone, Copy, PartialEq, Eq, Structural)]
pub enum TradeCondition4 {
    NotAvailable,
    OddLotTrade,
    ContingentTrade,
}

/// The lot of a trade that a character stands for.
pub open spec fn trade_condition_4_of(code: char) -> Option<TradeCondition4> {
    if code == ' ' {
        Some(TradeCondition4::NotAvailable)
    } else if code == 'I' {
        Some(TradeCondition4::OddLotTrade)
    } else if code == 'V' {
        Some(TradeCondition4::ContingentTrade)
    } else {
        None
    }
}

/// Whether a trade was an odd lot or contingent.
pub fn encode_trade_condition_4(s: &str) -> (condition: TradeCondition4)
    requires
        only_char(s@) matches Some(code) && trade_condition_4_of(code) is Some,
    ensures
        Some(condition) == trade_condition_4_of(only_char(s@)->0),
{
    let code = single_char(s).unwrap();
    if code == ' ' {
        TradeCondition4::NotAvailable
    } else if code == 'I' {
        TradeCondition4::OddLotTrade
    } else {
        TradeCondition4::ContingentTrade
    }
}

/// The auction that an imbalance message is about.
#[derive(Debug, Clone, Copy, PartialEq, Eq, Structural)]
pub enum AuctionType {
    O,
    M,
    H,
    R,
    C,
    P,
}

/// The auction that a character stands for.
pub open spec fn auction_type_of(code: char) -> Option<AuctionType> {
    if code == 'O' {
        Some(AuctionType::O)
    } else if code == 'M' {
        Some(AuctionType::M)
    } else if code == 'H' {
        Some(AuctionType::H)
    } else if code == 'R' {
        Some(AuctionType::R)
    } else if code == 'C' {
        Some(AuctionType::C)
    } else if code == 'P' {
        Some(AuctionType::P)
    } else {
        None
    }
}

/// The auction that an imbalance message is about.
pub fn parse_auction_type(s: &str) -> (auction: AuctionType)
    requires
        only_char(s@) matches Some(code) && auction_type_of(code) is Some,
    ensures
        Some(auction) == auction_type_of(only_char(s@)->0),
{
    let code = single_char(s).unwrap();
    if code == 'O' {
        AuctionType::O
    } else if code == 'M' {
        AuctionType::M
    } else if code == 'H' {
        AuctionType::H
    } else if code == 'R' {
        AuctionType::R
    } else if code == 'C' {
        AuctionType::C
    } else {
        AuctionType::P
    }
}

/// How far an auction has come.
#[derive(Debug, Clone, Copy, PartialEq, Eq, Structural)]
pub enum AuctionStatus {
    A,
    B,
    C,
    D,
}

impl AuctionStatus {
    /// The status that a number stands for: `A` for 0 up to `D` for 3.
    pub open spec fn of(number: u8) -> Option<AuctionStatus> {
        if number == 0 {
            Some(AuctionStatus::A)
        } else if number == 1 {
            Some(AuctionStatus::B)
        } else if number == 2 {
            Some(AuctionStatus::C)
        } else if number == 3 {
            Some(AuctionStatus::D)
        } else {
            None
        }
    }

    pub fn from_u8(number: u8) -> (status: Option<AuctionStatus>)
        ensures
            status == Self::of(number),
    {
        if number == 0 {
            Some(AuctionStatus::A)
        } else if number == 1 {
            Some(AuctionStatus::B)
        } else if number == 2 {
            Some(AuctionStatus::C)
        } else if number == 3 {
            Some(AuctionStatus::D)
        } else {
            None
        }
    }
}

/// Whether an imbalance is frozen.
#[derive(Debug, Clone, Copy, PartialEq, Eq, Structural)]
pub enum FreezeStatus {
    A,
    B,
}

impl FreezeStatus {
    /// The status that a number stands for: `A` for 0, `B` for 1.
    pub open spec fn of(number: u8) -> Option<FreezeStatus> {
        if number == 0 {
            Some(FreezeStatus::A)
        } else if number == 1 {
            Some(FreezeStatus::B)
        } else {
            None
        }
    }

    pub fn from_u8(number: u8) -> (status: Option<FreezeStatus>)
        ensures
            status == Self::of(number),
    {
        if number == 0 {
            Some(FreezeStatus::A)
        } else if number == 1 {
            Some(FreezeStatus::B)
        } else {
            None
        }
    }
}

/// A new order.
#[derive(Debug, Clone, PartialEq)]
pub struct AddOrder {
    pub order_id: u64,
    pub price: PriceBasis,
    pub volume: u32,
    pub side: Side,
    /// The firm that entered the order, or nothing where it gave no name.
    pub firm_id: String,
}

/// A change of the price or the volume of an order.
#[derive(Debug, Clone, PartialEq)]
pub struct ModifyOrder {
    pub order_id: u64,
    pub price: PriceBasis,
    pub volume: u32,
    pub position_change: PositionChange,
}

/// The end of an order.
#[derive(Debug, Clone, PartialEq)]
pub struct DeleteOrder {
    pub order_id: u64,
}

/// An order that takes the place of another.
#[derive(Debug, Clone, PartialEq)]
pub struct ReplaceOrder {
    pub order_id: u64,
    pub new_order_id: u64,
    pub price: PriceBasis,
    pub volume: u32,
}

/// A trade against an order in the book.
#[derive(Debug, Clone, PartialEq)]
pub struct OrderExecution {
    pub order_id: u64,
    pub trade_id: u32,
    pub price: PriceBasis,
    pub volume: u32,
    pub printable_flag: u8,
}

/// A trade against an order that the book does not show.
#[derive(Debug, Clone, PartialEq)]
pub struct NonDisplayedTrade {
    pub trade_id: u32,
    pub price: PriceBasis,
    pub volume: u32,
}

/// A trade that is taken back.
#[derive(Debug, Clone, PartialEq)]
pub struct TradeCancel {
    pub trade_id: u32,
}

/// Where retail price improvement is on offer.
#[derive(Debug, Clone, PartialEq)]
pub struct RetailPriceImprovement {
    pub rpi_indicator: Option<RetailPriceImprovementExist>,
}

/// The trade of an auction.
#[derive(Debug, Clone, PartialEq)]
pub struct CrossTrade {
    pub cross_id: u32,
    pub price: PriceBasis,
    pub volume: u32,
    pub cross_type: CrossType,
}

/// The corrected volume of the trade of an auction.
#[derive(Debug, Clone, PartialEq)]
pub struct CrossCorrection {
    pub cross_id: u32,
    pub volume: u32,
}

/// An order as the feed repeats it after a gap.
#[derive(Debug, Clone, PartialEq)]
pub struct AddOrderRefresh {
    pub order_id: u16,
    pub price: PriceBasis,
    pub volume: u32,
    pub side: Side,
    /// The firm that entered the order, or nothing where it gave no name.
    pub firm_id: String,
}

/// The market on which a symbol trades.
#[derive(Debug, Clone, Copy, PartialEq, Eq, Structural)]
pub enum MarketCategory {
    Nyse,
    NyseArcaEquities,
    NyseArcaOptions,
    NyseBonds,
    GlobalOTC,
    NyseAmexOptions,
    NyseAmericanEquities,
    NyseNationalEquities,
    NyseChicagoEquities,
}

/// The status that a security enters.
#[derive(Debug, Clone, Copy, PartialEq, Eq, Structural)]
pub enum SecurityStatusType {
    TradingHalt,
    Resume,
    ShortSaleRestrictionActivatedDay1,
    ShortSaleRestrictionContinuedDay2,
    ShortSaleRestrictionDeactivated,
    PreOpening,
    BeginAcceptingOrders,
    EarlySession,
    CoreSession,
    LateSession,
    Closed,
    PriceIndication,
    PreOpeningPriceIndication,
}

/// The status that a character stands for.
pub open spec fn security_status_type_of(code: char) -> Option<SecurityStatusType> {
    if code == '4' {
        Some(SecurityStatusType::TradingHalt)
    } else if code == '5' {
        Some(SecurityStatusType::Resume)
    } else if code == 'A' {
        Some(SecurityStatusType::ShortSaleRestrictionActivatedDay1)
    } else if code == 'C' {
        Some(SecurityStatusType::ShortSaleRestrictionContinuedDay2)
    } else if code == 'D' {
        Some(SecurityStatusType::ShortSaleRestrictionDeactivated)
    } else if code == 'P' {
        Some(SecurityStatusType::PreOpening)
    } else if code == 'B' {
        Some(SecurityStatusType::BeginAcceptingOrders)
    } else if code == 'E' {
        Some(SecurityStatusType::EarlySession)
    } else if code == 'O' {
        Some(SecurityStatusType::CoreSession)
    } else if code == 'L' {
        Some(SecurityStatusType::LateSession)
    } else if code == 'X' {
        Some(SecurityStatusType::Closed)
    } else if code == 'I' {
        Some(SecurityStatusType::PriceIndication)
    } else if code == 'G' {
        Some(SecurityStatusType::PreOpeningPriceIndication)
    } else {
        None
    }
}

/// The status that a security enters.
pub fn encode_security_status_type(s: &str) -> (status: SecurityStatusType)
    requires
        only_char(s@) matches Some(code) && security_status_type_of(code) is Some,
    ensures
        Some(status) == security_status_type_of(only_char(s@)->0),
{
    let code = single_char(s).unwrap();
    if code == '4' {
        SecurityStatusType::TradingHalt
    } else if code == '5' {
        SecurityStatusType::Resume
    } else if code == 'A' {
        SecurityStatusType::ShortSaleRestrictionActivatedDay1
    } else if code == 'C' {
        SecurityStatusType::ShortSaleRestrictionContinuedDay2
    } else if code == 'D' {
        SecurityStatusType::ShortSaleRestrictionDeactivated
    } else if code == 'P' {
        SecurityStatusType::PreOpening
    } else if code == 'B' {
        SecurityStatusType::BeginAcceptingOrders
    } else if code == 'E' {
        SecurityStatusType::EarlySession
    } else if code == 'O' {
        SecurityStatusType::CoreSession
    } else if code == 'L' {
        SecurityStatusType::LateSession
    } else if code == 'X' {
        SecurityStatusType::Closed
    } else if code == 'I' {
        SecurityStatusType::PriceIndication
    } else {
        SecurityStatusType::PreOpeningPriceIndication
    }
}

/// Why a security is halted.
#[derive(Debug, Clone, Copy, PartialEq, Eq, Structural)]
pub enum HaltConditionType {
    SecurityNotDelayedHalted,
    NewsReleased,
    OrderImbalance,
    NewsPending,
    LULDPause,
    EquipmentChangeover,
    NoOpenResume,
    AdditionalInformationRequested,
    RegulatoryConcern,
    MergerEffective,
    ETFComponentPricesNotAvailable,
    CorporateAction,
    NewSecurityOffering,
    IntradayIndicativeValueNotAvailable,
    MarketWideCircuitBreakerHaltLevel1,
    MarketWideCircuitBreakerHaltLevel2,
    MarketWideCircuitBreakerHaltLevel3,
}

/// The reason of a halt that a character stands for.
pub open spec fn halt_condition_of(code: char) -> Option<HaltConditionType> {
    if code == '~' {
        Some(HaltConditionType::SecurityNotDelayedHalted)
    } else if code == 'D' {
        Some(HaltConditionType::NewsReleased)
    } else if code == 'I' {
        Some(HaltConditionType::OrderImbalance)
    } else if code == 'P' {
        Some(HaltConditionType::NewsPending)
    } else if code == 'M' {
        Some(HaltConditionType::LULDPause)
    } else if code == 'X' {
        Some(HaltConditionType::EquipmentChangeover)
    } else if code == 'Z' {
        Some(HaltConditionType::NoOpenResume)
    } else if code == 'A' {
        Some(HaltConditionType::AdditionalInformationRequested)
    } else if code == 'C' {
        Some(HaltConditionType::RegulatoryConcern)
    } else if code == 'E' {
        Some(HaltConditionType::MergerEffective)
    } else if code == 'F' {
        Some(HaltConditionType::ETFComponentPricesNotAvailable)
    } else if code == 'N' {
        Some(HaltConditionType::CorporateAction)
    } else if code == 'O' {
        Some(HaltConditionType::NewSecurityOffering)
    } else if code == 'V' {
        Some(HaltConditionType::IntradayIndicativeValueNotAvailable)
    } else if code == '1' {
        Some(HaltConditionType::MarketWideCircuitBreakerHaltLevel1)
    } else if code == '2' {
        Some(HaltConditionType::MarketWideCircuitBreakerHaltLevel2)
    } else if code == '3' {
        Some(HaltConditionType::MarketWideCircuitBreakerHaltLevel3)
    } else {
        None
    }
}

/// Why a security is halted.
pub fn encode_halt_condition(s: &str) -> (condition: HaltConditionType)
    requires
        only_char(s@) matches Some(code) && halt_condition_of(code) is Some,
    ensures
        Some(condition) == halt_condition_of(only_char(s@)->0),
{
    let code = single_char(s).unwrap();
    if code == '~' {
        HaltConditionType::SecurityNotDelayedHalted
    } else if code == 'D' {
        HaltConditionType::NewsReleased
    } else if code == 'I' {
        HaltConditionType::OrderImbalance
    } else if code == 'P' {
        HaltConditionType::NewsPending
    } else if code == 'M' {
        HaltConditionType::LULDPause
    } else if code == 'X' {
        HaltConditionType::EquipmentChangeover
    } else if code == 'Z' {
        HaltConditionType::NoOpenResume
    } else if code == 'A' {
        HaltConditionType::AdditionalInformationRequested
    } else if code == 'C' {
        HaltConditionType::RegulatoryConcern
    } else if code == 'E' {
        HaltConditionType::MergerEffective
    } else if code == 'F' {
        HaltConditionType::ETFComponentPricesNotAvailable
    } else if code == 'N' {
        HaltConditionType::CorporateAction
    } else if code == 'O' {
        HaltConditionType::NewSecurityOffering
    } else if code == 'V' {
        HaltConditionType::IntradayIndicativeValueNotAvailable
    } else if code == '1' {
        HaltConditionType::MarketWideCircuitBreakerHaltLevel1
    } else if code == '2' {
        HaltConditionType::MarketWideCircuitBreakerHaltLevel2
    } else {
        HaltConditionType::MarketWideCircuitBreakerHaltLevel3
    }
}

/// The session that the market is in.
#[derive(Debug, Clone, Copy, PartialEq, Eq, Structural)]
pub enum MarketState {
    PreOpening,
    EarlySession,
    CoreSession,
    LateSession,
    Closed,
}

/// The session that a character stands for.
pub open spec fn market_state_of(code: char) -> Option<MarketState> {
    if code == 'P' {
        Some(MarketState::PreOpening)
    } else if code == 'E' {
        Some(MarketState::EarlySession)
    } else if code == 'O' {
        Some(MarketState::CoreSession)
    } else if code == 'L' {
        Some(MarketState::LateSession)
    } else if code == 'X' {
        Some(MarketState::Closed)
    } else {
        None
    }
}

/// The session that the market is in, where the text names one.
pub fn parse_market_state(s: &str) -> (state: Option<MarketState>)
    ensures
        state == match only_char(s@) {
            Some(code) => market_state_of(code),
            None => None,
        },
{
    match single_char(s) {
        Some(code) => {
            if code == 'P' {
                Some(MarketState::PreOpening)
            } else if code == 'E' {
                Some(MarketState::EarlySession)
            } else if code == 'O' {
                Some(MarketState::CoreSession)
            } else if code == 'L' {
                Some(MarketState::LateSession)
            } else if code == 'X' {
                Some(MarketState::Closed)
            } else {
                None
            }
        },
        None => None,
    }
}

/// The market that a number stands for.
pub open spec fn market_category_of(number: u16) -> Option<MarketCategory> {
    if number == 1 {
        Some(MarketCategory::Nyse)
    } else if number == 3 {
        Some(MarketCategory::NyseArcaEquities)
    } else if number == 4 {
        Some(MarketCategory::NyseArcaOptions)
    } else if number == 5 {
        Some(MarketCategory::NyseBonds)
    } else if number == 6 {
        Some(MarketCategory::GlobalOTC)
    } else if number == 8 {
        Some(MarketCategory::NyseAmexOptions)
    } else if number == 9 {
        Some(MarketCategory::NyseAmericanEquities)
    } else if number == 10 {
        Some(MarketCategory::NyseNationalEquities)
    } else if number == 11 {
        Some(MarketCategory::NyseChicagoEquities)
    } else {
        None
    }
}

/// The market on which a symbol trades.
pub fn parse_market_category(v: u16) -> (category: MarketCategory)
    requires
        market_category_of(v) is Some,
    ensures
        Some(category) == market_category_of(v),
{
    if v == 1 {
        MarketCategory::Nyse
    } else if v == 3 {
        MarketCategory::NyseArcaEquities
    } else if v == 4 {
        MarketCategory::NyseArcaOptions
    } else if v == 5 {
        MarketCategory::NyseBonds
    } else if v == 6 {
        MarketCategory::GlobalOTC
    } else if v == 8 {
        MarketCategory::NyseAmexOptions
    } else if v == 9 {
        MarketCategory::NyseAmericanEquities
    } else if v == 10 {
        MarketCategory::NyseNationalEquities
    } else {
        MarketCategory::NyseChicagoEquities
    }
}

/// An exchange, as the feed names it.
#[derive(Debug, Clone, Copy, PartialEq, Eq, Structural)]
pub enum ExchangeCode {
    Unlisted,
    Nyse,
    NyseArca,
    NyseNational,
    NASDAQ,
    NyseAmerican,
    NasdaqOMXBX,
    Nsx,
    Finra,
    Ise,
    Edga,
    Edgx,
    Ltse,
    NyseChicago,
    Cts,
    NasdaqOmx,
    IEX,
    CBSX,
    NasdaqOmxPsx,
    BATSY,
    BATS,
    OTCBBGlobalOTC,
    OtherOTCGlobalOTC,
    GlobalOTC,
}

/// The exchange that a character names as the one that set off a short-sale restriction.
pub open spec fn ssr_triggering_exchange_of(code: char) -> Option<ExchangeCode> {
    if code == 'N' {
        Some(ExchangeCode::Nyse)
    } else if code == 'P' {
        Some(ExchangeCode::NyseArca)
    } else if code == 'C' {
        Some(ExchangeCode::NyseNational)
    } else if code == 'Q' {
        Some(ExchangeCode::NASDAQ)
    } else if code == 'A' {
        Some(ExchangeCode::NyseAmerican)
    } else if code == 'B' {
        Some(ExchangeCode::NasdaqOMXBX)
    } else if code == 'D' {
        Some(ExchangeCode::Finra)
    } else if code == 'I' {
        Some(ExchangeCode::Ise)
    } else if code == 'J' {
        Some(ExchangeCode::Edga)
    } else if code == 'K' {
        Some(ExchangeCode::Edgx)
    } else if code == 'L' {
        Some(ExchangeCode::Ltse)
    } else if code == 'M' {
        Some(ExchangeCode::NyseChicago)
    } else if code == 'S' {
        Some(ExchangeCode::Cts)
    } else if code == 'T' {
        Some(ExchangeCode::NasdaqOmx)
    } else if code == 'V' {
        Some(ExchangeCode::IEX)
    } else if code == 'W' {
        Some(ExchangeCode::CBSX)
    } else if code == 'Y' {
        Some(ExchangeCode::BATSY)
    } else if code == 'Z' {
        Some(ExchangeCode::BATS)
    } else {
        None
    }
}

/// The exchange that set off a short-sale restriction, where the text names one.
pub fn parse_ssr_triggering_exchange_id(s: &str) -> (exchange: Option<ExchangeCode>)
    ensures
        exchange == match only_char(s@) {
            Some(code) => ssr_triggering_exchange_of(code),
            None => None,
        },
{
    match single_char(s) {
        Some(code) => {
            if code == 'N' {
                Some(ExchangeCode::Nyse)
            } else if code == 'P' {
                Some(ExchangeCode::NyseArca)
            } else if code == 'C' {
                Some(ExchangeCode::NyseNational)
            } else if code == 'Q' {
                Some(ExchangeCode::NASDAQ)
            } else if code == 'A' {
                Some(ExchangeCode::NyseAmerican)
            } else if code == 'B' {
                Some(ExchangeCode::NasdaqOMXBX)
            } else if code == 'D' {
                Some(ExchangeCode::Finra)
            } else if code == 'I' {
                Some(ExchangeCode::Ise)
            } else if code == 'J' {
                Some(ExchangeCode::Edga)
            } else if code == 'K' {
                Some(ExchangeCode::Edgx)
            } else if code == 'L' {
                Some(ExchangeCode::Ltse)
            } else if code == 'M' {
                Some(ExchangeCode::NyseChicago)
            } else if code == 'S' {
                Some(ExchangeCode::Cts)
            } else if code == 'T' {
                Some(ExchangeCode::NasdaqOmx)
            } else if code == 'V' {
                Some(ExchangeCode::IEX)
            } else if code == 'W' {
                Some(ExchangeCode::CBSX)
            } else if code == 'Y' {
                Some(ExchangeCode::BATSY)
            } else if code == 'Z' {
                Some(ExchangeCode::BATS)
            } else {
                None
            }
        },
        None => None,
    }
}

/// The exchange that a character names as the listing market.
pub open spec fn exchange_code_of(code: char) -> Option<ExchangeCode> {
    if code == 'N' {
        Some(ExchangeCode::Nyse)
    } else if code == 'P' {
        Some(ExchangeCode::NyseArca)
    } else if code == 'Q' {
        Some(ExchangeCode::NASDAQ)
    } else if code == 'A' {
        Some(ExchangeCode::NyseAmerican)
    } else if code == 'U' {
        Some(ExchangeCode::OTCBBGlobalOTC)
    } else if code == 'V' {
        Some(ExchangeCode::OtherOTCGlobalOTC)
    } else if code == 'Z' {
        Some(ExchangeCode::BATS)
    } else {
        None
    }
}

/// The market on which a symbol is listed, where the text names one.
pub fn parse_exchange_code(s: &str) -> (exchange: Option<ExchangeCode>)
    ensures
        exchange == match only_char(s@) {
            Some(code) => exchange_code_of(code),
            None => None,
        },
{
    match single_char(s) {
        Some(code) => {
            if code == 'N' {
                Some(ExchangeCode::Nyse)
            } else if code == 'P' {
                Some(ExchangeCode::NyseArca)
            } else if code == 'Q' {
                Some(ExchangeCode::NASDAQ)
            } else if code == 'A' {
                Some(ExchangeCode::NyseAmerican)
            } else if code == 'U' {
                Some(ExchangeCode::OTCBBGlobalOTC)
            } else if code == 'V' {
                Some(ExchangeCode::OtherOTCGlobalOTC)
            } else if code == 'Z' {
                Some(ExchangeCode::BATS)
            } else {
                None
            }
        },
        None => None,
    }
}

/// The kind of a security.
#[derive(Debug, Clone, Copy, PartialEq, Eq, Structural)]
pub enum IssueClassification {
    ADR,
    CommonStock,
    Debuntures,
    ETF,
    Foreign,
    USDepositaryShares,
    Units,
    IndexLinkedNotes,
    Trust,
    OrdinaryShares,
    PreferredStock,
    Rights,
    BeneficiaryInterest,
    Test,
    ClosedEndFund,
    Warrant,
}

/// Whether the short-sale restriction is in effect.
#[derive(Debug, Clone, Copy, PartialEq, Eq, Structural)]
pub enum SSRState {
    NoShortSaleInEffect,
    ShortSaleRestrictionInEffect,
}

/// The state of the short-sale restriction that a character stands for.
pub open spec fn ssr_state_of(code: char) -> Option<SSRState> {
    if code == '~' {
        Some(SSRState::NoShortSaleInEffect)
    } else if code == 'E' {
        Some(SSRState::ShortSaleRestrictionInEffect)
    } else {
        None
    }
}

/// Whether the short-sale restriction is in effect.
pub fn parse_ssr_state(s: &str) -> (state: SSRState)
    requires
        only_char(s@) matches Some(code) && ssr_state_of(code) is Some,
    ensures
        Some(state) == ssr_state_of(only_char(s@)->0),
{
    let code = single_char(s).unwrap();
    if code == '~' {
        SSRState::NoShortSaleInEffect
    } else {
        SSRState::ShortSaleRestrictionInEffect
    }
}

/// The kind of security that a character stands for.
pub open spec fn issue_classification_of(code: char) -> Option<IssueClassification> {
    if code == 'A' {
        Some(IssueClassification::ADR)
    } else if code == 'C' {
        Some(IssueClassification::CommonStock)
    } else if code == 'D' {
        Some(IssueClassification::Debuntures)
    } else if code == 'E' {
        Some(IssueClassification::ETF)
    } else if code == 'F' {
        Some(IssueClassification::Foreign)
    } else if code == 'H' {
        Some(IssueClassification::USDepositaryShares)
    } else if code == 'I' {
        Some(IssueClassification::Units)
    } else if code == 'L' {
        Some(IssueClassification::IndexLinkedNotes)
    } else if code == 'M' {
        Some(IssueClassification::Trust)
    } else if code == 'O' {
        Some(IssueClassification::OrdinaryShares)
    } else if code == 'P' {
        Some(IssueClassification::PreferredStock)
    } else if code == 'R' {
        Some(IssueClassification::Rights)
    } else if code == 'S' {
        Some(IssueClassification::BeneficiaryInterest)
    } else if code == 'T' {
        Some(IssueClassification::Test)
    } else if code == 'U' {
        Some(IssueClassification::ClosedEndFund)
    } else if code == 'W' {
        Some(IssueClassification::Warrant)
    } else {
        None
    }
}

/// The kind of a security.
pub fn parse_issue_classifcation(v: &str) -> (class: IssueClassification)
    requires
        only_char(v@) matches Some(code) && issue_classification_of(code) is Some,
    ensures
        Some(class) == issue_classification_of(only_char(v@)->0),
{
    let code = single_char(v).unwrap();
    if code == 'A' {
        IssueClassification::ADR
    } else if code == 'C' {
        IssueClassification::CommonStock
    } else if code == 'D' {
        IssueClassification::Debuntures
    } else if code == 'E' {
        IssueClassification::ETF
    } else if code == 'F' {
        IssueClassification::Foreign
    } else if code == 'H' {
        IssueClassification::USDepositaryShares
    } else if code == 'I' {
        IssueClassification::Units
    } else if code == 'L' {
        IssueClassification::IndexLinkedNotes
    } else if code == 'M' {
        IssueClassification::Trust
    } else if code == 'O' {
        IssueClassification::OrdinaryShares
    } else if code == 'P' {
        IssueClassification::PreferredStock
    } else if code == 'R' {
        IssueClassification::Rights
    } else if code == 'S' {
        IssueClassification::BeneficiaryInterest
    } else if code == 'T' {
        IssueClassification::Test
    } else if code == 'U' {
        IssueClassification::ClosedEndFund
    } else {
        IssueClassification::Warrant
    }
}

/// What the feed says of a symbol at the start of the day.
#[derive(Debug, Clone, PartialEq)]
pub struct SymbolIndexMapping {
    pub market_category: MarketCategory,
    pub system_id: u64,
    pub exchange_code: Option<ExchangeCode>,
    pub issue_classification: IssueClassification,
    pub prev_close_price: PriceBasis,
    pub prev_close_volume: u64,
    pub price_resolution: u64,
    pub round_lot_size: u32,
    pub round_lots_accepted: bool,
    /// The smallest step of a trade price, in hundredths of a cent.
    pub mpv: u32,
    pub unit_of_trade: u64,
}

/// A change of the status of a security.
#[derive(Debug, Clone, PartialEq)]
pub struct SecurityStatus {
    pub security_status: SecurityStatusType,
    pub halt_condition: HaltConditionType,
    pub price_1: PriceBasis,
    pub price_2: PriceBasis,
    pub ssr_triggering_exchange_id: Option<ExchangeCode>,
    pub ssr_triggering_volume: u64,
    pub time: u64,
    pub ssr_state: SSRState,
    pub market_state: Option<MarketState>,
}

/// Whether a modified order keeps its place, where the text says so.
pub fn find_position_change(s: &str) -> (found: Option<PositionChange>)
    ensures
        found == match only_char(s@) {
            Some(code) => position_change_of(code),
            None => None,
        },
{
    match single_char(s) {
        Some(code) => {
            if code == '0' {
                Some(PositionChange::Kept)
            } else if code == '1' {
                Some(PositionChange::Lost)
            } else {
                None
            }
        },
        None => None,
    }
}

/// The auction that a cross trade comes from, where the text names one.
pub fn find_cross_type(s: &str) -> (found: Option<CrossType>)
    ensures
        found == match only_char(s@) {
            Some(code) => cross_type_of(code),
            None => None,
        },
{
    match single_char(s) {
        Some(code) => {
            if code == 'E' {
                Some(CrossType::E)
            } else if code == 'O' {
                Some(CrossType::O)
            } else if code == '5' {
                Some(CrossType::R)
            } else if code == '6' {
                Some(CrossType::C)
            } else {
                None
            }
        },
        None => None,
    }
}

/// The auction that an imbalance message is about, where the text names one.
pub fn find_auction_type(s: &str) -> (found: Option<AuctionType>)
    ensures
        found == match only_char(s@) {
            Some(code) => auction_type_of(code),
            None => None,
        },
{
    match single_char(s) {
        Some(code) => {
            if code == 'O' {
                Some(AuctionType::O)
            } else if code == 'M' {
                Some(AuctionType::M)
            } else if code == 'H' {
                Some(AuctionType::H)
            } else if code == 'R' {
                Some(AuctionType::R)
            } else if code == 'C' {
                Some(AuctionType::C)
            } else if code == 'P' {
                Some(AuctionType::P)
            } else {
                None
            }
        },
        None => None,
    }
}

/// The status that a security enters, where the text names one.
pub fn find_security_status_type(s: &str) -> (found: Option<SecurityStatusType>)
    ensures
        found == match only_char(s@) {
            Some(code) => security_status_type_of(code),
            None => None,
        },
{
    match single_char(s) {
        Some(code) => {
            if code == '4' {
                Some(SecurityStatusType::TradingHalt)
            } else if code == '5' {
                Some(SecurityStatusType::Resume)
            } else if code == 'A' {
                Some(SecurityStatusType::ShortSaleRestrictionActivatedDay1)
            } else if code == 'C' {
                Some(SecurityStatusType::ShortSaleRestrictionContinuedDay2)
            } else if code == 'D' {
                Some(SecurityStatusType::ShortSaleRestrictionDeactivated)
            } else if code == 'P' {
                Some(SecurityStatusType::PreOpening)
            } else if code == 'B' {
                Some(SecurityStatusType::BeginAcceptingOrders)
            } else if code == 'E' {
                Some(SecurityStatusType::EarlySession)
            } else if code == 'O' {
                Some(SecurityStatusType::CoreSession)
            } else if code == 'L' {
                Some(SecurityStatusType::LateSession)
            } else if code == 'X' {
                Some(SecurityStatusType::Closed)
            } else if code == 'I' {
                Some(SecurityStatusType::PriceIndication)
            } else if code == 'G' {
                Some(SecurityStatusType::PreOpeningPriceIndication)
            } else {
                None
            }
        },
        None => None,
    }
}

/// Why a security is halted, where the text names a reason.
pub fn find_halt_condition(s: &str) -> (found: Option<HaltConditionType>)
    ensures
        found == match only_char(s@) {
            Some(code) => halt_condition_of(code),
            None => None,
        },
{
    match single_char(s) {
        Some(code) => {
            if code == '~' {
                Some(HaltConditionType::SecurityNotDelayedHalted)
            } else if code == 'D' {
                Some(HaltConditionType::NewsReleased)
            } else if code == 'I' {
                Some(HaltConditionType::OrderImbalance)
            } else if code == 'P' {
                Some(HaltConditionType::NewsPending)
            } else if code == 'M' {
                Some(HaltConditionType::LULDPause)
            } else if code == 'X' {
                Some(HaltConditionType::EquipmentChangeover)
            } else if code == 'Z' {
                Some(HaltConditionType::NoOpenResume)
            } else if code == 'A' {
                Some(HaltConditionType::AdditionalInformationRequested)
            } else if code == 'C' {
                Some(HaltConditionType::RegulatoryConcern)
            } else if code == 'E' {
                Some(HaltConditionType::MergerEffective)
            } else if code == 'F' {
                Some(HaltConditionType::ETFComponentPricesNotAvailable)
            } else if code == 'N' {
                Some(HaltConditionType::CorporateAction)
            } else if code == 'O' {
                Some(HaltConditionType::NewSecurityOffering)
            } else if code == 'V' {
                Some(HaltConditionType::IntradayIndicativeValueNotAvailable)
            } else if code == '1' {
                Some(HaltConditionType::MarketWideCircuitBreakerHaltLevel1)
            } else if code == '2' {
                Some(HaltConditionType::MarketWideCircuitBreakerHaltLevel2)
            } else if code == '3' {
                Some(HaltConditionType::MarketWideCircuitBreakerHaltLevel3)
            } else {
                None
            }
        },
        None => None,
    }
}

/// Whether the short-sale restriction is in effect, where the text says so.
pub fn find_ssr_state(s: &str) -> (found: Option<SSRState>)
    ensures
        found == match only_char(s@) {
            Some(code) => ssr_state_of(code),
            None => None,
        },
{
    match single_char(s) {
        Some(code) => {
            if code == '~' {
                Some(SSRState::NoShortSaleInEffect)
            } else if code == 'E' {
                Some(SSRState::ShortSaleRestrictionInEffect)
            } else {
                None
            }
        },
        None => None,
    }
}

/// The kind of a security, where the text names one.
pub fn find_issue_classification(s: &str) -> (found: Option<IssueClassification>)
    ensures
        found == match only_char(s@) {
            Some(code) => issue_classification_of(code),
            None => None,
        },
{
    match single_char(s) {
        Some(code) => {
            if code == 'A' {
                Some(IssueClassification::ADR)
            } else if code == 'C' {
                Some(IssueClassification::CommonStock)
            } else if code == 'D' {
                Some(IssueClassification::Debuntures)
            } else if code == 'E' {
                Some(IssueClassification::ETF)
            } else if code == 'F' {
                Some(IssueClassification::Foreign)
            } else if code == 'H' {
                Some(IssueClassification::USDepositaryShares)
            } else if code == 'I' {
                Some(IssueClassification::Units)
            } else if code == 'L' {
                Some(IssueClassification::IndexLinkedNotes)
            } else if code == 'M' {
                Some(IssueClassification::Trust)
            } else if code == 'O' {
                Some(IssueClassification::OrdinaryShares)
            } else if code == 'P' {
                Some(IssueClassification::PreferredStock)
            } else if code == 'R' {
                Some(IssueClassification::Rights)
            } else if code == 'S' {
                Some(IssueClassification::BeneficiaryInterest)
            } else if code == 'T' {
                Some(IssueClassification::Test)
            } else if code == 'U' {
                Some(IssueClassification::ClosedEndFund)
            } else if code == 'W' {
                Some(IssueClassification::Warrant)
            } else {
                None
            }
        },
        None => None,
    }
}

/// The market on which a symbol trades, where the number stands for one.
pub fn find_market_category(v: u16) -> (found: Option<MarketCategory>)
    ensures
        found == market_category_of(v),
{
    if v == 1 {
        Some(MarketCategory::Nyse)
    } else if v == 3 {
        Some(MarketCategory::NyseArcaEquities)
    } else if v == 4 {
        Some(MarketCategory::NyseArcaOptions)
    } else if v == 5 {
        Some(MarketCategory::NyseBonds)
    } else if v == 6 {
        Some(MarketCategory::GlobalOTC)
    } else if v == 8 {
        Some(MarketCategory::NyseAmexOptions)
    } else if v == 9 {
        Some(MarketCategory::NyseAmericanEquities)
    } else if v == 10 {
        Some(MarketCategory::NyseNationalEquities)
    } else if v == 11 {
        Some(MarketCategory::NyseChicagoEquities)
    } else {
        None
    }
}

} // verus!
