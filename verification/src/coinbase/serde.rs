//! The shapes in which the venue writes what the messages hold, and the way
//! from one to the other.
use vstd::prelude::*;
use vstd::string::StrSliceExecFns;
use crate::coinbase::websocket::{Decrement, OrderProfile, PartType};
use crate::collections::book::OrderPrice;

verus! {

/// The fee rate of one's own order in a trade, as the venue writes it: under
/// the name of the part that the order had.
#[derive(Debug, Clone)]
pub struct FeeRates {
    pub maker: Option<String>,
    pub taker: Option<String>,
}

impl FeeRates {
    /// The fee rate of an order that made the trade.
    pub fn maker(fee_rate: String) -> (rates: Self)
        ensures
            rates.maker == Some(fee_rate),
            rates.taker is None,
    {
        Self { maker: Some(fee_rate), taker: None }
    }

    /// The fee rate of an order that took the trade.
    pub fn taker(fee_rate: String) -> (rates: Self)
        ensures
            rates.maker is None,
            rates.taker == Some(fee_rate),
    {
        Self { maker: None, taker: Some(fee_rate) }
    }
}

/// The fee rates that the venue writes for the part of an order in a trade.
pub fn fee_rates_of(order_profile: &Option<OrderProfile>) -> (rates: Option<FeeRates>)
    ensures
        match *order_profile {
            None => rates is None,
            Some(profile) => rates matches Some(r) && match profile.part_type {
                PartType::Maker => r.maker == Some(profile.fee_rate) && r.taker is None,
                PartType::Taker => r.taker == Some(profile.fee_rate) && r.maker is None,
            },
        },
{
    match order_profile {
        None => None,
        Some(profile) => Some(
            match profile.part_type {
                PartType::Maker => FeeRates::maker(profile.fee_rate.clone()),
                PartType::Taker => FeeRates::taker(profile.fee_rate.clone()),
            },
        ),
    }
}

/// The part of an order in a trade that fee rates stand for: the maker's
/// where the maker's rate is written, the taker's where the taker's is, and
/// none where neither is.
pub fn order_profile_of(fee_rates: FeeRates) -> (profile: Option<OrderProfile>)
    requires
        !(fee_rates.maker is Some && fee_rates.taker is Some),
    ensures
        profile == match (fee_rates.maker, fee_rates.taker) {
            (Some(fee_rate), _) => Some(OrderProfile { part_type: PartType::Maker, fee_rate }),
            (None, Some(fee_rate)) => Some(OrderProfile { part_type: PartType::Taker, fee_rate }),
            (None, None) => None,
        },
{
    match (fee_rates.maker, fee_rates.taker) {
        (None, None) => None,
        (Some(fee_rate), _) => Some(OrderProfile { part_type: PartType::Maker, fee_rate }),
        (None, Some(fee_rate)) => Some(OrderProfile { part_type: PartType::Taker, fee_rate }),
    }
}

/// How an order has shrunk, as the venue writes it: every number under its
/// own name, and the names that do not apply left out.
#[derive(PartialEq, Eq, Hash, Debug, Clone)]
pub struct RawDecrement {
    pub price: Option<String>,
    pub old_size: Option<String>,
    pub new_size: Option<String>,
    pub old_funds: Option<String>,
    pub new_funds: Option<String>,
}

/// The way the venue writes that an order has shrunk.
pub open spec fn raw_of(decrement: Decrement) -> RawDecrement {
    match decrement {
        Decrement::Limit { price, old_size, new_size } => RawDecrement {
            price: Some(price),
            old_size: Some(old_size),
            new_size: Some(new_size),
            old_funds: None,
            new_funds: None,
        },
        Decrement::MarketFunds { old_funds, new_funds } => RawDecrement {
            price: None,
            old_size: None,
            new_size: None,
            old_funds: Some(old_funds),
            new_funds: Some(new_funds),
        },
        Decrement::MarketSize { old_size, new_size } => RawDecrement {
            price: None,
            old_size: Some(old_size),
            new_size: Some(new_size),
            old_funds: None,
            new_funds: None,
        },
    }
}

/// Whether what the venue wrote says how an order has shrunk: it names
/// sizes, with or without a price, or funds, and not both.
pub open spec fn is_decrement(raw: RawDecrement) -> bool {
    ||| raw.old_size is Some && raw.new_size is Some && raw.old_funds is None && raw.new_funds
        is None
    ||| raw.price is None && raw.old_size is None && raw.new_size is None && raw.old_funds is Some
        && raw.new_funds is Some
}

/// The way the venue writes that an order has shrunk.
pub fn raw_decrement_of(decrement: &Decrement) -> (raw: RawDecrement)
    ensures
        raw == raw_of(*decrement),
{
    match decrement {
        Decrement::Limit { price, old_size, new_size } => RawDecrement {
            price: Some(price.clone()),
            old_size: Some(old_size.clone()),
            new_size: Some(new_size.clone()),
            old_funds: None,
            new_funds: None,
        },
        Decrement::MarketFunds { old_funds, new_funds } => RawDecrement {
            price: None,
            old_size: None,
            new_size: None,
            old_funds: Some(old_funds.clone()),
            new_funds: Some(new_funds.clone()),
        },
        Decrement::MarketSize { old_size, new_size } => RawDecrement {
            price: None,
            old_size: Some(old_size.clone()),
            new_size: Some(new_size.clone()),
            old_funds: None,
            new_funds: None,
        },
    }
}

/// How an order has shrunk, from what the venue wrote: a limit order where
/// a price is named, else a market order, in its size or in its funds.
pub fn decrement_of(raw: RawDecrement) -> (decrement: Decrement)
    requires
        is_decrement(raw),
    ensures
        raw_of(decrement) == raw,
{
    let RawDecrement { price, old_size, new_size, old_funds, new_funds } = raw;
    match (price, old_size, new_size, old_funds, new_funds) {
        (Some(price), Some(old_size), Some(new_size), _, _) => Decrement::Limit {
            price,
            old_size,
            new_size,
        },
        (None, Some(old_size), Some(new_size), _, _) => Decrement::MarketSize { old_size, new_size },
        (_, _, _, old_funds, new_funds) => Decrement::MarketFunds {
            old_funds: old_funds.unwrap(),
            new_funds: new_funds.unwrap(),
        },
    }
}

/// What the venue wrote comes back from the decrement that it was read as.
pub proof fn lemma_decrement_round_trip(decrement: Decrement)
    ensures
        is_decrement(raw_of(decrement)),
{
}

/// The price as the venue writes it: left out for a market order.
pub fn price_text_of(order_price: &OrderPrice<String>) -> (text: Option<String>)
    ensures
        text == match *order_price {
            OrderPrice::Market => None,
            OrderPrice::Limit(price) => Some(price),
        },
{
    match order_price {
        OrderPrice::Market => None,
        OrderPrice::Limit(price) => Some(price.clone()),
    }
}

/// The price that a written price stands for: a limit.
pub fn order_price_of(price: String) -> (order_price: OrderPrice<String>)
    ensures
        order_price == OrderPrice::Limit(price),
{
    OrderPrice::Limit(price)
}

/// Why a text was refused.
#[derive(PartialEq, Eq, Debug, Clone, Copy, Structural)]
pub enum TextError {
    /// The text is empty where it may not be.
    Empty,
}

/// The text, where it is not empty.
pub fn deny_empty_string(s: String) -> (checked: Result<String, TextError>)
    ensures
        checked == if s@.len() == 0 {
            Err::<String, TextError>(TextError::Empty)
        } else {
            Ok(s)
        },
{
    if s.as_str().unicode_len() == 0 {
        Err(TextError::Empty)
    } else {
        Ok(s)
    }
}

} // verus!
