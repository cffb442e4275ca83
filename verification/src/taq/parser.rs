//! The messages of the feed, as a reader of its files hands them on.
use vstd::prelude::*;
use crate::text::{fields_of, nth_field, parse_u8, u8_of};
use crate::taq::enums::{
    AddOrder, AddOrderRefresh, CrossCorrection, CrossTrade, DeleteOrder, ModifyOrder,
    NonDisplayedTrade, OrderExecution, ReplaceOrder, RetailPriceImprovement, SecurityStatus,
    SymbolIndexMapping, TradeCancel,
};

verus! {

/// The number of a message on its channel. Every channel starts the day at one.
#[derive(Debug, Clone, PartialEq)]
pub struct SequenceNumber {
    pub channel_id: u8,
    pub sequence_number: u64,
}

/// The place of a pair of numbers in Cantor's enumeration of all pairs.
pub open spec fn cantor_pairing(k1: nat, k2: nat) -> nat {
    ((k1 + k2) * (k1 + k2 + 1)) / 2 + k2
}

/// Cantor's enumeration gives no place to two pairs.
pub proof fn lemma_cantor_pairing_is_injective(a1: nat, a2: nat, b1: nat, b2: nat)
    requires
        cantor_pairing(a1, a2) == cantor_pairing(b1, b2),
    ensures
        a1 == b1,
        a2 == b2,
{
    let s = a1 + a2;
    let t = b1 + b2;
    lemma_triangle_is_whole(s);
    lemma_triangle_is_whole(t);
    if s < t {
        lemma_triangle_grows(s, t);
    } else if t < s {
        lemma_triangle_grows(t, s);
    }
}

/// The product of a number and its successor is twice a whole number that
/// grows by the successor with each step: it is even.
proof fn lemma_triangle_is_whole(n: nat)
    ensures
        (n * (n + 1)) % 2 == 0,
        (n + 1) * (n + 2) == n * (n + 1) + 2 * (n + 1),
    decreases n,
{
    assert((n + 1) * (n + 2) == n * (n + 1) + 2 * (n + 1)) by (nonlinear_arith);
    if n > 0 {
        lemma_triangle_is_whole((n - 1) as nat);
        assert(n * (n + 1) == (n - 1) * n + 2 * n) by (nonlinear_arith);
    } else {
        assert(n * (n + 1) == 0) by (nonlinear_arith)
            requires
                n == 0,
        ;
    }
}

/// A later diagonal of the enumeration starts beyond the end of an earlier one.
proof fn lemma_triangle_grows(s: nat, t: nat)
    requires
        s < t,
    ensures
        (s * (s + 1)) / 2 + s < (t * (t + 1)) / 2,
    decreases t - s,
{
    lemma_triangle_is_whole(s);
    if s + 1 < t {
        lemma_triangle_grows(s + 1, t);
        lemma_triangle_is_whole(s + 1);
    }
}

impl SequenceNumber {
    pub fn new(channel_id: u8, sequence_number: u64) -> (number: SequenceNumber)
        ensures
            number.channel_id == channel_id,
            number.sequence_number == sequence_number,
    {
        SequenceNumber { channel_id, sequence_number }
    }

    /// One number for the channel and the number on it together: the place
    /// of the pair in Cantor's enumeration.
    pub fn calculate_unique_reference_number(&self) -> (reference: u64)
        requires
            cantor_pairing(self.channel_id as nat, self.sequence_number as nat) <= u64::MAX,
            (self.channel_id + self.sequence_number) * (self.channel_id + self.sequence_number + 1)
                <= u64::MAX,
        ensures
            reference == cantor_pairing(self.channel_id as nat, self.sequence_number as nat),
    {
        let k1: u64 = self.channel_id as u64;
        let k2: u64 = self.sequence_number;
        assert(k1 + k2 + 1 <= u64::MAX) by (nonlinear_arith)
            requires
                (k1 + k2) * (k1 + k2 + 1) <= u64::MAX,
        ;
        ((k1 + k2) * (k1 + k2 + 1)) / 2 + k2
    }
}

/// A message of the feed.
#[derive(Debug, Clone, PartialEq)]
pub struct Message {
    /// The number of the kind of message.
    pub msg_type: u8,
    /// The symbol of the security that the message is about.
    pub symbol: String,
    /// The number of the message on its channel.
    pub sequence_number: SequenceNumber,
    /// Nanoseconds since midnight, where the kind of message carries a time.
    pub source_time: Option<u64>,
    pub body: Body,
}

/// What a message says, by its kind.
#[derive(Debug, Clone, PartialEq)]
pub enum Body {
    SymbolIndexMapping(SymbolIndexMapping),
    SecurityStatus(SecurityStatus),
    AddOrder(AddOrder),
    ModifyOrder(ModifyOrder),
    ReplaceOrder(ReplaceOrder),
    DeleteOrder(DeleteOrder),
    OrderExecution(OrderExecution),
    NonDisplayedTrade(NonDisplayedTrade),
    TradeCancel(TradeCancel),
    CrossTrade(CrossTrade),
    CrossCorrection(CrossCorrection),
    RetailPriceImprovement(RetailPriceImprovement),
    /// An auction imbalance. No order changes with it.
    Imbalance,
    AddOrderRefresh(AddOrderRefresh),
    /// The summary of a day. No order changes with it.
    StockSummary,
}

/// The channel that the name of a file of the feed names: the number that
/// is the fifth of the parts of the name between its underscores.
pub open spec fn channel_id_of(file_name: Seq<char>) -> Option<u8> {
    if fields_of(file_name, '_').len() > 4 {
        u8_of(fields_of(file_name, '_')[4])
    } else {
        None
    }
}

/// The channel that the name of a file of the feed names, where it names one.
pub fn parse_channel_id(file_name: &str) -> (channel: Option<u8>)
    ensures
        channel == channel_id_of(file_name@),
{
    match nth_field(file_name, '_', 4) {
        Some(id) => parse_u8(id.as_str()),
        None => None,
    }
}

} // verus!
