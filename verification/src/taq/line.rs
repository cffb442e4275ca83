//! The message that a line of a file of the feed holds.
//!
//! A line comes as its fields. What a field holds as a decimal number, and
//! the time of the line, are read outside and come with the fields: the
//! number of ten-thousandths for every field that spells a decimal number,
//! and the nanoseconds since midnight.
use vstd::prelude::*;
use crate::taq::enums::{
    auction_type_of, cross_type_of, exchange_code_of, find_auction_type, find_cross_type,
    find_halt_condition, find_issue_classification, find_market_category,
    find_position_change, find_security_status_type, find_ssr_state, halt_condition_of,
    issue_classification_of, market_category_of, market_state_of, only_char,
    parse_exchange_code, parse_market_state, parse_rti_indicator, parse_side,
    parse_ssr_triggering_exchange_id, position_change_of, rpi_indicator_of,
    security_status_type_of, side_of, single_char, ssr_state_of, ssr_triggering_exchange_of,
    AddOrder, AddOrderRefresh, AuctionStatus, CrossCorrection, CrossTrade, DeleteOrder,
    FreezeStatus, ModifyOrder, NonDisplayedTrade, OrderExecution, ReplaceOrder,
    RetailPriceImprovement, SecurityStatus, SymbolIndexMapping, TradeCancel,
};
use crate::taq::parser::{Body, Message, SequenceNumber};
use crate::text::{first_chars, head_of, number_upto, parse_number, trim_end, trimmed};
use crate::us::price::PriceBasis;

verus! {

/// Why a line holds no message.
#[derive(PartialEq, Eq, Debug, Clone, Copy, Structural)]
pub enum LineError {
    /// The line has no field at this place.
    Missing(usize),
    /// The field at this place spells no number, or one that is too large.
    Number(usize),
    /// The field at this place spells no decimal number.
    Decimal(usize),
    /// The field at this place holds no code that is known.
    Code(usize),
    /// The line has no time.
    Time,
    /// No message has this type.
    Kind(u32),
}

/// The first of two faults.
pub open spec fn either(first: Option<LineError>, then: Option<LineError>) -> Option<LineError> {
    if first is Some {
        first
    } else {
        then
    }
}

/// What is wrong where a line has no field at a place.
pub open spec fn lacks(fields: Seq<String>, i: int) -> Option<LineError> {
    if 0 <= i < fields.len() {
        None
    } else {
        Some(LineError::Missing(i as usize))
    }
}

/// What is wrong where a line has no number up to `max` at a place.
pub open spec fn number_fault(fields: Seq<String>, i: int, max: u64) -> Option<LineError> {
    if !(0 <= i < fields.len()) {
        Some(LineError::Missing(i as usize))
    } else if number_upto(fields[i]@, max) is None {
        Some(LineError::Number(i as usize))
    } else {
        None
    }
}

/// The number at a place of a line.
pub open spec fn number_value(fields: Seq<String>, i: int, max: u64) -> u64 {
    match number_upto(fields[i]@, max) {
        Some(n) => n,
        None => 0,
    }
}

/// What is wrong where a line has no decimal number at a place.
pub open spec fn decimal_fault(
    fields: Seq<String>,
    decimals: Seq<Option<u64>>,
    i: int,
) -> Option<LineError> {
    if !(0 <= i < fields.len()) {
        Some(LineError::Missing(i as usize))
    } else if !(i < decimals.len()) || decimals[i] is None {
        Some(LineError::Decimal(i as usize))
    } else {
        None
    }
}

/// The ten-thousandths of the decimal number at a place of a line, and
/// none where there is no such number.
pub open spec fn decimal_value(decimals: Seq<Option<u64>>, i: int) -> u64 {
    if 0 <= i < decimals.len() {
        match decimals[i] {
            Some(v) => v,
            None => 0,
        }
    } else {
        0
    }
}

/// What is wrong where a line has no known code at a place.
pub open spec fn code_fault(fields: Seq<String>, i: int, known: bool) -> Option<LineError> {
    if !(0 <= i < fields.len()) {
        Some(LineError::Missing(i as usize))
    } else if !known {
        Some(LineError::Code(i as usize))
    } else {
        None
    }
}

/// What the one character of a text stands for in a table of codes.
pub open spec fn coded<T>(text: Seq<char>, table: spec_fn(char) -> Option<T>) -> Option<T> {
    match only_char(text) {
        Some(code) => table(code),
        None => None,
    }
}

/// Whether a price is so many ten-thousandths.
pub open spec fn price_is(price: PriceBasis, ten_thousandths: u64) -> bool {
    price.spec_inner() == ten_thousandths && price.spec_basis() == 10000
}

/// A number as 32 bits hold it: the largest of them where it is larger.
pub open spec fn clamped(v: u64) -> u32 {
    if v > u32::MAX {
        u32::MAX
    } else {
        v as u32
    }
}

/// Whether a number is the type of a message.
pub open spec fn is_kind(kind: u64) -> bool {
    ||| kind == 3
    ||| kind == 34
    ||| 100 <= kind <= 106
    ||| 110 <= kind <= 114
    ||| kind == 221
    ||| kind == 223
}

/// What is wrong with the fields of a message about a symbol.
pub open spec fn mapping_fault(fields: Seq<String>, decimals: Seq<Option<u64>>) -> Option<LineError> {
    either(
        number_fault(fields, 3, 65535),
        either(
            code_fault(fields, 3, market_category_of(number_value(fields, 3, 65535) as u16) is Some),
            either(
                number_fault(fields, 4, u64::MAX),
                either(
                    lacks(fields, 5),
                    either(
                        code_fault(
                            fields,
                            6,
                            coded(fields[6]@, |c: char| issue_classification_of(c)) is Some,
                        ),
                        either(
                            number_fault(fields, 7, 0xffff_ffff),
                            either(
                                decimal_fault(fields, decimals, 8),
                                either(
                                    number_fault(fields, 9, u64::MAX),
                                    either(
                                        number_fault(fields, 10, u64::MAX),
                                        either(
                                            code_fault(
                                                fields,
                                                11,
                                                only_char(fields[11]@) == Some('Y') || only_char(
                                                    fields[11]@,
                                                ) == Some('N'),
                                            ),
                                            either(
                                                decimal_fault(fields, decimals, 12),
                                                number_fault(fields, 13, u64::MAX),
                                            ),
                                        ),
                                    ),
                                ),
                            ),
                        ),
                    ),
                ),
            ),
        ),
    )
}

/// What is wrong with the fields of a message about the status of a security.
pub open spec fn status_fault(fields: Seq<String>) -> Option<LineError> {
    either(
        code_fault(fields, 5, coded(fields[5]@, |c: char| security_status_type_of(c)) is Some),
        either(
            code_fault(fields, 6, coded(fields[6]@, |c: char| halt_condition_of(c)) is Some),
            either(
                lacks(fields, 11),
                either(
                    code_fault(fields, 12, coded(fields[12]@, |c: char| ssr_state_of(c)) is Some),
                    lacks(fields, 13),
                ),
            ),
        ),
    )
}

/// What is wrong with the fields of a message about an auction imbalance.
pub open spec fn imbalance_fault(fields: Seq<String>, decimals: Seq<Option<u64>>) -> Option<
    LineError,
> {
    either(
        decimal_fault(fields, decimals, 5),
        either(
            number_fault(fields, 6, 0xffff_ffff),
            either(
                number_fault(fields, 7, 0xffff_ffff),
                either(
                    number_fault(fields, 8, 0xffff_ffff),
                    either(
                        number_fault(fields, 9, u64::MAX),
                        either(
                            code_fault(
                                fields,
                                10,
                                coded(fields[10]@, |c: char| auction_type_of(c)) is Some,
                            ),
                            either(
                                lacks(fields, 11),
                                either(
                                    decimal_fault(fields, decimals, 12),
                                    either(
                                        decimal_fault(fields, decimals, 13),
                                        either(
                                            decimal_fault(fields, decimals, 14),
                                            either(
                                                decimal_fault(fields, decimals, 15),
                                                either(
                                                    decimal_fault(fields, decimals, 16),
                                                    either(
                                                        decimal_fault(fields, decimals, 17),
                                                        imbalance_end_fault(fields),
                                                    ),
                                                ),
                                            ),
                                        ),
                                    ),
                                ),
                            ),
                        ),
                    ),
                ),
            ),
        ),
    )
}

/// What is wrong with the last fields of a message about an auction imbalance.
pub open spec fn imbalance_end_fault(fields: Seq<String>) -> Option<LineError> {
    either(
        number_fault(fields, 18, 255),
        either(
            code_fault(fields, 18, AuctionStatus::of(number_value(fields, 18, 255) as u8) is Some),
            either(
                number_fault(fields, 19, 255),
                either(
                    code_fault(
                        fields,
                        19,
                        FreezeStatus::of(number_value(fields, 19, 255) as u8) is Some,
                    ),
                    either(number_fault(fields, 21, 0xffff_ffff), lacks(fields, 22)),
                ),
            ),
        ),
    )
}

/// What is wrong with the fields of a message of a type, behind its time.
pub open spec fn body_fault(kind: u64, fields: Seq<String>, decimals: Seq<Option<u64>>) -> Option<
    LineError,
> {
    if kind == 3 {
        mapping_fault(fields, decimals)
    } else if kind == 34 {
        status_fault(fields)
    } else if kind == 100 || kind == 106 {
        either(
            number_fault(
                fields,
                5,
                if kind == 100 {
                    u64::MAX
                } else {
                    65535
                },
            ),
            either(
                decimal_fault(fields, decimals, 6),
                either(
                    number_fault(fields, 7, 0xffff_ffff),
                    either(
                        code_fault(fields, 8, coded(fields[8]@, |c: char| side_of(c)) is Some),
                        lacks(fields, 9),
                    ),
                ),
            ),
        )
    } else if kind == 101 {
        either(
            number_fault(fields, 5, u64::MAX),
            either(
                decimal_fault(fields, decimals, 6),
                either(
                    number_fault(fields, 7, 0xffff_ffff),
                    code_fault(fields, 8, coded(fields[8]@, |c: char| position_change_of(c)) is Some),
                ),
            ),
        )
    } else if kind == 104 {
        either(
            number_fault(fields, 5, u64::MAX),
            either(
                number_fault(fields, 6, u64::MAX),
                either(decimal_fault(fields, decimals, 7), number_fault(fields, 8, 0xffff_ffff)),
            ),
        )
    } else if kind == 102 {
        number_fault(fields, 5, u64::MAX)
    } else if kind == 103 {
        either(
            number_fault(fields, 5, u64::MAX),
            either(
                number_fault(fields, 6, 0xffff_ffff),
                either(
                    decimal_fault(fields, decimals, 7),
                    either(number_fault(fields, 8, 0xffff_ffff), number_fault(fields, 9, 255)),
                ),
            ),
        )
    } else if kind == 110 {
        either(
            number_fault(fields, 5, 0xffff_ffff),
            either(decimal_fault(fields, decimals, 6), number_fault(fields, 7, 0xffff_ffff)),
        )
    } else if kind == 112 || kind == 221 {
        number_fault(fields, 5, 0xffff_ffff)
    } else if kind == 114 {
        lacks(fields, 5)
    } else if kind == 111 {
        either(
            number_fault(fields, 5, 0xffff_ffff),
            either(
                decimal_fault(fields, decimals, 6),
                either(
                    number_fault(fields, 7, 0xffff_ffff),
                    code_fault(fields, 8, coded(fields[8]@, |c: char| cross_type_of(c)) is Some),
                ),
            ),
        )
    } else if kind == 113 {
        either(number_fault(fields, 5, 0xffff_ffff), number_fault(fields, 6, 0xffff_ffff))
    } else if kind == 105 {
        imbalance_fault(fields, decimals)
    } else {
        either(
            decimal_fault(fields, decimals, 4),
            either(
                decimal_fault(fields, decimals, 5),
                either(
                    decimal_fault(fields, decimals, 6),
                    either(decimal_fault(fields, decimals, 7), number_fault(fields, 8, u64::MAX)),
                ),
            ),
        )
    }
}

/// What is wrong with a line, if anything: the first of the type, the
/// sequence number, the symbol, the time and the fields of the message, in
/// the order of the fields, that is amiss.
pub open spec fn line_fault(
    fields: Seq<String>,
    decimals: Seq<Option<u64>>,
    time: Option<u64>,
) -> Option<LineError> {
    let kind = number_value(fields, 0, 0xffff_ffff);
    either(
        number_fault(fields, 0, 0xffff_ffff),
        either(
            number_fault(fields, 1, u64::MAX),
            either(
                lacks(fields, 3),
                if !is_kind(kind) {
                    Some(LineError::Kind(kind as u32))
                } else if kind != 3 && time is None {
                    Some(LineError::Time)
                } else {
                    body_fault(kind, fields, decimals)
                },
            ),
        ),
    )
}

/// Whether what a message of a type says is what the fields of a line hold.
pub open spec fn body_tells(
    body: Body,
    kind: u64,
    fields: Seq<String>,
    decimals: Seq<Option<u64>>,
) -> bool {
    match body {
        Body::SymbolIndexMapping(b) => {
            &&& kind == 3
            &&& Some(b.market_category) == market_category_of(
                number_value(fields, 3, 65535) as u16,
            )
            &&& b.system_id == number_value(fields, 4, u64::MAX)
            &&& b.exchange_code == coded(fields[5]@, |c: char| exchange_code_of(c))
            &&& Some(b.issue_classification) == coded(
                fields[6]@,
                |c: char| issue_classification_of(c),
            )
            &&& b.round_lot_size == number_value(fields, 7, 0xffff_ffff)
            &&& price_is(b.prev_close_price, decimal_value(decimals, 8))
            &&& b.prev_close_volume == number_value(fields, 9, u64::MAX)
            &&& b.price_resolution == number_value(fields, 10, u64::MAX)
            &&& b.round_lots_accepted == (only_char(fields[11]@) == Some('Y'))
            &&& b.mpv == clamped(decimal_value(decimals, 12))
            &&& b.unit_of_trade == number_value(fields, 13, u64::MAX)
        },
        Body::SecurityStatus(b) => {
            &&& kind == 34
            &&& Some(b.security_status) == coded(fields[5]@, |c: char| security_status_type_of(c))
            &&& Some(b.halt_condition) == coded(fields[6]@, |c: char| halt_condition_of(c))
            &&& price_is(b.price_1, decimal_value(decimals, 7))
            &&& price_is(b.price_2, decimal_value(decimals, 8))
            &&& b.ssr_triggering_exchange_id == coded(
                fields[9]@,
                |c: char| ssr_triggering_exchange_of(c),
            )
            &&& b.ssr_triggering_volume == number_value(fields, 10, u64::MAX)
            &&& b.time == number_value(fields, 11, u64::MAX)
            &&& Some(b.ssr_state) == coded(fields[12]@, |c: char| ssr_state_of(c))
            &&& b.market_state == coded(fields[13]@, |c: char| market_state_of(c))
        },
        Body::AddOrder(b) => {
            &&& kind == 100
            &&& b.order_id == number_value(fields, 5, u64::MAX)
            &&& price_is(b.price, decimal_value(decimals, 6))
            &&& b.volume == number_value(fields, 7, 0xffff_ffff)
            &&& Some(b.side) == coded(fields[8]@, |c: char| side_of(c))
            &&& b.firm_id@ == head_of(trimmed(fields[9]@), 5)
        },
        Body::ModifyOrder(b) => {
            &&& kind == 101
            &&& b.order_id == number_value(fields, 5, u64::MAX)
            &&& price_is(b.price, decimal_value(decimals, 6))
            &&& b.volume == number_value(fields, 7, 0xffff_ffff)
            &&& Some(b.position_change) == coded(fields[8]@, |c: char| position_change_of(c))
        },
        Body::ReplaceOrder(b) => {
            &&& kind == 104
            &&& b.order_id == number_value(fields, 5, u64::MAX)
            &&& b.new_order_id == number_value(fields, 6, u64::MAX)
            &&& price_is(b.price, decimal_value(decimals, 7))
            &&& b.volume == number_value(fields, 8, 0xffff_ffff)
        },
        Body::DeleteOrder(b) => kind == 102 && b.order_id == number_value(fields, 5, u64::MAX),
        Body::OrderExecution(b) => {
            &&& kind == 103
            &&& b.order_id == number_value(fields, 5, u64::MAX)
            &&& b.trade_id == number_value(fields, 6, 0xffff_ffff)
            &&& price_is(b.price, decimal_value(decimals, 7))
            &&& b.volume == number_value(fields, 8, 0xffff_ffff)
            &&& b.printable_flag == number_value(fields, 9, 255)
        },
        Body::NonDisplayedTrade(b) => {
            &&& kind == 110
            &&& b.trade_id == number_value(fields, 5, 0xffff_ffff)
            &&& price_is(b.price, decimal_value(decimals, 6))
            &&& b.volume == number_value(fields, 7, 0xffff_ffff)
        },
        Body::TradeCancel(b) => (kind == 112 || kind == 221) && b.trade_id == number_value(
            fields,
            5,
            0xffff_ffff,
        ),
        Body::CrossTrade(b) => {
            &&& kind == 111
            &&& b.cross_id == number_value(fields, 5, 0xffff_ffff)
            &&& price_is(b.price, decimal_value(decimals, 6))
            &&& b.volume == number_value(fields, 7, 0xffff_ffff)
            &&& Some(b.cross_type) == coded(fields[8]@, |c: char| cross_type_of(c))
        },
        Body::CrossCorrection(b) => {
            &&& kind == 113
            &&& b.cross_id == number_value(fields, 5, 0xffff_ffff)
            &&& b.volume == number_value(fields, 6, 0xffff_ffff)
        },
        Body::RetailPriceImprovement(b) => kind == 114 && b.rpi_indicator == coded(
            fields[5]@,
            |c: char| rpi_indicator_of(c),
        ),
        Body::Imbalance => kind == 105,
        Body::AddOrderRefresh(b) => {
            &&& kind == 106
            &&& b.order_id == number_value(fields, 5, 65535)
            &&& price_is(b.price, decimal_value(decimals, 6))
            &&& b.volume == number_value(fields, 7, 0xffff_ffff)
            &&& Some(b.side) == coded(fields[8]@, |c: char| side_of(c))
            &&& b.firm_id@ == head_of(fields[9]@, 5)
        },
        Body::StockSummary => kind == 223,
    }
}

/// Whether a message says what the fields of a line hold.
pub open spec fn tells(
    message: Message,
    fields: Seq<String>,
    decimals: Seq<Option<u64>>,
    time: Option<u64>,
    channel_id: u8,
) -> bool {
    let kind = number_value(fields, 0, 0xffff_ffff);
    &&& message.msg_type == kind
    &&& message.sequence_number == (SequenceNumber {
        channel_id,
        sequence_number: number_value(fields, 1, u64::MAX),
    })
    &&& message.symbol@ == head_of(
        if kind == 3 {
            fields[2]@
        } else {
            fields[3]@
        },
        11,
    )
    &&& message.source_time == if kind == 3 {
        None
    } else {
        time
    }
    &&& body_tells(message.body, kind, fields, decimals)
}

/// The field at a place of a line.
fn field_at(fields: &Vec<String>, i: usize) -> (field: Result<&String, LineError>)
    ensures
        match field {
            Ok(f) => lacks(fields@, i as int) is None && *f == fields@[i as int],
            Err(e) => lacks(fields@, i as int) == Some(e),
        },
{
    if i < fields.len() {
        Ok(&fields[i])
    } else {
        Err(LineError::Missing(i))
    }
}

/// The number up to `max` at a place of a line.
fn number_at(fields: &Vec<String>, i: usize, max: u64) -> (number: Result<u64, LineError>)
    ensures
        match number {
            Ok(n) => number_fault(fields@, i as int, max) is None && n == number_value(
                fields@,
                i as int,
                max,
            ) && n <= max,
            Err(e) => number_fault(fields@, i as int, max) == Some(e),
        },
{
    if i >= fields.len() {
        return Err(LineError::Missing(i));
    }
    match parse_number(fields[i].as_str(), max) {
        Some(n) => Ok(n),
        None => Err(LineError::Number(i)),
    }
}

/// The number at a place of a line, and none where the field spells no number.
fn number_or_zero(fields: &Vec<String>, i: usize) -> (number: u64)
    requires
        i < fields@.len(),
    ensures
        number == number_value(fields@, i as int, u64::MAX),
{
    match parse_number(fields[i].as_str(), u64::MAX) {
        Some(n) => n,
        None => 0,
    }
}

/// The price that the decimal number at a place of a line is.
fn price_at(fields: &Vec<String>, decimals: &Vec<Option<u64>>, i: usize) -> (price: Result<
    PriceBasis,
    LineError,
>)
    ensures
        match price {
            Ok(p) => decimal_fault(fields@, decimals@, i as int) is None && price_is(
                p,
                decimal_value(decimals@, i as int),
            ),
            Err(e) => decimal_fault(fields@, decimals@, i as int) == Some(e),
        },
{
    if i >= fields.len() {
        return Err(LineError::Missing(i));
    }
    if i >= decimals.len() {
        return Err(LineError::Decimal(i));
    }
    match decimals[i] {
        Some(v) => Ok(PriceBasis::new(v, 10000)),
        None => Err(LineError::Decimal(i)),
    }
}

/// The price that the decimal number at a place of a line is, and no
/// price where the field spells no decimal number.
fn price_or_zero(decimals: &Vec<Option<u64>>, i: usize) -> (price: PriceBasis)
    ensures
        price_is(price, decimal_value(decimals@, i as int)),
{
    if i < decimals.len() {
        match decimals[i] {
            Some(v) => PriceBasis::new(v, 10000),
            None => PriceBasis::new(0, 10000),
        }
    } else {
        PriceBasis::new(0, 10000)
    }
}

/// What a message about a symbol says.
fn parse_mapping(fields: &Vec<String>, decimals: &Vec<Option<u64>>) -> (body: Result<Body, LineError>)
    ensures
        match mapping_fault(fields@, decimals@) {
            Some(e) => body == Err::<Body, LineError>(e),
            None => body matches Ok(b) && body_tells(b, 3, fields@, decimals@),
        },
{
    let category = number_at(fields, 3, 65535)?;
    let market_category = match find_market_category(category as u16) {
        Some(found) => found,
        None => {
            return Err(LineError::Code(3));
        },
    };
    let system_id = number_at(fields, 4, u64::MAX)?;
    let exchange_code = parse_exchange_code(field_at(fields, 5)?.as_str());
    let issue_classification = match find_issue_classification(field_at(fields, 6)?.as_str()) {
        Some(found) => found,
        None => {
            return Err(LineError::Code(6));
        },
    };
    let round_lot_size = number_at(fields, 7, 0xffff_ffff)? as u32;
    let prev_close_price = price_at(fields, decimals, 8)?;
    let prev_close_volume = number_at(fields, 9, u64::MAX)?;
    let price_resolution = number_at(fields, 10, u64::MAX)?;
    let round_lots_accepted = match single_char(field_at(fields, 11)?.as_str()) {
        Some('Y') => true,
        Some('N') => false,
        _ => {
            return Err(LineError::Code(11));
        },
    };
    let step = price_at(fields, decimals, 12)?.inner();
    let mpv: u32 = if step > 0xffff_ffff {
        0xffff_ffff
    } else {
        step as u32
    };
    let unit_of_trade = number_at(fields, 13, u64::MAX)?;
    Ok(
        Body::SymbolIndexMapping(
            SymbolIndexMapping {
                market_category,
                system_id,
                exchange_code,
                issue_classification,
                prev_close_price,
                prev_close_volume,
                price_resolution,
                round_lot_size,
                round_lots_accepted,
                mpv,
                unit_of_trade,
            },
        ),
    )
}

/// What a message about the status of a security says.
fn parse_status(fields: &Vec<String>, decimals: &Vec<Option<u64>>) -> (body: Result<Body, LineError>)
    ensures
        match status_fault(fields@) {
            Some(e) => body == Err::<Body, LineError>(e),
            None => body matches Ok(b) && body_tells(b, 34, fields@, decimals@),
        },
{
    let security_status = match find_security_status_type(field_at(fields, 5)?.as_str()) {
        Some(found) => found,
        None => {
            return Err(LineError::Code(5));
        },
    };
    let halt_condition = match find_halt_condition(field_at(fields, 6)?.as_str()) {
        Some(found) => found,
        None => {
            return Err(LineError::Code(6));
        },
    };
    let _ = field_at(fields, 11)?;
    let ssr_state = match find_ssr_state(field_at(fields, 12)?.as_str()) {
        Some(found) => found,
        None => {
            return Err(LineError::Code(12));
        },
    };
    let market_state = parse_market_state(field_at(fields, 13)?.as_str());
    Ok(
        Body::SecurityStatus(
            SecurityStatus {
                security_status,
                halt_condition,
                price_1: price_or_zero(decimals, 7),
                price_2: price_or_zero(decimals, 8),
                ssr_triggering_exchange_id: parse_ssr_triggering_exchange_id(fields[9].as_str()),
                ssr_triggering_volume: number_or_zero(fields, 10),
                time: number_or_zero(fields, 11),
                ssr_state,
                market_state,
            },
        ),
    )
}

/// Whether a message about an auction imbalance can be read.
fn check_imbalance(fields: &Vec<String>, decimals: &Vec<Option<u64>>) -> (body: Result<Body, LineError>)
    ensures
        match imbalance_fault(fields@, decimals@) {
            Some(e) => body == Err::<Body, LineError>(e),
            None => body matches Ok(b) && body_tells(b, 105, fields@, decimals@),
        },
{
    let _ = price_at(fields, decimals, 5)?;
    let _ = number_at(fields, 6, 0xffff_ffff)?;
    let _ = number_at(fields, 7, 0xffff_ffff)?;
    let _ = number_at(fields, 8, 0xffff_ffff)?;
    let _ = number_at(fields, 9, u64::MAX)?;
    if find_auction_type(field_at(fields, 10)?.as_str()).is_none() {
        return Err(LineError::Code(10));
    }
    let _ = field_at(fields, 11)?;
    let _ = price_at(fields, decimals, 12)?;
    let _ = price_at(fields, decimals, 13)?;
    let _ = price_at(fields, decimals, 14)?;
    let _ = price_at(fields, decimals, 15)?;
    let _ = price_at(fields, decimals, 16)?;
    let _ = price_at(fields, decimals, 17)?;
    let auction = number_at(fields, 18, 255)?;
    if AuctionStatus::from_u8(auction as u8).is_none() {
        return Err(LineError::Code(18));
    }
    let freeze = number_at(fields, 19, 255)?;
    if FreezeStatus::from_u8(freeze as u8).is_none() {
        return Err(LineError::Code(19));
    }
    let _ = number_at(fields, 21, 0xffff_ffff)?;
    let _ = field_at(fields, 22)?;
    Ok(Body::Imbalance)
}

/// What a message of a type says.
fn parse_body(kind: u64, fields: &Vec<String>, decimals: &Vec<Option<u64>>) -> (body: Result<
    Body,
    LineError,
>)
    requires
        is_kind(kind),
    ensures
        match body_fault(kind, fields@, decimals@) {
            Some(e) => body == Err::<Body, LineError>(e),
            None => body matches Ok(b) && body_tells(b, kind, fields@, decimals@),
        },
{
    if kind == 3 {
        parse_mapping(fields, decimals)
    } else if kind == 34 {
        parse_status(fields, decimals)
    } else if kind == 100 || kind == 106 {
        let order_id = number_at(
            fields,
            5,
            if kind == 100 {
                u64::MAX
            } else {
                65535
            },
        )?;
        let price = price_at(fields, decimals, 6)?;
        let volume = number_at(fields, 7, 0xffff_ffff)? as u32;
        let side = match parse_side(field_at(fields, 8)?.as_str()) {
            Some(side) => side,
            None => {
                return Err(LineError::Code(8));
            },
        };
        let firm = field_at(fields, 9)?;
        if kind == 100 {
            Ok(
                Body::AddOrder(
                    AddOrder {
                        order_id,
                        price,
                        volume,
                        side,
                        firm_id: first_chars(trim_end(firm.as_str()).as_str(), 5),
                    },
                ),
            )
        } else {
            Ok(
                Body::AddOrderRefresh(
                    AddOrderRefresh {
                        order_id: order_id as u16,
                        price,
                        volume,
                        side,
                        firm_id: first_chars(firm.as_str(), 5),
                    },
                ),
            )
        }
    } else if kind == 101 {
        let order_id = number_at(fields, 5, u64::MAX)?;
        let price = price_at(fields, decimals, 6)?;
        let volume = number_at(fields, 7, 0xffff_ffff)? as u32;
        let position_change = match find_position_change(field_at(fields, 8)?.as_str()) {
            Some(found) => found,
            None => {
                return Err(LineError::Code(8));
            },
        };
        Ok(Body::ModifyOrder(ModifyOrder { order_id, price, volume, position_change }))
    } else if kind == 104 {
        let order_id = number_at(fields, 5, u64::MAX)?;
        let new_order_id = number_at(fields, 6, u64::MAX)?;
        let price = price_at(fields, decimals, 7)?;
        let volume = number_at(fields, 8, 0xffff_ffff)? as u32;
        Ok(Body::ReplaceOrder(ReplaceOrder { order_id, new_order_id, price, volume }))
    } else if kind == 102 {
        let order_id = number_at(fields, 5, u64::MAX)?;
        Ok(Body::DeleteOrder(DeleteOrder { order_id }))
    } else if kind == 103 {
        let order_id = number_at(fields, 5, u64::MAX)?;
        let trade_id = number_at(fields, 6, 0xffff_ffff)? as u32;
        let price = price_at(fields, decimals, 7)?;
        let volume = number_at(fields, 8, 0xffff_ffff)? as u32;
        let printable_flag = number_at(fields, 9, 255)? as u8;
        Ok(
            Body::OrderExecution(
                OrderExecution { order_id, trade_id, price, volume, printable_flag },
            ),
        )
    } else if kind == 110 {
        let trade_id = number_at(fields, 5, 0xffff_ffff)? as u32;
        let price = price_at(fields, decimals, 6)?;
        let volume = number_at(fields, 7, 0xffff_ffff)? as u32;
        Ok(Body::NonDisplayedTrade(NonDisplayedTrade { trade_id, price, volume }))
    } else if kind == 112 || kind == 221 {
        let trade_id = number_at(fields, 5, 0xffff_ffff)? as u32;
        Ok(Body::TradeCancel(TradeCancel { trade_id }))
    } else if kind == 114 {
        let rpi_indicator = parse_rti_indicator(field_at(fields, 5)?.as_str());
        Ok(Body::RetailPriceImprovement(RetailPriceImprovement { rpi_indicator }))
    } else if kind == 111 {
        let cross_id = number_at(fields, 5, 0xffff_ffff)? as u32;
        let price = price_at(fields, decimals, 6)?;
        let volume = number_at(fields, 7, 0xffff_ffff)? as u32;
        let cross_type = match find_cross_type(field_at(fields, 8)?.as_str()) {
            Some(found) => found,
            None => {
                return Err(LineError::Code(8));
            },
        };
        Ok(Body::CrossTrade(CrossTrade { cross_id, price, volume, cross_type }))
    } else if kind == 113 {
        let cross_id = number_at(fields, 5, 0xffff_ffff)? as u32;
        let volume = number_at(fields, 6, 0xffff_ffff)? as u32;
        Ok(Body::CrossCorrection(CrossCorrection { cross_id, volume }))
    } else if kind == 105 {
        check_imbalance(fields, decimals)
    } else {
        let _ = price_at(fields, decimals, 4)?;
        let _ = price_at(fields, decimals, 5)?;
        let _ = price_at(fields, decimals, 6)?;
        let _ = price_at(fields, decimals, 7)?;
        let _ = number_at(fields, 8, u64::MAX)?;
        Ok(Body::StockSummary)
    }
}

/// The message that a line holds.
///
/// The line comes as its fields, with the number of ten-thousandths that
/// each field spells as a decimal number, where it spells one, and with the
/// time of the line in nanoseconds since midnight, where it has one. A line
/// whose type is that of no message, or that lacks a field of its message,
/// or that holds in one what cannot be read, holds no message. Of a symbol
/// the first eleven characters are kept, and of a firm the first five.
pub fn parse_message(
    fields: &Vec<String>,
    decimals: &Vec<Option<u64>>,
    time: Option<u64>,
    channel_id: u8,
) -> (message: Result<Message, LineError>)
    ensures
        match line_fault(fields@, decimals@, time) {
            Some(e) => message == Err::<Message, LineError>(e),
            None => message matches Ok(m) && tells(m, fields@, decimals@, time, channel_id),
        },
{
    let kind = number_at(fields, 0, 0xffff_ffff)?;
    let sequence_number = number_at(fields, 1, u64::MAX)?;
    let name = field_at(fields, 3)?;
    let known = kind == 3 || kind == 34 || (100 <= kind && kind <= 106) || (110 <= kind && kind
        <= 114) || kind == 221 || kind == 223;
    if !known {
        return Err(LineError::Kind(kind as u32));
    }
    if kind != 3 && time.is_none() {
        return Err(LineError::Time);
    }
    let body = parse_body(kind, fields, decimals)?;
    let symbol = if kind == 3 {
        first_chars(fields[2].as_str(), 11)
    } else {
        first_chars(name.as_str(), 11)
    };
    let source_time = if kind == 3 {
        None
    } else {
        time
    };
    Ok(
        Message {
            msg_type: kind as u8,
            symbol,
            sequence_number: SequenceNumber::new(channel_id, sequence_number),
            source_time,
            body,
        },
    )
}

} // verus!
