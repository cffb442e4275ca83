//! The records that the events of a day are kept in.
use vstd::prelude::*;
use crate::collections::Side;
use std::collections::HashMap;
use crate::collections::text_map::TextMap;
use crate::nyse::book::{
    accepted, driven, fresh, halted, lemma_driven_further, refused, Body, HandleError, Message,
    NyseOrderBook,
};
use crate::taq::enums::{
    AddOrder, CrossTrade, DeleteOrder, ModifyOrder, NonDisplayedTrade, OrderExecution,
    ReplaceOrder,
};
use crate::taq::enums::CrossType;
use crate::us::price::PriceBasis;
use crate::us::{decode_side, encode_side, side_code};

verus! {

/// How many prices of each side the statistics of a day look at.
pub const LEVEL: usize = 5;

/// How many numbers make a record.
pub const NUM_FIELDS: usize = 9;

/// An event as nine numbers: the kind of event, its time, the reference of
/// the order, shares, the price, the side, the shares before the event,
/// something that depends on the kind, and the index of the next record of
/// the same order.
pub type Record = [u64; 9];

/// The number that stands for an auction in a record.
pub open spec fn cross_type_code(cross_type: CrossType) -> u64 {
    match cross_type {
        CrossType::O => 1,
        CrossType::C => 2,
        CrossType::E => 5,
        CrossType::R => 6,
    }
}

/// The auction that a number of a record stands for.
pub open spec fn cross_type_of_code(code: u64) -> Option<CrossType> {
    if code == 1 {
        Some(CrossType::O)
    } else if code == 2 {
        Some(CrossType::C)
    } else if code == 5 {
        Some(CrossType::E)
    } else if code == 6 {
        Some(CrossType::R)
    } else {
        None
    }
}

/// The number that stands for an auction in a record: 1 the opening, 2 the
/// closing, 5 the early opening, 6 the reopening.
pub fn encode_cross_type(cross_type: CrossType) -> (code: u64)
    ensures
        code == cross_type_code(cross_type),
{
    match cross_type {
        CrossType::O => 1,
        CrossType::C => 2,
        CrossType::E => 5,
        CrossType::R => 6,
    }
}

/// The auction that a number of a record stands for.
pub fn decode_cross_type(cross_type: u64) -> (decoded: CrossType)
    requires
        cross_type_of_code(cross_type) is Some,
    ensures
        Some(decoded) == cross_type_of_code(cross_type),
{
    if cross_type == 1 {
        CrossType::O
    } else if cross_type == 2 {
        CrossType::C
    } else if cross_type == 5 {
        CrossType::E
    } else {
        CrossType::R
    }
}

/// Every auction comes back from its number.
pub proof fn lemma_cross_type_round_trip(cross_type: CrossType)
    ensures
        cross_type_of_code(cross_type_code(cross_type)) == Some(cross_type),
{
}

/// How many numbers an event of a kind is read from.
pub open spec fn fields_read(kind: u64) -> nat {
    if kind == 0 || kind == 3 || kind == 6 {
        8
    } else if kind == 1 {
        3
    } else if kind == 7 {
        2
    } else {
        4
    }
}

/// Whether numbers are a record of an event: the first names a kind of
/// event, there are as many as the kind is read from, and where the kind
/// has a side or an auction, the number for it stands for one.
pub open spec fn is_record(values: Seq<u64>) -> bool {
    &&& values.len() >= 2
    &&& values[0] <= 7
    &&& values.len() >= fields_read(values[0])
    &&& values[0] == 0 ==> values[5] == 1 || values[5] == 2
    &&& values[0] == 6 ==> cross_type_of_code(values[7]) is Some
}

/// The side that a number of a record stands for.
pub open spec fn side_of_code(code: u64) -> Side {
    if code == 1 {
        Side::Ask
    } else {
        Side::Bid
    }
}

/// The event that a record holds.
pub open spec fn message_of(values: Seq<u64>) -> Message {
    let body = if values[0] == 0 {
        Body::AddOrder {
            reference: values[2],
            shares: values[3],
            price: values[4],
            side: side_of_code(values[5]),
            mpid_val: values[7],
        }
    } else if values[0] == 1 {
        Body::DeleteOrder { reference: values[2] }
    } else if values[0] == 2 {
        Body::OrderCancelled { reference: values[2], cancelled: values[3] }
    } else if values[0] == 3 {
        Body::ReplaceOrder {
            new_reference: values[2],
            shares: values[3],
            price: values[4],
            old_reference: values[7],
        }
    } else if values[0] == 4 {
        Body::OrderExecuted { reference: values[2], executed: values[3] }
    } else if values[0] == 5 {
        Body::OrderExecutedWithPrice { reference: values[2], executed: values[3] }
    } else if values[0] == 6 {
        Body::CrossTrade { cross_type: cross_type_of_code(values[7])->0 }
    } else {
        Body::NonCrossTrade {  }
    };
    Message { time: values[1], body }
}

/// Whether numbers are a record of an event.
pub fn check_record(values: &[u64]) -> (ok: bool)
    ensures
        ok == is_record(values@),
{
    if values.len() < 2 {
        return false;
    }
    let kind: u64 = values[0];
    if kind > 7 {
        return false;
    }
    let needed: usize = if kind == 0 || kind == 3 || kind == 6 {
        8
    } else if kind == 1 {
        3
    } else if kind == 7 {
        2
    } else {
        4
    };
    if values.len() < needed {
        return false;
    }
    if values[0] == 0 && !(values[5] == 1 || values[5] == 2) {
        return false;
    }
    if values[0] == 6 {
        let code: u64 = values[7];
        if !(code == 1 || code == 2 || code == 5 || code == 6) {
            return false;
        }
    }
    true
}

impl Message {
    /// The event that a record holds.
    pub fn from_record(values: &[u64]) -> (message: Message)
        requires
            is_record(values@),
        ensures
            message == message_of(values@),
    {
        let kind: u64 = values[0];
        let body = if kind == 0 {
            Body::AddOrder {
                reference: values[2],
                shares: values[3],
                price: values[4],
                side: decode_side(values[5]),
                mpid_val: values[7],
            }
        } else if kind == 1 {
            Body::DeleteOrder { reference: values[2] }
        } else if kind == 2 {
            Body::OrderCancelled { reference: values[2], cancelled: values[3] }
        } else if kind == 3 {
            Body::ReplaceOrder {
                new_reference: values[2],
                shares: values[3],
                price: values[4],
                old_reference: values[7],
            }
        } else if kind == 4 {
            Body::OrderExecuted { reference: values[2], executed: values[3] }
        } else if kind == 5 {
            Body::OrderExecutedWithPrice { reference: values[2], executed: values[3] }
        } else if kind == 6 {
            Body::CrossTrade { cross_type: decode_cross_type(values[7]) }
        } else {
            Body::NonCrossTrade {  }
        };
        Self { time: values[1], body }
    }
}

/// What the translation remembers of an order that is in the book.
#[derive(Clone, Copy, Debug, PartialEq, Eq, Structural)]
pub struct OrderStatus {
    pub price: u64,
    pub side: u64,
    pub shares: u64,
    /// The index of the last record that is about the order.
    pub index: usize,
    pub mpid_val: u64,
}

impl OrderStatus {
    pub fn new(price: PriceBasis, side: Side, quantity: u32, last_index: usize, mpid_val: u64) -> (status:
        Self)
        ensures
            status == (OrderStatus {
                price: price.spec_inner(),
                side: side_code(side),
                shares: quantity as u64,
                index: last_index,
                mpid_val,
            }),
    {
        Self {
            price: price.inner(),
            side: encode_side(side),
            shares: quantity as u64,
            index: last_index,
            mpid_val,
        }
    }
}

/// A record made of its nine numbers.
pub fn record(
    kind: u64,
    time: u64,
    reference: u64,
    shares: u64,
    price: u64,
    side: u64,
    original_shares: u64,
    aux: u64,
) -> (r: Record)
    ensures
        r@ == seq![kind, time, reference, shares, price, side, original_shares, aux, 0u64],
{
    let r: Record = [kind, time, reference, shares, price, side, original_shares, aux, 0];
    assert(r@ =~= seq![kind, time, reference, shares, price, side, original_shares, aux, 0u64]);
    r
}

/// The records of one symbol, with its best prices after each record and
/// its book.
#[derive(Debug)]
pub struct StockContainer {
    pub name: Option<String>,
    pub messages: Vec<Record>,
    /// The best ask and the best bid after each record, -1 where a side is empty.
    pub bbos: Vec<[i64; 2]>,
    pub book: NyseOrderBook,
}

impl StockContainer {
    pub fn new() -> (container: Self)
        ensures
            container.name is None,
            container.messages@.len() == 0,
            container.bbos@.len() == 0,
            fresh(container.book, false),
    {
        Self { name: None, messages: Vec::new(), bbos: Vec::new(), book: NyseOrderBook::new(false) }
    }

    pub fn new_with_name(name: String) -> (container: Self)
        ensures
            container.name == Some(name),
            container.messages@.len() == 0,
            container.bbos@.len() == 0,
            fresh(container.book, false),
    {
        Self {
            name: Some(name),
            messages: Vec::new(),
            bbos: Vec::new(),
            book: NyseOrderBook::new(false),
        }
    }
}

/// The events that records hold.
pub open spec fn messages_of(records: Seq<Record>) -> Seq<Message> {
    records.map_values(|r: Record| message_of(r@))
}

/// The events that records hold, the records given as plain values.
pub open spec fn events_of(rows: Seq<Seq<u64>>) -> Seq<Message> {
    rows.map_values(|r: Seq<u64>| message_of(r))
}

/// A price as the records of best prices hold it: -1 where there is none.
pub open spec fn quote_number(price: Option<u64>) -> i64 {
    match price {
        Some(p) => p as i64,
        None => -1i64,
    }
}

/// Best prices as the records of best prices hold them.
pub open spec fn quote_rows(quotes: Seq<(Option<u64>, Option<u64>)>) -> Seq<Seq<i64>> {
    quotes.map_values(
        |q: (Option<u64>, Option<u64>)| seq![quote_number(q.0), quote_number(q.1)],
    )
}

/// The records of best prices as plain values.
pub open spec fn bbo_rows(bbos: Seq<[i64; 2]>) -> Seq<Seq<i64>> {
    bbos.map_values(|b: [i64; 2]| b@)
}

impl StockContainer {
    /// Lets the events of new records change the book, one after the
    /// other, and puts each record among the records with the best prices
    /// that the book shows after it.
    ///
    /// Where the book refuses an event, that record and those behind it are
    /// left out.
    pub fn apply(&mut self, records: &Vec<Record>) -> (result: Result<(), TranslateError>)
        requires
            old(self).book.wf(),
            forall|i: int| 0 <= i < records@.len() ==> is_record(#[trigger] records@[i]@),
        ensures
            final(self).book.wf(),
            final(self).name == old(self).name,
            match result {
                Ok(_) => {
                    &&& final(self).messages@ == old(self).messages@ + records@
                    &&& exists|quotes: Seq<(Option<u64>, Option<u64>)>| #[trigger]
                        driven(old(self).book, final(self).book, messages_of(records@), quotes)
                            && bbo_rows(final(self).bbos@) == bbo_rows(old(self).bbos@) + quote_rows(
                            quotes,
                        )
                },
                Err(e) => e matches TranslateError::Book(reason) && exists|
                    count: int,
                    quotes: Seq<(Option<u64>, Option<u64>)>,
                | #[trigger]
                    halted(
                        old(self).book,
                        final(self).book,
                        messages_of(records@),
                        quotes,
                        count,
                        reason,
                    ) && final(self).messages@ == old(self).messages@ + records@.take(count)
                        && bbo_rows(final(self).bbos@) == bbo_rows(old(self).bbos@) + quote_rows(
                        quotes,
                    ),
            },
    {
        let ghost mut quotes: Seq<(Option<u64>, Option<u64>)> = Seq::empty();
        let mut i: usize = 0;
        proof {
            assert(messages_of(records@).take(0) =~= Seq::<Message>::empty());
            assert(self.messages@ =~= old(self).messages@ + records@.take(0));
            assert(bbo_rows(self.bbos@) =~= bbo_rows(old(self).bbos@) + quote_rows(quotes));
        }
        while i < records.len()
            invariant
                i <= records@.len(),
                self.book.wf(),
                self.name == old(self).name,
                forall|j: int| 0 <= j < records@.len() ==> is_record(#[trigger] records@[j]@),
                self.messages@ == old(self).messages@ + records@.take(i as int),
                driven(old(self).book, self.book, messages_of(records@).take(i as int), quotes),
                bbo_rows(self.bbos@) == bbo_rows(old(self).bbos@) + quote_rows(quotes),
            decreases records@.len() - i,
        {
            let row: Record = records[i];
            let message = Message::from_record(row.as_slice());
            let ghost before = self.book;
            let handled = self.book.handle(&message);
            match handled {
                Ok(_) => {
                    assert(accepted(before, self.book, message));
                },
                Err(e) => {
                    proof {
                        assert(refused(before, self.book, messages_of(records@)[i as int], e));
                        assert(halted(
                            old(self).book,
                            self.book,
                            messages_of(records@),
                            quotes,
                            i as int,
                            e,
                        ));
                    }
                    return Err(TranslateError::Book(e));
                },
            }
            let ghost after = self.book;
            let (ask, bid) = self.book.bbo();
            let a: i64 = match ask {
                Some(a) => a as i64,
                None => -1,
            };
            let b: i64 = match bid {
                Some(b) => b as i64,
                None => -1,
            };
            let quote: [i64; 2] = [a, b];
            let ghost bbos_before = self.bbos@;
            self.bbos.push(quote);
            self.messages.push(row);
            proof {
                assert(self.book == after);
                lemma_driven_further(
                    old(self).book,
                    before,
                    self.book,
                    messages_of(records@).take(i as int),
                    quotes,
                    message,
                );
                assert(messages_of(records@).take(i as int).push(message) =~= messages_of(
                    records@,
                ).take(i + 1));
                assert(self.messages@ =~= old(self).messages@ + records@.take(i + 1));
                let longer = quotes.push((self.book.best_ask(), self.book.best_bid()));
                assert(quote@ =~= seq![quote_number(ask), quote_number(bid)]);
                assert(self.bbos@ == bbos_before.push(quote));
                assert(bbo_rows(self.bbos@) =~= bbo_rows(bbos_before).push(quote@));
                assert(quote_rows(longer) =~= quote_rows(quotes).push(
                    seq![quote_number(ask), quote_number(bid)],
                ));
                assert(bbo_rows(self.bbos@) =~= bbo_rows(old(self).bbos@) + quote_rows(longer));
                quotes = longer;
            }
            i += 1;
        }
        proof {
            assert(records@.take(records@.len() as int) =~= records@);
            assert(messages_of(records@).take(records@.len() as int) =~= messages_of(records@));
        }
        Ok(())
    }
}

/// Why a message of the feed could not be taken into the records.
#[derive(PartialEq, Eq, Debug, Clone, Copy, Structural)]
pub enum TranslateError {
    /// The message is about an order that the translation does not know.
    OrderNotFound,
    /// The last record of the order is not among the records of the symbol.
    BadIndex,
    /// More is executed than the order has left.
    ExceedsShares,
    /// The message has no time.
    NoTime,
    /// The book refuses the event.
    Book(HandleError),
    /// The message carries an indicator that stands for nothing.
    BadIndicator,
}

/// The records as plain values.
pub open spec fn rows(records: Seq<Record>) -> Seq<Seq<u64>> {
    records.map_values(|r: Record| r@)
}

/// The record of a new order.
pub open spec fn add_row(time: u64, id: u64, status: OrderStatus) -> Seq<u64> {
    seq![0u64, time, id, status.shares, status.price, status.side, 0u64, status.mpid_val, 0u64]
}

/// The record of the end of an order.
pub open spec fn delete_row(time: u64, id: u64, status: OrderStatus) -> Seq<u64> {
    seq![1u64, time, id, status.shares, status.price, status.side, status.shares, 0u64, 0u64]
}

/// What taking a message into the records does: the new records, what is
/// remembered of the orders afterwards, the firms and their numbers, and the
/// index of the earlier record that now points to the first new one.
pub struct Encoding {
    pub rows: Seq<Seq<u64>>,
    pub statuses: Map<u64, OrderStatus>,
    pub mpids: Map<Seq<char>, u64>,
    pub patched: Option<int>,
}

/// The time of a message, or the refusal of a message without one.
pub open spec fn timed(source_time: Option<u64>, encoding: spec_fn(u64) -> Encoding) -> Result<
    Encoding,
    TranslateError,
> {
    match source_time {
        Some(time) => Ok(encoding(time)),
        None => Err(TranslateError::NoTime),
    }
}

/// What is remembered of an order, or the refusal of a message about an
/// order that is not known or whose last record is not there.
pub open spec fn known(statuses: Map<u64, OrderStatus>, id: u64, len: nat) -> Result<
    OrderStatus,
    TranslateError,
> {
    if !statuses.contains_key(id) {
        Err(TranslateError::OrderNotFound)
    } else if statuses[id].index >= len {
        Err(TranslateError::BadIndex)
    } else {
        Ok(statuses[id])
    }
}

/// What taking a message of the feed into the records of its symbol does.
///
/// A new order is remembered, with the number of its firm: the number that
/// the firm has, or the next free one. Every other message about an order
/// makes the last record of the order point to the record that it brings.
/// A modification that changes the price or raises the volume ends the
/// order and starts it anew, in two records; one that lowers the volume
/// cancels the difference. A replacement forgets the order and remembers
/// the new one in its place. An execution at another price than the order's
/// is recorded as one with a price. Trades change no order. Other messages
/// bring no record.
pub open spec fn taq_encoding(
    statuses: Map<u64, OrderStatus>,
    mpids: Map<Seq<char>, u64>,
    mpid_count: nat,
    len: nat,
    msg: crate::taq::parser::Message,
) -> Result<Encoding, TranslateError> {
    let none = Encoding { rows: Seq::empty(), statuses, mpids, patched: None };
    match msg.body {
        crate::taq::parser::Body::AddOrder(a) => {
            let code = if mpids.contains_key(a.firm_id@) {
                mpids[a.firm_id@]
            } else {
                (mpid_count + 1) as u64
            };
            let status = OrderStatus {
                price: a.price.spec_inner(),
                side: side_code(a.side),
                shares: a.volume as u64,
                index: len as usize,
                mpid_val: code,
            };
            timed(
                msg.source_time,
                |time: u64|
                    Encoding {
                        rows: seq![add_row(time, a.order_id, status)],
                        statuses: statuses.insert(a.order_id, status),
                        mpids: mpids.insert(a.firm_id@, code),
                        patched: None,
                    },
            )
        },
        crate::taq::parser::Body::ModifyOrder(m) => match known(statuses, m.order_id, len) {
            Err(e) => Err(e),
            Ok(status) => if m.price.spec_inner() != status.price || m.volume > status.shares {
                let anew = OrderStatus {
                    price: m.price.spec_inner(),
                    side: status.side,
                    shares: m.volume as u64,
                    index: (len + 1) as usize,
                    mpid_val: status.mpid_val,
                };
                timed(
                    msg.source_time,
                    |time: u64|
                        Encoding {
                            rows: seq![
                                delete_row(time, m.order_id, status),
                                add_row(time, m.order_id, anew),
                            ],
                            statuses: statuses.insert(m.order_id, anew),
                            mpids,
                            patched: Some(status.index as int),
                        },
                )
            } else {
                let less = OrderStatus { shares: m.volume as u64, index: len as usize, ..status };
                timed(
                    msg.source_time,
                    |time: u64|
                        Encoding {
                            rows: seq![
                                seq![
                                    2u64,
                                    time,
                                    m.order_id,
                                    (status.shares - m.volume) as u64,
                                    status.price,
                                    status.side,
                                    status.shares,
                                    0u64,
                                    0u64,
                                ],
                            ],
                            statuses: statuses.insert(m.order_id, less),
                            mpids,
                            patched: Some(status.index as int),
                        },
                )
            },
        },
        crate::taq::parser::Body::DeleteOrder(d) => match known(statuses, d.order_id, len) {
            Err(e) => Err(e),
            Ok(status) => timed(
                msg.source_time,
                |time: u64|
                    Encoding {
                        rows: seq![delete_row(time, d.order_id, status)],
                        statuses: statuses.remove(d.order_id),
                        mpids,
                        patched: Some(status.index as int),
                    },
            ),
        },
        crate::taq::parser::Body::ReplaceOrder(r) => match known(statuses, r.order_id, len) {
            Err(e) => Err(e),
            Ok(status) => {
                let anew = OrderStatus {
                    price: r.price.spec_inner(),
                    side: status.side,
                    shares: r.volume as u64,
                    index: len as usize,
                    mpid_val: status.mpid_val,
                };
                timed(
                    msg.source_time,
                    |time: u64|
                        Encoding {
                            rows: seq![
                                seq![
                                    3u64,
                                    time,
                                    r.new_order_id,
                                    r.volume as u64,
                                    r.price.spec_inner(),
                                    status.side,
                                    status.shares,
                                    r.order_id,
                                    0u64,
                                ],
                            ],
                            statuses: statuses.remove(r.order_id).insert(r.new_order_id, anew),
                            mpids,
                            patched: Some(status.index as int),
                        },
                )
            },
        },
        crate::taq::parser::Body::OrderExecution(e) => match known(statuses, e.order_id, len) {
            Err(error) => Err(error),
            Ok(status) => if e.volume > status.shares {
                Err(TranslateError::ExceedsShares)
            } else {
                let less = OrderStatus {
                    shares: (status.shares - e.volume) as u64,
                    index: len as usize,
                    ..status
                };
                let kind = if e.price.spec_inner() != status.price {
                    5u64
                } else {
                    4u64
                };
                timed(
                    msg.source_time,
                    |time: u64|
                        Encoding {
                            rows: seq![
                                seq![
                                    kind,
                                    time,
                                    e.order_id,
                                    e.volume as u64,
                                    e.price.spec_inner(),
                                    status.side,
                                    status.shares,
                                    e.printable_flag as u64,
                                    0u64,
                                ],
                            ],
                            statuses: statuses.insert(e.order_id, less),
                            mpids,
                            patched: Some(status.index as int),
                        },
                )
            },
        },
        crate::taq::parser::Body::CrossTrade(c) => timed(
            msg.source_time,
            |time: u64|
                Encoding {
                    rows: seq![
                        seq![
                            6u64,
                            time,
                            0u64,
                            c.volume as u64,
                            c.price.spec_inner(),
                            0u64,
                            0u64,
                            cross_type_code(c.cross_type),
                            0u64,
                        ],
                    ],
                    ..none
                },
        ),
        crate::taq::parser::Body::NonDisplayedTrade(n) => timed(
            msg.source_time,
            |time: u64|
                Encoding {
                    rows: seq![
                        seq![
                            7u64,
                            time,
                            0u64,
                            n.volume as u64,
                            n.price.spec_inner(),
                            0u64,
                            0u64,
                            0u64,
                            0u64,
                        ],
                    ],
                    ..none
                },
        ),
        _ => Ok(none),
    }
}

/// Whether every order is remembered with the number of a side.
pub open spec fn sided(statuses: Map<u64, OrderStatus>) -> bool {
    forall|id: u64| #[trigger]
        statuses.contains_key(id) ==> statuses[id].side == 1 || statuses[id].side == 2
}

/// What a message brings are records, and every order is still remembered
/// with a side.
pub proof fn lemma_encoding_is_sound(
    statuses: Map<u64, OrderStatus>,
    mpids: Map<Seq<char>, u64>,
    mpid_count: nat,
    len: nat,
    msg: crate::taq::parser::Message,
)
    requires
        sided(statuses),
        taq_encoding(statuses, mpids, mpid_count, len, msg) is Ok,
    ensures
        sided(taq_encoding(statuses, mpids, mpid_count, len, msg)->Ok_0.statuses),
        forall|i: int|
            0 <= i < taq_encoding(statuses, mpids, mpid_count, len, msg)->Ok_0.rows.len()
                ==> is_record(
                #[trigger] taq_encoding(statuses, mpids, mpid_count, len, msg)->Ok_0.rows[i],
            ),
        taq_encoding(statuses, mpids, mpid_count, len, msg)->Ok_0.rows.len() <= 2,
{
    crate::us::lemma_side_code_round_trip(crate::collections::Side::Ask);
    crate::us::lemma_side_code_round_trip(crate::collections::Side::Bid);
    match msg.body {
        crate::taq::parser::Body::CrossTrade(c) => {
            lemma_cross_type_round_trip(c.cross_type);
        },
        _ => {},
    }
}

/// The records with the last number of one of them changed: the index of
/// the next record of the same order.
pub open spec fn patched_rows(rows: Seq<Seq<u64>>, at: Option<int>, next: u64) -> Seq<Seq<u64>> {
    match at {
        Some(i) => rows.update(i, rows[i].update(8, next)),
        None => rows,
    }
}

/// What a translation remembers: of every order that is in the book, and
/// the numbers of the firms.
#[derive(Debug)]
pub struct Translator {
    status_map: HashMap<u64, OrderStatus>,
    mpid_map: TextMap,
}

impl Translator {
    /// What is remembered of the orders.
    pub closed spec fn statuses(&self) -> Map<u64, OrderStatus> {
        self.status_map@
    }

    /// The firms and their numbers.
    pub closed spec fn mpids(&self) -> Map<Seq<char>, u64> {
        self.mpid_map@
    }

    /// How many firms have a number.
    pub closed spec fn mpid_count(&self) -> nat {
        self.mpid_map.spec_len()
    }

    /// The firms are kept once each, and every order is remembered with a side.
    pub closed spec fn wf(&self) -> bool {
        &&& self.mpid_map.wf()
        &&& sided(self.status_map@)
    }

    /// Every order is remembered with a side.
    pub proof fn lemma_sided(&self)
        requires
            self.wf(),
        ensures
            sided(self.statuses()),
    {
    }

    /// A translation that knows no order, and no firm but the one without a
    /// name, whose number is 0.
    pub fn new() -> (translator: Self)
        ensures
            translator.wf(),
            translator.statuses() == Map::<u64, OrderStatus>::empty(),
            translator.mpids() == Map::<Seq<char>, u64>::empty().insert(Seq::<char>::empty(), 0),
            translator.mpid_count() == 1,
    {
        let mut mpid_map = TextMap::new();
        mpid_map.insert(String::new(), 0);
        Self { status_map: HashMap::new(), mpid_map }
    }

    /// What is remembered of an order.
    pub fn status(&self, id: u64) -> (status: Option<OrderStatus>)
        ensures
            status == if self.statuses().contains_key(id) {
                Some(self.statuses()[id])
            } else {
                None
            },
    {
        broadcast use vstd::std_specs::hash::group_hash_axioms;

        match self.status_map.get(&id) {
            Some(status) => Some(*status),
            None => None,
        }
    }

    /// The firms and their numbers: every firm once, with its number.
    pub fn mpid_entries(&self) -> (entries: Vec<(String, u64)>)
        requires
            self.wf(),
        ensures
            entries@.len() == self.mpid_count(),
            forall|i: int|
                0 <= i < entries@.len() ==> self.mpids().contains_key((#[trigger] entries@[i]).0@)
                    && self.mpids()[entries@[i].0@] == entries@[i].1,
            forall|name: Seq<char>|
                self.mpids().contains_key(name) ==> exists|i: int|
                    0 <= i < entries@.len() && (#[trigger] entries@[i]).0@ == name,
            forall|i: int, j: int|
                0 <= i < j < entries@.len() ==> entries@[i].0@ != entries@[j].0@,
    {
        proof {
            self.mpid_map.lemma_entries();
        }
        let entries = self.mpid_map.to_entries();
        proof {
            let listed = self.mpid_map.entries();
            assert forall|i: int| 0 <= i < entries@.len() implies self.mpids().contains_key(
                (#[trigger] entries@[i]).0@,
            ) && self.mpids()[entries@[i].0@] == entries@[i].1 by {
                assert(listed[i].0 == entries@[i].0@);
            }
            assert forall|name: Seq<char>| self.mpids().contains_key(name) implies exists|i: int|
                0 <= i < entries@.len() && (#[trigger] entries@[i]).0@ == name by {
                let k = choose|k: int| 0 <= k < listed.len() && (#[trigger] listed[k]).0 == name;
                assert(entries@[k].0@ == name);
            }
            assert forall|i: int, j: int| 0 <= i < j < entries@.len() implies entries@[i].0@
                != entries@[j].0@ by {
                assert(listed[i].0 == entries@[i].0@);
                assert(listed[j].0 == entries@[j].0@);
            }
        }
        entries
    }

    /// What is remembered of an order that a message is about.
    fn known(&self, id: u64, len: usize) -> (status: Result<OrderStatus, TranslateError>)
        ensures
            status == known(self.statuses(), id, len as nat),
    {
        broadcast use vstd::std_specs::hash::group_hash_axioms;

        match self.status_map.get(&id) {
            None => Err(TranslateError::OrderNotFound),
            Some(status) => {
                if status.index >= len {
                    Err(TranslateError::BadIndex)
                } else {
                    Ok(*status)
                }
            },
        }
    }

    /// Makes the record at `at` point to the record that comes next.
    fn patch(messages: &mut Vec<Record>, at: usize)
        requires
            at < old(messages)@.len(),
        ensures
            rows(final(messages)@) == patched_rows(
                rows(old(messages)@),
                Some(at as int),
                old(messages)@.len() as u64,
            ),
            final(messages)@.len() == old(messages)@.len(),
    {
        let next: u64 = messages.len() as u64;
        let mut row: Record = messages[at];
        row[8] = next;
        messages[at] = row;
        proof {
            assert(rows(messages@) =~= patched_rows(rows(old(messages)@), Some(at as int), next));
        }
    }

    /// Takes a message of the feed into the records of its symbol: what is
    /// remembered of the orders changes, the last record of the order that
    /// the message is about points to the first new record, and the new
    /// records come back. They are not yet among the records.
    ///
    /// A message that is refused changes nothing.
    pub fn encode(&mut self, messages: &mut Vec<Record>, message: &crate::taq::parser::Message) -> (result:
        Result<Vec<Record>, TranslateError>)
        requires
            old(self).wf(),
            old(messages)@.len() + 2 <= usize::MAX,
        ensures
            final(self).wf(),
            match taq_encoding(
                old(self).statuses(),
                old(self).mpids(),
                old(self).mpid_count(),
                old(messages)@.len(),
                *message,
            ) {
                Err(e) => result == Err::<Vec<Record>, TranslateError>(e) && *final(self) == *old(self)
                    && *final(messages) == *old(messages),
                Ok(encoding) => {
                    &&& result matches Ok(records)
                    &&& rows(records@) == encoding.rows
                    &&& final(self).statuses() == encoding.statuses
                    &&& final(self).mpids() == encoding.mpids
                    &&& rows(final(messages)@) == patched_rows(
                        rows(old(messages)@),
                        encoding.patched,
                        old(messages)@.len() as u64,
                    )
                },
            },
    {
        broadcast use vstd::std_specs::hash::group_hash_axioms;

        proof {
            if taq_encoding(
                self.statuses(),
                self.mpids(),
                self.mpid_count(),
                messages@.len(),
                *message,
            ) is Ok {
                lemma_encoding_is_sound(
                    self.statuses(),
                    self.mpids(),
                    self.mpid_count(),
                    messages@.len(),
                    *message,
                );
            }
        }
        let len: usize = messages.len();
        let mut records: Vec<Record> = Vec::new();
        match &message.body {
            crate::taq::parser::Body::AddOrder(AddOrder { price, side, volume, firm_id, order_id }) => {
                let time: u64 = match message.source_time {
                    Some(time) => time,
                    None => {
                        return Err(TranslateError::NoTime);
                    },
                };
                let mpid_val: u64 = match self.mpid_map.get(firm_id) {
                    Some(code) => {
                        proof {
                            assert(self.mpids().insert(firm_id@, code) =~= self.mpids());
                        }
                        code
                    },
                    None => {
                        self.mpid_map.insert(firm_id.clone(), 0);
                        let code: u64 = self.mpid_map.len() as u64;
                        self.mpid_map.insert(firm_id.clone(), code);
                        proof {
                            assert(self.mpids() =~= old(self).mpids().insert(firm_id@, code));
                        }
                        code
                    },
                };
                let status = OrderStatus::new(*price, *side, *volume, len, mpid_val);
                self.status_map.insert(*order_id, status);
                records.push(
                    record(0, time, *order_id, status.shares, status.price, status.side, 0, mpid_val),
                );
                proof {
                    assert(rows(records@) =~= seq![add_row(time, *order_id, status)]);
                }
                Ok(records)
            },
            crate::taq::parser::Body::ModifyOrder(ModifyOrder { order_id, price, volume, .. }) => {
                let status = match self.known(*order_id, len) {
                    Ok(status) => status,
                    Err(e) => {
                        return Err(e);
                    },
                };
                let time: u64 = match message.source_time {
                    Some(time) => time,
                    None => {
                        return Err(TranslateError::NoTime);
                    },
                };
                Self::patch(messages, status.index);
                if price.inner() != status.price || *volume as u64 > status.shares {
                    records.push(
                        record(
                            1,
                            time,
                            *order_id,
                            status.shares,
                            status.price,
                            status.side,
                            status.shares,
                            0,
                        ),
                    );
                    let anew = OrderStatus {
                        price: price.inner(),
                        side: status.side,
                        shares: *volume as u64,
                        index: len + records.len(),
                        mpid_val: status.mpid_val,
                    };
                    self.status_map.insert(*order_id, anew);
                    records.push(
                        record(
                            0,
                            time,
                            *order_id,
                            anew.shares,
                            anew.price,
                            anew.side,
                            0,
                            anew.mpid_val,
                        ),
                    );
                    proof {
                        assert(rows(records@) =~= seq![
                            delete_row(time, *order_id, status),
                            add_row(time, *order_id, anew),
                        ]);
                    }
                } else {
                    let cancelled: u64 = status.shares - *volume as u64;
                    let less = OrderStatus { shares: *volume as u64, index: len, ..status };
                    self.status_map.insert(*order_id, less);
                    records.push(
                        record(
                            2,
                            time,
                            *order_id,
                            cancelled,
                            status.price,
                            status.side,
                            status.shares,
                            0,
                        ),
                    );
                    proof {
                        assert(rows(records@) =~= seq![
                            seq![
                                2u64,
                                time,
                                *order_id,
                                cancelled,
                                status.price,
                                status.side,
                                status.shares,
                                0u64,
                                0u64,
                            ],
                        ]);
                    }
                }
                Ok(records)
            },
            crate::taq::parser::Body::DeleteOrder(DeleteOrder { order_id }) => {
                let status = match self.known(*order_id, len) {
                    Ok(status) => status,
                    Err(e) => {
                        return Err(e);
                    },
                };
                let time: u64 = match message.source_time {
                    Some(time) => time,
                    None => {
                        return Err(TranslateError::NoTime);
                    },
                };
                Self::patch(messages, status.index);
                let _ = self.status_map.remove(order_id);
                records.push(
                    record(
                        1,
                        time,
                        *order_id,
                        status.shares,
                        status.price,
                        status.side,
                        status.shares,
                        0,
                    ),
                );
                proof {
                    assert(rows(records@) =~= seq![delete_row(time, *order_id, status)]);
                }
                Ok(records)
            },
            crate::taq::parser::Body::ReplaceOrder(
                ReplaceOrder { order_id, new_order_id, price, volume },
            ) => {
                let status = match self.known(*order_id, len) {
                    Ok(status) => status,
                    Err(e) => {
                        return Err(e);
                    },
                };
                let time: u64 = match message.source_time {
                    Some(time) => time,
                    None => {
                        return Err(TranslateError::NoTime);
                    },
                };
                Self::patch(messages, status.index);
                let _ = self.status_map.remove(order_id);
                let anew = OrderStatus {
                    price: price.inner(),
                    side: status.side,
                    shares: *volume as u64,
                    index: len,
                    mpid_val: status.mpid_val,
                };
                self.status_map.insert(*new_order_id, anew);
                records.push(
                    record(
                        3,
                        time,
                        *new_order_id,
                        anew.shares,
                        anew.price,
                        anew.side,
                        status.shares,
                        *order_id,
                    ),
                );
                proof {
                    assert(rows(records@) =~= seq![
                        seq![
                            3u64,
                            time,
                            *new_order_id,
                            *volume as u64,
                            price.spec_inner(),
                            status.side,
                            status.shares,
                            *order_id,
                            0u64,
                        ],
                    ]);
                }
                Ok(records)
            },
            crate::taq::parser::Body::OrderExecution(
                OrderExecution { order_id, price, volume, printable_flag, .. },
            ) => {
                let status = match self.known(*order_id, len) {
                    Ok(status) => status,
                    Err(e) => {
                        return Err(e);
                    },
                };
                if *volume as u64 > status.shares {
                    return Err(TranslateError::ExceedsShares);
                }
                let time: u64 = match message.source_time {
                    Some(time) => time,
                    None => {
                        return Err(TranslateError::NoTime);
                    },
                };
                Self::patch(messages, status.index);
                let executed: u64 = *volume as u64;
                let less = OrderStatus { shares: status.shares - executed, index: len, ..status };
                self.status_map.insert(*order_id, less);
                let kind: u64 = if price.inner() != status.price {
                    5
                } else {
                    4
                };
                records.push(
                    record(
                        kind,
                        time,
                        *order_id,
                        executed,
                        price.inner(),
                        status.side,
                        status.shares,
                        *printable_flag as u64,
                    ),
                );
                proof {
                    assert(rows(records@) =~= seq![
                        seq![
                            kind,
                            time,
                            *order_id,
                            executed,
                            price.spec_inner(),
                            status.side,
                            status.shares,
                            *printable_flag as u64,
                            0u64,
                        ],
                    ]);
                }
                Ok(records)
            },
            crate::taq::parser::Body::CrossTrade(CrossTrade { price, volume, cross_type, .. }) => {
                let time: u64 = match message.source_time {
                    Some(time) => time,
                    None => {
                        return Err(TranslateError::NoTime);
                    },
                };
                let code: u64 = encode_cross_type(*cross_type);
                records.push(record(6, time, 0, *volume as u64, price.inner(), 0, 0, code));
                proof {
                    assert(rows(records@) =~= seq![
                        seq![
                            6u64,
                            time,
                            0u64,
                            *volume as u64,
                            price.spec_inner(),
                            0u64,
                            0u64,
                            code,
                            0u64,
                        ],
                    ]);
                }
                Ok(records)
            },
            crate::taq::parser::Body::NonDisplayedTrade(NonDisplayedTrade { price, volume, .. }) => {
                let time: u64 = match message.source_time {
                    Some(time) => time,
                    None => {
                        return Err(TranslateError::NoTime);
                    },
                };
                records.push(record(7, time, 0, *volume as u64, price.inner(), 0, 0, 0));
                proof {
                    assert(rows(records@) =~= seq![
                        seq![
                            7u64,
                            time,
                            0u64,
                            *volume as u64,
                            price.spec_inner(),
                            0u64,
                            0u64,
                            0u64,
                            0u64,
                        ],
                    ]);
                }
                Ok(records)
            },
            _ => {
                proof {
                    assert(rows(records@) =~= Seq::<Seq<u64>>::empty());
                }
                Ok(records)
            },
        }
    }
}

impl Translator {
    /// Takes a message of the feed into the records of its symbol and lets
    /// the events that it brings change the book of the symbol.
    ///
    /// Returns how many records the message has brought. A message that is
    /// refused before it brings a record changes nothing.
    pub fn translate(&mut self, container: &mut StockContainer, message: &crate::taq::parser::Message) -> (result:
        Result<usize, TranslateError>)
        requires
            old(self).wf(),
            old(container).book.wf(),
            old(container).messages@.len() + 2 <= usize::MAX,
        ensures
            final(self).wf(),
            final(container).book.wf(),
            final(container).name == old(container).name,
            match taq_encoding(
                old(self).statuses(),
                old(self).mpids(),
                old(self).mpid_count(),
                old(container).messages@.len(),
                *message,
            ) {
                Err(e) => result == Err::<usize, TranslateError>(e) && *final(self) == *old(self)
                    && *final(container) == *old(container),
                Ok(encoding) => {
                    &&& final(self).statuses() == encoding.statuses
                    &&& final(self).mpids() == encoding.mpids
                    &&& match result {
                        Ok(count) => {
                            &&& count == encoding.rows.len()
                            &&& rows(final(container).messages@) == patched_rows(
                                rows(old(container).messages@),
                                encoding.patched,
                                old(container).messages@.len() as u64,
                            ) + encoding.rows
                            &&& exists|quotes: Seq<(Option<u64>, Option<u64>)>| #[trigger]
                                driven(
                                    old(container).book,
                                    final(container).book,
                                    events_of(encoding.rows),
                                    quotes,
                                ) && bbo_rows(final(container).bbos@) == bbo_rows(
                                    old(container).bbos@,
                                ) + quote_rows(quotes)
                        },
                        Err(e) => e matches TranslateError::Book(reason) && exists|
                            count: int,
                            quotes: Seq<(Option<u64>, Option<u64>)>,
                        | #[trigger]
                            halted(
                                old(container).book,
                                final(container).book,
                                events_of(encoding.rows),
                                quotes,
                                count,
                                reason,
                            ) && rows(final(container).messages@) == patched_rows(
                                rows(old(container).messages@),
                                encoding.patched,
                                old(container).messages@.len() as u64,
                            ) + encoding.rows.take(count) && bbo_rows(final(container).bbos@)
                                == bbo_rows(old(container).bbos@) + quote_rows(quotes),
                    }
                },
            },
    {
        proof {
            self.lemma_sided();
            if taq_encoding(
                self.statuses(),
                self.mpids(),
                self.mpid_count(),
                container.messages@.len(),
                *message,
            ) is Ok {
                lemma_encoding_is_sound(
                    self.statuses(),
                    self.mpids(),
                    self.mpid_count(),
                    container.messages@.len(),
                    *message,
                );
            }
        }
        let records = match self.encode(&mut container.messages, message) {
            Ok(records) => records,
            Err(e) => {
                return Err(e);
            },
        };
        proof {
            assert forall|i: int| 0 <= i < records@.len() implies is_record(
                #[trigger] records@[i]@,
            ) by {
                assert(rows(records@)[i] == records@[i]@);
            }
        }
        let ghost patched = container.messages@;
        match container.apply(&records) {
            Ok(_) => {
                proof {
                    assert(rows(container.messages@) =~= rows(patched) + rows(records@));
                    assert(messages_of(records@) =~= events_of(rows(records@)));
                }
                Ok(records.len())
            },
            Err(e) => {
                proof {
                    assert(messages_of(records@) =~= events_of(rows(records@)));
                    let reason = e->Book_0;
                    let (count, quotes): (int, Seq<(Option<u64>, Option<u64>)>) = choose|
                        count: int,
                        quotes: Seq<(Option<u64>, Option<u64>)>,
                    | #[trigger]
                        halted(
                            old(container).book,
                            container.book,
                            messages_of(records@),
                            quotes,
                            count,
                            reason,
                        ) && container.messages@ == patched + records@.take(count) && bbo_rows(
                            container.bbos@,
                        ) == bbo_rows(old(container).bbos@) + quote_rows(quotes);
                    assert(rows(container.messages@) =~= rows(patched) + rows(records@).take(count));
                }
                Err(e)
            },
        }
    }
}

} // verus!
