//! The records that the events of a day are kept in.
use vstd::prelude::*;
use std::collections::HashMap;
use crate::collections::text_map::TextMap;
use crate::itchy::{CrossType, ImbalanceDirection, TradingState};
use crate::nasdaq::book::{event_of, Body, Message, NasdaqOrderBook};
use crate::nyse::book::{accepted, fresh, refused};
use crate::nyse::data::{
    add_row, delete_row, known, patched_rows, record, rows, sided, Encoding, TranslateError,
};
use crate::us::{decode_side, side_code};

pub use crate::nyse::data::{OrderStatus, Record};

verus! {

/// How many prices of each side the statistics of a day look at.
pub const LEVEL: usize = 5;

/// How many numbers make a record.
pub const NUM_FIELDS: usize = 9;

/// The number that says in a record whether an execution is shown on the
/// tape: 1 where it is, 2 where it is not.
pub fn encode_printable(printable: bool) -> (code: u64)
    ensures
        code == if printable {
            1u64
        } else {
            2u64
        },
{
    match printable {
        true => 1,
        false => 2,
    }
}

/// The number that stands for an auction in a record.
pub open spec fn cross_type_code(cross_type: CrossType) -> u64 {
    match cross_type {
        CrossType::Opening => 1,
        CrossType::Closing => 2,
        CrossType::IpoOrHalted => 3,
        CrossType::Intraday => 4,
        CrossType::ExtendedTradingClose => 5,
    }
}

/// The auction that a number of a record stands for.
pub open spec fn cross_type_of_code(code: u64) -> Option<CrossType> {
    if code == 1 {
        Some(CrossType::Opening)
    } else if code == 2 {
        Some(CrossType::Closing)
    } else if code == 3 {
        Some(CrossType::IpoOrHalted)
    } else if code == 4 {
        Some(CrossType::Intraday)
    } else if code == 5 {
        Some(CrossType::ExtendedTradingClose)
    } else {
        None
    }
}

/// An auction comes back from the number that stands for it.
pub proof fn lemma_cross_type_round_trip(cross_type: CrossType)
    ensures
        cross_type_of_code(cross_type_code(cross_type)) == Some(cross_type),
{
}

/// The number that stands for an auction in a record.
pub fn encode_cross_type(cross_type: CrossType) -> (code: u64)
    ensures
        code == cross_type_code(cross_type),
{
    match cross_type {
        CrossType::Opening => 1,
        CrossType::Closing => 2,
        CrossType::IpoOrHalted => 3,
        CrossType::Intraday => 4,
        CrossType::ExtendedTradingClose => 5,
    }
}

/// The auction that a number of a record stands for.
pub fn decode_cross_type(cross_type: u64) -> (decoded: CrossType)
    requires
        cross_type_of_code(cross_type) is Some,
    ensures
        Some(decoded) == cross_type_of_code(cross_type),
{
    if cross_type == 1 {
        CrossType::Opening
    } else if cross_type == 2 {
        CrossType::Closing
    } else if cross_type == 3 {
        CrossType::IpoOrHalted
    } else if cross_type == 4 {
        CrossType::Intraday
    } else {
        CrossType::ExtendedTradingClose
    }
}

/// The number that stands for the side of an imbalance.
pub fn encode_imbalance_direction(direction: ImbalanceDirection) -> (code: u64)
    ensures
        code == match direction {
            ImbalanceDirection::Buy => 1u64,
            ImbalanceDirection::Sell => 2u64,
            ImbalanceDirection::NoImbalance => 3u64,
            ImbalanceDirection::InsufficientOrders => 4u64,
        },
{
    match direction {
        ImbalanceDirection::Buy => 1,
        ImbalanceDirection::Sell => 2,
        ImbalanceDirection::NoImbalance => 3,
        ImbalanceDirection::InsufficientOrders => 4,
    }
}

/// The number that stands for a price variation indicator: 0 for `L`, its
/// value for a digit from 1 to 9, 10 to 12 for `A` to `C`, 13 for a blank.
pub open spec fn price_variation_code(ind: char) -> Option<u64> {
    if ind == 'L' {
        Some(0)
    } else if '1' <= ind <= '9' {
        Some((ind as u64 - '0' as u64) as u64)
    } else if ind == 'A' {
        Some(10)
    } else if ind == 'B' {
        Some(11)
    } else if ind == 'C' {
        Some(12)
    } else if ind == ' ' {
        Some(13)
    } else {
        None
    }
}

/// The number that stands for a price variation indicator.
pub fn encode_price_variation_indicator(ind: char) -> (code: u64)
    requires
        price_variation_code(ind) is Some,
    ensures
        Some(code) == price_variation_code(ind),
{
    if ind == 'L' {
        0
    } else if ind == '1' {
        1
    } else if ind == '2' {
        2
    } else if ind == '3' {
        3
    } else if ind == '4' {
        4
    } else if ind == '5' {
        5
    } else if ind == '6' {
        6
    } else if ind == '7' {
        7
    } else if ind == '8' {
        8
    } else if ind == '9' {
        9
    } else if ind == 'A' {
        10
    } else if ind == 'B' {
        11
    } else if ind == 'C' {
        12
    } else {
        13
    }
}

/// Whether numbers are a record of an event: the first names a kind of
/// event, there are as many as the kind is read from, and where the kind
/// has a side or an auction, the number for it stands for one.
pub open spec fn is_record(values: Seq<u64>) -> bool {
    &&& values.len() >= 2
    &&& values[0] <= 7
    &&& values.len() >= crate::nyse::data::fields_read(values[0])
    &&& values[0] == 0 ==> values[5] == 1 || values[5] == 2
    &&& values[0] == 6 ==> cross_type_of_code(values[7]) is Some
}

/// The event that a record holds.
pub open spec fn message_of(values: Seq<u64>) -> Message {
    let body = if values[0] == 0 {
        Body::AddOrder {
            reference: values[2],
            shares: values[3],
            price: values[4],
            side: crate::nyse::data::side_of_code(values[5]),
            mpid_val: values[7],
        }
    } else if values[0] == 1 {
        Body::DeleteOrder { reference: values[2] }
    } else if values[0] == 2 {
        Body::OrderCancelled { reference: values[2], cancelled: values[3] }
    } else if values[0] == 3 {
        Body::ReplaceOrder {
            new_reference: values[2],
            shares: values[3],
            price: values[4],
            old_reference: values[7],
        }
    } else if values[0] == 4 {
        Body::OrderExecuted { reference: values[2], executed: values[3] }
    } else if values[0] == 5 {
        Body::OrderExecutedWithPrice { reference: values[2], executed: values[3] }
    } else if values[0] == 6 {
        Body::CrossTrade { cross_type: cross_type_of_code(values[7])->0 }
    } else {
        Body::NonCrossTrade {  }
    };
    Message { time: values[1], body }
}

/// Whether numbers are a record of an event.
pub fn check_record(values: &[u64]) -> (ok: bool)
    ensures
        ok == is_record(values@),
{
    if values.len() < 2 {
        return false;
    }
    let kind: u64 = values[0];
    if kind > 7 {
        return false;
    }
    let needed: usize = if kind == 0 || kind == 3 || kind == 6 {
        8
    } else if kind == 1 {
        3
    } else if kind == 7 {
        2
    } else {
        4
    };
    if values.len() < needed {
        return false;
    }
    if kind == 0 && !(values[5] == 1 || values[5] == 2) {
        return false;
    }
    if kind == 6 {
        let code: u64 = values[7];
        if !(1 <= code && code <= 5) {
            return false;
        }
    }
    true
}

impl Message {
    /// The event that a record holds.
    pub fn from_record(values: &[u64]) -> (message: Message)
        requires
            is_record(values@),
        ensures
            message == message_of(values@),
    {
        let kind: u64 = values[0];
        let body = if kind == 0 {
            Body::AddOrder {
                reference: values[2],
                shares: values[3],
                price: values[4],
                side: decode_side(values[5]),
                mpid_val: values[7],
            }
        } else if kind == 1 {
            Body::DeleteOrder { reference: values[2] }
        } else if kind == 2 {
            Body::OrderCancelled { reference: values[2], cancelled: values[3] }
        } else if kind == 3 {
            Body::ReplaceOrder {
                new_reference: values[2],
                shares: values[3],
                price: values[4],
                old_reference: values[7],
            }
        } else if kind == 4 {
            Body::OrderExecuted { reference: values[2], executed: values[3] }
        } else if kind == 5 {
            Body::OrderExecutedWithPrice { reference: values[2], executed: values[3] }
        } else if kind == 6 {
            Body::CrossTrade { cross_type: decode_cross_type(values[7]) }
        } else {
            Body::NonCrossTrade {  }
        };
        Self { time: values[1], body }
    }
}

/// The records of one security, with the imbalances of its auctions and
/// its book.
#[derive(Debug)]
pub struct StockContainer {
    pub name: Option<String>,
    pub messages: Vec<Record>,
    /// The imbalances of the auctions, each as eight numbers: paired shares,
    /// imbalance shares, the side, the far, the near and the reference
    /// price, the auction and the price variation.
    pub noii_messages: Vec<[u64; 8]>,
    pub book: NasdaqOrderBook,
}

impl StockContainer {
    pub fn new() -> (container: Self)
        ensures
            container.name is None,
            container.messages@.len() == 0,
            container.noii_messages@.len() == 0,
            fresh(container.book.inner, false),
    {
        Self {
            name: None,
            messages: Vec::new(),
            noii_messages: Vec::new(),
            book: NasdaqOrderBook::new(false),
        }
    }
}

/// Whether a cross trade or a trading action is out of the ordinary: it is
/// reported and brings no record.
pub open spec fn abnormal(body: crate::itchy::Body) -> bool {
    match body {
        crate::itchy::Body::CrossTrade(c) => c.cross_type == CrossType::IpoOrHalted || c.cross_type
            == CrossType::Intraday,
        crate::itchy::Body::BrokenTrade { .. } => true,
        crate::itchy::Body::TradingAction { trading_state } => trading_state != TradingState::Trading,
        _ => false,
    }
}

/// What taking a message of the feed into the records of its security does.
///
/// A new order is remembered, with the number of its firm, or 0 where it
/// names none or one without a number. Every other message about an order
/// makes the last record of the order point to the record that it brings. A
/// replacement forgets the order and remembers the new one in its place. A
/// firm that makes a market gets the next free number, if it has none.
/// Trades change no order; what is out of the ordinary brings no record,
/// and no more do the other messages.
pub open spec fn itch_encoding(
    statuses: Map<u64, OrderStatus>,
    mpids: Map<Seq<char>, u64>,
    mpid_count: nat,
    len: nat,
    msg: crate::itchy::Message,
) -> Result<Encoding, TranslateError> {
    let none = Encoding { rows: Seq::empty(), statuses, mpids, patched: None };
    let time = msg.timestamp;
    match msg.body {
        crate::itchy::Body::AddOrder(a) => {
            let code = match a.mpid {
                Some(m) => if mpids.contains_key(m@) {
                    mpids[m@]
                } else {
                    0
                },
                None => 0,
            };
            let status = OrderStatus {
                price: a.price.spec_inner(),
                side: side_code(a.side),
                shares: a.shares as u64,
                index: len as usize,
                mpid_val: code,
            };
            Ok(
                Encoding {
                    rows: seq![add_row(time, a.reference, status)],
                    statuses: statuses.insert(a.reference, status),
                    ..none
                },
            )
        },
        crate::itchy::Body::DeleteOrder { reference } => match known(statuses, reference, len) {
            Err(e) => Err(e),
            Ok(status) => Ok(
                Encoding {
                    rows: seq![delete_row(time, reference, status)],
                    statuses: statuses.remove(reference),
                    patched: Some(status.index as int),
                    ..none
                },
            ),
        },
        crate::itchy::Body::OrderCancelled { reference, cancelled } => match known(
            statuses,
            reference,
            len,
        ) {
            Err(e) => Err(e),
            Ok(status) => if cancelled > status.shares {
                Err(TranslateError::ExceedsShares)
            } else {
                Ok(
                    Encoding {
                        rows: seq![
                            seq![
                                2u64,
                                time,
                                reference,
                                cancelled as u64,
                                status.price,
                                status.side,
                                status.shares,
                                0u64,
                                0u64,
                            ],
                        ],
                        statuses: statuses.insert(
                            reference,
                            OrderStatus {
                                shares: (status.shares - cancelled) as u64,
                                index: len as usize,
                                ..status
                            },
                        ),
                        patched: Some(status.index as int),
                        ..none
                    },
                )
            },
        },
        crate::itchy::Body::ReplaceOrder(r) => match known(statuses, r.old_reference, len) {
            Err(e) => Err(e),
            Ok(status) => Ok(
                Encoding {
                    rows: seq![
                        seq![
                            3u64,
                            time,
                            r.new_reference,
                            r.shares as u64,
                            r.price.spec_inner(),
                            status.side,
                            status.shares,
                            r.old_reference,
                            0u64,
                        ],
                    ],
                    statuses: statuses.remove(r.old_reference).insert(
                        r.new_reference,
                        OrderStatus {
                            price: r.price.spec_inner(),
                            side: status.side,
                            shares: r.shares as u64,
                            index: len as usize,
                            mpid_val: status.mpid_val,
                        },
                    ),
                    patched: Some(status.index as int),
                    ..none
                },
            ),
        },
        crate::itchy::Body::OrderExecuted { reference, executed, .. } => match known(
            statuses,
            reference,
            len,
        ) {
            Err(e) => Err(e),
            Ok(status) => if executed > status.shares {
                Err(TranslateError::ExceedsShares)
            } else {
                Ok(
                    Encoding {
                        rows: seq![
                            seq![
                                4u64,
                                time,
                                reference,
                                executed as u64,
                                status.price,
                                status.side,
                                status.shares,
                                0u64,
                                0u64,
                            ],
                        ],
                        statuses: statuses.insert(
                            reference,
                            OrderStatus {
                                shares: (status.shares - executed) as u64,
                                index: len as usize,
                                ..status
                            },
                        ),
                        patched: Some(status.index as int),
                        ..none
                    },
                )
            },
        },
        crate::itchy::Body::OrderExecutedWithPrice { reference, executed, printable, price, .. } => match known(
            statuses,
            reference,
            len,
        ) {
            Err(e) => Err(e),
            Ok(status) => if executed > status.shares {
                Err(TranslateError::ExceedsShares)
            } else {
                Ok(
                    Encoding {
                        rows: seq![
                            seq![
                                5u64,
                                time,
                                reference,
                                executed as u64,
                                price.spec_inner(),
                                status.side,
                                status.shares,
                                if printable {
                                    1u64
                                } else {
                                    2u64
                                },
                                0u64,
                            ],
                        ],
                        statuses: statuses.insert(
                            reference,
                            OrderStatus {
                                shares: (status.shares - executed) as u64,
                                index: len as usize,
                                ..status
                            },
                        ),
                        patched: Some(status.index as int),
                        ..none
                    },
                )
            },
        },
        crate::itchy::Body::CrossTrade(c) => if abnormal(msg.body) {
            Ok(none)
        } else {
            Ok(
                Encoding {
                    rows: seq![
                        seq![
                            6u64,
                            time,
                            0u64,
                            c.shares,
                            c.cross_price.spec_inner(),
                            0u64,
                            0u64,
                            cross_type_code(c.cross_type),
                            0u64,
                        ],
                    ],
                    ..none
                },
            )
        },
        crate::itchy::Body::NonCrossTrade(n) => Ok(
            Encoding {
                rows: seq![
                    seq![
                        7u64,
                        time,
                        0u64,
                        n.shares as u64,
                        n.price.spec_inner(),
                        0u64,
                        0u64,
                        0u64,
                        0u64,
                    ],
                ],
                ..none
            },
        ),
        crate::itchy::Body::ParticipantPosition(p) => Ok(
            Encoding {
                mpids: if mpids.contains_key(p.mpid@) {
                    mpids
                } else {
                    mpids.insert(p.mpid@, (mpid_count + 1) as u64)
                },
                ..none
            },
        ),
        crate::itchy::Body::Imbalance(i) => if price_variation_code(i.price_variation_indicator)
            is None {
            Err(TranslateError::BadIndicator)
        } else {
            Ok(none)
        },
        _ => Ok(none),
    }
}

/// The eight numbers that an imbalance is kept as.
pub open spec fn noii_row(i: crate::itchy::ImbalanceIndicator) -> Seq<u64> {
    seq![
        i.paired_shares,
        i.imbalance_shares,
        match i.imbalance_direction {
            ImbalanceDirection::Buy => 1u64,
            ImbalanceDirection::Sell => 2u64,
            ImbalanceDirection::NoImbalance => 3u64,
            ImbalanceDirection::InsufficientOrders => 4u64,
        },
        i.far_price.spec_inner(),
        i.near_price.spec_inner(),
        i.current_ref_price.spec_inner(),
        cross_type_code(i.cross_type),
        price_variation_code(i.price_variation_indicator)->0,
    ]
}

/// What a message brings are records, and every order is still remembered
/// with a side.
pub proof fn lemma_encoding_is_sound(
    statuses: Map<u64, OrderStatus>,
    mpids: Map<Seq<char>, u64>,
    mpid_count: nat,
    len: nat,
    msg: crate::itchy::Message,
)
    requires
        sided(statuses),
        itch_encoding(statuses, mpids, mpid_count, len, msg) is Ok,
    ensures
        sided(itch_encoding(statuses, mpids, mpid_count, len, msg)->Ok_0.statuses),
        forall|i: int|
            0 <= i < itch_encoding(statuses, mpids, mpid_count, len, msg)->Ok_0.rows.len()
                ==> is_record(
                #[trigger] itch_encoding(statuses, mpids, mpid_count, len, msg)->Ok_0.rows[i],
            ),
        itch_encoding(statuses, mpids, mpid_count, len, msg)->Ok_0.rows.len() <= 1,
{
    crate::us::lemma_side_code_round_trip(crate::collections::Side::Ask);
    crate::us::lemma_side_code_round_trip(crate::collections::Side::Bid);
}

/// What a translation remembers: of every order that is in the book, and
/// the numbers of the firms that make markets.
#[derive(Debug)]
pub struct Translator {
    status_map: HashMap<u64, OrderStatus>,
    mpid_map: TextMap,
}

impl Translator {
    /// What is remembered of the orders.
    pub closed spec fn statuses(&self) -> Map<u64, OrderStatus> {
        self.status_map@
    }

    /// The firms and their numbers.
    pub closed spec fn mpids(&self) -> Map<Seq<char>, u64> {
        self.mpid_map@
    }

    /// How many firms have a number.
    pub closed spec fn mpid_count(&self) -> nat {
        self.mpid_map.spec_len()
    }

    /// The firms are kept once each, and every order is remembered with a side.
    pub closed spec fn wf(&self) -> bool {
        &&& self.mpid_map.wf()
        &&& sided(self.status_map@)
    }

    /// Every order is remembered with a side.
    pub proof fn lemma_sided(&self)
        requires
            self.wf(),
        ensures
            sided(self.statuses()),
    {
    }

    /// A translation that knows no order and no firm.
    pub fn new() -> (translator: Self)
        ensures
            translator.wf(),
            translator.statuses() == Map::<u64, OrderStatus>::empty(),
            translator.mpids() == Map::<Seq<char>, u64>::empty(),
            translator.mpid_count() == 0,
    {
        Self { status_map: HashMap::new(), mpid_map: TextMap::new() }
    }

    /// What is remembered of an order.
    pub fn status(&self, id: u64) -> (status: Option<OrderStatus>)
        ensures
            status == if self.statuses().contains_key(id) {
                Some(self.statuses()[id])
            } else {
                None
            },
    {
        broadcast use vstd::std_specs::hash::group_hash_axioms;

        match self.status_map.get(&id) {
            Some(status) => Some(*status),
            None => None,
        }
    }

    /// The firms and their numbers: every firm once, with its number.
    pub fn mpid_entries(&self) -> (entries: Vec<(String, u64)>)
        requires
            self.wf(),
        ensures
            entries@.len() == self.mpid_count(),
            forall|i: int|
                0 <= i < entries@.len() ==> self.mpids().contains_key((#[trigger] entries@[i]).0@)
                    && self.mpids()[entries@[i].0@] == entries@[i].1,
            forall|name: Seq<char>|
                self.mpids().contains_key(name) ==> exists|i: int|
                    0 <= i < entries@.len() && (#[trigger] entries@[i]).0@ == name,
            forall|i: int, j: int|
                0 <= i < j < entries@.len() ==> entries@[i].0@ != entries@[j].0@,
    {
        proof {
            self.mpid_map.lemma_entries();
        }
        let entries = self.mpid_map.to_entries();
        proof {
            let listed = self.mpid_map.entries();
            assert forall|i: int| 0 <= i < entries@.len() implies self.mpids().contains_key(
                (#[trigger] entries@[i]).0@,
            ) && self.mpids()[entries@[i].0@] == entries@[i].1 by {
                assert(listed[i].0 == entries@[i].0@);
            }
            assert forall|name: Seq<char>| self.mpids().contains_key(name) implies exists|i: int|
                0 <= i < entries@.len() && (#[trigger] entries@[i]).0@ == name by {
                let k = choose|k: int| 0 <= k < listed.len() && (#[trigger] listed[k]).0 == name;
                assert(entries@[k].0@ == name);
            }
            assert forall|i: int, j: int| 0 <= i < j < entries@.len() implies entries@[i].0@
                != entries@[j].0@ by {
                assert(listed[i].0 == entries@[i].0@);
                assert(listed[j].0 == entries@[j].0@);
            }
        }
        entries
    }

    fn known(&self, id: u64, len: usize) -> (status: Result<OrderStatus, TranslateError>)
        ensures
            status == known(self.statuses(), id, len as nat),
    {
        broadcast use vstd::std_specs::hash::group_hash_axioms;

        match self.status_map.get(&id) {
            None => Err(TranslateError::OrderNotFound),
            Some(status) => {
                if status.index >= len {
                    Err(TranslateError::BadIndex)
                } else {
                    Ok(*status)
                }
            },
        }
    }

    fn patch(messages: &mut Vec<Record>, at: usize)
        requires
            at < old(messages)@.len(),
        ensures
            rows(final(messages)@) == patched_rows(
                rows(old(messages)@),
                Some(at as int),
                old(messages)@.len() as u64,
            ),
            final(messages)@.len() == old(messages)@.len(),
    {
        let next: u64 = messages.len() as u64;
        let mut row: Record = messages[at];
        row[8] = next;
        messages[at] = row;
        proof {
            assert(rows(messages@) =~= patched_rows(rows(old(messages)@), Some(at as int), next));
        }
    }

    /// Takes a message of the feed into the records of its security: what
    /// is remembered of the orders changes, the last record of the order that
    /// the message is about points to the new record, and the new record
    /// comes back, if the message brings one. It is not yet among the records.
    ///
    /// A message that is refused changes nothing.
    pub fn encode(&mut self, messages: &mut Vec<Record>, message: &crate::itchy::Message) -> (result:
        Result<Option<Record>, TranslateError>)
        requires
            old(self).wf(),
        ensures
            final(self).wf(),
            match itch_encoding(
                old(self).statuses(),
                old(self).mpids(),
                old(self).mpid_count(),
                old(messages)@.len(),
                *message,
            ) {
                Err(e) => result == Err::<Option<Record>, TranslateError>(e) && *final(self) == *old(
                    self,
                ) && *final(messages) == *old(messages),
                Ok(encoding) => {
                    &&& result matches Ok(brought)
                    &&& match brought {
                        Some(row) => encoding.rows == seq![row@],
                        None => encoding.rows.len() == 0,
                    }
                    &&& final(self).statuses() == encoding.statuses
                    &&& final(self).mpids() == encoding.mpids
                    &&& rows(final(messages)@) == patched_rows(
                        rows(old(messages)@),
                        encoding.patched,
                        old(messages)@.len() as u64,
                    )
                },
            },
    {
        broadcast use vstd::std_specs::hash::group_hash_axioms;

        proof {
            if itch_encoding(
                self.statuses(),
                self.mpids(),
                self.mpid_count(),
                messages@.len(),
                *message,
            ) is Ok {
                lemma_encoding_is_sound(
                    self.statuses(),
                    self.mpids(),
                    self.mpid_count(),
                    messages@.len(),
                    *message,
                );
            }
        }
        let len: usize = messages.len();
        let time: u64 = message.timestamp;
        match &message.body {
            crate::itchy::Body::AddOrder(a) => {
                let mpid_val: u64 = match &a.mpid {
                    Some(m) => match self.mpid_map.get(m) {
                        Some(code) => code,
                        None => 0,
                    },
                    None => 0,
                };
                let status = OrderStatus::new(a.price, a.side, a.shares, len, mpid_val);
                self.status_map.insert(a.reference, status);
                Ok(
                    Some(
                        record(
                            0,
                            time,
                            a.reference,
                            status.shares,
                            status.price,
                            status.side,
                            0,
                            mpid_val,
                        ),
                    ),
                )
            },
            crate::itchy::Body::DeleteOrder { reference } => {
                let status = match self.known(*reference, len) {
                    Ok(status) => status,
                    Err(e) => {
                        return Err(e);
                    },
                };
                Self::patch(messages, status.index);
                let _ = self.status_map.remove(reference);
                Ok(
                    Some(
                        record(
                            1,
                            time,
                            *reference,
                            status.shares,
                            status.price,
                            status.side,
                            status.shares,
                            0,
                        ),
                    ),
                )
            },
            crate::itchy::Body::OrderCancelled { reference, cancelled } => {
                let status = match self.known(*reference, len) {
                    Ok(status) => status,
                    Err(e) => {
                        return Err(e);
                    },
                };
                let cancelled: u64 = *cancelled as u64;
                if cancelled > status.shares {
                    return Err(TranslateError::ExceedsShares);
                }
                Self::patch(messages, status.index);
                self.status_map.insert(
                    *reference,
                    OrderStatus { shares: status.shares - cancelled, index: len, ..status },
                );
                Ok(
                    Some(
                        record(
                            2,
                            time,
                            *reference,
                            cancelled,
                            status.price,
                            status.side,
                            status.shares,
                            0,
                        ),
                    ),
                )
            },
            crate::itchy::Body::ReplaceOrder(r) => {
                let status = match self.known(r.old_reference, len) {
                    Ok(status) => status,
                    Err(e) => {
                        return Err(e);
                    },
                };
                Self::patch(messages, status.index);
                let _ = self.status_map.remove(&r.old_reference);
                let anew = OrderStatus {
                    price: r.price.inner(),
                    side: status.side,
                    shares: r.shares as u64,
                    index: len,
                    mpid_val: status.mpid_val,
                };
                self.status_map.insert(r.new_reference, anew);
                Ok(
                    Some(
                        record(
                            3,
                            time,
                            r.new_reference,
                            anew.shares,
                            anew.price,
                            anew.side,
                            status.shares,
                            r.old_reference,
                        ),
                    ),
                )
            },
            crate::itchy::Body::OrderExecuted { reference, executed, .. } => {
                let status = match self.known(*reference, len) {
                    Ok(status) => status,
                    Err(e) => {
                        return Err(e);
                    },
                };
                let executed: u64 = *executed as u64;
                if executed > status.shares {
                    return Err(TranslateError::ExceedsShares);
                }
                Self::patch(messages, status.index);
                self.status_map.insert(
                    *reference,
                    OrderStatus { shares: status.shares - executed, index: len, ..status },
                );
                Ok(
                    Some(
                        record(
                            4,
                            time,
                            *reference,
                            executed,
                            status.price,
                            status.side,
                            status.shares,
                            0,
                        ),
                    ),
                )
            },
            crate::itchy::Body::OrderExecutedWithPrice { reference, executed, printable, price, .. } => {
                let status = match self.known(*reference, len) {
                    Ok(status) => status,
                    Err(e) => {
                        return Err(e);
                    },
                };
                let executed: u64 = *executed as u64;
                if executed > status.shares {
                    return Err(TranslateError::ExceedsShares);
                }
                Self::patch(messages, status.index);
                self.status_map.insert(
                    *reference,
                    OrderStatus { shares: status.shares - executed, index: len, ..status },
                );
                Ok(
                    Some(
                        record(
                            5,
                            time,
                            *reference,
                            executed,
                            price.inner(),
                            status.side,
                            status.shares,
                            encode_printable(*printable),
                        ),
                    ),
                )
            },
            crate::itchy::Body::CrossTrade(c) => {
                match c.cross_type {
                    CrossType::IpoOrHalted => Ok(None),
                    CrossType::Intraday => Ok(None),
                    _ => Ok(
                        Some(
                            record(
                                6,
                                time,
                                0,
                                c.shares,
                                c.cross_price.inner(),
                                0,
                                0,
                                encode_cross_type(c.cross_type),
                            ),
                        ),
                    ),
                }
            },
            crate::itchy::Body::NonCrossTrade(n) => Ok(
                Some(record(7, time, 0, n.shares as u64, n.price.inner(), 0, 0, 0)),
            ),
            crate::itchy::Body::ParticipantPosition(p) => {
                if self.mpid_map.get(&p.mpid).is_none() {
                    self.mpid_map.insert(p.mpid.clone(), 0);
                    let code: u64 = self.mpid_map.len() as u64;
                    self.mpid_map.insert(p.mpid.clone(), code);
                    proof {
                        assert(self.mpids() =~= old(self).mpids().insert(p.mpid@, code));
                    }
                }
                Ok(None)
            },
            crate::itchy::Body::Imbalance(i) => {
                if !known_indicator(i.price_variation_indicator) {
                    Err(TranslateError::BadIndicator)
                } else {
                    Ok(None)
                }
            },
            _ => Ok(None),
        }
    }

    /// Takes a message of the feed into the records of its security and lets
    /// the event that it brings change the book of the security. The name of
    /// a security is kept when the feed tells it, and the imbalance of an
    /// auction is kept with the imbalances.
    ///
    /// Returns whether the message has brought a record. A message that is
    /// refused before it brings a record changes nothing.
    pub fn translate(&mut self, container: &mut StockContainer, message: &crate::itchy::Message) -> (result:
        Result<bool, TranslateError>)
        requires
            old(self).wf(),
            old(container).book.inner.wf(),
        ensures
            final(self).wf(),
            final(container).book.inner.wf(),
            match itch_encoding(
                old(self).statuses(),
                old(self).mpids(),
                old(self).mpid_count(),
                old(container).messages@.len(),
                *message,
            ) {
                Err(e) => result == Err::<bool, TranslateError>(e) && *final(self) == *old(self)
                    && *final(container) == *old(container),
                Ok(encoding) => {
                    &&& final(self).statuses() == encoding.statuses
                    &&& final(self).mpids() == encoding.mpids
                    &&& match result {
                        Ok(brought) => {
                            &&& brought == (encoding.rows.len() == 1)
                            &&& rows(final(container).messages@) == patched_rows(
                                rows(old(container).messages@),
                                encoding.patched,
                                old(container).messages@.len() as u64,
                            ) + encoding.rows
                            &&& if brought {
                                accepted(
                                    old(container).book.inner,
                                    final(container).book.inner,
                                    event_of(message_of(encoding.rows[0])),
                                )
                            } else {
                                final(container).book == old(container).book
                            }
                        },
                        Err(e) => {
                            &&& e matches TranslateError::Book(reason) && encoding.rows.len() == 1
                                && refused(
                                old(container).book.inner,
                                final(container).book.inner,
                                event_of(message_of(encoding.rows[0])),
                                reason,
                            )
                            &&& rows(final(container).messages@) == patched_rows(
                                rows(old(container).messages@),
                                encoding.patched,
                                old(container).messages@.len() as u64,
                            )
                        },
                    }
                    &&& final(container).name == match message.body {
                        crate::itchy::Body::StockDirectory(d) => Some(d.stock),
                        _ => old(container).name,
                    }
                    &&& noii_rows(final(container).noii_messages@) == match message.body {
                        crate::itchy::Body::Imbalance(i) => noii_rows(
                            old(container).noii_messages@,
                        ).push(noii_row(i)),
                        _ => noii_rows(old(container).noii_messages@),
                    }
                },
            },
    {
        proof {
            self.lemma_sided();
            if itch_encoding(
                self.statuses(),
                self.mpids(),
                self.mpid_count(),
                container.messages@.len(),
                *message,
            ) is Ok {
                lemma_encoding_is_sound(
                    self.statuses(),
                    self.mpids(),
                    self.mpid_count(),
                    container.messages@.len(),
                    *message,
                );
            }
        }
        let brought = match self.encode(&mut container.messages, message) {
            Ok(brought) => brought,
            Err(e) => {
                return Err(e);
            },
        };
        match &message.body {
            crate::itchy::Body::StockDirectory(d) => {
                container.name = Some(d.stock.clone());
            },
            crate::itchy::Body::Imbalance(i) => {
                let row: [u64; 8] = [
                    i.paired_shares,
                    i.imbalance_shares,
                    encode_imbalance_direction(i.imbalance_direction),
                    i.far_price.inner(),
                    i.near_price.inner(),
                    i.current_ref_price.inner(),
                    encode_cross_type(i.cross_type),
                    encode_price_variation_indicator(i.price_variation_indicator),
                ];
                let ghost before = container.noii_messages@;
                container.noii_messages.push(row);
                proof {
                    assert(row@ =~= noii_row(*i));
                    assert(noii_rows(container.noii_messages@) =~= noii_rows(before).push(
                        noii_row(*i),
                    ));
                }
            },
            _ => {},
        }
        match brought {
            None => {
                proof {
                    assert(rows(container.messages@) + Seq::<Seq<u64>>::empty() =~= rows(
                        container.messages@,
                    ));
                }
                Ok(false)
            },
            Some(row) => {
                let event = Message::from_record(row.as_slice());
                let ghost patched = container.messages@;
                match container.book.handle(&event) {
                    Ok(_) => {
                        container.messages.push(row);
                        proof {
                            assert(rows(container.messages@) =~= rows(patched) + seq![row@]);
                        }
                        Ok(true)
                    },
                    Err(e) => Err(TranslateError::Book(e)),
                }
            },
        }
    }
}

/// The imbalances as plain values.
pub open spec fn noii_rows(rows: Seq<[u64; 8]>) -> Seq<Seq<u64>> {
    rows.map_values(|r: [u64; 8]| r@)
}

/// Whether a price variation indicator stands for anything.
pub fn known_indicator(ind: char) -> (known: bool)
    ensures
        known == price_variation_code(ind) is Some,
{
    ind == 'L' || ('1' <= ind && ind <= '9') || ind == 'A' || ind == 'B' || ind == 'C' || ind == ' '
}

} // verus!
