//! What is counted of a trading day, interval by interval.
use vstd::prelude::*;
use crate::collections::side_book::{first_of, price_list};
use crate::collections::Side;
use crate::itchy::{Body, CrossType, Message};
use crate::nasdaq::book::NasdaqOrderBook;
use crate::nasdaq::constants::{P_N, REG_START_TIME_NS, R_N, START_TIME_NS, T_N};
use crate::nasdaq::data::{StockContainer, Translator};
use crate::nyse::book::priced;
use crate::nyse::stat::{bin_of, in_day, interval, product, sum, StatError};

verus! {

/// The row of a book with five prices on each side: the time, the bids
/// from the fifth to the first, each as price and volume with the volume
/// taken from nothing, and the asks from the first to the fifth, each as
/// price and volume.
pub type Row = [i64; 21];

/// The statistics of one security over a trading day.
#[derive(Debug)]
pub struct MarketStat {
    pub total_volume: u64,
    pub pre_market_volume: u64,
    pub regular_market_volume: u64,
    pub post_market_volume: u64,
    /// How many records the security had when the opening auction traded.
    pub regular_market_start: Option<usize>,
    /// How many records the security had when the closing auction traded.
    pub post_market_start: Option<usize>,
    /// The symbol, once the feed has named it.
    pub stock_directory: Option<String>,
    pub opening_cross_price: u64,
    pub opening_cross_volume: u64,
    pub closing_cross_price: u64,
    pub closing_cross_volume: u64,
    pub interval_volume: Vec<u64>,
    pub interval_price_volume: Vec<u64>,
    pub interval_high: Vec<u64>,
    pub interval_low: Vec<u64>,
    pub interval_price: Vec<u64>,
    pub interval_execute_msg_count: Vec<u64>,
    pub lob_level: Vec<Row>,
    pub lob_max_shares: u64,
    pub lob_max_spread: Option<u64>,
    pub lob_regmkt_max_spread: Option<u64>,
}

/// Statistics as plain values.
pub struct StatView {
    pub total_volume: u64,
    pub pre_market_volume: u64,
    pub regular_market_volume: u64,
    pub post_market_volume: u64,
    pub regular_market_start: Option<usize>,
    pub post_market_start: Option<usize>,
    pub stock_directory: Option<Seq<char>>,
    pub opening_cross_price: u64,
    pub opening_cross_volume: u64,
    pub closing_cross_price: u64,
    pub closing_cross_volume: u64,
    pub interval_volume: Seq<u64>,
    pub interval_price_volume: Seq<u64>,
    pub interval_high: Seq<u64>,
    pub interval_low: Seq<u64>,
    pub interval_price: Seq<u64>,
    pub interval_execute_msg_count: Seq<u64>,
    pub lob_level: Seq<Seq<i64>>,
    pub lob_max_shares: u64,
    pub lob_max_spread: Option<u64>,
    pub lob_regmkt_max_spread: Option<u64>,
}

/// The rows as plain values.
pub open spec fn rows_of(rows: Seq<Row>) -> Seq<Seq<i64>> {
    rows.map_values(|r: Row| r@)
}

impl View for MarketStat {
    type V = StatView;

    open spec fn view(&self) -> StatView {
        StatView {
            total_volume: self.total_volume,
            pre_market_volume: self.pre_market_volume,
            regular_market_volume: self.regular_market_volume,
            post_market_volume: self.post_market_volume,
            regular_market_start: self.regular_market_start,
            post_market_start: self.post_market_start,
            stock_directory: match self.stock_directory {
                Some(name) => Some(name@),
                None => None,
            },
            opening_cross_price: self.opening_cross_price,
            opening_cross_volume: self.opening_cross_volume,
            closing_cross_price: self.closing_cross_price,
            closing_cross_volume: self.closing_cross_volume,
            interval_volume: self.interval_volume@,
            interval_price_volume: self.interval_price_volume@,
            interval_high: self.interval_high@,
            interval_low: self.interval_low@,
            interval_price: self.interval_price@,
            interval_execute_msg_count: self.interval_execute_msg_count@,
            lob_level: rows_of(self.lob_level@),
            lob_max_shares: self.lob_max_shares,
            lob_max_spread: self.lob_max_spread,
            lob_regmkt_max_spread: self.lob_regmkt_max_spread,
        }
    }
}

impl StatView {
    /// Every count has a place for every interval of the day.
    pub open spec fn wf(self) -> bool {
        &&& self.interval_volume.len() == T_N
        &&& self.interval_price_volume.len() == T_N
        &&& self.interval_high.len() == T_N
        &&& self.interval_low.len() == T_N
        &&& self.interval_price.len() == T_N
        &&& self.interval_execute_msg_count.len() == T_N
        &&& self.lob_level.len() == T_N
    }

    /// The statistics of a day on which nothing has happened yet: no
    /// volume, no price, and a lowest price above every price.
    pub open spec fn empty() -> Self {
        StatView {
            total_volume: 0,
            pre_market_volume: 0,
            regular_market_volume: 0,
            post_market_volume: 0,
            regular_market_start: None,
            post_market_start: None,
            stock_directory: None,
            opening_cross_price: 0,
            opening_cross_volume: 0,
            closing_cross_price: 0,
            closing_cross_volume: 0,
            interval_volume: Seq::new(T_N as nat, |i: int| 0u64),
            interval_price_volume: Seq::new(T_N as nat, |i: int| 0u64),
            interval_high: Seq::new(T_N as nat, |i: int| 0u64),
            interval_low: Seq::new(T_N as nat, |i: int| u64::MAX),
            interval_price: Seq::new(T_N as nat, |i: int| 0u64),
            interval_execute_msg_count: Seq::new(T_N as nat, |i: int| 0u64),
            lob_level: Seq::new(T_N as nat, |i: int| Seq::new(21, |k: int| 0i64)),
            lob_max_shares: 0,
            lob_max_spread: None,
            lob_regmkt_max_spread: None,
        }
    }
}

/// So many times a number.
fn repeated(value: u64, count: usize) -> (v: Vec<u64>)
    ensures
        v@ == Seq::new(count as nat, |i: int| value),
{
    let v = vec![value; count];
    proof {
        assert(v@ =~= Seq::new(count as nat, |i: int| value));
    }
    v
}

impl MarketStat {
    /// The statistics of a day on which nothing has happened yet.
    pub fn new() -> (stat: Self)
        ensures
            stat@ == StatView::empty(),
            stat@.wf(),
    {
        let mut rows: Vec<Row> = Vec::new();
        let mut i: usize = 0;
        while i < T_N
            invariant
                i <= T_N,
                rows@.len() == i,
                forall|k: int| 0 <= k < i ==> (#[trigger] rows@[k])@ == Seq::new(21, |k: int| 0i64),
            decreases T_N - i,
        {
            let row: Row = [0i64; 21];
            proof {
                assert(row@ =~= Seq::new(21, |k: int| 0i64));
            }
            rows.push(row);
            i += 1;
        }
        let stat = Self {
            total_volume: 0,
            pre_market_volume: 0,
            regular_market_volume: 0,
            post_market_volume: 0,
            regular_market_start: None,
            post_market_start: None,
            stock_directory: None,
            opening_cross_price: 0,
            opening_cross_volume: 0,
            closing_cross_price: 0,
            closing_cross_volume: 0,
            interval_volume: repeated(0, T_N),
            interval_price_volume: repeated(0, T_N),
            interval_high: repeated(0, T_N),
            interval_low: repeated(u64::MAX, T_N),
            interval_price: repeated(0, T_N),
            interval_execute_msg_count: repeated(0, T_N),
            lob_level: rows,
            lob_max_shares: 0,
            lob_max_spread: None,
            lob_regmkt_max_spread: None,
        };
        proof {
            assert(rows_of(stat.lob_level@) =~= Seq::new(
                T_N as nat,
                |i: int| Seq::new(21, |k: int| 0i64),
            ));
        }
        stat
    }
}

/// Values of which the one at `last`, if there is a last, is held on to in
/// the places behind it and before `bin`.
pub open spec fn held<T>(values: Seq<T>, last: Option<usize>, bin: int) -> Seq<T> {
    Seq::new(
        values.len(),
        |i: int|
            match last {
                Some(l) => if l < i < bin {
                    values[l as int]
                } else {
                    values[i]
                },
                None => values[i],
            },
    )
}

/// Holds on to the number at `last` in the places behind it and before `bin`.
fn hold(values: &mut Vec<u64>, last: Option<usize>, bin: usize)
    requires
        bin <= old(values)@.len(),
        last matches Some(l) ==> l < old(values)@.len(),
    ensures
        final(values)@ == held(old(values)@, last, bin as int),
{
    match last {
        None => {
            proof {
                assert(values@ =~= held(old(values)@, last, bin as int));
            }
        },
        Some(l) => {
            let len: usize = values.len();
            let keep: u64 = values[l];
            let mut i: usize = l + 1;
            proof {
                assert(values@ =~= held(old(values)@, last, (l + 1) as int));
            }
            while i < bin
                invariant
                    l < i,
                    bin <= values@.len(),
                    values@.len() == old(values)@.len(),
                    last == Some(l),
                    keep == old(values)@[l as int],
                    values@ == held(
                        old(values)@,
                        last,
                        if i <= bin {
                            i as int
                        } else {
                            bin as int
                        },
                    ),
                decreases bin - i,
            {
                values.set(i, keep);
                proof {
                    assert(values@ =~= held(old(values)@, last, i + 1));
                }
                i += 1;
            }
            proof {
                assert(values@ =~= held(old(values)@, last, bin as int));
            }
        },
    }
}

/// Holds on to the row at `last` in the places behind it and before `bin`.
fn hold_rows(rows: &mut Vec<Row>, last: Option<usize>, bin: usize)
    requires
        bin <= old(rows)@.len(),
        last matches Some(l) ==> l < old(rows)@.len(),
    ensures
        final(rows)@.len() == old(rows)@.len(),
        rows_of(final(rows)@) == held(rows_of(old(rows)@), last, bin as int),
{
    match last {
        None => {
            proof {
                assert(rows_of(rows@) =~= held(rows_of(old(rows)@), last, bin as int));
            }
        },
        Some(l) => {
            let len: usize = rows.len();
            let keep: Row = rows[l];
            let mut i: usize = l + 1;
            proof {
                assert(rows_of(rows@) =~= held(rows_of(old(rows)@), last, (l + 1) as int));
            }
            while i < bin
                invariant
                    l < i,
                    bin <= rows@.len(),
                    rows@.len() == old(rows)@.len(),
                    last == Some(l),
                    keep == old(rows)@[l as int],
                    rows_of(rows@) == held(
                        rows_of(old(rows)@),
                        last,
                        if i <= bin {
                            i as int
                        } else {
                            bin as int
                        },
                    ),
                decreases bin - i,
            {
                let ghost before = rows@;
                rows.set(i, keep);
                proof {
                    assert forall|k: int| 0 <= k < rows@.len() implies rows_of(rows@)[k] == held(
                        rows_of(old(rows)@),
                        last,
                        i + 1,
                    )[k] by {
                        if k != i {
                            assert(rows@[k] == before[k]);
                            assert(rows_of(before)[k] == before[k]@);
                        }
                    }
                    assert(rows_of(rows@) =~= held(rows_of(old(rows)@), last, i + 1));
                }
                i += 1;
            }
            proof {
                assert(rows_of(rows@) =~= held(rows_of(old(rows)@), last, bin as int));
            }
        },
    }
}

/// What builds the statistics of one security while the messages of the
/// day come in.
#[derive(Debug)]
pub struct StatBuilder {
    partial_stat: MarketStat,
    last_execution_ns: u64,
    last_lob_interval_ind: Option<usize>,
    last_high_interval_ind: Option<usize>,
    last_low_interval_ind: Option<usize>,
    last_price_interval_ind: Option<usize>,
}

/// A builder of statistics as plain values.
pub struct BuilderView {
    pub stat: StatView,
    /// The time of the last execution that was counted.
    pub last_execution_ns: u64,
    /// The interval of the last row of the book.
    pub last_lob: Option<usize>,
    /// The interval of the last highest price.
    pub last_high: Option<usize>,
    /// The interval of the last lowest price.
    pub last_low: Option<usize>,
    /// The interval from which the last price is held on to: none, ever.
    pub last_price: Option<usize>,
}

impl View for StatBuilder {
    type V = BuilderView;

    closed spec fn view(&self) -> BuilderView {
        BuilderView {
            stat: self.partial_stat@,
            last_execution_ns: self.last_execution_ns,
            last_lob: self.last_lob_interval_ind,
            last_high: self.last_high_interval_ind,
            last_low: self.last_low_interval_ind,
            last_price: self.last_price_interval_ind,
        }
    }
}

/// The larger of two numbers.
pub open spec fn more(a: u64, b: u64) -> u64 {
    if a < b {
        b
    } else {
        a
    }
}

/// The smaller of two numbers.
pub open spec fn less(a: u64, b: u64) -> u64 {
    if b < a {
        b
    } else {
        a
    }
}

/// The largest so far and a new number, whichever is larger.
pub open spec fn widest(so_far: Option<u64>, new: u64) -> Option<u64> {
    match so_far {
        None => Some(new),
        Some(old) => Some(more(old, new)),
    }
}

/// The largest volume among the first `upto` of prices with their volumes,
/// and no less than `floor`.
pub open spec fn largest(pairs: Seq<(u64, u64)>, upto: int, floor: u64) -> u64
    decreases upto,
{
    if upto <= 0 {
        floor
    } else {
        more(largest(pairs, upto - 1, floor), pairs[upto - 1].1)
    }
}

/// Whether every price and every volume is a number that a row can hold.
pub open spec fn fits_row(pairs: Seq<(u64, u64)>) -> bool {
    forall|i: int|
        0 <= i < pairs.len() ==> (#[trigger] pairs[i]).0 <= i64::MAX && pairs[i].1 <= i64::MAX
}

/// The row of a book: the time; the bids from the last to the first, each
/// as price and volume, the volume taken from nothing; and the asks from
/// the first to the last, each as price and volume. A side with fewer than
/// five prices is filled up with zeros, at the outer end of the row.
pub open spec fn row_of(timestamp: u64, asks: Seq<(u64, u64)>, bids: Seq<(u64, u64)>) -> Seq<i64> {
    Seq::new(
        21,
        |i: int|
            if i == 0 {
                timestamp as i64
            } else if i <= 10 {
                let k = (10 - i) / 2;
                if k >= bids.len() {
                    0i64
                } else if (10 - i) % 2 == 0 {
                    (-bids[k].1) as i64
                } else {
                    bids[k].0 as i64
                }
            } else {
                let k = (i - 11) / 2;
                if k >= asks.len() {
                    0i64
                } else if (i - 11) % 2 == 0 {
                    asks[k].0 as i64
                } else {
                    asks[k].1 as i64
                }
            },
    )
}

impl BuilderView {
    /// Every count has a place for every interval of the day, and what
    /// came last lies in the day.
    pub open spec fn wf(self) -> bool {
        &&& self.stat.wf()
        &&& self.last_lob matches Some(l) ==> l < T_N
        &&& self.last_high matches Some(l) ==> l < T_N
        &&& self.last_low matches Some(l) ==> l < T_N
        &&& self.last_price matches Some(l) ==> l < T_N
    }

    /// The interval in which an execution of an interval is counted: the
    /// last before the regular session as long as the opening auction has
    /// not traded, and the last of the regular session as long as the
    /// closing auction has not, where the interval lies behind them.
    pub open spec fn counted_in(self, bin: int) -> int {
        if self.stat.regular_market_start is None && bin >= R_N {
            R_N - 1
        } else if self.stat.post_market_start is None && bin >= P_N {
            P_N - 1
        } else {
            bin
        }
    }

    /// The builder after a price has been put into an interval: it is the
    /// price of the interval, and its highest and lowest where it is higher
    /// or lower. The highest and the lowest price of the last interval that
    /// had any are held on to in the intervals between.
    pub open spec fn with_price(self, bin: int, price: u64) -> Self {
        let s = self.stat;
        BuilderView {
            stat: StatView {
                interval_price: held(s.interval_price.update(bin, price), self.last_price, bin),
                interval_high: held(
                    s.interval_high.update(bin, more(s.interval_high[bin], price)),
                    self.last_high,
                    bin,
                ),
                interval_low: held(
                    s.interval_low.update(bin, less(s.interval_low[bin], price)),
                    self.last_low,
                    bin,
                ),
                ..s
            },
            last_high: Some(bin as usize),
            last_low: Some(bin as usize),
            ..self
        }
    }

    /// Why an execution cannot be counted, if it cannot.
    pub open spec fn execute_fault(
        self,
        executed: u64,
        price: u64,
        timestamp: u64,
        known: bool,
        printable: bool,
    ) -> Option<StatError> {
        let bin = bin_of(timestamp);
        let at = self.counted_in(bin);
        let s = self.stat;
        if !in_day(timestamp) {
            Some(StatError::OutOfDay)
        } else if !known {
            Some(StatError::OrderNotFound)
        } else if s.total_volume + executed > u64::MAX || s.post_market_volume + executed > u64::MAX
            || (timestamp != self.last_execution_ns && printable && s.interval_execute_msg_count[bin]
            + 1 > u64::MAX) || (printable && (s.interval_volume[at] + executed > u64::MAX
            || s.interval_price_volume[at] + executed * price > u64::MAX)) {
            Some(StatError::Overflow)
        } else {
            None
        }
    }

    /// The builder after an execution has been counted: in the volume of
    /// the day and of the session, and, where it is to be printed, as a
    /// message of its interval, one for all at the same time, and in the
    /// volume, the turnover and the prices of the interval in which it is
    /// counted.
    pub open spec fn executed(self, executed: u64, price: u64, timestamp: u64, printable: bool) -> Self {
        let bin = bin_of(timestamp);
        let at = self.counted_in(bin);
        let s = self.stat;
        let counted = BuilderView {
            stat: StatView {
                total_volume: (s.total_volume + executed) as u64,
                post_market_volume: (s.post_market_volume + executed) as u64,
                interval_execute_msg_count: if timestamp != self.last_execution_ns && printable {
                    s.interval_execute_msg_count.update(
                        bin,
                        (s.interval_execute_msg_count[bin] + 1) as u64,
                    )
                } else {
                    s.interval_execute_msg_count
                },
                interval_volume: if printable {
                    s.interval_volume.update(at, (s.interval_volume[at] + executed) as u64)
                } else {
                    s.interval_volume
                },
                interval_price_volume: if printable {
                    s.interval_price_volume.update(
                        at,
                        (s.interval_price_volume[at] + executed * price) as u64,
                    )
                } else {
                    s.interval_price_volume
                },
                ..s
            },
            last_execution_ns: timestamp,
            ..self
        };
        if printable {
            counted.with_price(at, price)
        } else {
            counted
        }
    }

    /// Why a message cannot be counted, if it cannot: `known` is what is
    /// remembered of the order of an execution, where the order is known.
    pub open spec fn update_fault(self, message: Message, known: Option<u64>) -> Option<StatError> {
        match message.body {
            Body::OrderExecuted { executed, .. } => self.execute_fault(
                executed as u64,
                known->0,
                message.timestamp,
                known is Some,
                true,
            ),
            Body::OrderExecutedWithPrice { executed, printable, price, .. } => self.execute_fault(
                executed as u64,
                price.spec_inner(),
                message.timestamp,
                known is Some,
                printable,
            ),
            Body::CrossTrade(x) => if self.stat.total_volume + x.shares > u64::MAX {
                Some(StatError::Overflow)
            } else if x.cross_type == CrossType::Opening && message.timestamp < REG_START_TIME_NS {
                Some(StatError::EarlyOpening)
            } else {
                None
            },
            Body::NonCrossTrade(_) => if message.timestamp < START_TIME_NS {
                Some(StatError::OutOfDay)
            } else {
                None
            },
            _ => None,
        }
    }

    /// The builder after a message has been counted: an execution, the
    /// trade of an auction, or the symbol of the security. No other message
    /// counts. With the trade of the opening auction the volume of the
    /// session so far becomes that of the early session, and with the trade
    /// of the closing auction that of the regular session. `records` is the
    /// number of records that the security has.
    pub open spec fn updated(self, message: Message, known: Option<u64>, records: usize) -> Self {
        let s = self.stat;
        match message.body {
            Body::OrderExecuted { executed, .. } => self.executed(
                executed as u64,
                known->0,
                message.timestamp,
                true,
            ),
            Body::OrderExecutedWithPrice { executed, printable, price, .. } => self.executed(
                executed as u64,
                price.spec_inner(),
                message.timestamp,
                printable,
            ),
            Body::CrossTrade(x) => {
                let total = (s.total_volume + x.shares) as u64;
                BuilderView {
                    stat: match x.cross_type {
                        CrossType::Opening => StatView {
                            total_volume: total,
                            opening_cross_price: x.cross_price.spec_inner(),
                            opening_cross_volume: x.shares,
                            pre_market_volume: s.post_market_volume,
                            post_market_volume: 0,
                            regular_market_start: Some(records),
                            ..s
                        },
                        CrossType::Closing => StatView {
                            total_volume: total,
                            closing_cross_price: x.cross_price.spec_inner(),
                            closing_cross_volume: x.shares,
                            regular_market_volume: s.post_market_volume,
                            post_market_volume: 0,
                            post_market_start: Some(records),
                            ..s
                        },
                        _ => StatView { total_volume: total, ..s },
                    },
                    ..self
                }
            },
            Body::StockDirectory(d) => BuilderView {
                stat: StatView { stock_directory: Some(d.stock@), ..s },
                ..self
            },
            _ => self,
        }
    }

    /// Why a book cannot be put into its row, if it cannot.
    pub open spec fn lob_fault(
        self,
        asks: Seq<(u64, u64)>,
        bids: Seq<(u64, u64)>,
        timestamp: u64,
        level: usize,
    ) -> Option<StatError> {
        if !in_day(timestamp) {
            Some(StatError::OutOfDay)
        } else if level != 5 || asks.len() > 5 || bids.len() > 5 {
            Some(StatError::Depth)
        } else if !fits_row(asks) || !fits_row(bids) {
            Some(StatError::Overflow)
        } else {
            None
        }
    }

    /// The builder after a book has been put into the row of its interval.
    ///
    /// The last row is held on to in the intervals between. The largest
    /// volume that a row has shown is kept, and so is the widest spread
    /// between the first ask and the last bid of a row, over the day and
    /// over the regular session, where the ask is the higher.
    pub open spec fn with_book(self, asks: Seq<(u64, u64)>, bids: Seq<(u64, u64)>, timestamp: u64) -> Self {
        let bin = bin_of(timestamp);
        let s = self.stat;
        let apart = asks.len() > 0 && bids.len() > 0 && asks[0].0 > bids.last().0;
        let spread = (asks[0].0 - bids.last().0) as u64;
        BuilderView {
            stat: StatView {
                lob_level: held(s.lob_level, self.last_lob, bin).update(
                    bin,
                    row_of(timestamp, asks, bids),
                ),
                lob_max_shares: largest(
                    asks,
                    asks.len() as int,
                    largest(bids, bids.len() as int, s.lob_max_shares),
                ),
                lob_max_spread: if apart {
                    widest(s.lob_max_spread, spread)
                } else {
                    s.lob_max_spread
                },
                lob_regmkt_max_spread: if apart && R_N <= bin < P_N {
                    widest(s.lob_regmkt_max_spread, spread)
                } else {
                    s.lob_regmkt_max_spread
                },
                ..s
            },
            last_lob: Some(bin as usize),
            ..self
        }
    }
}

/// The largest volume among prices with their volumes, and no less than `floor`.
fn largest_of(pairs: &Vec<(u64, u64)>, floor: u64) -> (most: u64)
    ensures
        most == largest(pairs@, pairs@.len() as int, floor),
{
    let mut most: u64 = floor;
    let mut i: usize = 0;
    while i < pairs.len()
        invariant
            i <= pairs@.len(),
            most == largest(pairs@, i as int, floor),
        decreases pairs@.len() - i,
    {
        if pairs[i].1 > most {
            most = pairs[i].1;
        }
        i += 1;
    }
    most
}

/// Whether every price and every volume is a number that a row can hold.
fn check_row(pairs: &Vec<(u64, u64)>) -> (fits: bool)
    ensures
        fits == fits_row(pairs@),
{
    let mut i: usize = 0;
    while i < pairs.len()
        invariant
            i <= pairs@.len(),
            forall|k: int|
                0 <= k < i ==> (#[trigger] pairs@[k]).0 <= i64::MAX && pairs@[k].1 <= i64::MAX,
        decreases pairs@.len() - i,
    {
        if pairs[i].0 > 0x7fff_ffff_ffff_ffff || pairs[i].1 > 0x7fff_ffff_ffff_ffff {
            return false;
        }
        i += 1;
    }
    true
}

/// The larger of a widest spread so far and a new one.
fn widen(so_far: Option<u64>, new: u64) -> (wide: Option<u64>)
    ensures
        wide == widest(so_far, new),
{
    match so_far {
        None => Some(new),
        Some(old) => if old < new {
            Some(new)
        } else {
            Some(old)
        },
    }
}

impl StatBuilder {
    /// A builder for a day on which nothing has happened yet.
    pub fn new() -> (builder: Self)
        ensures
            builder@.wf(),
            builder@ == (BuilderView {
                stat: StatView::empty(),
                last_execution_ns: 0,
                last_lob: None,
                last_high: None,
                last_low: None,
                last_price: None,
            }),
    {
        Self {
            partial_stat: MarketStat::new(),
            last_execution_ns: 0,
            last_lob_interval_ind: None,
            last_high_interval_ind: None,
            last_low_interval_ind: None,
            last_price_interval_ind: None,
        }
    }

    /// Puts a price into an interval.
    fn update_ohlc(&mut self, bin: usize, price: u64)
        requires
            old(self)@.wf(),
            bin < T_N,
        ensures
            final(self)@.wf(),
            final(self)@ == old(self)@.with_price(bin as int, price),
    {
        self.partial_stat.interval_price.set(bin, price);
        hold(&mut self.partial_stat.interval_price, self.last_price_interval_ind, bin);
        if price > self.partial_stat.interval_high[bin] {
            self.partial_stat.interval_high.set(bin, price);
        }
        if price < self.partial_stat.interval_low[bin] {
            self.partial_stat.interval_low.set(bin, price);
        }
        proof {
            let s = old(self)@.stat;
            assert(self.partial_stat.interval_high@ =~= s.interval_high.update(
                bin as int,
                more(s.interval_high[bin as int], price),
            ));
            assert(self.partial_stat.interval_low@ =~= s.interval_low.update(
                bin as int,
                less(s.interval_low[bin as int], price),
            ));
        }
        hold(&mut self.partial_stat.interval_high, self.last_high_interval_ind, bin);
        self.last_high_interval_ind = Some(bin);
        hold(&mut self.partial_stat.interval_low, self.last_low_interval_ind, bin);
        self.last_low_interval_ind = Some(bin);
    }

    /// Counts an execution of so many shares at a price.
    pub fn update_execute_msg(&mut self, executed: u64, price: u64, timestamp: u64, printable: bool) -> (result:
        Result<(), StatError>)
        requires
            old(self)@.wf(),
        ensures
            final(self)@.wf(),
            match old(self)@.execute_fault(executed, price, timestamp, true, printable) {
                Some(e) => result == Err::<(), StatError>(e) && final(self)@ == old(self)@,
                None => result is Ok && final(self)@ == old(self)@.executed(
                    executed,
                    price,
                    timestamp,
                    printable,
                ),
            },
    {
        let bin = interval(timestamp)?;
        let stat = &self.partial_stat;
        let at: usize = if stat.regular_market_start.is_none() && bin >= R_N {
            R_N - 1
        } else if stat.post_market_start.is_none() && bin >= P_N {
            P_N - 1
        } else {
            bin
        };
        let total = sum(stat.total_volume, executed)?;
        let post = sum(stat.post_market_volume, executed)?;
        let count = if timestamp != self.last_execution_ns && printable {
            sum(stat.interval_execute_msg_count[bin], 1)?
        } else {
            stat.interval_execute_msg_count[bin]
        };
        let (volume, price_volume) = if printable {
            let volume = sum(stat.interval_volume[at], executed)?;
            let turnover = product(executed, price)?;
            (volume, sum(stat.interval_price_volume[at], turnover)?)
        } else {
            (stat.interval_volume[at], stat.interval_price_volume[at])
        };
        self.partial_stat.total_volume = total;
        self.partial_stat.post_market_volume = post;
        self.partial_stat.interval_execute_msg_count.set(bin, count);
        self.partial_stat.interval_volume.set(at, volume);
        self.partial_stat.interval_price_volume.set(at, price_volume);
        self.last_execution_ns = timestamp;
        proof {
            let s = old(self)@.stat;
            assert(self.partial_stat.interval_execute_msg_count@ =~= if timestamp != old(
                self,
            )@.last_execution_ns && printable {
                s.interval_execute_msg_count.update(
                    bin as int,
                    (s.interval_execute_msg_count[bin as int] + 1) as u64,
                )
            } else {
                s.interval_execute_msg_count
            });
            assert(self.partial_stat.interval_volume@ =~= if printable {
                s.interval_volume.update(at as int, (s.interval_volume[at as int] + executed) as u64)
            } else {
                s.interval_volume
            });
            assert(self.partial_stat.interval_price_volume@ =~= if printable {
                s.interval_price_volume.update(
                    at as int,
                    (s.interval_price_volume[at as int] + executed * price) as u64,
                )
            } else {
                s.interval_price_volume
            });
        }
        if printable {
            self.update_ohlc(at, price);
        }
        Ok(())
    }

    /// Counts a message of the feed. `container` holds the records of the
    /// security, and `translator` knows the orders of the day.
    pub fn update(&mut self, message: &Message, container: &StockContainer, translator: &Translator) -> (result:
        Result<(), StatError>)
        requires
            old(self)@.wf(),
        ensures
            final(self)@.wf(),
            ({
                let reference = match message.body {
                    Body::OrderExecuted { reference, .. } => reference,
                    Body::OrderExecutedWithPrice { reference, .. } => reference,
                    _ => 0,
                };
                let known = if translator.statuses().contains_key(reference) {
                    Some(translator.statuses()[reference].price)
                } else {
                    None
                };
                match old(self)@.update_fault(*message, known) {
                    Some(e) => result == Err::<(), StatError>(e) && final(self)@ == old(self)@,
                    None => result is Ok && final(self)@ == old(self)@.updated(
                        *message,
                        known,
                        container.messages@.len() as usize,
                    ),
                }
            }),
    {
        match &message.body {
            Body::OrderExecuted { executed, reference, .. } => {
                if message.timestamp < START_TIME_NS || message.timestamp
                    >= crate::nasdaq::constants::END_TIME_NS {
                    return Err(StatError::OutOfDay);
                }
                let status = match translator.status(*reference) {
                    Some(status) => status,
                    None => {
                        return Err(StatError::OrderNotFound);
                    },
                };
                self.update_execute_msg(*executed as u64, status.price, message.timestamp, true)
            },
            Body::OrderExecutedWithPrice { executed, printable, reference, price, .. } => {
                if message.timestamp < START_TIME_NS || message.timestamp
                    >= crate::nasdaq::constants::END_TIME_NS {
                    return Err(StatError::OutOfDay);
                }
                if translator.status(*reference).is_none() {
                    return Err(StatError::OrderNotFound);
                }
                self.update_execute_msg(*executed as u64, price.inner(), message.timestamp, *printable)
            },
            Body::CrossTrade(x) => {
                let total = sum(self.partial_stat.total_volume, x.shares)?;
                match x.cross_type {
                    CrossType::Opening => {
                        if message.timestamp < REG_START_TIME_NS {
                            return Err(StatError::EarlyOpening);
                        }
                        self.partial_stat.total_volume = total;
                        self.partial_stat.opening_cross_price = x.cross_price.inner();
                        self.partial_stat.opening_cross_volume = x.shares;
                        self.partial_stat.pre_market_volume = self.partial_stat.post_market_volume;
                        self.partial_stat.post_market_volume = 0;
                        self.partial_stat.regular_market_start = Some(container.messages.len());
                    },
                    CrossType::Closing => {
                        self.partial_stat.total_volume = total;
                        self.partial_stat.closing_cross_price = x.cross_price.inner();
                        self.partial_stat.closing_cross_volume = x.shares;
                        self.partial_stat.regular_market_volume = self.partial_stat.post_market_volume;
                        self.partial_stat.post_market_volume = 0;
                        self.partial_stat.post_market_start = Some(container.messages.len());
                    },
                    _ => {
                        self.partial_stat.total_volume = total;
                    },
                }
                Ok(())
            },
            Body::NonCrossTrade(_) => {
                if message.timestamp < START_TIME_NS {
                    Err(StatError::OutOfDay)
                } else {
                    Ok(())
                }
            },
            Body::StockDirectory(d) => {
                self.partial_stat.stock_directory = Some(d.stock.clone());
                Ok(())
            },
            _ => Ok(()),
        }
    }

    /// The row of a book.
    fn row(timestamp: u64, asks: &Vec<(u64, u64)>, bids: &Vec<(u64, u64)>) -> (row: Row)
        requires
            timestamp <= i64::MAX,
            asks@.len() <= 5,
            bids@.len() <= 5,
            fits_row(asks@),
            fits_row(bids@),
        ensures
            row@ == row_of(timestamp, asks@, bids@),
    {
        let mut row: Row = [0i64; 21];
        row[0] = timestamp as i64;
        let mut k: usize = 0;
        while k < bids.len()
            invariant
                k <= bids@.len() <= 5,
                fits_row(bids@),
                row@.len() == 21,
                row@[0] == timestamp as i64,
                forall|i: int|
                    0 <= i < k ==> row@[10 - 2 * i] == (-bids@[i].1) as i64 && row@[9 - 2 * i]
                        == bids@[i].0 as i64,
                forall|i: int| 1 <= i <= 10 - 2 * k ==> row@[i] == 0,
                forall|i: int| 11 <= i < 21 ==> row@[i] == 0,
            decreases bids@.len() - k,
        {
            let pair = bids[k];
            row[10 - 2 * k] = -(pair.1 as i64);
            row[9 - 2 * k] = pair.0 as i64;
            k += 1;
        }
        let mut k: usize = 0;
        while k < asks.len()
            invariant
                k <= asks@.len() <= 5,
                bids@.len() <= 5,
                fits_row(asks@),
                row@.len() == 21,
                row@[0] == timestamp as i64,
                forall|i: int|
                    0 <= i < bids@.len() ==> row@[10 - 2 * i] == (-bids@[i].1) as i64 && row@[9 - 2
                        * i] == bids@[i].0 as i64,
                forall|i: int| 1 <= i <= 10 - 2 * bids@.len() ==> row@[i] == 0,
                forall|i: int|
                    0 <= i < k ==> row@[11 + 2 * i] == asks@[i].0 as i64 && row@[12 + 2 * i]
                        == asks@[i].1 as i64,
                forall|i: int| 11 + 2 * k <= i < 21 ==> row@[i] == 0,
            decreases asks@.len() - k,
        {
            let pair = asks[k];
            row[11 + 2 * k] = pair.0 as i64;
            row[12 + 2 * k] = pair.1 as i64;
            k += 1;
        }
        proof {
            let want = row_of(timestamp, asks@, bids@);
            assert forall|i: int| 0 <= i < 21 implies row@[i] == want[i] by {
                if i == 0 {
                } else if i <= 10 {
                    let n = (10 - i) / 2;
                    if n < bids@.len() {
                        if (10 - i) % 2 == 0 {
                            assert(row@[10 - 2 * n] == (-bids@[n].1) as i64);
                        } else {
                            assert(row@[9 - 2 * n] == bids@[n].0 as i64);
                        }
                    }
                } else {
                    let n = (i - 11) / 2;
                    if n < asks@.len() {
                        if (i - 11) % 2 == 0 {
                            assert(row@[11 + 2 * n] == asks@[n].0 as i64);
                        } else {
                            assert(row@[12 + 2 * n] == asks@[n].1 as i64);
                        }
                    }
                }
            }
            assert(row@ =~= want);
        }
        row
    }

    /// Puts a book into the row of the interval of a time: its best
    /// prices of each side with the volumes at them, five at most and the
    /// best first.
    pub fn update_lob(&mut self, book: &mut NasdaqOrderBook, timestamp: u64, level: usize) -> (result:
        Result<(), StatError>)
        requires
            old(self)@.wf(),
            old(book).inner.wf(),
        ensures
            final(self)@.wf(),
            *final(book) == *old(book),
            ({
                let asks = priced(
                    first_of(price_list(Side::Ask, old(book).inner.book().asks()), level as nat),
                    old(book).inner.book().asks(),
                );
                let bids = priced(
                    first_of(price_list(Side::Bid, old(book).inner.book().bids()), level as nat),
                    old(book).inner.book().bids(),
                );
                match old(self)@.lob_fault(asks, bids, timestamp, level) {
                    Some(e) => result == Err::<(), StatError>(e) && final(self)@ == old(self)@,
                    None => result is Ok && final(self)@ == old(self)@.with_book(asks, bids, timestamp),
                }
            }),
    {
        let bin = interval(timestamp)?;
        let (asks, bids) = book.inner.level_rows(level);
        if level != 5 || asks.len() > 5 || bids.len() > 5 {
            return Err(StatError::Depth);
        }
        if !check_row(&asks) || !check_row(&bids) {
            return Err(StatError::Overflow);
        }
        let row = Self::row(timestamp, &asks, &bids);
        let most = largest_of(&asks, largest_of(&bids, self.partial_stat.lob_max_shares));
        let apart = asks.len() > 0 && bids.len() > 0 && asks[0].0 > bids[bids.len() - 1].0;
        let (day, regular) = if apart {
            let spread: u64 = asks[0].0 - bids[bids.len() - 1].0;
            (
                widen(self.partial_stat.lob_max_spread, spread),
                if R_N <= bin && bin < P_N {
                    widen(self.partial_stat.lob_regmkt_max_spread, spread)
                } else {
                    self.partial_stat.lob_regmkt_max_spread
                },
            )
        } else {
            (self.partial_stat.lob_max_spread, self.partial_stat.lob_regmkt_max_spread)
        };
        hold_rows(&mut self.partial_stat.lob_level, self.last_lob_interval_ind, bin);
        let ghost before = self.partial_stat.lob_level@;
        self.partial_stat.lob_level.set(bin, row);
        self.partial_stat.lob_max_shares = most;
        self.partial_stat.lob_max_spread = day;
        self.partial_stat.lob_regmkt_max_spread = regular;
        self.last_lob_interval_ind = Some(bin);
        proof {
            let after = old(self)@.with_book(asks@, bids@, timestamp);
            assert forall|k: int| 0 <= k < T_N implies rows_of(self.partial_stat.lob_level@)[k]
                == after.stat.lob_level[k] by {
                if k != bin {
                    assert(self.partial_stat.lob_level@[k] == before[k]);
                    assert(rows_of(before)[k] == before[k]@);
                }
            }
            assert(self@.stat.lob_level =~= after.stat.lob_level);
        }
        Ok(())
    }

    /// The statistics that were built.
    pub fn build(self) -> (stat: MarketStat)
        ensures
            stat@ == self@.stat,
    {
        self.partial_stat
    }
}

} // verus!
