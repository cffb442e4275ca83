//! What is counted of a trading day, interval by interval.
use vstd::prelude::*;
use crate::nasdaq::constants::{END_TIME_NS, INTERVAL_NS, START_TIME_NS, T_N};
use crate::nasdaq::interval_loc;
use crate::nyse::data::{StockContainer, Translator};
use crate::taq::enums::CrossCorrection;
use crate::taq::parser::{Body, Message};

verus! {

/// Why a message or a book cannot be counted.
#[derive(PartialEq, Eq, Debug, Clone, Copy, Structural)]
pub enum StatError {
    /// The message has no time.
    NoTime,
    /// The time lies before the first interval of the day or behind the last.
    OutOfDay,
    /// The order that was executed is not known.
    OrderNotFound,
    /// A count would be more than 64 bits hold.
    Overflow,
    /// The book is shown with more prices on a side than a row has room
    /// for, or the row is to be made for another depth than five.
    Depth,
    /// The time lies in the first interval of the day, which has none
    /// before it.
    FirstInterval,
    /// The opening auction trades before the regular session starts.
    EarlyOpening,
}

/// Whether a time lies in the day that is counted.
pub open spec fn in_day(timestamp: u64) -> bool {
    START_TIME_NS <= timestamp < END_TIME_NS
}

/// The interval of the day that a time lies in.
pub open spec fn bin_of(timestamp: u64) -> int {
    (timestamp - START_TIME_NS) / (INTERVAL_NS as int)
}

/// The interval of the day that a time lies in.
pub fn interval(timestamp: u64) -> (bin: Result<usize, StatError>)
    ensures
        match bin {
            Ok(b) => in_day(timestamp) && b == bin_of(timestamp) && b < T_N,
            Err(e) => !in_day(timestamp) && e == StatError::OutOfDay,
        },
{
    if timestamp < START_TIME_NS || timestamp >= END_TIME_NS {
        return Err(StatError::OutOfDay);
    }
    Ok(interval_loc(timestamp))
}

/// The sum of two counts, where 64 bits hold it.
pub fn sum(a: u64, b: u64) -> (total: Result<u64, StatError>)
    ensures
        match total {
            Ok(t) => t == a + b,
            Err(e) => a + b > u64::MAX && e == StatError::Overflow,
        },
{
    if a > u64::MAX - b {
        Err(StatError::Overflow)
    } else {
        Ok(a + b)
    }
}

/// The product of a count and a price, where 64 bits hold it.
pub fn product(a: u64, b: u64) -> (total: Result<u64, StatError>)
    ensures
        match total {
            Ok(t) => t == a * b,
            Err(e) => a * b > u64::MAX && e == StatError::Overflow,
        },
{
    if b != 0 && a > u64::MAX / b {
        proof {
            assert(a * b > u64::MAX) by (nonlinear_arith)
                requires
                    b > 0,
                    a > u64::MAX / b,
            ;
        }
        Err(StatError::Overflow)
    } else {
        proof {
            assert(a * b <= u64::MAX) by (nonlinear_arith)
                requires
                    b == 0 || a <= u64::MAX / b,
                    a >= 0,
                    b >= 0,
            ;
        }
        Ok(a * b)
    }
}

/// The row of a book with five prices on each side: the time, the bids
/// from the fifth to the first, each as volume and price, and the asks from
/// the first to the fifth, each as price and volume.
pub type Row = [u64; 21];

/// The statistics of one security over a trading day.
#[derive(Debug)]
pub struct MarketStat {
    pub total_volume: u64,
    pub pre_market_volume: u64,
    pub regular_market_volume: u64,
    pub post_market_volume: u64,
    pub regular_market_start: Option<usize>,
    pub post_market_start: Option<usize>,
    /// The symbol, once the feed has named it.
    pub stock_directory: Option<String>,
    pub opening_cross_price: u64,
    pub opening_cross_volume: u64,
    pub closing_cross_price: u64,
    pub closing_cross_volume: u64,
    /// The corrections of auction trades, each with the number of records
    /// that the security had when it came.
    pub events: Vec<(usize, CrossCorrection)>,
    pub interval_volume: Vec<u64>,
    pub interval_price_volume: Vec<u64>,
    pub interval_lp_volume: Vec<u64>,
    pub interval_lp_price_volume: Vec<u64>,
    pub interval_nondisp_volume: Vec<u64>,
    pub interval_nondisp_price_volume: Vec<u64>,
    pub interval_execute_msg_count: Vec<u64>,
    pub lob_level_5: Vec<Row>,
}

/// Statistics as plain values.
pub struct StatView {
    pub total_volume: u64,
    pub pre_market_volume: u64,
    pub regular_market_volume: u64,
    pub post_market_volume: u64,
    pub regular_market_start: Option<usize>,
    pub post_market_start: Option<usize>,
    pub stock_directory: Option<Seq<char>>,
    pub opening_cross_price: u64,
    pub opening_cross_volume: u64,
    pub closing_cross_price: u64,
    pub closing_cross_volume: u64,
    pub events: Seq<(usize, CrossCorrection)>,
    pub interval_volume: Seq<u64>,
    pub interval_price_volume: Seq<u64>,
    pub interval_lp_volume: Seq<u64>,
    pub interval_lp_price_volume: Seq<u64>,
    pub interval_nondisp_volume: Seq<u64>,
    pub interval_nondisp_price_volume: Seq<u64>,
    pub interval_execute_msg_count: Seq<u64>,
    pub lob_level_5: Seq<Seq<u64>>,
}

/// The rows as plain values.
pub open spec fn rows_of(rows: Seq<Row>) -> Seq<Seq<u64>> {
    rows.map_values(|r: Row| r@)
}

impl View for MarketStat {
    type V = StatView;

    open spec fn view(&self) -> StatView {
        StatView {
            total_volume: self.total_volume,
            pre_market_volume: self.pre_market_volume,
            regular_market_volume: self.regular_market_volume,
            post_market_volume: self.post_market_volume,
            regular_market_start: self.regular_market_start,
            post_market_start: self.post_market_start,
            stock_directory: match self.stock_directory {
                Some(name) => Some(name@),
                None => None,
            },
            opening_cross_price: self.opening_cross_price,
            opening_cross_volume: self.opening_cross_volume,
            closing_cross_price: self.closing_cross_price,
            closing_cross_volume: self.closing_cross_volume,
            events: self.events@,
            interval_volume: self.interval_volume@,
            interval_price_volume: self.interval_price_volume@,
            interval_lp_volume: self.interval_lp_volume@,
            interval_lp_price_volume: self.interval_lp_price_volume@,
            interval_nondisp_volume: self.interval_nondisp_volume@,
            interval_nondisp_price_volume: self.interval_nondisp_price_volume@,
            interval_execute_msg_count: self.interval_execute_msg_count@,
            lob_level_5: rows_of(self.lob_level_5@),
        }
    }
}

impl StatView {
    /// Every count has a place for every interval of the day.
    pub open spec fn wf(self) -> bool {
        &&& self.interval_volume.len() == T_N
        &&& self.interval_price_volume.len() == T_N
        &&& self.interval_lp_volume.len() == T_N
        &&& self.interval_lp_price_volume.len() == T_N
        &&& self.interval_nondisp_volume.len() == T_N
        &&& self.interval_nondisp_price_volume.len() == T_N
        &&& self.interval_execute_msg_count.len() == T_N
        &&& self.lob_level_5.len() == T_N
    }

    /// The statistics of a day on which nothing has happened yet.
    pub open spec fn empty() -> Self {
        StatView {
            total_volume: 0,
            pre_market_volume: 0,
            regular_market_volume: 0,
            post_market_volume: 0,
            regular_market_start: None,
            post_market_start: None,
            stock_directory: None,
            opening_cross_price: 0,
            opening_cross_volume: 0,
            closing_cross_price: 0,
            closing_cross_volume: 0,
            events: Seq::empty(),
            interval_volume: Seq::new(T_N as nat, |i: int| 0u64),
            interval_price_volume: Seq::new(T_N as nat, |i: int| 0u64),
            interval_lp_volume: Seq::new(T_N as nat, |i: int| 0u64),
            interval_lp_price_volume: Seq::new(T_N as nat, |i: int| 0u64),
            interval_nondisp_volume: Seq::new(T_N as nat, |i: int| 0u64),
            interval_nondisp_price_volume: Seq::new(T_N as nat, |i: int| 0u64),
            interval_execute_msg_count: Seq::new(T_N as nat, |i: int| 0u64),
            lob_level_5: Seq::new(T_N as nat, |i: int| Seq::new(21, |k: int| 0u64)),
        }
    }
}

/// So many zeros.
fn zeros(count: usize) -> (v: Vec<u64>)
    ensures
        v@ == Seq::new(count as nat, |i: int| 0u64),
{
    let v = vec![0u64; count];
    proof {
        assert(v@ =~= Seq::new(count as nat, |i: int| 0u64));
    }
    v
}

impl MarketStat {
    /// The statistics of a day on which nothing has happened yet.
    pub fn new() -> (stat: Self)
        ensures
            stat@ == StatView::empty(),
            stat@.wf(),
    {
        let mut rows: Vec<Row> = Vec::new();
        let mut i: usize = 0;
        while i < T_N
            invariant
                i <= T_N,
                rows@.len() == i,
                forall|k: int| 0 <= k < i ==> (#[trigger] rows@[k])@ == Seq::new(21, |k: int| 0u64),
            decreases T_N - i,
        {
            let row: Row = [0u64; 21];
            proof {
                assert(row@ =~= Seq::new(21, |k: int| 0u64));
            }
            rows.push(row);
            i += 1;
        }
        let stat = Self {
            total_volume: 0,
            pre_market_volume: 0,
            regular_market_volume: 0,
            post_market_volume: 0,
            regular_market_start: None,
            post_market_start: None,
            stock_directory: None,
            opening_cross_price: 0,
            opening_cross_volume: 0,
            closing_cross_price: 0,
            closing_cross_volume: 0,
            events: Vec::new(),
            interval_volume: zeros(T_N),
            interval_price_volume: zeros(T_N),
            interval_lp_volume: zeros(T_N),
            interval_lp_price_volume: zeros(T_N),
            interval_nondisp_volume: zeros(T_N),
            interval_nondisp_price_volume: zeros(T_N),
            interval_execute_msg_count: zeros(T_N),
            lob_level_5: rows,
        };
        proof {
            assert(rows_of(stat.lob_level_5@) =~= Seq::new(
                T_N as nat,
                |i: int| Seq::new(21, |k: int| 0u64),
            ));
        }
        stat
    }
}

/// What builds the statistics of one security while the messages of the
/// day come in.
#[derive(Debug)]
pub struct StatBuilder {
    pub partial_stat: MarketStat,
    last_execution_ns: u64,
    last_lob_interval_ind: usize,
}

/// A builder of statistics as plain values.
pub struct BuilderView {
    pub stat: StatView,
    /// The time of the last execution that was counted.
    pub last_execution_ns: u64,
    /// The interval of the last row of the book, 0 before the first.
    pub last_lob_interval_ind: usize,
}

impl View for StatBuilder {
    type V = BuilderView;

    closed spec fn view(&self) -> BuilderView {
        BuilderView {
            stat: self.partial_stat@,
            last_execution_ns: self.last_execution_ns,
            last_lob_interval_ind: self.last_lob_interval_ind,
        }
    }
}

/// The prices and volumes of a side one after the other.
pub open spec fn flat(pairs: Seq<(u64, u64)>) -> Seq<u64> {
    Seq::new(
        2 * pairs.len(),
        |i: int|
            if i % 2 == 0 {
                pairs[i / 2].0
            } else {
                pairs[i / 2].1
            },
    )
}

/// Numbers with zeros behind them, ten in all.
pub open spec fn padded(numbers: Seq<u64>) -> Seq<u64> {
    Seq::new(
        10,
        |i: int|
            if i < numbers.len() {
                numbers[i]
            } else {
                0u64
            },
    )
}

/// The row of a book: the time, the bids from the last to the first with
/// the volume before the price, and the asks from the first to the last
/// with the price before the volume. A side with fewer than five prices is
/// filled up with zeros, at the outer end of the row.
pub open spec fn row_of(timestamp: u64, asks: Seq<(u64, u64)>, bids: Seq<(u64, u64)>) -> Seq<u64> {
    seq![timestamp] + padded(flat(bids)).reverse() + padded(flat(asks))
}

impl BuilderView {
    /// Every count has a place for every interval of the day, and the
    /// last row of the book lies in the day.
    pub open spec fn wf(self) -> bool {
        self.stat.wf() && self.last_lob_interval_ind < T_N
    }

    /// Why an execution cannot be counted, if it cannot.
    pub open spec fn execute_fault(
        self,
        executed: u64,
        price: u64,
        timestamp: u64,
        known: bool,
        with_firm: bool,
    ) -> Option<StatError> {
        let bin = bin_of(timestamp);
        let s = self.stat;
        if !in_day(timestamp) {
            Some(StatError::OutOfDay)
        } else if !known {
            Some(StatError::OrderNotFound)
        } else if s.total_volume + executed > u64::MAX || s.post_market_volume + executed > u64::MAX
            || (timestamp != self.last_execution_ns && s.interval_execute_msg_count[bin] + 1
            > u64::MAX) || s.interval_volume[bin] + executed > u64::MAX || s.interval_price_volume[bin]
            + executed * price > u64::MAX || (with_firm && (s.interval_lp_volume[bin] + executed
            > u64::MAX || s.interval_lp_price_volume[bin] + executed * price > u64::MAX)) {
            Some(StatError::Overflow)
        } else {
            None
        }
    }

    /// The builder after an execution has been counted: in the volume of
    /// the day and of the session, in the volume and the turnover of its
    /// interval, and in those of the firms where a firm had entered the
    /// order. Executions at one time count as one message.
    pub open spec fn executed(self, executed: u64, price: u64, timestamp: u64, with_firm: bool) -> Self {
        let bin = bin_of(timestamp);
        let s = self.stat;
        BuilderView {
            stat: StatView {
                total_volume: (s.total_volume + executed) as u64,
                post_market_volume: (s.post_market_volume + executed) as u64,
                interval_execute_msg_count: if timestamp != self.last_execution_ns {
                    s.interval_execute_msg_count.update(
                        bin,
                        (s.interval_execute_msg_count[bin] + 1) as u64,
                    )
                } else {
                    s.interval_execute_msg_count
                },
                interval_volume: s.interval_volume.update(
                    bin,
                    (s.interval_volume[bin] + executed) as u64,
                ),
                interval_price_volume: s.interval_price_volume.update(
                    bin,
                    (s.interval_price_volume[bin] + executed * price) as u64,
                ),
                interval_lp_volume: if with_firm {
                    s.interval_lp_volume.update(bin, (s.interval_lp_volume[bin] + executed) as u64)
                } else {
                    s.interval_lp_volume
                },
                interval_lp_price_volume: if with_firm {
                    s.interval_lp_price_volume.update(
                        bin,
                        (s.interval_lp_price_volume[bin] + executed * price) as u64,
                    )
                } else {
                    s.interval_lp_price_volume
                },
                ..s
            },
            last_execution_ns: timestamp,
            ..self
        }
    }

    /// Why a trade that the book does not show cannot be counted, if it cannot.
    pub open spec fn hidden_fault(self, shares: u64, price: u64, time: Option<u64>) -> Option<
        StatError,
    > {
        match time {
            None => Some(StatError::NoTime),
            Some(t) => if !in_day(t) {
                Some(StatError::OutOfDay)
            } else if self.stat.interval_nondisp_volume[bin_of(t)] + shares > u64::MAX
                || self.stat.interval_nondisp_price_volume[bin_of(t)] + shares * price > u64::MAX {
                Some(StatError::Overflow)
            } else {
                None
            },
        }
    }

    /// The builder after a trade that the book does not show has been counted.
    pub open spec fn hidden(self, shares: u64, price: u64, timestamp: u64) -> Self {
        let bin = bin_of(timestamp);
        let s = self.stat;
        BuilderView {
            stat: StatView {
                interval_nondisp_volume: s.interval_nondisp_volume.update(
                    bin,
                    (s.interval_nondisp_volume[bin] + shares) as u64,
                ),
                interval_nondisp_price_volume: s.interval_nondisp_price_volume.update(
                    bin,
                    (s.interval_nondisp_price_volume[bin] + shares * price) as u64,
                ),
                ..s
            },
            ..self
        }
    }

    /// Why a message cannot be counted, if it cannot: `firm` is the number
    /// of the firm that entered the order of an execution, where the order
    /// is known.
    pub open spec fn update_fault(self, message: Message, firm: Option<u64>) -> Option<StatError> {
        match message.body {
            Body::OrderExecution(x) => if x.printable_flag > 0 {
                match message.source_time {
                    None => Some(StatError::NoTime),
                    Some(t) => self.execute_fault(
                        x.volume as u64,
                        x.price.spec_inner(),
                        t,
                        firm is Some,
                        firm matches Some(f) && f > 0,
                    ),
                }
            } else {
                None
            },
            Body::CrossTrade(x) => if self.stat.total_volume + x.volume > u64::MAX {
                Some(StatError::Overflow)
            } else {
                None
            },
            Body::NonDisplayedTrade(x) => self.hidden_fault(
                x.volume as u64,
                x.price.spec_inner(),
                message.source_time,
            ),
            _ => None,
        }
    }

    /// The builder after a message has been counted: an execution that is
    /// to be printed, the trade of an auction, a trade that the book does
    /// not show, the correction of the trade of an auction, or the symbol
    /// of the security. No other message counts. `records` is the number
    /// of records that the security has.
    pub open spec fn updated(self, message: Message, firm: Option<u64>, records: usize) -> Self {
        let s = self.stat;
        match message.body {
            Body::OrderExecution(x) => if x.printable_flag > 0 {
                self.executed(
                    x.volume as u64,
                    x.price.spec_inner(),
                    message.source_time->0,
                    firm matches Some(f) && f > 0,
                )
            } else {
                self
            },
            Body::CrossTrade(x) => BuilderView {
                stat: StatView { total_volume: (s.total_volume + x.volume) as u64, ..s },
                ..self
            },
            Body::NonDisplayedTrade(x) => self.hidden(
                x.volume as u64,
                x.price.spec_inner(),
                message.source_time->0,
            ),
            Body::CrossCorrection(x) => BuilderView {
                stat: StatView { events: s.events.push((records, x)), ..s },
                ..self
            },
            Body::SymbolIndexMapping(_) => BuilderView {
                stat: StatView { stock_directory: Some(message.symbol@), ..s },
                ..self
            },
            _ => self,
        }
    }

    /// Why a book cannot be put into its row, if it cannot.
    pub open spec fn lob_fault(
        self,
        asks: Seq<(u64, u64)>,
        bids: Seq<(u64, u64)>,
        timestamp: u64,
        level: usize,
    ) -> Option<StatError> {
        if !in_day(timestamp) {
            Some(StatError::OutOfDay)
        } else if level != 5 || asks.len() > 5 || bids.len() > 5 {
            Some(StatError::Depth)
        } else if bin_of(timestamp) == 0 {
            Some(StatError::FirstInterval)
        } else {
            None
        }
    }

    /// The builder after a book has been put into the row of its interval.
    /// The intervals between the last row and the one before this, if any
    /// lie between them, get the last row.
    pub open spec fn with_book(self, asks: Seq<(u64, u64)>, bids: Seq<(u64, u64)>, timestamp: u64) -> Self {
        let bin = bin_of(timestamp);
        let last = self.last_lob_interval_ind as int;
        let rows = self.stat.lob_level_5;
        let filled = Seq::new(
            rows.len(),
            |i: int|
                if last > 0 && last < i < bin - 1 {
                    rows[last]
                } else {
                    rows[i]
                },
        );
        BuilderView {
            stat: StatView {
                lob_level_5: filled.update(bin, row_of(timestamp, asks, bids)),
                ..self.stat
            },
            last_lob_interval_ind: bin as usize,
            ..self
        }
    }
}

impl StatBuilder {
    /// A builder for a day on which nothing has happened yet.
    pub fn new() -> (builder: Self)
        ensures
            builder@.wf(),
            builder@ == (BuilderView {
                stat: StatView::empty(),
                last_execution_ns: 0,
                last_lob_interval_ind: 0,
            }),
    {
        Self { partial_stat: MarketStat::new(), last_execution_ns: 0, last_lob_interval_ind: 0 }
    }

    /// Counts an execution of so many shares at a price. `with_firm` says
    /// whether a firm had entered the order.
    pub fn update_execute_msg(&mut self, with_firm: bool, executed: u64, price: u64, timestamp: u64) -> (result:
        Result<(), StatError>)
        requires
            old(self)@.wf(),
        ensures
            final(self)@.wf(),
            match old(self)@.execute_fault(executed, price, timestamp, true, with_firm) {
                Some(e) => result == Err::<(), StatError>(e) && final(self)@ == old(self)@,
                None => result is Ok && final(self)@ == old(self)@.executed(
                    executed,
                    price,
                    timestamp,
                    with_firm,
                ),
            },
    {
        let bin = interval(timestamp)?;
        let stat = &self.partial_stat;
        let total = sum(stat.total_volume, executed)?;
        let post = sum(stat.post_market_volume, executed)?;
        let count = if timestamp != self.last_execution_ns {
            sum(stat.interval_execute_msg_count[bin], 1)?
        } else {
            stat.interval_execute_msg_count[bin]
        };
        let volume = sum(stat.interval_volume[bin], executed)?;
        let turnover = product(executed, price)?;
        let price_volume = sum(stat.interval_price_volume[bin], turnover)?;
        let lp_volume = if with_firm {
            sum(stat.interval_lp_volume[bin], executed)?
        } else {
            stat.interval_lp_volume[bin]
        };
        let lp_price_volume = if with_firm {
            sum(stat.interval_lp_price_volume[bin], turnover)?
        } else {
            stat.interval_lp_price_volume[bin]
        };
        self.partial_stat.total_volume = total;
        self.partial_stat.post_market_volume = post;
        self.partial_stat.interval_execute_msg_count.set(bin, count);
        self.partial_stat.interval_volume.set(bin, volume);
        self.partial_stat.interval_price_volume.set(bin, price_volume);
        self.partial_stat.interval_lp_volume.set(bin, lp_volume);
        self.partial_stat.interval_lp_price_volume.set(bin, lp_price_volume);
        self.last_execution_ns = timestamp;
        proof {
            let before = old(self)@;
            let after = before.executed(executed, price, timestamp, with_firm);
            assert(self@.stat.interval_execute_msg_count =~= after.stat.interval_execute_msg_count);
            assert(self@.stat.interval_lp_volume =~= after.stat.interval_lp_volume);
            assert(self@.stat.interval_lp_price_volume =~= after.stat.interval_lp_price_volume);
        }
        Ok(())
    }

    /// Counts a message of the feed. `container` holds the records of the
    /// security, and `translator` knows the orders of the day.
    pub fn update(&mut self, message: &Message, container: &StockContainer, translator: &Translator) -> (result:
        Result<(), StatError>)
        requires
            old(self)@.wf(),
        ensures
            final(self)@.wf(),
            ({
                let firm = match message.body {
                    Body::OrderExecution(x) => if translator.statuses().contains_key(x.order_id) {
                        Some(translator.statuses()[x.order_id].mpid_val)
                    } else {
                        None
                    },
                    _ => None,
                };
                match old(self)@.update_fault(*message, firm) {
                    Some(e) => result == Err::<(), StatError>(e) && final(self)@ == old(self)@,
                    None => result is Ok && final(self)@ == old(self)@.updated(
                        *message,
                        firm,
                        container.messages@.len() as usize,
                    ),
                }
            }),
    {
        match &message.body {
            Body::OrderExecution(x) => {
                if x.printable_flag > 0 {
                    let time = match message.source_time {
                        Some(t) => t,
                        None => {
                            return Err(StatError::NoTime);
                        },
                    };
                    if time < START_TIME_NS || time >= END_TIME_NS {
                        return Err(StatError::OutOfDay);
                    }
                    let status = match translator.status(x.order_id) {
                        Some(status) => status,
                        None => {
                            return Err(StatError::OrderNotFound);
                        },
                    };
                    self.update_execute_msg(status.mpid_val > 0, x.volume as u64, x.price.inner(), time)
                } else {
                    Ok(())
                }
            },
            Body::CrossTrade(x) => {
                let total = sum(self.partial_stat.total_volume, x.volume as u64)?;
                self.partial_stat.total_volume = total;
                Ok(())
            },
            Body::NonDisplayedTrade(x) => {
                let time = match message.source_time {
                    Some(t) => t,
                    None => {
                        return Err(StatError::NoTime);
                    },
                };
                let bin = interval(time)?;
                let shares = x.volume as u64;
                let volume = sum(self.partial_stat.interval_nondisp_volume[bin], shares)?;
                let turnover = product(shares, x.price.inner())?;
                let price_volume = sum(self.partial_stat.interval_nondisp_price_volume[bin], turnover)?;
                self.partial_stat.interval_nondisp_volume.set(bin, volume);
                self.partial_stat.interval_nondisp_price_volume.set(bin, price_volume);
                Ok(())
            },
            Body::CrossCorrection(x) => {
                let correction = CrossCorrection { cross_id: x.cross_id, volume: x.volume };
                self.partial_stat.events.push((container.messages.len(), correction));
                Ok(())
            },
            Body::SymbolIndexMapping(_) => {
                self.partial_stat.stock_directory = Some(message.symbol.clone());
                Ok(())
            },
            _ => Ok(()),
        }
    }

    /// The row of a book.
    fn row(timestamp: u64, asks: &Vec<(u64, u64)>, bids: &Vec<(u64, u64)>) -> (row: Row)
        requires
            asks@.len() <= 5,
            bids@.len() <= 5,
        ensures
            row@ == row_of(timestamp, asks@, bids@),
    {
        let mut row: Row = [0u64; 21];
        row[0] = timestamp;
        let mut k: usize = 0;
        while k < bids.len()
            invariant
                k <= bids@.len() <= 5,
                row@.len() == 21,
                row@[0] == timestamp,
                forall|i: int| 0 <= i < k ==> row@[10 - 2 * i] == bids@[i].0 && row@[9 - 2 * i]
                    == bids@[i].1,
                forall|i: int| 1 <= i <= 10 - 2 * k ==> row@[i] == 0,
                forall|i: int| 11 <= i < 21 ==> row@[i] == 0,
            decreases bids@.len() - k,
        {
            let pair = bids[k];
            row[10 - 2 * k] = pair.0;
            row[9 - 2 * k] = pair.1;
            k += 1;
        }
        let mut k: usize = 0;
        while k < asks.len()
            invariant
                k <= asks@.len() <= 5,
                bids@.len() <= 5,
                row@.len() == 21,
                row@[0] == timestamp,
                forall|i: int|
                    0 <= i < bids@.len() ==> row@[10 - 2 * i] == bids@[i].0 && row@[9 - 2 * i]
                        == bids@[i].1,
                forall|i: int| 1 <= i <= 10 - 2 * bids@.len() ==> row@[i] == 0,
                forall|i: int| 0 <= i < k ==> row@[11 + 2 * i] == asks@[i].0 && row@[12 + 2 * i]
                    == asks@[i].1,
                forall|i: int| 11 + 2 * k <= i < 21 ==> row@[i] == 0,
            decreases asks@.len() - k,
        {
            let pair = asks[k];
            row[11 + 2 * k] = pair.0;
            row[12 + 2 * k] = pair.1;
            k += 1;
        }
        proof {
            let want = row_of(timestamp, asks@, bids@);
            let back = padded(flat(bids@)).reverse();
            let front = padded(flat(asks@));
            assert(want.len() == 21);
            assert forall|i: int| 0 <= i < 21 implies row@[i] == want[i] by {
                if i == 0 {
                } else if i <= 10 {
                    let j = 10 - i;
                    assert(want[i] == back[i - 1]);
                    assert(back[i - 1] == padded(flat(bids@))[j]);
                    if j < 2 * bids@.len() {
                        let n = j / 2;
                        if j % 2 == 0 {
                            assert(row@[10 - 2 * n] == bids@[n].0);
                        } else {
                            assert(row@[9 - 2 * n] == bids@[n].1);
                        }
                    }
                } else {
                    let j = i - 11;
                    assert(want[i] == front[j]);
                    if j < 2 * asks@.len() {
                        let n = j / 2;
                        if j % 2 == 0 {
                            assert(row@[11 + 2 * n] == asks@[n].0);
                        } else {
                            assert(row@[12 + 2 * n] == asks@[n].1);
                        }
                    }
                }
            }
            assert(row@ =~= want);
        }
        row
    }

    /// Puts a book into the row of the interval of a time: `asks` and
    /// `bids` are the prices of each side with their volumes, up to five.
    pub fn update_lob(&mut self, asks: &Vec<(u64, u64)>, bids: &Vec<(u64, u64)>, timestamp: u64, level: usize) -> (result:
        Result<(), StatError>)
        requires
            old(self)@.wf(),
        ensures
            final(self)@.wf(),
            match old(self)@.lob_fault(asks@, bids@, timestamp, level) {
                Some(e) => result == Err::<(), StatError>(e) && final(self)@ == old(self)@,
                None => result is Ok && final(self)@ == old(self)@.with_book(asks@, bids@, timestamp),
            },
    {
        let bin = interval(timestamp)?;
        if level != 5 || asks.len() > 5 || bids.len() > 5 {
            return Err(StatError::Depth);
        }
        if bin == 0 {
            return Err(StatError::FirstInterval);
        }
        let row = Self::row(timestamp, asks, bids);
        let last = self.last_lob_interval_ind;
        let ghost rows = old(self)@.stat.lob_level_5;
        if last > 0 && bin - 1 > last {
            let keep: Row = self.partial_stat.lob_level_5[last];
            let mut i: usize = last + 1;
            while i < bin - 1
                invariant
                    last < i <= bin - 1,
                    bin < T_N,
                    last == old(self).last_lob_interval_ind,
                    keep@ == rows[last as int],
                    rows == old(self)@.stat.lob_level_5,
                    rows.len() == T_N,
                    self.partial_stat.lob_level_5@.len() == T_N,
                    forall|k: int|
                        0 <= k < T_N ==> (#[trigger] self.partial_stat.lob_level_5@[k])@ == if last < k
                            < i {
                            rows[last as int]
                        } else {
                            rows[k]
                        },
                    self@ == (BuilderView {
                        stat: StatView {
                            lob_level_5: rows_of(self.partial_stat.lob_level_5@),
                            ..old(self)@.stat
                        },
                        ..old(self)@
                    }),
                decreases bin - 1 - i,
            {
                self.partial_stat.lob_level_5.set(i, keep);
                i += 1;
            }
        }
        self.partial_stat.lob_level_5.set(bin, row);
        self.last_lob_interval_ind = bin;
        proof {
            let after = old(self)@.with_book(asks@, bids@, timestamp);
            assert(self@.stat.lob_level_5 =~= after.stat.lob_level_5);
        }
        Ok(())
    }

    /// The statistics that were built.
    pub fn build(self) -> (stat: MarketStat)
        ensures
            stat@ == self@.stat,
    {
        self.partial_stat
    }
}

} // verus!
