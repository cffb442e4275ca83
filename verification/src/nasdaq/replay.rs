//! Stepping a book through the records of a day, one time after the other.
use vstd::prelude::*;
use std::collections::VecDeque;
use crate::collections::Side;
use crate::collections::side_book::{first_of, price_list};
use crate::nasdaq::book::{event_of, Message, NasdaqOrderBook};
use crate::nasdaq::data::{is_record, message_of};
use crate::nyse::book::{
    checked_spread_limits, driven, fresh, halted, leading, lemma_driven_further, limit_of, refused,
    snapshot_of, spread_fits, spread_limits, volumes_of, walked, HandleError, IdTimeQuantity,
    NyseOrderBook, Summary,
};

verus! {

/// How much of a book a snapshot shows.
pub enum OrderbookDepth {
    /// So many of the best prices of each side.
    Level(usize),
    /// The prices within so far of the middle of the best prices.
    Spread(u64),
}

/// Why a step of a replay failed.
#[derive(PartialEq, Eq, Debug, Clone, Copy, Structural)]
pub enum ReplayError {
    /// The book refuses an event.
    Book(HandleError),
    /// The limits of the spread around the best prices are no numbers that
    /// the machine can hold.
    Spread,
}

/// A time, the snapshot of the volumes, the records of that time, and
/// whether they were the last.
pub type VolumeResult = (u64, Summary<u64>, Vec<Vec<u64>>, bool);

/// A time, the snapshot of the queues, the records of that time, and
/// whether they were the last.
pub type QueueResult = (u64, Summary<Vec<IdTimeQuantity>>, Vec<Vec<u64>>, bool);

/// The records as plain values.
pub open spec fn record_rows(records: Seq<Vec<u64>>) -> Seq<Seq<u64>> {
    records.map_values(|r: Vec<u64>| r@)
}

/// Whether all of them are records of events.
pub open spec fn all_records(rows: Seq<Seq<u64>>) -> bool {
    forall|i: int| 0 <= i < rows.len() ==> is_record(#[trigger] rows[i])
}

/// How many records from the first on have the time of the first.
pub open spec fn same_time(rows: Seq<Seq<u64>>, time: u64) -> nat
    decreases rows.len(),
{
    if rows.len() == 0 || rows.first()[1] != time {
        0
    } else {
        1 + same_time(rows.drop_first(), time)
    }
}

/// The events that records hold, as a book takes them.
pub open spec fn events_of(rows: Seq<Seq<u64>>) -> Seq<crate::nyse::book::Message> {
    rows.map_values(|r: Seq<u64>| event_of(message_of(r)))
}

/// Whether all of them are records of events.
pub fn check_records(messages: &VecDeque<Vec<u64>>) -> (ok: bool)
    ensures
        ok == all_records(record_rows(messages@)),
{
    let mut i: usize = 0;
    while i < messages.len()
        invariant
            i <= messages@.len(),
            forall|j: int| 0 <= j < i ==> is_record(#[trigger] record_rows(messages@)[j]),
        decreases messages@.len() - i,
    {
        if !crate::nasdaq::data::check_record(messages[i].as_slice()) {
            assert(!is_record(record_rows(messages@)[i as int]));
            return false;
        }
        i += 1;
    }
    true
}

/// Whether a book is what a new book becomes when it takes the events,
/// all of them, one after the other.
pub open spec fn rebuilt(
    book: NyseOrderBook,
    validation: bool,
    msgs: Seq<crate::nyse::book::Message>,
) -> bool {
    exists|start: NyseOrderBook, quotes: Seq<(Option<u64>, Option<u64>)>|
        fresh(start, validation) && #[trigger] driven(start, book, msgs, quotes)
}

/// Whether a book is what a new book becomes when it takes the events one
/// after the other, as far as the event at `at`, which it refuses for the
/// given reason.
pub open spec fn stuck(
    book: NyseOrderBook,
    validation: bool,
    msgs: Seq<crate::nyse::book::Message>,
    at: int,
    reason: HandleError,
) -> bool {
    exists|start: NyseOrderBook, quotes: Seq<(Option<u64>, Option<u64>)>|
        fresh(start, validation) && #[trigger] halted(start, book, msgs, quotes, at, reason)
}

/// Lets the events of the records change a new book, one after the other,
/// until the book refuses one.
///
/// Returns the book as it then is, and the index of the record whose event
/// was refused, with the reason; no index where the book has taken them all.
pub fn reconstruct(records: &Vec<Vec<u64>>, validation: bool) -> (outcome: (
    NasdaqOrderBook,
    Option<(usize, HandleError)>,
))
    requires
        all_records(record_rows(records@)),
    ensures
        outcome.0.inner.wf(),
        match outcome.1 {
            None => rebuilt(outcome.0.inner, validation, events_of(record_rows(records@))),
            Some((at, reason)) => stuck(
                outcome.0.inner,
                validation,
                events_of(record_rows(records@)),
                at as int,
                reason,
            ),
        },
{
    let mut engine = NasdaqOrderBook::new(validation);
    let ghost start = engine.inner;
    let ghost rows = record_rows(records@);
    let ghost mut quotes: Seq<(Option<u64>, Option<u64>)> = Seq::empty();
    let mut i: usize = 0;
    proof {
        assert(events_of(rows).take(0) =~= Seq::<crate::nyse::book::Message>::empty());
    }
    while i < records.len()
        invariant
            i <= records@.len(),
            rows == record_rows(records@),
            all_records(rows),
            fresh(start, validation),
            engine.inner.wf(),
            driven(start, engine.inner, events_of(rows).take(i as int), quotes),
        decreases records@.len() - i,
    {
        proof {
            assert(is_record(rows[i as int]));
            assert(rows[i as int] == records@[i as int]@);
        }
        let msg = Message::from_record(records[i].as_slice());
        let ghost before = engine.inner;
        match engine.handle(&msg) {
            Ok(_) => {},
            Err(reason) => {
                proof {
                    assert(events_of(rows)[i as int] == event_of(msg));
                    assert(refused(before, engine.inner, events_of(rows)[i as int], reason));
                    assert(halted(start, engine.inner, events_of(rows), quotes, i as int, reason));
                    assert(stuck(engine.inner, validation, events_of(rows), i as int, reason));
                }
                return (engine, Some((i, reason)));
            },
        }
        proof {
            lemma_driven_further(
                start,
                before,
                engine.inner,
                events_of(rows).take(i as int),
                quotes,
                event_of(msg),
            );
            assert(events_of(rows).take(i as int).push(event_of(msg)) =~= events_of(rows).take(
                i + 1,
            ));
            quotes = quotes.push((engine.inner.best_ask(), engine.inner.best_bid()));
        }
        i += 1;
    }
    proof {
        assert(events_of(rows).take(records@.len() as int) =~= events_of(rows));
        assert(driven(start, engine.inner, events_of(rows), quotes));
        assert(rebuilt(engine.inner, validation, events_of(rows)));
    }
    (engine, None)
}

/// A book and the records that are still to change it.
pub struct TimeBasedReplay {
    book: NasdaqOrderBook,
    messages: VecDeque<Vec<u64>>,
}

impl TimeBasedReplay {
    /// The book.
    pub closed spec fn book(&self) -> NyseOrderBook {
        self.book.inner
    }

    /// The records that are still to change the book.
    pub closed spec fn pending(&self) -> Seq<Seq<u64>> {
        record_rows(self.messages@)
    }

    /// The book is sound, and what is still to change it are records of events.
    pub open spec fn wf(&self) -> bool {
        &&& self.book().wf()
        &&& all_records(self.pending())
    }

    /// A replay of the records on an empty book that checks no event.
    pub fn new(messages: VecDeque<Vec<u64>>) -> (replay: Self)
        requires
            all_records(record_rows(messages@)),
        ensures
            replay.wf(),
            replay.pending() == record_rows(messages@),
            !replay.book().validating(),
            replay.book().max_ref() == 0,
    {
        let book = NasdaqOrderBook::new(false);
        Self { book, messages }
    }

    /// Lets the records of the next time change the book.
    ///
    /// Returns the time, the records of that time, and whether they were the
    /// last; nothing where no record is left. Where the book refuses an
    /// event, the step fails: the records of that time are gone, and those
    /// before the refused one have changed the book.
    pub fn step(&mut self) -> (stepped: Option<Result<(u64, Vec<Vec<u64>>, bool), HandleError>>)
        requires
            old(self).wf(),
        ensures
            took_step(*old(self), *final(self), outcome_of(stepped)),
    {
        if self.messages.len() == 0 {
            return None;
        }
        let ghost all = old(self).pending();
        let first = self.messages.pop_front().unwrap();
        proof {
            assert(is_record(all[0]));
            assert(self.pending() =~= all.skip(1));
        }
        let timestamp: u64 = first[1];
        let mut messages: Vec<Vec<u64>> = Vec::new();
        messages.push(first);
        proof {
            assert(record_rows(messages@) =~= all.take(1));
            lemma_same_time_counts(all, timestamp, 1);
        }
        loop
            invariant
                self.book == old(self).book,
                all == old(self).pending(),
                all_records(all),
                1 <= messages@.len() <= all.len(),
                record_rows(messages@) == all.take(messages@.len() as int),
                self.pending() == all.skip(messages@.len() as int),
                same_time(all, timestamp) == messages@.len() + same_time(self.pending(), timestamp),
                timestamp == all[0][1],
            ensures
                self.book == old(self).book,
                1 <= messages@.len() <= all.len(),
                record_rows(messages@) == all.take(messages@.len() as int),
                self.pending() == all.skip(messages@.len() as int),
                same_time(all, timestamp) == messages@.len(),
                timestamp == all[0][1],
                all == old(self).pending(),
                all_records(all),
            decreases self.pending().len(),
        {
            if self.messages.len() == 0 {
                break;
            }
            proof {
                assert(self.pending()[0] == all[messages@.len() as int]);
                assert(is_record(all[messages@.len() as int]));
            }
            if self.messages[0][1] != timestamp {
                break;
            }
            let ghost waiting = self.pending();
            let next = self.messages.pop_front().unwrap();
            let ghost before = messages@;
            messages.push(next);
            proof {
                assert(self.pending() =~= waiting.drop_first());
                assert(all.skip(before.len() as int).drop_first() =~= all.skip(
                    messages@.len() as int,
                ));
                assert(next@ == waiting[0]);
                assert(record_rows(messages@) =~= all.take(messages@.len() as int));
            }
        }
        let ghost quotes: Seq<(Option<u64>, Option<u64>)> = Seq::empty();
        let ghost batch = record_rows(messages@);
        let mut i: usize = 0;
        proof {
            assert(events_of(batch).take(0) =~= Seq::<crate::nyse::book::Message>::empty());
            assert(all_records(self.pending())) by {
                assert forall|j: int| 0 <= j < self.pending().len() implies is_record(
                    #[trigger] self.pending()[j],
                ) by {
                    assert(self.pending()[j] == all[messages@.len() + j]);
                }
            }
        }
        while i < messages.len()
            invariant
                i <= messages@.len(),
                batch == record_rows(messages@),
                batch == all.take(messages@.len() as int),
                all_records(all),
                all == old(self).pending(),
                1 <= messages@.len() <= all.len(),
                same_time(all, timestamp) == messages@.len(),
                timestamp == all[0][1],
                self.pending() == all.skip(messages@.len() as int),
                all_records(self.pending()),
                self.book().wf(),
                self.book().validating() == old(self).book().validating(),
                driven(old(self).book(), self.book(), events_of(batch).take(i as int), quotes),
            decreases messages@.len() - i,
        {
            proof {
                assert(batch[i as int] == all[i as int]);
                assert(is_record(all[i as int]));
            }
            let event = Message::from_record(messages[i].as_slice());
            let ghost before = self.book();
            match self.book.handle(&event) {
                Ok(_) => {},
                Err(e) => {
                    proof {
                        assert(events_of(batch)[i as int] == event_of(event));
                        assert(refused(before, self.book(), events_of(batch)[i as int], e));
                        assert(halted(
                            old(self).book(),
                            self.book(),
                            events_of(batch),
                            quotes,
                            i as int,
                            e,
                        ));
                    }
                    return Some(Err(e));
                },
            }
            proof {
                lemma_driven_further(
                    old(self).book(),
                    before,
                    self.book(),
                    events_of(batch).take(i as int),
                    quotes,
                    event_of(event),
                );
                assert(events_of(batch).take(i as int).push(event_of(event)) =~= events_of(
                    batch,
                ).take(i + 1));
                quotes = quotes.push((self.book().best_ask(), self.book().best_bid()));
            }
            i += 1;
        }
        proof {
            assert(events_of(batch).take(messages@.len() as int) =~= events_of(batch));
        }
        let done = self.messages.len() == 0;
        Some(Ok((timestamp, messages, done)))
    }
}

/// What a step has given, with its records as plain values.
pub open spec fn outcome_of(
    stepped: Option<Result<(u64, Vec<Vec<u64>>, bool), HandleError>>,
) -> Option<Result<(u64, Seq<Seq<u64>>, bool), HandleError>> {
    match stepped {
        None => None,
        Some(Err(reason)) => Some(Err(reason)),
        Some(Ok(step)) => Some(Ok((step.0, record_rows(step.1@), step.2))),
    }
}

/// Whether a step takes a replay from `before` to `after` with the given
/// outcome.
///
/// With no record left there is no outcome, and nothing changes. Else the
/// records with the time of the first are taken away. Where the book
/// accepts their events one after the other, the outcome is that time,
/// those records, and whether none is left behind them. Where it refuses
/// one, the outcome is the reason, and the events before that one have
/// changed the book.
pub open spec fn took_step(
    before: TimeBasedReplay,
    after: TimeBasedReplay,
    outcome: Option<Result<(u64, Seq<Seq<u64>>, bool), HandleError>>,
) -> bool {
    let all = before.pending();
    &&& after.wf()
    &&& after.book().validating() == before.book().validating()
    &&& match outcome {
        None => all.len() == 0 && after == before,
        Some(result) => {
            let count = same_time(all, all[0][1]) as int;
            &&& all.len() > 0
            &&& count >= 1
            &&& after.pending() == all.skip(count)
            &&& match result {
                Ok(step) => {
                    &&& step.0 == all[0][1]
                    &&& step.1 == all.take(count)
                    &&& step.2 == (after.pending().len() == 0)
                    &&& exists|quotes: Seq<(Option<u64>, Option<u64>)>| #[trigger]
                        driven(before.book(), after.book(), events_of(all.take(count)), quotes)
                },
                Err(reason) => exists|held: int, quotes: Seq<(Option<u64>, Option<u64>)>| #[trigger]
                    halted(
                        before.book(),
                        after.book(),
                        events_of(all.take(count)),
                        quotes,
                        held,
                        reason,
                    ),
            }
        },
    }
}

/// The count of records with the time of the first is one more than the
/// count in what follows the first.
proof fn lemma_same_time_counts(rows: Seq<Seq<u64>>, time: u64, taken: int)
    requires
        rows.len() >= 1,
        taken == 1,
        rows[0][1] == time,
    ensures
        same_time(rows, time) == 1 + same_time(rows.skip(1), time),
{
    assert(rows.drop_first() =~= rows.skip(1));
}

/// Whether a snapshot of the volumes shows a book to the given depth.
pub open spec fn volumes_shown(
    summary: Summary<u64>,
    book: NyseOrderBook,
    depth: OrderbookDepth,
) -> bool {
    let asks = book.book().asks();
    let bids = book.book().bids();
    match depth {
        OrderbookDepth::Level(level) => {
            &&& summary.ask@ == volumes_of(first_of(price_list(Side::Ask, asks), level as nat), asks)
            &&& summary.bid@ == volumes_of(first_of(price_list(Side::Bid, bids), level as nat), bids)
        },
        OrderbookDepth::Spread(spread) => {
            let limits = spread_limits(book.best_ask(), book.best_bid(), spread);
            &&& summary.ask@ == volumes_of(
                leading(Side::Ask, price_list(Side::Ask, asks), limit_of(limits.0)),
                asks,
            )
            &&& summary.bid@ == volumes_of(
                leading(Side::Bid, price_list(Side::Bid, bids), limit_of(limits.1)),
                bids,
            )
        },
    }
}

/// Whether a snapshot of the queues shows a book to the given depth.
pub open spec fn queues_shown(
    snapshot: Summary<Vec<IdTimeQuantity>>,
    book: NyseOrderBook,
    depth: OrderbookDepth,
) -> bool {
    let asks = book.book().asks();
    let bids = book.book().bids();
    let orders = book.book().orders();
    match depth {
        OrderbookDepth::Level(level) => {
            &&& snapshot_of(
                snapshot.ask@,
                asks,
                orders,
                first_of(price_list(Side::Ask, asks), level as nat),
            )
            &&& snapshot_of(
                snapshot.bid@,
                bids,
                orders,
                first_of(price_list(Side::Bid, bids), level as nat),
            )
        },
        OrderbookDepth::Spread(spread) => {
            let limits = spread_limits(book.best_ask(), book.best_bid(), spread);
            &&& snapshot_of(
                snapshot.ask@,
                asks,
                orders,
                leading(Side::Ask, price_list(Side::Ask, asks), limit_of(limits.0)),
            )
            &&& snapshot_of(
                snapshot.bid@,
                bids,
                orders,
                leading(Side::Bid, price_list(Side::Bid, bids), limit_of(limits.1)),
            )
        },
    }
}

/// Whether a snapshot of the queues to the given depth takes a book from
/// `before` to `after`: the queues that it shows lose the ids that belong
/// to no order of the book, and nothing else changes.
pub open spec fn swept_by_snapshot(
    before: NyseOrderBook,
    after: NyseOrderBook,
    depth: OrderbookDepth,
) -> bool {
    let asks = before.book().asks();
    let bids = before.book().bids();
    let orders = before.book().orders();
    &&& after.wf()
    &&& after.validating() == before.validating()
    &&& after.max_ref() == before.max_ref()
    &&& after.book().orders() == orders
    &&& match depth {
        OrderbookDepth::Level(level) => {
            &&& after.book().asks() == walked(
                asks,
                orders,
                first_of(price_list(Side::Ask, asks), level as nat),
            )
            &&& after.book().bids() == walked(
                bids,
                orders,
                first_of(price_list(Side::Bid, bids), level as nat),
            )
        },
        OrderbookDepth::Spread(spread) => {
            let limits = spread_limits(before.best_ask(), before.best_bid(), spread);
            &&& after.book().asks() == walked(
                asks,
                orders,
                leading(Side::Ask, price_list(Side::Ask, asks), limit_of(limits.0)),
            )
            &&& after.book().bids() == walked(
                bids,
                orders,
                leading(Side::Bid, price_list(Side::Bid, bids), limit_of(limits.1)),
            )
        },
    }
}

/// Whether the limits of a spread around the best prices of a book fit the machine.
pub open spec fn depth_fits(book: NyseOrderBook, depth: OrderbookDepth) -> bool {
    match depth {
        OrderbookDepth::Level(_) => true,
        OrderbookDepth::Spread(spread) => spread_fits(book.best_ask(), book.best_bid(), spread),
    }
}

/// The volumes of a book to the given depth, or nothing where the limits of
/// the spread do not fit the machine.
pub fn volume_snapshot(book: &mut NyseOrderBook, depth: &OrderbookDepth) -> (summary: Option<Summary<u64>>)
    requires
        old(book).wf(),
    ensures
        *final(book) == *old(book),
        summary is Some <==> depth_fits(*old(book), *depth),
        summary matches Some(s) ==> volumes_shown(s, *old(book), *depth),
{
    match depth {
        OrderbookDepth::Level(l) => Some(book.level_summary(*l)),
        OrderbookDepth::Spread(s) => {
            let (ask, bid) = book.bbo();
            if checked_spread_limits(ask, bid, *s).is_none() {
                return None;
            }
            Some(book.spread_summary(*s))
        },
    }
}

/// The queues of a book to the given depth, or nothing where the limits of
/// the spread do not fit the machine.
pub fn queue_snapshot(book: &mut NyseOrderBook, depth: &OrderbookDepth) -> (snapshot: Option<
    Summary<Vec<IdTimeQuantity>>,
>)
    requires
        old(book).wf(),
    ensures
        final(book).wf(),
        snapshot is Some <==> depth_fits(*old(book), *depth),
        snapshot is None ==> *final(book) == *old(book),
        snapshot matches Some(s) ==> queues_shown(s, *old(book), *depth) && swept_by_snapshot(
            *old(book),
            *final(book),
            *depth,
        ),
{
    match depth {
        OrderbookDepth::Level(l) => Some(book.level_snapshot(*l)),
        OrderbookDepth::Spread(s) => {
            let (ask, bid) = book.bbo();
            if checked_spread_limits(ask, bid, *s).is_none() {
                return None;
            }
            Some(book.spread_snapshot(*s))
        },
    }
}

/// Whether a snapshot of the queues to the given depth takes a replay from
/// `before` to `after`: the book is swept, and the records stay.
pub open spec fn snapshot_taken(
    before: TimeBasedReplay,
    after: TimeBasedReplay,
    depth: OrderbookDepth,
) -> bool {
    &&& depth_fits(before.book(), depth)
    &&& swept_by_snapshot(before.book(), after.book(), depth)
    &&& after.pending() == before.pending()
}

/// A replay that shows, with each step, the queues of the book as they
/// were before the step.
pub struct TimeBasedQueueReplay {
    inner: TimeBasedReplay,
    orderbook_depth: OrderbookDepth,
}

impl TimeBasedQueueReplay {
    /// The replay that does the steps.
    pub closed spec fn replay(&self) -> TimeBasedReplay {
        self.inner
    }

    /// How much of the book a snapshot shows.
    pub closed spec fn depth(&self) -> OrderbookDepth {
        self.orderbook_depth
    }

    pub fn new(messages: VecDeque<Vec<u64>>, orderbook_depth: OrderbookDepth) -> (replay: Self)
        requires
            all_records(record_rows(messages@)),
        ensures
            replay.replay().wf(),
            replay.replay().pending() == record_rows(messages@),
            replay.depth() == orderbook_depth,
    {
        let inner = TimeBasedReplay::new(messages);
        Self { inner, orderbook_depth }
    }

    /// Takes a snapshot of the queues and then lets the records of the next
    /// time change the book.
    ///
    /// Returns the time, the snapshot, the records, and whether they were the
    /// last; nothing where no record is left.
    pub fn step(&mut self) -> (stepped: Option<Result<QueueResult, ReplayError>>)
        requires
            old(self).replay().wf(),
        ensures
            final(self).replay().wf(),
            final(self).depth() == old(self).depth(),
            match stepped {
                Some(Err(ReplayError::Spread)) => !depth_fits(
                    old(self).replay().book(),
                    old(self).depth(),
                ) && final(self).replay() == old(self).replay(),
                None => exists|mid: TimeBasedReplay| #[trigger]
                    snapshot_taken(old(self).replay(), mid, old(self).depth()) && took_step(
                        mid,
                        final(self).replay(),
                        None,
                    ),
                Some(Err(ReplayError::Book(reason))) => exists|mid: TimeBasedReplay| #[trigger]
                    snapshot_taken(old(self).replay(), mid, old(self).depth()) && took_step(
                        mid,
                        final(self).replay(),
                        Some(Err(reason)),
                    ),
                Some(Ok(step)) => queues_shown(step.1, old(self).replay().book(), old(self).depth())
                    && exists|mid: TimeBasedReplay| #[trigger]
                    snapshot_taken(old(self).replay(), mid, old(self).depth()) && took_step(
                        mid,
                        final(self).replay(),
                        Some(Ok((step.0, record_rows(step.2@), step.3))),
                    ),
            },
    {
        let snapshot = match queue_snapshot(&mut self.inner.book.inner, &self.orderbook_depth) {
            Some(snapshot) => snapshot,
            None => {
                return Some(Err(ReplayError::Spread));
            },
        };
        proof {
            assert(snapshot_taken(old(self).replay(), self.replay(), self.depth()));
        }
        match self.inner.step() {
            None => None,
            Some(Err(e)) => Some(Err(ReplayError::Book(e))),
            Some(Ok((time, records, done))) => Some(Ok((time, snapshot, records, done))),
        }
    }
}

/// A replay that shows, with each step, the volumes of the book.
pub struct TimeBasedVolumeReplay {
    inner: TimeBasedReplay,
    orderbook_depth: OrderbookDepth,
}

impl TimeBasedVolumeReplay {
    /// The replay that does the steps.
    pub closed spec fn replay(&self) -> TimeBasedReplay {
        self.inner
    }

    /// How much of the book a snapshot shows.
    pub closed spec fn depth(&self) -> OrderbookDepth {
        self.orderbook_depth
    }

    pub fn new(messages: VecDeque<Vec<u64>>, orderbook_depth: OrderbookDepth) -> (replay: Self)
        requires
            all_records(record_rows(messages@)),
        ensures
            replay.replay().wf(),
            replay.replay().pending() == record_rows(messages@),
            replay.depth() == orderbook_depth,
    {
        let inner = TimeBasedReplay::new(messages);
        Self { inner, orderbook_depth }
    }

    /// Takes a snapshot of the volumes and then lets the records of the
    /// next time change the book: the snapshot shows the book before them.
    pub fn step(&mut self) -> (stepped: Option<Result<VolumeResult, ReplayError>>)
        requires
            old(self).replay().wf(),
        ensures
            final(self).replay().wf(),
            final(self).depth() == old(self).depth(),
            match stepped {
                Some(Err(ReplayError::Spread)) => !depth_fits(
                    old(self).replay().book(),
                    old(self).depth(),
                ) && final(self).replay() == old(self).replay(),
                None => depth_fits(old(self).replay().book(), old(self).depth()) && took_step(
                    old(self).replay(),
                    final(self).replay(),
                    None,
                ),
                Some(Err(ReplayError::Book(reason))) => depth_fits(
                    old(self).replay().book(),
                    old(self).depth(),
                ) && took_step(old(self).replay(), final(self).replay(), Some(Err(reason))),
                Some(Ok(step)) => depth_fits(old(self).replay().book(), old(self).depth())
                    && volumes_shown(step.1, old(self).replay().book(), old(self).depth())
                    && took_step(
                    old(self).replay(),
                    final(self).replay(),
                    Some(Ok((step.0, record_rows(step.2@), step.3))),
                ),
            },
    {
        let summary = match volume_snapshot(&mut self.inner.book.inner, &self.orderbook_depth) {
            Some(summary) => summary,
            None => {
                return Some(Err(ReplayError::Spread));
            },
        };
        match self.inner.step() {
            None => None,
            Some(Err(e)) => Some(Err(ReplayError::Book(e))),
            Some(Ok((time, records, done))) => Some(Ok((time, summary, records, done))),
        }
    }

    /// Lets the records of the next time change the book and then takes a
    /// snapshot of the volumes: the snapshot shows the book after them.
    pub fn step_full(&mut self) -> (stepped: Option<Result<VolumeResult, ReplayError>>)
        requires
            old(self).replay().wf(),
        ensures
            final(self).replay().wf(),
            final(self).depth() == old(self).depth(),
            match stepped {
                None => took_step(old(self).replay(), final(self).replay(), None),
                Some(Err(ReplayError::Book(reason))) => took_step(
                    old(self).replay(),
                    final(self).replay(),
                    Some(Err(reason)),
                ),
                Some(Err(ReplayError::Spread)) => !depth_fits(
                    final(self).replay().book(),
                    old(self).depth(),
                ) && exists|time: u64, records: Seq<Seq<u64>>, done: bool| #[trigger]
                    took_step(
                        old(self).replay(),
                        final(self).replay(),
                        Some(Ok((time, records, done))),
                    ),
                Some(Ok(step)) => depth_fits(final(self).replay().book(), old(self).depth())
                    && volumes_shown(step.1, final(self).replay().book(), old(self).depth())
                    && took_step(
                    old(self).replay(),
                    final(self).replay(),
                    Some(Ok((step.0, record_rows(step.2@), step.3))),
                ),
            },
    {
        match self.inner.step() {
            None => None,
            Some(Err(e)) => Some(Err(ReplayError::Book(e))),
            Some(Ok((time, records, done))) => {
                match volume_snapshot(&mut self.inner.book.inner, &self.orderbook_depth) {
                    Some(summary) => Some(Ok((time, summary, records, done))),
                    None => Some(Err(ReplayError::Spread)),
                }
            },
        }
    }
}

} // verus!
