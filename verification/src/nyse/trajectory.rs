//! The book as it was a little before chosen events of a day.
use vstd::prelude::*;
use crate::nasdaq::replay::{
    depth_fits, queue_snapshot, queues_shown, record_rows, swept_by_snapshot, OrderbookDepth,
};
use crate::nyse::book::{
    accepted, checked_spread_limits, driven, fresh, halted, lemma_driven_further, refused, stops,
    HandleError, IdTimeQuantity, Message, NyseOrderBook, Summary,
};
use crate::nyse::data::{check_record, events_of, is_record};

verus! {

/// Why a trajectory could not be compiled.
#[derive(PartialEq, Eq, Debug, Clone, Copy, Structural)]
pub enum TrajectoryError {
    /// The numbers at this index are no record of an event.
    BadRecord(usize),
    /// The event at this place of the chosen ones is none of the day's.
    NoSuchEvent(usize),
    /// The latency at this place reaches back before the start of time.
    BeforeTime(usize),
    /// The book refuses the event at this index.
    Book(usize, HandleError),
    /// The limits of the spread around the best prices are no numbers that
    /// the machine can hold.
    Spread,
    /// The chosen events do not come in the order of the day, and the
    /// moment of the last one is the end of the day.
    PastTheEnd,
}

/// Whether an event at one time comes before another time: no later, or
/// earlier.
pub open spec fn comes_before(time: u64, other: u64, inclusive: bool) -> bool {
    if inclusive {
        time <= other
    } else {
        time < other
    }
}

/// The time of the event of a record.
pub open spec fn time_of(row: Seq<u64>) -> u64 {
    row[1]
}

/// How many events of the day, counted from the first, the book has to take
/// to show how it was at a time: all up to the last one, among the first
/// `upto`, that comes before the time.
pub open spec fn events_before(rows: Seq<Seq<u64>>, upto: int, time: u64, inclusive: bool) -> int
    decreases upto,
{
    if upto <= 0 {
        0
    } else if comes_before(time_of(rows[upto - 1]), time, inclusive) {
        upto
    } else {
        events_before(rows, upto - 1, time, inclusive)
    }
}

/// How many events the book has to take to show how it was so long before
/// a chosen event.
pub open spec fn target_of(rows: Seq<Seq<u64>>, index: usize, latency: u64, inclusive: bool) -> int {
    events_before(rows, index + 1, (time_of(rows[index as int]) - latency) as u64, inclusive)
}

/// Whether all of them are records of events.
pub open spec fn all_records(rows: Seq<Seq<u64>>) -> bool {
    forall|i: int| 0 <= i < rows.len() ==> is_record(#[trigger] rows[i])
}

/// How many events the book has to take to show how it was at a time.
fn events_before_index(actions: &Vec<Vec<u64>>, index: usize, time: u64, inclusive: bool) -> (count: usize)
    requires
        index < actions@.len(),
        all_records(record_rows(actions@)),
    ensures
        count == events_before(record_rows(actions@), index + 1, time, inclusive),
        count <= index + 1,
{
    let ghost rows = record_rows(actions@);
    let all: usize = actions.len();
    let mut upto: usize = index + 1;
    while upto > 0
        invariant
            upto <= index + 1,
            index < actions@.len(),
            rows == record_rows(actions@),
            all_records(rows),
            events_before(rows, index + 1, time, inclusive) == events_before(
                rows,
                upto as int,
                time,
                inclusive,
            ),
        decreases upto,
    {
        proof {
            assert(is_record(rows[upto - 1]));
            assert(rows[upto - 1] == actions@[upto - 1]@);
        }
        let at: u64 = actions[upto - 1][1];
        let before = if inclusive {
            at <= time
        } else {
            at < time
        };
        if before {
            return upto;
        }
        upto -= 1;
    }
    0
}

/// Lets the events of the records from one index to another change the book.
fn advance(book: &mut NyseOrderBook, actions: &Vec<Vec<u64>>, from: usize, to: usize) -> (result:
    Result<(), TrajectoryError>)
    requires
        old(book).wf(),
        from <= to <= actions@.len(),
        all_records(record_rows(actions@)),
    ensures
        final(book).wf(),
        final(book).validating() == old(book).validating(),
        result is Ok ==> exists|quotes: Seq<(Option<u64>, Option<u64>)>| #[trigger]
            driven(
                *old(book),
                *final(book),
                events_of(record_rows(actions@)).subrange(from as int, to as int),
                quotes,
            ),
        result matches Err(e) ==> e matches TrajectoryError::Book(at, reason) && from <= at < to
            && stops(
            *old(book),
            *final(book),
            events_of(record_rows(actions@)).subrange(from as int, to as int),
            at - from,
            reason,
        ),
{
    let ghost events = events_of(record_rows(actions@));
    let ghost mut quotes: Seq<(Option<u64>, Option<u64>)> = Seq::empty();
    let mut i: usize = from;
    proof {
        assert(events.subrange(from as int, from as int) =~= Seq::<Message>::empty());
    }
    while i < to
        invariant
            from <= i <= to <= actions@.len(),
            events == events_of(record_rows(actions@)),
            all_records(record_rows(actions@)),
            book.wf(),
            book.validating() == old(book).validating(),
            driven(*old(book), *book, events.subrange(from as int, i as int), quotes),
        decreases to - i,
    {
        proof {
            assert(is_record(record_rows(actions@)[i as int]));
            assert(record_rows(actions@)[i as int] == actions@[i as int]@);
        }
        let message = Message::from_record(actions[i].as_slice());
        let ghost before = *book;
        match book.handle(&message) {
            Ok(_) => {},
            Err(e) => {
                proof {
                    let part = events.subrange(from as int, to as int);
                    assert(part[i - from] == message);
                    assert(part.take(i - from) =~= events.subrange(from as int, i as int));
                    assert(refused(before, *book, part[i - from], e));
                    assert(halted(*old(book), *book, part, quotes, i - from, e));
                    assert(stops(*old(book), *book, part, i - from, e));
                }
                return Err(TrajectoryError::Book(i, e));
            },
        }
        proof {
            assert(accepted(before, *book, message));
            lemma_driven_further(
                *old(book),
                before,
                *book,
                events.subrange(from as int, i as int),
                quotes,
                message,
            );
            assert(events.subrange(from as int, i as int).push(message) =~= events.subrange(
                from as int,
                i + 1,
            ));
            quotes = quotes.push((book.best_ask(), book.best_bid()));
        }
        i += 1;
    }
    Ok(())
}

/// Whether a chosen event is one of the day, its latency reaches back no
/// further than the day, and the target is the number of events that the
/// book has to take for it.
pub open spec fn aimed(
    rows: Seq<Seq<u64>>,
    index: usize,
    latency: u64,
    inclusive: bool,
    target: usize,
) -> bool {
    &&& index < rows.len()
    &&& latency <= time_of(rows[index as int])
    &&& target == target_of(rows, index, latency, inclusive)
    &&& target <= rows.len()
}

/// Whether all of them are records of events: the index of the first that
/// is none, if there is one.
fn first_bad_record(actions: &Vec<Vec<u64>>) -> (bad: Option<usize>)
    ensures
        match bad {
            Some(i) => i < actions@.len() && !is_record(record_rows(actions@)[i as int]) && forall|
                j: int,
            | 0 <= j < i ==> is_record(#[trigger] record_rows(actions@)[j]),
            None => all_records(record_rows(actions@)),
        },
{
    let mut i: usize = 0;
    while i < actions.len()
        invariant
            i <= actions@.len(),
            forall|j: int| 0 <= j < i ==> is_record(#[trigger] record_rows(actions@)[j]),
        decreases actions@.len() - i,
    {
        proof {
            assert(record_rows(actions@)[i as int] == actions@[i as int]@);
        }
        if !check_record(actions[i].as_slice()) {
            return Some(i);
        }
        i += 1;
    }
    None
}

/// Whether an entry of a trajectory shows the volumes of the book as it
/// was after the first `target` events of the day.
pub open spec fn volumes_at(
    rows: Seq<Seq<u64>>,
    target: int,
    with_validation: bool,
    depth: OrderbookDepth,
    summary: Summary<u64>,
) -> bool {
    exists|book: NyseOrderBook, start: NyseOrderBook, quotes: Seq<(Option<u64>, Option<u64>)>|
        {
            &&& fresh(start, with_validation)
            &&& #[trigger] driven(start, book, events_of(rows).take(target), quotes)
            &&& crate::nasdaq::replay::volumes_shown(summary, book, depth)
        }
}

/// How many events the book has to take for the chosen event at place `k`.
pub open spec fn target_at(
    rows: Seq<Seq<u64>>,
    indices: Seq<usize>,
    latencies: Seq<u64>,
    inclusive: bool,
    k: int,
) -> int {
    target_of(rows, indices[k], latencies[k], inclusive)
}

/// Whether each of the first `count` chosen events is one of the day, with
/// a latency that reaches back no further than the day.
pub open spec fn all_aimed(
    rows: Seq<Seq<u64>>,
    indices: Seq<usize>,
    latencies: Seq<u64>,
    count: int,
) -> bool {
    forall|k: int|
        0 <= k < count ==> (#[trigger] indices[k]) < rows.len() && latencies[k] <= time_of(
            rows[indices[k] as int],
        )
}

/// Whether the moments of the first `count` chosen events come in the
/// order of the day.
pub open spec fn in_turn(
    rows: Seq<Seq<u64>>,
    indices: Seq<usize>,
    latencies: Seq<u64>,
    inclusive: bool,
    count: int,
) -> bool {
    forall|k: int|
        0 < k < count ==> target_at(rows, indices, latencies, inclusive, k - 1) <= #[trigger] target_at(
            rows,
            indices,
            latencies,
            inclusive,
            k,
        )
}

/// Whether the moment of one of the first `count` chosen events, not the
/// first, comes before the moment of the one before it.
pub open spec fn turns_back(
    rows: Seq<Seq<u64>>,
    indices: Seq<usize>,
    latencies: Seq<u64>,
    inclusive: bool,
    count: int,
) -> bool {
    exists|k: int|
        0 < k < count && #[trigger] target_at(rows, indices, latencies, inclusive, k) < target_at(
            rows,
            indices,
            latencies,
            inclusive,
            k - 1,
        )
}

/// Whether a new book takes the events of the day before the one at `at`
/// and refuses that one for the given reason.
pub open spec fn refused_at(
    rows: Seq<Seq<u64>>,
    with_validation: bool,
    at: int,
    reason: HandleError,
) -> bool {
    exists|book: NyseOrderBook, start: NyseOrderBook|
        fresh(start, with_validation) && #[trigger] stops(
            start,
            book,
            events_of(rows),
            at,
            reason,
        )
}

/// Whether the book, after the first `target` events of the day, has best
/// prices around which the limits of the spread are no numbers that the
/// machine can hold.
pub open spec fn hidden_at(
    rows: Seq<Seq<u64>>,
    target: int,
    with_validation: bool,
    depth: OrderbookDepth,
) -> bool {
    exists|book: NyseOrderBook, start: NyseOrderBook, quotes: Seq<(Option<u64>, Option<u64>)>|
        {
            &&& fresh(start, with_validation)
            &&& #[trigger] driven(start, book, events_of(rows).take(target), quotes)
            &&& !depth_fits(book, depth)
        }
}

/// Whether the book cannot be shown at the moment of one of the first
/// `count` chosen events.
pub open spec fn hidden_once(
    rows: Seq<Seq<u64>>,
    indices: Seq<usize>,
    latencies: Seq<u64>,
    inclusive: bool,
    count: int,
    with_validation: bool,
    depth: OrderbookDepth,
) -> bool {
    exists|k: int|
        0 <= k < count && #[trigger] hidden_at(
            rows,
            target_at(rows, indices, latencies, inclusive, k),
            with_validation,
            depth,
        )
}

/// Whether a trajectory shows the book at the moments of the first chosen
/// events, as many as it has entries.
pub open spec fn shows(
    trajectory: Seq<(usize, u64, Summary<u64>)>,
    rows: Seq<Seq<u64>>,
    indices: Seq<usize>,
    latencies: Seq<u64>,
    inclusive: bool,
    with_validation: bool,
    depth: OrderbookDepth,
) -> bool {
    forall|j: int|
        0 <= j < trajectory.len() ==> {
            &&& (#[trigger] trajectory[j]).0 == indices[j]
            &&& trajectory[j].1 == latencies[j]
            &&& volumes_at(
                rows,
                target_at(rows, indices, latencies, inclusive, j),
                with_validation,
                depth,
                trajectory[j].2,
            )
        }
}

/// The smaller of two lengths.
pub open spec fn shorter(a: int, b: int) -> int {
    if a <= b {
        a
    } else {
        b
    }
}

/// The volumes of the book as it was a little before each of the chosen
/// events of a day.
///
/// For each chosen event, by its index among the records, and the latency
/// that goes with it, the book takes the events of the day up to the last
/// one that came before the time of the chosen event less the latency, and
/// among the events up to the chosen one. Each entry holds the index, the
/// latency and the volumes that the book then shows. There are as many
/// chosen events as there are indices with a latency.
///
/// The chosen events are meant to come in the order of the day. The
/// trajectory ends before the first whose moment the book has passed
/// already; the book then still takes the events up to and with the one at
/// the moment of the last chosen event, if it has not, and a refusal among
/// them fails the whole.
pub fn compile_trajectory_with_volume(
    actions: &Vec<Vec<u64>>,
    indices: &Vec<usize>,
    latencies: &Vec<u64>,
    depth: OrderbookDepth,
    with_validation: bool,
    is_inclusive: bool,
) -> (result: Result<Vec<(usize, u64, Summary<u64>)>, TrajectoryError>)
    ensures
        ({
            let rows = record_rows(actions@);
            let count = shorter(indices@.len() as int, latencies@.len() as int);
            match result {
                Ok(trajectory) => indices@.len() == 0 && trajectory@.len() == 0 || {
                    let shown = trajectory@.len() as int;
                    &&& indices@.len() > 0
                    &&& all_records(rows)
                    &&& all_aimed(rows, indices@, latencies@, count)
                    &&& shown <= count
                    &&& count > 0 ==> shown > 0
                    &&& in_turn(rows, indices@, latencies@, is_inclusive, shown)
                    &&& shown < count ==> target_at(
                        rows,
                        indices@,
                        latencies@,
                        is_inclusive,
                        shown,
                    ) < target_at(rows, indices@, latencies@, is_inclusive, shown - 1)
                    &&& shows(
                        trajectory@,
                        rows,
                        indices@,
                        latencies@,
                        is_inclusive,
                        with_validation,
                        depth,
                    )
                },
                Err(TrajectoryError::BadRecord(i)) => {
                    &&& indices@.len() > 0
                    &&& i < rows.len()
                    &&& !is_record(rows[i as int])
                    &&& forall|j: int| 0 <= j < i ==> is_record(#[trigger] rows[j])
                },
                Err(TrajectoryError::NoSuchEvent(j)) => {
                    &&& all_records(rows)
                    &&& j < count
                    &&& all_aimed(rows, indices@, latencies@, j as int)
                    &&& indices@[j as int] >= rows.len()
                },
                Err(TrajectoryError::BeforeTime(j)) => {
                    &&& all_records(rows)
                    &&& j < count
                    &&& all_aimed(rows, indices@, latencies@, j as int)
                    &&& indices@[j as int] < rows.len()
                    &&& latencies@[j as int] > time_of(rows[indices@[j as int] as int])
                },
                Err(TrajectoryError::Book(at, reason)) => {
                    &&& all_records(rows)
                    &&& all_aimed(rows, indices@, latencies@, count)
                    &&& refused_at(rows, with_validation, at as int, reason)
                },
                Err(TrajectoryError::Spread) => {
                    &&& all_records(rows)
                    &&& all_aimed(rows, indices@, latencies@, count)
                    &&& hidden_once(
                        rows,
                        indices@,
                        latencies@,
                        is_inclusive,
                        count,
                        with_validation,
                        depth,
                    )
                },
                Err(TrajectoryError::PastTheEnd) => {
                    &&& all_records(rows)
                    &&& all_aimed(rows, indices@, latencies@, count)
                    &&& turns_back(rows, indices@, latencies@, is_inclusive, count)
                    &&& target_at(rows, indices@, latencies@, is_inclusive, count - 1) == rows.len()
                },
            }
        }),
{
    let mut trajectory: Vec<(usize, u64, Summary<u64>)> = Vec::new();
    if indices.len() == 0 {
        return Ok(trajectory);
    }
    match first_bad_record(actions) {
        Some(i) => {
            return Err(TrajectoryError::BadRecord(i));
        },
        None => {},
    }
    let ghost rows = record_rows(actions@);
    let targets = aim_all(actions, indices, latencies, is_inclusive)?;
    let count: usize = targets.len();
    let last: usize = if count == 0 {
        return Ok(trajectory);
    } else {
        targets[count - 1]
    };
    let mut book = NyseOrderBook::new(with_validation);
    let ghost start = book;
    let ghost events = events_of(rows);
    let ghost mut quotes: Seq<(Option<u64>, Option<u64>)> = Seq::empty();
    let mut taken: usize = 0;
    let mut k: usize = 0;
    proof {
        assert(events.take(0) =~= Seq::<Message>::empty());
    }
    while k < count
        invariant
            k <= count,
            0 < count == shorter(indices@.len() as int, latencies@.len() as int),
            rows == record_rows(actions@),
            events == events_of(rows),
            all_records(rows),
            all_aimed(rows, indices@, latencies@, count as int),
            targets@.len() == count,
            last == targets@[count - 1],
            forall|n: int|
                0 <= n < count ==> (#[trigger] targets@[n]) == target_at(
                    rows,
                    indices@,
                    latencies@,
                    is_inclusive,
                    n,
                ) && targets@[n] <= rows.len(),
            fresh(start, with_validation),
            book.wf(),
            taken <= rows.len(),
            taken == if k == 0 {
                0
            } else {
                targets@[k - 1] as int
            },
            driven(start, book, events.take(taken as int), quotes),
            trajectory@.len() == k,
            in_turn(rows, indices@, latencies@, is_inclusive, k as int),
            shows(
                trajectory@,
                rows,
                indices@,
                latencies@,
                is_inclusive,
                with_validation,
                depth,
            ),
        decreases count - k,
    {
        let target: usize = targets[k];
        if target < taken {
            // the book has passed the moment: it goes on to the last moment and stops
            if taken <= last {
                let ghost before = book;
                match advance(&mut book, actions, taken, last) {
                    Ok(_) => {},
                    Err(e) => {
                        proof {
                            lemma_stops_later(
                                start,
                                before,
                                book,
                                events,
                                quotes,
                                taken as int,
                                last as int,
                                e->Book_0 as int,
                                e->Book_1,
                            );
                        }
                        return Err(e);
                    },
                }
                if last >= actions.len() {
                    proof {
                        assert(target_at(rows, indices@, latencies@, is_inclusive, k as int)
                            < target_at(rows, indices@, latencies@, is_inclusive, k - 1));
                    }
                    return Err(TrajectoryError::PastTheEnd);
                }
                proof {
                    assert(is_record(rows[last as int]));
                    assert(rows[last as int] == actions@[last as int]@);
                    let more = choose|more: Seq<(Option<u64>, Option<u64>)>| #[trigger]
                        driven(before, book, events.subrange(taken as int, last as int), more);
                    lemma_driven_on(
                        start,
                        before,
                        book,
                        events.take(taken as int),
                        quotes,
                        events.subrange(taken as int, last as int),
                        more,
                    );
                    assert(events.take(taken as int) + events.subrange(taken as int, last as int)
                        =~= events.take(last as int));
                    quotes = quotes + more;
                }
                let message = Message::from_record(actions[last].as_slice());
                let ghost reached = book;
                match book.handle(&message) {
                    Ok(_) => {},
                    Err(e) => {
                        proof {
                            assert(events[last as int] == message);
                            assert(refused(reached, book, events[last as int], e));
                            assert(halted(start, book, events, quotes, last as int, e));
                            assert(stops(start, book, events, last as int, e));
                        }
                        return Err(TrajectoryError::Book(last, e));
                    },
                }
            }
            return Ok(trajectory);
        }
        let ghost before = book;
        match advance(&mut book, actions, taken, target) {
            Ok(_) => {},
            Err(e) => {
                proof {
                    lemma_stops_later(
                        start,
                        before,
                        book,
                        events,
                        quotes,
                        taken as int,
                        target as int,
                        e->Book_0 as int,
                        e->Book_1,
                    );
                }
                return Err(e);
            },
        }
        proof {
            let more = choose|more: Seq<(Option<u64>, Option<u64>)>| #[trigger]
                driven(before, book, events.subrange(taken as int, target as int), more);
            lemma_driven_on(
                start,
                before,
                book,
                events.take(taken as int),
                quotes,
                events.subrange(taken as int, target as int),
                more,
            );
            assert(events.take(taken as int) + events.subrange(taken as int, target as int)
                =~= events.take(target as int));
            quotes = quotes + more;
        }
        taken = target;
        let summary = match depth {
            OrderbookDepth::Level(l) => book.level_summary(l),
            OrderbookDepth::Spread(s) => {
                let (ask, bid) = book.bbo();
                if checked_spread_limits(ask, bid, s).is_none() {
                    proof {
                        assert(hidden_at(rows, target as int, with_validation, depth));
                        assert(hidden_once(
                            rows,
                            indices@,
                            latencies@,
                            is_inclusive,
                            count as int,
                            with_validation,
                            depth,
                        ));
                    }
                    return Err(TrajectoryError::Spread);
                }
                book.spread_summary(s)
            },
        };
        let ghost earlier = trajectory@;
        trajectory.push((indices[k], latencies[k], summary));
        proof {
            assert(volumes_at(rows, target as int, with_validation, depth, summary));
            assert forall|n: int| 0 <= n < trajectory@.len() implies {
                &&& (#[trigger] trajectory@[n]).0 == indices@[n]
                &&& trajectory@[n].1 == latencies@[n]
                &&& volumes_at(
                    rows,
                    target_at(rows, indices@, latencies@, is_inclusive, n),
                    with_validation,
                    depth,
                    trajectory@[n].2,
                )
            } by {
                if n < k {
                    assert(trajectory@[n] == earlier[n]);
                }
            }
        }
        k += 1;
    }
    Ok(trajectory)
}

/// A book that has taken events and then stops among more of them stops
/// among all of them.
proof fn lemma_stops_later(
    start: NyseOrderBook,
    mid: NyseOrderBook,
    after: NyseOrderBook,
    events: Seq<Message>,
    quotes: Seq<(Option<u64>, Option<u64>)>,
    from: int,
    to: int,
    at: int,
    reason: HandleError,
)
    requires
        0 <= from <= at < to <= events.len(),
        driven(start, mid, events.take(from), quotes),
        stops(mid, after, events.subrange(from, to), at - from, reason),
    ensures
        stops(start, after, events, at, reason),
{
    let part = events.subrange(from, to);
    let more = choose|more: Seq<(Option<u64>, Option<u64>)>| #[trigger]
        halted(mid, after, part, more, at - from, reason);
    let held = choose|held: NyseOrderBook| #[trigger]
        driven(mid, held, part.take(at - from), more) && refused(
            held,
            after,
            part[at - from],
            reason,
        );
    lemma_driven_on(start, mid, held, events.take(from), quotes, part.take(at - from), more);
    assert(events.take(from) + part.take(at - from) =~= events.take(at));
    assert(part[at - from] == events[at]);
    assert(halted(start, after, events, quotes + more, at, reason));
}

/// The number of events that the book has taken when it has been shown
/// `shown` times.
pub open spec fn taken_at(
    rows: Seq<Seq<u64>>,
    indices: Seq<usize>,
    latencies: Seq<u64>,
    inclusive: bool,
    shown: int,
) -> int {
    if shown <= 0 {
        0
    } else {
        target_at(rows, indices, latencies, inclusive, shown - 1)
    }
}

/// Whether a book is what a new book becomes when its queues have been
/// shown at the moments of the first `shown` chosen events: before each
/// showing it takes the events up to the moment, and each showing sweeps
/// the queues that it shows.
pub open spec fn reached(
    rows: Seq<Seq<u64>>,
    indices: Seq<usize>,
    latencies: Seq<u64>,
    inclusive: bool,
    with_validation: bool,
    depth: OrderbookDepth,
    shown: int,
    book: NyseOrderBook,
) -> bool
    decreases shown,
{
    if shown <= 0 {
        fresh(book, with_validation)
    } else {
        exists|prev: NyseOrderBook, before: NyseOrderBook|
            reached(rows, indices, latencies, inclusive, with_validation, depth, shown - 1, prev)
                && #[trigger] moved(
                prev,
                before,
                events_of(rows),
                taken_at(rows, indices, latencies, inclusive, shown - 1),
                taken_at(rows, indices, latencies, inclusive, shown),
            ) && depth_fits(before, depth) && #[trigger] swept_by_snapshot(before, book, depth)
    }
}

/// Whether a book takes the events from one index to another and goes from
/// `before` to `after` with them.
pub open spec fn moved(
    before: NyseOrderBook,
    after: NyseOrderBook,
    events: Seq<Message>,
    from: int,
    to: int,
) -> bool {
    exists|quotes: Seq<(Option<u64>, Option<u64>)>| #[trigger]
        driven(before, after, events.subrange(from, to), quotes)
}

/// Whether a snapshot shows the queues of the book at the moment of the
/// chosen event at place `k`, after the queues have been shown at the
/// moments of the chosen events before it.
pub open spec fn queues_at(
    rows: Seq<Seq<u64>>,
    indices: Seq<usize>,
    latencies: Seq<u64>,
    inclusive: bool,
    with_validation: bool,
    depth: OrderbookDepth,
    k: int,
    snapshot: Summary<Vec<IdTimeQuantity>>,
) -> bool {
    exists|prev: NyseOrderBook, before: NyseOrderBook|
        reached(rows, indices, latencies, inclusive, with_validation, depth, k, prev)
            && #[trigger] moved(
            prev,
            before,
            events_of(rows),
            taken_at(rows, indices, latencies, inclusive, k),
            taken_at(rows, indices, latencies, inclusive, k + 1),
        ) && #[trigger] queues_shown(snapshot, before, depth)
}

/// Whether the queues of the book cannot be shown at the moment of one of
/// the first `count` chosen events, after they have been shown at the
/// moments of those before it.
pub open spec fn queues_hidden(
    rows: Seq<Seq<u64>>,
    indices: Seq<usize>,
    latencies: Seq<u64>,
    inclusive: bool,
    with_validation: bool,
    depth: OrderbookDepth,
    count: int,
) -> bool {
    exists|k: int, prev: NyseOrderBook, before: NyseOrderBook|
        0 <= k < count && reached(
            rows,
            indices,
            latencies,
            inclusive,
            with_validation,
            depth,
            k,
            prev,
        ) && #[trigger] moved(
            prev,
            before,
            events_of(rows),
            taken_at(rows, indices, latencies, inclusive, k),
            taken_at(rows, indices, latencies, inclusive, k + 1),
        ) && !depth_fits(before, depth)
}

/// Whether the book, after its queues have been shown at the moments of
/// some of the first chosen events, takes the events up to the one at `at`
/// and refuses that one for the given reason.
pub open spec fn refused_on_the_way(
    rows: Seq<Seq<u64>>,
    indices: Seq<usize>,
    latencies: Seq<u64>,
    inclusive: bool,
    with_validation: bool,
    depth: OrderbookDepth,
    count: int,
    at: int,
    reason: HandleError,
) -> bool {
    exists|k: int, prev: NyseOrderBook, after: NyseOrderBook|
        0 <= k <= count && reached(
            rows,
            indices,
            latencies,
            inclusive,
            with_validation,
            depth,
            k,
            prev,
        ) && taken_at(rows, indices, latencies, inclusive, k) <= at < rows.len() && #[trigger] stops(
            prev,
            after,
            events_of(rows).subrange(taken_at(rows, indices, latencies, inclusive, k), at + 1),
            at - taken_at(rows, indices, latencies, inclusive, k),
            reason,
        )
}

/// Whether a trajectory shows the queues of the book at the moments of the
/// first chosen events, as many as it has entries.
pub open spec fn shows_queues(
    trajectory: Seq<(usize, u64, Summary<Vec<IdTimeQuantity>>)>,
    rows: Seq<Seq<u64>>,
    indices: Seq<usize>,
    latencies: Seq<u64>,
    inclusive: bool,
    with_validation: bool,
    depth: OrderbookDepth,
) -> bool {
    forall|j: int|
        0 <= j < trajectory.len() ==> {
            &&& (#[trigger] trajectory[j]).0 == indices[j]
            &&& trajectory[j].1 == latencies[j]
            &&& queues_at(
                rows,
                indices,
                latencies,
                inclusive,
                with_validation,
                depth,
                j,
                trajectory[j].2,
            )
        }
}

/// How many events the book has to take for each of the chosen events.
fn aim_all(actions: &Vec<Vec<u64>>, indices: &Vec<usize>, latencies: &Vec<u64>, is_inclusive: bool) -> (targets:
    Result<Vec<usize>, TrajectoryError>)
    requires
        all_records(record_rows(actions@)),
    ensures
        ({
            let rows = record_rows(actions@);
            let count = shorter(indices@.len() as int, latencies@.len() as int);
            match targets {
                Ok(t) => {
                    &&& t@.len() == count
                    &&& all_aimed(rows, indices@, latencies@, count)
                    &&& forall|n: int|
                        0 <= n < count ==> (#[trigger] t@[n]) == target_at(
                            rows,
                            indices@,
                            latencies@,
                            is_inclusive,
                            n,
                        ) && t@[n] <= rows.len()
                },
                Err(e) => {
                    ||| e matches TrajectoryError::NoSuchEvent(j) && j < count && all_aimed(
                        rows,
                        indices@,
                        latencies@,
                        j as int,
                    ) && indices@[j as int] >= rows.len()
                    ||| e matches TrajectoryError::BeforeTime(j) && j < count && all_aimed(
                        rows,
                        indices@,
                        latencies@,
                        j as int,
                    ) && indices@[j as int] < rows.len() && latencies@[j as int] > time_of(
                        rows[indices@[j as int] as int],
                    )
                },
            }
        }),
{
    let ghost rows = record_rows(actions@);
    let count: usize = if indices.len() <= latencies.len() {
        indices.len()
    } else {
        latencies.len()
    };
    let mut targets: Vec<usize> = Vec::new();
    let mut j: usize = 0;
    while j < count
        invariant
            j <= count,
            count == shorter(indices@.len() as int, latencies@.len() as int),
            rows == record_rows(actions@),
            all_records(rows),
            targets@.len() == j,
            forall|k: int|
                0 <= k < j ==> #[trigger] aimed(
                    rows,
                    indices@[k],
                    latencies@[k],
                    is_inclusive,
                    targets@[k],
                ),
        decreases count - j,
    {
        let index: usize = indices[j];
        proof {
            assert forall|k: int| 0 <= k < j implies (#[trigger] indices@[k]) < rows.len()
                && latencies@[k] <= time_of(rows[indices@[k] as int]) by {
                assert(aimed(rows, indices@[k], latencies@[k], is_inclusive, targets@[k]));
            }
        }
        if index >= actions.len() {
            return Err(TrajectoryError::NoSuchEvent(j));
        }
        proof {
            assert(is_record(rows[index as int]));
            assert(rows[index as int] == actions@[index as int]@);
        }
        let time: u64 = actions[index][1];
        if latencies[j] > time {
            return Err(TrajectoryError::BeforeTime(j));
        }
        let target = events_before_index(actions, index, time - latencies[j], is_inclusive);
        let ghost before = targets@;
        targets.push(target);
        proof {
            assert forall|k: int| 0 <= k < j + 1 implies #[trigger] aimed(
                rows,
                indices@[k],
                latencies@[k],
                is_inclusive,
                targets@[k],
            ) by {
                if k < j {
                    assert(targets@[k] == before[k]);
                    assert(aimed(rows, indices@[k], latencies@[k], is_inclusive, before[k]));
                }
            }
        }
        j += 1;
    }
    proof {
        assert forall|k: int| 0 <= k < count implies (#[trigger] indices@[k]) < rows.len()
            && latencies@[k] <= time_of(rows[indices@[k] as int]) by {
            assert(aimed(rows, indices@[k], latencies@[k], is_inclusive, targets@[k]));
        }
        assert forall|k: int| 0 <= k < count implies (#[trigger] targets@[k]) == target_at(
            rows,
            indices@,
            latencies@,
            is_inclusive,
            k,
        ) && targets@[k] <= rows.len() by {
            assert(aimed(rows, indices@[k], latencies@[k], is_inclusive, targets@[k]));
        }
    }
    Ok(targets)
}

/// A book that stops among events stops among the first of them as well,
/// as long as the event that it refuses is one of these.
proof fn lemma_stops_sooner(
    before: NyseOrderBook,
    after: NyseOrderBook,
    events: Seq<Message>,
    upto: int,
    at: int,
    reason: HandleError,
)
    requires
        0 <= at < upto <= events.len(),
        stops(before, after, events, at, reason),
    ensures
        stops(before, after, events.take(upto), at, reason),
{
    let quotes = choose|quotes: Seq<(Option<u64>, Option<u64>)>| #[trigger]
        halted(before, after, events, quotes, at, reason);
    let held = choose|held: NyseOrderBook| #[trigger]
        driven(before, held, events.take(at), quotes) && refused(held, after, events[at], reason);
    assert(events.take(upto).take(at) =~= events.take(at));
    assert(events.take(upto)[at] == events[at]);
    assert(halted(before, after, events.take(upto), quotes, at, reason));
}

/// The queues of the book as they were a little before each of the chosen
/// events of a day.
///
/// For each chosen event, by its index among the records, and the latency
/// that goes with it, the book takes the events of the day up to the last
/// one that came before the time of the chosen event less the latency, and
/// among the events up to the chosen one. Each entry holds the index, the
/// latency and the queues that the book then shows; showing them sweeps
/// them. There are as many chosen events as there are indices with a
/// latency.
///
/// The chosen events are meant to come in the order of the day. The
/// trajectory ends before the first whose moment the book has passed
/// already; the book then still takes the events up to and with the one at
/// the moment of the last chosen event, if it has not, and a refusal among
/// them fails the whole.
pub fn compile_trajectory_with_queue(
    actions: &Vec<Vec<u64>>,
    indices: &Vec<usize>,
    latencies: &Vec<u64>,
    depth: OrderbookDepth,
    with_validation: bool,
    is_inclusive: bool,
) -> (result: Result<Vec<(usize, u64, Summary<Vec<IdTimeQuantity>>)>, TrajectoryError>)
    ensures
        ({
            let rows = record_rows(actions@);
            let count = shorter(indices@.len() as int, latencies@.len() as int);
            match result {
                Ok(trajectory) => indices@.len() == 0 && trajectory@.len() == 0 || {
                    let shown = trajectory@.len() as int;
                    &&& indices@.len() > 0
                    &&& all_records(rows)
                    &&& all_aimed(rows, indices@, latencies@, count)
                    &&& shown <= count
                    &&& count > 0 ==> shown > 0
                    &&& in_turn(rows, indices@, latencies@, is_inclusive, shown)
                    &&& shown < count ==> target_at(
                        rows,
                        indices@,
                        latencies@,
                        is_inclusive,
                        shown,
                    ) < target_at(rows, indices@, latencies@, is_inclusive, shown - 1)
                    &&& shows_queues(
                        trajectory@,
                        rows,
                        indices@,
                        latencies@,
                        is_inclusive,
                        with_validation,
                        depth,
                    )
                },
                Err(TrajectoryError::BadRecord(i)) => {
                    &&& indices@.len() > 0
                    &&& i < rows.len()
                    &&& !is_record(rows[i as int])
                    &&& forall|j: int| 0 <= j < i ==> is_record(#[trigger] rows[j])
                },
                Err(TrajectoryError::NoSuchEvent(j)) => {
                    &&& all_records(rows)
                    &&& j < count
                    &&& all_aimed(rows, indices@, latencies@, j as int)
                    &&& indices@[j as int] >= rows.len()
                },
                Err(TrajectoryError::BeforeTime(j)) => {
                    &&& all_records(rows)
                    &&& j < count
                    &&& all_aimed(rows, indices@, latencies@, j as int)
                    &&& indices@[j as int] < rows.len()
                    &&& latencies@[j as int] > time_of(rows[indices@[j as int] as int])
                },
                Err(TrajectoryError::Book(at, reason)) => {
                    &&& all_records(rows)
                    &&& all_aimed(rows, indices@, latencies@, count)
                    &&& refused_on_the_way(
                        rows,
                        indices@,
                        latencies@,
                        is_inclusive,
                        with_validation,
                        depth,
                        count,
                        at as int,
                        reason,
                    )
                },
                Err(TrajectoryError::Spread) => {
                    &&& all_records(rows)
                    &&& all_aimed(rows, indices@, latencies@, count)
                    &&& queues_hidden(
                        rows,
                        indices@,
                        latencies@,
                        is_inclusive,
                        with_validation,
                        depth,
                        count,
                    )
                },
                Err(TrajectoryError::PastTheEnd) => {
                    &&& all_records(rows)
                    &&& all_aimed(rows, indices@, latencies@, count)
                    &&& turns_back(rows, indices@, latencies@, is_inclusive, count)
                    &&& target_at(rows, indices@, latencies@, is_inclusive, count - 1) == rows.len()
                },
            }
        }),
{
    let mut trajectory: Vec<(usize, u64, Summary<Vec<IdTimeQuantity>>)> = Vec::new();
    if indices.len() == 0 {
        return Ok(trajectory);
    }
    match first_bad_record(actions) {
        Some(i) => {
            return Err(TrajectoryError::BadRecord(i));
        },
        None => {},
    }
    let ghost rows = record_rows(actions@);
    let targets = aim_all(actions, indices, latencies, is_inclusive)?;
    let count: usize = targets.len();
    if count == 0 {
        return Ok(trajectory);
    }
    let last: usize = targets[count - 1];
    let mut book = NyseOrderBook::new(with_validation);
    let ghost events = events_of(rows);
    let mut taken: usize = 0;
    let mut k: usize = 0;
    while k < count
        invariant
            k <= count,
            0 < count == shorter(indices@.len() as int, latencies@.len() as int),
            rows == record_rows(actions@),
            events == events_of(rows),
            all_records(rows),
            all_aimed(rows, indices@, latencies@, count as int),
            targets@.len() == count,
            last == targets@[count - 1],
            forall|n: int|
                0 <= n < count ==> (#[trigger] targets@[n]) == target_at(
                    rows,
                    indices@,
                    latencies@,
                    is_inclusive,
                    n,
                ) && targets@[n] <= rows.len(),
            book.wf(),
            taken <= rows.len(),
            taken == taken_at(rows, indices@, latencies@, is_inclusive, k as int),
            reached(
                rows,
                indices@,
                latencies@,
                is_inclusive,
                with_validation,
                depth,
                k as int,
                book,
            ),
            trajectory@.len() == k,
            in_turn(rows, indices@, latencies@, is_inclusive, k as int),
            shows_queues(
                trajectory@,
                rows,
                indices@,
                latencies@,
                is_inclusive,
                with_validation,
                depth,
            ),
        decreases count - k,
    {
        let target: usize = targets[k];
        let ghost here = book;
        if target < taken {
            // the book has passed the moment: it goes on to the last moment and stops
            if taken <= last {
                match advance(&mut book, actions, taken, last) {
                    Ok(_) => {},
                    Err(e) => {
                        proof {
                            let at = e->Book_0 as int;
                            lemma_stops_sooner(
                                here,
                                book,
                                events.subrange(taken as int, last as int),
                                at + 1 - taken,
                                at - taken,
                                e->Book_1,
                            );
                            assert(events.subrange(taken as int, last as int).take(at + 1 - taken)
                                =~= events.subrange(taken as int, at + 1));
                            assert(refused_on_the_way(
                                rows,
                                indices@,
                                latencies@,
                                is_inclusive,
                                with_validation,
                                depth,
                                count as int,
                                at,
                                e->Book_1,
                            ));
                        }
                        return Err(e);
                    },
                }
                if last >= actions.len() {
                    proof {
                        assert(target_at(rows, indices@, latencies@, is_inclusive, k as int)
                            < target_at(rows, indices@, latencies@, is_inclusive, k - 1));
                    }
                    return Err(TrajectoryError::PastTheEnd);
                }
                proof {
                    assert(is_record(rows[last as int]));
                    assert(rows[last as int] == actions@[last as int]@);
                }
                let message = Message::from_record(actions[last].as_slice());
                let ghost before = book;
                match book.handle(&message) {
                    Ok(_) => {},
                    Err(e) => {
                        proof {
                            let part = events.subrange(taken as int, last + 1);
                            let quotes = choose|quotes: Seq<(Option<u64>, Option<u64>)>| #[trigger]
                                driven(
                                    here,
                                    before,
                                    events.subrange(taken as int, last as int),
                                    quotes,
                                );
                            assert(part.take(last - taken) =~= events.subrange(
                                taken as int,
                                last as int,
                            ));
                            assert(part[last - taken] == message);
                            assert(refused(before, book, part[last - taken], e));
                            assert(halted(here, book, part, quotes, last - taken, e));
                            assert(stops(here, book, part, last - taken, e));
                            assert(refused_on_the_way(
                                rows,
                                indices@,
                                latencies@,
                                is_inclusive,
                                with_validation,
                                depth,
                                count as int,
                                last as int,
                                e,
                            ));
                        }
                        return Err(TrajectoryError::Book(last, e));
                    },
                }
            }
            return Ok(trajectory);
        }
        match advance(&mut book, actions, taken, target) {
            Ok(_) => {},
            Err(e) => {
                proof {
                    let at = e->Book_0 as int;
                    lemma_stops_sooner(
                        here,
                        book,
                        events.subrange(taken as int, target as int),
                        at + 1 - taken,
                        at - taken,
                        e->Book_1,
                    );
                    assert(events.subrange(taken as int, target as int).take(at + 1 - taken)
                        =~= events.subrange(taken as int, at + 1));
                    assert(refused_on_the_way(
                        rows,
                        indices@,
                        latencies@,
                        is_inclusive,
                        with_validation,
                        depth,
                        count as int,
                        at,
                        e->Book_1,
                    ));
                }
                return Err(e);
            },
        }
        let ghost before = book;
        proof {
            assert(moved(here, before, events, taken as int, target as int));
            assert(target == taken_at(rows, indices@, latencies@, is_inclusive, k + 1));
        }
        let snapshot = match queue_snapshot(&mut book, &depth) {
            Some(snapshot) => snapshot,
            None => {
                proof {
                    assert(queues_hidden(
                        rows,
                        indices@,
                        latencies@,
                        is_inclusive,
                        with_validation,
                        depth,
                        count as int,
                    ));
                }
                return Err(TrajectoryError::Spread);
            },
        };
        proof {
            assert(queues_at(
                rows,
                indices@,
                latencies@,
                is_inclusive,
                with_validation,
                depth,
                k as int,
                snapshot,
            ));
            assert(reached(
                rows,
                indices@,
                latencies@,
                is_inclusive,
                with_validation,
                depth,
                k + 1,
                book,
            ));
        }
        taken = target;
        let ghost earlier = trajectory@;
        trajectory.push((indices[k], latencies[k], snapshot));
        proof {
            assert forall|n: int| 0 <= n < trajectory@.len() implies {
                &&& (#[trigger] trajectory@[n]).0 == indices@[n]
                &&& trajectory@[n].1 == latencies@[n]
                &&& queues_at(
                    rows,
                    indices@,
                    latencies@,
                    is_inclusive,
                    with_validation,
                    depth,
                    n,
                    trajectory@[n].2,
                )
            } by {
                if n < k {
                    assert(trajectory@[n] == earlier[n]);
                }
            }
        }
        k += 1;
    }
    Ok(trajectory)
}

/// A run of accepted events goes on with another run.
pub proof fn lemma_driven_on(
    before: NyseOrderBook,
    mid: NyseOrderBook,
    after: NyseOrderBook,
    msgs: Seq<Message>,
    quotes: Seq<(Option<u64>, Option<u64>)>,
    more_msgs: Seq<Message>,
    more_quotes: Seq<(Option<u64>, Option<u64>)>,
)
    requires
        driven(before, mid, msgs, quotes),
        driven(mid, after, more_msgs, more_quotes),
    ensures
        driven(before, after, msgs + more_msgs, quotes + more_quotes),
    decreases msgs.len(),
{
    if msgs.len() == 0 {
        assert(msgs + more_msgs =~= more_msgs);
        assert(quotes + more_quotes =~= more_quotes);
    } else {
        let next = choose|next: NyseOrderBook| #[trigger]
            accepted(before, next, msgs.first()) && quotes.len() > 0 && quotes.first() == (
                next.best_ask(),
                next.best_bid(),
            ) && driven(next, mid, msgs.drop_first(), quotes.drop_first());
        lemma_driven_on(
            next,
            mid,
            after,
            msgs.drop_first(),
            quotes.drop_first(),
            more_msgs,
            more_quotes,
        );
        assert((msgs + more_msgs).drop_first() =~= msgs.drop_first() + more_msgs);
        assert((quotes + more_quotes).drop_first() =~= quotes.drop_first() + more_quotes);
        assert(accepted(before, next, (msgs + more_msgs).first()));
    }
}

} // verus!
