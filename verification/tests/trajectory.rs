use mmm::nasdaq::replay::{reconstruct, OrderbookDepth};
use mmm::nyse::book::HandleError;
use mmm::nyse::trajectory::{
    compile_trajectory_with_queue, compile_trajectory_with_volume, TrajectoryError,
};
use mmm::store::read_records;

fn trading_day() -> Vec<Vec<u64>> {
    vec![
        vec![0, 10, 1, 10, 100, 1, 0, 0, 3],
        vec![0, 10, 2, 5, 101, 1, 0, 0, 0],
        vec![0, 11, 3, 7, 99, 2, 0, 0, 4],
        vec![4, 12, 1, 3, 100, 1, 10, 0, 5],
        vec![3, 12, 4, 6, 98, 2, 7, 3, 0],
        vec![1, 13, 1, 7, 100, 1, 7, 0, 0],
    ]
}

#[test]
fn a_trajectory_shows_the_book_before_each_chosen_event() {
    let shown = compile_trajectory_with_volume(
        &trading_day(),
        &vec![2, 5],
        &vec![0, 1],
        OrderbookDepth::Level(2),
        false,
        false,
    )
    .unwrap();
    assert_eq!(shown.len(), 2);
    // before time 11 the book has taken the two events of time 10
    assert_eq!((shown[0].0, shown[0].1), (2, 0));
    assert_eq!(shown[0].2.ask.len(), 2);
    assert_eq!(shown[0].2.ask[&100], 10);
    assert_eq!(shown[0].2.ask[&101], 5);
    assert!(shown[0].2.bid.is_empty());
    // before time 12 it has taken the event of time 11 too
    assert_eq!((shown[1].0, shown[1].1), (5, 1));
    assert_eq!(shown[1].2.ask[&100], 10);
    assert_eq!(shown[1].2.bid.len(), 1);
    assert_eq!(shown[1].2.bid[&99], 7);
}

#[test]
fn an_inclusive_trajectory_takes_the_events_of_the_moment() {
    let shown = compile_trajectory_with_volume(
        &trading_day(),
        &vec![2, 5, 5],
        &vec![0, 1],
        OrderbookDepth::Level(2),
        true,
        true,
    )
    .unwrap();
    // the third index has no latency and is not shown
    assert_eq!(shown.len(), 2);
    assert_eq!(shown[0].2.bid[&99], 7);
    assert_eq!(shown[1].2.ask[&100], 7);
    assert_eq!(shown[1].2.ask[&101], 5);
    assert_eq!(shown[1].2.bid.len(), 1);
    assert_eq!(shown[1].2.bid[&98], 6);
}

#[test]
fn a_trajectory_ends_where_the_chosen_events_turn_back() {
    let shown = compile_trajectory_with_volume(
        &trading_day(),
        &vec![5, 2],
        &vec![0, 0],
        OrderbookDepth::Level(1),
        false,
        false,
    )
    .unwrap();
    assert_eq!(shown.len(), 1);
    assert_eq!(shown[0].0, 5);
    assert_eq!(shown[0].2.ask[&100], 7);
    assert_eq!(shown[0].2.bid[&98], 6);
    let past = compile_trajectory_with_volume(
        &trading_day(),
        &vec![5, 2, 5],
        &vec![0, 0, 0],
        OrderbookDepth::Level(1),
        false,
        true,
    );
    assert_eq!(past.err(), Some(TrajectoryError::PastTheEnd));
}

#[test]
fn a_trajectory_of_nothing_is_empty() {
    let bad = vec![vec![9u64, 0]];
    assert!(compile_trajectory_with_volume(&bad, &vec![], &vec![1], OrderbookDepth::Level(1), true, true)
        .unwrap()
        .is_empty());
    assert!(compile_trajectory_with_volume(
        &trading_day(),
        &vec![1],
        &vec![],
        OrderbookDepth::Level(1),
        true,
        true
    )
    .unwrap()
    .is_empty());
}

#[test]
fn a_trajectory_fails_for_each_reason() {
    let bad = vec![vec![0, 1, 1, 1, 1, 1, 0, 0, 0], vec![9u64, 0]];
    assert_eq!(
        compile_trajectory_with_volume(&bad, &vec![0], &vec![0], OrderbookDepth::Level(1), false, false).err(),
        Some(TrajectoryError::BadRecord(1))
    );
    assert_eq!(
        compile_trajectory_with_volume(&trading_day(), &vec![1, 7], &vec![0, 0], OrderbookDepth::Level(1), false, false)
            .err(),
        Some(TrajectoryError::NoSuchEvent(1))
    );
    assert_eq!(
        compile_trajectory_with_volume(&trading_day(), &vec![0], &vec![11], OrderbookDepth::Level(1), false, false).err(),
        Some(TrajectoryError::BeforeTime(0))
    );
    let unknown = vec![vec![0, 4, 1, 1, 3, 2, 0, 0, 0], vec![1u64, 5, 77]];
    assert_eq!(
        compile_trajectory_with_volume(&unknown, &vec![1], &vec![0], OrderbookDepth::Level(1), false, true).err(),
        Some(TrajectoryError::Book(1, HandleError::OrderNotFound))
    );
    // the refused event comes after the moment: the book never takes it
    assert!(compile_trajectory_with_volume(&unknown, &vec![1], &vec![0], OrderbookDepth::Level(1), false, false).is_ok());
    assert_eq!(
        compile_trajectory_with_volume(&unknown, &vec![0], &vec![0], OrderbookDepth::Spread(10), false, true)
            .err(),
        Some(TrajectoryError::Spread)
    );
}

#[test]
fn a_day_is_replayed_until_the_book_refuses() {
    let (book, stopped) = reconstruct(&trading_day(), false);
    assert_eq!(stopped, None);
    assert_eq!(book.inner.bbo(), (Some(101), Some(98)));
    let mut day = trading_day();
    day.insert(3, vec![2, 11, 77, 1]);
    let (book, stopped) = reconstruct(&day, true);
    assert_eq!(stopped, Some((3, HandleError::OrderNotFound)));
    assert_eq!(book.inner.bbo(), (Some(100), Some(99)));
    let (book, stopped) = reconstruct(&vec![], true);
    assert_eq!(stopped, None);
    assert_eq!(book.inner.bbo(), (None, None));
}

#[test]
fn records_are_read_from_whole_numbers_only() {
    assert_eq!(read_records(None, 9), None);
    assert_eq!(read_records(Some(vec![0; 7]), 1), None);
    assert_eq!(read_records(Some(vec![0; 8]), 0), None);
    let mut bytes = vec![0u8; 24];
    bytes[0] = 1;
    bytes[9] = 1;
    bytes[23] = 128;
    assert_eq!(read_records(Some(bytes), 2), Some(vec![vec![1, 256], vec![1 << 63]]));
    assert_eq!(read_records(Some(vec![]), 3), Some(vec![]));
}

#[test]
fn a_trajectory_shows_the_queues_before_each_chosen_event() {
    let shown = compile_trajectory_with_queue(
        &trading_day(),
        &vec![2, 5, 5],
        &vec![0, 1, 0],
        OrderbookDepth::Level(2),
        true,
        false,
    )
    .unwrap();
    assert_eq!(shown.len(), 3);
    assert_eq!((shown[0].0, shown[0].1), (2, 0));
    assert_eq!(shown[0].2.ask.len(), 2);
    assert_eq!(shown[0].2.ask[&100], vec![(1, 10, 10)]);
    assert_eq!(shown[0].2.ask[&101], vec![(2, 10, 5)]);
    assert!(shown[0].2.bid.is_empty());
    assert_eq!(shown[1].2.bid[&99], vec![(3, 11, 7)]);
    // before time 13 the first order has been executed in part, and the bid replaced
    assert_eq!((shown[2].0, shown[2].1), (5, 0));
    assert_eq!(shown[2].2.ask[&100], vec![(1, 10, 7)]);
    assert_eq!(shown[2].2.bid.len(), 1);
    assert_eq!(shown[2].2.bid[&98], vec![(4, 12, 6)]);
    let spread = compile_trajectory_with_queue(
        &trading_day(),
        &vec![5],
        &vec![0],
        OrderbookDepth::Spread(2),
        false,
        true,
    )
    .unwrap();
    // all events taken: the best prices are 101 and 98, and the limits 101 and 98
    assert_eq!(spread[0].2.ask[&101], vec![(2, 10, 5)]);
    assert_eq!(spread[0].2.bid[&98], vec![(4, 12, 6)]);
    let narrow = compile_trajectory_with_queue(
        &trading_day(),
        &vec![5],
        &vec![0],
        OrderbookDepth::Spread(1),
        false,
        true,
    )
    .unwrap();
    assert!(narrow[0].2.ask.is_empty() && narrow[0].2.bid.is_empty());
}

#[test]
fn a_trajectory_of_queues_fails_for_each_reason() {
    let bad = vec![vec![0, 1, 1, 1, 1, 1, 0, 0, 0], vec![9u64, 0]];
    assert_eq!(
        compile_trajectory_with_queue(&bad, &vec![0], &vec![0], OrderbookDepth::Level(1), false, false).err(),
        Some(TrajectoryError::BadRecord(1))
    );
    assert_eq!(
        compile_trajectory_with_queue(&trading_day(), &vec![7], &vec![0], OrderbookDepth::Level(1), false, false)
            .err(),
        Some(TrajectoryError::NoSuchEvent(0))
    );
    assert_eq!(
        compile_trajectory_with_queue(&trading_day(), &vec![1, 0], &vec![0, 11], OrderbookDepth::Level(1), false, false)
            .err(),
        Some(TrajectoryError::BeforeTime(1))
    );
    let unknown = vec![vec![0, 4, 1, 1, 3, 2, 0, 0, 0], vec![1u64, 5, 77]];
    assert_eq!(
        compile_trajectory_with_queue(&unknown, &vec![1], &vec![0], OrderbookDepth::Level(1), false, true).err(),
        Some(TrajectoryError::Book(1, HandleError::OrderNotFound))
    );
    assert_eq!(
        compile_trajectory_with_queue(&unknown, &vec![0], &vec![0], OrderbookDepth::Spread(10), false, true).err(),
        Some(TrajectoryError::Spread)
    );
    assert_eq!(
        compile_trajectory_with_queue(&trading_day(), &vec![5, 2, 5], &vec![0, 0, 0], OrderbookDepth::Level(1), false, true)
            .err(),
        Some(TrajectoryError::PastTheEnd)
    );
    assert!(compile_trajectory_with_queue(&bad, &vec![], &vec![], OrderbookDepth::Level(1), false, true)
        .unwrap()
        .is_empty());
}
