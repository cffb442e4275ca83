use mmm::nasdaq::replay::{
    check_records, OrderbookDepth, ReplayError, TimeBasedQueueReplay, TimeBasedVolumeReplay,
};
use mmm::nyse::book::HandleError;
use mmm::store::{dump, flatten, load, pack, unpack};
use mmm::summary::{create_trajectory_summaries, SummaryError, TrajectorySummary};
use mmm::collections::Side;
use std::collections::VecDeque;

fn day() -> Vec<Vec<u64>> {
    vec![
        vec![0, 10, 1, 10, 100, 1, 0, 0, 3],
        vec![0, 10, 2, 5, 101, 1, 0, 0, 0],
        vec![0, 11, 3, 7, 99, 2, 0, 0, 4],
        vec![4, 12, 1, 3, 100, 1, 10, 0, 5],
        vec![3, 12, 4, 6, 98, 2, 7, 3, 0],
        vec![1, 13, 1, 7, 100, 1, 7, 0, 0],
    ]
}

#[test]
fn volume_replay_steps_time_by_time() {
    let messages: VecDeque<Vec<u64>> = day().into();
    assert!(check_records(&messages));
    let mut replay = TimeBasedVolumeReplay::new(messages, OrderbookDepth::Level(2));
    let (time, summary, records, done) = replay.step().unwrap().unwrap();
    assert_eq!((time, records.len(), done), (10, 2, false));
    assert!(summary.ask.is_empty() && summary.bid.is_empty());
    let (time, summary, records, done) = replay.step().unwrap().unwrap();
    assert_eq!((time, records.len(), done), (11, 1, false));
    assert_eq!(summary.ask[&100], 10);
    assert_eq!(summary.ask[&101], 5);
    let (time, summary, records, done) = replay.step_full().unwrap().unwrap();
    assert_eq!((time, records, done), (12, day()[3..5].to_vec(), false));
    assert_eq!(summary.ask[&100], 7);
    assert_eq!(summary.bid.len(), 1);
    assert_eq!(summary.bid[&98], 6);
    let (time, summary, _, done) = replay.step_full().unwrap().unwrap();
    assert_eq!((time, done), (13, true));
    assert!(!summary.ask.contains_key(&100));
    assert!(replay.step().is_none());
    assert!(replay.step_full().is_none());
}

#[test]
fn queue_replay_shows_the_book_before_each_step() {
    let mut replay = TimeBasedQueueReplay::new(day().into(), OrderbookDepth::Spread(1));
    let (_, snapshot, _, _) = replay.step().unwrap().unwrap();
    assert!(snapshot.ask.is_empty());
    let (_, snapshot, _, _) = replay.step().unwrap().unwrap();
    assert_eq!(snapshot.ask.len(), 2);
    assert_eq!(snapshot.ask[&100], vec![(1, 10, 10)]);
    let (time, snapshot, _, _) = replay.step().unwrap().unwrap();
    assert_eq!(time, 12);
    // best ask 100 and best bid 99: asks up to 100, bids from 99
    assert_eq!(snapshot.ask.len(), 1);
    assert_eq!(snapshot.bid[&99], vec![(3, 11, 7)]);
}

#[test]
fn replay_reports_what_the_book_refuses() {
    let messages: VecDeque<Vec<u64>> = vec![vec![1, 5, 77]].into();
    let mut replay = TimeBasedVolumeReplay::new(messages, OrderbookDepth::Level(1));
    assert_eq!(replay.step().unwrap().err(), Some(ReplayError::Book(HandleError::OrderNotFound)));
    let messages: VecDeque<Vec<u64>> = vec![vec![0, 5, 1, 1, 3, 2, 0, 0, 0], vec![7, 6]].into();
    let mut replay = TimeBasedQueueReplay::new(messages, OrderbookDepth::Spread(10));
    assert!(replay.step().unwrap().is_ok());
    assert_eq!(replay.step().unwrap().err(), Some(ReplayError::Spread));
    assert!(!check_records(&vec![vec![9u64, 0]].into()));
}

#[test]
fn records_come_back_from_the_store() {
    let records: Vec<[u64; 9]> = vec![[0, 10, 1, 10, 100, 1, 0, 0, 3], [1, 13, 1, 7, u64::MAX, 1, 7, 0, 0]];
    let numbers = flatten(&records);
    assert_eq!(numbers.len(), 18);
    let bytes = pack(&numbers);
    assert_eq!(bytes.len(), 144);
    assert_eq!(&bytes[..8], &[0; 8]);
    assert_eq!(&bytes[8..16], &[10, 0, 0, 0, 0, 0, 0, 0]);
    assert_eq!(
        unpack(&bytes, 9),
        records.iter().map(|r| r.to_vec()).collect::<Vec<_>>()
    );
    assert_eq!(unpack(&bytes[..80], 9), vec![records[0].to_vec(), vec![1]]);
    assert_eq!(unpack(&[], 2), Vec::<Vec<u64>>::new());
    let stored = dump(&bytes).unwrap();
    assert_ne!(stored, bytes);
    assert_eq!(
        load(&stored, 9).unwrap(),
        records.iter().map(|r| r.to_vec()).collect::<Vec<_>>()
    );
    assert_eq!(load(&stored, 0), None);
    assert_eq!(load(&bytes, 9), None);
    assert_eq!(load(&dump(&bytes[..3]).unwrap(), 9), None);
}

#[test]
fn lives_of_the_orders_of_a_day() {
    let summaries = create_trajectory_summaries(&day()).unwrap();
    let references: Vec<u64> = summaries.iter().map(|s| s.reference).collect();
    assert_eq!(references, vec![1, 2, 3, 4]);
    let first = &summaries[0];
    assert_eq!(first.trajectory, vec!["A", "E", "D"]);
    assert_eq!(first.timestamps, vec![10, 12, 13]);
    assert!(!first.is_buy);
    assert_eq!((first.price, first.shares), (100, 10));
    assert_eq!(first.executed_shares, vec![3]);
    assert_eq!(first.cancelled_shares, vec![7]);
    assert_eq!(summaries[2].trajectory, vec!["A", "U"]);
    assert_eq!(summaries[2].cancelled_shares, vec![7]);
    assert_eq!(summaries[3].trajectory, vec!["U"]);
    assert!(summaries[3].is_buy);
    assert_eq!((summaries[3].price, summaries[3].shares), (98, 6));

    assert_eq!(
        create_trajectory_summaries(&vec![vec![1, 5, 77]]).err(),
        Some(SummaryError::OrderNotFound(0))
    );
    assert_eq!(
        create_trajectory_summaries(&vec![day()[0].clone(), day()[0].clone()]).err(),
        Some(SummaryError::DuplicateOrder(1))
    );
    assert_eq!(
        create_trajectory_summaries(&vec![day()[0].clone(), vec![2, 11, 1, 11]]).err(),
        Some(SummaryError::ExceedsShares(1))
    );
    assert_eq!(create_trajectory_summaries(&vec![vec![8, 0]]).err(), Some(SummaryError::BadRecord(0)));
}

#[test]
fn a_life_event_by_event() {
    let mut life = TrajectorySummary::new_with_add(1, 9, 10, 100, Side::Bid);
    life.execute(2, 3);
    life.execute_with_price(3, 1);
    life.cancel(4, 2);
    let next = life.replace_with(5, 20, 4, 101, 10);
    assert_eq!(life.trajectory, vec!["A", "E", "C", "X", "U"]);
    assert_eq!(life.cancelled_shares, vec![2, 4]);
    assert_eq!(next.trajectory, vec!["U"]);
    assert_eq!((next.reference, next.shares, next.price, next.is_buy), (10, 20, 101, true));
    let mut next = next;
    next.execute(6, 5);
    next.delete(7);
    assert_eq!(next.cancelled_shares, vec![15]);
    assert_eq!(next.timestamps, vec![5, 6, 7]);
}
