use mmm::collections::Side;
use mmm::nyse::book::{checked_spread_limits, Body, HandleError, Message, NyseOrderBook};
use mmm::nyse::data::{check_record, decode_cross_type, encode_cross_type};
use mmm::taq::enums::CrossType;
use mmm::us::{decode_side, encode_side};

fn add(time: u64, reference: u64, side: Side, price: u64, shares: u64) -> Message {
    Message { time, body: Body::AddOrder { reference, shares, price, side, mpid_val: 0 } }
}

fn basic_engine() -> NyseOrderBook {
    let mut engine = NyseOrderBook::new(false);
    engine.handle(&add(1, 1, Side::Ask, 100, 10)).unwrap();
    engine.handle(&add(2, 2, Side::Ask, 101, 5)).unwrap();
    engine.handle(&add(3, 3, Side::Bid, 99, 7)).unwrap();
    engine
}

#[test]
fn level_summary_of_the_basic_book() {
    let mut engine = basic_engine();
    let summary = engine.level_summary(2);
    assert_eq!(summary.ask.len(), 2);
    assert_eq!(summary.ask[&100], 10);
    assert_eq!(summary.ask[&101], 5);
    assert_eq!(summary.bid.len(), 1);
    assert_eq!(summary.bid[&99], 7);
    let summary = engine.level_summary(1);
    assert_eq!(summary.ask.len(), 1);
    assert_eq!(summary.ask[&100], 10);
    assert_eq!(engine.bbo(), (Some(100), Some(99)));
}

#[test]
fn executions_reduce_and_remove() {
    let mut engine = basic_engine();
    engine.handle(&Message { time: 4, body: Body::OrderExecuted { reference: 1, executed: 3 } }).unwrap();
    assert_eq!(engine.level_summary(5).ask[&100], 7);
    engine.handle(&Message { time: 5, body: Body::OrderExecuted { reference: 1, executed: 7 } }).unwrap();
    let summary = engine.level_summary(5);
    assert!(!summary.ask.contains_key(&100));
    assert_eq!(engine.bbo(), (Some(101), Some(99)));
}

#[test]
fn replace_rewires() {
    let mut engine = NyseOrderBook::new(false);
    engine.handle(&add(1, 7, Side::Bid, 99, 5)).unwrap();
    engine
        .handle(&Message {
            time: 2,
            body: Body::ReplaceOrder { new_reference: 8, shares: 4, price: 100, old_reference: 7 },
        })
        .unwrap();
    let summary = engine.level_summary(5);
    assert!(!summary.bid.contains_key(&99));
    assert_eq!(summary.bid[&100], 4);
    let snapshot = engine.level_snapshot(5);
    assert_eq!(snapshot.bid[&100], vec![(8, 2, 4)]);
    assert!(snapshot.ask.is_empty());
}

#[test]
fn events_for_unknown_orders_are_refused() {
    let mut engine = basic_engine();
    let unknown = [
        Body::DeleteOrder { reference: 9 },
        Body::OrderCancelled { reference: 9, cancelled: 1 },
        Body::OrderExecuted { reference: 9, executed: 1 },
        Body::OrderExecutedWithPrice { reference: 9, executed: 1 },
        Body::ReplaceOrder { new_reference: 10, shares: 1, price: 1, old_reference: 9 },
    ];
    for body in unknown {
        assert_eq!(engine.handle(&Message { time: 9, body }), Err(HandleError::OrderNotFound));
    }
    assert_eq!(engine.handle(&add(9, 1, Side::Bid, 5, 5)), Err(HandleError::KeyAlreadyExists));
    assert_eq!(
        engine.handle(&Message {
            time: 9,
            body: Body::ReplaceOrder { new_reference: 2, shares: 1, price: 1, old_reference: 1 },
        }),
        Err(HandleError::KeyAlreadyExists)
    );
    assert_eq!(engine.handle(&add(9, 50, Side::Ask, 100, u64::MAX)), Err(HandleError::VolumeOverflow));
    assert_eq!(engine.level_summary(5).ask[&100], 10);
    assert_eq!(
        engine.handle(&Message { time: 9, body: Body::CrossTrade { cross_type: CrossType::O } }),
        Ok(())
    );
    assert_eq!(engine.handle(&Message { time: 9, body: Body::NonCrossTrade {} }), Ok(()));
}

#[test]
fn a_validating_book_checks_events() {
    let mut engine = NyseOrderBook::new(true);
    engine.handle(&add(1, 1, Side::Ask, 100, 10)).unwrap();
    engine.handle(&add(2, 2, Side::Ask, 100, 5)).unwrap();
    engine.handle(&add(3, 3, Side::Bid, 99, 7)).unwrap();
    assert_eq!(
        engine.handle(&Message { time: 4, body: Body::OrderExecuted { reference: 2, executed: 1 } }),
        Err(HandleError::NotAtTop)
    );
    assert_eq!(
        engine.handle(&Message { time: 4, body: Body::OrderExecuted { reference: 1, executed: 11 } }),
        Err(HandleError::ExceedsTop)
    );
    engine.handle(&Message { time: 4, body: Body::OrderExecuted { reference: 3, executed: 7 } }).unwrap();
    engine.handle(&add(5, 4, Side::Bid, 100, 1)).unwrap();
    assert_eq!(engine.handle(&add(6, 5, Side::Bid, 1, 1)), Err(HandleError::CrossedBook));
}

#[test]
fn late_references_are_put_in_order() {
    let mut engine = NyseOrderBook::new(false);
    engine.handle(&add(1, 10, Side::Ask, 100, 1)).unwrap();
    engine.handle(&add(2, 30, Side::Ask, 100, 1)).unwrap();
    engine.handle(&add(3, 20, Side::Ask, 100, 1)).unwrap();
    let snapshot = engine.level_snapshot(1);
    assert_eq!(snapshot.ask[&100], vec![(10, 1, 1), (20, 3, 1), (30, 2, 1)]);
}

#[test]
fn spread_limits_around_an_odd_midpoint() {
    assert_eq!(checked_spread_limits(Some(101), Some(100), 2), Some((Some(102), Some(99))));
    assert_eq!(checked_spread_limits(Some(102), Some(100), 2), Some((Some(103), Some(99))));
    assert_eq!(checked_spread_limits(Some(101), None, 2), Some((Some(103), None)));
    assert_eq!(checked_spread_limits(None, Some(100), 2), Some((None, Some(98))));
    assert_eq!(checked_spread_limits(None, None, 2), Some((None, None)));
    assert_eq!(checked_spread_limits(None, Some(1), 2), None);
    assert_eq!(checked_spread_limits(Some(u64::MAX), None, 1), None);
    assert_eq!(checked_spread_limits(Some(3), Some(2), 5), None);
}

#[test]
fn spread_summary_takes_the_prices_within_the_limits() {
    let mut engine = NyseOrderBook::new(false);
    engine.handle(&add(1, 1, Side::Ask, 101, 1)).unwrap();
    engine.handle(&add(1, 2, Side::Ask, 102, 2)).unwrap();
    engine.handle(&add(1, 3, Side::Ask, 103, 3)).unwrap();
    engine.handle(&add(1, 4, Side::Bid, 100, 4)).unwrap();
    engine.handle(&add(1, 5, Side::Bid, 99, 5)).unwrap();
    engine.handle(&add(1, 6, Side::Bid, 98, 6)).unwrap();
    assert_eq!(engine.get_spread_limit(2), (Some(102), Some(99)));
    let summary = engine.spread_summary(2);
    assert_eq!(summary.ask.len(), 2);
    assert_eq!(summary.ask[&101], 1);
    assert_eq!(summary.ask[&102], 2);
    assert_eq!(summary.bid.len(), 2);
    assert_eq!(summary.bid[&100], 4);
    assert_eq!(summary.bid[&99], 5);
    let snapshot = engine.spread_snapshot(2);
    assert_eq!(snapshot.ask.len(), 2);
    assert_eq!(snapshot.bid[&99], vec![(5, 1, 5)]);
}

#[test]
fn records_decode_to_events() {
    let row = [0u64, 5, 11, 100, 2500, 2, 0, 3, 0];
    assert!(check_record(&row));
    let message = Message::from_record(&row);
    assert_eq!(message.time, 5);
    match message.body {
        Body::AddOrder { reference, shares, price, side, mpid_val } => {
            assert_eq!((reference, shares, price, side, mpid_val), (11, 100, 2500, Side::Bid, 3))
        }
        other => panic!("not an add: {:?}", other),
    }
    match Message::from_record(&[3, 6, 12, 50, 2600, 2, 100, 11, 0]).body {
        Body::ReplaceOrder { new_reference, shares, price, old_reference } => {
            assert_eq!((new_reference, shares, price, old_reference), (12, 50, 2600, 11))
        }
        other => panic!("not a replace: {:?}", other),
    }
    match Message::from_record(&[6, 6, 0, 50, 2600, 0, 0, 5, 0]).body {
        Body::CrossTrade { cross_type } => assert_eq!(cross_type, CrossType::E),
        other => panic!("not a cross trade: {:?}", other),
    }
    assert!(check_record(&[1, 2, 3]));
    assert!(check_record(&[7, 2]));
    assert!(!check_record(&[1, 2]));
    assert!(!check_record(&[8, 0, 0, 0, 0, 0, 0, 0, 0]));
    assert!(!check_record(&[0, 0, 0, 0, 0, 3, 0, 0, 0]));
    assert!(!check_record(&[6, 0, 0, 0, 0, 0, 0, 3, 0]));
    assert!(!check_record(&[]));
}

#[test]
fn sides_and_auctions_as_numbers() {
    assert_eq!(encode_side(Side::Ask), 1);
    assert_eq!(encode_side(Side::Bid), 2);
    assert_eq!(decode_side(1), Side::Ask);
    assert_eq!(decode_side(2), Side::Bid);
    for cross_type in [CrossType::O, CrossType::C, CrossType::E, CrossType::R] {
        assert_eq!(decode_cross_type(encode_cross_type(cross_type)), cross_type);
    }
    assert_eq!(encode_cross_type(CrossType::O), 1);
    assert_eq!(encode_cross_type(CrossType::C), 2);
    assert_eq!(encode_cross_type(CrossType::E), 5);
    assert_eq!(encode_cross_type(CrossType::R), 6);
}
