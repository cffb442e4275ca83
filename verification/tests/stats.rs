use mmm::collections::Side;
use mmm::itchy;
use mmm::nasdaq;
use mmm::nasdaq::constants::{P_N, REG_START_TIME_NS, R_N, START_TIME_NS, T_N};
use mmm::nyse::data::{StockContainer, Translator};
use mmm::nyse::stat::{interval, product, sum, StatBuilder, StatError};
use mmm::taq::enums::{
    AddOrder, CrossCorrection, CrossTrade, CrossType, MarketCategory, NonDisplayedTrade,
    OrderExecution, SymbolIndexMapping,
};
use mmm::taq::enums::IssueClassification;
use mmm::taq::parser::{Body, Message, SequenceNumber};
use mmm::us::price::PriceBasis;

const SECOND: u64 = 1_000_000_000;

fn taq(time: Option<u64>, body: Body) -> Message {
    Message {
        msg_type: 100,
        symbol: "AAPL".to_string(),
        sequence_number: SequenceNumber::new(1, 1),
        source_time: time,
        body,
    }
}

fn taq_add(time: u64, order_id: u64, side: Side, price: u64, volume: u32, firm: &str) -> Message {
    taq(
        Some(time),
        Body::AddOrder(AddOrder {
            order_id,
            price: PriceBasis::new(price, 10000),
            volume,
            side,
            firm_id: firm.to_string(),
        }),
    )
}

fn taq_execution(time: Option<u64>, order_id: u64, price: u64, volume: u32, printable_flag: u8) -> Message {
    taq(
        time,
        Body::OrderExecution(OrderExecution {
            order_id,
            trade_id: 1,
            price: PriceBasis::new(price, 10000),
            volume,
            printable_flag,
        }),
    )
}

fn day_with_two_orders() -> (Translator, StockContainer) {
    let mut translator = Translator::new();
    let mut container = StockContainer::new_with_name("AAPL".to_string());
    translator.translate(&mut container, &taq_add(START_TIME_NS + 1, 5, Side::Ask, 1000, 10, "")).unwrap();
    translator.translate(&mut container, &taq_add(START_TIME_NS + 2, 6, Side::Bid, 900, 20, "GSCO")).unwrap();
    (translator, container)
}

#[test]
fn intervals_of_the_day() {
    assert_eq!(interval(START_TIME_NS), Ok(0));
    assert_eq!(interval(START_TIME_NS + SECOND - 1), Ok(0));
    assert_eq!(interval(REG_START_TIME_NS), Ok(R_N));
    assert_eq!(interval(START_TIME_NS + T_N as u64 * SECOND - 1), Ok(T_N - 1));
    assert_eq!(interval(START_TIME_NS + T_N as u64 * SECOND), Err(StatError::OutOfDay));
    assert_eq!(interval(START_TIME_NS - 1), Err(StatError::OutOfDay));
    assert_eq!(sum(u64::MAX - 1, 1), Ok(u64::MAX));
    assert_eq!(sum(u64::MAX, 1), Err(StatError::Overflow));
    assert_eq!(product(1 << 32, 1 << 31), Ok(1 << 63));
    assert_eq!(product(1 << 32, 1 << 32), Err(StatError::Overflow));
    assert_eq!(product(0, u64::MAX), Ok(0));
    assert_eq!(product(u64::MAX, 0), Ok(0));
}

#[test]
fn executions_are_counted_in_their_interval() {
    let (translator, container) = day_with_two_orders();
    let mut stat = StatBuilder::new();
    let time = START_TIME_NS + 3 * SECOND + SECOND / 2;
    assert_eq!(stat.update(&taq_execution(Some(time), 5, 1000, 4, 1), &container, &translator), Ok(()));
    // one more at the same time counts as the same message, and a firm had entered this order
    assert_eq!(stat.update(&taq_execution(Some(time), 6, 900, 5, 1), &container, &translator), Ok(()));
    // an execution that is not to be printed does not count
    assert_eq!(stat.update(&taq_execution(None, 77, 900, 5, 0), &container, &translator), Ok(()));
    let built = stat.build();
    assert_eq!((built.total_volume, built.post_market_volume), (9, 9));
    assert_eq!(built.interval_execute_msg_count[3], 1);
    assert_eq!(built.interval_volume[3], 9);
    assert_eq!(built.interval_price_volume[3], 8500);
    assert_eq!(built.interval_lp_volume[3], 5);
    assert_eq!(built.interval_lp_price_volume[3], 4500);
    assert_eq!(built.interval_volume.iter().sum::<u64>(), 9);
    assert_eq!(built.interval_volume.len(), T_N);
}

#[test]
fn executions_that_cannot_be_counted_change_nothing() {
    let (translator, container) = day_with_two_orders();
    let mut stat = StatBuilder::new();
    let time = START_TIME_NS + 3 * SECOND;
    assert_eq!(
        stat.update(&taq_execution(None, 5, 1000, 4, 1), &container, &translator),
        Err(StatError::NoTime)
    );
    assert_eq!(
        stat.update(&taq_execution(Some(5), 5, 1000, 4, 1), &container, &translator),
        Err(StatError::OutOfDay)
    );
    assert_eq!(
        stat.update(&taq_execution(Some(time), 77, 1000, 4, 1), &container, &translator),
        Err(StatError::OrderNotFound)
    );
    assert_eq!(
        stat.update(&taq_execution(Some(time), 5, u64::MAX, 4, 1), &container, &translator),
        Err(StatError::Overflow)
    );
    let built = stat.build();
    assert_eq!(built.total_volume, 0);
    assert_eq!(built.interval_execute_msg_count[3], 0);
}

#[test]
fn trades_and_symbols_are_counted() {
    let (translator, container) = day_with_two_orders();
    let mut stat = StatBuilder::new();
    let hidden = Body::NonDisplayedTrade(NonDisplayedTrade {
        trade_id: 1,
        price: PriceBasis::new(950, 10000),
        volume: 3,
    });
    assert_eq!(stat.update(&taq(Some(START_TIME_NS + 9 * SECOND), hidden.clone()), &container, &translator), Ok(()));
    assert_eq!(stat.update(&taq(None, hidden), &container, &translator), Err(StatError::NoTime));
    let cross = Body::CrossTrade(CrossTrade {
        cross_id: 1,
        price: PriceBasis::new(950, 10000),
        volume: 1000,
        cross_type: CrossType::O,
    });
    assert_eq!(stat.update(&taq(None, cross), &container, &translator), Ok(()));
    let correction = Body::CrossCorrection(CrossCorrection { cross_id: 1, volume: 900 });
    assert_eq!(stat.update(&taq(None, correction), &container, &translator), Ok(()));
    let symbol = Body::SymbolIndexMapping(SymbolIndexMapping {
        market_category: MarketCategory::Nyse,
        system_id: 1,
        exchange_code: None,
        issue_classification: IssueClassification::CommonStock,
        prev_close_price: PriceBasis::new(1, 10000),
        prev_close_volume: 1,
        price_resolution: 1,
        round_lot_size: 100,
        round_lots_accepted: true,
        mpv: 1,
        unit_of_trade: 1,
    });
    assert_eq!(stat.update(&taq(None, symbol), &container, &translator), Ok(()));
    // an order counts for nothing
    assert_eq!(stat.update(&taq_add(1, 9, Side::Ask, 1, 1, ""), &container, &translator), Ok(()));
    let built = stat.build();
    assert_eq!(built.total_volume, 1000);
    assert_eq!(built.interval_nondisp_volume[9], 3);
    assert_eq!(built.interval_nondisp_price_volume[9], 2850);
    assert_eq!(built.events.len(), 1);
    assert_eq!(built.events[0].0, 2);
    assert_eq!((built.events[0].1.cross_id, built.events[0].1.volume), (1, 900));
    assert_eq!(built.stock_directory, Some("AAPL".to_string()));
}

#[test]
fn a_book_is_put_into_the_row_of_its_interval() {
    let mut stat = StatBuilder::new();
    let asks = vec![(100, 10), (101, 5)];
    let bids = vec![(99, 7)];
    let first = START_TIME_NS + 2 * SECOND;
    assert_eq!(stat.update_lob(&asks, &bids, first, 5), Ok(()));
    let row = [first, 0, 0, 0, 0, 0, 0, 0, 0, 7, 99, 100, 10, 101, 5, 0, 0, 0, 0, 0, 0];
    assert_eq!(stat.partial_stat.lob_level_5[2], row);
    let later = START_TIME_NS + 6 * SECOND;
    assert_eq!(stat.update_lob(&vec![], &vec![(98, 1), (97, 2)], later, 5), Ok(()));
    // the last row is held on to up to two intervals before the new one
    assert_eq!(stat.partial_stat.lob_level_5[3], row);
    assert_eq!(stat.partial_stat.lob_level_5[4], row);
    assert_eq!(stat.partial_stat.lob_level_5[5], [0; 21]);
    assert_eq!(
        stat.partial_stat.lob_level_5[6],
        [later, 0, 0, 0, 0, 0, 0, 2, 97, 1, 98, 0, 0, 0, 0, 0, 0, 0, 0, 0, 0]
    );
    assert_eq!(stat.update_lob(&asks, &bids, START_TIME_NS, 5), Err(StatError::FirstInterval));
    assert_eq!(stat.update_lob(&asks, &bids, later, 4), Err(StatError::Depth));
    assert_eq!(stat.update_lob(&vec![(1, 1); 6], &bids, later, 5), Err(StatError::Depth));
    assert_eq!(stat.update_lob(&asks, &bids, 0, 5), Err(StatError::OutOfDay));
    assert_eq!(stat.partial_stat.lob_level_5[0], [0; 21]);
}

fn itch(timestamp: u64, body: itchy::Body) -> itchy::Message {
    itchy::Message { stock_locate: 1, timestamp, body }
}

fn itch_day() -> (nasdaq::data::Translator, nasdaq::data::StockContainer) {
    let mut translator = nasdaq::data::Translator::new();
    let mut container = nasdaq::data::StockContainer::new();
    for (reference, side, price, shares) in [(5, Side::Ask, 1000, 10), (6, Side::Bid, 900, 20)] {
        let add = itchy::Body::AddOrder(itchy::AddOrder {
            reference,
            side,
            shares,
            price: PriceBasis::new(price, 10000),
            mpid: None,
        });
        assert_eq!(translator.translate(&mut container, &itch(START_TIME_NS + 1, add)), Ok(true));
    }
    (translator, container)
}

fn executed(reference: u64, executed: u32) -> itchy::Body {
    itchy::Body::OrderExecuted { reference, executed, match_number: 1 }
}

fn executed_at(reference: u64, executed: u32, price: u64, printable: bool) -> itchy::Body {
    itchy::Body::OrderExecutedWithPrice {
        reference,
        executed,
        match_number: 1,
        printable,
        price: PriceBasis::new(price, 10000),
    }
}

fn cross(cross_type: itchy::CrossType, shares: u64, price: u64) -> itchy::Body {
    itchy::Body::CrossTrade(itchy::CrossTrade {
        shares,
        cross_price: PriceBasis::new(price, 10000),
        cross_type,
    })
}

#[test]
fn prices_of_the_intervals_are_kept() {
    let (translator, container) = itch_day();
    let mut stat = nasdaq::stat::StatBuilder::new();
    let at = |seconds: u64| START_TIME_NS + seconds * SECOND;
    assert_eq!(stat.update(&itch(at(3), executed(5, 4)), &container, &translator), Ok(()));
    assert_eq!(stat.update(&itch(at(7), executed_at(6, 5, 950, true)), &container, &translator), Ok(()));
    assert_eq!(stat.update(&itch(at(7) + 1, executed_at(6, 1, 1100, true)), &container, &translator), Ok(()));
    assert_eq!(stat.update(&itch(at(8), executed_at(6, 2, 1, false)), &container, &translator), Ok(()));
    let built = stat.build();
    assert_eq!((built.total_volume, built.post_market_volume), (12, 12));
    assert_eq!(built.interval_execute_msg_count[3], 1);
    assert_eq!(built.interval_execute_msg_count[7], 2);
    assert_eq!(built.interval_execute_msg_count[8], 0);
    assert_eq!((built.interval_volume[3], built.interval_price_volume[3]), (4, 4000));
    assert_eq!((built.interval_volume[7], built.interval_price_volume[7]), (6, 5850));
    assert_eq!(built.interval_volume[8], 0);
    assert_eq!((built.interval_price[3], built.interval_high[3], built.interval_low[3]), (1000, 1000, 1000));
    assert_eq!((built.interval_price[7], built.interval_high[7], built.interval_low[7]), (1100, 1100, 950));
    // the highest and the lowest of the last interval are held on to, the last price is not
    for between in 4..7 {
        assert_eq!(
            (built.interval_price[between], built.interval_high[between], built.interval_low[between]),
            (0, 1000, 1000)
        );
    }
    assert_eq!((built.interval_high[8], built.interval_low[8]), (0, u64::MAX));
    assert_eq!((built.interval_high[2], built.interval_low[2]), (0, u64::MAX));
}

#[test]
fn the_auctions_part_the_sessions() {
    let (translator, container) = itch_day();
    let mut stat = nasdaq::stat::StatBuilder::new();
    let late = REG_START_TIME_NS + 5 * SECOND;
    // before the opening auction has traded, the regular session has not begun
    assert_eq!(stat.update(&itch(late, executed(5, 4)), &container, &translator), Ok(()));
    assert_eq!(
        stat.update(&itch(REG_START_TIME_NS - 1, cross(itchy::CrossType::Opening, 100, 1010)), &container, &translator),
        Err(StatError::EarlyOpening)
    );
    assert_eq!(
        stat.update(&itch(late, cross(itchy::CrossType::Opening, 100, 1010)), &container, &translator),
        Ok(())
    );
    assert_eq!(stat.update(&itch(late + 1, executed(6, 3)), &container, &translator), Ok(()));
    assert_eq!(
        stat.update(&itch(late, cross(itchy::CrossType::Closing, 50, 990)), &container, &translator),
        Ok(())
    );
    assert_eq!(
        stat.update(&itch(late, cross(itchy::CrossType::Intraday, 1, 1)), &container, &translator),
        Ok(())
    );
    let stock = itchy::Body::StockDirectory(itchy::StockDirectory {
        stock: "AAPL    ".to_string(),
        market_category: itchy::MarketCategory::NasdaqGlobalSelect,
        financial_status: itchy::FinancialStatus::Normal,
        round_lot_size: 100,
        round_lots_only: false,
        issue_classification: itchy::IssueClassification::CommonStock,
        issue_subtype: itchy::IssueSubType::NotApplicable,
    });
    assert_eq!(stat.update(&itch(1, stock), &container, &translator), Ok(()));
    assert_eq!(
        stat.update(&itch(1, itchy::Body::NonCrossTrade(itchy::NonCrossTrade {
            reference: 0,
            side: Side::Bid,
            shares: 1,
            price: PriceBasis::new(1, 10000),
        })), &container, &translator),
        Err(StatError::OutOfDay)
    );
    assert_eq!(stat.update(&itch(late, executed(77, 3)), &container, &translator), Err(StatError::OrderNotFound));
    let built = stat.build();
    assert_eq!(built.total_volume, 4 + 100 + 3 + 50 + 1);
    assert_eq!(built.pre_market_volume, 4);
    assert_eq!(built.regular_market_volume, 3);
    assert_eq!(built.post_market_volume, 0);
    assert_eq!((built.opening_cross_price, built.opening_cross_volume), (1010, 100));
    assert_eq!((built.closing_cross_price, built.closing_cross_volume), (990, 50));
    assert_eq!((built.regular_market_start, built.post_market_start), (Some(2), Some(2)));
    assert_eq!(built.interval_volume[R_N - 1], 4);
    assert_eq!(built.interval_volume[R_N + 5], 3);
    assert_eq!(built.interval_execute_msg_count[R_N + 5], 2);
    assert_eq!(built.interval_execute_msg_count[R_N - 1], 0);
    assert_eq!(built.stock_directory, Some("AAPL    ".to_string()));
}

#[test]
fn a_book_is_put_into_a_row_with_its_spread() {
    let (_, mut container) = itch_day();
    let mut stat = nasdaq::stat::StatBuilder::new();
    let early = START_TIME_NS + 2 * SECOND;
    assert_eq!(stat.update_lob(&mut container.book, early, 5), Ok(()));
    let late = START_TIME_NS + (P_N as u64 - 1) * SECOND;
    assert_eq!(stat.update_lob(&mut container.book, late, 5), Ok(()));
    assert_eq!(stat.update_lob(&mut container.book, late, 4), Err(StatError::Depth));
    assert_eq!(stat.update_lob(&mut container.book, 1, 5), Err(StatError::OutOfDay));
    let built = stat.build();
    let mut row = [0i64; 21];
    row[0] = early as i64;
    row[9] = 900;
    row[10] = -20;
    row[11] = 1000;
    row[12] = 10;
    assert_eq!(built.lob_level[2], row);
    assert_eq!(built.lob_level[3], row);
    assert_eq!(built.lob_level[P_N - 2], row);
    row[0] = late as i64;
    assert_eq!(built.lob_level[P_N - 1], row);
    assert_eq!(built.lob_level[P_N], [0; 21]);
    assert_eq!(built.lob_level[1], [0; 21]);
    assert_eq!(built.lob_max_shares, 20);
    assert_eq!(built.lob_max_spread, Some(100));
    assert_eq!(built.lob_regmkt_max_spread, Some(100));
}
