use mmm::collections::Side;
use mmm::itchy;
use mmm::nasdaq;
use mmm::nyse::data::{StockContainer, TranslateError, Translator};
use mmm::taq::enums::{
    AddOrder, CrossTrade, CrossType, DeleteOrder, ModifyOrder, NonDisplayedTrade, OrderExecution,
    PositionChange, ReplaceOrder,
};
use mmm::taq::parser::{Body, Message, SequenceNumber};
use mmm::us::price::PriceBasis;

fn taq(time: Option<u64>, body: Body) -> Message {
    Message {
        msg_type: 100,
        symbol: "AAPL".to_string(),
        sequence_number: SequenceNumber::new(1, 1),
        source_time: time,
        body,
    }
}

fn taq_add(time: u64, order_id: u64, side: Side, price: u64, volume: u32, firm: &str) -> Message {
    taq(
        Some(time),
        Body::AddOrder(AddOrder {
            order_id,
            price: PriceBasis::new(price, 10000),
            volume,
            side,
            firm_id: firm.to_string(),
        }),
    )
}

#[test]
fn taq_messages_become_chained_records() {
    let mut translator = Translator::new();
    let mut container = StockContainer::new_with_name("AAPL".to_string());
    assert_eq!(translator.translate(&mut container, &taq_add(1, 5, Side::Ask, 1000, 10, "")), Ok(1));
    assert_eq!(translator.translate(&mut container, &taq_add(2, 6, Side::Bid, 900, 20, "GSCO")), Ok(1));
    assert_eq!(translator.translate(&mut container, &taq_add(3, 7, Side::Bid, 900, 5, "MSCO")), Ok(1));
    assert_eq!(translator.translate(&mut container, &taq_add(3, 8, Side::Bid, 900, 5, "GSCO")), Ok(1));
    assert_eq!(container.messages[0], [0, 1, 5, 10, 1000, 1, 0, 0, 0]);
    assert_eq!(container.messages[1], [0, 2, 6, 20, 900, 2, 0, 2, 0]);
    assert_eq!(container.messages[2], [0, 3, 7, 5, 900, 2, 0, 3, 0]);
    assert_eq!(container.messages[3], [0, 3, 8, 5, 900, 2, 0, 2, 0]);
    assert_eq!(container.bbos[0], [1000, -1]);
    assert_eq!(container.bbos[1], [1000, 900]);

    // an execution at the order's price
    let execution = taq(
        Some(4),
        Body::OrderExecution(OrderExecution {
            order_id: 5,
            trade_id: 1,
            price: PriceBasis::new(1000, 10000),
            volume: 4,
            printable_flag: 1,
        }),
    );
    assert_eq!(translator.translate(&mut container, &execution), Ok(1));
    assert_eq!(container.messages[4], [4, 4, 5, 4, 1000, 1, 10, 1, 0]);
    assert_eq!(container.messages[0][8], 4);

    // a modification that lowers the volume cancels the difference
    let lower = taq(
        Some(5),
        Body::ModifyOrder(ModifyOrder {
            order_id: 5,
            price: PriceBasis::new(1000, 10000),
            volume: 2,
            position_change: PositionChange::Kept,
        }),
    );
    assert_eq!(translator.translate(&mut container, &lower), Ok(1));
    // the record holds what is cancelled and what the order had before
    assert_eq!(container.messages[5], [2, 5, 5, 4, 1000, 1, 6, 0, 0]);
    assert_eq!(container.messages[4][8], 5);

    // a modification of the price ends the order and starts it anew
    let reprice = taq(
        Some(6),
        Body::ModifyOrder(ModifyOrder {
            order_id: 5,
            price: PriceBasis::new(1100, 10000),
            volume: 2,
            position_change: PositionChange::Lost,
        }),
    );
    assert_eq!(translator.translate(&mut container, &reprice), Ok(2));
    assert_eq!(container.messages[6], [1, 6, 5, 2, 1000, 1, 2, 0, 0]);
    assert_eq!(container.messages[7], [0, 6, 5, 2, 1100, 1, 0, 0, 0]);
    assert_eq!(container.messages[5][8], 6);
    assert_eq!(translator.status(5).map(|s| (s.price, s.shares, s.index)), Some((1100, 2, 7)));

    // a replacement links the new order to the old
    let replace = taq(
        Some(7),
        Body::ReplaceOrder(ReplaceOrder {
            order_id: 6,
            new_order_id: 9,
            price: PriceBasis::new(950, 10000),
            volume: 3,
        }),
    );
    assert_eq!(translator.translate(&mut container, &replace), Ok(1));
    assert_eq!(container.messages[8], [3, 7, 9, 3, 950, 2, 20, 6, 0]);
    assert_eq!(container.messages[1][8], 8);
    assert_eq!(translator.status(6), None);

    let delete = taq(Some(8), Body::DeleteOrder(DeleteOrder { order_id: 9 }));
    assert_eq!(translator.translate(&mut container, &delete), Ok(1));
    assert_eq!(container.messages[9], [1, 8, 9, 3, 950, 2, 3, 0, 0]);
    assert_eq!(container.messages[8][8], 9);

    let cross = taq(
        Some(9),
        Body::CrossTrade(CrossTrade {
            cross_id: 1,
            price: PriceBasis::new(1000, 10000),
            volume: 50,
            cross_type: CrossType::C,
        }),
    );
    assert_eq!(translator.translate(&mut container, &cross), Ok(1));
    assert_eq!(container.messages[10], [6, 9, 0, 50, 1000, 0, 0, 2, 0]);
    let hidden = taq(
        Some(9),
        Body::NonDisplayedTrade(NonDisplayedTrade {
            trade_id: 1,
            price: PriceBasis::new(1000, 10000),
            volume: 5,
        }),
    );
    assert_eq!(translator.translate(&mut container, &hidden), Ok(1));
    assert_eq!(container.messages[11], [7, 9, 0, 5, 1000, 0, 0, 0, 0]);
    assert_eq!(translator.translate(&mut container, &taq(None, Body::Imbalance)), Ok(0));

    assert_eq!(container.messages.len(), 12);
    assert_eq!(container.bbos.len(), 12);
    assert_eq!(container.bbos[11], [1100, 900]);
    assert_eq!(container.book.bbo(), (Some(1100), Some(900)));
    let names: Vec<(String, u64)> = translator.mpid_entries();
    assert_eq!(
        names,
        vec![("".to_string(), 0), ("GSCO".to_string(), 2), ("MSCO".to_string(), 3)]
    );
}

#[test]
fn taq_messages_that_cannot_be_taken() {
    let mut translator = Translator::new();
    let mut container = StockContainer::new();
    translator.translate(&mut container, &taq_add(1, 5, Side::Ask, 1000, 10, "")).unwrap();
    let delete = taq(Some(8), Body::DeleteOrder(DeleteOrder { order_id: 9 }));
    assert_eq!(translator.translate(&mut container, &delete), Err(TranslateError::OrderNotFound));
    let untimed = taq(None, Body::DeleteOrder(DeleteOrder { order_id: 5 }));
    assert_eq!(translator.translate(&mut container, &untimed), Err(TranslateError::NoTime));
    let too_much = taq(
        Some(4),
        Body::OrderExecution(OrderExecution {
            order_id: 5,
            trade_id: 1,
            price: PriceBasis::new(1000, 10000),
            volume: 11,
            printable_flag: 1,
        }),
    );
    assert_eq!(translator.translate(&mut container, &too_much), Err(TranslateError::ExceedsShares));
    // the order is known from another symbol
    let mut other = StockContainer::new();
    let delete = taq(Some(8), Body::DeleteOrder(DeleteOrder { order_id: 5 }));
    assert_eq!(translator.translate(&mut other, &delete), Err(TranslateError::BadIndex));
    assert_eq!(container.messages.len(), 1);
    assert_eq!(container.messages[0][8], 0);
}

fn itch(timestamp: u64, body: itchy::Body) -> itchy::Message {
    itchy::Message { stock_locate: 1, timestamp, body }
}

#[test]
fn itch_messages_become_chained_records() {
    let mut translator = nasdaq::data::Translator::new();
    let mut container = nasdaq::data::StockContainer::new();
    let position = itch(
        0,
        itchy::Body::ParticipantPosition(itchy::MarketParticipantPosition {
            mpid: "GSCO".to_string(),
            stock: "AAPL".to_string(),
            primary_market_maker: true,
            market_maker_mode: itchy::MarketMakerMode::Normal,
            market_participant_state: itchy::MarketParticipantState::Active,
        }),
    );
    assert_eq!(translator.translate(&mut container, &position), Ok(false));
    let add = |time, reference, side, price, shares, mpid: Option<&str>| {
        itch(
            time,
            itchy::Body::AddOrder(itchy::AddOrder {
                reference,
                side,
                shares,
                price: PriceBasis::new(price, 10000),
                mpid: mpid.map(|m| m.to_string()),
            }),
        )
    };
    assert_eq!(translator.translate(&mut container, &add(1, 5, Side::Ask, 1000, 10, None)), Ok(true));
    assert_eq!(
        translator.translate(&mut container, &add(2, 6, Side::Bid, 900, 20, Some("GSCO"))),
        Ok(true)
    );
    assert_eq!(
        translator.translate(&mut container, &add(2, 7, Side::Bid, 900, 20, Some("NONE"))),
        Ok(true)
    );
    assert_eq!(container.messages[0], [0, 1, 5, 10, 1000, 1, 0, 0, 0]);
    assert_eq!(container.messages[1], [0, 2, 6, 20, 900, 2, 0, 1, 0]);
    assert_eq!(container.messages[2], [0, 2, 7, 20, 900, 2, 0, 0, 0]);
    let cancel = itch(3, itchy::Body::OrderCancelled { reference: 5, cancelled: 4 });
    assert_eq!(translator.translate(&mut container, &cancel), Ok(true));
    assert_eq!(container.messages[3], [2, 3, 5, 4, 1000, 1, 10, 0, 0]);
    assert_eq!(container.messages[0][8], 3);
    let executed = itch(
        4,
        itchy::Body::OrderExecutedWithPrice {
            reference: 5,
            executed: 1,
            match_number: 1,
            printable: false,
            price: PriceBasis::new(1010, 10000),
        },
    );
    assert_eq!(translator.translate(&mut container, &executed), Ok(true));
    assert_eq!(container.messages[4], [5, 4, 5, 1, 1010, 1, 6, 2, 0]);
    assert_eq!(container.messages[3][8], 4);
    let executed = itch(5, itchy::Body::OrderExecuted { reference: 5, executed: 5, match_number: 2 });
    assert_eq!(translator.translate(&mut container, &executed), Ok(true));
    assert_eq!(container.messages[5], [4, 5, 5, 5, 1000, 1, 5, 0, 0]);
    let halted = itch(
        6,
        itchy::Body::CrossTrade(itchy::CrossTrade {
            shares: 1,
            cross_price: PriceBasis::new(1, 10000),
            cross_type: itchy::CrossType::IpoOrHalted,
        }),
    );
    assert_eq!(translator.translate(&mut container, &halted), Ok(false));
    let late = itch(
        6,
        itchy::Body::CrossTrade(itchy::CrossTrade {
            shares: 1,
            cross_price: PriceBasis::new(1, 10000),
            cross_type: itchy::CrossType::ExtendedTradingClose,
        }),
    );
    let records = container.messages.len();
    assert_eq!(translator.translate(&mut container, &late), Ok(true));
    assert_eq!(container.messages[records], [6, 6, 0, 1, 1, 0, 0, 5, 0]);
    assert!(nasdaq::data::check_record(&container.messages[records]));
    assert_eq!(
        nasdaq::data::decode_cross_type(nasdaq::data::encode_cross_type(itchy::CrossType::ExtendedTradingClose)),
        itchy::CrossType::ExtendedTradingClose
    );
    let opening = itch(
        6,
        itchy::Body::CrossTrade(itchy::CrossTrade {
            shares: 100,
            cross_price: PriceBasis::new(990, 10000),
            cross_type: itchy::CrossType::Opening,
        }),
    );
    assert_eq!(translator.translate(&mut container, &opening), Ok(true));
    assert_eq!(container.messages[records + 1], [6, 6, 0, 100, 990, 0, 0, 1, 0]);
    let directory = itch(
        7,
        itchy::Body::StockDirectory(itchy::StockDirectory {
            stock: "AAPL".to_string(),
            market_category: itchy::MarketCategory::NasdaqGlobalSelect,
            financial_status: itchy::FinancialStatus::Normal,
            round_lot_size: 100,
            round_lots_only: false,
            issue_classification: itchy::IssueClassification::CommonStock,
            issue_subtype: itchy::IssueSubType::CommonShares,
        }),
    );
    assert_eq!(translator.translate(&mut container, &directory), Ok(false));
    assert_eq!(container.name, Some("AAPL".to_string()));
    let imbalance = |indicator| {
        itch(
            8,
            itchy::Body::Imbalance(itchy::ImbalanceIndicator {
                paired_shares: 1,
                imbalance_shares: 2,
                imbalance_direction: itchy::ImbalanceDirection::Sell,
                stock: "AAPL".to_string(),
                far_price: PriceBasis::new(3, 10000),
                near_price: PriceBasis::new(4, 10000),
                current_ref_price: PriceBasis::new(5, 10000),
                cross_type: itchy::CrossType::Closing,
                price_variation_indicator: indicator,
            }),
        )
    };
    assert_eq!(translator.translate(&mut container, &imbalance('A')), Ok(false));
    assert_eq!(container.noii_messages, vec![[1, 2, 2, 3, 4, 5, 2, 10]]);
    assert_eq!(translator.translate(&mut container, &imbalance('?')), Err(TranslateError::BadIndicator));
    assert_eq!(container.book.inner.bbo(), (None, Some(900)));
    assert_eq!(translator.mpid_entries(), vec![("GSCO".to_string(), 1)]);
}
