use mmm::collections::Side;
use mmm::taq::enums::{
    CrossType, ExchangeCode, HaltConditionType, IssueClassification, MarketCategory, MarketState,
    PositionChange, RetailPriceImprovementExist, SSRState, SecurityStatusType,
};
use mmm::taq::line::{parse_message, LineError};
use mmm::taq::parser::{Body, Message};
use mmm::text::{first_chars, parse_number, trim_end};

const NOON: u64 = 12 * 3600 * 1_000_000_000;

/// A line with the ten-thousandths of every field that is written as a decimal number.
fn read(line: &str) -> Result<Message, LineError> {
    let fields: Vec<String> = line.split(',').map(str::to_string).collect();
    let decimals: Vec<Option<u64>> = fields
        .iter()
        .map(|field| {
            let (whole, part) = field.split_once('.').unwrap_or((field.as_str(), ""));
            let part = format!("{:0<4}", part);
            match (whole.parse::<u64>(), part[..4].parse::<u64>()) {
                (Ok(whole), Ok(part)) => Some(whole * 10000 + part),
                _ => None,
            }
        })
        .collect();
    let time = if fields.len() > 2 && fields[2].contains(':') { Some(NOON) } else { None };
    parse_message(&fields, &decimals, time, 7)
}

#[test]
fn an_order_is_read_from_its_line() {
    let message = read("100,1162362,12:00:00.000000000,AAPL,5,123456,141.25,300,B,GSCO ").unwrap();
    assert_eq!(message.msg_type, 100);
    assert_eq!(message.symbol, "AAPL");
    let long = read("100,1,12:00:00.1,A.VERY.LONG.SYMBOL,5,1,1,1,S,GOLDMAN  ").unwrap();
    assert_eq!(long.symbol, "A.VERY.LONG");
    match long.body {
        Body::AddOrder(add) => assert_eq!(add.firm_id, "GOLDM"),
        other => panic!("{:?}", other),
    }
    assert_eq!((message.sequence_number.channel_id, message.sequence_number.sequence_number), (7, 1162362));
    assert_eq!(message.source_time, Some(NOON));
    match message.body {
        Body::AddOrder(add) => {
            assert_eq!(add.order_id, 123456);
            assert_eq!((add.price.inner(), add.price.basis()), (1412500, 10000));
            assert_eq!(add.volume, 300);
            assert_eq!(add.side, Side::Bid);
            assert_eq!(add.firm_id, "GSCO");
        }
        other => panic!("{:?}", other),
    }
    match read("106,2,12:00:00.5,AAPL,5,+65535,0.0001,1,S,LONGNAME").unwrap().body {
        Body::AddOrderRefresh(add) => {
            assert_eq!(add.order_id, 65535);
            assert_eq!(add.price.inner(), 1);
            assert_eq!(add.side, Side::Ask);
            assert_eq!(add.firm_id, "LONGN");
        }
        other => panic!("{:?}", other),
    }
}

#[test]
fn the_life_of_an_order_is_read_from_its_lines() {
    match read("101,3,12:00:00.1,AAPL,6,123456,141.3,200,1").unwrap().body {
        Body::ModifyOrder(modify) => {
            assert_eq!((modify.order_id, modify.price.inner(), modify.volume), (123456, 1413000, 200));
            assert_eq!(modify.position_change, PositionChange::Lost);
        }
        other => panic!("{:?}", other),
    }
    match read("104,4,12:00:00.1,AAPL,7,123456,123457,141,100").unwrap().body {
        Body::ReplaceOrder(replace) => {
            assert_eq!((replace.order_id, replace.new_order_id), (123456, 123457));
            assert_eq!((replace.price.inner(), replace.volume), (1410000, 100));
        }
        other => panic!("{:?}", other),
    }
    match read("103,5,12:00:00.1,AAPL,8,123457,99,141,40,1").unwrap().body {
        Body::OrderExecution(execution) => {
            assert_eq!((execution.order_id, execution.trade_id), (123457, 99));
            assert_eq!((execution.price.inner(), execution.volume, execution.printable_flag), (1410000, 40, 1));
        }
        other => panic!("{:?}", other),
    }
    match read("102,6,12:00:00.1,AAPL,9,123457").unwrap().body {
        Body::DeleteOrder(delete) => assert_eq!(delete.order_id, 123457),
        other => panic!("{:?}", other),
    }
}

#[test]
fn trades_are_read_from_their_lines() {
    match read("110,7,12:00:00.1,AAPL,1,77,141.5,10").unwrap().body {
        Body::NonDisplayedTrade(trade) => {
            assert_eq!((trade.trade_id, trade.price.inner(), trade.volume), (77, 1415000, 10))
        }
        other => panic!("{:?}", other),
    }
    match read("111,8,12:00:00.1,AAPL,1,78,141.5,1000,5").unwrap().body {
        Body::CrossTrade(cross) => {
            assert_eq!((cross.cross_id, cross.volume), (78, 1000));
            assert_eq!(cross.cross_type, CrossType::R);
        }
        other => panic!("{:?}", other),
    }
    match read("113,9,12:00:00.1,AAPL,1,78,900").unwrap().body {
        Body::CrossCorrection(correction) => assert_eq!((correction.cross_id, correction.volume), (78, 900)),
        other => panic!("{:?}", other),
    }
    for kind in ["112", "221"] {
        let message = read(&format!("{},9,12:00:00.1,AAPL,1,77", kind)).unwrap();
        assert_eq!(message.msg_type as u32, kind.parse::<u32>().unwrap());
        match message.body {
            Body::TradeCancel(cancel) => assert_eq!(cancel.trade_id, 77),
            other => panic!("{:?}", other),
        }
    }
    match read("114,9,12:00:00.1,AAPL,1,C").unwrap().body {
        Body::RetailPriceImprovement(rpi) => {
            assert_eq!(rpi.rpi_indicator, Some(RetailPriceImprovementExist::C))
        }
        other => panic!("{:?}", other),
    }
    match read("114,9,12:00:00.1,AAPL,1, ").unwrap().body {
        Body::RetailPriceImprovement(rpi) => assert_eq!(rpi.rpi_indicator, None),
        other => panic!("{:?}", other),
    }
}

#[test]
fn a_symbol_is_read_from_its_line() {
    let message = read("3,1,AAPL,3,900,P,C,100,141.25,5000,2,Y,500000,1").unwrap();
    assert_eq!(message.msg_type, 3);
    assert_eq!(message.symbol, "AAPL");
    assert_eq!(message.source_time, None);
    match message.body {
        Body::SymbolIndexMapping(symbol) => {
            assert_eq!(symbol.market_category, MarketCategory::NyseArcaEquities);
            assert_eq!(symbol.system_id, 900);
            assert_eq!(symbol.exchange_code, Some(ExchangeCode::NyseArca));
            assert_eq!(symbol.issue_classification, IssueClassification::CommonStock);
            assert_eq!(symbol.round_lot_size, 100);
            assert_eq!(symbol.prev_close_price.inner(), 1412500);
            assert_eq!((symbol.prev_close_volume, symbol.price_resolution), (5000, 2));
            assert!(symbol.round_lots_accepted);
            // more than 32 bits hold
            assert_eq!(symbol.mpv, u32::MAX);
            assert_eq!(symbol.unit_of_trade, 1);
        }
        other => panic!("{:?}", other),
    }
    assert_eq!(
        read("3,1,AAPL,2,900,P,C,100,141.25,5000,2,Y,0.01,1").err(),
        Some(LineError::Code(3))
    );
    assert_eq!(
        read("3,1,AAPL,4,900,P,C,100,141.25,5000,2,y,0.01,1").err(),
        Some(LineError::Code(11))
    );
}

#[test]
fn the_status_of_a_security_is_read_from_its_line() {
    match read("34,1,12:00:00.1,AAPL,1,4,~, , ,P,,x,E,O").unwrap().body {
        Body::SecurityStatus(status) => {
            assert_eq!(status.security_status, SecurityStatusType::TradingHalt);
            assert_eq!(status.halt_condition, HaltConditionType::SecurityNotDelayedHalted);
            assert_eq!((status.price_1.inner(), status.price_2.inner()), (0, 0));
            assert_eq!(status.ssr_triggering_exchange_id, Some(ExchangeCode::NyseArca));
            assert_eq!((status.ssr_triggering_volume, status.time), (0, 0));
            assert_eq!(status.ssr_state, SSRState::ShortSaleRestrictionInEffect);
            assert_eq!(status.market_state, Some(MarketState::CoreSession));
        }
        other => panic!("{:?}", other),
    }
    assert_eq!(read("34,1,12:00:00.1,AAPL,1,4,~, , ,P,,x,E").err(), Some(LineError::Missing(13)));
    assert_eq!(read("34,1,12:00:00.1,AAPL,1,9,~, , ,P,,x,E,O").err(), Some(LineError::Code(5)));
}

#[test]
fn imbalances_and_summaries_are_checked_and_say_nothing() {
    let imbalance = "105,1,12:00:00.1,AAPL,1,141.25,10,20,30,930,O,B,1,2,3,4,5,6,1,0,,7,S";
    assert!(matches!(read(imbalance).unwrap().body, Body::Imbalance));
    assert_eq!(read(&imbalance.replace(",O,B,", ",Z,B,")).err(), Some(LineError::Code(10)));
    assert_eq!(read(&imbalance.replace(",6,1,0,", ",6,4,0,")).err(), Some(LineError::Code(18)));
    assert_eq!(read(&imbalance.replace(",6,1,0,", ",6,1,2,")).err(), Some(LineError::Code(19)));
    assert_eq!(read(&imbalance.replace(",7,S", ",7")).err(), Some(LineError::Missing(22)));
    let summary = "223,1,12:00:00.1,AAPL,142,140,141,141.5,100000";
    assert!(matches!(read(summary).unwrap().body, Body::StockSummary));
    assert_eq!(read("223,1,12:00:00.1,AAPL,142,140,high,141.5,100000").err(), Some(LineError::Decimal(6)));
}

#[test]
fn a_line_that_cannot_be_read_holds_no_message() {
    assert_eq!(read("").err(), Some(LineError::Number(0)));
    assert_eq!(read("100").err(), Some(LineError::Missing(1)));
    assert_eq!(read("100,x,12:00:00.1,AAPL").err(), Some(LineError::Number(1)));
    assert_eq!(read("100,1,12:00:00.1").err(), Some(LineError::Missing(3)));
    assert_eq!(read("99,1,12:00:00.1,AAPL").err(), Some(LineError::Kind(99)));
    assert_eq!(read("107,1,12:00:00.1,AAPL").err(), Some(LineError::Kind(107)));
    assert_eq!(read("100,1,noon,AAPL,5,1,1.5,3,B,F").err(), Some(LineError::Time));
    assert_eq!(read("100,1,12:00:00.1,AAPL,5,-1,1.5,3,B,F").err(), Some(LineError::Number(5)));
    assert_eq!(read("100,1,12:00:00.1,AAPL,5,1,cheap,3,B,F").err(), Some(LineError::Decimal(6)));
    assert_eq!(read("100,1,12:00:00.1,AAPL,5,1,1.5,4294967296,B,F").err(), Some(LineError::Number(7)));
    assert_eq!(read("100,1,12:00:00.1,AAPL,5,1,1.5,3,X,F").err(), Some(LineError::Code(8)));
    assert_eq!(read("100,1,12:00:00.1,AAPL,5,1,1.5,3,B").err(), Some(LineError::Missing(9)));
    assert_eq!(read("106,1,12:00:00.1,AAPL,5,65536,1.5,3,B,F").err(), Some(LineError::Number(5)));
    assert_eq!(read("103,1,12:00:00.1,AAPL,5,1,2,1.5,3,256").err(), Some(LineError::Number(9)));
    assert_eq!(read("101,1,12:00:00.1,AAPL,5,1,1.5,3,2").err(), Some(LineError::Code(8)));
    assert_eq!(read("111,1,12:00:00.1,AAPL,5,1,1.5,3,Q").err(), Some(LineError::Code(8)));
}

#[test]
fn numbers_and_names_are_read_from_text() {
    assert_eq!(parse_number("18446744073709551615", u64::MAX), Some(u64::MAX));
    assert_eq!(parse_number("18446744073709551616", u64::MAX), None);
    assert_eq!(parse_number("+007", 7), Some(7));
    assert_eq!(parse_number("8", 7), None);
    assert_eq!(parse_number("", 7), None);
    assert_eq!(parse_number("+", 7), None);
    assert_eq!(parse_number("1 ", 7), None);
    assert_eq!(parse_number("0", 0), Some(0));
    assert_eq!(trim_end("GS \t\u{a0}\n"), "GS");
    assert_eq!(trim_end("  G S"), "  G S");
    assert_eq!(trim_end(" \r "), "");
    assert_eq!(first_chars("LONGNAME", 5), "LONGN");
    assert_eq!(first_chars("ab", 5), "ab");
    assert_eq!(first_chars("ab", 0), "");
}
