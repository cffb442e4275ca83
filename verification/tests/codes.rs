use mmm::coinbase::serde::{
    decrement_of, deny_empty_string, fee_rates_of, order_price_of, order_profile_of,
    price_text_of, raw_decrement_of, FeeRates, RawDecrement, TextError,
};
use mmm::coinbase::websocket::{zero, Decrement, OrderProfile, PartType};
use mmm::collections::book::OrderPrice;
use mmm::collections::Side;
use mmm::itchy::enums::{
    parse_issue_classification, parse_issue_subtype, IssueClassification, IssueSubType, ParseError,
};
use mmm::nasdaq;
use mmm::nasdaq::constants::{min_to_ns, sec_to_ns, END_TIME_NS, P_N, REG_START_TIME_NS, R_N, START_TIME_NS, T_N};
use mmm::taq::enums::{
    encode_halt_condition, encode_security_status_type, parse_auction_type, parse_cross_type,
    parse_exchange_code, parse_issue_classifcation, parse_market_category, parse_market_state,
    parse_position_change, parse_rti_indicator, parse_side, parse_ssr_state,
    parse_ssr_triggering_exchange_id, AuctionStatus, AuctionType, CrossType, ExchangeCode,
    FreezeStatus, HaltConditionType, MarketCategory, MarketState, PositionChange,
    RetailPriceImprovementExist, SSRState, SecurityStatusType,
};
use mmm::taq::parser::SequenceNumber;
use mmm::us::price::PriceBasis;
use mmm::util::{code_to_num, num_to_code, AlphaNumeric, RadixCode};

#[test]
fn taq_codes() {
    assert_eq!(parse_side("B"), Some(Side::Bid));
    assert_eq!(parse_side("S"), Some(Side::Ask));
    assert_eq!(parse_side("BS"), None);
    assert_eq!(parse_side(""), None);
    assert_eq!(parse_position_change("0"), PositionChange::Kept);
    assert_eq!(parse_position_change("1"), PositionChange::Lost);
    assert_eq!(parse_rti_indicator("C"), Some(RetailPriceImprovementExist::C));
    assert_eq!(parse_rti_indicator(" "), None);
    assert_eq!(parse_cross_type("5"), CrossType::R);
    assert_eq!(parse_cross_type("6"), CrossType::C);
    assert_eq!(parse_auction_type("H"), AuctionType::H);
    assert_eq!(encode_security_status_type("4"), SecurityStatusType::TradingHalt);
    assert_eq!(encode_halt_condition("~"), HaltConditionType::SecurityNotDelayedHalted);
    assert_eq!(parse_market_state("X"), Some(MarketState::Closed));
    assert_eq!(parse_market_state("x"), None);
    assert_eq!(parse_market_category(3), MarketCategory::NyseArcaEquities);
    assert_eq!(parse_ssr_triggering_exchange_id("Z"), Some(ExchangeCode::BATS));
    assert_eq!(parse_ssr_triggering_exchange_id("U"), None);
    assert_eq!(parse_exchange_code("U"), Some(ExchangeCode::OTCBBGlobalOTC));
    assert_eq!(parse_exchange_code("K"), None);
    assert_eq!(parse_ssr_state("E"), SSRState::ShortSaleRestrictionInEffect);
    assert_eq!(parse_issue_classifcation("W"), mmm::taq::enums::IssueClassification::Warrant);
    assert_eq!(AuctionStatus::from_u8(3), Some(AuctionStatus::D));
    assert_eq!(AuctionStatus::from_u8(4), None);
    assert_eq!(FreezeStatus::from_u8(1), Some(FreezeStatus::B));
    assert_eq!(FreezeStatus::from_u8(2), None);
}

#[test]
fn cantor_pairing_of_channel_and_sequence() {
    let number = SequenceNumber::new(11, 1162362);
    assert_eq!(number.calculate_unique_reference_number(), (1162373u64 * 1162374) / 2 + 1162362);
    assert_eq!(SequenceNumber::new(0, 0).calculate_unique_reference_number(), 0);
    assert_eq!(SequenceNumber::new(1, 0).calculate_unique_reference_number(), 1);
    assert_eq!(SequenceNumber::new(0, 1).calculate_unique_reference_number(), 2);
}

#[test]
fn itch_codes_from_bytes() {
    assert_eq!(
        parse_issue_classification(b"Cx"),
        Ok((&b"x"[..], IssueClassification::CommonStock))
    );
    assert_eq!(parse_issue_classification(b""), Err(ParseError::Incomplete(1)));
    assert_eq!(parse_issue_classification(b"?"), Err(ParseError::Unknown));
    assert_eq!(parse_issue_subtype(b"C rest"), Ok((&b" rest"[1..], IssueSubType::CommonShares)));
    assert_eq!(parse_issue_subtype(b"RT"), Ok((&b""[..], IssueSubType::REIT)));
    assert_eq!(parse_issue_subtype(b"R "), Err(ParseError::Unknown));
    assert_eq!(parse_issue_subtype(b"R"), Err(ParseError::Incomplete(2)));
}

#[test]
fn nasdaq_codes() {
    assert_eq!(nasdaq::data::encode_printable(true), 1);
    assert_eq!(nasdaq::data::encode_printable(false), 2);
    assert_eq!(nasdaq::data::encode_cross_type(mmm::itchy::CrossType::ExtendedTradingClose), 5);
    assert_eq!(nasdaq::data::decode_cross_type(4), mmm::itchy::CrossType::Intraday);
    assert_eq!(nasdaq::data::encode_imbalance_direction(mmm::itchy::ImbalanceDirection::InsufficientOrders), 4);
    assert_eq!(nasdaq::data::encode_price_variation_indicator('L'), 0);
    assert_eq!(nasdaq::data::encode_price_variation_indicator('7'), 7);
    assert_eq!(nasdaq::data::encode_price_variation_indicator('C'), 12);
    assert_eq!(nasdaq::data::encode_price_variation_indicator(' '), 13);
    assert!(!nasdaq::data::known_indicator('D'));
    assert!(nasdaq::data::check_record(&[6, 0, 0, 0, 0, 0, 0, 4, 0]));
    assert!(nasdaq::data::check_record(&[6, 0, 0, 0, 0, 0, 0, 5, 0]));
    assert!(!nasdaq::data::check_record(&[6, 0, 0, 0, 0, 0, 0, 6, 0]));
    assert!(!nasdaq::data::check_record(&[6, 0, 0, 0, 0, 0, 0, 0, 0]));
    for cross_type in [
        mmm::itchy::CrossType::Opening,
        mmm::itchy::CrossType::Closing,
        mmm::itchy::CrossType::IpoOrHalted,
        mmm::itchy::CrossType::Intraday,
        mmm::itchy::CrossType::ExtendedTradingClose,
    ] {
        assert_eq!(nasdaq::data::decode_cross_type(nasdaq::data::encode_cross_type(cross_type)), cross_type);
    }
}

#[test]
fn hours_of_the_day() {
    assert_eq!(min_to_ns(1), 60_000_000_000);
    assert_eq!(sec_to_ns(3), 3_000_000_000);
    assert_eq!(START_TIME_NS, min_to_ns(4 * 60));
    assert_eq!(END_TIME_NS, min_to_ns(20 * 60 + 1));
    assert_eq!(REG_START_TIME_NS, min_to_ns(9 * 60 + 30));
    assert_eq!(T_N, 57660);
    assert_eq!(R_N, 19800);
    assert_eq!(P_N, 43200);
    assert_eq!(nasdaq::interval_loc(START_TIME_NS), 0);
    assert_eq!(nasdaq::interval_loc(REG_START_TIME_NS), R_N);
    assert_eq!(nasdaq::interval_loc(END_TIME_NS - 1), T_N - 1);
}

#[test]
fn prices_on_a_basis() {
    let mut price = PriceBasis::new(12345, 100);
    assert_eq!(price.inner(), 12345);
    price.change_basis(10000);
    assert_eq!((price.inner(), price.basis()), (1234500, 10000));
    price.change_basis(10);
    assert_eq!((price.inner(), price.basis()), (1234, 10));
    assert!(!price.checked_change_basis(u64::MAX));
    assert_eq!((price.inner(), price.basis()), (1234, 10));
    assert!(price.checked_change_basis(100));
    assert_eq!(price.inner(), 12340);
    let mut nothing = PriceBasis::new(1, 0);
    assert!(!nothing.checked_change_basis(10));
    assert_eq!(PriceBasis::default(), PriceBasis::new(0, 10000));
    assert_eq!(PriceBasis::from(77u32), PriceBasis::new(77, 10000));
}

#[test]
fn radix_codes() {
    assert_eq!(code_to_num::<36>("GSCO"), Some(((16 * 36 + 28) * 36 + 12) * 36 + 24));
    assert_eq!(code_to_num::<36>("gsco"), code_to_num::<36>("GSCO"));
    assert_eq!(code_to_num::<36>(""), Some(0));
    assert_eq!(code_to_num::<36>("A B"), None);
    assert_eq!(code_to_num::<10>("12A"), None);
    assert_eq!(code_to_num::<10>("18446744073709551615"), Some(u64::MAX));
    assert_eq!(code_to_num::<10>("18446744073709551616"), None);
    assert_eq!(num_to_code::<36>(((16 * 36 + 28) * 36 + 12) * 36 + 24), Some("GSCO".to_string()));
    assert_eq!(num_to_code::<36>(0), Some(String::new()));
    assert_eq!(num_to_code::<2>(5), Some("101".to_string()));
    let code = AlphaNumeric::new("ZZ9").unwrap();
    assert_eq!(code.to_text(), "ZZ9");
    assert_eq!(RadixCode::<16>::new("ff"), Some(RadixCode::<16>(255)));
    assert_eq!(RadixCode::<16>::new("fg"), None);
}

#[test]
fn coinbase_shapes() {
    assert_eq!(zero(), "0");
    let maker = Some(OrderProfile { part_type: PartType::Maker, fee_rate: "0.1".to_string() });
    let rates = fee_rates_of(&maker).unwrap();
    assert_eq!((rates.maker.clone(), rates.taker.clone()), (Some("0.1".to_string()), None));
    assert_eq!(order_profile_of(rates), maker);
    let taker = Some(OrderProfile { part_type: PartType::Taker, fee_rate: "0.2".to_string() });
    let rates = fee_rates_of(&taker).unwrap();
    assert_eq!((rates.maker.clone(), rates.taker.clone()), (None, Some("0.2".to_string())));
    assert_eq!(order_profile_of(rates), taker);
    assert_eq!(order_profile_of(FeeRates { maker: None, taker: None }), None);
    assert!(fee_rates_of(&None).is_none());

    let decrements = [
        Decrement::Limit { price: "1".into(), old_size: "2".into(), new_size: "3".into() },
        Decrement::MarketFunds { old_funds: "4".into(), new_funds: "5".into() },
        Decrement::MarketSize { old_size: "6".into(), new_size: "7".into() },
    ];
    for decrement in decrements {
        assert_eq!(decrement_of(raw_decrement_of(&decrement)), decrement);
    }
    assert_eq!(
        raw_decrement_of(&Decrement::MarketSize { old_size: "6".into(), new_size: "7".into() }),
        RawDecrement {
            price: None,
            old_size: Some("6".into()),
            new_size: Some("7".into()),
            old_funds: None,
            new_funds: None
        }
    );
    assert_eq!(price_text_of(&OrderPrice::Market), None);
    assert_eq!(price_text_of(&OrderPrice::Limit("9".to_string())), Some("9".to_string()));
    assert_eq!(order_price_of("9".to_string()), OrderPrice::Limit("9".to_string()));
    assert_eq!(deny_empty_string(String::new()), Err(TextError::Empty));
    assert_eq!(deny_empty_string("x".to_string()), Ok("x".to_string()));
}

#[test]
fn enocde_sequence_number() {
    let channel_id: u8 = 11;
    let sequence_num: u64 = 1162362;
    let s = SequenceNumber::new(channel_id, sequence_num);
    let r = s.calculate_unique_reference_number().to_string();
    assert_eq!(r, "675557239113");
}
