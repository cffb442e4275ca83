use mmm::coinbase::high_availability::{arrival, merge_subscribe, Arrival, Broker, Buffer};
use mmm::coinbase::websocket::{Channel, ChannelType, Subscribe};

fn sequences(stream: &[Result<u64, mmm::coinbase::high_availability::Loss>]) -> Vec<Result<u64, u64>> {
    stream
        .iter()
        .map(|item| match item {
            Ok(data) => Ok(*data),
            Err(loss) => Err(loss.sequence),
        })
        .collect()
}

#[test]
fn two_sources_make_one_stream() {
    let mut buffer: Buffer<u64> = Buffer::new("BTC-USD".to_string(), 2, 10);
    let mut out = Vec::new();
    for (source, sequence) in [(0, 11), (1, 13), (0, 12), (0, 13), (1, 14), (1, 15)] {
        buffer.write(source, sequence, sequence);
        out.extend(buffer.drain());
    }
    let got: Vec<(u64, Option<u64>)> = out;
    assert_eq!(
        got,
        vec![(11, Some(11)), (12, Some(12)), (13, Some(13)), (14, Some(14)), (15, Some(15))]
    );
    assert_eq!(buffer.read_seq(), 15);
    assert_eq!(buffer.waiting(), 0);
    assert_eq!(buffer.write_seqs(), &vec![13, 15]);
}

#[test]
fn a_gap_is_reported_once_all_sources_passed_it() {
    let mut buffer: Buffer<u64> = Buffer::new("BTC-USD".to_string(), 2, 10);
    let mut out = Vec::new();
    for (source, sequence) in [(0u64, 11u64), (0, 12), (0, 14)] {
        buffer.write(source as usize, sequence, sequence);
        out.extend(buffer.drain());
    }
    assert_eq!(out, vec![(11, Some(11)), (12, Some(12))]);
    // the other source has not passed the gap yet
    assert_eq!(buffer.read(), None);
    buffer.write(1, 14, 140);
    assert_eq!(buffer.read(), Some((13, None)));
    // the first delivery of a number stays
    assert_eq!(buffer.read(), Some((14, Some(14))));
    assert_eq!(buffer.read(), None);
}

#[test]
fn what_was_handed_on_is_not_taken_again() {
    let mut buffer: Buffer<u64> = Buffer::new("x".to_string(), 1, 10);
    buffer.write(0, 11, 1);
    assert_eq!(buffer.read(), Some((11, Some(1))));
    buffer.write(0, 11, 2);
    buffer.write(0, 5, 3);
    assert_eq!(buffer.read(), None);
    assert_eq!(buffer.write_seqs(), &vec![11]);
    assert_eq!(buffer.name(), "x");
}

#[test]
fn the_broker_keeps_a_stream_for_each_product() {
    let mut broker: Broker<u64> = Broker::new(2);
    let btc = "BTC-USD".to_string();
    let eth = "ETH-USD".to_string();
    assert_eq!(sequences(&broker.handle(0, &btc, 11, 11)), vec![Ok(11)]);
    assert_eq!(sequences(&broker.handle(1, &eth, 70, 70)), vec![Ok(70)]);
    assert_eq!(sequences(&broker.handle(0, &btc, 12, 12)), vec![Ok(12)]);
    assert_eq!(sequences(&broker.handle(0, &btc, 14, 14)), vec![]);
    assert_eq!(sequences(&broker.handle(1, &btc, 12, 12)), vec![]);
    let stream = broker.handle(1, &btc, 14, 14);
    assert_eq!(sequences(&stream), vec![Err(13), Ok(14)]);
    match &stream[0] {
        Err(loss) => assert_eq!(loss.product_id, "BTC-USD"),
        Ok(_) => panic!("no loss"),
    }
    assert_eq!(sequences(&broker.handle(0, &eth, 72, 72)), vec![]);
    assert_eq!(sequences(&broker.handle(0, &eth, 71, 71)), vec![Ok(71), Ok(72)]);
}

#[test]
fn subscriptions_merge_without_repeats() {
    let mut kept = None;
    merge_subscribe(
        &mut kept,
        Subscribe {
            product_ids: vec!["BTC-USD".to_string()],
            channels: vec![Channel::new(ChannelType::Full)],
        },
    );
    merge_subscribe(
        &mut kept,
        Subscribe {
            product_ids: vec!["BTC-USD".to_string(), "ETH-USD".to_string(), "ETH-USD".to_string()],
            channels: vec![
                Channel::new(ChannelType::Full),
                Channel::with_product_ids(ChannelType::Ticker, vec!["BTC-USD".to_string()]),
                Channel::with_product_ids(ChannelType::Ticker, vec!["BTC-USD".to_string()]),
                Channel::new(ChannelType::Full),
            ],
        },
    );
    let kept = kept.unwrap();
    assert_eq!(kept.product_ids, vec!["BTC-USD".to_string(), "ETH-USD".to_string()]);
    assert_eq!(
        kept.channels,
        vec![
            Channel::new(ChannelType::Full),
            Channel::with_product_ids(ChannelType::Ticker, vec!["BTC-USD".to_string()]),
        ]
    );
}

#[test]
fn a_merge_is_a_union() {
    let products = |names: &[&str]| names.iter().map(|n| n.to_string()).collect::<Vec<_>>();
    let mut kept = Subscribe {
        product_ids: products(&["A", "B"]),
        channels: vec![Channel::new(ChannelType::Full)],
    };
    let more = Subscribe { product_ids: products(&["A"]), channels: vec![Channel::new(ChannelType::Full)] };
    kept.merge(more.clone());
    assert_eq!(kept.product_ids, products(&["A", "B"]));
    assert_eq!(kept.channels, vec![Channel::new(ChannelType::Full)]);
    // what was held stays first and in its order, what is new comes behind
    kept.merge(Subscribe {
        product_ids: products(&["C", "B", "D", "C", "A"]),
        channels: vec![
            Channel::with_product_ids(ChannelType::Ticker, products(&["A"])),
            Channel::new(ChannelType::Full),
            Channel::with_product_ids(ChannelType::Ticker, products(&["B"])),
            Channel::with_product_ids(ChannelType::Ticker, products(&["A"])),
            Channel::new(ChannelType::Heartbeat),
        ],
    });
    assert_eq!(kept.product_ids, products(&["A", "B", "C", "D"]));
    assert_eq!(
        kept.channels,
        vec![
            Channel::new(ChannelType::Full),
            Channel::with_product_ids(ChannelType::Ticker, products(&["A"])),
            Channel::with_product_ids(ChannelType::Ticker, products(&["B"])),
            Channel::new(ChannelType::Heartbeat),
        ]
    );
    // taking the same in again changes nothing
    let before = kept.clone();
    kept.merge(more);
    assert_eq!(kept, before);
    // a list that held an item twice holds it once afterwards
    let mut twice = Subscribe { product_ids: products(&["A", "B", "A"]), channels: vec![] };
    twice.merge(Subscribe { product_ids: vec![], channels: vec![] });
    assert_eq!(twice.product_ids, products(&["A", "B"]));
}

#[test]
fn a_source_comes_in_order_after_a_gap_or_out_of_turn() {
    let mut buffer: Buffer<u64> = Buffer::new("BTC-USD".to_string(), 2, 10);
    assert_eq!(buffer.arrival(0, 1), Arrival::InOrder);
    assert_eq!(buffer.arrival(0, 11), Arrival::LocalLoss);
    buffer.write(0, 11, 11);
    assert_eq!(buffer.arrival(0, 12), Arrival::InOrder);
    assert_eq!(buffer.arrival(0, 13), Arrival::LocalLoss);
    assert_eq!(buffer.arrival(0, 11), Arrival::Inversion);
    assert_eq!(buffer.arrival(0, 3), Arrival::Inversion);
    assert_eq!(buffer.arrival(1, 12), Arrival::LocalLoss);
    assert_eq!(arrival(u64::MAX, u64::MAX), Arrival::Inversion);
    assert_eq!(arrival(u64::MAX - 1, u64::MAX), Arrival::InOrder);
    assert_eq!(arrival(0, u64::MAX), Arrival::LocalLoss);
    let mut broker: Broker<u64> = Broker::new(2);
    let product = "BTC-USD".to_string();
    assert_eq!(broker.arrival(1, &product, 1), Arrival::InOrder);
    assert_eq!(broker.arrival(1, &product, 7), Arrival::LocalLoss);
    broker.handle(1, &product, 7, 7);
    assert_eq!(broker.arrival(1, &product, 8), Arrival::InOrder);
    assert_eq!(broker.arrival(1, &product, 7), Arrival::Inversion);
    assert_eq!(broker.arrival(0, &product, 8), Arrival::LocalLoss);
    assert_eq!(broker.arrival(0, &"ETH-USD".to_string(), 1), Arrival::InOrder);
}

#[test]
fn the_stream_is_whole_however_it_is_read() {
    // source, sequence; a read is asked for after the deliveries at the given places
    let deliveries = [(0usize, 11u64), (1, 13), (0, 12), (1, 14), (0, 15), (1, 16), (0, 16)];
    for reads_after in [vec![], vec![0, 1, 2, 3, 4, 5, 6], vec![2, 2, 2], vec![0, 0, 6, 6, 6], vec![3]] {
        let mut buffer: Buffer<u64> = Buffer::new("BTC-USD".to_string(), 2, 10);
        let mut out = Vec::new();
        for (at, (source, sequence)) in deliveries.iter().enumerate() {
            buffer.write(*source, *sequence, *sequence * 10 + *source as u64);
            for _ in reads_after.iter().filter(|place| **place == at) {
                if let Some(item) = buffer.read() {
                    out.push(item);
                }
            }
        }
        out.extend(buffer.drain());
        // 14 comes from the second source alone, 16 from it first
        assert_eq!(
            out,
            vec![
                (11, Some(110)),
                (12, Some(120)),
                (13, Some(131)),
                (14, Some(141)),
                (15, Some(150)),
                (16, Some(161))
            ]
        );
        assert_eq!(buffer.read(), None);
    }
    // with 13 delivered by no source and passed by both, its loss comes out in its place
    let mut buffer: Buffer<u64> = Buffer::new("BTC-USD".to_string(), 2, 10);
    let mut out = Vec::new();
    for (source, sequence) in [(0usize, 11u64), (0, 12), (0, 14), (1, 12), (1, 15)] {
        buffer.write(source, sequence, sequence);
        if sequence == 14 {
            out.extend(buffer.read());
        }
    }
    out.extend(buffer.drain());
    assert_eq!(out, vec![(11, Some(11)), (12, Some(12)), (13, None), (14, Some(14)), (15, Some(15))]);
}
