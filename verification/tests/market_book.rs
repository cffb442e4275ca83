use mmm::collections::book::{OrderBook, OrderPrice, PriceTimePriority};
use mmm::collections::Side;

fn book() -> OrderBook<OrderPrice<u64>, ()> {
    let mut book: OrderBook<OrderPrice<u64>, ()> = OrderBook::default();
    book.insert(1, Side::Ask, OrderPrice::limit(100), 10, ()).unwrap();
    book.insert(2, Side::Ask, OrderPrice::market(), 5, ()).unwrap();
    book.insert(3, Side::Ask, OrderPrice::limit(90), 1, ()).unwrap();
    book.insert(4, Side::Bid, OrderPrice::market(), 2, ()).unwrap();
    book.insert(5, Side::Bid, OrderPrice::limit(80), 3, ()).unwrap();
    book.insert(6, Side::Bid, OrderPrice::limit(85), 4, ()).unwrap();
    book
}

#[test]
fn market_and_limit_volumes() {
    let mut book = book();
    assert_eq!(book.ask_market_volume(), 5);
    assert_eq!(book.bid_market_volume(), 2);
    assert_eq!(book.ask_limit_volume(), 11);
    assert_eq!(book.bid_limit_volume(), 7);
    assert_eq!(book.total_ask_volume(), 16);
    assert_eq!(book.total_bid_volume(), 9);
}

#[test]
fn market_and_limit_orders() {
    let mut book = book();
    {
        let listed = book.ask_market_orders(None, PriceTimePriority::BothDesc);
        let ids: Vec<u64> = listed.orders.iter().map(|(id, _)| *id).collect();
        assert_eq!(ids, vec![2]);
    }
    {
        let listed = book.ask_limit_orders(Some(5), PriceTimePriority::BothDesc);
        let got: Vec<(u64, u64)> = listed.orders.iter().map(|(id, o)| (*id, *o.quantity())).collect();
        assert_eq!(got, vec![(3, 1), (1, 4)]);
    }
    {
        let listed = book.bid_limit_orders(None, PriceTimePriority::BothAsc);
        let ids: Vec<u64> = listed.orders.iter().map(|(id, _)| *id).collect();
        assert_eq!(ids, vec![5, 6]);
    }
    let listed = book.bid_market_orders(Some(9), PriceTimePriority::BothDesc);
    assert_eq!(listed.deficit, 7);
}

#[test]
fn order_prices() {
    assert!(OrderPrice::<u64>::market().is_market());
    assert!(!OrderPrice::limit(3u64).is_market());
    assert_eq!(OrderPrice::limit(3u64).as_limit(), Some(&3));
    assert_eq!(OrderPrice::<u64>::market().as_limit(), None);
    assert!(OrderPrice::<u64>::Market < OrderPrice::Limit(0));
}

#[test]
fn market_comes_first_on_both_sides() {
    let mut book: OrderBook<OrderPrice<u64>, ()> = OrderBook::new();
    book.insert(1, Side::Bid, OrderPrice::limit(100), 1, ()).unwrap();
    book.insert(2, Side::Bid, OrderPrice::market(), 1, ()).unwrap();
    book.insert(3, Side::Bid, OrderPrice::limit(90), 1, ()).unwrap();
    book.insert(4, Side::Ask, OrderPrice::limit(100), 1, ()).unwrap();
    book.insert(5, Side::Ask, OrderPrice::market(), 1, ()).unwrap();
    book.insert(6, Side::Ask, OrderPrice::limit(u64::MAX), 1, ()).unwrap();
    book.insert(7, Side::Bid, OrderPrice::limit(u64::MAX), 1, ()).unwrap();
    book.insert(8, Side::Bid, OrderPrice::limit(0), 1, ()).unwrap();
    assert_eq!(
        book.sorted_bid_prices(),
        vec![
            OrderPrice::Market,
            OrderPrice::Limit(u64::MAX),
            OrderPrice::Limit(100),
            OrderPrice::Limit(90),
            OrderPrice::Limit(0)
        ]
    );
    assert_eq!(
        book.sorted_ask_prices(),
        vec![OrderPrice::Market, OrderPrice::Limit(100), OrderPrice::Limit(u64::MAX)]
    );
    assert_eq!(book.bid_top().map(|(k, _)| *k), Some(2));
    assert_eq!(book.ask_top().map(|(k, _)| *k), Some(5));
    assert_eq!(book.bid_bottom().map(|(k, _)| *k), Some(8));
    assert_eq!(book.best_bid_prices(2), vec![OrderPrice::Market, OrderPrice::Limit(u64::MAX)]);
}
