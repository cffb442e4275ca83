use mmm::collections::book::{Error, Order, OrderBook, OrderView, PriceTimePriority};
use mmm::collections::Side;

fn basic_book() -> OrderBook<u64, u64> {
    let mut book: OrderBook<u64, u64> = OrderBook::new();
    book.insert(1, Side::Ask, 100, 10, 0).unwrap();
    book.insert(2, Side::Ask, 101, 5, 0).unwrap();
    book.insert(3, Side::Bid, 99, 7, 0).unwrap();
    book
}

#[test]
fn book_basics_top_of_each_side() {
    let mut book = basic_book();
    let top = book.ask_top().map(|(k, o)| (*k, o.clone()));
    assert_eq!(top, Some((1, Order { side: Side::Ask, price: 100, quantity: 10, info: 0 })));
    let top = book.bid_top().map(|(k, o)| (*k, o.clone()));
    assert_eq!(top, Some((3, Order { side: Side::Bid, price: 99, quantity: 7, info: 0 })));
    assert_eq!(book.sorted_ask_prices(), vec![100, 101]);
    assert_eq!(book.sorted_bid_prices(), vec![99]);
    assert_eq!(book.ask_volume_at(100), 10);
    assert_eq!(book.ask_volume_at(101), 5);
    assert_eq!(book.bid_volume_at(99), 7);
    assert_eq!(book.bid_volume_at(98), 0);
    assert!(book.integrity_check());
}

#[test]
fn insert_refuses_an_id_that_is_in_the_book() {
    let mut book = basic_book();
    assert_eq!(book.insert(1, Side::Bid, 50, 1, 0).err(), Some(Error::KeyAlreadyExists));
    assert_eq!(book.bid_volume_at(50), 0);
    assert_eq!(book.ask_volume_at(100), 10);
}

#[test]
fn partial_fill_then_full_fill() {
    let mut book = basic_book();
    match book.reduce(&1, 3) {
        Some(OrderView::Partial(part)) => {
            assert_eq!(*part.quantity(), 3);
            assert_eq!(*part.price, 100);
            assert_eq!(*part.side, Side::Ask);
        }
        other => panic!("not a part: {:?}", other),
    }
    assert_eq!(book.get(&1).map(|o| o.quantity), Some(7));
    assert_eq!(book.ask_volume_at(100), 7);
    match book.reduce(&1, 7) {
        Some(OrderView::Full(order)) => {
            assert_eq!(order, Order { side: Side::Ask, price: 100, quantity: 7, info: 0 })
        }
        other => panic!("not the whole order: {:?}", other),
    }
    assert!(book.get(&1).is_none());
    assert!(book.get_ask_order_queue(100).is_none());
    let top = book.ask_top().map(|(k, o)| (*k, o.clone()));
    assert_eq!(top, Some((2, Order { side: Side::Ask, price: 101, quantity: 5, info: 0 })));
    assert!(book.integrity_check());
}

#[test]
fn reduce_by_more_than_is_left_removes() {
    let mut book = basic_book();
    match book.reduce(&3, 1000) {
        Some(OrderView::Full(order)) => assert_eq!(order.quantity, 7),
        other => panic!("not the whole order: {:?}", other),
    }
    assert!(book.bid_top().is_none());
    assert!(book.reduce(&3, 1).is_none());
    assert!(book.remove(&3).is_none());
}

#[test]
fn cancel_and_tombstone_compaction() {
    let mut book: OrderBook<u64, u64> = OrderBook::new();
    for id in 1..=150u64 {
        book.insert(id, Side::Ask, 100, 1, 0).unwrap();
    }
    // 74 removals from the tail end keep every id in the queue
    for id in (77..=150u64).rev() {
        book.remove(&id).unwrap();
    }
    {
        let queue = book.get_ask_order_queue(100).unwrap();
        assert_eq!(queue.count(), 76);
        assert_eq!(*queue.volume(), 76);
        assert_eq!(queue.order_ids().len(), 150);
    }
    // 75 live of 150 held is not yet fewer than half
    book.remove(&76).unwrap();
    assert_eq!(book.get_ask_order_queue(100).unwrap().order_ids().len(), 150);
    // 74 live of 150 held is
    book.remove(&75).unwrap();
    {
        let queue = book.get_ask_order_queue(100).unwrap();
        assert_eq!(queue.count(), 74);
        assert_eq!(*queue.volume(), 74);
        assert_eq!(queue.order_ids().len(), 74);
    }
    for id in 5..=74u64 {
        book.remove(&id).unwrap();
    }
    let queue = book.get_ask_order_queue(100).unwrap();
    assert_eq!(queue.count(), 4);
    // no cleaning at a hundred ids or fewer
    assert_eq!(queue.order_ids().len(), 74);
    assert!(book.integrity_check());
}

#[test]
fn top_skips_ids_of_orders_that_left() {
    let mut book: OrderBook<u64, u64> = OrderBook::new();
    book.insert(1, Side::Bid, 10, 1, 0).unwrap();
    book.insert(2, Side::Bid, 10, 2, 0).unwrap();
    book.insert(3, Side::Bid, 10, 3, 0).unwrap();
    book.insert(4, Side::Bid, 9, 4, 0).unwrap();
    book.remove(&1).unwrap();
    book.remove(&3).unwrap();
    assert_eq!(book.get_bid_order_queue(10).unwrap().order_ids().len(), 3);
    assert_eq!(book.bid_top().map(|(k, o)| (*k, o.quantity)), Some((2, 2)));
    assert_eq!(book.get_bid_order_queue(10).unwrap().order_ids().len(), 2);
    assert_eq!(book.bid_bottom().map(|(k, o)| (*k, o.quantity)), Some((4, 4)));
    assert_eq!(book.ask_bottom().map(|(k, _)| *k), None);
    assert_eq!(book.bid_price_top().map(|(p, q)| (*p, q.count())), Some((10, 1)));
    assert_eq!(book.bid_price_bottom().map(|(p, q)| (*p, q.count())), Some((9, 1)));
}

#[test]
fn orders_at_serves_in_time_priority() {
    let mut book: OrderBook<u64, u64> = OrderBook::new();
    book.insert(1, Side::Ask, 100, 4, 11).unwrap();
    book.insert(2, Side::Ask, 100, 5, 12).unwrap();
    book.insert(3, Side::Ask, 100, 6, 13).unwrap();
    book.remove(&2).unwrap();
    {
        let listed = book.ask_orders_at(100, Some(7), PriceTimePriority::BothDesc);
        assert_eq!(listed.deficit, 0);
        let got: Vec<(u64, u64, u64)> =
            listed.orders.iter().map(|(id, o)| (*id, *o.quantity(), *o.info)).collect();
        assert_eq!(got, vec![(1, 4, 11), (3, 3, 13)]);
    }
    // the walk dropped the id of the order that left
    assert_eq!(book.get_ask_order_queue(100).unwrap().order_ids().len(), 2);
    {
        let listed = book.ask_orders_at(100, Some(100), PriceTimePriority::BothAsc);
        assert_eq!(listed.deficit, 90);
        let got: Vec<(u64, u64)> = listed.orders.iter().map(|(id, o)| (*id, *o.quantity())).collect();
        assert_eq!(got, vec![(3, 6), (1, 4)]);
    }
    {
        let listed = book.ask_orders_at(100, None, PriceTimePriority::BothDesc);
        assert_eq!(listed.deficit, 0);
        assert_eq!(listed.orders.len(), 2);
    }
    {
        let listed = book.ask_orders_at(55, Some(9), PriceTimePriority::BothDesc);
        assert_eq!(listed.deficit, 9);
        assert!(listed.orders.is_empty());
    }
    let listed = book.bid_orders_at(55, None, PriceTimePriority::BothDesc);
    assert_eq!(listed.deficit, 0);
}

#[test]
fn total_orders_sweep_the_prices() {
    let mut book: OrderBook<u64, u64> = OrderBook::new();
    book.insert(1, Side::Bid, 10, 4, 0).unwrap();
    book.insert(2, Side::Bid, 11, 5, 0).unwrap();
    book.insert(3, Side::Bid, 12, 6, 0).unwrap();
    book.insert(4, Side::Bid, 12, 1, 0).unwrap();
    {
        let listed = book.total_bid_orders(Some(8), PriceTimePriority::BothDesc);
        let got: Vec<(u64, u64)> = listed.orders.iter().map(|(id, o)| (*id, *o.quantity())).collect();
        assert_eq!(got, vec![(3, 6), (4, 1), (2, 1)]);
        assert_eq!(listed.deficit, 0);
    }
    {
        let listed = book.total_bid_orders(Some(8), PriceTimePriority::BothAsc);
        let got: Vec<(u64, u64)> = listed.orders.iter().map(|(id, o)| (*id, *o.quantity())).collect();
        assert_eq!(got, vec![(1, 4), (2, 4)]);
        assert_eq!(listed.deficit, 0);
    }
    {
        let listed = book.total_bid_orders(None, PriceTimePriority::BothDesc);
        assert_eq!(listed.orders.len(), 4);
        assert_eq!(listed.deficit, 0);
    }
    let listed = book.total_bid_orders(Some(20), PriceTimePriority::BothDesc);
    assert_eq!(listed.orders.len(), 4);
    assert_eq!(listed.deficit, 4);
    assert_eq!(book.total_bid_volume(), 16);
    assert_eq!(book.total_ask_volume(), 0);
}

#[test]
fn sorted_insert_keeps_ids_in_order() {
    let mut book: OrderBook<u64, u64> = OrderBook::new();
    book.insert(10, Side::Ask, 100, 1, 0).unwrap();
    book.insert(30, Side::Ask, 100, 1, 0).unwrap();
    book.sorted_insert_ask_by_key(20, 100, 1, 0).unwrap();
    book.sorted_insert_ask_by_key(5, 100, 1, 0).unwrap();
    let ids: Vec<u64> = book.get_ask_order_queue(100).unwrap().order_ids().iter().copied().collect();
    assert_eq!(ids, vec![5, 10, 20, 30]);
    assert_eq!(
        book.sorted_insert_ask_by_key(20, 100, 1, 0).err(),
        Some(Error::KeyAlreadyExists)
    );
    book.sorted_insert_bid_by_key(7, 90, 2, 0).unwrap();
    assert_eq!(book.bid_top().map(|(k, _)| *k), Some(7));
    assert!(book.integrity_check());
}

#[test]
fn info_can_be_changed_in_place() {
    let mut book = basic_book();
    *book.get_info_mut(&2).unwrap() = 77;
    assert_eq!(book.get(&2).map(|o| o.info), Some(77));
    assert!(book.get_info_mut(&9).is_none());
}

#[test]
fn an_id_that_comes_again_queues_behind() {
    let mut book: OrderBook<u64, ()> = OrderBook::new();
    book.insert(1, Side::Ask, 100, 1, ()).unwrap();
    book.insert(2, Side::Ask, 100, 1, ()).unwrap();
    book.insert(3, Side::Ask, 105, 1, ()).unwrap();
    book.insert(7, Side::Bid, 90, 1, ()).unwrap();
    book.insert(8, Side::Bid, 90, 1, ()).unwrap();
    book.remove(&1).unwrap();
    book.remove(&7).unwrap();
    // the ids of the orders that left stay behind
    assert_eq!(book.get_ask_order_queue(100).unwrap().order_ids().iter().copied().collect::<Vec<_>>(), vec![1, 2]);
    book.insert(1, Side::Ask, 100, 1, ()).unwrap();
    // id 7 comes again, on the other side and at another price
    book.insert(7, Side::Ask, 105, 1, ()).unwrap();
    assert_eq!(book.get_ask_order_queue(100).unwrap().order_ids().iter().copied().collect::<Vec<_>>(), vec![2, 1]);
    assert_eq!(book.get_bid_order_queue(90).unwrap().order_ids().iter().copied().collect::<Vec<_>>(), vec![8]);
    assert!(book.integrity_check());
    assert_eq!(book.ask_top().map(|(k, o)| (*k, o.price)), Some((2, 100)));
    assert_eq!(book.bid_top().map(|(k, o)| (*k, o.price)), Some((8, 90)));
    assert_eq!(book.ask_bottom().map(|(k, o)| (*k, o.price)), Some((7, 105)));
    {
        let listed = book.ask_orders_at(100, Some(10), PriceTimePriority::BothDesc);
        assert_eq!(listed.deficit, 8);
        assert_eq!(listed.orders.iter().map(|(k, o)| (*k, o.quantity)).collect::<Vec<_>>(), vec![(2, 1), (1, 1)]);
    }
    {
        let listed = book.ask_orders_at(100, Some(10), PriceTimePriority::BothAsc);
        assert_eq!(listed.deficit, 8);
        assert_eq!(listed.orders.iter().map(|(k, o)| (*k, o.quantity)).collect::<Vec<_>>(), vec![(1, 1), (2, 1)]);
    }
    {
        let listed = book.total_ask_orders(Some(10), PriceTimePriority::BothDesc);
        assert_eq!(listed.deficit, 6);
        assert_eq!(listed.orders.iter().map(|(k, _)| *k).collect::<Vec<_>>(), vec![2, 1, 3, 7]);
    }
    assert_eq!(book.total_ask_volume(), 4);
    assert!(book.integrity_check());
}
