use mmm::collections::account::Account;
use mmm::collections::book::{Error, OrderPrice};
use mmm::collections::Side;

#[test]
fn orders_wait_until_they_are_executed_or_cancelled() {
    let mut account: Account<u8> = Account::new();
    account.order(1, Side::Bid, OrderPrice::Limit(100), 10, 7).unwrap();
    account.order(2, Side::Ask, OrderPrice::Market, 5, 8).unwrap();
    assert_eq!(account.order(1, Side::Bid, OrderPrice::Limit(1), 1, 0), Err(Error::KeyAlreadyExists));
    {
        let execution = account.execute(10, 1, 99, 4).unwrap();
        assert_eq!(execution.side, Side::Bid);
        assert_eq!(execution.price, 99);
        assert_eq!(execution.quantity, 4);
        assert_eq!(execution.info.origin_id, 1);
        assert_eq!(execution.info.order_price, OrderPrice::Limit(100));
        assert_eq!(execution.info.info, 7);
    }
    {
        let cancellation = account.cancel(20, 1, Some(1)).unwrap();
        assert_eq!(cancellation.quantity, 1);
        assert_eq!(cancellation.price, OrderPrice::Limit(100));
        assert_eq!(cancellation.info.origin_id, 1);
    }
    {
        let cancellation = account.cancel(21, 1, None).unwrap();
        assert_eq!(cancellation.quantity, 5);
    }
    assert_eq!(account.cancel(22, 1, None).err(), Some(Error::OrderNotFound));
    assert_eq!(account.execute(11, 1, 1, 1).err(), Some(Error::OrderNotFound));
    assert_eq!(account.execute(10, 2, 98, 100).err(), Some(Error::KeyAlreadyExists));
    assert!(account.pending().integrity_check());
    assert!(account.executed().integrity_check());
    assert!(account.cancelled().integrity_check());
    assert_eq!(account.executed().sorted_bid_prices(), vec![99]);
    assert_eq!(account.cancelled().sorted_bid_prices(), vec![OrderPrice::Limit(100)]);
    assert!(account.pending().sorted_bid_prices().is_empty());
    assert!(account.pending().sorted_ask_prices().is_empty());
}

#[test]
fn market_orders_come_before_limits() {
    let mut account: Account<()> = Account::new();
    account.order(1, Side::Ask, OrderPrice::Limit(100), 10, ()).unwrap();
    account.order(2, Side::Ask, OrderPrice::Market, 5, ()).unwrap();
    account.order(3, Side::Ask, OrderPrice::Limit(90), 1, ()).unwrap();
    account.order(4, Side::Bid, OrderPrice::Market, 2, ()).unwrap();
    account.order(5, Side::Bid, OrderPrice::Limit(80), 3, ()).unwrap();
    assert_eq!(
        account.pending().sorted_ask_prices(),
        vec![OrderPrice::Market, OrderPrice::Limit(90), OrderPrice::Limit(100)]
    );
    assert_eq!(
        account.pending().sorted_bid_prices(),
        vec![OrderPrice::Market, OrderPrice::Limit(80)]
    );
}
