//! What holds of every book that events drive.
use vstd::prelude::*;
use crate::collections::book::OrderBook;
use crate::collections::side_book::{
    first_of, lemma_price_list_is_unique, lists_prices, price_list, queue_at,
};
use crate::collections::Side;
use crate::nyse::book::{
    accepted, handled, spread_fits, spread_limits, volumes_of, Body, Message, NyseOrderBook,
};

verus! {

/// With both sides there, the limits of a spread lie twice the spread
/// apart, less one where the sum of the best prices is odd: then the bids
/// count from one tick higher.
pub proof fn law_spread_width(best_ask: u64, best_bid: u64, spread: u64)
    requires
        spread_fits(Some(best_ask), Some(best_bid), spread),
    ensures
        ({
            let limits = spread_limits(Some(best_ask), Some(best_bid), spread);
            &&& limits.0 is Some
            &&& limits.1 is Some
            &&& limits.0->0 - limits.1->0 == 2 * spread - (best_ask + best_bid) % 2
            &&& (best_ask + best_bid) % 2 == 0 ==> limits.0->0 - limits.1->0 == 2 * spread
        }),
{
}

/// What two sound books show of their volumes is the same where they hold
/// the same orders, whatever ids of orders long gone their queues still
/// hold: the volumes to any number of prices depend on the orders alone.
pub proof fn law_volumes_depend_on_orders(
    a: OrderBook<u64, u64>,
    b: OrderBook<u64, u64>,
    side: Side,
    level: nat,
)
    requires
        a.wf(),
        b.wf(),
        a.orders() == b.orders(),
    ensures
        price_list(side, a.queues(side)) == price_list(side, b.queues(side)),
        volumes_of(first_of(price_list(side, a.queues(side)), level), a.queues(side)) == volumes_of(
            first_of(price_list(side, b.queues(side)), level),
            b.queues(side),
        ),
{
    let qa = a.queues(side);
    let qb = b.queues(side);
    a.lemma_prices_listed(side);
    b.lemma_prices_listed(side);
    assert forall|p: u64| qa.contains_key(p) <==> qb.contains_key(p) by {
        a.lemma_volume_is_resting(side, p);
        b.lemma_volume_is_resting(side, p);
    }
    assert(lists_prices(side, price_list(side, qa), qb));
    lemma_price_list_is_unique(side, price_list(side, qa), price_list(side, qb), qb);
    let prices = first_of(price_list(side, qa), level);
    assert forall|p: u64| queue_at(qa, p).volume == queue_at(qb, p).volume by {
        a.lemma_volume_is_resting(side, p);
        b.lemma_volume_is_resting(side, p);
    }
    assert(volumes_of(prices, qa) =~= volumes_of(prices, qb));
}

/// An event that a book accepts leaves no choice of the orders that the
/// book holds afterwards.
pub proof fn law_orders_follow_events(
    before_a: NyseOrderBook,
    before_b: NyseOrderBook,
    after_a: NyseOrderBook,
    after_b: NyseOrderBook,
    msg: Message,
)
    requires
        before_a.book().orders() == before_b.book().orders(),
        accepted(before_a, after_a, msg),
        accepted(before_b, after_b, msg),
    ensures
        after_a.book().orders() == after_b.book().orders(),
{
    let pre_a = choose|pre: OrderBook<u64, u64>| #[trigger]
        handled(
            before_a.book(),
            pre,
            after_a.book(),
            before_a.validating(),
            before_a.max_ref(),
            msg,
            None,
        );
    let pre_b = choose|pre: OrderBook<u64, u64>| #[trigger]
        handled(
            before_b.book(),
            pre,
            after_b.book(),
            before_b.validating(),
            before_b.max_ref(),
            msg,
            None,
        );
    assert(pre_a.orders() == pre_b.orders());
    match msg.body {
        Body::ReplaceOrder { new_reference, shares, price, old_reference } => {
            let order = crate::collections::book::Order {
                side: pre_a.orders()[old_reference].side,
                price,
                quantity: shares,
                info: msg.time,
            };
            let mid_a = choose|mid: OrderBook<u64, u64>| #[trigger]
                crate::nyse::book::replaced(
                    pre_a,
                    mid,
                    after_a.book(),
                    old_reference,
                    new_reference,
                    order,
                );
            let mid_b = choose|mid: OrderBook<u64, u64>| #[trigger]
                crate::nyse::book::replaced(
                    pre_b,
                    mid,
                    after_b.book(),
                    old_reference,
                    new_reference,
                    order,
                );
            assert(mid_a.orders() == mid_b.orders());
        },
        _ => {},
    }
}

} // verus!
