//! What holds of every order book.
use vstd::prelude::*;
use crate::collections::book::{
    from_tail, headed, live_ids, opposite, queues_after, skip_stale, tailed, trim_stale, wanted,
    OrderBook,
};
use crate::collections::order::{Order, Price};
use crate::collections::queue::{inserted_somewhere, oriented, QueueView};
use crate::collections::side_book::{
    best_price, price_list, queue_at, removed, side_key, worst_price,
};
use crate::collections::tally::{resting_ids, total_quantity};
use crate::collections::tidy::{
    lemma_insert_keeps_distinct, lemma_live_ids_agree, lemma_live_ids_of_live_ids,
    lemma_live_ids_reversed, lemma_live_ids_with, lemma_live_ids_without,
    lemma_skip_stale_keeps_live, lemma_swept_keeps_live_ids, lemma_tidy_queue_is_intact,
    lemma_trim_stale_keeps_live, queue_tidy, side_tidy,
};
use crate::collections::walk::swept;
use crate::collections::Side;

verus! {

/// Whether no queue of a side holds an id.
pub open spec fn side_unseen<P>(queues: Map<P, QueueView>, id: u64) -> bool {
    forall|price: P| #[trigger] queues.contains_key(price) ==> !queues[price].ids.contains(id)
}

impl<P: Price, I> OrderBook<P, I> {
    /// Whether every queue of the book is tidy: the ids that it holds of
    /// orders of the book are of orders that rest at its own price, and
    /// none of them comes twice. Every sound book is tidy.
    pub open spec fn tidy(&self) -> bool {
        &&& side_tidy(self.orders(), Side::Ask, self.asks())
        &&& side_tidy(self.orders(), Side::Bid, self.bids())
    }
}

/// In a sound book there is a queue at a price if and only if orders rest
/// there; the queue counts those orders, and its volume is the sum of what
/// is left of them. No queue is without orders.
pub proof fn law_queues_agree_with_orders<P: Price, I>(book: OrderBook<P, I>, side: Side, price: P)
    requires
        book.wf(),
    ensures
        book.queues(side).contains_key(price) <==> resting_ids(book.orders(), side, price).len() > 0,
        book.queues(side).contains_key(price) ==> {
            &&& book.queues(side)[price].count > 0
            &&& book.queues(side)[price].count == resting_ids(book.orders(), side, price).len()
            &&& book.queues(side)[price].volume == total_quantity(
                book.orders(),
                resting_ids(book.orders(), side, price),
            )
        },
{
    book.lemma_volume_is_resting(side, price);
}

/// A sound book is intact: every queue counts the ids it holds
/// of orders of the book, and its volume is the sum of what is left of
/// those orders.
pub proof fn law_sound_book_is_intact<P: Price, I>(book: OrderBook<P, I>)
    requires
        book.wf(),
    ensures
        book.intact(),
{
    assert forall|price: P| book.asks().contains_key(price) implies #[trigger]
        crate::collections::book::queue_intact(book.asks()[price], book.orders()) by {
        lemma_tidy_queue_is_intact(book.orders(), Side::Ask, book.asks(), price);
    }
    assert forall|price: P| book.bids().contains_key(price) implies #[trigger]
        crate::collections::book::queue_intact(book.bids()[price], book.orders()) by {
        lemma_tidy_queue_is_intact(book.orders(), Side::Bid, book.bids(), price);
    }
}

/// The queues of a side stay tidy when an order joins the book under an id
/// that no queue holds.
pub proof fn lemma_side_stays_tidy_with_order<P, I>(
    orders: Map<u64, Order<P, u64, I>>,
    id: u64,
    order: Order<P, u64, I>,
    side: Side,
    queues: Map<P, QueueView>,
    queue: QueueView,
)
    requires
        side_tidy(orders, side, queues),
        side_unseen(queues, id),
        !orders.contains_key(id),
        side == order.side ==> inserted_somewhere(queue_at(queues, order.price).ids, id, queue.ids),
    ensures
        side_tidy(
            orders.insert(id, order),
            side,
            if side == order.side {
                queues.insert(order.price, queue)
            } else {
                queues
            },
        ),
{
    let more = orders.insert(id, order);
    let after = if side == order.side {
        queues.insert(order.price, queue)
    } else {
        queues
    };
    assert forall|price: P| #[trigger] after.contains_key(price) implies queue_tidy(
        more,
        side,
        price,
        after[price].ids,
    ) by {
        if side == order.side && price == order.price {
            let before = queue_at(queues, price).ids;
            let at = choose|at: int|
                0 <= at <= before.len() && #[trigger] before.insert(at, id) == queue.ids;
            if queues.contains_key(price) {
                assert(queue_tidy(orders, side, price, before));
            }
            lemma_live_ids_agree(before, orders, more);
            lemma_live_ids_with(before, more, at, id);
            let live = live_ids(before, more);
            let k = choose|k: int|
                0 <= k <= live.len() && #[trigger] live.insert(k, id) == live_ids(
                    before.insert(at, id),
                    more,
                );
            crate::collections::book::lemma_live_ids_are_the_live(before, orders);
            lemma_insert_keeps_distinct(live, k, id);
        } else {
            let ids = queues[price].ids;
            assert(queue_tidy(orders, side, price, ids));
            lemma_live_ids_agree(ids, orders, more);
            crate::collections::book::lemma_live_ids_are_the_live(ids, orders);
        }
    }
}

/// A sound book stays tidy when an order joins it under a new id, wherever
/// in the queue at its price the id is put: the id is dropped from every
/// queue in which an order that is gone had left it behind.
pub proof fn law_insert_keeps_tidy<P: Price, I>(
    before: OrderBook<P, I>,
    after: OrderBook<P, I>,
    id: u64,
    order: Order<P, u64, I>,
    queue: QueueView,
)
    requires
        before.wf(),
        !before.orders().contains_key(id),
        before.with_order(&after, id, order, queue),
        inserted_somewhere(before.joined_queue(order.side, order.price, id).ids, id, queue.ids),
    ensures
        after.tidy(),
        forall|price: P| #[trigger]
            after.queues(opposite(order.side)).contains_key(price) ==> !after.queues(
                opposite(order.side),
            )[price].ids.contains(id),
{
    crate::collections::tidy::lemma_scrub_keeps_side(before.orders(), Side::Ask, before.asks(), id);
    crate::collections::tidy::lemma_scrub_keeps_side(before.orders(), Side::Bid, before.bids(), id);
    lemma_side_stays_tidy_with_order(
        before.orders(),
        id,
        order,
        Side::Ask,
        crate::collections::side_book::scrubbed(before.asks(), id),
        queue,
    );
    lemma_side_stays_tidy_with_order(
        before.orders(),
        id,
        order,
        Side::Bid,
        crate::collections::side_book::scrubbed(before.bids(), id),
        queue,
    );
}

/// The queues of a side stay tidy when an order leaves the book, and when
/// queues lose ids of orders that are not in the book.
pub proof fn lemma_side_stays_tidy_without_order<P, I>(
    orders: Map<u64, Order<P, u64, I>>,
    gone: u64,
    side: Side,
    queues: Map<P, QueueView>,
    after: Map<P, QueueView>,
)
    requires
        side_tidy(orders, side, queues),
        forall|price: P| #[trigger]
            after.contains_key(price) ==> queues.contains_key(price) && (after[price].ids
                == queues[price].ids || after[price].ids == live_ids(
                queues[price].ids,
                orders.remove(gone),
            )),
    ensures
        side_tidy(orders.remove(gone), side, after),
{
    let less = orders.remove(gone);
    assert forall|price: P| #[trigger] after.contains_key(price) implies queue_tidy(
        less,
        side,
        price,
        after[price].ids,
    ) by {
        let ids = queues[price].ids;
        assert(queue_tidy(orders, side, price, ids));
        lemma_live_ids_without(ids, orders, gone);
        lemma_live_ids_of_live_ids(ids, less);
    }
}

/// A sound book stays tidy when an order leaves it.
pub proof fn law_remove_keeps_tidy<P: Price, I>(
    before: OrderBook<P, I>,
    after: OrderBook<P, I>,
    id: u64,
)
    requires
        before.wf(),
        before.orders().contains_key(id),
        before.without_order(&after, id),
    ensures
        after.tidy(),
{
    let order = before.orders()[id];
    let queues = before.queues(order.side);
    let less = removed(queues, order.price, order.quantity);
    before.lemma_volume_is_resting(order.side, order.price);
    crate::collections::tally::lemma_resting_order_counts(before.orders(), id);
    assert(queues.contains_key(order.price));
    assert forall|price: P| #[trigger]
        after.queues(order.side).contains_key(price) implies queues.contains_key(price) && (
    after.queues(order.side)[price].ids == queues[price].ids || after.queues(order.side)[price].ids
        == live_ids(queues[price].ids, before.orders().remove(id))) by {
        assert(less.contains_key(price));
        if price == order.price {
            assert(less[price].ids == queues[price].ids);
        }
    }
    lemma_side_stays_tidy_without_order(
        before.orders(),
        id,
        order.side,
        before.queues(order.side),
        after.queues(order.side),
    );
    lemma_side_stays_tidy_without_order(
        before.orders(),
        id,
        opposite(order.side),
        before.queues(opposite(order.side)),
        after.queues(opposite(order.side)),
    );
}

/// The queues of a side stay tidy when the orders change in nothing but
/// what they have left or carry along, and queues lose ids of orders that
/// are not in the book.
pub proof fn lemma_side_stays_tidy_with_same_orders<P, I>(
    orders: Map<u64, Order<P, u64, I>>,
    changed: Map<u64, Order<P, u64, I>>,
    side: Side,
    queues: Map<P, QueueView>,
    after: Map<P, QueueView>,
)
    requires
        side_tidy(orders, side, queues),
        forall|id: u64| orders.contains_key(id) <==> changed.contains_key(id),
        forall|id: u64| #[trigger]
            orders.contains_key(id) ==> changed[id].side == orders[id].side && changed[id].price
                == orders[id].price,
        forall|price: P| #[trigger]
            after.contains_key(price) ==> queues.contains_key(price) && live_ids(
                after[price].ids,
                orders,
            ) == live_ids(queues[price].ids, orders) && forall|x: u64|
                after[price].ids.contains(x) ==> queues[price].ids.contains(x),
    ensures
        side_tidy(changed, side, after),
{
    assert forall|price: P| #[trigger] after.contains_key(price) implies queue_tidy(
        changed,
        side,
        price,
        after[price].ids,
    ) by {
        let ids = queues[price].ids;
        assert(queue_tidy(orders, side, price, ids));
        lemma_live_ids_agree(after[price].ids, orders, changed);
        crate::collections::book::lemma_live_ids_are_the_live(ids, orders);
    }
}

/// A tidy book stays tidy when a quantity is taken from an order that has
/// more left.
pub proof fn law_reduce_keeps_tidy<P: Price, I>(
    before: OrderBook<P, I>,
    after: OrderBook<P, I>,
    id: u64,
    quantity: u64,
)
    requires
        before.tidy(),
        before.orders().contains_key(id),
        before.queues(before.orders()[id].side).contains_key(before.orders()[id].price),
        before.with_less(&after, id, quantity),
    ensures
        after.tidy(),
{
    lemma_side_stays_tidy_with_same_orders(
        before.orders(),
        after.orders(),
        Side::Ask,
        before.asks(),
        after.asks(),
    );
    lemma_side_stays_tidy_with_same_orders(
        before.orders(),
        after.orders(),
        Side::Bid,
        before.bids(),
        after.bids(),
    );
}

/// Ids that stay when the stale ones at the head go were among the ids.
proof fn lemma_skip_stale_is_a_tail<P, I>(ids: Seq<u64>, orders: Map<u64, Order<P, u64, I>>)
    ensures
        skip_stale(ids, orders).len() <= ids.len(),
        skip_stale(ids, orders) == ids.skip(ids.len() - skip_stale(ids, orders).len()),
        forall|k: int|
            0 <= k < ids.len() - skip_stale(ids, orders).len() ==> !orders.contains_key(
                #[trigger] ids[k],
            ),
    decreases ids.len(),
{
    if ids.len() == 0 || orders.contains_key(ids.first()) {
        assert(ids.skip(0) =~= ids);
    } else {
        let rest = ids.drop_first();
        lemma_skip_stale_is_a_tail(rest, orders);
        let n = rest.len() - skip_stale(rest, orders).len();
        assert(rest.skip(n) =~= ids.skip(n + 1));
        assert forall|k: int| 0 <= k < n + 1 implies !orders.contains_key(#[trigger] ids[k]) by {
            if k > 0 {
                assert(rest[k - 1] == ids[k]);
            }
        }
    }
}

/// Ids that stay when the stale ones at the tail go were among the ids.
proof fn lemma_trim_stale_is_a_head<P, I>(ids: Seq<u64>, orders: Map<u64, Order<P, u64, I>>)
    ensures
        trim_stale(ids, orders).len() <= ids.len(),
        trim_stale(ids, orders) == ids.take(trim_stale(ids, orders).len() as int),
    decreases ids.len(),
{
    if ids.len() == 0 || orders.contains_key(ids.last()) {
        assert(ids.take(ids.len() as int) =~= ids);
    } else {
        let front = ids.drop_last();
        lemma_trim_stale_is_a_head(front, orders);
        let n = trim_stale(front, orders).len() as int;
        assert(front.take(n) =~= ids.take(n));
    }
}

/// The queues of a side stay tidy when the queue at a price loses the ids
/// at its head whose orders have left the book.
pub proof fn lemma_skipping_keeps_tidy<P, I>(
    orders: Map<u64, Order<P, u64, I>>,
    side: Side,
    queues: Map<P, QueueView>,
    price: P,
)
    requires
        side_tidy(orders, side, queues),
        queues.contains_key(price),
    ensures
        side_tidy(
            orders,
            side,
            queues.insert(
                price,
                QueueView { ids: skip_stale(queues[price].ids, orders), ..queues[price] },
            ),
        ),
{
    let after = queues.insert(
        price,
        QueueView { ids: skip_stale(queues[price].ids, orders), ..queues[price] },
    );
    lemma_skip_stale_keeps_live(queues[price].ids, orders);
    assert forall|p: P| #[trigger] after.contains_key(p) implies queue_tidy(
        orders,
        side,
        p,
        after[p].ids,
    ) by {
        assert(queues.contains_key(p));
        assert(queue_tidy(orders, side, p, queues[p].ids));
    }
}

/// The queues of a side stay tidy when the queue at a price loses the ids
/// at its tail whose orders have left the book.
pub proof fn lemma_trimming_keeps_tidy<P, I>(
    orders: Map<u64, Order<P, u64, I>>,
    side: Side,
    queues: Map<P, QueueView>,
    price: P,
)
    requires
        side_tidy(orders, side, queues),
        queues.contains_key(price),
    ensures
        side_tidy(
            orders,
            side,
            queues.insert(
                price,
                QueueView { ids: trim_stale(queues[price].ids, orders), ..queues[price] },
            ),
        ),
{
    let after = queues.insert(
        price,
        QueueView { ids: trim_stale(queues[price].ids, orders), ..queues[price] },
    );
    lemma_trim_stale_keeps_live(queues[price].ids, orders);
    assert forall|p: P| #[trigger] after.contains_key(p) implies queue_tidy(
        orders,
        side,
        p,
        after[p].ids,
    ) by {
        assert(queues.contains_key(p));
        assert(queue_tidy(orders, side, p, queues[p].ids));
    }
}

/// The queues of a side stay tidy when the queues at several prices are
/// walked, one after the other.
pub proof fn lemma_tour_keeps_tidy<P, I>(
    prices: Seq<P>,
    queues: Map<P, QueueView>,
    orders: Map<u64, Order<P, u64, I>>,
    side: Side,
    quantity: Option<u64>,
    sort_by: crate::collections::order::PriceTimePriority,
)
    requires
        side_tidy(orders, side, queues),
    ensures
        side_tidy(
            orders,
            side,
            crate::collections::book::toured(prices, queues, orders, quantity, sort_by).queues,
        ),
    decreases prices.len(),
{
    if prices.len() > 0 {
        let price = prices.first();
        law_walk_keeps_tidy(orders, side, queues, price, quantity, sort_by);
        let left = match quantity {
            Some(_) => Some(
                crate::collections::book::deficit_at(queues, orders, price, quantity, sort_by),
            ),
            None => None,
        };
        let queues2 = queues_after(queues, orders, price, quantity, sort_by);
        if left != Some(0u64) {
            lemma_tour_keeps_tidy(prices.drop_first(), queues2, orders, side, left, sort_by);
        }
    }
}

/// A sound book stays tidy when the first order of a side is looked up, and
/// the order that comes back is the first in time at the best price of the
/// side: it rests on that side at that price, and every id before its own
/// in the queue there belongs to no order of the book.
pub proof fn law_top_is_first_at_best_price<P: Price, I>(
    before: OrderBook<P, I>,
    after: OrderBook<P, I>,
    side: Side,
    id: u64,
    order: Order<P, u64, I>,
)
    requires
        before.wf(),
        after.orders() == before.orders(),
        after.queues(opposite(side)) == before.queues(opposite(side)),
        headed(side, before.queues(side), before.orders(), after.queues(side), Some((&id, &order))),
    ensures
        after.tidy(),
        order.side == side,
        order.price == best_price(side, before.queues(side)),
        forall|other: u64| #[trigger]
            before.orders().contains_key(other) && before.orders()[other].side == side
                ==> side_key(side, order.price) <= side_key(side, before.orders()[other].price),
        ({
            let ids = before.queues(side)[order.price].ids;
            exists|n: int|
                0 <= n < ids.len() && #[trigger] ids[n] == id && forall|k: int|
                    0 <= k < n ==> !before.orders().contains_key(#[trigger] ids[k])
        }),
{
    let orders = before.orders();
    let queues = before.queues(side);
    let best = best_price(side, queues);
    let ids = queues[best].ids;
    let kept = skip_stale(ids, orders);
    lemma_skip_stale_keeps_live(ids, orders);
    lemma_skip_stale_is_a_tail(ids, orders);
    crate::collections::book::lemma_live_ids_are_the_live(ids, orders);
    crate::collections::book::lemma_live_ids_are_the_live(kept, orders);
    assert(queue_tidy(orders, side, best, ids));
    assert(kept.contains(id)) by {
        assert(kept[0] == id);
    }
    let n = ids.len() - kept.len();
    assert(ids[n] == kept[0]);
    assert forall|price: P| #[trigger] after.queues(side).contains_key(price) implies queue_tidy(
        orders,
        side,
        price,
        after.queues(side)[price].ids,
    ) by {
        assert(queues.contains_key(price));
        assert(queue_tidy(orders, side, price, queues[price].ids));
    }
    before.lemma_prices_listed(side);
    assert forall|other: u64| #[trigger]
        orders.contains_key(other) && orders[other].side == side implies side_key(side, best)
        <= side_key(side, orders[other].price) by {
        let p = orders[other].price;
        before.lemma_volume_is_resting(side, p);
        assert(resting_ids(orders, side, p).contains(other));
        crate::collections::tally::lemma_resting_order_counts(orders, other);
        let prices = price_list(side, queues);
        assert(prices.contains(p));
        let i = choose|i: int| 0 <= i < prices.len() && prices[i] == p;
        if i > 0 {
            assert(side_key(side, prices[0]) < side_key(side, prices[i]));
        }
    }
    match side {
        Side::Ask => {},
        Side::Bid => {},
    }
}

/// A side of a sound book has no first order only where no order of the
/// book is on that side.
pub proof fn law_no_top_means_no_orders<P: Price, I>(book: OrderBook<P, I>, side: Side, id: u64)
    requires
        book.wf(),
        book.queues(side) == Map::<P, QueueView>::empty(),
        book.orders().contains_key(id),
    ensures
        book.orders()[id].side != side,
{
    let order = book.orders()[id];
    if order.side == side {
        book.lemma_volume_is_resting(side, order.price);
        crate::collections::tally::lemma_resting_order_counts(book.orders(), id);
    }
}

/// A sound book stays tidy when the last order of a side is looked up, and
/// the order that comes back rests on that side at its worst price.
pub proof fn law_bottom_is_last_at_worst_price<P: Price, I>(
    before: OrderBook<P, I>,
    after: OrderBook<P, I>,
    side: Side,
    id: u64,
    order: Order<P, u64, I>,
)
    requires
        before.wf(),
        after.orders() == before.orders(),
        after.queues(opposite(side)) == before.queues(opposite(side)),
        tailed(side, before.queues(side), before.orders(), after.queues(side), Some((&id, &order))),
    ensures
        after.tidy(),
        order.side == side,
        order.price == worst_price(side, before.queues(side)),
{
    let orders = before.orders();
    let queues = before.queues(side);
    let worst = worst_price(side, queues);
    let ids = queues[worst].ids;
    let kept = trim_stale(ids, orders);
    lemma_trim_stale_keeps_live(ids, orders);
    crate::collections::book::lemma_live_ids_are_the_live(ids, orders);
    crate::collections::book::lemma_live_ids_are_the_live(kept, orders);
    assert(queue_tidy(orders, side, worst, ids));
    assert(kept.contains(id)) by {
        assert(kept[kept.len() - 1] == id);
    }
    assert forall|price: P| #[trigger] after.queues(side).contains_key(price) implies queue_tidy(
        orders,
        side,
        price,
        after.queues(side)[price].ids,
    ) by {
        assert(queues.contains_key(price));
        assert(queue_tidy(orders, side, price, queues[price].ids));
    }
    match side {
        Side::Ask => {},
        Side::Bid => {},
    }
}

/// The queues of a side stay tidy when the queue at a price is walked.
pub proof fn law_walk_keeps_tidy<P, I>(
    orders: Map<u64, Order<P, u64, I>>,
    side: Side,
    queues: Map<P, QueueView>,
    price: P,
    quantity: Option<u64>,
    sort_by: crate::collections::order::PriceTimePriority,
)
    requires
        side_tidy(orders, side, queues),
    ensures
        side_tidy(orders, side, queues_after(queues, orders, price, quantity, sort_by)),
{
    let after = queues_after(queues, orders, price, quantity, sort_by);
    assert forall|p: P| #[trigger] after.contains_key(p) implies queue_tidy(
        orders,
        side,
        p,
        after[p].ids,
    ) by {
        assert(queues.contains_key(p));
        assert(queue_tidy(orders, side, p, queues[p].ids));
        if p == price {
            let ids = queues[price].ids;
            let tail = from_tail(sort_by);
            let walk = oriented(ids, tail);
            let kept = swept(walk, orders, wanted(queues, price, quantity));
            lemma_swept_keeps_live_ids(walk, orders, wanted(queues, price, quantity));
            if tail {
                lemma_live_ids_reversed(ids, orders);
                lemma_live_ids_reversed(kept, orders);
                let live = live_ids(ids, orders);
                assert(live.reverse().reverse() =~= live);
            }
        }
    }
}

/// Taking from an order all that it has left, or more, leaves the book as
/// taking the order out does.
pub proof fn law_reduce_all_is_remove<P: Price, I>(
    before: OrderBook<P, I>,
    reduced: OrderBook<P, I>,
    removed: OrderBook<P, I>,
    id: u64,
)
    requires
        before.orders().contains_key(id),
        before.without_order(&reduced, id),
        before.without_order(&removed, id),
    ensures
        reduced.orders() == removed.orders(),
        reduced.asks() == removed.asks(),
        reduced.bids() == removed.bids(),
{
    match before.orders()[id].side {
        Side::Ask => {},
        Side::Bid => {},
    }
}

} // verus!
