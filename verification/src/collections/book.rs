//! The order book: the orders by id, and on each side the queues by price.
use vstd::prelude::*;
pub use crate::collections::order_map::{relabelled, OrderMap};
use crate::collections::queue::{ascending, inserted_somewhere, OrderQueue, QueueView};
use crate::collections::side_book::{
    best_price, lemma_best_price, lemma_worst_price, limits_of, needs_cleaning, price_list, pushed,
    queue_at, removed, scrubbed, volume_of, worst_price, BookStatus,
};
use crate::collections::tidy::{lemma_scrub_keeps_side, side_tidy};
use crate::collections::walk::{parts_of, served, swept, unserved, walk_queue};
use crate::collections::queue::oriented;
use crate::collections::tally::{
    lemma_insert_order, lemma_remove_order, lemma_requantify_order, lemma_resting_ids_finite,
    lemma_resting_order_counts, resting_count, resting_ids, resting_volume, total_quantity,
};
use crate::collections::Side;

pub use crate::collections::order::{
    Error, Order, OrderPrice, OrderView, Orders, PartialOrder, Price, PriceTimePriority,
};

verus! {

/// The other side of the market.
pub open spec fn opposite(side: Side) -> Side {
    match side {
        Side::Ask => Side::Bid,
        Side::Bid => Side::Ask,
    }
}

/// Whether the queue at a price agrees with the orders that rest there: it
/// is there if and only if orders rest at the price, it counts them, its
/// volume is the sum of what is left of them, and it holds the id of each.
pub open spec fn level_tallied<P, I>(
    orders: Map<u64, Order<P, u64, I>>,
    side: Side,
    queues: Map<P, QueueView>,
    price: P,
) -> bool {
    if queues.contains_key(price) {
        &&& queues[price].count > 0
        &&& queues[price].count == resting_count(orders, side, price)
        &&& queues[price].volume == resting_volume(orders, side, price)
        &&& forall|id: u64| #[trigger]
            resting_ids(orders, side, price).contains(id) ==> queues[price].ids.contains(id)
    } else {
        resting_count(orders, side, price) == 0
    }
}

/// Whether the queues of a side agree with the orders, price by price.
pub open spec fn tallied<P, I>(
    orders: Map<u64, Order<P, u64, I>>,
    side: Side,
    queues: Map<P, QueueView>,
) -> bool {
    forall|price: P| #[trigger] level_tallied(orders, side, queues, price)
}

/// Whether `after` is `before` with one order more at its price: one more
/// is counted, its quantity is added, and the ids hold its id beside all
/// that they held.
pub open spec fn one_more(before: QueueView, id: u64, quantity: u64, after: QueueView) -> bool {
    &&& after.count == before.count + 1
    &&& after.volume == before.volume + quantity
    &&& after.ids.contains(id)
    &&& forall|x: u64| before.ids.contains(x) ==> after.ids.contains(x)
}

/// The queues of the order's side still agree with the orders when the
/// order joins both.
proof fn lemma_insert_keeps_tally<P, I>(
    orders: Map<u64, Order<P, u64, I>>,
    id: u64,
    order: Order<P, u64, I>,
    queues: Map<P, QueueView>,
    after: QueueView,
)
    requires
        orders.dom().finite(),
        !orders.contains_key(id),
        tallied(orders, order.side, queues),
        one_more(queue_at(queues, order.price), id, order.quantity, after),
    ensures
        tallied(orders.insert(id, order), order.side, queues.insert(order.price, after)),
{
    lemma_insert_order(orders, id, order);
    let orders2 = orders.insert(id, order);
    let queues2 = queues.insert(order.price, after);
    assert forall|price: P| #[trigger] level_tallied(orders2, order.side, queues2, price) by {
        assert(level_tallied(orders, order.side, queues, price));
        if price == order.price {
            lemma_resting_ids_finite(orders, order.side, price);
            assert forall|x: u64| #[trigger]
                resting_ids(orders2, order.side, price).contains(x) implies after.ids.contains(x) by {
                if x != id {
                    assert(resting_ids(orders, order.side, price).contains(x));
                }
            }
        } else {
            assert(resting_ids(orders2, order.side, price) == resting_ids(orders, order.side, price));
        }
    }
}

/// The queues of the other side are not touched by an order that joins.
proof fn lemma_insert_leaves_other_side<P, I>(
    orders: Map<u64, Order<P, u64, I>>,
    id: u64,
    order: Order<P, u64, I>,
    queues: Map<P, QueueView>,
)
    requires
        orders.dom().finite(),
        !orders.contains_key(id),
        tallied(orders, opposite(order.side), queues),
    ensures
        tallied(orders.insert(id, order), opposite(order.side), queues),
{
    lemma_insert_order(orders, id, order);
    let orders2 = orders.insert(id, order);
    let side = opposite(order.side);
    assert forall|price: P| #[trigger] level_tallied(orders2, side, queues, price) by {
        assert(level_tallied(orders, side, queues, price));
        assert(resting_ids(orders2, side, price) == resting_ids(orders, side, price));
    }
}

/// The ids among `ids` whose orders are in the book, in their order.
pub open spec fn live_ids<P, I>(ids: Seq<u64>, orders: Map<u64, Order<P, u64, I>>) -> Seq<u64>
    decreases ids.len(),
{
    if ids.len() == 0 {
        ids
    } else if orders.contains_key(ids.last()) {
        live_ids(ids.drop_last(), orders).push(ids.last())
    } else {
        live_ids(ids.drop_last(), orders)
    }
}

/// The live ids are the ids that are in the book, and no others.
pub proof fn lemma_live_ids_are_the_live<P, I>(ids: Seq<u64>, orders: Map<u64, Order<P, u64, I>>)
    ensures
        forall|id: u64| #[trigger]
            live_ids(ids, orders).contains(id) ==> ids.contains(id) && orders.contains_key(id),
        forall|id: u64| #[trigger]
            ids.contains(id) && orders.contains_key(id) ==> live_ids(ids, orders).contains(id),
        live_ids(ids, orders).len() <= ids.len(),
    decreases ids.len(),
{
    if ids.len() > 0 {
        let front = ids.drop_last();
        lemma_live_ids_are_the_live(front, orders);
        let live = live_ids(ids, orders);
        assert forall|id: u64|
            (#[trigger] live.contains(id) ==> ids.contains(id) && orders.contains_key(id)) && (
            ids.contains(id) && orders.contains_key(id) ==> live.contains(id)) by {
            if live.contains(id) {
                let i = choose|i: int| 0 <= i < live.len() && live[i] == id;
                if orders.contains_key(ids.last()) && i == live.len() - 1 {
                    assert(ids[ids.len() - 1] == id);
                } else {
                    assert(live_ids(front, orders)[i] == id);
                    assert(live_ids(front, orders).contains(id));
                    assert(front.contains(id) && orders.contains_key(id));
                    let j = choose|j: int| 0 <= j < front.len() && front[j] == id;
                    assert(ids[j] == id);
                }
            }
            if ids.contains(id) && orders.contains_key(id) {
                let j = choose|j: int| 0 <= j < ids.len() && ids[j] == id;
                if j == ids.len() - 1 {
                    assert(live.last() == id);
                } else {
                    assert(front[j] == id);
                    assert(front.contains(id));
                    assert(live_ids(front, orders).contains(id));
                    let i = choose|i: int|
                        0 <= i < live_ids(front, orders).len() && live_ids(front, orders)[i] == id;
                    assert(live[i] == id);
                }
            }
        }
    }
}

/// The ids without those at the head whose orders have left the book.
pub open spec fn skip_stale<P, I>(ids: Seq<u64>, orders: Map<u64, Order<P, u64, I>>) -> Seq<u64>
    decreases ids.len(),
{
    if ids.len() == 0 || orders.contains_key(ids.first()) {
        ids
    } else {
        skip_stale(ids.drop_first(), orders)
    }
}

/// The ids without those at the tail whose orders have left the book.
pub open spec fn trim_stale<P, I>(ids: Seq<u64>, orders: Map<u64, Order<P, u64, I>>) -> Seq<u64>
    decreases ids.len(),
{
    if ids.len() == 0 || orders.contains_key(ids.last()) {
        ids
    } else {
        trim_stale(ids.drop_last(), orders)
    }
}

/// Whether a queue differs from another in its ids only, and has kept every
/// id of an order that is in the book.
pub open spec fn same_but_stale<P, I>(
    before: QueueView,
    after: QueueView,
    orders: Map<u64, Order<P, u64, I>>,
) -> bool {
    &&& after.count == before.count
    &&& after.volume == before.volume
    &&& forall|id: u64|
        before.ids.contains(id) && orders.contains_key(id) ==> after.ids.contains(id)
}

/// The queues of a side still agree with the orders when one queue loses
/// ids of orders that have left the book.
pub proof fn lemma_stale_ids_keep_tally<P, I>(
    orders: Map<u64, Order<P, u64, I>>,
    side: Side,
    queues: Map<P, QueueView>,
    price: P,
    after: QueueView,
)
    requires
        tallied(orders, side, queues),
        queues.contains_key(price),
        same_but_stale(queues[price], after, orders),
    ensures
        tallied(orders, side, queues.insert(price, after)),
{
    let queues2 = queues.insert(price, after);
    assert forall|p: P| #[trigger] level_tallied(orders, side, queues2, p) by {
        assert(level_tallied(orders, side, queues, p));
    }
}

/// What looking for the first order of a side gives and leaves behind.
///
/// A side without queues has none, and stays as it is. Otherwise the queue
/// at the best price loses the ids at its head whose orders have left the
/// book, and the id then at its head comes back with its order.
pub open spec fn headed<P: Price, I>(
    side: Side,
    before: Map<P, QueueView>,
    orders: Map<u64, Order<P, u64, I>>,
    after: Map<P, QueueView>,
    top: Option<(&u64, &Order<P, u64, I>)>,
) -> bool {
    match top {
        None => before == Map::<P, QueueView>::empty() && after == before,
        Some((id, order)) => {
            let best = best_price(side, before);
            let ids = skip_stale(before[best].ids, orders);
            &&& before.contains_key(best)
            &&& after == before.insert(best, QueueView { ids, ..before[best] })
            &&& ids.len() > 0
            &&& *id == ids.first()
            &&& orders.contains_key(*id)
            &&& *order == orders[*id]
        },
    }
}

/// What looking for the last order of a side gives and leaves behind.
///
/// A side without queues has none, and stays as it is. Otherwise the queue
/// at the worst price loses the ids at its tail whose orders have left the
/// book, and the id then at its tail comes back with its order.
pub open spec fn tailed<P: Price, I>(
    side: Side,
    before: Map<P, QueueView>,
    orders: Map<u64, Order<P, u64, I>>,
    after: Map<P, QueueView>,
    bottom: Option<(&u64, &Order<P, u64, I>)>,
) -> bool {
    match bottom {
        None => before == Map::<P, QueueView>::empty() && after == before,
        Some((id, order)) => {
            let worst = worst_price(side, before);
            let ids = trim_stale(before[worst].ids, orders);
            &&& before.contains_key(worst)
            &&& after == before.insert(worst, QueueView { ids, ..before[worst] })
            &&& ids.len() > 0
            &&& *id == ids.last()
            &&& orders.contains_key(*id)
            &&& *order == orders[*id]
        },
    }
}

/// What is wanted of the queue at a price: the quantity asked for, or the
/// whole volume there where none is.
pub open spec fn wanted<P>(queues: Map<P, QueueView>, price: P, quantity: Option<u64>) -> u64 {
    match quantity {
        Some(q) => q,
        None => queues[price].volume as u64,
    }
}

/// Whether queues are walked from the tail.
pub open spec fn from_tail(sort_by: PriceTimePriority) -> bool {
    sort_by is BothAsc
}

/// The ids that serve at a price, in the order of the walk, each with what it serves.
pub open spec fn servings_at<P, I>(
    queues: Map<P, QueueView>,
    orders: Map<u64, Order<P, u64, I>>,
    price: P,
    quantity: Option<u64>,
    sort_by: PriceTimePriority,
) -> Seq<(u64, u64)> {
    if queues.contains_key(price) {
        served(
            oriented(queues[price].ids, from_tail(sort_by)),
            orders,
            wanted(queues, price, quantity),
        )
    } else {
        Seq::empty()
    }
}

/// What the queue at a price could not serve. Where no quantity was asked
/// for and no order rests at the price, that is nothing.
pub open spec fn deficit_at<P, I>(
    queues: Map<P, QueueView>,
    orders: Map<u64, Order<P, u64, I>>,
    price: P,
    quantity: Option<u64>,
    sort_by: PriceTimePriority,
) -> u64 {
    if queues.contains_key(price) {
        unserved(
            oriented(queues[price].ids, from_tail(sort_by)),
            orders,
            wanted(queues, price, quantity),
        )
    } else {
        match quantity {
            Some(q) => q,
            None => 0,
        }
    }
}

/// The queues after the queue at a price has been walked.
pub open spec fn queues_after<P, I>(
    queues: Map<P, QueueView>,
    orders: Map<u64, Order<P, u64, I>>,
    price: P,
    quantity: Option<u64>,
    sort_by: PriceTimePriority,
) -> Map<P, QueueView> {
    if queues.contains_key(price) {
        queues.insert(
            price,
            QueueView {
                ids: oriented(
                    swept(
                        oriented(queues[price].ids, from_tail(sort_by)),
                        orders,
                        wanted(queues, price, quantity),
                    ),
                    from_tail(sort_by),
                ),
                ..queues[price]
            },
        )
    } else {
        queues
    }
}

/// What a walk over several prices has served, what is still wanted, and
/// the queues that it leaves.
#[verifier::reject_recursive_types(P)]
pub struct Tour<P> {
    pub servings: Seq<(u64, u64)>,
    pub quantity: Option<u64>,
    pub queues: Map<P, QueueView>,
}

/// The walk over the given prices, one after the other.
///
/// Where a quantity is asked for, each price is asked for what the prices
/// before it could not serve, and the walk ends at the price that serves the
/// last of it. Where none is asked for, every price serves all that it has.
pub open spec fn toured<P, I>(
    prices: Seq<P>,
    queues: Map<P, QueueView>,
    orders: Map<u64, Order<P, u64, I>>,
    quantity: Option<u64>,
    sort_by: PriceTimePriority,
) -> Tour<P>
    decreases prices.len(),
{
    if prices.len() == 0 {
        Tour { servings: Seq::empty(), quantity, queues }
    } else {
        let price = prices.first();
        let here = servings_at(queues, orders, price, quantity, sort_by);
        let left = match quantity {
            Some(_) => Some(deficit_at(queues, orders, price, quantity, sort_by)),
            None => None,
        };
        let queues2 = queues_after(queues, orders, price, quantity, sort_by);
        if left == Some(0u64) {
            Tour { servings: here, quantity: left, queues: queues2 }
        } else {
            let rest = toured(prices.drop_first(), queues2, orders, left, sort_by);
            Tour { servings: here + rest.servings, quantity: rest.quantity, queues: rest.queues }
        }
    }
}

/// What of a wanted quantity a walk over several prices could not serve.
pub open spec fn deficit_of<P>(tour: Tour<P>) -> u64 {
    match tour.quantity {
        Some(q) => q,
        None => 0,
    }
}

/// The prices in the order in which a walk takes them: best first, or
/// worst first.
pub open spec fn walk_order<P>(prices: Seq<P>, sort_by: PriceTimePriority) -> Seq<P> {
    if from_tail(sort_by) {
        prices.reverse()
    } else {
        prices
    }
}

/// The items in the opposite order.
pub fn reversed<T: Copy>(items: &Vec<T>) -> (turned: Vec<T>)
    ensures
        turned@ == items@.reverse(),
{
    let mut turned: Vec<T> = Vec::new();
    let mut i: usize = items.len();
    while i > 0
        invariant
            i <= items@.len(),
            turned@.len() == items@.len() - i,
            forall|j: int| 0 <= j < turned@.len() ==> turned@[j] == items@[items@.len() - 1 - j],
        decreases i,
    {
        i -= 1;
        turned.push(items[i]);
    }
    assert(turned@ =~= items@.reverse());
    turned
}

/// The sum of the quantities of the orders with the given ids, an id that
/// comes twice counted twice.
pub open spec fn quantity_sum<P, I>(ids: Seq<u64>, orders: Map<u64, Order<P, u64, I>>) -> nat
    decreases ids.len(),
{
    if ids.len() == 0 {
        0
    } else {
        quantity_sum(ids.drop_last(), orders) + orders[ids.last()].quantity as nat
    }
}

/// Whether a queue counts the ids it holds of orders that are in the book,
/// and its volume is the sum of what is left of those orders, an id that
/// stands twice among the ids taken twice: what a walk along the ids finds.
pub open spec fn queue_counted<P, I>(queue: QueueView, orders: Map<u64, Order<P, u64, I>>) -> bool {
    &&& queue.count == live_ids(queue.ids, orders).len()
    &&& queue.volume == quantity_sum(live_ids(queue.ids, orders), orders)
}

/// Whether every queue of a side is counted right by a walk along its ids.
pub open spec fn side_counted<P, I>(queues: Map<P, QueueView>, orders: Map<u64, Order<P, u64, I>>) -> bool {
    forall|price: P| queues.contains_key(price) ==> #[trigger] queue_counted(queues[price], orders)
}

/// The ids among `ids` whose orders are in the book, as a set.
pub open spec fn live_set<P, I>(ids: Seq<u64>, orders: Map<u64, Order<P, u64, I>>) -> Set<u64> {
    live_ids(ids, orders).to_set()
}

/// Whether a queue is intact: it counts the ids that it holds of orders of
/// the book, each id once, and its volume is the sum of what is left of
/// those orders.
pub open spec fn queue_intact<P, I>(queue: QueueView, orders: Map<u64, Order<P, u64, I>>) -> bool {
    &&& queue.count == live_set(queue.ids, orders).len()
    &&& queue.volume == total_quantity(orders, live_set(queue.ids, orders))
}

/// Whether every queue of a side is intact.
pub open spec fn side_intact<P, I>(queues: Map<P, QueueView>, orders: Map<u64, Order<P, u64, I>>) -> bool {
    forall|price: P| queues.contains_key(price) ==> #[trigger] queue_intact(queues[price], orders)
}

/// The queues with the queue at a price cleaned, where it needs cleaning:
/// only the ids of orders that are in the book stay.
pub open spec fn cleaned_up<P, I>(
    queues: Map<P, QueueView>,
    price: P,
    orders: Map<u64, Order<P, u64, I>>,
) -> Map<P, QueueView> {
    if needs_cleaning(queues, price) {
        queues.insert(
            price,
            QueueView { ids: live_ids(queues[price].ids, orders), ..queues[price] },
        )
    } else {
        queues
    }
}

/// The queues of the order's side still agree with the orders when the
/// order leaves both, whether or not its queue is cleaned on the way.
proof fn lemma_remove_keeps_tally<P, I>(
    orders: Map<u64, Order<P, u64, I>>,
    id: u64,
    queues: Map<P, QueueView>,
)
    requires
        orders.dom().finite(),
        orders.contains_key(id),
        tallied(orders, orders[id].side, queues),
    ensures
        queues.contains_key(orders[id].price),
        queues[orders[id].price].count > 0,
        queues[orders[id].price].volume >= orders[id].quantity,
        tallied(
            orders.remove(id),
            orders[id].side,
            removed(queues, orders[id].price, orders[id].quantity),
        ),
        tallied(
            orders.remove(id),
            orders[id].side,
            cleaned_up(
                removed(queues, orders[id].price, orders[id].quantity),
                orders[id].price,
                orders.remove(id),
            ),
        ),
{
    let order = orders[id];
    let side = order.side;
    let orders2 = orders.remove(id);
    let queues2 = removed(queues, order.price, order.quantity);
    let queues3 = cleaned_up(queues2, order.price, orders2);
    lemma_remove_order(orders, id);
    lemma_resting_order_counts(orders, id);
    assert(level_tallied(orders, side, queues, order.price));
    assert forall|price: P| #[trigger] level_tallied(orders2, side, queues2, price) by {
        assert(level_tallied(orders, side, queues, price));
        if price == order.price {
            lemma_resting_ids_finite(orders, side, price);
        } else {
            assert(resting_ids(orders2, side, price) == resting_ids(orders, side, price));
        }
    }
    assert forall|price: P| #[trigger] level_tallied(orders2, side, queues3, price) by {
        assert(level_tallied(orders2, side, queues2, price));
        if price == order.price && needs_cleaning(queues2, price) {
            lemma_live_ids_are_the_live(queues2[price].ids, orders2);
        }
    }
}

/// The queues of the other side are not touched by an order that leaves.
proof fn lemma_remove_leaves_other_side<P, I>(
    orders: Map<u64, Order<P, u64, I>>,
    id: u64,
    queues: Map<P, QueueView>,
)
    requires
        orders.dom().finite(),
        orders.contains_key(id),
        tallied(orders, opposite(orders[id].side), queues),
    ensures
        tallied(orders.remove(id), opposite(orders[id].side), queues),
{
    lemma_remove_order(orders, id);
    let orders2 = orders.remove(id);
    let side = opposite(orders[id].side);
    assert forall|price: P| #[trigger] level_tallied(orders2, side, queues, price) by {
        assert(level_tallied(orders, side, queues, price));
        assert(resting_ids(orders2, side, price) == resting_ids(orders, side, price));
    }
}

/// The queues still agree with the orders when part of an order goes and
/// the volume at its price goes down by as much.
proof fn lemma_reduce_keeps_tally<P, I>(
    orders: Map<u64, Order<P, u64, I>>,
    id: u64,
    quantity: u64,
    side: Side,
    queues: Map<P, QueueView>,
)
    requires
        orders.dom().finite(),
        orders.contains_key(id),
        quantity <= orders[id].quantity,
        tallied(orders, side, queues),
    ensures
        side == orders[id].side ==> queues.contains_key(orders[id].price) && queues[orders[id].price].volume
            >= orders[id].quantity,
        tallied(
            orders.insert(id, Order { quantity: (orders[id].quantity - quantity) as u64, ..orders[id] }),
            side,
            if side == orders[id].side {
                queues.insert(
                    orders[id].price,
                    QueueView {
                        volume: (queues[orders[id].price].volume - quantity) as nat,
                        ..queues[orders[id].price]
                    },
                )
            } else {
                queues
            },
        ),
{
    let order = orders[id];
    let less = Order { quantity: (order.quantity - quantity) as u64, ..order };
    let orders2 = orders.insert(id, less);
    lemma_requantify_order(orders, id, less);
    lemma_resting_order_counts(orders, id);
    assert(level_tallied(orders, order.side, queues, order.price) || side != order.side);
    let queues2 = if side == order.side {
        queues.insert(
            order.price,
            QueueView { volume: (queues[order.price].volume - quantity) as nat, ..queues[order.price] },
        )
    } else {
        queues
    };
    assert forall|price: P| #[trigger] level_tallied(orders2, side, queues2, price) by {
        assert(level_tallied(orders, side, queues, price));
        assert(resting_ids(orders2, side, price) == resting_ids(orders, side, price));
        if !(side == order.side && price == order.price) {
            assert(resting_volume(orders2, side, price) == resting_volume(orders, side, price));
        }
    }
}

/// An order book: every order under its id, and for each side the queues
/// of ids by price.
#[derive(Clone, Debug)]
pub struct OrderBook<P, I = ()> {
    ask_status: BookStatus<P>,
    bid_status: BookStatus<P>,
    order_map: OrderMap<P, I>,
}

impl<P: Price, I> OrderBook<P, I> {
    /// The orders in the book, by id.
    pub closed spec fn orders(&self) -> Map<u64, Order<P, u64, I>> {
        self.order_map@
    }

    /// The queues of the ask side, by price.
    pub closed spec fn asks(&self) -> Map<P, QueueView> {
        self.ask_status@
    }

    /// The queues of the bid side, by price.
    pub closed spec fn bids(&self) -> Map<P, QueueView> {
        self.bid_status@
    }

    /// The queues of a side, by price.
    pub open spec fn queues(&self, side: Side) -> Map<P, QueueView> {
        match side {
            Side::Ask => self.asks(),
            Side::Bid => self.bids(),
        }
    }

    /// Each side keeps its queues in its own order.
    pub closed spec fn sides_sound(&self) -> bool {
        &&& self.ask_status.wf()
        &&& self.bid_status.wf()
        &&& self.ask_status.spec_side() == Side::Ask
        &&& self.bid_status.spec_side() == Side::Bid
    }

    /// The book is sound: on both sides the queues agree with the orders,
    /// and every queue is tidy, so that the ids that it holds of orders of
    /// the book are of the orders that rest at its price, each once.
    pub open spec fn wf(&self) -> bool {
        &&& self.sides_sound()
        &&& self.orders().dom().finite()
        &&& tallied(self.orders(), Side::Ask, self.asks())
        &&& tallied(self.orders(), Side::Bid, self.bids())
        &&& side_tidy(self.orders(), Side::Ask, self.asks())
        &&& side_tidy(self.orders(), Side::Bid, self.bids())
    }

    /// The queue at a price of a side that an order under a new id joins:
    /// what is there once the id, left behind by an order that is gone, is
    /// dropped from the queues.
    pub open spec fn joined_queue(&self, side: Side, price: P, id: u64) -> QueueView {
        queue_at(scrubbed(self.queues(side), id), price)
    }

    /// What the book is after `order` has joined it under `id`, given the
    /// queue that the order's price has afterwards. No queue holds the id
    /// any more where an order that is gone had left it behind.
    pub open spec fn with_order(
        &self,
        after: &Self,
        id: u64,
        order: Order<P, u64, I>,
        queue: QueueView,
    ) -> bool {
        &&& after.orders() == self.orders().insert(id, order)
        &&& after.queues(order.side) == scrubbed(self.queues(order.side), id).insert(
            order.price,
            queue,
        )
        &&& after.queues(opposite(order.side)) == scrubbed(self.queues(opposite(order.side)), id)
    }

    pub fn new() -> (book: Self)
        ensures
            book.wf(),
            book.orders() == Map::<u64, Order<P, u64, I>>::empty(),
            book.asks() == Map::<P, QueueView>::empty(),
            book.bids() == Map::<P, QueueView>::empty(),
    {
        let book = Self {
            ask_status: BookStatus::new(Side::Ask),
            bid_status: BookStatus::new(Side::Bid),
            order_map: OrderMap::new(),
        };
        proof {
            assert forall|side: Side, price: P|
                resting_ids(book.orders(), side, price) =~= Set::<u64>::empty() by {}
            assert forall|price: P| #[trigger]
                level_tallied(book.orders(), Side::Ask, book.asks(), price) by {
                assert(resting_ids(book.orders(), Side::Ask, price) =~= Set::<u64>::empty());
            }
            assert forall|price: P| #[trigger]
                level_tallied(book.orders(), Side::Bid, book.bids(), price) by {
                assert(resting_ids(book.orders(), Side::Bid, price) =~= Set::<u64>::empty());
            }
        }
        book
    }

    /// Puts a new order into the map and into the queue at its price: at the
    /// tail, or where a binary search for the id ends. Before that, the id
    /// is dropped from every queue that still holds it.
    fn place(&mut self, id: u64, order: Order<P, u64, I>, sorted: bool)
        requires
            old(self).wf(),
            !old(self).orders().contains_key(id),
            resting_volume(old(self).orders(), order.side, order.price) + order.quantity <= u64::MAX,
        ensures
            final(self).wf(),
            final(self).orders().contains_key(id),
            final(self).queues(order.side).contains_key(order.price),
            old(self).with_order(
                final(self),
                id,
                order,
                final(self).queues(order.side)[order.price],
            ),
            !sorted ==> final(self).queues(order.side)[order.price] == pushed(
                old(self).joined_queue(order.side, order.price, id),
                id,
                order.quantity,
            ),
            sorted ==> joined_in_order(
                old(self).joined_queue(order.side, order.price, id),
                id,
                order.quantity,
                final(self).queues(order.side)[order.price],
            ),
    {
        let side = order.side;
        let price = order.price;
        let quantity: u64 = order.quantity;
        let ghost orders = old(self).orders();
        self.ask_status.scrub(id);
        self.bid_status.scrub(id);
        let ghost base = self.queues(side);
        let ghost other = self.queues(opposite(side));
        let ghost before = queue_at(base, price);
        proof {
            lemma_scrub_keeps_side(orders, Side::Ask, old(self).asks(), id);
            lemma_scrub_keeps_side(orders, Side::Bid, old(self).bids(), id);
            assert(base == scrubbed(old(self).queues(side), id));
            assert(other == scrubbed(old(self).queues(opposite(side)), id));
        }
        self.order_map.insert(id, order);
        proof {
            old(self).order_map.lemma_finite();
            self.order_map.lemma_finite();
            lemma_resting_ids_finite(orders, side, price);
            assert(level_tallied(orders, side, base, price));
            assert(orders.insert(id, order).dom() =~= orders.dom().insert(id));
        }
        match side {
            Side::Ask => {
                if sorted {
                    self.ask_status.sorted_insert_by_key(id, price, quantity);
                } else {
                    self.ask_status.push(id, price, quantity);
                }
            },
            Side::Bid => {
                if sorted {
                    self.bid_status.sorted_insert_by_key(id, price, quantity);
                } else {
                    self.bid_status.push(id, price, quantity);
                }
            },
        }
        proof {
            let after = self.queues(side)[price];
            assert(self.queues(side) =~= base.insert(price, after));
            if !sorted {
                assert(before.ids.insert(before.ids.len() as int, id) =~= before.ids.push(id));
            }
            assert(inserted_somewhere(before.ids, id, after.ids));
            assert(one_more(before, id, quantity, after)) by {
                let at = choose|at: int|
                    0 <= at <= before.ids.len() && #[trigger] before.ids.insert(at, id) == after.ids;
                assert(after.ids[at] == id);
                assert forall|x: u64| before.ids.contains(x) implies after.ids.contains(x) by {
                    let i = choose|i: int| 0 <= i < before.ids.len() && before.ids[i] == x;
                    if i < at {
                        assert(after.ids[i] == x);
                    } else {
                        assert(after.ids[i + 1] == x);
                    }
                }
            }
            lemma_insert_keeps_tally(orders, id, order, base, after);
            lemma_insert_leaves_other_side(orders, id, order, other);
            crate::collections::laws::lemma_side_stays_tidy_with_order(
                orders,
                id,
                order,
                side,
                base,
                after,
            );
            crate::collections::laws::lemma_side_stays_tidy_with_order(
                orders,
                id,
                order,
                opposite(side),
                other,
                after,
            );
        }
    }

    /// Puts an order at the tail of the queue at its price.
    ///
    /// An id that is in the book already is refused, and the book stays as
    /// it is. Where an order that is gone has left the id behind in a
    /// queue, the id is dropped there: the new order queues behind all that
    /// rest at its price.
    pub fn insert(&mut self, id: u64, side: Side, price: P, quantity: u64, info: I) -> (result: Result<
        &Order<P, u64, I>,
        Error,
    >)
        requires
            old(self).wf(),
            resting_volume(old(self).orders(), side, price) + quantity <= u64::MAX,
        ensures
            final(self).wf(),
            match result {
                Ok(order) => {
                    &&& !old(self).orders().contains_key(id)
                    &&& *order == (Order { side, price, quantity, info })
                    &&& old(self).with_order(
                        final(self),
                        id,
                        *order,
                        pushed(old(self).joined_queue(side, price, id), id, quantity),
                    )
                },
                Err(e) => {
                    &&& e == Error::KeyAlreadyExists
                    &&& old(self).orders().contains_key(id)
                    &&& *final(self) == *old(self)
                },
            },
    {
        if self.order_map.contains(&id) {
            return Err(Error::KeyAlreadyExists);
        }
        self.place(id, Order::new(side, price, quantity, info), false);
        Ok(self.order_map.get(&id).unwrap())
    }

    /// Puts an ask at the tail of the queue at its price.
    pub fn insert_ask(&mut self, id: u64, price: P, quantity: u64, info: I) -> (result: Result<
        &Order<P, u64, I>,
        Error,
    >)
        requires
            old(self).wf(),
            resting_volume(old(self).orders(), Side::Ask, price) + quantity <= u64::MAX,
        ensures
            final(self).wf(),
            match result {
                Ok(order) => {
                    &&& !old(self).orders().contains_key(id)
                    &&& *order == (Order { side: Side::Ask, price, quantity, info })
                    &&& old(self).with_order(
                        final(self),
                        id,
                        *order,
                        pushed(old(self).joined_queue(Side::Ask, price, id), id, quantity),
                    )
                },
                Err(e) => {
                    &&& e == Error::KeyAlreadyExists
                    &&& old(self).orders().contains_key(id)
                    &&& *final(self) == *old(self)
                },
            },
    {
        self.insert(id, Side::Ask, price, quantity, info)
    }

    /// Puts a bid at the tail of the queue at its price.
    pub fn insert_bid(&mut self, id: u64, price: P, quantity: u64, info: I) -> (result: Result<
        &Order<P, u64, I>,
        Error,
    >)
        requires
            old(self).wf(),
            resting_volume(old(self).orders(), Side::Bid, price) + quantity <= u64::MAX,
        ensures
            final(self).wf(),
            match result {
                Ok(order) => {
                    &&& !old(self).orders().contains_key(id)
                    &&& *order == (Order { side: Side::Bid, price, quantity, info })
                    &&& old(self).with_order(
                        final(self),
                        id,
                        *order,
                        pushed(old(self).joined_queue(Side::Bid, price, id), id, quantity),
                    )
                },
                Err(e) => {
                    &&& e == Error::KeyAlreadyExists
                    &&& old(self).orders().contains_key(id)
                    &&& *final(self) == *old(self)
                },
            },
    {
        self.insert(id, Side::Bid, price, quantity, info)
    }

    /// Puts an ask into the queue at its price where a binary search for its
    /// id ends: for ids that arrive out of their order.
    pub fn sorted_insert_ask_by_key(&mut self, id: u64, price: P, quantity: u64, info: I) -> (result:
        Result<&Order<P, u64, I>, Error>)
        requires
            old(self).wf(),
            resting_volume(old(self).orders(), Side::Ask, price) + quantity <= u64::MAX,
        ensures
            final(self).wf(),
            match result {
                Ok(order) => {
                    &&& !old(self).orders().contains_key(id)
                    &&& *order == (Order { side: Side::Ask, price, quantity, info })
                    &&& final(self).asks().contains_key(price)
                    &&& old(self).with_order(final(self), id, *order, final(self).asks()[price])
                    &&& joined_in_order(
                        old(self).joined_queue(Side::Ask, price, id),
                        id,
                        quantity,
                        final(self).asks()[price],
                    )
                },
                Err(e) => {
                    &&& e == Error::KeyAlreadyExists
                    &&& old(self).orders().contains_key(id)
                    &&& *final(self) == *old(self)
                },
            },
    {
        if self.order_map.contains(&id) {
            return Err(Error::KeyAlreadyExists);
        }
        self.place(id, Order::new(Side::Ask, price, quantity, info), true);
        Ok(self.order_map.get(&id).unwrap())
    }

    /// Puts a bid into the queue at its price where a binary search for its
    /// id ends: for ids that arrive out of their order.
    pub fn sorted_insert_bid_by_key(&mut self, id: u64, price: P, quantity: u64, info: I) -> (result:
        Result<&Order<P, u64, I>, Error>)
        requires
            old(self).wf(),
            resting_volume(old(self).orders(), Side::Bid, price) + quantity <= u64::MAX,
        ensures
            final(self).wf(),
            match result {
                Ok(order) => {
                    &&& !old(self).orders().contains_key(id)
                    &&& *order == (Order { side: Side::Bid, price, quantity, info })
                    &&& final(self).bids().contains_key(price)
                    &&& old(self).with_order(final(self), id, *order, final(self).bids()[price])
                    &&& joined_in_order(
                        old(self).joined_queue(Side::Bid, price, id),
                        id,
                        quantity,
                        final(self).bids()[price],
                    )
                },
                Err(e) => {
                    &&& e == Error::KeyAlreadyExists
                    &&& old(self).orders().contains_key(id)
                    &&& *final(self) == *old(self)
                },
            },
    {
        if self.order_map.contains(&id) {
            return Err(Error::KeyAlreadyExists);
        }
        self.place(id, Order::new(Side::Bid, price, quantity, info), true);
        Ok(self.order_map.get(&id).unwrap())
    }

    /// What the book is after the order under `id` has left it: the order
    /// is out of the map and counted out of the queue at its price, and that
    /// queue is gone if it was the last order there, cleaned if the queue
    /// needs it, and else as it was.
    pub open spec fn without_order(&self, after: &Self, id: u64) -> bool {
        let order = self.orders()[id];
        &&& after.orders() == self.orders().remove(id)
        &&& after.queues(order.side) == cleaned_up(
            removed(self.queues(order.side), order.price, order.quantity),
            order.price,
            after.orders(),
        )
        &&& after.queues(opposite(order.side)) == self.queues(opposite(order.side))
    }

    /// What the book is after `quantity` has gone from the order under `id`,
    /// which has more than that left.
    pub open spec fn with_less(&self, after: &Self, id: u64, quantity: u64) -> bool {
        let order = self.orders()[id];
        &&& after.orders() == self.orders().insert(
            id,
            Order { quantity: (order.quantity - quantity) as u64, ..order },
        )
        &&& after.queues(order.side) == self.queues(order.side).insert(
            order.price,
            QueueView {
                volume: (self.queues(order.side)[order.price].volume - quantity) as nat,
                ..self.queues(order.side)[order.price]
            },
        )
        &&& after.queues(opposite(order.side)) == self.queues(opposite(order.side))
    }

    /// Drops from the queue at a price the ids whose orders have left the book.
    fn clean(status: &mut BookStatus<P>, order_map: &OrderMap<P, I>, price: &P)
        requires
            old(status).wf(),
            old(status)@.contains_key(*price),
        ensures
            final(status).wf(),
            final(status).spec_side() == old(status).spec_side(),
            final(status)@ == old(status)@.insert(
                *price,
                QueueView {
                    ids: live_ids(old(status)@[*price].ids, order_map@),
                    ..old(status)@[*price]
                },
            ),
    {
        let taken = status.take(price);
        let mut queue = taken.unwrap();
        let mut kept: std::collections::VecDeque<u64> = std::collections::VecDeque::new();
        let mut i: usize = 0;
        let ghost ids = queue@.ids;
        while i < queue.order_ids().len()
            invariant
                queue@ == old(status)@[*price],
                ids == queue@.ids,
                i <= ids.len(),
                kept@ == live_ids(ids.take(i as int), order_map@),
            decreases ids.len() - i,
        {
            let id: u64 = queue.order_ids()[i];
            proof {
                assert(ids.take(i + 1).drop_last() =~= ids.take(i as int));
                assert(ids.take(i + 1).last() == id);
            }
            if order_map.contains(&id) {
                kept.push_back(id);
            }
            i += 1;
        }
        proof {
            assert(ids.take(ids.len() as int) =~= ids);
        }
        queue.set_order_ids(kept);
        status.put(*price, queue);
        assert(status@ =~= old(status)@.insert(
            *price,
            QueueView { ids: live_ids(old(status)@[*price].ids, order_map@), ..old(status)@[*price] },
        ));
    }

    /// Takes an order out of the book.
    ///
    /// The id of the order stays in the queue at its price until the queue is
    /// walked or cleaned. The queue is cleaned here if it holds more than 100
    /// ids and fewer than half of them are counted, and leaves the side if
    /// the order was its last.
    pub fn remove(&mut self, id: &u64) -> (removed: Option<Order<P, u64, I>>)
        requires
            old(self).wf(),
        ensures
            final(self).wf(),
            match removed {
                Some(order) => {
                    &&& old(self).orders().contains_key(*id)
                    &&& order == old(self).orders()[*id]
                    &&& old(self).without_order(final(self), *id)
                },
                None => !old(self).orders().contains_key(*id) && *final(self) == *old(self),
            },
    {
        proof {
            old(self).order_map.lemma_finite();
            if old(self).orders().contains_key(*id) {
                let order = old(self).orders()[*id];
                lemma_remove_keeps_tally(old(self).orders(), *id, old(self).queues(order.side));
                lemma_remove_leaves_other_side(
                    old(self).orders(),
                    *id,
                    old(self).queues(opposite(order.side)),
                );
            }
        }
        if !self.order_map.contains(id) {
            return None;
        }
        let taken = self.order_map.remove(id);
        let order = taken.unwrap();
        match order.side {
            Side::Ask => {
                let clean = self.ask_status.remove(&order.price, order.quantity);
                if clean {
                    Self::clean(&mut self.ask_status, &self.order_map, &order.price);
                }
            },
            Side::Bid => {
                let clean = self.bid_status.remove(&order.price, order.quantity);
                if clean {
                    Self::clean(&mut self.bid_status, &self.order_map, &order.price);
                }
            },
        }
        proof {
            assert(self.queues(order.side) =~= cleaned_up(
                removed(old(self).queues(order.side), order.price, order.quantity),
                order.price,
                self.orders(),
            ));
            crate::collections::laws::law_remove_keeps_tidy(*old(self), *self, *id);
        }
        Some(order)
    }

    /// Takes a quantity from an order.
    ///
    /// An order that has no more than the quantity left leaves the book, as
    /// by `remove`, and comes back whole. From an order that has more, the
    /// quantity goes, and the part that went comes back.
    pub fn reduce(&mut self, id: &u64, quantity: u64) -> (reduced: Option<OrderView<'_, P, u64, I>>)
        requires
            old(self).wf(),
        ensures
            final(self).wf(),
            match reduced {
                None => !old(self).orders().contains_key(*id) && *final(self) == *old(self),
                Some(OrderView::Full(order)) => {
                    &&& old(self).orders().contains_key(*id)
                    &&& order == old(self).orders()[*id]
                    &&& order.quantity <= quantity
                    &&& old(self).without_order(final(self), *id)
                },
                Some(OrderView::Partial(part)) => {
                    &&& old(self).orders().contains_key(*id)
                    &&& quantity < old(self).orders()[*id].quantity
                    &&& part.quantity == quantity
                    &&& *part.side == old(self).orders()[*id].side
                    &&& *part.price == old(self).orders()[*id].price
                    &&& *part.info == old(self).orders()[*id].info
                    &&& old(self).with_less(final(self), *id, quantity)
                },
            },
    {
        let left: u64 = match self.order_map.get(id) {
            None => {
                return None;
            },
            Some(order) => order.quantity,
        };
        if left <= quantity {
            let whole = self.remove(id);
            Some(OrderView::Full(whole.unwrap()))
        } else {
            proof {
                old(self).order_map.lemma_finite();
                lemma_reduce_keeps_tally(
                    old(self).orders(),
                    *id,
                    quantity,
                    Side::Ask,
                    old(self).asks(),
                );
                lemma_reduce_keeps_tally(
                    old(self).orders(),
                    *id,
                    quantity,
                    Side::Bid,
                    old(self).bids(),
                );
            }
            let taken = self.order_map.remove(id);
            let mut order = taken.unwrap();
            order.quantity -= quantity;
            let side = order.side;
            let price = order.price;
            self.order_map.insert(*id, order);
            match side {
                Side::Ask => self.ask_status.reduce(&price, quantity),
                Side::Bid => self.bid_status.reduce(&price, quantity),
            }
            proof {
                assert(self.orders() =~= old(self).orders().insert(
                    *id,
                    Order { quantity: (left - quantity) as u64, ..old(self).orders()[*id] },
                ));
                crate::collections::tally::lemma_resting_order_counts(old(self).orders(), *id);
                assert(level_tallied(old(self).orders(), side, old(self).queues(side), price));
                crate::collections::laws::law_reduce_keeps_tidy(*old(self), *self, *id, quantity);
            }
            let order = self.order_map.get(id).unwrap();
            Some(
                OrderView::Partial(
                    PartialOrder {
                        side: &order.side,
                        price: &order.price,
                        quantity,
                        info: &order.info,
                    },
                ),
            )
        }
    }

    /// The order under an id.
    pub fn get(&mut self, id: &u64) -> (order: Option<&Order<P, u64, I>>)
        ensures
            *final(self) == *old(self),
            order == if old(self).orders().contains_key(*id) {
                Some(&old(self).orders()[*id])
            } else {
                None
            },
    {
        self.order_map.get(id)
    }

    /// The info of the order under an id, to be changed in place.
    pub fn get_info_mut(&mut self, id: &u64) -> (info: Option<&mut I>)
        requires
            old(self).wf(),
        ensures
            final(self).wf(),
            final(self).asks() == old(self).asks(),
            final(self).bids() == old(self).bids(),
            match info {
                Some(i) => {
                    &&& old(self).orders().contains_key(*id)
                    &&& *i == old(self).orders()[*id].info
                    &&& final(self).orders() == relabelled(old(self).orders(), *id, *final(i))
                },
                None => !old(self).orders().contains_key(*id) && final(self).orders() == old(
                    self,
                ).orders(),
            },
    {
        proof {
            old(self).order_map.lemma_finite();
            let orders = old(self).orders();
            let asks = old(self).asks();
            let bids = old(self).bids();
            assert forall|info: I| orders.contains_key(*id) implies {
                &&& tallied(#[trigger] relabelled(orders, *id, info), Side::Ask, asks)
                &&& tallied(relabelled(orders, *id, info), Side::Bid, bids)
                &&& relabelled(orders, *id, info).dom().finite()
                &&& side_tidy(relabelled(orders, *id, info), Side::Ask, asks)
                &&& side_tidy(relabelled(orders, *id, info), Side::Bid, bids)
            } by {
                let order = Order { info, ..orders[*id] };
                crate::collections::laws::lemma_side_stays_tidy_with_same_orders(
                    orders,
                    relabelled(orders, *id, info),
                    Side::Ask,
                    asks,
                    asks,
                );
                crate::collections::laws::lemma_side_stays_tidy_with_same_orders(
                    orders,
                    relabelled(orders, *id, info),
                    Side::Bid,
                    bids,
                    bids,
                );
                lemma_relabel_keeps_tally(orders, *id, order, Side::Ask, asks);
                lemma_relabel_keeps_tally(orders, *id, order, Side::Bid, bids);
                assert(orders.insert(*id, order).dom() =~= orders.dom());
            }
        }
        self.order_map.info_mut(*id)
    }

    /// The best price of a side and the queue there.
    pub fn ask_price_top(&mut self) -> (top: Option<(&P, &OrderQueue)>)
        requires
            old(self).wf(),
        ensures
            *final(self) == *old(self),
            match top {
                Some((price, queue)) => {
                    &&& old(self).asks().contains_key(*price)
                    &&& *price == best_price(Side::Ask, old(self).asks())
                    &&& queue@ == old(self).asks()[*price]
                },
                None => old(self).asks() == Map::<P, QueueView>::empty(),
            },
    {
        proof {
            self.lemma_counted(Side::Ask);
        }
        self.ask_status.top()
    }

    /// The highest price at which bids rest and the queue there.
    pub fn bid_price_top(&mut self) -> (top: Option<(&P, &OrderQueue)>)
        requires
            old(self).wf(),
        ensures
            *final(self) == *old(self),
            match top {
                Some((price, queue)) => {
                    &&& old(self).bids().contains_key(*price)
                    &&& *price == best_price(Side::Bid, old(self).bids())
                    &&& queue@ == old(self).bids()[*price]
                },
                None => old(self).bids() == Map::<P, QueueView>::empty(),
            },
    {
        proof {
            self.lemma_counted(Side::Bid);
        }
        self.bid_status.top()
    }

    /// The highest price at which asks rest and the queue there.
    pub fn ask_price_bottom(&mut self) -> (bottom: Option<(&P, &OrderQueue)>)
        requires
            old(self).wf(),
        ensures
            *final(self) == *old(self),
            match bottom {
                Some((price, queue)) => {
                    &&& old(self).asks().contains_key(*price)
                    &&& *price == worst_price(Side::Ask, old(self).asks())
                    &&& queue@ == old(self).asks()[*price]
                },
                None => old(self).asks() == Map::<P, QueueView>::empty(),
            },
    {
        proof {
            self.lemma_counted(Side::Ask);
        }
        self.ask_status.bottom()
    }

    /// The lowest price at which bids rest and the queue there.
    pub fn bid_price_bottom(&mut self) -> (bottom: Option<(&P, &OrderQueue)>)
        requires
            old(self).wf(),
        ensures
            *final(self) == *old(self),
            match bottom {
                Some((price, queue)) => {
                    &&& old(self).bids().contains_key(*price)
                    &&& *price == worst_price(Side::Bid, old(self).bids())
                    &&& queue@ == old(self).bids()[*price]
                },
                None => old(self).bids() == Map::<P, QueueView>::empty(),
            },
    {
        proof {
            self.lemma_counted(Side::Bid);
        }
        self.bid_status.bottom()
    }

    /// The oldest order at the best price of a side, once the ids at the
    /// head of the queue whose orders have left the book are dropped.
    fn top<'a, 'b>(status: &'a mut BookStatus<P>, order_map: &'b OrderMap<P, I>) -> (top: Option<
        (&'a u64, &'b Order<P, u64, I>),
    >)
        requires
            old(status).wf(),
            tallied(order_map@, old(status).spec_side(), old(status)@),
        ensures
            final(status).wf(),
            final(status).spec_side() == old(status).spec_side(),
            tallied(order_map@, final(status).spec_side(), final(status)@),
            headed(old(status).spec_side(), old(status)@, order_map@, final(status)@, top),
            side_tidy(order_map@, old(status).spec_side(), old(status)@) ==> side_tidy(
                order_map@,
                old(status).spec_side(),
                final(status)@,
            ),
    {
        let ghost side = status.spec_side();
        let ghost queues = status@;
        proof {
            if side_tidy(order_map@, side, queues) && queues.contains_key(best_price(side, queues)) {
                crate::collections::laws::lemma_skipping_keeps_tidy(
                    order_map@,
                    side,
                    queues,
                    best_price(side, queues),
                );
            }
        }
        proof {
            status.lemma_price_list();
            assert forall|p: P| queues.contains_key(p) implies queues[p].count > 0 by {
                assert(level_tallied(order_map@, side, queues, p));
            }
        }
        let price: P = match status.top() {
            None => {
                proof {
                    assert(queues =~= Map::<P, QueueView>::empty());
                }
                return None;
            },
            Some((p, _)) => *p,
        };
        proof {
            lemma_best_price(side, queues, price);
            assert(level_tallied(order_map@, side, queues, price));
            order_map.lemma_finite();
            lemma_resting_ids_finite(order_map@, side, price);
        }
        let ghost witness = resting_ids(order_map@, side, price).choose();
        let taken = status.take(&price);
        let mut queue = taken.unwrap();
        let mut front: u64 = queue.order_ids()[0];
        while !order_map.contains(&front)
            invariant
                queues.contains_key(price),
                queue@.count == queues[price].count,
                queue@.volume == queues[price].volume,
                queue@.ids.len() > 0,
                front == queue@.ids[0],
                queue@.ids.contains(witness),
                order_map@.contains_key(witness),
                skip_stale(queue@.ids, order_map@) == skip_stale(queues[price].ids, order_map@),
                forall|id: u64| #[trigger]
                    queues[price].ids.contains(id) && order_map@.contains_key(id)
                        ==> queue@.ids.contains(id),
            decreases queue@.ids.len(),
        {
            let ghost ids = queue@.ids;
            proof {
                assert forall|id: u64| #[trigger]
                    queues[price].ids.contains(id) && order_map@.contains_key(id) implies ids.contains(
                    id,
                ) by {}
            }
            let _ = queue.pop_front();
            proof {
                assert forall|id: u64| #[trigger]
                    ids.contains(id) && order_map@.contains_key(id) implies queue@.ids.contains(
                    id,
                ) by {
                    let i = choose|i: int| 0 <= i < ids.len() && ids[i] == id;
                    assert(queue@.ids[i - 1] == id);
                }
            }
            front = queue.order_ids()[0];
        }
        proof {
            lemma_stale_ids_keep_tally(order_map@, side, queues, price, queue@);
        }
        status.put(price, queue);
        proof {
            assert(status@ =~= queues.insert(price, status@[price]));
        }
        let kept = status.get(&price).unwrap();
        let id: &u64 = &kept.order_ids()[0];
        let order = order_map.get(id).unwrap();
        Some((id, order))
    }

    /// The youngest order at the worst price of a side, once the ids at the
    /// tail of the queue whose orders have left the book are dropped.
    fn bottom<'a, 'b>(status: &'a mut BookStatus<P>, order_map: &'b OrderMap<P, I>) -> (bottom:
        Option<(&'a u64, &'b Order<P, u64, I>)>)
        requires
            old(status).wf(),
            tallied(order_map@, old(status).spec_side(), old(status)@),
        ensures
            final(status).wf(),
            final(status).spec_side() == old(status).spec_side(),
            tallied(order_map@, final(status).spec_side(), final(status)@),
            tailed(old(status).spec_side(), old(status)@, order_map@, final(status)@, bottom),
            side_tidy(order_map@, old(status).spec_side(), old(status)@) ==> side_tidy(
                order_map@,
                old(status).spec_side(),
                final(status)@,
            ),
    {
        let ghost side = status.spec_side();
        let ghost queues = status@;
        proof {
            if side_tidy(order_map@, side, queues) && queues.contains_key(worst_price(side, queues)) {
                crate::collections::laws::lemma_trimming_keeps_tidy(
                    order_map@,
                    side,
                    queues,
                    worst_price(side, queues),
                );
            }
        }
        proof {
            status.lemma_price_list();
            assert forall|p: P| queues.contains_key(p) implies queues[p].count > 0 by {
                assert(level_tallied(order_map@, side, queues, p));
            }
        }
        let price: P = match status.bottom() {
            None => {
                proof {
                    assert(queues =~= Map::<P, QueueView>::empty());
                }
                return None;
            },
            Some((p, _)) => *p,
        };
        proof {
            lemma_worst_price(side, queues, price);
            assert(level_tallied(order_map@, side, queues, price));
            order_map.lemma_finite();
            lemma_resting_ids_finite(order_map@, side, price);
        }
        let ghost witness = resting_ids(order_map@, side, price).choose();
        let taken = status.take(&price);
        let mut queue = taken.unwrap();
        let mut back: u64 = queue.order_ids()[queue.order_ids().len() - 1];
        while !order_map.contains(&back)
            invariant
                queues.contains_key(price),
                queue@.count == queues[price].count,
                queue@.volume == queues[price].volume,
                queue@.ids.len() > 0,
                back == queue@.ids.last(),
                queue@.ids.contains(witness),
                order_map@.contains_key(witness),
                trim_stale(queue@.ids, order_map@) == trim_stale(queues[price].ids, order_map@),
                forall|id: u64| #[trigger]
                    queues[price].ids.contains(id) && order_map@.contains_key(id)
                        ==> queue@.ids.contains(id),
            decreases queue@.ids.len(),
        {
            let ghost ids = queue@.ids;
            proof {
                assert forall|id: u64| #[trigger]
                    queues[price].ids.contains(id) && order_map@.contains_key(id) implies ids.contains(
                    id,
                ) by {}
            }
            let _ = queue.pop_back();
            proof {
                assert forall|id: u64| #[trigger]
                    ids.contains(id) && order_map@.contains_key(id) implies queue@.ids.contains(
                    id,
                ) by {
                    let i = choose|i: int| 0 <= i < ids.len() && ids[i] == id;
                    assert(queue@.ids[i] == id);
                }
            }
            back = queue.order_ids()[queue.order_ids().len() - 1];
        }
        proof {
            lemma_stale_ids_keep_tally(order_map@, side, queues, price, queue@);
        }
        status.put(price, queue);
        proof {
            assert(status@ =~= queues.insert(price, status@[price]));
        }
        let kept = status.get(&price).unwrap();
        let id: &u64 = &kept.order_ids()[kept.order_ids().len() - 1];
        let order = order_map.get(id).unwrap();
        Some((id, order))
    }

    /// The oldest ask at the lowest price.
    ///
    /// Ids at the head of the queue there whose orders have left the book
    /// are dropped on the way.
    pub fn ask_top(&mut self) -> (top: Option<(&u64, &Order<P, u64, I>)>)
        requires
            old(self).wf(),
        ensures
            final(self).wf(),
            final(self).orders() == old(self).orders(),
            final(self).bids() == old(self).bids(),
            headed(Side::Ask, old(self).asks(), old(self).orders(), final(self).asks(), top),
    {
        Self::top(&mut self.ask_status, &self.order_map)
    }

    /// The oldest bid at the highest price.
    ///
    /// Ids at the head of the queue there whose orders have left the book
    /// are dropped on the way.
    pub fn bid_top(&mut self) -> (top: Option<(&u64, &Order<P, u64, I>)>)
        requires
            old(self).wf(),
        ensures
            final(self).wf(),
            final(self).orders() == old(self).orders(),
            final(self).asks() == old(self).asks(),
            headed(Side::Bid, old(self).bids(), old(self).orders(), final(self).bids(), top),
    {
        Self::top(&mut self.bid_status, &self.order_map)
    }

    /// The youngest ask at the highest price.
    ///
    /// Ids at the tail of the queue there whose orders have left the book
    /// are dropped on the way.
    pub fn ask_bottom(&mut self) -> (bottom: Option<(&u64, &Order<P, u64, I>)>)
        requires
            old(self).wf(),
        ensures
            final(self).wf(),
            final(self).orders() == old(self).orders(),
            final(self).bids() == old(self).bids(),
            tailed(Side::Ask, old(self).asks(), old(self).orders(), final(self).asks(), bottom),
    {
        Self::bottom(&mut self.ask_status, &self.order_map)
    }

    /// The youngest bid at the lowest price.
    ///
    /// Ids at the tail of the queue there whose orders have left the book
    /// are dropped on the way.
    pub fn bid_bottom(&mut self) -> (bottom: Option<(&u64, &Order<P, u64, I>)>)
        requires
            old(self).wf(),
        ensures
            final(self).wf(),
            final(self).orders() == old(self).orders(),
            final(self).asks() == old(self).asks(),
            tailed(Side::Bid, old(self).bids(), old(self).orders(), final(self).bids(), bottom),
    {
        Self::bottom(&mut self.bid_status, &self.order_map)
    }

    /// Walks the queue at a price to serve a quantity, or all that rests
    /// there where none is asked for.
    fn list_orders_at<'a>(
        order_map: &'a OrderMap<P, I>,
        status: &mut BookStatus<P>,
        price: &P,
        quantity: Option<u64>,
        sort_by: PriceTimePriority,
    ) -> (listed: Orders<'a, u64, P, u64, I>)
        requires
            old(status).wf(),
            tallied(order_map@, old(status).spec_side(), old(status)@),
        ensures
            final(status).wf(),
            final(status).spec_side() == old(status).spec_side(),
            tallied(order_map@, final(status).spec_side(), final(status)@),
            final(status)@ == queues_after(old(status)@, order_map@, *price, quantity, sort_by),
            listed.orders@ == parts_of(
                order_map@,
                servings_at(old(status)@, order_map@, *price, quantity, sort_by),
            ),
            listed.deficit == deficit_at(old(status)@, order_map@, *price, quantity, sort_by),
            side_tidy(order_map@, old(status).spec_side(), old(status)@) ==> side_tidy(
                order_map@,
                old(status).spec_side(),
                final(status)@,
            ),
    {
        let ghost queues = status@;
        proof {
            if side_tidy(order_map@, status.spec_side(), queues) {
                crate::collections::laws::law_walk_keeps_tidy(
                    order_map@,
                    status.spec_side(),
                    queues,
                    *price,
                    quantity,
                    sort_by,
                );
            }
        }
        match status.take(price) {
            Some(mut queue) => {
                proof {
                    queue.lemma_bounds();
                }
                let want: u64 = match quantity {
                    Some(q) => q,
                    None => *queue.volume(),
                };
                let tail = match sort_by {
                    PriceTimePriority::BothDesc => false,
                    PriceTimePriority::BothAsc => true,
                };
                let (orders, deficit) = walk_queue(&mut queue, order_map, want, tail);
                proof {
                    lemma_stale_ids_keep_tally(
                        order_map@,
                        status.spec_side(),
                        queues,
                        *price,
                        queue@,
                    );
                }
                status.put(*price, queue);
                proof {
                    assert(status@ =~= queues_after(queues, order_map@, *price, quantity, sort_by));
                }
                Orders { deficit, orders }
            },
            None => {
                proof {
                    assert(status@ =~= queues);
                    assert(Seq::<(u64, PartialOrder<'static, P, u64, I>)>::empty() =~= parts_of(
                        order_map@,
                        Seq::<(u64, u64)>::empty(),
                    ));
                }
                let deficit: u64 = match quantity {
                    Some(q) => q,
                    None => 0,
                };
                Orders { deficit, orders: Vec::new() }
            },
        }
    }

    /// Walks the queues at the given prices, one after the other.
    fn list_orders<'a>(
        status: &mut BookStatus<P>,
        order_map: &'a OrderMap<P, I>,
        prices: &Vec<P>,
        quantity: Option<u64>,
        sort_by: PriceTimePriority,
    ) -> (listed: Orders<'a, u64, P, u64, I>)
        requires
            old(status).wf(),
            tallied(order_map@, old(status).spec_side(), old(status)@),
        ensures
            final(status).wf(),
            final(status).spec_side() == old(status).spec_side(),
            tallied(order_map@, final(status).spec_side(), final(status)@),
            final(status)@ == toured(prices@, old(status)@, order_map@, quantity, sort_by).queues,
            listed.orders@ == parts_of(
                order_map@,
                toured(prices@, old(status)@, order_map@, quantity, sort_by).servings,
            ),
            listed.deficit == deficit_of(
                toured(prices@, old(status)@, order_map@, quantity, sort_by),
            ),
            side_tidy(order_map@, old(status).spec_side(), old(status)@) ==> side_tidy(
                order_map@,
                old(status).spec_side(),
                final(status)@,
            ),
    {
        let ghost whole = toured(prices@, status@, order_map@, quantity, sort_by);
        proof {
            if side_tidy(order_map@, status.spec_side(), status@) {
                crate::collections::laws::lemma_tour_keeps_tidy(
                    prices@,
                    status@,
                    order_map@,
                    status.spec_side(),
                    quantity,
                    sort_by,
                );
            }
        }
        let ghost mut done: Seq<(u64, u64)> = Seq::empty();
        let mut orders: Vec<(u64, PartialOrder<'a, P, u64, I>)> = Vec::new();
        let mut left: Option<u64> = quantity;
        let mut stopped = false;
        let mut i: usize = 0;
        proof {
            assert(prices@.skip(0) =~= prices@);
            assert(done + whole.servings =~= whole.servings);
            assert(orders@ =~= parts_of(order_map@, done));
        }
        while i < prices.len() && !stopped
            invariant
                i <= prices@.len(),
                status.wf(),
                status.spec_side() == old(status).spec_side(),
                tallied(order_map@, status.spec_side(), status@),
                orders@ == parts_of(order_map@, done),
                stopped ==> whole == (Tour { servings: done, quantity: left, queues: status@ }),
                !stopped ==> {
                    let rest = toured(prices@.skip(i as int), status@, order_map@, left, sort_by);
                    &&& whole.servings == done + rest.servings
                    &&& whole.quantity == rest.quantity
                    &&& whole.queues == rest.queues
                },
            decreases prices@.len() - i,
        {
            let ghost before = status@;
            let ghost here = servings_at(before, order_map@, prices@[i as int], left, sort_by);
            let mut listed = Self::list_orders_at(order_map, status, &prices[i], left, sort_by);
            proof {
                assert(prices@.skip(i as int).first() == prices@[i as int]);
                assert(prices@.skip(i as int).drop_first() =~= prices@.skip(i + 1));
                assert(parts_of(order_map@, done) + parts_of(order_map@, here) =~= parts_of(
                    order_map@,
                    done + here,
                ));
            }
            orders.append(&mut listed.orders);
            left = match left {
                Some(_) => Some(listed.deficit),
                None => None,
            };
            proof {
                let rest = toured(prices@.skip(i + 1), status@, order_map@, left, sort_by);
                assert(done + (here + rest.servings) =~= (done + here) + rest.servings);
                done = done + here;
            }
            stopped = match left {
                Some(q) => q == 0,
                None => false,
            };
            i += 1;
        }
        proof {
            if !stopped {
                assert(prices@.skip(i as int) =~= Seq::<P>::empty());
                assert(done + Seq::<(u64, u64)>::empty() =~= done);
            }
        }
        let deficit: u64 = match left {
            Some(q) => q,
            None => 0,
        };
        Orders { deficit, orders }
    }

    /// The asks at a price that serve a quantity, or all of them where none
    /// is asked for, with what of the quantity they cannot serve.
    ///
    /// `BothDesc` walks the queue from the oldest order, `BothAsc` from the
    /// youngest. Ids that the walk passes over, whose orders have left the
    /// book, are dropped from the queue.
    pub fn ask_orders_at(&mut self, price: P, quantity: Option<u64>, sort_by: PriceTimePriority) -> (listed:
        Orders<'_, u64, P, u64, I>)
        requires
            old(self).wf(),
        ensures
            final(self).wf(),
            final(self).orders() == old(self).orders(),
            final(self).bids() == old(self).bids(),
            final(self).asks() == queues_after(
                old(self).asks(),
                old(self).orders(),
                price,
                quantity,
                sort_by,
            ),
            listed.orders@ == parts_of(
                old(self).orders(),
                servings_at(old(self).asks(), old(self).orders(), price, quantity, sort_by),
            ),
            listed.deficit == deficit_at(
                old(self).asks(),
                old(self).orders(),
                price,
                quantity,
                sort_by,
            ),
    {
        Self::list_orders_at(&self.order_map, &mut self.ask_status, &price, quantity, sort_by)
    }

    /// The bids at a price that serve a quantity, or all of them where none
    /// is asked for, with what of the quantity they cannot serve.
    ///
    /// `BothDesc` walks the queue from the oldest order, `BothAsc` from the
    /// youngest. Ids that the walk passes over, whose orders have left the
    /// book, are dropped from the queue.
    pub fn bid_orders_at(&mut self, price: P, quantity: Option<u64>, sort_by: PriceTimePriority) -> (listed:
        Orders<'_, u64, P, u64, I>)
        requires
            old(self).wf(),
        ensures
            final(self).wf(),
            final(self).orders() == old(self).orders(),
            final(self).asks() == old(self).asks(),
            final(self).bids() == queues_after(
                old(self).bids(),
                old(self).orders(),
                price,
                quantity,
                sort_by,
            ),
            listed.orders@ == parts_of(
                old(self).orders(),
                servings_at(old(self).bids(), old(self).orders(), price, quantity, sort_by),
            ),
            listed.deficit == deficit_at(
                old(self).bids(),
                old(self).orders(),
                price,
                quantity,
                sort_by,
            ),
    {
        Self::list_orders_at(&self.order_map, &mut self.bid_status, &price, quantity, sort_by)
    }

    /// The asks that serve a quantity, price by price, or all asks where
    /// none is asked for, with what of the quantity they cannot serve.
    ///
    /// `BothDesc` takes the lowest price first and each queue from its oldest
    /// order, `BothAsc` the highest price first and each queue from its
    /// youngest.
    pub fn total_ask_orders(&mut self, quantity: Option<u64>, sort_by: PriceTimePriority) -> (listed:
        Orders<'_, u64, P, u64, I>)
        requires
            old(self).wf(),
        ensures
            final(self).wf(),
            final(self).orders() == old(self).orders(),
            final(self).bids() == old(self).bids(),
            final(self).asks() == toured(
                walk_order(price_list(Side::Ask, old(self).asks()), sort_by),
                old(self).asks(),
                old(self).orders(),
                quantity,
                sort_by,
            ).queues,
            listed.orders@ == parts_of(
                old(self).orders(),
                toured(
                    walk_order(price_list(Side::Ask, old(self).asks()), sort_by),
                    old(self).asks(),
                    old(self).orders(),
                    quantity,
                    sort_by,
                ).servings,
            ),
            listed.deficit == deficit_of(
                toured(
                    walk_order(price_list(Side::Ask, old(self).asks()), sort_by),
                    old(self).asks(),
                    old(self).orders(),
                    quantity,
                    sort_by,
                ),
            ),
    {
        let sorted = self.ask_status.sorted_prices();
        let prices = match sort_by {
            PriceTimePriority::BothDesc => sorted,
            PriceTimePriority::BothAsc => reversed(&sorted),
        };
        Self::list_orders(&mut self.ask_status, &self.order_map, &prices, quantity, sort_by)
    }

    /// The bids that serve a quantity, price by price, or all bids where
    /// none is asked for, with what of the quantity they cannot serve.
    ///
    /// `BothDesc` takes the highest price first and each queue from its
    /// oldest order, `BothAsc` the lowest price first and each queue from its
    /// youngest.
    pub fn total_bid_orders(&mut self, quantity: Option<u64>, sort_by: PriceTimePriority) -> (listed:
        Orders<'_, u64, P, u64, I>)
        requires
            old(self).wf(),
        ensures
            final(self).wf(),
            final(self).orders() == old(self).orders(),
            final(self).asks() == old(self).asks(),
            final(self).bids() == toured(
                walk_order(price_list(Side::Bid, old(self).bids()), sort_by),
                old(self).bids(),
                old(self).orders(),
                quantity,
                sort_by,
            ).queues,
            listed.orders@ == parts_of(
                old(self).orders(),
                toured(
                    walk_order(price_list(Side::Bid, old(self).bids()), sort_by),
                    old(self).bids(),
                    old(self).orders(),
                    quantity,
                    sort_by,
                ).servings,
            ),
            listed.deficit == deficit_of(
                toured(
                    walk_order(price_list(Side::Bid, old(self).bids()), sort_by),
                    old(self).bids(),
                    old(self).orders(),
                    quantity,
                    sort_by,
                ),
            ),
    {
        let sorted = self.bid_status.sorted_prices();
        let prices = match sort_by {
            PriceTimePriority::BothDesc => sorted,
            PriceTimePriority::BothAsc => reversed(&sorted),
        };
        Self::list_orders(&mut self.bid_status, &self.order_map, &prices, quantity, sort_by)
    }

    /// Whether the queue counts the ids it holds of orders that are in the
    /// book, and its volume is the sum of what is left of those orders.
    fn queue_check(queue: &OrderQueue, order_map: &OrderMap<P, I>) -> (ok: bool)
        ensures
            ok == queue_counted(queue@, order_map@),
    {
        let ids = queue.order_ids();
        let mut live: usize = 0;
        let mut sum: u128 = 0;
        let mut i: usize = 0;
        while i < ids.len()
            invariant
                ids@ == queue@.ids,
                i <= ids@.len(),
                live == live_ids(ids@.take(i as int), order_map@).len(),
                live <= i,
                sum == quantity_sum(live_ids(ids@.take(i as int), order_map@), order_map@),
                sum <= i * 0xffff_ffff_ffff_ffff,
            decreases ids@.len() - i,
        {
            let id: u64 = ids[i];
            proof {
                assert(ids@.take(i + 1).drop_last() =~= ids@.take(i as int));
                assert(ids@.take(i + 1).last() == id);
                let before = live_ids(ids@.take(i as int), order_map@);
                if order_map@.contains_key(id) {
                    assert(before.push(id).drop_last() =~= before);
                }
            }
            match order_map.get(&id) {
                Some(order) => {
                    live += 1;
                    sum += order.quantity as u128;
                },
                None => {},
            }
            i += 1;
        }
        proof {
            assert(ids@.take(ids@.len() as int) =~= ids@);
        }
        queue.count() == live && *queue.volume() as u128 == sum
    }

    /// Whether every queue of a side is intact.
    fn book_status_check(status: &BookStatus<P>, order_map: &OrderMap<P, I>) -> (ok: bool)
        requires
            status.wf(),
        ensures
            ok == side_counted(status@, order_map@),
    {
        let prices = status.sorted_prices();
        let mut i: usize = 0;
        while i < prices.len()
            invariant
                i <= prices@.len(),
                crate::collections::side_book::lists_prices(status.spec_side(), prices@, status@),
                forall|j: int| 0 <= j < i ==> queue_counted(status@[#[trigger] prices@[j]], order_map@),
            decreases prices@.len() - i,
        {
            proof {
                assert(prices@.contains(prices@[i as int]));
            }
            let queue = status.get(&prices[i]).unwrap();
            if !Self::queue_check(queue, order_map) {
                return false;
            }
            i += 1;
        }
        proof {
            assert forall|price: P| status@.contains_key(price) implies #[trigger] queue_counted(
                status@[price],
                order_map@,
            ) by {
                assert(prices@.contains(price));
                let j = choose|j: int| 0 <= j < prices@.len() && prices@[j] == price;
                assert(queue_counted(status@[prices@[j]], order_map@));
            }
        }
        true
    }

    /// Whether every queue of the book is intact: it counts the ids it holds
    /// of orders that are in the book, and its volume is the sum of what is
    /// left of those orders.
    pub open spec fn intact(&self) -> bool {
        &&& side_intact(self.asks(), self.orders())
        &&& side_intact(self.bids(), self.orders())
    }

    /// Checks every queue against the orders: whether the book is intact.
    /// A sound book is.
    pub fn integrity_check(&self) -> (ok: bool)
        requires
            self.wf(),
        ensures
            ok == self.intact(),
            self.intact(),
    {
        proof {
            self.order_map.lemma_finite();
            assert forall|price: P| #[trigger] self.asks().contains_key(price) implies queue_intact(
                self.asks()[price],
                self.orders(),
            ) && queue_counted(self.asks()[price], self.orders()) by {
                crate::collections::tidy::lemma_tidy_queue_is_intact(
                    self.orders(),
                    Side::Ask,
                    self.asks(),
                    price,
                );
            }
            assert forall|price: P| #[trigger] self.bids().contains_key(price) implies queue_intact(
                self.bids()[price],
                self.orders(),
            ) && queue_counted(self.bids()[price], self.orders()) by {
                crate::collections::tidy::lemma_tidy_queue_is_intact(
                    self.orders(),
                    Side::Bid,
                    self.bids(),
                    price,
                );
            }
        }
        Self::book_status_check(&self.ask_status, &self.order_map) && Self::book_status_check(
            &self.bid_status,
            &self.order_map,
        )
    }

    /// In a sound book the prices of each side can be listed best first.
    pub proof fn lemma_prices_listed(&self, side: Side)
        requires
            self.wf(),
        ensures
            crate::collections::side_book::lists_prices(
                side,
                price_list(side, self.queues(side)),
                self.queues(side),
            ),
    {
        match side {
            Side::Ask => self.ask_status.lemma_price_list(),
            Side::Bid => self.bid_status.lemma_price_list(),
        }
    }

    /// In a sound book the volume at a price is the sum of what is left of
    /// the orders that rest there, and the count is their number.
    pub proof fn lemma_volume_is_resting(&self, side: Side, price: P)
        requires
            self.wf(),
        ensures
            queue_at(self.queues(side), price).volume == resting_volume(self.orders(), side, price),
            queue_at(self.queues(side), price).count == resting_count(self.orders(), side, price),
            self.queues(side).contains_key(price) <==> resting_count(self.orders(), side, price) > 0,
    {
        assert(level_tallied(self.orders(), side, self.queues(side), price));
        lemma_resting_ids_finite(self.orders(), side, price);
        if !self.queues(side).contains_key(price) {
            assert(resting_ids(self.orders(), side, price).len() == 0);
        }
    }

    /// In a sound book every queue counts an order, the prices of each side
    /// can be listed, and the side that has no counted order has no queue.
    pub proof fn lemma_counted(&self, side: Side)
        requires
            self.wf(),
        ensures
            forall|p: P| self.queues(side).contains_key(p) ==> self.queues(side)[p].count > 0,
            crate::collections::side_book::lists_prices(
                side,
                price_list(side, self.queues(side)),
                self.queues(side),
            ),
            (forall|p: P| self.queues(side).contains_key(p) ==> self.queues(side)[p].count == 0)
                ==> self.queues(side) == Map::<P, QueueView>::empty(),
            forall|p: P|
                self.queues(side).contains_key(p) && (forall|q: P|
                    self.queues(side).contains_key(q) && self.queues(side)[q].count > 0
                        ==> crate::collections::side_book::side_key(side, p)
                        <= crate::collections::side_book::side_key(side, q)) ==> best_price(
                    side,
                    self.queues(side),
                ) == p,
            forall|p: P|
                self.queues(side).contains_key(p) && (forall|q: P|
                    self.queues(side).contains_key(q) && self.queues(side)[q].count > 0
                        ==> crate::collections::side_book::side_key(side, q)
                        <= crate::collections::side_book::side_key(side, p)) ==> worst_price(
                    side,
                    self.queues(side),
                ) == p,
    {
        let queues = self.queues(side);
        assert forall|p: P| queues.contains_key(p) implies queues[p].count > 0 by {
            assert(level_tallied(self.orders(), side, queues, p));
        }
        match side {
            Side::Ask => self.ask_status.lemma_price_list(),
            Side::Bid => self.bid_status.lemma_price_list(),
        }
        if forall|p: P| queues.contains_key(p) ==> queues[p].count == 0 {
            assert(queues =~= Map::<P, QueueView>::empty());
        }
        assert forall|p: P|
            queues.contains_key(p) && (forall|q: P|
                queues.contains_key(q) && queues[q].count > 0
                    ==> crate::collections::side_book::side_key(side, p)
                    <= crate::collections::side_book::side_key(side, q)) implies best_price(
            side,
            queues,
        ) == p by {
            lemma_best_price(side, queues, p);
        }
        assert forall|p: P|
            queues.contains_key(p) && (forall|q: P|
                queues.contains_key(q) && queues[q].count > 0
                    ==> crate::collections::side_book::side_key(side, q)
                    <= crate::collections::side_book::side_key(side, p)) implies worst_price(
            side,
            queues,
        ) == p by {
            lemma_worst_price(side, queues, p);
        }
    }

    /// The queue of asks at a price.
    pub fn get_ask_order_queue(&mut self, price: P) -> (queue: Option<&OrderQueue>)
        ensures
            *final(self) == *old(self),
            match queue {
                Some(q) => old(self).asks().contains_key(price) && q@ == old(self).asks()[price],
                None => !old(self).asks().contains_key(price),
            },
    {
        self.ask_status.get(&price)
    }

    /// The queue of bids at a price.
    pub fn get_bid_order_queue(&mut self, price: P) -> (queue: Option<&OrderQueue>)
        ensures
            *final(self) == *old(self),
            match queue {
                Some(q) => old(self).bids().contains_key(price) && q@ == old(self).bids()[price],
                None => !old(self).bids().contains_key(price),
            },
    {
        self.bid_status.get(&price)
    }

    /// The volume of the asks at a price.
    pub fn ask_volume_at(&mut self, price: P) -> (volume: u64)
        ensures
            *final(self) == *old(self),
            volume == queue_at(old(self).asks(), price).volume,
    {
        self.ask_status.volume_at(price)
    }

    /// The volume of the bids at a price.
    pub fn bid_volume_at(&mut self, price: P) -> (volume: u64)
        ensures
            *final(self) == *old(self),
            volume == queue_at(old(self).bids(), price).volume,
    {
        self.bid_status.volume_at(price)
    }

    /// The volume of all asks.
    pub fn total_ask_volume(&mut self) -> (volume: u64)
        requires
            old(self).wf(),
            volume_of(price_list(Side::Ask, old(self).asks()), old(self).asks()) <= u64::MAX,
        ensures
            *final(self) == *old(self),
            volume == volume_of(price_list(Side::Ask, old(self).asks()), old(self).asks()),
    {
        self.ask_status.total_volume()
    }

    /// The volume of all bids.
    pub fn total_bid_volume(&mut self) -> (volume: u64)
        requires
            old(self).wf(),
            volume_of(price_list(Side::Bid, old(self).bids()), old(self).bids()) <= u64::MAX,
        ensures
            *final(self) == *old(self),
            volume == volume_of(price_list(Side::Bid, old(self).bids()), old(self).bids()),
    {
        self.bid_status.total_volume()
    }

    /// The best prices at which asks rest, lowest first, `limit` of them at most.
    pub fn best_ask_prices(&self, limit: usize) -> (prices: Vec<P>)
        requires
            self.wf(),
        ensures
            prices@ == crate::collections::side_book::first_of(
                price_list(Side::Ask, self.asks()),
                limit as nat,
            ),
    {
        self.ask_status.best_prices(limit)
    }

    /// The best prices at which bids rest, highest first, `limit` of them at most.
    pub fn best_bid_prices(&self, limit: usize) -> (prices: Vec<P>)
        requires
            self.wf(),
        ensures
            prices@ == crate::collections::side_book::first_of(
                price_list(Side::Bid, self.bids()),
                limit as nat,
            ),
    {
        self.bid_status.best_prices(limit)
    }

    /// The prices at which asks rest, lowest first.
    pub fn sorted_ask_prices(&self) -> (prices: Vec<P>)
        requires
            self.wf(),
        ensures
            prices@ == price_list(Side::Ask, self.asks()),
    {
        self.ask_status.sorted_prices()
    }

    /// The prices at which bids rest, highest first.
    pub fn sorted_bid_prices(&self) -> (prices: Vec<P>)
        requires
            self.wf(),
        ensures
            prices@ == price_list(Side::Bid, self.bids()),
    {
        self.bid_status.sorted_prices()
    }
}

impl<P: Price, I> Default for OrderBook<P, I> {
    fn default() -> (book: Self)
        ensures
            book.wf(),
            book.orders() == Map::<u64, Order<P, u64, I>>::empty(),
            book.asks() == Map::<P, QueueView>::empty(),
            book.bids() == Map::<P, QueueView>::empty(),
    {
        Self::new()
    }
}

impl<I> OrderBook<OrderPrice<u64>, I> {
    /// The volume of the asks that take any price.
    pub fn ask_market_volume(&mut self) -> (volume: u64)
        ensures
            *final(self) == *old(self),
            volume == queue_at(old(self).asks(), OrderPrice::<u64>::Market).volume,
    {
        self.ask_status.market_volume()
    }

    /// The volume of the bids that take any price.
    pub fn bid_market_volume(&mut self) -> (volume: u64)
        ensures
            *final(self) == *old(self),
            volume == queue_at(old(self).bids(), OrderPrice::<u64>::Market).volume,
    {
        self.bid_status.market_volume()
    }

    /// The volume of the asks that have a limit.
    pub fn ask_limit_volume(&mut self) -> (volume: u64)
        requires
            old(self).wf(),
            volume_of(limits_of(price_list(Side::Ask, old(self).asks())), old(self).asks())
                <= u64::MAX,
        ensures
            *final(self) == *old(self),
            volume == volume_of(limits_of(price_list(Side::Ask, old(self).asks())), old(self).asks()),
    {
        self.ask_status.limit_volume()
    }

    /// The volume of the bids that have a limit.
    pub fn bid_limit_volume(&mut self) -> (volume: u64)
        requires
            old(self).wf(),
            volume_of(limits_of(price_list(Side::Bid, old(self).bids())), old(self).bids())
                <= u64::MAX,
        ensures
            *final(self) == *old(self),
            volume == volume_of(limits_of(price_list(Side::Bid, old(self).bids())), old(self).bids()),
    {
        self.bid_status.limit_volume()
    }

    /// The limit prices among the prices, in their order.
    fn limits(prices: &Vec<OrderPrice<u64>>) -> (limits: Vec<OrderPrice<u64>>)
        ensures
            limits@ == limits_of(prices@),
    {
        let mut limits: Vec<OrderPrice<u64>> = Vec::new();
        let mut i: usize = 0;
        assert(prices@.take(0) =~= Seq::<OrderPrice<u64>>::empty());
        while i < prices.len()
            invariant
                i <= prices@.len(),
                limits@ == limits_of(prices@.take(i as int)),
            decreases prices@.len() - i,
        {
            proof {
                assert(prices@.take(i + 1).drop_last() =~= prices@.take(i as int));
                assert(prices@.take(i + 1).last() == prices@[i as int]);
            }
            if !prices[i].is_market() {
                limits.push(prices[i]);
            }
            i += 1;
        }
        assert(prices@.take(prices@.len() as int) =~= prices@);
        limits
    }

    /// The asks with a limit that serve a quantity, price by price, or all
    /// of them where none is asked for.
    pub fn ask_limit_orders(&mut self, quantity: Option<u64>, sort_by: PriceTimePriority) -> (listed:
        Orders<'_, u64, OrderPrice<u64>, u64, I>)
        requires
            old(self).wf(),
        ensures
            final(self).wf(),
            final(self).orders() == old(self).orders(),
            final(self).bids() == old(self).bids(),
            final(self).asks() == toured(
                walk_order(limits_of(price_list(Side::Ask, old(self).asks())), sort_by),
                old(self).asks(),
                old(self).orders(),
                quantity,
                sort_by,
            ).queues,
            listed.orders@ == parts_of(
                old(self).orders(),
                toured(
                    walk_order(limits_of(price_list(Side::Ask, old(self).asks())), sort_by),
                    old(self).asks(),
                    old(self).orders(),
                    quantity,
                    sort_by,
                ).servings,
            ),
            listed.deficit == deficit_of(
                toured(
                    walk_order(limits_of(price_list(Side::Ask, old(self).asks())), sort_by),
                    old(self).asks(),
                    old(self).orders(),
                    quantity,
                    sort_by,
                ),
            ),
    {
        let sorted = Self::limits(&self.ask_status.sorted_prices());
        let prices = match sort_by {
            PriceTimePriority::BothDesc => sorted,
            PriceTimePriority::BothAsc => reversed(&sorted),
        };
        Self::list_orders(&mut self.ask_status, &self.order_map, &prices, quantity, sort_by)
    }

    /// The bids with a limit that serve a quantity, price by price, or all
    /// of them where none is asked for.
    pub fn bid_limit_orders(&mut self, quantity: Option<u64>, sort_by: PriceTimePriority) -> (listed:
        Orders<'_, u64, OrderPrice<u64>, u64, I>)
        requires
            old(self).wf(),
        ensures
            final(self).wf(),
            final(self).orders() == old(self).orders(),
            final(self).asks() == old(self).asks(),
            final(self).bids() == toured(
                walk_order(limits_of(price_list(Side::Bid, old(self).bids())), sort_by),
                old(self).bids(),
                old(self).orders(),
                quantity,
                sort_by,
            ).queues,
            listed.orders@ == parts_of(
                old(self).orders(),
                toured(
                    walk_order(limits_of(price_list(Side::Bid, old(self).bids())), sort_by),
                    old(self).bids(),
                    old(self).orders(),
                    quantity,
                    sort_by,
                ).servings,
            ),
            listed.deficit == deficit_of(
                toured(
                    walk_order(limits_of(price_list(Side::Bid, old(self).bids())), sort_by),
                    old(self).bids(),
                    old(self).orders(),
                    quantity,
                    sort_by,
                ),
            ),
    {
        let sorted = Self::limits(&self.bid_status.sorted_prices());
        let prices = match sort_by {
            PriceTimePriority::BothDesc => sorted,
            PriceTimePriority::BothAsc => reversed(&sorted),
        };
        Self::list_orders(&mut self.bid_status, &self.order_map, &prices, quantity, sort_by)
    }

    /// The asks that take any price and serve a quantity, or all of them
    /// where none is asked for.
    pub fn ask_market_orders(&mut self, quantity: Option<u64>, sort_by: PriceTimePriority) -> (listed:
        Orders<'_, u64, OrderPrice<u64>, u64, I>)
        requires
            old(self).wf(),
        ensures
            final(self).wf(),
            final(self).orders() == old(self).orders(),
            final(self).bids() == old(self).bids(),
            final(self).asks() == queues_after(
                old(self).asks(),
                old(self).orders(),
                OrderPrice::<u64>::Market,
                quantity,
                sort_by,
            ),
            listed.orders@ == parts_of(
                old(self).orders(),
                servings_at(
                    old(self).asks(),
                    old(self).orders(),
                    OrderPrice::<u64>::Market,
                    quantity,
                    sort_by,
                ),
            ),
            listed.deficit == deficit_at(
                old(self).asks(),
                old(self).orders(),
                OrderPrice::<u64>::Market,
                quantity,
                sort_by,
            ),
    {
        self.ask_orders_at(OrderPrice::market(), quantity, sort_by)
    }

    /// The bids that take any price and serve a quantity, or all of them
    /// where none is asked for.
    pub fn bid_market_orders(&mut self, quantity: Option<u64>, sort_by: PriceTimePriority) -> (listed:
        Orders<'_, u64, OrderPrice<u64>, u64, I>)
        requires
            old(self).wf(),
        ensures
            final(self).wf(),
            final(self).orders() == old(self).orders(),
            final(self).asks() == old(self).asks(),
            final(self).bids() == queues_after(
                old(self).bids(),
                old(self).orders(),
                OrderPrice::<u64>::Market,
                quantity,
                sort_by,
            ),
            listed.orders@ == parts_of(
                old(self).orders(),
                servings_at(
                    old(self).bids(),
                    old(self).orders(),
                    OrderPrice::<u64>::Market,
                    quantity,
                    sort_by,
                ),
            ),
            listed.deficit == deficit_at(
                old(self).bids(),
                old(self).orders(),
                OrderPrice::<u64>::Market,
                quantity,
                sort_by,
            ),
    {
        self.bid_orders_at(OrderPrice::market(), quantity, sort_by)
    }
}

/// The queues still agree with the orders when an order changes in nothing
/// but its info.
proof fn lemma_relabel_keeps_tally<P, I>(
    orders: Map<u64, Order<P, u64, I>>,
    id: u64,
    order: Order<P, u64, I>,
    side: Side,
    queues: Map<P, QueueView>,
)
    requires
        orders.dom().finite(),
        orders.contains_key(id),
        order.side == orders[id].side,
        order.price == orders[id].price,
        order.quantity == orders[id].quantity,
        tallied(orders, side, queues),
    ensures
        tallied(orders.insert(id, order), side, queues),
{
    let orders2 = orders.insert(id, order);
    lemma_requantify_order(orders, id, order);
    assert forall|price: P| #[trigger] level_tallied(orders2, side, queues, price) by {
        assert(level_tallied(orders, side, queues, price));
        assert(resting_ids(orders2, side, price) == resting_ids(orders, side, price));
        if !(side == order.side && price == order.price) {
            assert(resting_volume(orders2, side, price) == resting_volume(orders, side, price));
        }
    }
}

/// Whether `after` is `before` with one order more, its id put in at some
/// place: where the ids ascended before, they ascend afterwards.
pub open spec fn joined_in_order(before: QueueView, id: u64, quantity: u64, after: QueueView) -> bool {
    &&& after.count == before.count + 1
    &&& after.volume == before.volume + quantity
    &&& inserted_somewhere(before.ids, id, after.ids)
    &&& ascending(before.ids) ==> ascending(after.ids)
}

} // verus!
