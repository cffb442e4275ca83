//! What a walk along a queue serves of a wanted quantity.
use vstd::prelude::*;
use crate::collections::book::{
    deficit_at, from_tail, live_ids, quantity_sum, servings_at, wanted, OrderBook,
};
use crate::collections::order::{Order, Price, PriceTimePriority};
use crate::collections::queue::oriented;
use crate::collections::tidy::{
    lemma_live_ids_from_head, lemma_live_ids_reversed, lemma_tidy_queue_is_intact,
};
use crate::collections::walk::{served, unserved};
use crate::collections::Side;

verus! {

/// The sum of what the orders that serve have served.
pub open spec fn served_sum(servings: Seq<(u64, u64)>) -> nat
    decreases servings.len(),
{
    if servings.len() == 0 {
        0
    } else {
        servings.first().1 as nat + served_sum(servings.drop_first())
    }
}

/// The ids of the orders that serve.
pub open spec fn served_ids(servings: Seq<(u64, u64)>) -> Seq<u64> {
    servings.map_values(|s: (u64, u64)| s.0)
}

/// The smaller of two quantities.
pub open spec fn least(a: nat, b: nat) -> nat {
    if a <= b {
        a
    } else {
        b
    }
}

/// The sum of quantities, taken from the head.
proof fn lemma_quantity_sum_from_head<P, I>(ids: Seq<u64>, orders: Map<u64, Order<P, u64, I>>)
    requires
        ids.len() > 0,
    ensures
        quantity_sum(ids, orders) == orders[ids.first()].quantity + quantity_sum(
            ids.drop_first(),
            orders,
        ),
    decreases ids.len(),
{
    if ids.len() == 1 {
        assert(ids.drop_last() =~= Seq::<u64>::empty());
        assert(ids.drop_first() =~= Seq::<u64>::empty());
    } else {
        lemma_quantity_sum_from_head(ids.drop_last(), orders);
        assert(ids.drop_last().drop_first() =~= ids.drop_first().drop_last());
        assert(ids.drop_first().last() == ids.last());
        assert(ids.drop_last().first() == ids.first());
    }
}

/// The sum of quantities is the same taken from the tail.
proof fn lemma_quantity_sum_reversed<P, I>(ids: Seq<u64>, orders: Map<u64, Order<P, u64, I>>)
    ensures
        quantity_sum(ids.reverse(), orders) == quantity_sum(ids, orders),
    decreases ids.len(),
{
    if ids.len() == 0 {
        assert(ids.reverse() =~= ids);
    } else {
        let turned = ids.reverse();
        lemma_quantity_sum_from_head(turned, orders);
        assert(turned.first() == ids.last());
        assert(turned.drop_first() =~= ids.drop_last().reverse());
        lemma_quantity_sum_reversed(ids.drop_last(), orders);
    }
}

/// A walk serves of what is wanted as much as the orders on its way have
/// left, and no more than is wanted; what it serves and what it cannot
/// serve make up what is wanted.
pub proof fn lemma_walk_serves<P, I>(walk: Seq<u64>, orders: Map<u64, Order<P, u64, I>>, want: u64)
    ensures
        served_sum(served(walk, orders, want)) == least(
            want as nat,
            quantity_sum(live_ids(walk, orders), orders),
        ),
        unserved(walk, orders, want) == want - least(
            want as nat,
            quantity_sum(live_ids(walk, orders), orders),
        ),
        forall|i: int|
            0 <= i < served(walk, orders, want).len() ==> live_ids(walk, orders).contains(
                #[trigger] served(walk, orders, want)[i].0,
            ),
        served_ids(served(walk, orders, want)) == live_ids(walk, orders).take(
            served(walk, orders, want).len() as int,
        ),
        served(walk, orders, want).len() <= live_ids(walk, orders).len(),
    decreases walk.len(),
{
    let live = live_ids(walk, orders);
    let list = served(walk, orders, want);
    if walk.len() == 0 {
        assert(served_ids(list) =~= live.take(0));
    } else if want == 0 {
        assert(served_ids(list) =~= live.take(0));
    } else {
        let rest = walk.drop_first();
        lemma_live_ids_from_head(walk, orders);
        if !orders.contains_key(walk.first()) {
            lemma_walk_serves(rest, orders, want);
        } else {
            let left = orders[walk.first()].quantity;
            let part = crate::collections::walk::share(left, want);
            let more = (want - part) as u64;
            lemma_walk_serves(rest, orders, more);
            let behind = live_ids(rest, orders);
            assert(live == seq![walk.first()] + behind);
            lemma_quantity_sum_from_head(live, orders);
            assert(live.drop_first() =~= behind);
            let later = served(rest, orders, more);
            assert(list == seq![(walk.first(), part)] + later);
            assert(list.drop_first() =~= later);
            assert(list.first() == (walk.first(), part));
            assert forall|i: int| 0 <= i < list.len() implies live.contains(#[trigger] list[i].0) by {
                if i == 0 {
                    assert(live[0] == walk.first());
                } else {
                    assert(list[i] == later[i - 1]);
                    assert(behind.contains(later[i - 1].0));
                    let k = choose|k: int| 0 <= k < behind.len() && behind[k] == later[i - 1].0;
                    assert(live[k + 1] == behind[k]);
                }
            }
            assert(served_ids(list) =~= live.take(list.len() as int)) by {
                assert forall|i: int| 0 <= i < list.len() implies served_ids(list)[i] == live.take(
                    list.len() as int,
                )[i] by {
                    if i > 0 {
                        assert(list[i] == later[i - 1]);
                        assert(served_ids(later)[i - 1] == behind.take(later.len() as int)[i - 1]);
                        assert(live[i] == behind[i - 1]);
                    }
                }
            }
        }
    }
}

/// What a listing of the orders at a price serves, in a sound book.
///
/// Let `L` be what is wanted, or the whole volume at the price where no
/// quantity is asked for, and `V` the volume there. The orders that are
/// listed are the first of the orders that rest at the price, in the order
/// of the walk, each once; they serve the smaller of `L` and `V` between
/// them, and the deficit is what of `L` is left.
pub proof fn law_listing_serves_each_order_once<P: Price, I>(
    book: OrderBook<P, I>,
    side: Side,
    price: P,
    quantity: Option<u64>,
    sort_by: PriceTimePriority,
)
    requires
        book.wf(),
        book.queues(side).contains_key(price),
    ensures
        ({
            let queues = book.queues(side);
            let servings = servings_at(queues, book.orders(), price, quantity, sort_by);
            let wanted = wanted(queues, price, quantity) as nat;
            &&& served_sum(servings) == least(wanted, queues[price].volume)
            &&& deficit_at(queues, book.orders(), price, quantity, sort_by) == wanted - least(
                wanted,
                queues[price].volume,
            )
            &&& served_ids(servings).no_duplicates()
            &&& forall|i: int|
                0 <= i < servings.len() ==> {
                    &&& book.orders().contains_key((#[trigger] servings[i]).0)
                    &&& book.orders()[servings[i].0].side == side
                    &&& book.orders()[servings[i].0].price == price
                }
        }),
{
    let queues = book.queues(side);
    let orders = book.orders();
    let ids = queues[price].ids;
    let walk = oriented(ids, from_tail(sort_by));
    let want = wanted(queues, price, quantity);
    match side {
        Side::Ask => {},
        Side::Bid => {},
    }
    lemma_tidy_queue_is_intact(orders, side, queues, price);
    lemma_walk_serves(walk, orders, want);
    if from_tail(sort_by) {
        lemma_live_ids_reversed(ids, orders);
        lemma_quantity_sum_reversed(live_ids(ids, orders), orders);
    }
    let live = live_ids(walk, orders);
    let servings = served(walk, orders, want);
    assert(live.no_duplicates()) by {
        let straight = live_ids(ids, orders);
        if from_tail(sort_by) {
            assert forall|i: int, j: int| 0 <= i < live.len() && 0 <= j < live.len() && i
                != j implies live[i] != live[j] by {
                assert(live[i] == straight[straight.len() - 1 - i]);
                assert(live[j] == straight[straight.len() - 1 - j]);
            }
        }
    }
    assert(served_ids(servings).no_duplicates()) by {
        assert forall|i: int, j: int|
            0 <= i < servings.len() && 0 <= j < servings.len() && i != j implies served_ids(
            servings,
        )[i] != served_ids(servings)[j] by {
            assert(served_ids(servings)[i] == live[i]);
            assert(served_ids(servings)[j] == live[j]);
        }
    }
    assert forall|i: int| 0 <= i < servings.len() implies {
        &&& orders.contains_key((#[trigger] servings[i]).0)
        &&& orders[servings[i].0].side == side
        &&& orders[servings[i].0].price == price
    } by {
        let id = servings[i].0;
        assert(live.contains(id));
        if from_tail(sort_by) {
            let k = choose|k: int| 0 <= k < live.len() && live[k] == id;
            assert(live_ids(ids, orders)[live.len() - 1 - k] == id);
        }
        assert(live_ids(ids, orders).contains(id));
        crate::collections::book::lemma_live_ids_are_the_live(ids, orders);
    }
}

} // verus!
