//! Queues in which every id of an order of the book is at home.
use vstd::prelude::*;
use crate::collections::book::{
    level_tallied, live_ids, quantity_sum, queue_counted, queue_intact, skip_stale, tallied,
    trim_stale,
};
use crate::collections::order::Order;
use crate::collections::queue::QueueView;
use crate::collections::tally::{
    lemma_resting_ids_finite, lemma_total_quantity_remove, resting_ids, total_quantity,
};
use crate::collections::walk::swept;
use crate::collections::Side;

verus! {

/// Whether the ids of a queue that belong to orders of the book belong to
/// orders that rest at the queue's own price, and none of them comes twice.
///
/// An id stays behind in its queue when its order leaves. It is dropped
/// when an order comes into the book under the same id again, so that
/// every queue of a sound book is tidy.
pub open spec fn queue_tidy<P, I>(
    orders: Map<u64, Order<P, u64, I>>,
    side: Side,
    price: P,
    ids: Seq<u64>,
) -> bool {
    &&& live_ids(ids, orders).no_duplicates()
    &&& forall|id: u64| #[trigger]
        live_ids(ids, orders).contains(id) ==> orders[id].side == side && orders[id].price == price
}

/// Whether every queue of a side is tidy.
pub open spec fn side_tidy<P, I>(
    orders: Map<u64, Order<P, u64, I>>,
    side: Side,
    queues: Map<P, QueueView>,
) -> bool {
    forall|price: P| #[trigger]
        queues.contains_key(price) ==> queue_tidy(orders, side, price, queues[price].ids)
}

/// The ids of orders of the book among ids, taken from the head.
pub proof fn lemma_live_ids_from_head<P, I>(ids: Seq<u64>, orders: Map<u64, Order<P, u64, I>>)
    requires
        ids.len() > 0,
    ensures
        live_ids(ids, orders) == if orders.contains_key(ids.first()) {
            seq![ids.first()] + live_ids(ids.drop_first(), orders)
        } else {
            live_ids(ids.drop_first(), orders)
        },
    decreases ids.len(),
{
    if ids.len() == 1 {
        assert(ids.drop_last() =~= Seq::<u64>::empty());
        assert(ids.drop_first() =~= Seq::<u64>::empty());
        assert(live_ids(ids, orders) =~= if orders.contains_key(ids.first()) {
            seq![ids.first()] + live_ids(ids.drop_first(), orders)
        } else {
            live_ids(ids.drop_first(), orders)
        });
    } else {
        lemma_live_ids_from_head(ids.drop_last(), orders);
        assert(ids.drop_last().drop_first() =~= ids.drop_first().drop_last());
        assert(ids.drop_first().last() == ids.last());
        assert(ids.drop_last().first() == ids.first());
        let front = live_ids(ids.drop_first().drop_last(), orders);
        if orders.contains_key(ids.first()) && orders.contains_key(ids.last()) {
            assert((seq![ids.first()] + front).push(ids.last()) =~= seq![ids.first()] + front.push(
                ids.last(),
            ));
        }
    }
}

/// Dropping from the head the ids that belong to no order of the book
/// drops no id that belongs to one.
pub proof fn lemma_skip_stale_keeps_live<P, I>(ids: Seq<u64>, orders: Map<u64, Order<P, u64, I>>)
    ensures
        live_ids(skip_stale(ids, orders), orders) == live_ids(ids, orders),
    decreases ids.len(),
{
    if !(ids.len() == 0 || orders.contains_key(ids.first())) {
        lemma_skip_stale_keeps_live(ids.drop_first(), orders);
        lemma_live_ids_from_head(ids, orders);
    }
}

/// Dropping from the tail the ids that belong to no order of the book
/// drops no id that belongs to one.
pub proof fn lemma_trim_stale_keeps_live<P, I>(ids: Seq<u64>, orders: Map<u64, Order<P, u64, I>>)
    ensures
        live_ids(trim_stale(ids, orders), orders) == live_ids(ids, orders),
    decreases ids.len(),
{
    if !(ids.len() == 0 || orders.contains_key(ids.last())) {
        lemma_trim_stale_keeps_live(ids.drop_last(), orders);
    }
}

/// A walk drops no id that belongs to an order of the book.
pub proof fn lemma_swept_keeps_live_ids<P, I>(
    walk: Seq<u64>,
    orders: Map<u64, Order<P, u64, I>>,
    want: u64,
)
    ensures
        live_ids(swept(walk, orders, want), orders) == live_ids(walk, orders),
    decreases walk.len(),
{
    if !(want == 0 || walk.len() == 0) {
        lemma_live_ids_from_head(walk, orders);
        if !orders.contains_key(walk.first()) {
            lemma_swept_keeps_live_ids(walk.drop_first(), orders, want);
        } else {
            let part = crate::collections::walk::share(orders[walk.first()].quantity, want);
            let rest = swept(walk.drop_first(), orders, (want - part) as u64);
            lemma_swept_keeps_live_ids(walk.drop_first(), orders, (want - part) as u64);
            let after = seq![walk.first()] + rest;
            lemma_live_ids_from_head(after, orders);
            assert(after.drop_first() =~= rest);
        }
    }
}

/// Cleaning a queue twice is cleaning it once.
pub proof fn lemma_live_ids_of_live_ids<P, I>(ids: Seq<u64>, orders: Map<u64, Order<P, u64, I>>)
    ensures
        live_ids(live_ids(ids, orders), orders) == live_ids(ids, orders),
    decreases ids.len(),
{
    if ids.len() > 0 {
        lemma_live_ids_of_live_ids(ids.drop_last(), orders);
        if orders.contains_key(ids.last()) {
            let front = live_ids(ids.drop_last(), orders);
            assert(front.push(ids.last()).drop_last() =~= front);
        }
    }
}

/// The ids of orders of the book among ids walked from the tail are those
/// among the ids, walked from the tail.
pub proof fn lemma_live_ids_reversed<P, I>(ids: Seq<u64>, orders: Map<u64, Order<P, u64, I>>)
    ensures
        live_ids(ids.reverse(), orders) == live_ids(ids, orders).reverse(),
    decreases ids.len(),
{
    if ids.len() == 0 {
        assert(ids.reverse() =~= ids);
        assert(live_ids(ids, orders).reverse() =~= live_ids(ids, orders));
    } else {
        let turned = ids.reverse();
        lemma_live_ids_from_head(turned, orders);
        assert(turned.first() == ids.last());
        assert(turned.drop_first() =~= ids.drop_last().reverse());
        lemma_live_ids_reversed(ids.drop_last(), orders);
        let front = live_ids(ids.drop_last(), orders);
        if orders.contains_key(ids.last()) {
            assert(seq![ids.last()] + front.reverse() =~= front.push(ids.last()).reverse());
        }
    }
}

/// The ids of orders of the book among ids are the same in two books that
/// hold, of the orders with these ids, the same.
pub proof fn lemma_live_ids_agree<P, I>(
    ids: Seq<u64>,
    a: Map<u64, Order<P, u64, I>>,
    b: Map<u64, Order<P, u64, I>>,
)
    requires
        forall|id: u64| #[trigger] ids.contains(id) ==> (a.contains_key(id) <==> b.contains_key(id)),
    ensures
        live_ids(ids, a) == live_ids(ids, b),
    decreases ids.len(),
{
    if ids.len() > 0 {
        let front = ids.drop_last();
        assert forall|id: u64| #[trigger] front.contains(id) implies (a.contains_key(id)
            <==> b.contains_key(id)) by {
            let i = choose|i: int| 0 <= i < front.len() && front[i] == id;
            assert(ids[i] == id);
            assert(ids.contains(id));
        }
        lemma_live_ids_agree(front, a, b);
        assert(ids[ids.len() - 1] == ids.last());
        assert(ids.contains(ids.last()));
    }
}

/// When an order leaves the book, the ids of orders of the book among ids
/// are the same as before without the id of that order; where no id came
/// twice, none comes twice.
pub proof fn lemma_live_ids_without<P, I>(
    ids: Seq<u64>,
    orders: Map<u64, Order<P, u64, I>>,
    gone: u64,
)
    requires
        live_ids(ids, orders).no_duplicates(),
    ensures
        live_ids(ids, orders.remove(gone)).no_duplicates(),
        forall|id: u64| #[trigger]
            live_ids(ids, orders.remove(gone)).contains(id) <==> live_ids(ids, orders).contains(id)
                && id != gone,
    decreases ids.len(),
{
    let less = orders.remove(gone);
    if ids.len() > 0 {
        let front = ids.drop_last();
        let last = ids.last();
        let before = live_ids(front, orders);
        if orders.contains_key(last) {
            assert(before.push(last).drop_last() =~= before);
            assert(before.no_duplicates()) by {
                assert forall|i: int, j: int|
                    0 <= i < before.len() && 0 <= j < before.len() && i != j implies before[i]
                    != before[j] by {
                    assert(before.push(last)[i] == before[i]);
                    assert(before.push(last)[j] == before[j]);
                }
            }
            assert(!before.contains(last)) by {
                if before.contains(last) {
                    let i = choose|i: int| 0 <= i < before.len() && before[i] == last;
                    assert(before.push(last)[i] == last);
                    assert(before.push(last)[before.len() as int] == last);
                }
            }
        }
        lemma_live_ids_without(front, orders, gone);
        let after = live_ids(front, less);
        let all_before = live_ids(ids, orders);
        let all_after = live_ids(ids, less);
        assert forall|id: u64| #[trigger] all_after.contains(id) <==> all_before.contains(id) && id
            != gone by {
            if all_after.contains(id) {
                let i = choose|i: int| 0 <= i < all_after.len() && all_after[i] == id;
                if less.contains_key(last) && i == all_after.len() - 1 {
                    assert(all_before.last() == id);
                    assert(all_before[all_before.len() - 1] == id);
                } else {
                    assert(after[i] == id);
                    assert(after.contains(id));
                    assert(before.contains(id));
                    let j = choose|j: int| 0 <= j < before.len() && before[j] == id;
                    assert(all_before[j] == id);
                }
            }
            if all_before.contains(id) && id != gone {
                let i = choose|i: int| 0 <= i < all_before.len() && all_before[i] == id;
                if orders.contains_key(last) && i == all_before.len() - 1 {
                    assert(all_after.last() == id);
                    assert(all_after[all_after.len() - 1] == id);
                } else {
                    assert(before[i] == id);
                    assert(before.contains(id));
                    assert(after.contains(id));
                    let j = choose|j: int| 0 <= j < after.len() && after[j] == id;
                    assert(all_after[j] == id);
                }
            }
        }
        if less.contains_key(last) {
            assert(!after.contains(last));
            assert forall|i: int, j: int|
                0 <= i < all_after.len() && 0 <= j < all_after.len() && i != j implies all_after[i]
                != all_after[j] by {
                if i < after.len() && j < after.len() {
                    assert(after[i] != after[j]);
                } else if i < after.len() {
                    assert(after.contains(after[i]));
                } else {
                    assert(after.contains(after[j]));
                }
            }
        }
    }
}

/// Where an id is put in among ids, the ids of orders of the book among
/// them are those of before with the new id put in at some place, if it
/// belongs to an order of the book.
pub proof fn lemma_live_ids_with<P, I>(
    ids: Seq<u64>,
    orders: Map<u64, Order<P, u64, I>>,
    at: int,
    id: u64,
)
    requires
        0 <= at <= ids.len(),
        orders.contains_key(id),
    ensures
        exists|k: int|
            0 <= k <= live_ids(ids, orders).len() && #[trigger] live_ids(ids, orders).insert(k, id)
                == live_ids(ids.insert(at, id), orders),
    decreases ids.len(),
{
    let more = ids.insert(at, id);
    let live = live_ids(ids, orders);
    if at == ids.len() {
        assert(more =~= ids.push(id));
        assert(more.drop_last() =~= ids);
        assert(live.insert(live.len() as int, id) =~= live.push(id));
    } else {
        let front = ids.drop_last();
        assert(more.drop_last() =~= front.insert(at, id));
        assert(more.last() == ids.last());
        lemma_live_ids_with(front, orders, at, id);
        let k = choose|k: int|
            0 <= k <= live_ids(front, orders).len() && #[trigger] live_ids(front, orders).insert(
                k,
                id,
            ) == live_ids(front.insert(at, id), orders);
        if orders.contains_key(ids.last()) {
            assert(live_ids(front, orders).insert(k, id).push(ids.last()) =~= live.insert(k, id));
        }
        assert(live.insert(k, id) == live_ids(more, orders));
    }
}

/// A list without repeats stays one when something new is put in.
pub proof fn lemma_insert_keeps_distinct(list: Seq<u64>, k: int, id: u64)
    requires
        list.no_duplicates(),
        !list.contains(id),
        0 <= k <= list.len(),
    ensures
        list.insert(k, id).no_duplicates(),
        forall|x: u64| #[trigger] list.insert(k, id).contains(x) <==> list.contains(x) || x == id,
{
    let more = list.insert(k, id);
    assert forall|i: int, j: int| 0 <= i < more.len() && 0 <= j < more.len() && i != j implies more[i]
        != more[j] by {
        let a: int = if i < k {
            i
        } else {
            i - 1
        };
        let b: int = if j < k {
            j
        } else {
            j - 1
        };
        if i != k && j != k {
            assert(more[i] == list[a]);
            assert(more[j] == list[b]);
        } else if i == k {
            assert(more[j] == list[b]);
            assert(list.contains(list[b]));
        } else {
            assert(more[i] == list[a]);
            assert(list.contains(list[a]));
        }
    }
    assert forall|x: u64| #[trigger] more.contains(x) <==> list.contains(x) || x == id by {
        if more.contains(x) {
            let i = choose|i: int| 0 <= i < more.len() && more[i] == x;
            if i < k {
                assert(list[i] == x);
            } else if i > k {
                assert(list[i - 1] == x);
            }
        }
        if list.contains(x) {
            let i = choose|i: int| 0 <= i < list.len() && list[i] == x;
            if i < k {
                assert(more[i] == x);
            } else {
                assert(more[i + 1] == x);
            }
        }
        if x == id {
            assert(more[k] == x);
        }
    }
}

/// The sum of the quantities of ids that come once each is the sum over
/// the set of them.
pub proof fn lemma_quantity_sum_of_distinct<P, I>(ids: Seq<u64>, orders: Map<u64, Order<P, u64, I>>)
    requires
        ids.no_duplicates(),
    ensures
        ids.to_set().finite(),
        ids.to_set().len() == ids.len(),
        quantity_sum(ids, orders) == total_quantity(orders, ids.to_set()),
    decreases ids.len(),
{
    ids.unique_seq_to_set();
    vstd::seq_lib::seq_to_set_is_finite(ids);
    if ids.len() == 0 {
        assert(ids.to_set() =~= Set::<u64>::empty());
    } else {
        let front = ids.drop_last();
        let last = ids.last();
        assert(front.no_duplicates()) by {
            assert forall|i: int, j: int|
                0 <= i < front.len() && 0 <= j < front.len() && i != j implies front[i]
                != front[j] by {
                assert(ids[i] != ids[j]);
            }
        }
        lemma_quantity_sum_of_distinct(front, orders);
        assert(ids.to_set().contains(last)) by {
            assert(ids[ids.len() - 1] == last);
        }
        assert(ids.to_set().remove(last) =~= front.to_set()) by {
            assert forall|x: u64| ids.to_set().remove(last).contains(x) <==> front.to_set().contains(
                x,
            ) by {
                if ids.to_set().remove(last).contains(x) {
                    let i = choose|i: int| 0 <= i < ids.len() && ids[i] == x;
                    assert(i < ids.len() - 1);
                    assert(front[i] == x);
                }
                if front.to_set().contains(x) {
                    let i = choose|i: int| 0 <= i < front.len() && front[i] == x;
                    assert(ids[i] == x);
                    assert(ids[i] != ids[ids.len() - 1]);
                }
            }
        }
        lemma_total_quantity_remove(orders, ids.to_set(), last);
    }
}

/// A tidy queue that agrees with the orders is intact: it counts the ids
/// that it holds of orders of the book, and its volume is the sum of what
/// is left of those orders, whether the ids are taken as a set or one by
/// one.
pub proof fn lemma_tidy_queue_is_intact<P, I>(
    orders: Map<u64, Order<P, u64, I>>,
    side: Side,
    queues: Map<P, QueueView>,
    price: P,
)
    requires
        orders.dom().finite(),
        tallied(orders, side, queues),
        queues.contains_key(price),
        queue_tidy(orders, side, price, queues[price].ids),
    ensures
        queue_intact(queues[price], orders),
        queue_counted(queues[price], orders),
        live_ids(queues[price].ids, orders).to_set() == resting_ids(orders, side, price),
{
    let ids = queues[price].ids;
    let live = live_ids(ids, orders);
    assert(level_tallied(orders, side, queues, price));
    crate::collections::book::lemma_live_ids_are_the_live(ids, orders);
    assert(live.to_set() =~= resting_ids(orders, side, price)) by {
        assert forall|id: u64| live.to_set().contains(id) <==> resting_ids(
            orders,
            side,
            price,
        ).contains(id) by {
            if live.to_set().contains(id) {
                assert(live.contains(id));
            }
            if resting_ids(orders, side, price).contains(id) {
                assert(ids.contains(id));
                assert(live.contains(id));
            }
        }
    }
    lemma_resting_ids_finite(orders, side, price);
    lemma_quantity_sum_of_distinct(live, orders);
}

/// The ids of orders of the book among ids stay what they are when an id
/// of no order of the book is dropped.
pub proof fn lemma_live_ids_without_stale<P, I>(
    ids: Seq<u64>,
    orders: Map<u64, Order<P, u64, I>>,
    id: u64,
)
    requires
        !orders.contains_key(id),
    ensures
        live_ids(crate::collections::queue::without(ids, id), orders) == live_ids(ids, orders),
    decreases ids.len(),
{
    if ids.len() > 0 {
        lemma_live_ids_without_stale(ids.drop_last(), orders, id);
        if ids.last() != id {
            let kept = crate::collections::queue::without(ids.drop_last(), id);
            assert(kept.push(ids.last()).drop_last() =~= kept);
        }
    }
}

/// The queues of a side still agree with the orders, and stay tidy, when
/// an id of no order of the book is dropped from them all; and no queue
/// holds the id then.
pub proof fn lemma_scrub_keeps_side<P, I>(
    orders: Map<u64, Order<P, u64, I>>,
    side: Side,
    queues: Map<P, QueueView>,
    id: u64,
)
    requires
        tallied(orders, side, queues),
        side_tidy(orders, side, queues),
        !orders.contains_key(id),
    ensures
        tallied(orders, side, crate::collections::side_book::scrubbed(queues, id)),
        side_tidy(orders, side, crate::collections::side_book::scrubbed(queues, id)),
        crate::collections::laws::side_unseen(
            crate::collections::side_book::scrubbed(queues, id),
            id,
        ),
{
    let after = crate::collections::side_book::scrubbed(queues, id);
    assert forall|price: P| #[trigger] level_tallied(orders, side, after, price) by {
        assert(level_tallied(orders, side, queues, price));
        if queues.contains_key(price) {
            crate::collections::queue::lemma_without_holds_the_others(queues[price].ids, id);
        }
    }
    assert forall|price: P| #[trigger] after.contains_key(price) implies queue_tidy(
        orders,
        side,
        price,
        after[price].ids,
    ) by {
        assert(queue_tidy(orders, side, price, queues[price].ids));
        lemma_live_ids_without_stale(queues[price].ids, orders, id);
    }
    assert forall|price: P| #[trigger] after.contains_key(price) implies !after[price].ids.contains(
        id,
    ) by {
        crate::collections::queue::lemma_without_holds_the_others(queues[price].ids, id);
    }
}

} // verus!
