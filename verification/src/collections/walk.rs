//! Walking a queue to serve a wanted quantity in price-time priority.
use vstd::prelude::*;
use crate::collections::order::{Order, PartialOrder};
use crate::collections::order_map::OrderMap;
use crate::collections::queue::{lemma_oriented_twice, oriented, OrderQueue};

verus! {

/// What an order serves of a wanted quantity: all it has left, or what is wanted.
pub open spec fn share(left: u64, want: u64) -> u64 {
    if left <= want {
        left
    } else {
        want
    }
}

/// The ids that serve a wanted quantity, in the order of the walk, each with
/// what it serves. Ids whose orders have left the book are passed over, and
/// the walk ends where nothing more is wanted.
pub open spec fn served<P, I>(walk: Seq<u64>, orders: Map<u64, Order<P, u64, I>>, want: u64) -> Seq<
    (u64, u64),
>
    decreases walk.len(),
{
    if want == 0 || walk.len() == 0 {
        Seq::empty()
    } else if !orders.contains_key(walk.first()) {
        served(walk.drop_first(), orders, want)
    } else {
        let part = share(orders[walk.first()].quantity, want);
        seq![(walk.first(), part)] + served(walk.drop_first(), orders, (want - part) as u64)
    }
}

/// What of a wanted quantity the walk could not serve.
pub open spec fn unserved<P, I>(walk: Seq<u64>, orders: Map<u64, Order<P, u64, I>>, want: u64) -> u64
    decreases walk.len(),
{
    if want == 0 || walk.len() == 0 {
        want
    } else if !orders.contains_key(walk.first()) {
        unserved(walk.drop_first(), orders, want)
    } else {
        let part = share(orders[walk.first()].quantity, want);
        unserved(walk.drop_first(), orders, (want - part) as u64)
    }
}

/// The ids after the walk: those that the walk passed over are gone,
/// those that served and those that it did not reach stay in their order.
pub open spec fn swept<P, I>(walk: Seq<u64>, orders: Map<u64, Order<P, u64, I>>, want: u64) -> Seq<
    u64,
>
    decreases walk.len(),
{
    if want == 0 || walk.len() == 0 {
        walk
    } else if !orders.contains_key(walk.first()) {
        swept(walk.drop_first(), orders, want)
    } else {
        let part = share(orders[walk.first()].quantity, want);
        seq![walk.first()] + swept(walk.drop_first(), orders, (want - part) as u64)
    }
}

/// The part of an order that serves, as the book hands it out.
pub open spec fn part_of<P, I>(orders: Map<u64, Order<P, u64, I>>, serving: (u64, u64)) -> (
    u64,
    PartialOrder<'static, P, u64, I>,
) {
    (
        serving.0,
        PartialOrder {
            side: &orders[serving.0].side,
            price: &orders[serving.0].price,
            quantity: serving.1,
            info: &orders[serving.0].info,
        },
    )
}

/// The parts of the orders that serve, as the book hands them out.
pub open spec fn parts_of<P, I>(orders: Map<u64, Order<P, u64, I>>, servings: Seq<(u64, u64)>) -> Seq<
    (u64, PartialOrder<'static, P, u64, I>),
> {
    servings.map_values(|serving: (u64, u64)| part_of(orders, serving))
}

/// A walk drops no id of an order that is in the book, and brings no new id.
pub proof fn lemma_swept_keeps_live<P, I>(
    walk: Seq<u64>,
    orders: Map<u64, Order<P, u64, I>>,
    want: u64,
)
    ensures
        forall|id: u64| #[trigger]
            walk.contains(id) && orders.contains_key(id) ==> swept(walk, orders, want).contains(id),
        forall|id: u64| #[trigger] swept(walk, orders, want).contains(id) ==> walk.contains(id),
        swept(walk, orders, want).len() <= walk.len(),
    decreases walk.len(),
{
    if !(want == 0 || walk.len() == 0) {
        let rest = walk.drop_first();
        let after = swept(walk, orders, want);
        if !orders.contains_key(walk.first()) {
            lemma_swept_keeps_live(rest, orders, want);
            assert forall|id: u64| #[trigger]
                walk.contains(id) && orders.contains_key(id) implies after.contains(id) by {
                let i = choose|i: int| 0 <= i < walk.len() && walk[i] == id;
                assert(rest[i - 1] == id);
                assert(rest.contains(id));
            }
            assert forall|id: u64| #[trigger] after.contains(id) implies walk.contains(id) by {
                assert(rest.contains(id));
                let i = choose|i: int| 0 <= i < rest.len() && rest[i] == id;
                assert(walk[i + 1] == id);
            }
        } else {
            let part = share(orders[walk.first()].quantity, want);
            let tail = swept(rest, orders, (want - part) as u64);
            lemma_swept_keeps_live(rest, orders, (want - part) as u64);
            assert forall|id: u64| #[trigger]
                walk.contains(id) && orders.contains_key(id) implies after.contains(id) by {
                let i = choose|i: int| 0 <= i < walk.len() && walk[i] == id;
                if i == 0 {
                    assert(after[0] == id);
                } else {
                    assert(rest[i - 1] == id);
                    assert(rest.contains(id));
                    assert(tail.contains(id));
                    let j = choose|j: int| 0 <= j < tail.len() && tail[j] == id;
                    assert(after[j + 1] == id);
                }
            }
            assert forall|id: u64| #[trigger] after.contains(id) implies walk.contains(id) by {
                let j = choose|j: int| 0 <= j < after.len() && after[j] == id;
                if j == 0 {
                    assert(walk[0] == id);
                } else {
                    assert(tail[j - 1] == id);
                    assert(tail.contains(id));
                    assert(rest.contains(id));
                    let i = choose|i: int| 0 <= i < rest.len() && rest[i] == id;
                    assert(walk[i + 1] == id);
                }
            }
        }
    }
}

/// Walks a queue from its head, or from its tail, to serve a wanted
/// quantity.
///
/// Returns the parts that serve, in the order of the walk, and what could not
/// be served. The ids that the walk passed over, whose orders have left the
/// book, are gone from the queue afterwards.
pub fn walk_queue<'a, P, I>(
    queue: &mut OrderQueue,
    order_map: &'a OrderMap<P, I>,
    want: u64,
    from_tail: bool,
) -> (result: (Vec<(u64, PartialOrder<'a, P, u64, I>)>, u64))
    ensures
        final(queue)@.count == old(queue)@.count,
        final(queue)@.volume == old(queue)@.volume,
        final(queue)@.ids == oriented(
            swept(oriented(old(queue)@.ids, from_tail), order_map@, want),
            from_tail,
        ),
        result.0@ == parts_of(
            order_map@,
            served(oriented(old(queue)@.ids, from_tail), order_map@, want),
        ),
        result.1 == unserved(oriented(old(queue)@.ids, from_tail), order_map@, want),
        forall|id: u64| #[trigger]
            old(queue)@.ids.contains(id) && order_map@.contains_key(id)
                ==> final(queue)@.ids.contains(id),
{
    let ghost walk = oriented(queue@.ids, from_tail);
    let mut left: u64 = want;
    let mut parts: Vec<(u64, PartialOrder<'a, P, u64, I>)> = Vec::new();
    let mut valid: Vec<u64> = Vec::new();
    let ghost mut done: Seq<(u64, u64)> = Seq::empty();
    proof {
        lemma_oriented_twice(queue@.ids, from_tail);
        assert(parts@ =~= parts_of(order_map@, done));
    }
    while left > 0 && queue.order_ids().len() > 0
        invariant
            queue@.count == old(queue)@.count,
            queue@.volume == old(queue)@.volume,
            served(walk, order_map@, want) == done + served(
                oriented(queue@.ids, from_tail),
                order_map@,
                left,
            ),
            unserved(walk, order_map@, want) == unserved(
                oriented(queue@.ids, from_tail),
                order_map@,
                left,
            ),
            swept(walk, order_map@, want) == valid@ + swept(
                oriented(queue@.ids, from_tail),
                order_map@,
                left,
            ),
            parts@ == parts_of(order_map@, done),
        decreases queue@.ids.len(),
    {
        let ghost here = oriented(queue@.ids, from_tail);
        proof {
            lemma_oriented_twice(queue@.ids, from_tail);
        }
        let popped = queue.pop_end(from_tail);
        let id: u64 = popped.unwrap();
        match order_map.get(&id) {
            Some(order) => {
                let part: u64 = if order.quantity <= left {
                    order.quantity
                } else {
                    left
                };
                left -= part;
                let ghost valid_before = valid@;
                valid.push(id);
                parts.push(
                    (
                        id,
                        PartialOrder {
                            side: &order.side,
                            price: &order.price,
                            quantity: part,
                            info: &order.info,
                        },
                    ),
                );
                proof {
                    let rest = served(here.drop_first(), order_map@, left);
                    assert(done + (seq![(id, part)] + rest) =~= done.push((id, part)) + rest);
                    let tail = swept(here.drop_first(), order_map@, left);
                    assert(valid_before + (seq![id] + tail) =~= valid@ + tail);
                    done = done.push((id, part));
                    assert(parts@ =~= parts_of(order_map@, done));
                }
            },
            None => {},
        }
    }
    proof {
        let here = oriented(queue@.ids, from_tail);
        lemma_oriented_twice(queue@.ids, from_tail);
        assert(served(here, order_map@, left) =~= Seq::<(u64, u64)>::empty());
        assert(done + Seq::<(u64, u64)>::empty() =~= done);
    }
    let ghost rest = oriented(queue@.ids, from_tail);
    let mut i: usize = valid.len();
    while i > 0
        invariant
            queue@.count == old(queue)@.count,
            queue@.volume == old(queue)@.volume,
            i <= valid@.len(),
            oriented(queue@.ids, from_tail) == valid@.skip(i as int) + rest,
        decreases i,
    {
        i -= 1;
        queue.push_end(valid[i], from_tail);
        proof {
            assert(seq![valid@[i as int]] + (valid@.skip(i + 1) + rest) =~= valid@.skip(i as int)
                + rest);
        }
    }
    proof {
        assert(valid@.skip(0) =~= valid@);
        lemma_oriented_twice(queue@.ids, from_tail);
        lemma_oriented_twice(old(queue)@.ids, from_tail);
        lemma_swept_keeps_live(walk, order_map@, want);
        let after = swept(walk, order_map@, want);
        lemma_oriented_twice(after, from_tail);
        assert(queue@.ids == oriented(after, from_tail));
        assert forall|id: u64| #[trigger]
            old(queue)@.ids.contains(id) && order_map@.contains_key(id) implies queue@.ids.contains(
            id,
        ) by {
            assert(walk.contains(id));
            assert(after.contains(id));
            assert(oriented(after, from_tail).contains(id));
        }
    }
    (parts, left)
}

} // verus!
