//! Counting and summing the orders that rest at one price.
use vstd::prelude::*;
use crate::collections::Side;
use crate::collections::order::Order;

verus! {

/// The ids of the orders that rest on `side` at `price`.
pub open spec fn resting_ids<P, I>(orders: Map<u64, Order<P, u64, I>>, side: Side, price: P) -> Set<
    u64,
> {
    Set::new(
        |id: u64| orders.contains_key(id) && orders[id].side == side && orders[id].price == price,
    )
}

/// The sum of the quantities of the orders with the given ids.
pub open spec fn total_quantity<P, I>(orders: Map<u64, Order<P, u64, I>>, ids: Set<u64>) -> nat
    decreases ids.len(),
    when ids.finite()
{
    if ids.len() == 0 {
        0
    } else {
        let id = ids.choose();
        orders[id].quantity as nat + total_quantity(orders, ids.remove(id))
    }
}

/// How many orders rest on `side` at `price`.
pub open spec fn resting_count<P, I>(orders: Map<u64, Order<P, u64, I>>, side: Side, price: P) -> nat {
    resting_ids(orders, side, price).len()
}

/// The sum of what is left of the orders that rest on `side` at `price`.
pub open spec fn resting_volume<P, I>(orders: Map<u64, Order<P, u64, I>>, side: Side, price: P) -> nat {
    total_quantity(orders, resting_ids(orders, side, price))
}

/// A sum over ids is the quantity of any one of them plus the sum over the others.
pub proof fn lemma_total_quantity_remove<P, I>(
    orders: Map<u64, Order<P, u64, I>>,
    ids: Set<u64>,
    id: u64,
)
    requires
        ids.finite(),
        ids.contains(id),
    ensures
        total_quantity(orders, ids) == orders[id].quantity + total_quantity(orders, ids.remove(id)),
    decreases ids.len(),
{
    let c = ids.choose();
    if c != id {
        lemma_total_quantity_remove(orders, ids.remove(c), id);
        lemma_total_quantity_remove(orders, ids.remove(id), c);
        assert(ids.remove(c).remove(id) =~= ids.remove(id).remove(c));
    }
}

/// A sum over ids depends on the quantities of those ids only.
pub proof fn lemma_total_quantity_agree<P, I>(
    a: Map<u64, Order<P, u64, I>>,
    b: Map<u64, Order<P, u64, I>>,
    ids: Set<u64>,
)
    requires
        ids.finite(),
        forall|id: u64| ids.contains(id) ==> a[id].quantity == b[id].quantity,
    ensures
        total_quantity(a, ids) == total_quantity(b, ids),
    decreases ids.len(),
{
    if ids.len() != 0 {
        let c = ids.choose();
        lemma_total_quantity_agree(a, b, ids.remove(c));
    }
}

/// Among finitely many orders, finitely many rest at a price.
pub proof fn lemma_resting_ids_finite<P, I>(orders: Map<u64, Order<P, u64, I>>, side: Side, price: P)
    requires
        orders.dom().finite(),
    ensures
        resting_ids(orders, side, price).finite(),
        resting_ids(orders, side, price).len() <= orders.dom().len(),
{
    vstd::set_lib::lemma_len_subset(resting_ids(orders, side, price), orders.dom());
}

/// An order that rests at a price is counted there, and the volume there holds its quantity.
pub proof fn lemma_resting_order_counts<P, I>(orders: Map<u64, Order<P, u64, I>>, id: u64)
    requires
        orders.dom().finite(),
        orders.contains_key(id),
    ensures
        resting_count(orders, orders[id].side, orders[id].price) >= 1,
        resting_volume(orders, orders[id].side, orders[id].price) >= orders[id].quantity,
{
    let ids = resting_ids(orders, orders[id].side, orders[id].price);
    lemma_resting_ids_finite(orders, orders[id].side, orders[id].price);
    assert(ids.contains(id));
    lemma_total_quantity_remove(orders, ids, id);
}

/// A new order adds one to the count and its quantity to the volume at its
/// price, and changes nothing at any other price.
pub proof fn lemma_insert_order<P, I>(
    orders: Map<u64, Order<P, u64, I>>,
    id: u64,
    order: Order<P, u64, I>,
)
    requires
        orders.dom().finite(),
        !orders.contains_key(id),
    ensures
        resting_ids(orders.insert(id, order), order.side, order.price) == resting_ids(
            orders,
            order.side,
            order.price,
        ).insert(id),
        resting_count(orders.insert(id, order), order.side, order.price) == resting_count(
            orders,
            order.side,
            order.price,
        ) + 1,
        resting_volume(orders.insert(id, order), order.side, order.price) == resting_volume(
            orders,
            order.side,
            order.price,
        ) + order.quantity,
        forall|side: Side, price: P|
            !(side == order.side && price == order.price) ==> {
                &&& #[trigger] resting_ids(orders.insert(id, order), side, price) == resting_ids(
                    orders,
                    side,
                    price,
                )
                &&& resting_volume(orders.insert(id, order), side, price) == resting_volume(
                    orders,
                    side,
                    price,
                )
            },
{
    let after = orders.insert(id, order);
    let here = resting_ids(orders, order.side, order.price);
    lemma_resting_ids_finite(orders, order.side, order.price);
    assert(resting_ids(after, order.side, order.price) =~= here.insert(id));
    lemma_total_quantity_remove(after, here.insert(id), id);
    assert(here.insert(id).remove(id) =~= here);
    lemma_total_quantity_agree(after, orders, here);
    assert forall|side: Side, price: P| !(side == order.side && price == order.price) implies {
        &&& #[trigger] resting_ids(after, side, price) == resting_ids(orders, side, price)
        &&& resting_volume(after, side, price) == resting_volume(orders, side, price)
    } by {
        assert(resting_ids(after, side, price) =~= resting_ids(orders, side, price));
        lemma_resting_ids_finite(orders, side, price);
        lemma_total_quantity_agree(after, orders, resting_ids(orders, side, price));
    }
}

/// An order that leaves takes one from the count and its quantity from the
/// volume at its price, and changes nothing at any other price.
pub proof fn lemma_remove_order<P, I>(orders: Map<u64, Order<P, u64, I>>, id: u64)
    requires
        orders.dom().finite(),
        orders.contains_key(id),
    ensures
        resting_ids(orders.remove(id), orders[id].side, orders[id].price) == resting_ids(
            orders,
            orders[id].side,
            orders[id].price,
        ).remove(id),
        resting_count(orders.remove(id), orders[id].side, orders[id].price) + 1 == resting_count(
            orders,
            orders[id].side,
            orders[id].price,
        ),
        resting_volume(orders.remove(id), orders[id].side, orders[id].price) + orders[id].quantity
            == resting_volume(orders, orders[id].side, orders[id].price),
        forall|side: Side, price: P|
            !(side == orders[id].side && price == orders[id].price) ==> {
                &&& #[trigger] resting_ids(orders.remove(id), side, price) == resting_ids(
                    orders,
                    side,
                    price,
                )
                &&& resting_volume(orders.remove(id), side, price) == resting_volume(
                    orders,
                    side,
                    price,
                )
            },
{
    let order = orders[id];
    let after = orders.remove(id);
    let here = resting_ids(orders, order.side, order.price);
    lemma_resting_ids_finite(orders, order.side, order.price);
    assert(here.contains(id));
    assert(resting_ids(after, order.side, order.price) =~= here.remove(id));
    lemma_total_quantity_remove(orders, here, id);
    lemma_total_quantity_agree(after, orders, here.remove(id));
    assert forall|side: Side, price: P| !(side == order.side && price == order.price) implies {
        &&& #[trigger] resting_ids(after, side, price) == resting_ids(orders, side, price)
        &&& resting_volume(after, side, price) == resting_volume(orders, side, price)
    } by {
        assert(resting_ids(after, side, price) =~= resting_ids(orders, side, price));
        lemma_resting_ids_finite(orders, side, price);
        lemma_total_quantity_agree(after, orders, resting_ids(orders, side, price));
    }
}

/// An order whose quantity changes moves the volume at its price by the
/// difference, and changes no count and no other volume.
pub proof fn lemma_requantify_order<P, I>(
    orders: Map<u64, Order<P, u64, I>>,
    id: u64,
    order: Order<P, u64, I>,
)
    requires
        orders.dom().finite(),
        orders.contains_key(id),
        order.side == orders[id].side,
        order.price == orders[id].price,
    ensures
        forall|side: Side, price: P| #[trigger]
            resting_ids(orders.insert(id, order), side, price) == resting_ids(orders, side, price),
        resting_volume(orders.insert(id, order), order.side, order.price) + orders[id].quantity
            == resting_volume(orders, order.side, order.price) + order.quantity,
        forall|side: Side, price: P|
            !(side == order.side && price == order.price) ==> #[trigger] resting_volume(
                orders.insert(id, order),
                side,
                price,
            ) == resting_volume(orders, side, price),
{
    let after = orders.insert(id, order);
    let here = resting_ids(orders, order.side, order.price);
    assert forall|side: Side, price: P| #[trigger]
        resting_ids(after, side, price) == resting_ids(orders, side, price) by {
        assert(resting_ids(after, side, price) =~= resting_ids(orders, side, price));
    }
    lemma_resting_ids_finite(orders, order.side, order.price);
    assert(here.contains(id));
    lemma_total_quantity_remove(orders, here, id);
    lemma_total_quantity_remove(after, here, id);
    lemma_total_quantity_agree(after, orders, here.remove(id));
    assert forall|side: Side, price: P| !(side == order.side && price == order.price) implies #[trigger]
        resting_volume(after, side, price) == resting_volume(orders, side, price) by {
        lemma_resting_ids_finite(orders, side, price);
        lemma_total_quantity_agree(after, orders, resting_ids(orders, side, price));
    }
}

} // verus!
