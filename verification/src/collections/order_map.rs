//! The orders of a book by their ids.
use vstd::prelude::*;
use std::collections::hash_map::Entry;
use std::collections::HashMap;
use crate::collections::order::Order;

verus! {

/// The orders with the info of one of them changed.
pub open spec fn relabelled<P, I>(orders: Map<u64, Order<P, u64, I>>, id: u64, info: I) -> Map<
    u64,
    Order<P, u64, I>,
> {
    orders.insert(id, Order { info, ..orders[id] })
}

/// The orders that are in a book, each under its id.
#[derive(Clone, Debug)]
pub struct OrderMap<P, I>(HashMap<u64, Order<P, u64, I>>);

impl<P, I> View for OrderMap<P, I> {
    type V = Map<u64, Order<P, u64, I>>;

    closed spec fn view(&self) -> Map<u64, Order<P, u64, I>> {
        self.0@
    }
}

impl<P, I> OrderMap<P, I> {
    /// A map holds finitely many orders, and no more than the machine can count.
    pub proof fn lemma_finite(&self)
        ensures
            self@.dom().finite(),
            self@.dom().len() <= usize::MAX,
    {
        broadcast use vstd::std_specs::hash::group_hash_axioms;

        let n = self.0.len();
        assert(n == self.0@.len());
    }

    pub fn new() -> (map: Self)
        ensures
            map@ == Map::<u64, Order<P, u64, I>>::empty(),
    {
        Self(HashMap::new())
    }

    /// Whether an order is held under the id.
    pub fn contains(&self, id: &u64) -> (held: bool)
        ensures
            held == self@.contains_key(*id),
    {
        broadcast use vstd::std_specs::hash::group_hash_axioms;

        self.0.contains_key(id)
    }

    /// The order under an id.
    pub fn get(&self, id: &u64) -> (order: Option<&Order<P, u64, I>>)
        ensures
            order == if self@.contains_key(*id) {
                Some(&self@[*id])
            } else {
                None
            },
    {
        broadcast use vstd::std_specs::hash::group_hash_axioms;

        self.0.get(id)
    }

    /// Puts an order under an id, in place of the one that was there.
    pub fn insert(&mut self, id: u64, order: Order<P, u64, I>)
        ensures
            final(self)@ == old(self)@.insert(id, order),
    {
        broadcast use vstd::std_specs::hash::group_hash_axioms;

        let _ = self.0.insert(id, order);
    }

    /// Takes the order under an id out of the map.
    pub fn remove(&mut self, id: &u64) -> (order: Option<Order<P, u64, I>>)
        ensures
            final(self)@ == old(self)@.remove(*id),
            order == if old(self)@.contains_key(*id) {
                Some(old(self)@[*id])
            } else {
                None
            },
    {
        broadcast use vstd::std_specs::hash::group_hash_axioms;

        self.0.remove(id)
    }

    /// The info of the order under an id, to be changed in place.
    pub fn info_mut(&mut self, id: u64) -> (info: Option<&mut I>)
        ensures
            match info {
                Some(i) => {
                    &&& old(self)@.contains_key(id)
                    &&& *i == old(self)@[id].info
                    &&& final(self)@ == relabelled(old(self)@, id, *final(i))
                },
                None => !old(self)@.contains_key(id) && final(self)@ == old(self)@,
            },
    {
        broadcast use vstd::std_specs::hash::group_hash_axioms;

        match self.0.entry(id) {
            Entry::Occupied(entry) => {
                let order = entry.into_mut();
                Some(&mut order.info)
            },
            Entry::Vacant(_) => None,
        }
    }
}

} // verus!
