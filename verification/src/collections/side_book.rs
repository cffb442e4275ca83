//! One side of a book: the queues of orders, one per price, best price first.
use vstd::prelude::*;
use std::collections::BTreeMap;
use crate::collections::ordered::{
    all_keys, first_key_from, first_keys, last_key_upto, lemma_ascending_list_is_unique,
    lemma_keys_can_be_listed, lists_keys, peek, put, strictly_ascending, take,
};
use crate::collections::order::{OrderPrice, Price};
use crate::collections::queue::{OrderQueue, QueueView};
use crate::collections::Side;

verus! {

/// Where a price stands on its side of the book: the better the price, the
/// smaller the key. Asks come lowest first and bids highest first; what is
/// no limit comes first on both sides.
pub open spec fn side_key<P: Price>(side: Side, price: P) -> u128 {
    match side {
        Side::Ask => price.rank(),
        Side::Bid => price.turned(),
    }
}

/// Two prices that stand at one place of a side are one price.
pub proof fn lemma_side_key_is_injective<P: Price>(side: Side, a: P, b: P)
    requires
        side_key(side, a) == side_key(side, b),
    ensures
        a == b,
{
    match side {
        Side::Ask => P::rank_is_injective(a, b),
        Side::Bid => P::turned_is_injective(a, b),
    }
}

/// The queues without an id: every queue stays, and counts what it counted.
pub open spec fn scrubbed<P>(queues: Map<P, QueueView>, id: u64) -> Map<P, QueueView> {
    Map::new(
        |p: P| queues.contains_key(p),
        |p: P| QueueView { ids: crate::collections::queue::without(queues[p].ids, id), ..queues[p] },
    )
}

/// Whether each price is better, for `side`, than all that follow it.
pub open spec fn best_first<P: Price>(side: Side, prices: Seq<P>) -> bool {
    forall|i: int, j: int|
        0 <= i < j < prices.len() ==> side_key(side, prices[i]) < side_key(side, prices[j])
}

/// Whether `prices` lists the prices that have a queue, each once, best first.
pub open spec fn lists_prices<P: Price>(side: Side, prices: Seq<P>, queues: Map<P, QueueView>) -> bool {
    &&& best_first(side, prices)
    &&& forall|p: P| prices.contains(p) <==> queues.contains_key(p)
}

/// The prices that have a queue, each once, best first.
pub open spec fn price_list<P: Price>(side: Side, queues: Map<P, QueueView>) -> Seq<P> {
    choose|prices: Seq<P>| lists_prices(side, prices, queues)
}

/// The best price that has a queue.
pub open spec fn best_price<P: Price>(side: Side, queues: Map<P, QueueView>) -> P {
    price_list(side, queues).first()
}

/// The worst price that has a queue.
pub open spec fn worst_price<P: Price>(side: Side, queues: Map<P, QueueView>) -> P {
    price_list(side, queues).last()
}

/// A price that has a queue and is no worse than any other that has one is
/// the best price.
pub proof fn lemma_best_price<P: Price>(side: Side, queues: Map<P, QueueView>, price: P)
    requires
        lists_prices(side, price_list(side, queues), queues),
        queues.contains_key(price),
        forall|p: P| queues.contains_key(p) ==> side_key(side, price) <= side_key(side, p),
    ensures
        best_price(side, queues) == price,
{
    let prices = price_list(side, queues);
    assert(prices.contains(price));
    let i = choose|i: int| 0 <= i < prices.len() && prices[i] == price;
    assert(prices.contains(prices[0]));
    if i > 0 {
        assert(side_key(side, prices[0]) < side_key(side, prices[i]));
    }
}

/// A price that has a queue and is no better than any other that has one
/// is the worst price.
pub proof fn lemma_worst_price<P: Price>(side: Side, queues: Map<P, QueueView>, price: P)
    requires
        lists_prices(side, price_list(side, queues), queues),
        queues.contains_key(price),
        forall|p: P| queues.contains_key(p) ==> side_key(side, p) <= side_key(side, price),
    ensures
        worst_price(side, queues) == price,
{
    let prices = price_list(side, queues);
    assert(prices.contains(price));
    let i = choose|i: int| 0 <= i < prices.len() && prices[i] == price;
    let n = prices.len() - 1;
    assert(prices.contains(prices[n]));
    if i < n {
        assert(side_key(side, prices[i]) < side_key(side, prices[n]));
    }
}

/// Prices that are plain numbers come best first when asks come lowest
/// first and bids highest first.
pub proof fn lemma_best_first_of_numbers(side: Side, prices: Seq<u64>)
    ensures
        best_first(side, prices) <==> forall|i: int, j: int|
            0 <= i < j < prices.len() ==> match side {
                Side::Ask => prices[i] < prices[j],
                Side::Bid => prices[i] > prices[j],
            },
{
    if best_first(side, prices) {
        assert forall|i: int, j: int| 0 <= i < j < prices.len() implies match side {
            Side::Ask => prices[i] < prices[j],
            Side::Bid => prices[i] > prices[j],
        } by {
            assert(side_key(side, prices[i]) < side_key(side, prices[j]));
        }
    }
}

/// The sum of the volumes of the queues at the given prices.
pub open spec fn volume_of<P>(prices: Seq<P>, queues: Map<P, QueueView>) -> nat
    decreases prices.len(),
{
    if prices.len() == 0 {
        0
    } else {
        volume_of(prices.drop_last(), queues) + queues[prices.last()].volume
    }
}

/// There is one way only to list the prices of a side best first.
pub proof fn lemma_price_list_is_unique<P: Price>(
    side: Side,
    a: Seq<P>,
    b: Seq<P>,
    queues: Map<P, QueueView>,
)
    requires
        lists_prices(side, a, queues),
        lists_prices(side, b, queues),
    ensures
        a == b,
{
    let ka = a.map_values(|p: P| side_key(side, p));
    let kb = b.map_values(|p: P| side_key(side, p));
    assert(strictly_ascending(ka));
    assert(strictly_ascending(kb));
    assert forall|k: u128| ka.contains(k) <==> kb.contains(k) by {
        if ka.contains(k) {
            let i = choose|i: int| 0 <= i < ka.len() && ka[i] == k;
            assert(a.contains(a[i]));
            assert(b.contains(a[i]));
            let j = choose|j: int| 0 <= j < b.len() && b[j] == a[i];
            assert(kb[j] == k);
        }
        if kb.contains(k) {
            let i = choose|i: int| 0 <= i < kb.len() && kb[i] == k;
            assert(b.contains(b[i]));
            assert(a.contains(b[i]));
            let j = choose|j: int| 0 <= j < a.len() && a[j] == b[i];
            assert(ka[j] == k);
        }
    }
    lemma_ascending_list_is_unique(ka, kb);
    assert(a.len() == b.len());
    assert forall|i: int| 0 <= i < a.len() implies a[i] == b[i] by {
        assert(ka[i] == kb[i]);
        lemma_side_key_is_injective(side, a[i], b[i]);
    }
    assert(a =~= b);
}

/// The queue at one price, with the price it stands for.
#[derive(Clone, Debug)]
struct Level<P> {
    price: P,
    queue: OrderQueue,
}

/// One side of an order book: a queue of orders for every price at which
/// orders rest, kept in the order of the side, best price first.
#[derive(Clone, Debug)]
pub struct BookStatus<P> {
    side: Side,
    levels: BTreeMap<u128, Level<P>>,
}

impl<P: Price> View for BookStatus<P> {
    type V = Map<P, QueueView>;

    /// The queue at each price that has one.
    closed spec fn view(&self) -> Map<P, QueueView> {
        Map::new(
            |p: P| self.levels@.contains_key(side_key(self.side, p)),
            |p: P| self.levels@[side_key(self.side, p)].queue@,
        )
    }
}

impl<P: Price> BookStatus<P> {
    /// The side whose orders the queues hold.
    pub closed spec fn spec_side(&self) -> Side {
        self.side
    }

    /// Every queue stands where its own price puts it.
    pub closed spec fn wf(&self) -> bool {
        forall|k: u128| #[trigger]
            self.levels@.contains_key(k) ==> side_key(self.side, self.levels@[k].price) == k
    }

    /// The prices of a side can be listed best first, and `price_list` is that list.
    pub proof fn lemma_price_list(&self)
        requires
            self.wf(),
        ensures
            lists_prices(self.spec_side(), price_list(self.spec_side(), self@), self@),
    {
        lemma_keys_can_be_listed(&self.levels);
        let keys = choose|keys: Seq<u128>| lists_keys(keys, self.levels@);
        let prices = keys.map_values(|k: u128| self.levels@[k].price);
        self.lemma_keys_give_prices(keys, prices);
    }

    /// The prices of the queues, taken key by key from the ascending list of
    /// keys, are the prices of the side best first.
    proof fn lemma_keys_give_prices(&self, keys: Seq<u128>, prices: Seq<P>)
        requires
            self.wf(),
            lists_keys(keys, self.levels@),
            prices.len() == keys.len(),
            forall|i: int| 0 <= i < keys.len() ==> prices[i] == self.levels@[keys[i]].price,
        ensures
            lists_prices(self.side, prices, self@),
            prices == price_list(self.side, self@),
    {
        assert forall|i: int, j: int| 0 <= i < j < prices.len() implies side_key(self.side, prices[i])
            < side_key(self.side, prices[j]) by {
            assert(keys.contains(keys[i]));
            assert(keys.contains(keys[j]));
            assert(keys[i] < keys[j]);
        }
        assert forall|p: P| prices.contains(p) <==> self@.contains_key(p) by {
            if prices.contains(p) {
                let i = choose|i: int| 0 <= i < prices.len() && prices[i] == p;
                assert(keys.contains(keys[i]));
            }
            if self@.contains_key(p) {
                let k = side_key(self.side, p);
                assert(keys.contains(k));
                let i = choose|i: int| 0 <= i < keys.len() && keys[i] == k;
                lemma_side_key_is_injective(self.side, prices[i], p);
            }
        }
        assert(lists_prices(self.side, prices, self@));
        lemma_price_list_is_unique(self.side, prices, price_list(self.side, self@), self@);
    }

    /// A side without orders.
    pub fn new(side: Side) -> (status: Self)
        ensures
            status.wf(),
            status.spec_side() == side,
            status@ == Map::<P, QueueView>::empty(),
    {
        let status = Self { side, levels: BTreeMap::new() };
        assert(status@ =~= Map::<P, QueueView>::empty());
        status
    }

    /// The side whose orders the queues hold.
    pub fn side(&self) -> (side: Side)
        ensures
            side == self.spec_side(),
    {
        self.side
    }

    fn key_of(&self, price: &P) -> (k: u128)
        ensures
            k == side_key(self.side, *price),
    {
        match self.side {
            Side::Ask => price.key(),
            Side::Bid => price.bid_key(),
        }
    }

    /// Takes the queue at a price out of the side.
    pub fn take(&mut self, price: &P) -> (queue: Option<OrderQueue>)
        requires
            old(self).wf(),
        ensures
            final(self).wf(),
            final(self).spec_side() == old(self).spec_side(),
            final(self)@ == old(self)@.remove(*price),
            match queue {
                Some(q) => old(self)@.contains_key(*price) && q@ == old(self)@[*price],
                None => !old(self)@.contains_key(*price),
            },
    {
        let k: u128 = self.key_of(price);
        let taken = take(&mut self.levels, k);
        proof {
            assert forall|p: P| p != *price implies #[trigger] side_key(self.side, p) != k by {
                if side_key(self.side, p) == k {
                    lemma_side_key_is_injective(self.side, p, *price);
                }
            }
            assert(self@ =~= old(self)@.remove(*price));
        }
        match taken {
            Some(level) => Some(level.queue),
            None => None,
        }
    }

    /// Puts a queue at a price, in place of the one that was there.
    pub fn put(&mut self, price: P, queue: OrderQueue)
        requires
            old(self).wf(),
        ensures
            final(self).wf(),
            final(self).spec_side() == old(self).spec_side(),
            final(self)@ == old(self)@.insert(price, queue@),
    {
        let k: u128 = self.key_of(&price);
        put(&mut self.levels, k, Level { price, queue });
        proof {
            assert forall|p: P| p != price implies #[trigger] side_key(self.side, p) != k by {
                if side_key(self.side, p) == k {
                    lemma_side_key_is_injective(self.side, p, price);
                }
            }
            assert(self@ =~= old(self)@.insert(price, queue@));
        }
    }

    /// The queue at a price.
    pub fn get(&self, price: &P) -> (queue: Option<&OrderQueue>)
        ensures
            match queue {
                Some(q) => self@.contains_key(*price) && q@ == self@[*price],
                None => !self@.contains_key(*price),
            },
    {
        let k: u128 = self.key_of(price);
        match peek(&self.levels, k) {
            Some(level) => Some(&level.queue),
            None => None,
        }
    }

    /// Puts an order at the tail of the queue at its price, which is made if
    /// it is not there.
    pub fn push(&mut self, id: u64, price: P, quantity: u64)
        requires
            old(self).wf(),
            old(self)@.contains_key(price) ==> old(self)@[price].count < usize::MAX && old(
                self,
            )@[price].volume + quantity <= u64::MAX,
        ensures
            final(self).wf(),
            final(self).spec_side() == old(self).spec_side(),
            final(self)@ == old(self)@.insert(price, pushed(queue_at(old(self)@, price), id, quantity)),
    {
        let mut queue = match self.take(&price) {
            Some(q) => q,
            None => OrderQueue::new(),
        };
        queue.push(id, quantity);
        self.put(price, queue);
        assert(self@ =~= old(self)@.insert(price, pushed(queue_at(old(self)@, price), id, quantity)));
    }

    /// Puts an order into the queue at its price, which is made if it is not
    /// there, at the place where a binary search for the id ends.
    pub fn sorted_insert_by_key(&mut self, id: u64, price: P, quantity: u64)
        requires
            old(self).wf(),
            old(self)@.contains_key(price) ==> old(self)@[price].count < usize::MAX && old(
                self,
            )@[price].volume + quantity <= u64::MAX,
        ensures
            final(self).wf(),
            final(self).spec_side() == old(self).spec_side(),
            final(self)@.contains_key(price),
            final(self)@ == old(self)@.insert(price, final(self)@[price]),
            final(self)@[price].count == queue_at(old(self)@, price).count + 1,
            final(self)@[price].volume == queue_at(old(self)@, price).volume + quantity,
            crate::collections::queue::inserted_somewhere(
                queue_at(old(self)@, price).ids,
                id,
                final(self)@[price].ids,
            ),
            crate::collections::queue::ascending(queue_at(old(self)@, price).ids)
                ==> crate::collections::queue::ascending(final(self)@[price].ids),
    {
        let mut queue = match self.take(&price) {
            Some(q) => q,
            None => OrderQueue::new(),
        };
        queue.sorted_insert_by_key(id, quantity);
        self.put(price, queue);
        assert(self@ =~= old(self)@.insert(price, self@[price]));
    }

    /// Takes a quantity from the volume at a price.
    pub fn reduce(&mut self, price: &P, quantity: u64)
        requires
            old(self).wf(),
            old(self)@.contains_key(*price),
            quantity <= old(self)@[*price].volume,
        ensures
            final(self).wf(),
            final(self).spec_side() == old(self).spec_side(),
            final(self)@ == old(self)@.insert(
                *price,
                QueueView {
                    volume: (old(self)@[*price].volume - quantity) as nat,
                    ..old(self)@[*price]
                },
            ),
    {
        let taken = self.take(price);
        let mut queue = taken.unwrap();
        queue.reduce(quantity);
        self.put(*price, queue);
        assert(self@ =~= old(self)@.insert(
            *price,
            QueueView { volume: (old(self)@[*price].volume - quantity) as nat, ..old(self)@[*price] },
        ));
    }

    /// Counts one order out of the queue at a price and takes its quantity
    /// from the volume there. A queue left without orders leaves the side.
    /// Returns whether the queue that stays should be cleaned: it holds more
    /// than 100 ids, and fewer than half of them are counted.
    pub fn remove(&mut self, price: &P, quantity: u64) -> (clean: bool)
        requires
            old(self).wf(),
            old(self)@.contains_key(*price),
            old(self)@[*price].count > 0,
            quantity <= old(self)@[*price].volume,
        ensures
            final(self).wf(),
            final(self).spec_side() == old(self).spec_side(),
            final(self)@ == removed(old(self)@, *price, quantity),
            clean == needs_cleaning(final(self)@, *price),
    {
        let taken = self.take(price);
        let mut queue = taken.unwrap();
        queue.remove(quantity);
        if queue.count() == 0 {
            assert(self@ =~= removed(old(self)@, *price, quantity));
            false
        } else {
            let count: usize = queue.count();
            let held: usize = queue.order_ids().len();
            let clean = held > 100 && count < held && count < held - count;
            self.put(*price, queue);
            assert(self@ =~= removed(old(self)@, *price, quantity));
            clean
        }
    }

    /// The volume at a price: nothing, where no order rests there.
    pub fn volume_at(&mut self, price: P) -> (volume: u64)
        ensures
            *final(self) == *old(self),
            volume == queue_at(old(self)@, price).volume,
    {
        match self.get(&price) {
            Some(queue) => *queue.volume(),
            None => 0,
        }
    }

    /// The best price at which orders are counted, and the queue there.
    pub fn top(&self) -> (top: Option<(&P, &OrderQueue)>)
        requires
            self.wf(),
        ensures
            match top {
                Some((best, queue)) => {
                    &&& self@.contains_key(*best)
                    &&& queue@ == self@[*best]
                    &&& self@[*best].count > 0
                    &&& forall|p: P|
                        self@.contains_key(p) && self@[p].count > 0 ==> side_key(
                            self.spec_side(),
                            *best,
                        ) <= side_key(self.spec_side(), p)
                },
                None => forall|p: P| self@.contains_key(p) ==> self@[p].count == 0,
            },
    {
        let mut from: u128 = 0;
        loop
            invariant
                self.wf(),
                forall|p: P|
                    self@.contains_key(p) && self@[p].count > 0 ==> from <= side_key(self.side, p),
            decreases u128::MAX - from,
        {
            match first_key_from(&self.levels, from) {
                None => {
                    return None;
                },
                Some(k) => {
                    let level = peek(&self.levels, k).unwrap();
                    if level.queue.count() > 0 {
                        return Some((&level.price, &level.queue));
                    }
                    if k == u128::MAX {
                        return None;
                    }
                    from = k + 1;
                },
            }
        }
    }

    /// The worst price at which orders are counted, and the queue there.
    pub fn bottom(&self) -> (bottom: Option<(&P, &OrderQueue)>)
        requires
            self.wf(),
        ensures
            match bottom {
                Some((worst, queue)) => {
                    &&& self@.contains_key(*worst)
                    &&& queue@ == self@[*worst]
                    &&& self@[*worst].count > 0
                    &&& forall|p: P|
                        self@.contains_key(p) && self@[p].count > 0 ==> side_key(self.spec_side(), p)
                            <= side_key(self.spec_side(), *worst)
                },
                None => forall|p: P| self@.contains_key(p) ==> self@[p].count == 0,
            },
    {
        let mut upto: u128 = u128::MAX;
        loop
            invariant
                self.wf(),
                forall|p: P|
                    self@.contains_key(p) && self@[p].count > 0 ==> side_key(self.side, p) <= upto,
            decreases upto,
        {
            match last_key_upto(&self.levels, upto) {
                None => {
                    return None;
                },
                Some(k) => {
                    let level = peek(&self.levels, k).unwrap();
                    if level.queue.count() > 0 {
                        return Some((&level.price, &level.queue));
                    }
                    if k == 0 {
                        return None;
                    }
                    upto = k - 1;
                },
            }
        }
    }

    fn prices_at(&self, keys: &Vec<u128>) -> (prices: Vec<P>)
        requires
            forall|i: int| 0 <= i < keys@.len() ==> self.levels@.contains_key(#[trigger] keys@[i]),
        ensures
            prices@.len() == keys@.len(),
            forall|i: int| 0 <= i < keys@.len() ==> prices@[i] == self.levels@[keys@[i]].price,
    {
        let mut prices: Vec<P> = Vec::new();
        let mut i: usize = 0;
        while i < keys.len()
            invariant
                i <= keys@.len(),
                prices@.len() == i,
                forall|j: int| 0 <= j < keys@.len() ==> self.levels@.contains_key(#[trigger] keys@[j]),
                forall|j: int| 0 <= j < i ==> prices@[j] == self.levels@[keys@[j]].price,
            decreases keys@.len() - i,
        {
            let level = peek(&self.levels, keys[i]).unwrap();
            prices.push(level.price);
            i += 1;
        }
        prices
    }

    /// The prices at which orders rest, best first.
    pub fn sorted_prices(&self) -> (prices: Vec<P>)
        requires
            self.wf(),
        ensures
            prices@ == price_list(self.spec_side(), self@),
            lists_prices(self.spec_side(), prices@, self@),
    {
        let keys = all_keys(&self.levels);
        proof {
            assert forall|i: int| 0 <= i < keys@.len() implies self.levels@.contains_key(
                #[trigger] keys@[i],
            ) by {
                assert(keys@.contains(keys@[i]));
            }
        }
        let prices = self.prices_at(&keys);
        proof {
            self.lemma_keys_give_prices(keys@, prices@);
        }
        prices
    }

    /// The best prices at which orders rest, best first, `limit` of them at most.
    pub fn best_prices(&self, limit: usize) -> (prices: Vec<P>)
        requires
            self.wf(),
        ensures
            prices@ == first_of(price_list(self.spec_side(), self@), limit as nat),
    {
        let keys = first_keys(&self.levels, limit);
        let ghost all = choose|all: Seq<u128>| #[trigger]
            lists_keys(all, self.levels@) && keys@ == all.take(
                if limit <= all.len() {
                    limit as int
                } else {
                    all.len() as int
                },
            );
        proof {
            assert forall|i: int| 0 <= i < keys@.len() implies self.levels@.contains_key(
                #[trigger] keys@[i],
            ) by {
                assert(all.contains(all[i]));
            }
        }
        let prices = self.prices_at(&keys);
        proof {
            let every = all.map_values(|k: u128| self.levels@[k].price);
            self.lemma_keys_give_prices(all, every);
            assert(prices@ =~= first_of(every, limit as nat));
        }
        prices
    }

    /// Drops an id from every queue of the side. The queues count what
    /// they counted.
    pub fn scrub(&mut self, id: u64)
        requires
            old(self).wf(),
        ensures
            final(self).wf(),
            final(self).spec_side() == old(self).spec_side(),
            final(self)@ == scrubbed(old(self)@, id),
    {
        let prices = self.sorted_prices();
        let mut i: usize = 0;
        while i < prices.len()
            invariant
                i <= prices@.len(),
                self.wf(),
                self.spec_side() == old(self).spec_side(),
                lists_prices(old(self).spec_side(), prices@, old(self)@),
                forall|p: P| self@.contains_key(p) <==> old(self)@.contains_key(p),
                forall|p: P| #[trigger]
                    self@.contains_key(p) ==> self@[p] == if prices@.take(i as int).contains(p) {
                        scrubbed(old(self)@, id)[p]
                    } else {
                        old(self)@[p]
                    },
            decreases prices@.len() - i,
        {
            let price = prices[i];
            proof {
                assert(prices@.contains(price));
                assert(!prices@.take(i as int).contains(price)) by {
                    if prices@.take(i as int).contains(price) {
                        let j = choose|j: int|
                            0 <= j < i && #[trigger] prices@.take(i as int)[j] == price;
                        assert(side_key(old(self).spec_side(), prices@[j]) < side_key(
                            old(self).spec_side(),
                            prices@[i as int],
                        ));
                    }
                }
            }
            let ghost before = self@;
            let mut queue = self.take(&price).unwrap();
            queue.forget(id);
            self.put(price, queue);
            proof {
                assert forall|p: P| #[trigger] self@.contains_key(p) implies self@[p] == if prices@.take(
                    i + 1,
                ).contains(p) {
                    scrubbed(old(self)@, id)[p]
                } else {
                    old(self)@[p]
                } by {
                    if p == price {
                        assert(prices@.take(i + 1)[i as int] == price);
                    } else {
                        assert(self@[p] == before[p]);
                        if prices@.take(i + 1).contains(p) {
                            let j = choose|j: int| 0 <= j < i + 1 && #[trigger] prices@.take(i + 1)[j] == p;
                            assert(prices@.take(i as int)[j] == p);
                        }
                        if prices@.take(i as int).contains(p) {
                            let j = choose|j: int| 0 <= j < i && #[trigger] prices@.take(i as int)[j] == p;
                            assert(prices@.take(i + 1)[j] == p);
                        }
                    }
                }
            }
            i += 1;
        }
        proof {
            assert(prices@.take(prices@.len() as int) =~= prices@);
            assert(self@ =~= scrubbed(old(self)@, id));
        }
    }

    /// The sum of the volumes at all prices.
    pub fn total_volume(&mut self) -> (volume: u64)
        requires
            old(self).wf(),
            volume_of(price_list(old(self).spec_side(), old(self)@), old(self)@) <= u64::MAX,
        ensures
            *final(self) == *old(self),
            volume == volume_of(price_list(old(self).spec_side(), old(self)@), old(self)@),
    {
        let prices = self.sorted_prices();
        let mut volume: u64 = 0;
        let mut i: usize = 0;
        proof {
            lemma_volume_of_grows(prices@, self@, 0, prices@.len() as int);
        }
        while i < prices.len()
            invariant
                i <= prices@.len(),
                lists_prices(self.spec_side(), prices@, self@),
                volume == volume_of(prices@.take(i as int), self@),
                volume_of(prices@, self@) <= u64::MAX,
            decreases prices@.len() - i,
        {
            proof {
                assert(prices@.contains(prices@[i as int]));
                lemma_volume_of_grows(prices@, self@, i + 1, prices@.len() as int);
                assert(prices@.take(prices@.len() as int) =~= prices@);
                assert(prices@.take(i + 1).drop_last() =~= prices@.take(i as int));
                assert(prices@.take(i + 1).last() == prices@[i as int]);
                assert(volume_of(prices@.take(i + 1), self@) == volume_of(prices@.take(i as int), self@)
                    + self@[prices@[i as int]].volume);
            }
            let queue = self.get(&prices[i]).unwrap();
            volume += *queue.volume();
            i += 1;
        }
        proof {
            assert(prices@.take(prices@.len() as int) =~= prices@);
        }
        volume
    }
}

impl BookStatus<OrderPrice<u64>> {
    /// The volume of the orders that take any price.
    pub fn market_volume(&mut self) -> (volume: u64)
        ensures
            *final(self) == *old(self),
            volume == queue_at(old(self)@, OrderPrice::<u64>::Market).volume,
    {
        self.volume_at(OrderPrice::market())
    }

    /// The sum of the volumes at all limit prices.
    pub fn limit_volume(&mut self) -> (volume: u64)
        requires
            old(self).wf(),
            volume_of(limits_of(price_list(old(self).spec_side(), old(self)@)), old(self)@)
                <= u64::MAX,
        ensures
            *final(self) == *old(self),
            volume == volume_of(limits_of(price_list(old(self).spec_side(), old(self)@)), old(self)@),
    {
        let prices = self.sorted_prices();
        let mut volume: u64 = 0;
        let mut i: usize = 0;
        proof {
            lemma_limits_of_grows(prices@, 0, prices@.len() as int);
            lemma_volume_of_grows(
                limits_of(prices@),
                self@,
                0,
                limits_of(prices@).len() as int,
            );
            assert(prices@.take(0) =~= Seq::<OrderPrice<u64>>::empty());
        }
        while i < prices.len()
            invariant
                i <= prices@.len(),
                lists_prices(self.spec_side(), prices@, self@),
                volume == volume_of(limits_of(prices@.take(i as int)), self@),
                volume_of(limits_of(prices@), self@) <= u64::MAX,
            decreases prices@.len() - i,
        {
            proof {
                assert(prices@.contains(prices@[i as int]));
                assert(prices@.take(prices@.len() as int) =~= prices@);
                assert(prices@.take(i + 1).drop_last() =~= prices@.take(i as int));
                assert(prices@.take(i + 1).last() == prices@[i as int]);
                lemma_limits_of_grows(prices@, i + 1, prices@.len() as int);
                let some = limits_of(prices@.take(i + 1));
                let all = limits_of(prices@);
                assert(some == all.take(some.len() as int));
                lemma_volume_of_grows(all, self@, some.len() as int, all.len() as int);
                assert(all.take(all.len() as int) =~= all);
                if !(prices@[i as int] is Market) {
                    assert(some.drop_last() =~= limits_of(prices@.take(i as int)));
                    assert(some.last() == prices@[i as int]);
                    assert(volume_of(some, self@) == volume_of(limits_of(prices@.take(i as int)), self@)
                        + self@[prices@[i as int]].volume);
                }
            }
            if !prices[i].is_market() {
                let queue = self.get(&prices[i]).unwrap();
                volume += *queue.volume();
            }
            i += 1;
        }
        proof {
            assert(prices@.take(prices@.len() as int) =~= prices@);
        }
        volume
    }
}

/// The queue at a price, or an empty queue where the price has none.
pub open spec fn queue_at<P>(queues: Map<P, QueueView>, price: P) -> QueueView {
    if queues.contains_key(price) {
        queues[price]
    } else {
        QueueView { count: 0, volume: 0, ids: Seq::empty() }
    }
}

/// A queue with one more order at its tail.
pub open spec fn pushed(queue: QueueView, id: u64, quantity: u64) -> QueueView {
    QueueView {
        count: queue.count + 1,
        volume: (queue.volume + quantity) as nat,
        ids: queue.ids.push(id),
    }
}

/// The queues after one order has been counted out at a price: the queue
/// there has gone if that was its last order, and is one order and one
/// quantity less if not.
pub open spec fn removed<P>(queues: Map<P, QueueView>, price: P, quantity: u64) -> Map<
    P,
    QueueView,
> {
    if queues[price].count == 1 {
        queues.remove(price)
    } else {
        queues.insert(
            price,
            QueueView {
                count: (queues[price].count - 1) as nat,
                volume: (queues[price].volume - quantity) as nat,
                ids: queues[price].ids,
            },
        )
    }
}

/// Whether the queue at a price holds more than 100 ids and counts fewer
/// than half of them.
pub open spec fn needs_cleaning<P>(queues: Map<P, QueueView>, price: P) -> bool {
    &&& queues.contains_key(price)
    &&& queues[price].ids.len() > 100
    &&& 2 * queues[price].count < queues[price].ids.len()
}

/// The first `limit` of the items, or all of them if they are fewer.
pub open spec fn first_of<T>(items: Seq<T>, limit: nat) -> Seq<T> {
    if limit <= items.len() {
        items.take(limit as int)
    } else {
        items
    }
}

/// The limit prices among the prices, in their order.
pub open spec fn limits_of(prices: Seq<OrderPrice<u64>>) -> Seq<OrderPrice<u64>>
    decreases prices.len(),
{
    if prices.len() == 0 {
        prices
    } else if prices.last() is Market {
        limits_of(prices.drop_last())
    } else {
        limits_of(prices.drop_last()).push(prices.last())
    }
}

/// The limits among the first prices are the first of the limits among all.
proof fn lemma_limits_of_grows(prices: Seq<OrderPrice<u64>>, some: int, all: int)
    requires
        0 <= some <= all <= prices.len(),
    ensures
        limits_of(prices.take(some)).len() <= limits_of(prices.take(all)).len(),
        limits_of(prices.take(some)) == limits_of(prices.take(all)).take(
            limits_of(prices.take(some)).len() as int,
        ),
    decreases all - some,
{
    if some < all {
        lemma_limits_of_grows(prices, some, all - 1);
        assert(prices.take(all).drop_last() =~= prices.take(all - 1));
        let shorter = limits_of(prices.take(all - 1));
        let longer = limits_of(prices.take(all));
        let first = limits_of(prices.take(some));
        assert(first =~= longer.take(first.len() as int));
    } else {
        let first = limits_of(prices.take(some));
        assert(first =~= first.take(first.len() as int));
    }
}

/// The volume of the first prices is no more than the volume of them all.
proof fn lemma_volume_of_grows<P>(prices: Seq<P>, queues: Map<P, QueueView>, some: int, all: int)
    requires
        0 <= some <= all <= prices.len(),
    ensures
        volume_of(prices.take(some), queues) <= volume_of(prices.take(all), queues),
    decreases all - some,
{
    if some < all {
        lemma_volume_of_grows(prices, queues, some, all - 1);
        assert(prices.take(all).drop_last() =~= prices.take(all - 1));
    }
}

} // verus!
