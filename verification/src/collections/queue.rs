//! The queue of orders that rest at one price.
use vstd::prelude::*;
use std::collections::VecDeque;

verus! {

/// What a queue holds, as plain values.
pub struct QueueView {
    /// How many orders rest at the price.
    pub count: nat,
    /// The sum of what is left of them.
    pub volume: nat,
    /// The ids at the price in queue order. An id stays here after its order
    /// has left the book, until the queue is cleaned.
    pub ids: Seq<u64>,
}

/// The orders at one price: how many, how much, and their ids in the order
/// of arrival.
///
/// Removing an order does not search the ids: the id stays behind and is
/// dropped later, when the queue is walked or cleaned.
#[derive(Clone, PartialEq, Eq, Hash, Debug)]
pub struct OrderQueue {
    count: usize,
    volume: u64,
    order_ids: VecDeque<u64>,
}

/// Whether the ids never step down from one place to the next.
pub open spec fn ascending(ids: Seq<u64>) -> bool {
    forall|i: int, j: int| 0 <= i < j < ids.len() ==> ids[i] <= ids[j]
}

/// Whether `after` is `before` with `id` put in at some place.
pub open spec fn inserted_somewhere(before: Seq<u64>, id: u64, after: Seq<u64>) -> bool {
    exists|index: int| 0 <= index <= before.len() && #[trigger] before.insert(index, id) == after
}

/// The ids as they are walked: from the head, or from the tail.
pub open spec fn oriented(ids: Seq<u64>, from_tail: bool) -> Seq<u64> {
    if from_tail {
        ids.reverse()
    } else {
        ids
    }
}

/// Walking twice from the tail is walking from the head.
pub proof fn lemma_oriented_twice(ids: Seq<u64>, from_tail: bool)
    ensures
        oriented(oriented(ids, from_tail), from_tail) == ids,
        oriented(ids, from_tail).len() == ids.len(),
        forall|id: u64| #[trigger] oriented(ids, from_tail).contains(id) <==> ids.contains(id),
{
    let turned = oriented(ids, from_tail);
    assert(oriented(turned, from_tail) =~= ids);
    assert forall|id: u64| #[trigger] turned.contains(id) <==> ids.contains(id) by {
        if from_tail {
            if turned.contains(id) {
                let i = choose|i: int| 0 <= i < turned.len() && turned[i] == id;
                assert(ids[ids.len() - 1 - i] == id);
            }
            if ids.contains(id) {
                let i = choose|i: int| 0 <= i < ids.len() && ids[i] == id;
                assert(turned[ids.len() - 1 - i] == id);
            }
        }
    }
}

/// The ids without an id, wherever it stands among them.
pub open spec fn without(ids: Seq<u64>, id: u64) -> Seq<u64>
    decreases ids.len(),
{
    if ids.len() == 0 {
        ids
    } else if ids.last() == id {
        without(ids.drop_last(), id)
    } else {
        without(ids.drop_last(), id).push(ids.last())
    }
}

/// What is left without an id holds every other id that was there, and no
/// id that was not.
pub proof fn lemma_without_holds_the_others(ids: Seq<u64>, id: u64)
    ensures
        !without(ids, id).contains(id),
        forall|x: u64| without(ids, id).contains(x) <==> ids.contains(x) && x != id,
        !ids.contains(id) ==> without(ids, id) == ids,
    decreases ids.len(),
{
    if ids.len() > 0 {
        let front = ids.drop_last();
        lemma_without_holds_the_others(front, id);
        let kept = without(front, id);
        assert forall|x: u64| without(ids, id).contains(x) <==> ids.contains(x) && x != id by {
            if without(ids, id).contains(x) {
                let k = choose|k: int| 0 <= k < without(ids, id).len() && without(ids, id)[k] == x;
                if k < kept.len() {
                    assert(kept[k] == x);
                    assert(kept.contains(x));
                    assert(front.contains(x) && x != id);
                    let i = choose|i: int| 0 <= i < front.len() && front[i] == x;
                    assert(ids[i] == x);
                } else {
                    assert(ids.last() != id);
                    assert(ids[ids.len() - 1] == x);
                }
            }
            if ids.contains(x) && x != id {
                let i = choose|i: int| 0 <= i < ids.len() && ids[i] == x;
                if i < front.len() {
                    assert(front[i] == x);
                    assert(front.contains(x));
                    assert(kept.contains(x));
                    let k = choose|k: int| 0 <= k < kept.len() && kept[k] == x;
                    assert(without(ids, id)[k] == x);
                } else {
                    assert(without(ids, id)[kept.len() as int] == x);
                }
            }
        }
        if !ids.contains(id) {
            assert(!front.contains(id)) by {
                if front.contains(id) {
                    let i = choose|i: int| 0 <= i < front.len() && front[i] == id;
                    assert(ids[i] == id);
                }
            }
            assert(ids[ids.len() - 1] != id);
            assert(front.push(ids.last()) =~= ids);
        }
    }
}

/// `VecDeque::binary_search`, with its two outcomes merged into one index.
///
/// On ids that ascend, the index is the place of an id equal to `id`, or
/// else the one place where `id` keeps them ascending: everything before it
/// is smaller, everything from it on is larger. On other ids nothing is
/// known of it.
#[verifier::external_body]
fn search(ids: &VecDeque<u64>, id: u64) -> (index: usize)
    ensures
        ascending(ids@) ==> {
            &&& index <= ids@.len()
            &&& {
                ||| index < ids@.len() && ids@[index as int] == id
                ||| {
                    &&& forall|i: int| 0 <= i < index ==> ids@[i] < id
                    &&& forall|i: int| index <= i < ids@.len() ==> id < ids@[i]
                }
            }
        },
{
    match ids.binary_search(&id) {
        Ok(n) => n,
        Err(n) => n,
    }
}

impl View for OrderQueue {
    type V = QueueView;

    closed spec fn view(&self) -> QueueView {
        QueueView { count: self.count as nat, volume: self.volume as nat, ids: self.order_ids@ }
    }
}

impl OrderQueue {
    /// Counts and volumes are machine integers.
    pub proof fn lemma_bounds(&self)
        ensures
            self@.count <= usize::MAX,
            self@.volume <= u64::MAX,
            self@.ids.len() <= usize::MAX,
    {
        let n = self.order_ids.len();
        assert(self.order_ids@.len() == n);
    }

    pub fn new() -> (queue: Self)
        ensures
            queue@ == (QueueView { count: 0, volume: 0, ids: Seq::empty() }),
    {
        Self { count: 0, volume: 0, order_ids: VecDeque::new() }
    }

    pub fn count(&self) -> (count: usize)
        ensures
            count == self@.count,
    {
        self.count
    }

    pub fn volume(&self) -> (volume: &u64)
        ensures
            *volume == self@.volume,
    {
        &self.volume
    }

    pub fn order_ids(&self) -> (ids: &VecDeque<u64>)
        ensures
            ids@ == self@.ids,
    {
        &self.order_ids
    }

    /// Puts an order at the tail.
    pub fn push(&mut self, id: u64, quantity: u64)
        requires
            old(self)@.count < usize::MAX,
            old(self)@.volume + quantity <= u64::MAX,
        ensures
            final(self)@ == (QueueView {
                count: old(self)@.count + 1,
                volume: (old(self)@.volume + quantity) as nat,
                ids: old(self)@.ids.push(id),
            }),
    {
        self.order_ids.push_back(id);
        self.count += 1;
        self.volume += quantity;
    }

    /// Puts an order where a binary search for its id ends, or at the tail
    /// where the search ends nowhere in the queue.
    ///
    /// On ids that ascend, the ids ascend afterwards too.
    pub fn sorted_insert_by_key(&mut self, id: u64, quantity: u64)
        requires
            old(self)@.count < usize::MAX,
            old(self)@.volume + quantity <= u64::MAX,
        ensures
            final(self)@.count == old(self)@.count + 1,
            final(self)@.volume == old(self)@.volume + quantity,
            inserted_somewhere(old(self)@.ids, id, final(self)@.ids),
            ascending(old(self)@.ids) ==> ascending(final(self)@.ids),
    {
        let found: usize = search(&self.order_ids, id);
        let index: usize = if found > self.order_ids.len() {
            self.order_ids.len()
        } else {
            found
        };
        let ghost before = self.order_ids@;
        self.order_ids.insert(index, id);
        self.count += 1;
        self.volume += quantity;
        proof {
            let at: int = index as int;
            assert(0 <= at <= before.len() && before.insert(at, id) == self.order_ids@);
            if ascending(before) {
                let after = self.order_ids@;
                assert forall|i: int, j: int| 0 <= i < j < after.len() implies after[i] <= after[j] by {
                    let a: int = if i < index { i } else { i - 1 };
                    let b: int = if j < index { j } else { j - 1 };
                    if i != index && j != index {
                        assert(0 <= a <= b < before.len());
                        assert(after[i] == before[a]);
                        assert(after[j] == before[b]);
                        if a < b {
                            assert(before[a] <= before[b]);
                        }
                    } else if i == index {
                        assert(after[i] == id);
                        assert(after[j] == before[j - 1]);
                        if index < before.len() && before[index as int] == id {
                            if (index as int) < j - 1 {
                                assert(before[index as int] <= before[j - 1]);
                            }
                        }
                    } else {
                        assert(after[j] == id);
                        assert(after[i] == before[i]);
                        if index < before.len() && before[index as int] == id {
                            assert(before[i] <= before[index as int]);
                        }
                    }
                }
            }
        }
    }

    /// Takes a quantity from the volume: part of an order has gone.
    pub fn reduce(&mut self, quantity: u64)
        requires
            quantity <= old(self)@.volume,
        ensures
            final(self)@ == (QueueView { volume: (old(self)@.volume - quantity) as nat, ..old(self)@ }),
    {
        self.volume -= quantity;
    }

    /// Counts one order out and takes its quantity from the volume. The id
    /// stays among the ids.
    pub fn remove(&mut self, quantity: u64)
        requires
            old(self)@.count > 0,
            quantity <= old(self)@.volume,
        ensures
            final(self)@ == (QueueView {
                count: (old(self)@.count - 1) as nat,
                volume: (old(self)@.volume - quantity) as nat,
                ids: old(self)@.ids,
            }),
    {
        self.count -= 1;
        self.reduce(quantity);
    }

    /// Drops the id at the head.
    pub(crate) fn pop_front(&mut self) -> (id: Option<u64>)
        ensures
            final(self)@.count == old(self)@.count,
            final(self)@.volume == old(self)@.volume,
            match id {
                Some(id) => old(self)@.ids.len() > 0 && id == old(self)@.ids[0] && final(self)@.ids
                    == old(self)@.ids.drop_first(),
                None => old(self)@.ids.len() == 0 && final(self)@.ids == old(self)@.ids,
            },
    {
        self.order_ids.pop_front()
    }

    /// Drops the id at the tail.
    pub(crate) fn pop_back(&mut self) -> (id: Option<u64>)
        ensures
            final(self)@.count == old(self)@.count,
            final(self)@.volume == old(self)@.volume,
            match id {
                Some(id) => old(self)@.ids.len() > 0 && id == old(self)@.ids.last() && final(self)@.ids
                    == old(self)@.ids.drop_last(),
                None => old(self)@.ids.len() == 0 && final(self)@.ids == old(self)@.ids,
            },
    {
        self.order_ids.pop_back()
    }

    /// Drops the id at the end from which the ids are walked.
    pub(crate) fn pop_end(&mut self, from_tail: bool) -> (id: Option<u64>)
        ensures
            final(self)@.count == old(self)@.count,
            final(self)@.volume == old(self)@.volume,
            match id {
                Some(id) => {
                    &&& old(self)@.ids.len() > 0
                    &&& id == oriented(old(self)@.ids, from_tail).first()
                    &&& oriented(final(self)@.ids, from_tail) == oriented(
                        old(self)@.ids,
                        from_tail,
                    ).drop_first()
                },
                None => old(self)@.ids.len() == 0 && final(self)@.ids == old(self)@.ids,
            },
    {
        let id = if from_tail {
            self.order_ids.pop_back()
        } else {
            self.order_ids.pop_front()
        };
        proof {
            if id is Some {
                assert(oriented(self@.ids, from_tail) =~= oriented(
                    old(self)@.ids,
                    from_tail,
                ).drop_first());
            }
        }
        id
    }

    /// Puts an id back at the end from which the ids are walked.
    pub(crate) fn push_end(&mut self, id: u64, from_tail: bool)
        ensures
            final(self)@.count == old(self)@.count,
            final(self)@.volume == old(self)@.volume,
            oriented(final(self)@.ids, from_tail) == seq![id] + oriented(old(self)@.ids, from_tail),
    {
        if from_tail {
            self.order_ids.push_back(id);
        } else {
            self.order_ids.push_front(id);
        }
        proof {
            assert(oriented(self@.ids, from_tail) =~= seq![id] + oriented(
                old(self)@.ids,
                from_tail,
            ));
        }
    }

    /// Drops an id from the ids, wherever it stands among them, and leaves
    /// count and volume as they are.
    pub(crate) fn forget(&mut self, id: u64)
        ensures
            final(self)@ == (QueueView { ids: without(old(self)@.ids, id), ..old(self)@ }),
    {
        let mut kept: VecDeque<u64> = VecDeque::new();
        let mut i: usize = 0;
        let ghost ids = self@.ids;
        while i < self.order_ids.len()
            invariant
                *self == *old(self),
                ids == self@.ids,
                i <= ids.len(),
                kept@ == without(ids.take(i as int), id),
            decreases ids.len() - i,
        {
            let x: u64 = self.order_ids[i];
            proof {
                assert(ids.take(i + 1).drop_last() =~= ids.take(i as int));
                assert(ids.take(i + 1).last() == x);
            }
            if x != id {
                kept.push_back(x);
            }
            i += 1;
        }
        proof {
            assert(ids.take(ids.len() as int) =~= ids);
        }
        self.order_ids = kept;
    }

    /// Replaces the ids and leaves count and volume as they are.
    pub(crate) fn set_order_ids(&mut self, ids: VecDeque<u64>)
        ensures
            final(self)@ == (QueueView { ids: ids@, ..old(self)@ }),
    {
        self.order_ids = ids;
    }
}

} // verus!
