//! The life of each order of a day, told in one line.
use vstd::prelude::*;
use std::collections::BTreeMap;
use std::collections::HashMap;
use crate::collections::ordered::{all_keys, lists_keys, peek, put, take};
use crate::collections::Side;
use crate::nasdaq::book::{Body, Message};
use crate::nasdaq::data::{check_record, is_record, message_of};

verus! {

/// The life of one order: what happened to it and when, and how many
/// shares each time.
///
/// The events are written as letters: `A` the order was added, `D` deleted,
/// `X` cancelled in part, `E` executed, `C` executed at another price than
/// its own, `U` replaced, or come from a replacement.
#[derive(Debug, Clone)]
pub struct TrajectorySummary {
    pub reference: u64,
    pub trajectory: Vec<String>,
    pub timestamps: Vec<u64>,
    pub is_buy: bool,
    pub price: u32,
    pub shares: u32,
    pub executed_shares: Vec<u32>,
    pub executed_with_price_shares: Vec<u32>,
    pub cancelled_shares: Vec<u32>,
}

/// The life of an order as plain values.
pub struct TrajectoryView {
    pub reference: u64,
    pub trajectory: Seq<Seq<char>>,
    pub timestamps: Seq<u64>,
    pub is_buy: bool,
    pub price: u32,
    pub shares: u32,
    pub executed_shares: Seq<u32>,
    pub executed_with_price_shares: Seq<u32>,
    pub cancelled_shares: Seq<u32>,
}

/// The sum of the numbers.
pub open spec fn total(numbers: Seq<u32>) -> nat
    decreases numbers.len(),
{
    if numbers.len() == 0 {
        0
    } else {
        total(numbers.drop_last()) + numbers.last() as nat
    }
}

/// Whether a side buys.
pub fn side_to_is_buy(side: Side) -> (buys: bool)
    ensures
        buys == (side == Side::Bid),
{
    match side {
        Side::Bid => true,
        Side::Ask => false,
    }
}

impl View for TrajectorySummary {
    type V = TrajectoryView;

    open spec fn view(&self) -> TrajectoryView {
        TrajectoryView {
            reference: self.reference,
            trajectory: self.trajectory@.map_values(|s: String| s@),
            timestamps: self.timestamps@,
            is_buy: self.is_buy,
            price: self.price,
            shares: self.shares,
            executed_shares: self.executed_shares@,
            executed_with_price_shares: self.executed_with_price_shares@,
            cancelled_shares: self.cancelled_shares@,
        }
    }
}

impl TrajectoryView {
    /// The life of an order that begins, with one event.
    pub open spec fn begun(
        letter: Seq<char>,
        timestamp: u64,
        reference: u64,
        shares: u32,
        price: u32,
        is_buy: bool,
    ) -> TrajectoryView {
        TrajectoryView {
            reference,
            trajectory: seq![letter],
            timestamps: seq![timestamp],
            is_buy,
            price,
            shares,
            executed_shares: Seq::empty(),
            executed_with_price_shares: Seq::empty(),
            cancelled_shares: Seq::empty(),
        }
    }

    /// The life with one more event.
    pub open spec fn with_event(self, letter: Seq<char>, timestamp: u64) -> TrajectoryView {
        TrajectoryView {
            trajectory: self.trajectory.push(letter),
            timestamps: self.timestamps.push(timestamp),
            ..self
        }
    }

    /// The life after the order was deleted: what the executions had left
    /// of it is cancelled.
    pub open spec fn deleted(self, timestamp: u64) -> TrajectoryView {
        TrajectoryView {
            cancelled_shares: self.cancelled_shares.push(
                (self.shares - total(self.executed_shares)) as u32,
            ),
            ..self.with_event("D"@, timestamp)
        }
    }

    /// The life after a part of the order was cancelled.
    pub open spec fn cancelled(self, timestamp: u64, cancelled: u32) -> TrajectoryView {
        TrajectoryView {
            cancelled_shares: self.cancelled_shares.push(cancelled),
            ..self.with_event("X"@, timestamp)
        }
    }

    /// The life after an execution.
    pub open spec fn executed(self, timestamp: u64, executed: u32) -> TrajectoryView {
        TrajectoryView {
            executed_shares: self.executed_shares.push(executed),
            ..self.with_event("E"@, timestamp)
        }
    }

    /// The life after an execution at another price.
    pub open spec fn executed_with_price(self, timestamp: u64, executed: u32) -> TrajectoryView {
        TrajectoryView {
            executed_with_price_shares: self.executed_with_price_shares.push(executed),
            ..self.with_event("C"@, timestamp)
        }
    }

    /// The life after the order was replaced: what it had left is cancelled.
    pub open spec fn replaced(self, timestamp: u64, old_shares: u32) -> TrajectoryView {
        TrajectoryView {
            cancelled_shares: self.cancelled_shares.push(old_shares),
            ..self.with_event("U"@, timestamp)
        }
    }
}

impl TrajectorySummary {
    /// The life of an order that is added.
    pub fn new_with_add(timestamp: u64, reference: u64, shares: u32, price: u32, side: Side) -> (summary:
        Self)
        ensures
            summary@ == TrajectoryView::begun(
                "A"@,
                timestamp,
                reference,
                shares,
                price,
                side == Side::Bid,
            ),
    {
        let summary = Self {
            reference,
            trajectory: vec!["A".to_owned()],
            timestamps: vec![timestamp],
            is_buy: side_to_is_buy(side),
            price,
            shares,
            executed_shares: Vec::new(),
            executed_with_price_shares: Vec::new(),
            cancelled_shares: Vec::new(),
        };
        assert(summary@.trajectory =~= seq!["A"@]);
        assert(summary@.timestamps =~= seq![timestamp]);
        summary
    }

    fn note(&mut self, letter: &str, timestamp: u64)
        ensures
            final(self)@ == old(self)@.with_event(letter@, timestamp),
    {
        self.trajectory.push(letter.to_owned());
        self.timestamps.push(timestamp);
        assert(self@.trajectory =~= old(self)@.trajectory.push(letter@));
    }

    /// The sum of the executed shares, where it is no more than the shares
    /// of the order.
    fn executed_total(&self) -> (sum: Option<u32>)
        ensures
            sum == if total(self.executed_shares@) <= self.shares {
                Some(total(self.executed_shares@) as u32)
            } else {
                None
            },
    {
        let mut sum: u32 = 0;
        let mut i: usize = 0;
        assert(self.executed_shares@.take(0) =~= Seq::<u32>::empty());
        while i < self.executed_shares.len()
            invariant
                i <= self.executed_shares@.len(),
                sum == total(self.executed_shares@.take(i as int)),
                sum <= self.shares,
            decreases self.executed_shares@.len() - i,
        {
            proof {
                assert(self.executed_shares@.take(i + 1).drop_last() =~= self.executed_shares@.take(
                    i as int,
                ));
                lemma_total_grows(self.executed_shares@, i + 1);
            }
            let shares: u32 = self.executed_shares[i];
            if shares > self.shares - sum {
                return None;
            }
            sum += shares;
            i += 1;
        }
        assert(self.executed_shares@.take(self.executed_shares@.len() as int)
            =~= self.executed_shares@);
        Some(sum)
    }

    /// The order is deleted: what the executions have left of it is cancelled.
    pub fn delete(&mut self, timestamp: u64)
        requires
            total(old(self).executed_shares@) <= old(self).shares,
        ensures
            final(self)@ == old(self)@.deleted(timestamp),
    {
        let executed: u32 = self.executed_total().unwrap();
        self.note("D", timestamp);
        self.cancelled_shares.push(self.shares - executed);
    }

    /// A part of the order is cancelled.
    pub fn cancel(&mut self, timestamp: u64, cancelled: u32)
        ensures
            final(self)@ == old(self)@.cancelled(timestamp, cancelled),
    {
        self.note("X", timestamp);
        self.cancelled_shares.push(cancelled);
    }

    /// A part of the order is executed.
    pub fn execute(&mut self, timestamp: u64, executed: u32)
        ensures
            final(self)@ == old(self)@.executed(timestamp, executed),
    {
        self.note("E", timestamp);
        self.executed_shares.push(executed);
    }

    /// A part of the order is executed at another price than its own.
    pub fn execute_with_price(&mut self, timestamp: u64, executed: u32)
        ensures
            final(self)@ == old(self)@.executed_with_price(timestamp, executed),
    {
        self.note("C", timestamp);
        self.executed_with_price_shares.push(executed);
    }

    /// The order is replaced: what it had left is cancelled, and the life of
    /// the order that takes its place begins.
    pub fn replace_with(&mut self, timestamp: u64, shares: u32, old_shares: u32, price: u32, reference: u64) -> (anew:
        Self)
        ensures
            final(self)@ == old(self)@.replaced(timestamp, old_shares),
            anew@ == TrajectoryView::begun(
                "U"@,
                timestamp,
                reference,
                shares,
                price,
                old(self).is_buy,
            ),
    {
        self.note("U", timestamp);
        self.cancelled_shares.push(old_shares);
        let anew = Self {
            reference,
            trajectory: vec!["U".to_owned()],
            timestamps: vec![timestamp],
            is_buy: self.is_buy,
            price,
            shares,
            executed_shares: Vec::new(),
            executed_with_price_shares: Vec::new(),
            cancelled_shares: Vec::new(),
        };
        assert(anew@.trajectory =~= seq!["U"@]);
        assert(anew@.timestamps =~= seq![timestamp]);
        anew
    }
}

/// The sum of the first numbers is no more than the sum of them all.
proof fn lemma_total_grows(numbers: Seq<u32>, upto: int)
    requires
        0 <= upto <= numbers.len(),
    ensures
        total(numbers.take(upto)) <= total(numbers),
    decreases numbers.len() - upto,
{
    if upto < numbers.len() {
        lemma_total_grows(numbers, upto + 1);
        assert(numbers.take(upto + 1).drop_last() =~= numbers.take(upto));
    } else {
        assert(numbers.take(upto) =~= numbers);
    }
}

/// Why the lives of the orders could not be told.
#[derive(PartialEq, Eq, Debug, Clone, Copy, Structural)]
pub enum SummaryError {
    /// The numbers at this index are no record of an event.
    BadRecord(usize),
    /// An order is added, or comes from a replacement, under a reference
    /// that an order had before.
    DuplicateOrder(usize),
    /// The event at this index is about an order that is not there.
    OrderNotFound(usize),
    /// More is taken from an order than it has left, or more was executed of
    /// an order that is deleted than it had.
    ExceedsShares(usize),
}

/// What is known while the lives are told: the life of every order so far,
/// and what every order that is still there has left.
pub struct Lives {
    pub lives: Map<u64, TrajectoryView>,
    pub left: Map<u64, u64>,
}

/// The lives after one more event, the event of the record at `index`.
pub open spec fn lived(before: Lives, index: usize, msg: Message) -> Result<Lives, SummaryError> {
    match msg.body {
        Body::AddOrder { reference, shares, price, side, .. } => {
            if before.lives.contains_key(reference) {
                Err(SummaryError::DuplicateOrder(index))
            } else {
                Ok(
                    Lives {
                        lives: before.lives.insert(
                            reference,
                            TrajectoryView::begun(
                                "A"@,
                                msg.time,
                                reference,
                                shares as u32,
                                price as u32,
                                side == Side::Bid,
                            ),
                        ),
                        left: before.left.insert(reference, (shares as u32) as u64),
                    },
                )
            }
        },
        Body::DeleteOrder { reference } => {
            if !before.left.contains_key(reference) || !before.lives.contains_key(reference) {
                Err(SummaryError::OrderNotFound(index))
            } else if total(before.lives[reference].executed_shares)
                > before.lives[reference].shares {
                Err(SummaryError::ExceedsShares(index))
            } else {
                Ok(
                    Lives {
                        lives: before.lives.insert(
                            reference,
                            before.lives[reference].deleted(msg.time),
                        ),
                        left: before.left.remove(reference),
                    },
                )
            }
        },
        Body::OrderCancelled { reference, cancelled } => taken(
            before,
            index,
            reference,
            cancelled,
            before.lives[reference].cancelled(msg.time, cancelled as u32),
        ),
        Body::OrderExecuted { reference, executed } => taken(
            before,
            index,
            reference,
            executed,
            before.lives[reference].executed(msg.time, executed as u32),
        ),
        Body::OrderExecutedWithPrice { reference, executed } => taken(
            before,
            index,
            reference,
            executed,
            before.lives[reference].executed_with_price(msg.time, executed as u32),
        ),
        Body::ReplaceOrder { new_reference, shares, price, old_reference } => {
            if !before.left.contains_key(old_reference) || !before.lives.contains_key(
                old_reference,
            ) {
                Err(SummaryError::OrderNotFound(index))
            } else if before.lives.contains_key(new_reference) {
                Err(SummaryError::DuplicateOrder(index))
            } else {
                Ok(
                    Lives {
                        lives: before.lives.insert(
                            old_reference,
                            before.lives[old_reference].replaced(
                                msg.time,
                                before.left[old_reference] as u32,
                            ),
                        ).insert(
                            new_reference,
                            TrajectoryView::begun(
                                "U"@,
                                msg.time,
                                new_reference,
                                shares as u32,
                                price as u32,
                                before.lives[old_reference].is_buy,
                            ),
                        ),
                        left: before.left.remove(old_reference).insert(new_reference, shares),
                    },
                )
            }
        },
        _ => Ok(before),
    }
}

/// The lives after so much is taken from an order, the life of the order
/// going on as given.
pub open spec fn taken(
    before: Lives,
    index: usize,
    reference: u64,
    quantity: u64,
    life: TrajectoryView,
) -> Result<Lives, SummaryError> {
    if !before.left.contains_key(reference) || !before.lives.contains_key(reference) {
        Err(SummaryError::OrderNotFound(index))
    } else if quantity > before.left[reference] {
        Err(SummaryError::ExceedsShares(index))
    } else {
        Ok(
            Lives {
                lives: before.lives.insert(reference, life),
                left: before.left.insert(reference, (before.left[reference] - quantity) as u64),
            },
        )
    }
}

/// The lives after the events of the first `upto` records, or the first
/// reason why they cannot be told.
pub open spec fn lives_of(rows: Seq<Seq<u64>>, upto: nat) -> Result<Lives, SummaryError>
    decreases upto,
{
    if upto == 0 {
        Ok(Lives { lives: Map::empty(), left: Map::empty() })
    } else {
        match lives_of(rows, (upto - 1) as nat) {
            Err(e) => Err(e),
            Ok(before) => if !is_record(rows[upto - 1]) {
                Err(SummaryError::BadRecord((upto - 1) as usize))
            } else {
                lived(before, (upto - 1) as usize, message_of(rows[upto - 1]))
            },
        }
    }
}

/// The lives by reference, as plain values.
pub open spec fn life_views(lives: Map<u128, TrajectorySummary>) -> Map<u64, TrajectoryView> {
    Map::new(|r: u64| lives.contains_key(r as u128), |r: u64| lives[r as u128]@)
}

/// Whether the summaries tell the lives: one summary for each order and
/// no other, in the order of the references.
pub open spec fn tells(lives: Map<u64, TrajectoryView>, summaries: Seq<TrajectorySummary>) -> bool {
    &&& forall|i: int, j: int|
        0 <= i < j < summaries.len() ==> summaries[i].reference < summaries[j].reference
    &&& forall|i: int|
        0 <= i < summaries.len() ==> lives.contains_key((#[trigger] summaries[i]).reference)
            && lives[summaries[i].reference] == summaries[i]@
    &&& forall|r: u64| #[trigger]
        lives.contains_key(r) ==> exists|i: int|
            0 <= i < summaries.len() && (#[trigger] summaries[i]).reference == r
}

/// Tells the life of every order from the records of a day: one summary
/// for each order, in the order of the references.
pub fn create_trajectory_summaries(encoded_actions: &Vec<Vec<u64>>) -> (result: Result<
    Vec<TrajectorySummary>,
    SummaryError,
>)
    ensures
        match lives_of(crate::nasdaq::replay::record_rows(encoded_actions@), encoded_actions@.len()) {
            Err(e) => result == Err::<Vec<TrajectorySummary>, SummaryError>(e),
            Ok(lives) => result matches Ok(summaries) && tells(lives.lives, summaries@),
        },
{
    broadcast use vstd::std_specs::hash::group_hash_axioms;

    let ghost rows = crate::nasdaq::replay::record_rows(encoded_actions@);
    let mut left: HashMap<u64, u64> = HashMap::new();
    let mut summaries: BTreeMap<u128, TrajectorySummary> = BTreeMap::new();
    let mut index: usize = 0;
    proof {
        assert(life_views(summaries@) =~= Map::<u64, TrajectoryView>::empty());
    }
    while index < encoded_actions.len()
        invariant
            rows == crate::nasdaq::replay::record_rows(encoded_actions@),
            index <= encoded_actions@.len(),
            lives_of(rows, index as nat) == Ok::<Lives, SummaryError>(
                Lives { lives: life_views(summaries@), left: left@ },
            ),
            forall|k: u128| #[trigger]
                summaries@.contains_key(k) ==> k <= u64::MAX && summaries@[k].reference == k,
        decreases encoded_actions@.len() - index,
    {
        proof {
            assert(rows[index as int] == encoded_actions@[index as int]@);
            lemma_lives_fail_on(rows, (index + 1) as nat, encoded_actions@.len());
        }
        if !check_record(encoded_actions[index].as_slice()) {
            return Err(SummaryError::BadRecord(index));
        }
        let message = Message::from_record(encoded_actions[index].as_slice());
        let ghost before = Lives { lives: life_views(summaries@), left: left@ };
        let ghost old_summaries = summaries@;
        match message.body {
            Body::AddOrder { reference, shares, price, side, .. } => {
                if peek(&summaries, reference as u128).is_some() {
                    return Err(SummaryError::DuplicateOrder(index));
                }
                left.insert(reference, (shares as u32) as u64);
                put(
                    &mut summaries,
                    reference as u128,
                    TrajectorySummary::new_with_add(
                        message.time,
                        reference,
                        shares as u32,
                        price as u32,
                        side,
                    ),
                );
                proof {
                    lemma_life_put(old_summaries, summaries@, reference);
                }
            },
            Body::DeleteOrder { reference } => {
                if left.get(&reference).is_none() {
                    return Err(SummaryError::OrderNotFound(index));
                }
                let mut life = match take(&mut summaries, reference as u128) {
                    Some(life) => life,
                    None => {
                        return Err(SummaryError::OrderNotFound(index));
                    },
                };
                if life.executed_total().is_none() {
                    return Err(SummaryError::ExceedsShares(index));
                }
                let _ = left.remove(&reference);
                life.delete(message.time);
                put(&mut summaries, reference as u128, life);
                proof {
                    lemma_life_put(old_summaries, summaries@, reference);
                }
            },
            Body::OrderCancelled { reference, cancelled } => {
                let had: u64 = match left.get(&reference) {
                    Some(had) => *had,
                    None => {
                        return Err(SummaryError::OrderNotFound(index));
                    },
                };
                let mut life = match take(&mut summaries, reference as u128) {
                    Some(life) => life,
                    None => {
                        return Err(SummaryError::OrderNotFound(index));
                    },
                };
                if cancelled > had {
                    return Err(SummaryError::ExceedsShares(index));
                }
                left.insert(reference, had - cancelled);
                life.cancel(message.time, cancelled as u32);
                put(&mut summaries, reference as u128, life);
                proof {
                    lemma_life_put(old_summaries, summaries@, reference);
                }
            },
            Body::OrderExecuted { reference, executed } => {
                let had: u64 = match left.get(&reference) {
                    Some(had) => *had,
                    None => {
                        return Err(SummaryError::OrderNotFound(index));
                    },
                };
                let mut life = match take(&mut summaries, reference as u128) {
                    Some(life) => life,
                    None => {
                        return Err(SummaryError::OrderNotFound(index));
                    },
                };
                if executed > had {
                    return Err(SummaryError::ExceedsShares(index));
                }
                left.insert(reference, had - executed);
                life.execute(message.time, executed as u32);
                put(&mut summaries, reference as u128, life);
                proof {
                    lemma_life_put(old_summaries, summaries@, reference);
                }
            },
            Body::OrderExecutedWithPrice { reference, executed } => {
                let had: u64 = match left.get(&reference) {
                    Some(had) => *had,
                    None => {
                        return Err(SummaryError::OrderNotFound(index));
                    },
                };
                let mut life = match take(&mut summaries, reference as u128) {
                    Some(life) => life,
                    None => {
                        return Err(SummaryError::OrderNotFound(index));
                    },
                };
                if executed > had {
                    return Err(SummaryError::ExceedsShares(index));
                }
                left.insert(reference, had - executed);
                life.execute_with_price(message.time, executed as u32);
                put(&mut summaries, reference as u128, life);
                proof {
                    lemma_life_put(old_summaries, summaries@, reference);
                }
            },
            Body::ReplaceOrder { new_reference, shares, price, old_reference } => {
                let had: u64 = match left.get(&old_reference) {
                    Some(had) => *had,
                    None => {
                        return Err(SummaryError::OrderNotFound(index));
                    },
                };
                if peek(&summaries, old_reference as u128).is_none() {
                    return Err(SummaryError::OrderNotFound(index));
                }
                if peek(&summaries, new_reference as u128).is_some() {
                    return Err(SummaryError::DuplicateOrder(index));
                }
                let taken = take(&mut summaries, old_reference as u128);
                let mut life = taken.unwrap();
                let anew = life.replace_with(
                    message.time,
                    shares as u32,
                    had as u32,
                    price as u32,
                    new_reference,
                );
                put(&mut summaries, old_reference as u128, life);
                let ghost mid = summaries@;
                put(&mut summaries, new_reference as u128, anew);
                let _ = left.remove(&old_reference);
                left.insert(new_reference, shares);
                proof {
                    lemma_life_put(old_summaries, mid, old_reference);
                    lemma_life_put(mid, summaries@, new_reference);
                }
            },
            _ => {},
        }
        index += 1;
    }
    let keys = all_keys(&summaries);
    let mut out: Vec<TrajectorySummary> = Vec::new();
    let mut i: usize = 0;
    let ghost all = summaries@;
    proof {
        assert forall|k: int| 0 <= k < keys@.len() implies all.contains_key(#[trigger] keys@[k]) by {
            assert(keys@.contains(keys@[k]));
        }
    }
    while i < keys.len()
        invariant
            i <= keys@.len(),
            lists_keys(keys@, all),
            forall|k: u128| #[trigger] all.contains_key(k) ==> k <= u64::MAX && all[k].reference == k,
            forall|k: int| 0 <= k < keys@.len() ==> all.contains_key(#[trigger] keys@[k]),
            forall|k: int| i <= k < keys@.len() ==> summaries@.contains_key(#[trigger] keys@[k])
                && summaries@[keys@[k]] == all[keys@[k]],
            out@.len() == i,
            forall|k: int| 0 <= k < i ==> (#[trigger] out@[k]) == all[keys@[k]],
        decreases keys@.len() - i,
    {
        let ghost before = summaries@;
        let taken = take(&mut summaries, keys[i]);
        proof {
            assert forall|k: int| i + 1 <= k < keys@.len() implies summaries@.contains_key(
                #[trigger] keys@[k],
            ) && summaries@[keys@[k]] == all[keys@[k]] by {
                assert(keys@[i as int] < keys@[k]);
                assert(before.contains_key(keys@[k]));
            }
        }
        out.push(taken.unwrap());
        i += 1;
    }
    proof {
        let lives = life_views(all);
        assert forall|a: int, b: int| 0 <= a < b < out@.len() implies out@[a].reference
            < out@[b].reference by {
            assert(keys@[a] < keys@[b]);
            assert(all.contains_key(keys@[a]));
            assert(all.contains_key(keys@[b]));
        }
        assert forall|k: int| 0 <= k < out@.len() implies lives.contains_key(
            (#[trigger] out@[k]).reference,
        ) && lives[out@[k].reference] == out@[k]@ by {
            assert(all.contains_key(keys@[k]));
        }
        assert forall|r: u64| #[trigger] lives.contains_key(r) implies exists|k: int|
            0 <= k < out@.len() && (#[trigger] out@[k]).reference == r by {
            assert(keys@.contains(r as u128));
            let k = choose|k: int| 0 <= k < keys@.len() && keys@[k] == r as u128;
            assert(all.contains_key(keys@[k]));
            assert(out@[k].reference == r);
        }
        assert(tells(lives, out@));
    }
    Ok(out)
}

/// Where the events of the first records cannot be told, no more can the
/// events of all.
proof fn lemma_lives_fail_on(rows: Seq<Seq<u64>>, upto: nat, all: nat)
    requires
        upto <= all,
    ensures
        lives_of(rows, upto) matches Err(e) ==> lives_of(rows, all) == Err::<Lives, SummaryError>(e),
    decreases all - upto,
{
    if upto < all {
        lemma_lives_fail_on(rows, upto + 1, all);
    }
}

/// Putting a life under its reference puts its view under the reference.
proof fn lemma_life_put(
    before: Map<u128, TrajectorySummary>,
    after: Map<u128, TrajectorySummary>,
    reference: u64,
)
    requires
        after.contains_key(reference as u128),
        after == before.insert(reference as u128, after[reference as u128]) || after
            == before.remove(reference as u128).insert(reference as u128, after[reference as u128]),
    ensures
        life_views(after) == life_views(before).insert(reference, after[reference as u128]@),
{
    assert(life_views(after) =~= life_views(before).insert(reference, after[reference as u128]@));
}

} // verus!
