//! The orders of one participant: those that wait, those that were
//! executed and those that were cancelled.
use vstd::prelude::*;
use crate::collections::book::{Error, Order, OrderBook, OrderPrice, OrderView};
use crate::collections::side_book::{pushed, queue_at};
use crate::collections::tally::resting_volume;
use crate::collections::Side;

verus! {

/// What is kept with an execution: the order that was executed, the price
/// that it had asked for, and what the order carried along.
#[derive(Clone, PartialEq, Eq, Hash, Debug)]
pub struct ExecInfo<K, L, I> {
    pub origin_id: K,
    pub order_price: OrderPrice<L>,
    pub info: I,
}

impl<K, L, I> ExecInfo<K, L, I> {
    pub fn from_reduced(origin_id: K, order_price: OrderPrice<L>, info: I) -> (exec_info: Self)
        ensures
            exec_info == (ExecInfo { origin_id, order_price, info }),
    {
        ExecInfo { origin_id, order_price, info }
    }
}

/// An execution, in the book of executions: at the price at which it was done.
pub type ExecOrder<K, L, Q, I> = Order<L, Q, ExecInfo<K, L, I>>;

/// What is kept with a cancellation: the order that was cancelled, and what
/// the order carried along.
#[derive(Clone, PartialEq, Eq, Hash, Debug)]
pub struct CancelInfo<K, I> {
    pub origin_id: K,
    pub info: I,
}

impl<K, I> CancelInfo<K, I> {
    pub fn from_reduced(origin_id: K, info: I) -> (cancel_info: Self)
        ensures
            cancel_info == (CancelInfo { origin_id, info }),
    {
        CancelInfo { origin_id, info }
    }
}

/// A cancellation, in the book of cancellations: at the price that the
/// order had asked for.
pub type CancelOrder<K, L, Q, I> = Order<OrderPrice<L>, Q, CancelInfo<K, I>>;

/// The orders of one participant in three books.
#[derive(Clone, Debug)]
pub struct Account<I = ()> {
    pending: OrderBook<OrderPrice<u64>, I>,
    executed: OrderBook<u64, ExecInfo<u64, u64, I>>,
    cancelled: OrderBook<OrderPrice<u64>, CancelInfo<u64, I>>,
}

/// What is taken from an order that has so much left: what is asked for,
/// or all of it where nothing or more is asked for.
pub open spec fn taken(left: u64, quantity: Option<u64>) -> u64 {
    match quantity {
        Some(q) => if q < left {
            q
        } else {
            left
        },
        None => left,
    }
}

impl<I> Account<I> {
    /// The orders that wait.
    pub closed spec fn spec_pending(&self) -> OrderBook<OrderPrice<u64>, I> {
        self.pending
    }

    /// The executions.
    pub closed spec fn spec_executed(&self) -> OrderBook<u64, ExecInfo<u64, u64, I>> {
        self.executed
    }

    /// The cancellations.
    pub closed spec fn spec_cancelled(&self) -> OrderBook<OrderPrice<u64>, CancelInfo<u64, I>> {
        self.cancelled
    }

    /// The three books are sound.
    pub open spec fn wf(&self) -> bool {
        &&& self.spec_pending().wf()
        &&& self.spec_executed().wf()
        &&& self.spec_cancelled().wf()
    }

    /// Whether `after` is the book of waiting orders after so much has been
    /// taken from the order under an id: the order has left where it had no
    /// more than that, and has that much less where it had more.
    pub open spec fn pending_after(
        before: OrderBook<OrderPrice<u64>, I>,
        after: OrderBook<OrderPrice<u64>, I>,
        id: u64,
        quantity: Option<u64>,
    ) -> bool {
        let left = before.orders()[id].quantity;
        if taken(left, quantity) == left {
            before.without_order(&after, id)
        } else {
            before.with_less(&after, id, taken(left, quantity))
        }
    }

    pub fn new() -> (account: Self)
        ensures
            account.wf(),
            account.spec_pending().orders() == Map::<u64, Order<OrderPrice<u64>, u64, I>>::empty(),
            account.spec_executed().orders() == Map::<
                u64,
                Order<u64, u64, ExecInfo<u64, u64, I>>,
            >::empty(),
            account.spec_cancelled().orders() == Map::<
                u64,
                Order<OrderPrice<u64>, u64, CancelInfo<u64, I>>,
            >::empty(),
    {
        Self { pending: OrderBook::new(), executed: OrderBook::new(), cancelled: OrderBook::new() }
    }

    pub fn pending(&self) -> (book: &OrderBook<OrderPrice<u64>, I>)
        ensures
            *book == self.spec_pending(),
    {
        &self.pending
    }

    pub fn executed(&self) -> (book: &OrderBook<u64, ExecInfo<u64, u64, I>>)
        ensures
            *book == self.spec_executed(),
    {
        &self.executed
    }

    pub fn cancelled(&self) -> (book: &OrderBook<OrderPrice<u64>, CancelInfo<u64, I>>)
        ensures
            *book == self.spec_cancelled(),
    {
        &self.cancelled
    }

    /// Puts an order among those that wait.
    pub fn order(&mut self, id: u64, side: Side, price: OrderPrice<u64>, quantity: u64, info: I) -> (result:
        Result<(), Error>)
        requires
            old(self).wf(),
            resting_volume(old(self).spec_pending().orders(), side, price) + quantity <= u64::MAX,
        ensures
            final(self).wf(),
            final(self).spec_executed() == old(self).spec_executed(),
            final(self).spec_cancelled() == old(self).spec_cancelled(),
            match result {
                Ok(_) => {
                    &&& !old(self).spec_pending().orders().contains_key(id)
                    &&& old(self).spec_pending().with_order(
                        &final(self).spec_pending(),
                        id,
                        Order { side, price, quantity, info },
                        pushed(
                            old(self).spec_pending().joined_queue(side, price, id),
                            id,
                            quantity,
                        ),
                    )
                },
                Err(e) => {
                    &&& e == Error::KeyAlreadyExists
                    &&& old(self).spec_pending().orders().contains_key(id)
                    &&& final(self).spec_pending() == old(self).spec_pending()
                },
            },
    {
        match self.pending.insert(id, side, price, quantity, info) {
            Ok(_) => Ok(()),
            Err(e) => Err(e),
        }
    }
}

impl<I: Clone> Account<I> {
    /// Takes a quantity from a waiting order, or all of it: what is left
    /// of the order where no quantity is given. Returns the side and the
    /// price of the order, what was taken, and what the order carried along,
    /// or a clone of it where the order stays.
    fn take(&mut self, origin_id: u64, quantity: Option<u64>) -> (part: Option<
        (Side, OrderPrice<u64>, u64, I),
    >)
        requires
            old(self).wf(),
        ensures
            final(self).wf(),
            final(self).spec_executed() == old(self).spec_executed(),
            final(self).spec_cancelled() == old(self).spec_cancelled(),
            match part {
                None => !old(self).spec_pending().orders().contains_key(origin_id)
                    && final(self).spec_pending() == old(self).spec_pending(),
                Some((side, price, quantity_taken, info)) => {
                    let order = old(self).spec_pending().orders()[origin_id];
                    &&& old(self).spec_pending().orders().contains_key(origin_id)
                    &&& side == order.side
                    &&& price == order.price
                    &&& quantity_taken == taken(order.quantity, quantity)
                    &&& if quantity_taken == order.quantity {
                        info == order.info
                    } else {
                        cloned(order.info, info)
                    }
                    &&& Self::pending_after(
                        old(self).spec_pending(),
                        final(self).spec_pending(),
                        origin_id,
                        quantity,
                    )
                },
            },
    {
        match quantity {
            Some(quantity) => {
                match self.pending.reduce(&origin_id, quantity) {
                    Some(OrderView::Full(order)) => Some(
                        (order.side, order.price, order.quantity, order.info),
                    ),
                    Some(OrderView::Partial(part)) => Some(
                        (*part.side, *part.price, part.quantity, part.info.clone()),
                    ),
                    None => None,
                }
            },
            None => {
                match self.pending.remove(&origin_id) {
                    Some(order) => Some((order.side, order.price, order.quantity, order.info)),
                    None => None,
                }
            },
        }
    }

    /// Cancels a quantity of a waiting order, or all of it where none is
    /// given, and puts the cancellation into the book of cancellations.
    ///
    /// Where the cancellation is refused because its id is taken, the
    /// waiting order is cancelled all the same.
    pub fn cancel(&mut self, id: u64, origin_id: u64, quantity: Option<u64>) -> (result: Result<
        &CancelOrder<u64, u64, u64, I>,
        Error,
    >)
        requires
            old(self).wf(),
            old(self).spec_pending().orders().contains_key(origin_id) ==> resting_volume(
                old(self).spec_cancelled().orders(),
                old(self).spec_pending().orders()[origin_id].side,
                old(self).spec_pending().orders()[origin_id].price,
            ) + taken(old(self).spec_pending().orders()[origin_id].quantity, quantity) <= u64::MAX,
        ensures
            final(self).wf(),
            final(self).spec_executed() == old(self).spec_executed(),
            !old(self).spec_pending().orders().contains_key(origin_id) ==> result == Err::<
                &CancelOrder<u64, u64, u64, I>,
                Error,
            >(Error::OrderNotFound) && final(self).spec_pending() == old(self).spec_pending()
                && final(self).spec_cancelled() == old(self).spec_cancelled(),
            old(self).spec_pending().orders().contains_key(origin_id) ==> {
                let order = old(self).spec_pending().orders()[origin_id];
                &&& Self::pending_after(
                    old(self).spec_pending(),
                    final(self).spec_pending(),
                    origin_id,
                    quantity,
                )
                &&& match result {
                    Ok(cancellation) => {
                        &&& !old(self).spec_cancelled().orders().contains_key(id)
                        &&& cancellation.side == order.side
                        &&& cancellation.price == order.price
                        &&& cancellation.quantity == taken(order.quantity, quantity)
                        &&& cancellation.info.origin_id == origin_id
                        &&& if cancellation.quantity == order.quantity {
                            cancellation.info.info == order.info
                        } else {
                            cloned(order.info, cancellation.info.info)
                        }
                        &&& old(self).spec_cancelled().with_order(
                            &final(self).spec_cancelled(),
                            id,
                            *cancellation,
                            pushed(
                                old(self).spec_cancelled().joined_queue(
                                    order.side,
                                    order.price,
                                    id,
                                ),
                                id,
                                cancellation.quantity,
                            ),
                        )
                    },
                    Err(e) => {
                        &&& e == Error::KeyAlreadyExists
                        &&& old(self).spec_cancelled().orders().contains_key(id)
                        &&& final(self).spec_cancelled() == old(self).spec_cancelled()
                    },
                }
            },
    {
        match self.take(origin_id, quantity) {
            Some((side, price, quantity, info)) => {
                let cancel_info = CancelInfo::from_reduced(origin_id, info);
                self.cancelled.insert(id, side, price, quantity, cancel_info)
            },
            None => Err(Error::OrderNotFound),
        }
    }

    /// Executes a quantity of a waiting order at a price, and puts the
    /// execution into the book of executions.
    ///
    /// Where the execution is refused because its id is taken, the waiting
    /// order is executed all the same.
    pub fn execute(&mut self, id: u64, origin_id: u64, price: u64, quantity: u64) -> (result: Result<
        &ExecOrder<u64, u64, u64, I>,
        Error,
    >)
        requires
            old(self).wf(),
            old(self).spec_pending().orders().contains_key(origin_id) ==> resting_volume(
                old(self).spec_executed().orders(),
                old(self).spec_pending().orders()[origin_id].side,
                price,
            ) + taken(old(self).spec_pending().orders()[origin_id].quantity, Some(quantity))
                <= u64::MAX,
        ensures
            final(self).wf(),
            final(self).spec_cancelled() == old(self).spec_cancelled(),
            !old(self).spec_pending().orders().contains_key(origin_id) ==> result == Err::<
                &ExecOrder<u64, u64, u64, I>,
                Error,
            >(Error::OrderNotFound) && final(self).spec_pending() == old(self).spec_pending()
                && final(self).spec_executed() == old(self).spec_executed(),
            old(self).spec_pending().orders().contains_key(origin_id) ==> {
                let order = old(self).spec_pending().orders()[origin_id];
                &&& Self::pending_after(
                    old(self).spec_pending(),
                    final(self).spec_pending(),
                    origin_id,
                    Some(quantity),
                )
                &&& match result {
                    Ok(execution) => {
                        &&& !old(self).spec_executed().orders().contains_key(id)
                        &&& execution.side == order.side
                        &&& execution.price == price
                        &&& execution.quantity == taken(order.quantity, Some(quantity))
                        &&& execution.info.origin_id == origin_id
                        &&& execution.info.order_price == order.price
                        &&& if execution.quantity == order.quantity {
                            execution.info.info == order.info
                        } else {
                            cloned(order.info, execution.info.info)
                        }
                        &&& old(self).spec_executed().with_order(
                            &final(self).spec_executed(),
                            id,
                            *execution,
                            pushed(
                                old(self).spec_executed().joined_queue(order.side, price, id),
                                id,
                                execution.quantity,
                            ),
                        )
                    },
                    Err(e) => {
                        &&& e == Error::KeyAlreadyExists
                        &&& old(self).spec_executed().orders().contains_key(id)
                        &&& final(self).spec_executed() == old(self).spec_executed()
                    },
                }
            },
    {
        match self.take(origin_id, Some(quantity)) {
            Some((side, order_price, quantity, info)) => {
                let exec_info = ExecInfo::from_reduced(origin_id, order_price, info);
                self.executed.insert(id, side, price, quantity, exec_info)
            },
            None => Err(Error::OrderNotFound),
        }
    }
}

impl<I> Default for Account<I> {
    fn default() -> (account: Self)
        ensures
            account.wf(),
    {
        Self::new()
    }
}

} // verus!
