//! The order book: an append-mostly collection of orders with positional
//! identity, supporting submission, cancellation by the owning trader, and a
//! full-scan view of active orders.

use vstd::prelude::*;

use crate::order::{
    deactivated, valid_order_params, valid_tokens, Address, Order, ShadowBookError,
};

verus! {

/// The insertion-ordered subsequence of `orders` whose remaining amount is
/// positive: the active view of a book.
pub open spec fn active_view(orders: Seq<Order>) -> Seq<Order>
    decreases orders.len(),
{
    if orders.len() == 0 {
        Seq::empty()
    } else {
        let rest = active_view(orders.drop_last());
        if orders.last().amount > 0 {
            rest.push(orders.last())
        } else {
            rest
        }
    }
}

/// An order id occurs somewhere in the book.
pub open spec fn contains_id(orders: Seq<Order>, order_id: u64) -> bool {
    exists|i: int| 0 <= i < orders.len() && orders[i].id == order_id
}

/// The order book and its id counter, plus the externally-supplied paused
/// flag that halts all mutating operations.
pub struct ShadowBook {
    /// All orders ever admitted, in insertion order; inactive orders remain
    /// in place with `amount == 0`.
    pub orders: Vec<Order>,
    /// The id the next successful submission will receive; ids are assigned
    /// 0, 1, 2, ... and never reused.
    pub next_order_id: u64,
    /// While set, every mutating operation fails with `ContractPaused`.
    pub paused: bool,
}

impl ShadowBook {
    /// Well-formedness: the id of each order equals its position (ids are
    /// assigned sequentially and slots are never removed or reordered), the
    /// id counter equals the slot count, and every stored order carries a
    /// valid token pair.
    pub open spec fn wf(self) -> bool {
        &&& self.next_order_id as int == self.orders@.len()
        &&& forall|i: int|
            0 <= i < self.orders@.len() ==> (#[trigger] self.orders@[i]).id as int == i
        &&& forall|i: int|
            0 <= i < self.orders@.len() ==> valid_tokens(
                (#[trigger] self.orders@[i]).token_in,
                self.orders@[i].token_out,
            )
    }

    /// An empty, unpaused book.
    pub fn new() -> (book: Self)
        ensures
            book.wf(),
            book.orders@ == Seq::<Order>::empty(),
            book.next_order_id == 0,
            !book.paused,
    {
        ShadowBook { orders: Vec::new(), next_order_id: 0, paused: false }
    }

    /// Set the externally-supplied paused flag.
    pub fn set_paused(&mut self, paused: bool)
        ensures
            final(self).orders@ == old(self).orders@,
            final(self).next_order_id == old(self).next_order_id,
            final(self).paused == paused,
    {
        self.paused = paused;
    }

    /// Submit a new order. Rejects invalid parameters with `InvalidOrder`
    /// before any mutation; on success assigns the next sequential id and
    /// appends the order in active state, growing the book by one slot.
    pub fn submit_order(
        &mut self,
        token_in: Address,
        token_out: Address,
        amount: u128,
        limit_price: u128,
        is_buy: bool,
        trader: Address,
        timestamp: u64,
    ) -> (r: Result<u64, ShadowBookError>)
        requires
            old(self).wf(),
            old(self).next_order_id < u64::MAX,
        ensures
            final(self).wf(),
            final(self).paused == old(self).paused,
            old(self).paused ==> r == Err::<u64, ShadowBookError>(ShadowBookError::ContractPaused)
                && *final(self) == *old(self),
            !old(self).paused && !valid_order_params(token_in, token_out, amount) ==> r == Err::<
                u64,
                ShadowBookError,
            >(ShadowBookError::InvalidOrder) && *final(self) == *old(self),
            !old(self).paused && valid_order_params(token_in, token_out, amount) ==> {
                &&& r == Ok::<u64, ShadowBookError>(old(self).next_order_id)
                &&& final(self).orders@ == old(self).orders@.push(
                    Order {
                        id: old(self).next_order_id,
                        trader,
                        token_in,
                        token_out,
                        amount,
                        limit_price,
                        is_buy,
                        timestamp,
                    },
                )
                &&& final(self).next_order_id == old(self).next_order_id + 1
            },
    {
        if self.paused {
            return Err(ShadowBookError::ContractPaused);
        }
        if amount == 0 {
            return Err(ShadowBookError::InvalidOrder);
        }
        if token_in == token_out {
            return Err(ShadowBookError::InvalidOrder);
        }
        if token_in == 0 || token_out == 0 {
            return Err(ShadowBookError::InvalidOrder);
        }

        let order_id = self.next_order_id;
        self.next_order_id = order_id + 1;
        self.orders.push(
            Order { id: order_id, trader, token_in, token_out, amount, limit_price, is_buy, timestamp },
        );

        Ok(order_id)
    }

    /// Cancel the order with the given id. A missing id fails with
    /// `OrderNotFound` whoever the caller is; a caller other than the order's
    /// trader fails with `Unauthorized`; on success the order's amount is set
    /// to zero (already-inactive orders are a valid target and cancel again
    /// without error).
    pub fn cancel_order(&mut self, order_id: u64, caller: Address) -> (r: Result<
        (),
        ShadowBookError,
    >)
        requires
            old(self).wf(),
        ensures
            final(self).wf(),
            final(self).next_order_id == old(self).next_order_id,
            final(self).paused == old(self).paused,
            old(self).paused ==> r == Err::<(), ShadowBookError>(ShadowBookError::ContractPaused)
                && *final(self) == *old(self),
            !old(self).paused && !contains_id(old(self).orders@, order_id) ==> r == Err::<
                (),
                ShadowBookError,
            >(ShadowBookError::OrderNotFound) && *final(self) == *old(self),
            !old(self).paused && contains_id(old(self).orders@, order_id) && old(self).orders@[
                order_id as int
            ].trader != caller ==> r == Err::<(), ShadowBookError>(ShadowBookError::Unauthorized)
                && *final(self) == *old(self),
            !old(self).paused && contains_id(old(self).orders@, order_id) && old(self).orders@[
                order_id as int
            ].trader == caller ==> r == Ok::<(), ShadowBookError>(()) && final(self).orders@ == old(
                self,
            ).orders@.update(order_id as int, deactivated(old(self).orders@[order_id as int])),
    {
        if self.paused {
            return Err(ShadowBookError::ContractPaused);
        }
        let order_count = self.orders.len();

        let mut i: usize = 0;
        while i < order_count
            invariant
                self.wf(),
                !self.paused,
                self.orders == old(self).orders,
                self.next_order_id == old(self).next_order_id,
                self.paused == old(self).paused,
                order_count == self.orders@.len(),
                i <= order_count,
                forall|k: int| 0 <= k < i ==> (#[trigger] self.orders@[k]).id != order_id,
            decreases order_count - i,
        {
            let order = self.orders[i];
            if order.id == order_id {
                // Verify ownership before any mutation.
                if order.trader != caller {
                    return Err(ShadowBookError::Unauthorized);
                }
                proof {
                    assert(old(self).orders@[i as int].id == order_id);
                    assert(contains_id(old(self).orders@, order_id));
                    assert(i as int == order_id as int);
                }
                // Mark as cancelled by setting the amount to zero.
                let mut cancelled = order;
                cancelled.amount = 0;
                self.orders[i] = cancelled;
                return Ok(());
            }
            i += 1;
        }

        proof {
            assert(!contains_id(old(self).orders@, order_id));
        }
        Err(ShadowBookError::OrderNotFound)
    }

    /// All active orders, in insertion order. Read-only.
    pub fn get_orders(&self) -> (r: Vec<Order>)
        ensures
            r@ == active_view(self.orders@),
    {
        let mut active: Vec<Order> = Vec::new();
        let order_count = self.orders.len();

        let mut i: usize = 0;
        while i < order_count
            invariant
                order_count == self.orders@.len(),
                i <= order_count,
                active@ == active_view(self.orders@.take(i as int)),
            decreases order_count - i,
        {
            let order = self.orders[i];
            proof {
                let taken = self.orders@.take(i + 1);
                assert(taken.drop_last() =~= self.orders@.take(i as int));
                assert(taken.last() == self.orders@[i as int]);
            }
            if order.amount > 0 {
                active.push(order);
            }
            i += 1;
        }

        proof {
            assert(self.orders@.take(order_count as int) =~= self.orders@);
        }
        active
    }

    /// Total number of slots ever allocated, active and inactive alike.
    pub fn order_count(&self) -> (r: u64)
        ensures
            r as int == self.orders@.len(),
    {
        self.orders.len() as u64
    }

    /// The order at a book position, or `None` past the end.
    pub fn get_order_at(&self, index: usize) -> (r: Option<Order>)
        ensures
            index < self.orders@.len() ==> r == Some(self.orders@[index as int]),
            index >= self.orders@.len() ==> r is None,
    {
        if index < self.orders.len() {
            Some(self.orders[index])
        } else {
            None
        }
    }

    /// Overwrite the remaining amount of the order at a book position;
    /// positions past the end are left untouched.
    pub(crate) fn update_order_amount(&mut self, index: usize, new_amount: u128)
        ensures
            final(self).next_order_id == old(self).next_order_id,
            final(self).paused == old(self).paused,
            index < old(self).orders@.len() ==> final(self).orders@ == old(self).orders@.update(
                index as int,
                (Order { amount: new_amount, ..old(self).orders@[index as int] }),
            ),
            index >= old(self).orders@.len() ==> *final(self) == *old(self),
    {
        if index < self.orders.len() {
            let mut order = self.orders[index];
            order.amount = new_amount;
            self.orders[index] = order;
        }
    }
}

} // verus!
