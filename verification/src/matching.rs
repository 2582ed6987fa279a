//! The matching engine: a single full pairwise pass over the book.
//!
//! `scan` is the spec-level model of the pass: it walks every unordered pair
//! `(i, j)` with `i < j` in book order (outer index ascending, inner index
//! ascending within each outer), settles each crossing pair at the midpoint
//! price, and zeroes both participants. `execute_match` is proved to produce
//! exactly the book and the match sequence that `scan` describes.

use vstd::arithmetic::div_mod::{
    lemma_div_is_ordered, lemma_fundamental_div_mod, lemma_fundamental_div_mod_converse,
};
use vstd::prelude::*;

use crate::book::ShadowBook;
use crate::order::{
    can_match_orders, deactivated, match_of, midpoint_price, MatchResult, Order, ShadowBookError,
    MATCH_GAS_ESTIMATE,
};

verus! {

/// One pair check of the pass: if both orders at `i` and `j` are still active
/// and compatible, emit their match record and zero both; otherwise leave the
/// book as it is.
pub open spec fn match_step(orders: Seq<Order>, i: int, j: int) -> (Seq<Order>, Option<
    MatchResult,
>) {
    let oi = orders[i];
    let oj = orders[j];
    if oi.amount > 0 && oj.amount > 0 && can_match_orders(oi, oj) {
        (
            orders.update(i, deactivated(oi)).update(j, deactivated(oj)),
            Some(match_of(oi, oj)),
        )
    } else {
        (orders, None)
    }
}

/// The match records of one optional match.
pub open spec fn opt_matches(m: Option<MatchResult>) -> Seq<MatchResult> {
    match m {
        Some(r) => seq![r],
        None => Seq::empty(),
    }
}

/// The rest of a matching pass, starting at pair `(i, j)`: check the pair,
/// continue with the inner index, and move to the next outer index when the
/// inner one runs off the book. Returns the book after the pass and the match
/// records in discovery order.
pub open spec fn scan(orders: Seq<Order>, i: int, j: int) -> (Seq<Order>, Seq<MatchResult>)
    decreases orders.len() - i, orders.len() - j,
{
    if i < 0 || j <= i || i >= orders.len() {
        (orders, Seq::empty())
    } else if j >= orders.len() {
        scan(orders, i + 1, i + 2)
    } else {
        let st = match_step(orders, i, j);
        let rest = scan(st.0, i, j + 1);
        (rest.0, opt_matches(st.1) + rest.1)
    }
}

/// A full matching pass over a book.
pub open spec fn match_pass(orders: Seq<Order>) -> (Seq<Order>, Seq<MatchResult>) {
    scan(orders, 0, 1)
}

/// `post` differs from `pre` at most by deactivating some orders: same
/// length, and every slot is either untouched or its inactive form.
pub open spec fn only_deactivates(pre: Seq<Order>, post: Seq<Order>) -> bool {
    &&& post.len() == pre.len()
    &&& forall|k: int|
        0 <= k < pre.len() ==> (#[trigger] post[k]) == pre[k] || post[k] == deactivated(pre[k])
}

pub proof fn lemma_only_deactivates_trans(a: Seq<Order>, b: Seq<Order>, c: Seq<Order>)
    requires
        only_deactivates(a, b),
        only_deactivates(b, c),
    ensures
        only_deactivates(a, c),
{
    assert forall|k: int| 0 <= k < a.len() implies (#[trigger] c[k]) == a[k] || c[k]
        == deactivated(a[k]) by {
        assert(b[k] == a[k] || b[k] == deactivated(a[k]));
        assert(c[k] == b[k] || c[k] == deactivated(b[k]));
    }
}

/// A scan never does anything to the book but deactivate orders: ids, token
/// pairs, limit prices, sides, traders and timestamps are immutable, and
/// amounts only ever move to zero.
pub proof fn lemma_scan_only_deactivates(orders: Seq<Order>, i: int, j: int)
    ensures
        only_deactivates(orders, scan(orders, i, j).0),
    decreases orders.len() - i, orders.len() - j,
{
    if i < 0 || j <= i || i >= orders.len() {
    } else if j >= orders.len() {
        lemma_scan_only_deactivates(orders, i + 1, i + 2);
    } else {
        let st = match_step(orders, i, j);
        lemma_scan_only_deactivates(st.0, i, j + 1);
        assert(only_deactivates(orders, st.0));
        lemma_only_deactivates_trans(orders, st.0, scan(st.0, i, j + 1).0);
    }
}

/// No crossing pair is left among the slots a scan from `(i, j)` still
/// visits: pair `(i, b)` for `b >= j`, and every pair from row `i + 1` on.
pub open spec fn no_cross_from(orders: Seq<Order>, i: int, j: int) -> bool {
    forall|a: int, b: int|
        0 <= a < b < orders.len() && (a > i || (a == i && b >= j)) && (#[trigger] orders[a]).amount
            > 0 && (#[trigger] orders[b]).amount > 0 ==> !can_match_orders(orders[a], orders[b])
}

/// After a scan from `(i, j)`, no crossing pair remains among the pairs that
/// the scan visited: whatever still crosses would have been settled.
pub proof fn lemma_scan_no_cross(orders: Seq<Order>, i: int, j: int)
    requires
        0 <= i < j,
    ensures
        no_cross_from(scan(orders, i, j).0, i, j),
    decreases orders.len() - i, orders.len() - j,
{
    if i >= orders.len() {
    } else if j >= orders.len() {
        lemma_scan_no_cross(orders, i + 1, i + 2);
        lemma_scan_only_deactivates(orders, i + 1, i + 2);
        let res = scan(orders, i + 1, i + 2).0;
        assert forall|a: int, b: int|
            0 <= a < b < res.len() && (a > i || (a == i && b >= j)) && (#[trigger] res[a]).amount
                > 0 && (#[trigger] res[b]).amount > 0 implies !can_match_orders(
            res[a],
            res[b],
        ) by {
            assert(res.len() == orders.len());
            assert(a > i);
            assert(a > i + 1 || (a == i + 1 && b >= i + 2));
        }
    } else {
        let st = match_step(orders, i, j);
        let res = scan(st.0, i, j + 1).0;
        lemma_scan_no_cross(st.0, i, j + 1);
        lemma_scan_only_deactivates(st.0, i, j + 1);
        assert forall|a: int, b: int|
            0 <= a < b < res.len() && (a > i || (a == i && b >= j)) && (#[trigger] res[a]).amount
                > 0 && (#[trigger] res[b]).amount > 0 implies !can_match_orders(
            res[a],
            res[b],
        ) by {
            if a == i && b == j {
                assert(res[a] == st.0[a] && st.0[a].amount > 0);
                assert(res[b] == st.0[b] && st.0[b].amount > 0);
                if orders[i].amount > 0 && orders[j].amount > 0 && can_match_orders(
                    orders[i],
                    orders[j],
                ) {
                    assert(st.0[i] == deactivated(orders[i]));
                    assert(st.0[i].amount == 0);
                } else {
                    assert(st.0 == orders);
                    assert(!can_match_orders(res[a], res[b]));
                }
            }
        }
    }
}

/// On a book where no pair the scan will visit can cross, the scan is a
/// no-op: the book is unchanged and no match record is produced.
pub proof fn lemma_scan_identity(orders: Seq<Order>, i: int, j: int)
    requires
        0 <= i < j,
        no_cross_from(orders, i, j),
    ensures
        scan(orders, i, j).0 == orders,
        scan(orders, i, j).1 == Seq::<MatchResult>::empty(),
    decreases orders.len() - i, orders.len() - j,
{
    if i >= orders.len() {
    } else if j >= orders.len() {
        assert(no_cross_from(orders, i + 1, i + 2));
        lemma_scan_identity(orders, i + 1, i + 2);
    } else {
        let st = match_step(orders, i, j);
        assert(st.0 == orders && st.1 is None);
        assert(no_cross_from(orders, i, j + 1));
        lemma_scan_identity(orders, i, j + 1);
        assert(opt_matches(st.1) + scan(st.0, i, j + 1).1 =~= Seq::<MatchResult>::empty());
    }
}

/// The truncating midpoint of two prices, computed without overflowing the
/// fixed-width price type.
pub fn midpoint(buy_price: u128, sell_price: u128) -> (r: u128)
    ensures
        r == midpoint_price(buy_price, sell_price),
{
    let half_buy = buy_price / 2;
    let half_sell = sell_price / 2;
    let carry: u128 = if buy_price % 2 == 1 && sell_price % 2 == 1 {
        1
    } else {
        0
    };
    proof {
        let b = buy_price as int;
        let s = sell_price as int;
        lemma_fundamental_div_mod(b, 2);
        lemma_fundamental_div_mod(s, 2);
        if b % 2 == 1 && s % 2 == 1 {
            lemma_fundamental_div_mod_converse(b + s, 2, b / 2 + s / 2 + 1, 0);
        } else {
            lemma_fundamental_div_mod_converse(b + s, 2, b / 2 + s / 2, b % 2 + s % 2);
        }
        lemma_div_is_ordered(b, u128::MAX as int, 2);
        lemma_div_is_ordered(s, u128::MAX as int, 2);
    }
    half_buy + half_sell + carry
}

impl ShadowBook {
    /// Pairwise compatibility test: opposite sides, exact mirror-image token
    /// pairs, and the buy limit price at or above the sell limit price.
    pub fn can_match(&self, order_a: &Order, order_b: &Order) -> (r: bool)
        ensures
            r == can_match_orders(*order_a, *order_b),
    {
        // Orders must be opposite sides.
        if order_a.is_buy == order_b.is_buy {
            return false;
        }

        // Token pairs must match (reversed).
        let tokens_match = order_a.token_in == order_b.token_out && order_a.token_out
            == order_b.token_in;
        if !tokens_match {
            return false;
        }

        // Determine which is buy and which is sell; the buy price must be at
        // or above the sell price for a match.
        if order_a.is_buy {
            order_a.limit_price >= order_b.limit_price
        } else {
            order_b.limit_price >= order_a.limit_price
        }
    }

    /// The execution terms of a single match: midpoint execution price and
    /// the smaller of the two remaining amounts.
    pub fn execute_single_match(&self, order_a: &Order, order_b: &Order) -> (r: MatchResult)
        ensures
            r == match_of(*order_a, *order_b),
    {
        let (buy_id, sell_id, buy_price, sell_price) = if order_a.is_buy {
            (order_a.id, order_b.id, order_a.limit_price, order_b.limit_price)
        } else {
            (order_b.id, order_a.id, order_b.limit_price, order_a.limit_price)
        };

        // Calculate execution price (midpoint).
        let execution_price = midpoint(buy_price, sell_price);

        // Calculate matched amount (minimum of both).
        let matched_amount = if order_a.amount < order_b.amount {
            order_a.amount
        } else {
            order_b.amount
        };

        MatchResult {
            buy_order_id: buy_id,
            sell_order_id: sell_id,
            execution_price,
            amount: matched_amount,
            gas_used: MATCH_GAS_ESTIMATE,
        }
    }

    /// Run one full matching pass: every unordered pair of active orders is
    /// tested in book order; each crossing pair is settled at the midpoint
    /// price for the smaller of the two amounts and both participants are
    /// zeroed (live amounts are re-read per pair, so no order matches twice
    /// in one pass). Returns the match records in discovery order.
    pub fn execute_match(&mut self) -> (r: Result<Vec<MatchResult>, ShadowBookError>)
        requires
            old(self).wf(),
        ensures
            final(self).wf(),
            final(self).next_order_id == old(self).next_order_id,
            final(self).paused == old(self).paused,
            old(self).paused ==> r == Err::<Vec<MatchResult>, ShadowBookError>(
                ShadowBookError::ContractPaused,
            ) && *final(self) == *old(self),
            !old(self).paused ==> (r matches Ok(ms) && ms@ == match_pass(old(self).orders@).1),
            !old(self).paused ==> final(self).orders@ == match_pass(old(self).orders@).0,
    {
        if self.paused {
            return Err(ShadowBookError::ContractPaused);
        }
        let mut matches: Vec<MatchResult> = Vec::new();
        let order_count = self.orders.len();

        proof {
            assert(Seq::<MatchResult>::empty() + scan(self.orders@, 0, 1).1 =~= scan(
                self.orders@,
                0,
                1,
            ).1);
        }

        let mut i: usize = 0;
        while i < order_count
            invariant
                self.wf(),
                self.next_order_id == old(self).next_order_id,
                self.paused == old(self).paused,
                order_count == self.orders@.len(),
                i <= order_count,
                scan(old(self).orders@, 0, 1).0 == scan(self.orders@, i as int, i as int + 1).0,
                scan(old(self).orders@, 0, 1).1 == matches@ + scan(
                    self.orders@,
                    i as int,
                    i as int + 1,
                ).1,
            decreases order_count - i,
        {
            let mut j: usize = i + 1;
            while j < order_count
                invariant
                    self.wf(),
                    self.next_order_id == old(self).next_order_id,
                    self.paused == old(self).paused,
                    order_count == self.orders@.len(),
                    i < order_count,
                    i < j <= order_count,
                    scan(old(self).orders@, 0, 1).0 == scan(self.orders@, i as int, j as int).0,
                    scan(old(self).orders@, 0, 1).1 == matches@ + scan(
                        self.orders@,
                        i as int,
                        j as int,
                    ).1,
                decreases order_count - j,
            {
                let ghost pre = self.orders@;
                let ghost matches0 = matches@;
                let ghost st = match_step(pre, i as int, j as int);

                let order_i = self.orders[i];
                let order_j = self.orders[j];

                // Skip if either side is already inactive (amount read live
                // from the book), then test compatibility.
                if order_i.amount != 0 && order_j.amount != 0 && self.can_match(
                    &order_i,
                    &order_j,
                ) {
                    // Execute the match and zero both participants.
                    let result = self.execute_single_match(&order_i, &order_j);
                    matches.push(result);
                    self.update_order_amount(i, 0);
                    self.update_order_amount(j, 0);
                    proof {
                        assert(st.1 == Some(result));
                        assert(self.orders@ == st.0);
                        assert(matches@ =~= matches0 + seq![result]);
                        assert((matches0 + seq![result]) + scan(st.0, i as int, j as int + 1).1
                            =~= matches0 + (seq![result] + scan(st.0, i as int, j as int + 1).1));
                    }
                } else {
                    proof {
                        assert(st.0 == pre && st.1 is None);
                        assert(opt_matches(st.1) + scan(st.0, i as int, j as int + 1).1 =~= scan(
                            st.0,
                            i as int,
                            j as int + 1,
                        ).1);
                    }
                }
                proof {
                    assert(scan(pre, i as int, j as int).0 == scan(st.0, i as int, j as int + 1).0);
                    assert(scan(pre, i as int, j as int).1 == opt_matches(st.1) + scan(
                        st.0,
                        i as int,
                        j as int + 1,
                    ).1);
                }
                j += 1;
            }
            proof {
                assert(scan(self.orders@, i as int, order_count as int) == scan(
                    self.orders@,
                    i as int + 1,
                    i as int + 2,
                ));
            }
            i += 1;
        }

        proof {
            assert(scan(self.orders@, order_count as int, order_count as int + 1).0
                == self.orders@);
            assert(matches@ + scan(self.orders@, order_count as int, order_count as int + 1).1
                =~= matches@);
        }
        Ok(matches)
    }
}

} // verus!
