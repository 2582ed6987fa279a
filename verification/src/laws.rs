//! Engine-wide laws, stated and proved over the spec-level model that the
//! executable functions are verified against.

use vstd::prelude::*;

use crate::book::{active_view, ShadowBook};
use crate::matching::{
    lemma_scan_identity, lemma_scan_no_cross, lemma_scan_only_deactivates, match_pass,
    no_cross_from, only_deactivates, scan,
};
use crate::order::{
    buy_side, can_match_orders, deactivated, match_of, sell_side, tokens_mirrored, MatchResult,
    Order,
};

verus! {

/// Id monotonicity: in a well-formed book the ids are exactly 0, 1, 2, ... in
/// insertion order, with no gaps and no reuse, and the next id to be assigned
/// is the slot count. Every operation preserves well-formedness, so this
/// holds across any interleaving of submissions, cancellations and matches.
pub proof fn lemma_ids_sequential(book: ShadowBook)
    requires
        book.wf(),
    ensures
        forall|i: int| 0 <= i < book.orders@.len() ==> (#[trigger] book.orders@[i]).id as int == i,
        book.next_order_id as int == book.orders@.len(),
{
}

/// Matching symmetry: pairwise compatibility does not depend on which of the
/// two orders rests earlier in the book.
pub proof fn lemma_can_match_symmetric(a: Order, b: Order)
    ensures
        can_match_orders(a, b) == can_match_orders(b, a),
{
}

/// Matching symmetry, execution terms: for a buy/sell pair the match record
/// is the same whichever side is encountered first.
pub proof fn lemma_match_of_symmetric(a: Order, b: Order)
    requires
        a.is_buy != b.is_buy,
    ensures
        match_of(a, b) == match_of(b, a),
{
}

/// Two orders on the same side never match, whatever their prices.
pub proof fn lemma_same_side_never_matches(a: Order, b: Order)
    requires
        a.is_buy == b.is_buy,
    ensures
        !can_match_orders(a, b),
{
}

/// Two orders whose token pairs are not exact mirrors never match, whatever
/// their prices.
pub proof fn lemma_unmirrored_never_matches(a: Order, b: Order)
    requires
        !tokens_mirrored(a, b),
    ensures
        !can_match_orders(a, b),
{
}

/// No cross: a pair whose buy limit price is below its sell limit price never
/// matches.
pub proof fn lemma_price_gap_never_matches(a: Order, b: Order)
    requires
        buy_side(a, b).limit_price < sell_side(a, b).limit_price,
    ensures
        !can_match_orders(a, b),
{
}

/// A two-order book whose orders are active and compatible settles to exactly
/// one match record, with both orders deactivated.
pub proof fn lemma_pair_book_matches(a: Order, b: Order)
    requires
        a.amount > 0,
        b.amount > 0,
        can_match_orders(a, b),
    ensures
        match_pass(seq![a, b]).0 == seq![deactivated(a), deactivated(b)],
        match_pass(seq![a, b]).1 == seq![match_of(a, b)],
{
    let s = seq![a, b];
    let s1 = s.update(0, deactivated(a)).update(1, deactivated(b));
    assert(s1 =~= seq![deactivated(a), deactivated(b)]);
    assert(scan(s1, 0, 2) == scan(s1, 1, 2));
    assert(scan(s1, 1, 2) == scan(s1, 2, 3));
    assert(scan(s1, 2, 3).0 == s1 && scan(s1, 2, 3).1 == Seq::<MatchResult>::empty());
    assert(match_pass(s).1 =~= seq![match_of(a, b)]);
}

/// A two-order book whose orders are not compatible is left untouched by a
/// matching pass, which produces no match record.
pub proof fn lemma_pair_book_no_match(a: Order, b: Order)
    requires
        !can_match_orders(a, b),
    ensures
        match_pass(seq![a, b]).0 == seq![a, b],
        match_pass(seq![a, b]).1 == Seq::<MatchResult>::empty(),
{
    let s = seq![a, b];
    assert(no_cross_from(s, 0, 1));
    lemma_scan_identity(s, 0, 1);
}

/// A matching pass only deactivates orders: every slot is either untouched or
/// zeroed, and every field but the amount is immutable.
pub proof fn lemma_match_pass_only_deactivates(orders: Seq<Order>)
    ensures
        only_deactivates(orders, match_pass(orders).0),
{
    lemma_scan_only_deactivates(orders, 0, 1);
}

/// After a matching pass, no crossing pair of active orders remains in the
/// book.
pub proof fn lemma_match_pass_no_cross_left(orders: Seq<Order>)
    ensures
        forall|a: int, b: int|
            0 <= a < b < match_pass(orders).0.len() && (#[trigger] match_pass(orders).0[a]).amount
                > 0 && (#[trigger] match_pass(orders).0[b]).amount > 0 ==> !can_match_orders(
                match_pass(orders).0[a],
                match_pass(orders).0[b],
            ),
{
    lemma_scan_no_cross(orders, 0, 1);
}

/// Idempotent re-run: a second matching pass with no intervening submission
/// finds nothing — it leaves the book unchanged and produces no match record.
pub proof fn lemma_match_pass_idempotent(orders: Seq<Order>)
    ensures
        match_pass(match_pass(orders).0).0 == match_pass(orders).0,
        match_pass(match_pass(orders).0).1 == Seq::<MatchResult>::empty(),
{
    lemma_scan_no_cross(orders, 0, 1);
    lemma_scan_identity(match_pass(orders).0, 0, 1);
}

/// The active view never includes an inactive order: every order it holds
/// has a positive remaining amount (and it holds them in insertion order, by
/// construction).
pub proof fn lemma_active_view_positive(orders: Seq<Order>)
    ensures
        forall|k: int|
            0 <= k < active_view(orders).len() ==> (#[trigger] active_view(orders)[k]).amount > 0,
    decreases orders.len(),
{
    if orders.len() > 0 {
        lemma_active_view_positive(orders.drop_last());
        let rest = active_view(orders.drop_last());
        assert forall|k: int|
            0 <= k < active_view(orders).len() implies (#[trigger] active_view(
            orders,
        )[k]).amount > 0 by {
            if k < rest.len() {
                assert(active_view(orders)[k] == rest[k]);
            }
        }
    }
}

/// Every order in the active view comes from a slot of the book.
pub proof fn lemma_active_view_members(orders: Seq<Order>)
    ensures
        forall|k: int|
            0 <= k < active_view(orders).len() ==> exists|i: int|
                0 <= i < orders.len() && (#[trigger] active_view(orders)[k]) == orders[i],
    decreases orders.len(),
{
    if orders.len() > 0 {
        lemma_active_view_members(orders.drop_last());
        let rest = active_view(orders.drop_last());
        assert forall|k: int| 0 <= k < active_view(orders).len() implies exists|i: int|
            0 <= i < orders.len() && (#[trigger] active_view(orders)[k]) == orders[i] by {
            if k < rest.len() {
                assert(active_view(orders)[k] == rest[k]);
                let i = choose|i: int|
                    0 <= i < orders.drop_last().len() && rest[k] == orders.drop_last()[i];
                assert(active_view(orders)[k] == orders[i]);
            } else {
                assert(active_view(orders)[k] == orders[orders.len() - 1]);
            }
        }
    }
}

/// The active view preserves insertion order: where the book's ids increase
/// with position, they increase along the active view too.
pub proof fn lemma_active_view_ordered(orders: Seq<Order>)
    requires
        forall|i: int, j: int|
            0 <= i < j < orders.len() ==> (#[trigger] orders[i]).id < (#[trigger] orders[j]).id,
    ensures
        forall|p: int, q: int|
            0 <= p < q < active_view(orders).len() ==> (#[trigger] active_view(orders)[p]).id < (
            #[trigger] active_view(orders)[q]).id,
    decreases orders.len(),
{
    if orders.len() > 0 {
        lemma_active_view_ordered(orders.drop_last());
        lemma_active_view_members(orders.drop_last());
        let rest = active_view(orders.drop_last());
        assert forall|p: int, q: int|
            0 <= p < q < active_view(orders).len() implies (#[trigger] active_view(
            orders,
        )[p]).id < (#[trigger] active_view(orders)[q]).id by {
            if q < rest.len() {
                assert(active_view(orders)[p] == rest[p]);
                assert(active_view(orders)[q] == rest[q]);
            } else {
                // The push case: q picks the book's last order, and p some
                // earlier slot, whose id is smaller.
                assert(active_view(orders)[q] == orders[orders.len() - 1]);
                assert(active_view(orders)[p] == rest[p]);
                let i = choose|i: int|
                    0 <= i < orders.drop_last().len() && rest[p] == orders.drop_last()[i];
                assert(rest[p] == orders[i] && i < orders.len() - 1);
            }
        }
    }
}

/// In a well-formed book the active view lists orders in insertion order:
/// their ids are strictly increasing.
pub proof fn lemma_active_orders_insertion_ordered(book: ShadowBook)
    requires
        book.wf(),
    ensures
        forall|p: int, q: int|
            0 <= p < q < active_view(book.orders@).len() ==> (#[trigger] active_view(
                book.orders@,
            )[p]).id < (#[trigger] active_view(book.orders@)[q]).id,
{
    lemma_active_view_ordered(book.orders@);
}

/// The active view misses nothing: every order with a positive remaining
/// amount appears in it.
pub proof fn lemma_active_view_complete(orders: Seq<Order>, i: int)
    requires
        0 <= i < orders.len(),
        orders[i].amount > 0,
    ensures
        active_view(orders).contains(orders[i]),
    decreases orders.len(),
{
    if i == orders.len() - 1 {
        assert(active_view(orders).last() == orders[i]);
    } else {
        lemma_active_view_complete(orders.drop_last(), i);
        let rest = active_view(orders.drop_last());
        let k = choose|k: int| 0 <= k < rest.len() && rest[k] == orders[i];
        assert(active_view(orders)[k] == orders[i]);
    }
}

} // verus!
