//! Core data model: orders, match records, errors, and the spec-level
//! predicates that define order validity and pairwise compatibility.

use vstd::prelude::*;

verus! {

/// Opaque identity of a trader or a token, supplied by the hosting
/// environment. The value `0` is the null sentinel: no valid trader or token
/// identifier is `0`.
pub type Address = u128;

/// Advisory cost figure attached to every match record; not authoritative.
pub const MATCH_GAS_ESTIMATE: u128 = 21000;

/// A resting intent to trade `amount` units of `token_in` against `token_out`
/// at a limit price of `limit_price`.
///
/// Once created, every field but `amount` is immutable; `amount` only ever
/// moves toward zero. `amount == 0` is the sole inactive (filled or
/// cancelled) sentinel: there is no separate status field.
#[derive(Clone, Copy, Debug, PartialEq, Eq, Structural)]
pub struct Order {
    pub id: u64,
    pub trader: Address,
    pub token_in: Address,
    pub token_out: Address,
    pub amount: u128,
    pub limit_price: u128,
    pub is_buy: bool,
    pub timestamp: u64,
}

/// Immutable record of a completed pairing, emitted for an external
/// settlement step to consume.
#[derive(Clone, Copy, Debug, PartialEq, Eq, Structural)]
pub struct MatchResult {
    pub buy_order_id: u64,
    pub sell_order_id: u64,
    pub execution_price: u128,
    pub amount: u128,
    pub gas_used: u128,
}

/// Error taxonomy of the engine. `InsufficientBalance` is reserved for
/// callers that combine matching with balance checks, and `MatchingFailed`
/// for execution-term computation failures; the engine itself raises neither
/// (midpoint-price computation is total over the fixed-width price range).
#[derive(Clone, Copy, Debug, PartialEq, Eq, Structural)]
pub enum ShadowBookError {
    InvalidOrder,
    OrderNotFound,
    Unauthorized,
    ContractPaused,
    InsufficientBalance,
    MatchingFailed,
}

/// The two token identifiers of a submission must differ and must both be
/// non-null.
pub open spec fn valid_tokens(token_in: Address, token_out: Address) -> bool {
    &&& token_in != token_out
    &&& token_in != 0
    &&& token_out != 0
}

/// A submission is admitted exactly when its amount is nonzero and its token
/// pair is valid.
pub open spec fn valid_order_params(token_in: Address, token_out: Address, amount: u128) -> bool {
    &&& amount != 0
    &&& valid_tokens(token_in, token_out)
}

/// Two orders trade exact mirror-image token pairs.
pub open spec fn tokens_mirrored(a: Order, b: Order) -> bool {
    &&& a.token_in == b.token_out
    &&& a.token_out == b.token_in
}

/// The buy side of a pair of orders (meaningful when the two sides differ).
pub open spec fn buy_side(a: Order, b: Order) -> Order {
    if a.is_buy {
        a
    } else {
        b
    }
}

/// The sell side of a pair of orders (meaningful when the two sides differ).
pub open spec fn sell_side(a: Order, b: Order) -> Order {
    if a.is_buy {
        b
    } else {
        a
    }
}

/// Pairwise compatibility: opposite sides, mirror-image token pairs, and the
/// buy limit price at or above the sell limit price.
pub open spec fn can_match_orders(a: Order, b: Order) -> bool {
    &&& a.is_buy != b.is_buy
    &&& tokens_mirrored(a, b)
    &&& buy_side(a, b).limit_price >= sell_side(a, b).limit_price
}

/// The agreed execution price: the midpoint of the two limit prices, with
/// integer division truncating.
pub open spec fn midpoint_price(buy_price: u128, sell_price: u128) -> u128 {
    (((buy_price as int) + (sell_price as int)) / 2) as u128
}

/// The smaller of two remaining amounts.
pub open spec fn min_amount(a: u128, b: u128) -> u128 {
    if a < b {
        a
    } else {
        b
    }
}

/// The match record produced when orders `a` and `b` are paired.
pub open spec fn match_of(a: Order, b: Order) -> MatchResult {
    MatchResult {
        buy_order_id: buy_side(a, b).id,
        sell_order_id: sell_side(a, b).id,
        execution_price: midpoint_price(buy_side(a, b).limit_price, sell_side(a, b).limit_price),
        amount: min_amount(a.amount, b.amount),
        gas_used: MATCH_GAS_ESTIMATE,
    }
}

/// An order with its remaining amount forced to zero and every other field
/// kept: the inactive form of `o`.
pub open spec fn deactivated(o: Order) -> Order {
    Order { amount: 0, ..o }
}

} // verus!
