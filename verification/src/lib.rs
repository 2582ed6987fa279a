//! A dark-pool limit order book with an exhaustive pairwise matching engine.
//!
//! Traders submit buy/sell orders for a token pair with a limit price; the
//! engine scans the resting book for mirror-image crossing pairs, settles each
//! at the midpoint price, and emits match records for a separate settlement
//! step to consume. Caller identity and timestamps are supplied by the hosting
//! environment; the engine itself performs no I/O and moves no value.

pub mod book;
pub mod laws;
pub mod matching;
pub mod order;
