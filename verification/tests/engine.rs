use shadow_book::book::ShadowBook;
use shadow_book::order::{Order, ShadowBookError, MATCH_GAS_ESTIMATE};

const A: u128 = 0xaa;
const B: u128 = 0xbb;
const C: u128 = 0xcc;
const ALICE: u128 = 1;
const BOB: u128 = 2;
const CAROL: u128 = 3;

fn submit(
    book: &mut ShadowBook,
    token_in: u128,
    token_out: u128,
    amount: u128,
    limit_price: u128,
    is_buy: bool,
    trader: u128,
) -> u64 {
    book.submit_order(token_in, token_out, amount, limit_price, is_buy, trader, 42)
        .expect("valid submission")
}

#[test]
fn ids_are_sequential() {
    let mut book = ShadowBook::new();
    assert_eq!(submit(&mut book, A, B, 10, 100, true, ALICE), 0);
    assert_eq!(submit(&mut book, B, A, 5, 90, false, BOB), 1);
    assert_eq!(submit(&mut book, A, C, 7, 50, true, CAROL), 2);
    assert_eq!(book.order_count(), 3);
}

#[test]
fn ids_continue_across_cancellations() {
    let mut book = ShadowBook::new();
    assert_eq!(submit(&mut book, A, B, 10, 100, true, ALICE), 0);
    assert_eq!(book.cancel_order(0, ALICE), Ok(()));
    assert_eq!(submit(&mut book, A, B, 10, 100, true, ALICE), 1);
    assert_eq!(submit(&mut book, B, A, 4, 90, false, BOB), 2);
    assert_eq!(book.order_count(), 3);
}

#[test]
fn rejected_submissions_assign_no_id() {
    let mut book = ShadowBook::new();
    assert_eq!(
        book.submit_order(A, B, 0, 100, true, ALICE, 42),
        Err(ShadowBookError::InvalidOrder)
    );
    assert_eq!(submit(&mut book, A, B, 1, 100, true, ALICE), 0);
}

#[test]
fn submit_zero_amount_fails() {
    let mut book = ShadowBook::new();
    assert_eq!(
        book.submit_order(A, B, 0, 100, true, ALICE, 42),
        Err(ShadowBookError::InvalidOrder)
    );
    assert_eq!(book.order_count(), 0);
}

#[test]
fn submit_identical_tokens_fails() {
    let mut book = ShadowBook::new();
    assert_eq!(
        book.submit_order(A, A, 10, 100, true, ALICE, 42),
        Err(ShadowBookError::InvalidOrder)
    );
    assert_eq!(book.order_count(), 0);
}

#[test]
fn submit_null_token_fails() {
    let mut book = ShadowBook::new();
    assert_eq!(
        book.submit_order(0, B, 10, 100, true, ALICE, 42),
        Err(ShadowBookError::InvalidOrder)
    );
    assert_eq!(
        book.submit_order(A, 0, 10, 100, true, ALICE, 42),
        Err(ShadowBookError::InvalidOrder)
    );
    assert_eq!(book.order_count(), 0);
}

#[test]
fn cancel_by_stranger_is_unauthorized() {
    let mut book = ShadowBook::new();
    let id = submit(&mut book, A, B, 10, 100, true, ALICE);
    assert_eq!(book.cancel_order(id, BOB), Err(ShadowBookError::Unauthorized));
    let active = book.get_orders();
    assert_eq!(active.len(), 1);
    assert_eq!(active[0].amount, 10);
}

#[test]
fn cancel_by_trader_zeroes_amount() {
    let mut book = ShadowBook::new();
    let id = submit(&mut book, A, B, 10, 100, true, ALICE);
    assert_eq!(book.cancel_order(id, ALICE), Ok(()));
    assert!(book.get_orders().is_empty());
    let order = book.get_order_at(0).expect("slot remains");
    assert_eq!(order.amount, 0);
    assert_eq!(book.order_count(), 1);
}

#[test]
fn cancel_twice_succeeds_silently() {
    let mut book = ShadowBook::new();
    let id = submit(&mut book, A, B, 10, 100, true, ALICE);
    assert_eq!(book.cancel_order(id, ALICE), Ok(()));
    assert_eq!(book.cancel_order(id, ALICE), Ok(()));
}

#[test]
fn cancel_unknown_id_is_not_found() {
    let mut book = ShadowBook::new();
    assert_eq!(book.cancel_order(7, ALICE), Err(ShadowBookError::OrderNotFound));
    submit(&mut book, A, B, 10, 100, true, ALICE);
    assert_eq!(book.cancel_order(7, ALICE), Err(ShadowBookError::OrderNotFound));
    assert_eq!(book.cancel_order(7, BOB), Err(ShadowBookError::OrderNotFound));
}

#[test]
fn crossing_pair_matches_at_midpoint() {
    let mut book = ShadowBook::new();
    let buy_id = submit(&mut book, A, B, 5, 100, true, ALICE);
    let sell_id = submit(&mut book, B, A, 5, 90, false, BOB);
    let matches = book.execute_match().expect("pass runs");
    assert_eq!(matches.len(), 1);
    assert_eq!(matches[0].buy_order_id, buy_id);
    assert_eq!(matches[0].sell_order_id, sell_id);
    assert_eq!(matches[0].execution_price, 95);
    assert_eq!(matches[0].amount, 5);
    assert_eq!(matches[0].gas_used, MATCH_GAS_ESTIMATE);
    assert_eq!(book.get_order_at(0).unwrap().amount, 0);
    assert_eq!(book.get_order_at(1).unwrap().amount, 0);
}

#[test]
fn matching_is_symmetric_in_submission_order() {
    let mut book = ShadowBook::new();
    let sell_id = submit(&mut book, B, A, 5, 90, false, BOB);
    let buy_id = submit(&mut book, A, B, 5, 100, true, ALICE);
    let matches = book.execute_match().expect("pass runs");
    assert_eq!(matches.len(), 1);
    assert_eq!(matches[0].buy_order_id, buy_id);
    assert_eq!(matches[0].sell_order_id, sell_id);
    assert_eq!(matches[0].execution_price, 95);
    assert_eq!(matches[0].amount, 5);
}

#[test]
fn price_gap_never_matches() {
    let mut book = ShadowBook::new();
    submit(&mut book, A, B, 5, 80, true, ALICE);
    submit(&mut book, B, A, 5, 90, false, BOB);
    let matches = book.execute_match().expect("pass runs");
    assert!(matches.is_empty());
    let active = book.get_orders();
    assert_eq!(active.len(), 2);
    assert_eq!(active[0].amount, 5);
    assert_eq!(active[1].amount, 5);
}

#[test]
fn same_side_never_matches() {
    let mut book = ShadowBook::new();
    submit(&mut book, A, B, 5, 100, true, ALICE);
    submit(&mut book, B, A, 5, 90, true, BOB);
    let matches = book.execute_match().expect("pass runs");
    assert!(matches.is_empty());
    assert_eq!(book.get_orders().len(), 2);
}

#[test]
fn unmirrored_tokens_never_match() {
    let mut book = ShadowBook::new();
    submit(&mut book, A, B, 5, 100, true, ALICE);
    submit(&mut book, C, A, 5, 90, false, BOB);
    let matches = book.execute_match().expect("pass runs");
    assert!(matches.is_empty());
    assert_eq!(book.get_orders().len(), 2);
}

#[test]
fn rerun_finds_nothing() {
    let mut book = ShadowBook::new();
    submit(&mut book, A, B, 5, 100, true, ALICE);
    submit(&mut book, B, A, 5, 90, false, BOB);
    let first = book.execute_match().expect("pass runs");
    assert_eq!(first.len(), 1);
    let second = book.execute_match().expect("pass runs");
    assert!(second.is_empty());
    assert_eq!(book.get_order_at(0).unwrap().amount, 0);
    assert_eq!(book.get_order_at(1).unwrap().amount, 0);
}

#[test]
fn active_view_excludes_inactive_and_keeps_order() {
    let mut book = ShadowBook::new();
    submit(&mut book, A, B, 5, 100, true, ALICE);
    submit(&mut book, A, C, 6, 50, true, BOB);
    submit(&mut book, C, B, 7, 60, true, CAROL);
    assert_eq!(book.cancel_order(1, BOB), Ok(()));
    let active = book.get_orders();
    assert_eq!(active.len(), 2);
    assert_eq!(active[0].id, 0);
    assert_eq!(active[1].id, 2);
    assert!(active.iter().all(|o| o.amount > 0));
    // After a match the zeroed pair disappears from the view too.
    submit(&mut book, B, A, 5, 90, false, BOB);
    book.execute_match().expect("pass runs");
    let active = book.get_orders();
    assert_eq!(active.len(), 1);
    assert_eq!(active[0].id, 2);
}

#[test]
fn full_consumption_discards_leftover() {
    let mut book = ShadowBook::new();
    let buy_id = submit(&mut book, A, B, 10, 100, true, ALICE);
    let sell_id = submit(&mut book, B, A, 4, 95, false, BOB);
    let matches = book.execute_match().expect("pass runs");
    assert_eq!(matches.len(), 1);
    assert_eq!(matches[0].buy_order_id, buy_id);
    assert_eq!(matches[0].sell_order_id, sell_id);
    assert_eq!(matches[0].execution_price, 97);
    assert_eq!(matches[0].amount, 4);
    // Both orders are zeroed even though the buy order had 6 units left.
    assert_eq!(book.get_order_at(0).unwrap().amount, 0);
    assert_eq!(book.get_order_at(1).unwrap().amount, 0);
    assert!(book.get_orders().is_empty());
}

#[test]
fn matched_order_is_skipped_later_in_the_pass() {
    let mut book = ShadowBook::new();
    // The buy order crosses both sells; only the first pair in book order
    // settles, and the second sell stays active for a later pass.
    submit(&mut book, A, B, 10, 100, true, ALICE);
    submit(&mut book, B, A, 4, 95, false, BOB);
    submit(&mut book, B, A, 9, 95, false, CAROL);
    let matches = book.execute_match().expect("pass runs");
    assert_eq!(matches.len(), 1);
    assert_eq!(matches[0].buy_order_id, 0);
    assert_eq!(matches[0].sell_order_id, 1);
    let active = book.get_orders();
    assert_eq!(active.len(), 1);
    assert_eq!(active[0].id, 2);
    assert_eq!(active[0].amount, 9);
}

#[test]
fn multiple_disjoint_pairs_settle_in_book_order() {
    let mut book = ShadowBook::new();
    submit(&mut book, A, B, 5, 100, true, ALICE);
    submit(&mut book, C, B, 3, 40, true, CAROL);
    submit(&mut book, B, A, 5, 90, false, BOB);
    submit(&mut book, B, C, 3, 30, false, BOB);
    let matches = book.execute_match().expect("pass runs");
    assert_eq!(matches.len(), 2);
    assert_eq!(matches[0].buy_order_id, 0);
    assert_eq!(matches[0].sell_order_id, 2);
    assert_eq!(matches[0].execution_price, 95);
    assert_eq!(matches[1].buy_order_id, 1);
    assert_eq!(matches[1].sell_order_id, 3);
    assert_eq!(matches[1].execution_price, 35);
    assert!(book.get_orders().is_empty());
}

#[test]
fn midpoint_truncates() {
    let mut book = ShadowBook::new();
    submit(&mut book, A, B, 1, 100, true, ALICE);
    submit(&mut book, B, A, 1, 95, false, BOB);
    let matches = book.execute_match().expect("pass runs");
    assert_eq!(matches[0].execution_price, 97);
}

#[test]
fn midpoint_handles_extreme_prices() {
    let mut book = ShadowBook::new();
    submit(&mut book, A, B, 1, u128::MAX, true, ALICE);
    submit(&mut book, B, A, 1, u128::MAX - 1, false, BOB);
    let matches = book.execute_match().expect("pass runs");
    assert_eq!(matches.len(), 1);
    assert_eq!(matches[0].execution_price, u128::MAX - 1);
}

#[test]
fn paused_book_refuses_mutations() {
    let mut book = ShadowBook::new();
    submit(&mut book, A, B, 5, 100, true, ALICE);
    book.set_paused(true);
    assert_eq!(
        book.submit_order(B, A, 5, 90, false, BOB, 42),
        Err(ShadowBookError::ContractPaused)
    );
    assert_eq!(book.cancel_order(0, ALICE), Err(ShadowBookError::ContractPaused));
    assert_eq!(book.execute_match(), Err(ShadowBookError::ContractPaused));
    book.set_paused(false);
    assert_eq!(book.cancel_order(0, ALICE), Ok(()));
}

#[test]
fn order_count_counts_all_slots() {
    let mut book = ShadowBook::new();
    assert_eq!(book.order_count(), 0);
    submit(&mut book, A, B, 5, 100, true, ALICE);
    submit(&mut book, B, A, 5, 90, false, BOB);
    book.execute_match().expect("pass runs");
    assert_eq!(book.cancel_order(0, ALICE), Ok(()));
    assert_eq!(book.order_count(), 2);
    assert!(book.get_orders().is_empty());
}

#[test]
fn get_order_at_reads_any_slot() {
    let mut book = ShadowBook::new();
    submit(&mut book, A, B, 5, 100, true, ALICE);
    let order = book.get_order_at(0).expect("slot exists");
    assert_eq!(
        order,
        Order {
            id: 0,
            trader: ALICE,
            token_in: A,
            token_out: B,
            amount: 5,
            limit_price: 100,
            is_buy: true,
            timestamp: 42,
        }
    );
    assert_eq!(book.get_order_at(1), None);
}

#[test]
fn empty_pass_is_not_an_error() {
    let mut book = ShadowBook::new();
    let matches = book.execute_match().expect("pass runs");
    assert!(matches.is_empty());
}
