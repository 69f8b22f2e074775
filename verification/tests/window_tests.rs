//! Tests of window construction and the settled-in-window selection.

use starling_sync::model::{Currency, CurrencyValue, Direction, Status, Transaction};
use starling_sync::window::{
    select_settled_in_window, settled_between_query, changes_since_query, window_ending_at,
    TimeWindow, MS_PER_DAY,
};

fn tx_with_status(time: i64, uid: &str, status: Status) -> Transaction {
    Transaction {
        time,
        uid: String::from(uid),
        counterparty_name: String::from("shop"),
        direction: Direction::In,
        source_amount: CurrencyValue { pennies: 100, currency: Currency::GBP },
        reference: String::from("ref"),
        status,
    }
}

// 2024-01-01T00:00:00Z
const T: i64 = 1_704_067_200_000;

#[test]
fn trailing_window_has_exact_bounds() {
    let w = window_ending_at(T, 7).unwrap();
    assert_eq!(w.end_ms, T);
    assert_eq!(w.start_ms, T - 7 * MS_PER_DAY);
}

#[test]
fn settled_between_query_carries_window_bounds() {
    let q = settled_between_query(T, 7).unwrap();
    assert_eq!(q.min_transaction_timestamp_ms, T - 7 * MS_PER_DAY);
    assert_eq!(q.max_transaction_timestamp_ms, T);
}

#[test]
fn changes_since_query_reaches_back() {
    let q = changes_since_query(T, 7).unwrap();
    assert_eq!(q.changes_since_ms, T - 7 * MS_PER_DAY);
}

#[test]
fn oversized_day_count_builds_no_window() {
    let days = i64::MAX / MS_PER_DAY + 1;
    assert!(window_ending_at(T, days).is_none());
}

#[test]
fn window_before_representable_time_builds_no_window() {
    assert!(window_ending_at(i64::MIN + 5, 1).is_none());
}

#[test]
fn selection_obeys_the_window() {
    let w = TimeWindow { start_ms: T - 7 * MS_PER_DAY, end_ms: T };
    let eight_days_old = tx_with_status(T - 8 * MS_PER_DAY, "old", Status::Settled);
    let one_day_old = tx_with_status(T - 1 * MS_PER_DAY, "fresh", Status::Settled);
    let pending = tx_with_status(T - 1 * MS_PER_DAY, "pending", Status::Pending);
    let picked = select_settled_in_window(vec![eight_days_old, one_day_old, pending], w);
    assert_eq!(picked.len(), 1);
    assert_eq!(picked[0].uid, "fresh");
}

#[test]
fn window_is_half_open() {
    let w = TimeWindow { start_ms: T - 7 * MS_PER_DAY, end_ms: T };
    let at_start = tx_with_status(T - 7 * MS_PER_DAY, "start", Status::Settled);
    let at_end = tx_with_status(T, "end", Status::Settled);
    let picked = select_settled_in_window(vec![at_start, at_end], w);
    assert_eq!(picked.len(), 1);
    assert_eq!(picked[0].uid, "start");
}

#[test]
fn selection_keeps_response_order() {
    let w = TimeWindow { start_ms: T - 7 * MS_PER_DAY, end_ms: T };
    let later = tx_with_status(T - 1 * MS_PER_DAY, "later", Status::Settled);
    let earlier = tx_with_status(T - 2 * MS_PER_DAY, "earlier", Status::Settled);
    let picked = select_settled_in_window(vec![later, earlier], w);
    assert_eq!(picked.len(), 2);
    assert_eq!(picked[0].uid, "later");
    assert_eq!(picked[1].uid, "earlier");
}
