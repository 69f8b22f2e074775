//! Tests of the decision logic at the provider boundary: credential
//! resolution and fetch outcome handling.

use starling_sync::client::{
    changes_since_outcome, resolve_account, settled_between_outcome, AccountDetail,
    AccountDetails, AuthError, Transactions,
};
use starling_sync::model::{Currency, CurrencyValue, Direction, Status, Transaction};
use starling_sync::sync::FetchErrorKind;
use starling_sync::window::{TimeWindow, MS_PER_DAY};

fn account(uid: &str) -> AccountDetail {
    AccountDetail {
        name: String::from("Personal"),
        account_uid: String::from(uid),
        default_category: String::from("default"),
        created_at: 1_600_000_000_000,
    }
}

fn settled_tx(time: i64, uid: &str) -> Transaction {
    Transaction {
        time,
        uid: String::from(uid),
        counterparty_name: String::from("shop"),
        direction: Direction::Out,
        source_amount: CurrencyValue { pennies: 999, currency: Currency::EUR },
        reference: String::from("ref"),
        status: Status::Settled,
    }
}

// 2024-01-01T00:00:00Z
const T: i64 = 1_704_067_200_000;

#[test]
fn resolve_takes_the_first_account() {
    let parsed = AccountDetails { accounts: vec![account("first"), account("second")] };
    let r = resolve_account(200, Some(parsed)).unwrap();
    assert_eq!(r.account_uid, "first");
    assert_eq!(r.name, "Personal");
}

#[test]
fn forbidden_status_means_expired_credential() {
    assert_eq!(resolve_account(403, None).unwrap_err(), AuthError::CredentialExpired);
}

#[test]
fn other_status_means_retrieval_failed_with_the_status() {
    assert_eq!(
        resolve_account(500, None).unwrap_err(),
        AuthError::RetrievalFailed { status: Some(500) }
    );
}

#[test]
fn unparsable_account_body_is_a_typed_failure() {
    assert_eq!(resolve_account(200, None).unwrap_err(), AuthError::DeserializationFailed);
}

#[test]
fn credential_with_no_accounts_fails_retrieval() {
    let parsed = AccountDetails { accounts: Vec::new() };
    assert_eq!(
        resolve_account(200, Some(parsed)).unwrap_err(),
        AuthError::RetrievalFailed { status: Some(200) }
    );
}

#[test]
fn settled_outcome_filters_to_the_window() {
    let w = TimeWindow { start_ms: T - 7 * MS_PER_DAY, end_ms: T };
    let body = Transactions {
        feed_items: vec![settled_tx(T - 8 * MS_PER_DAY, "old"), settled_tx(T - MS_PER_DAY, "new")],
    };
    let r = settled_between_outcome(String::from("acc"), 200, Some(body), w).unwrap();
    assert_eq!(r.len(), 1);
    assert_eq!(r[0].uid, "new");
}

#[test]
fn settled_outcome_reports_http_failure() {
    let w = TimeWindow { start_ms: T - 7 * MS_PER_DAY, end_ms: T };
    let e = settled_between_outcome(String::from("acc"), 429, None, w).unwrap_err();
    assert_eq!(e.account_uid, "acc");
    assert_eq!(e.kind, FetchErrorKind::HttpStatus(429));
}

#[test]
fn settled_outcome_reports_bad_body() {
    let w = TimeWindow { start_ms: T - 7 * MS_PER_DAY, end_ms: T };
    let e = settled_between_outcome(String::from("acc"), 200, None, w).unwrap_err();
    assert_eq!(e.account_uid, "acc");
    assert_eq!(e.kind, FetchErrorKind::Deserialization);
}

#[test]
fn changes_outcome_hands_records_through() {
    let body = Transactions {
        feed_items: vec![settled_tx(T - 9 * MS_PER_DAY, "a"), settled_tx(T - MS_PER_DAY, "b")],
    };
    let r = changes_since_outcome(String::from("acc"), 200, Some(body)).unwrap();
    assert_eq!(r.len(), 2);
    assert_eq!(r[0].uid, "a");
    assert_eq!(r[1].uid, "b");
}

#[test]
fn changes_outcome_reports_http_failure() {
    let e = changes_since_outcome(String::from("acc"), 500, None).unwrap_err();
    assert_eq!(e.account_uid, "acc");
    assert_eq!(e.kind, FetchErrorKind::HttpStatus(500));
}

#[test]
fn window_ending_now_spans_the_day_count() {
    let w = starling_sync::client::settled_window_ending_now(7).unwrap();
    assert_eq!(w.end_ms - w.start_ms, 7 * MS_PER_DAY);
    assert!(w.end_ms >= 0);
}

#[test]
fn settled_query_now_spans_the_day_count() {
    let q = starling_sync::client::settled_between_query_now(3).unwrap();
    assert_eq!(q.max_transaction_timestamp_ms - q.min_transaction_timestamp_ms, 3 * MS_PER_DAY);
}

#[test]
fn changes_query_now_is_in_the_past() {
    let q = starling_sync::client::changes_since_query_now(1).unwrap();
    let w = starling_sync::client::settled_window_ending_now(1).unwrap();
    assert!(q.changes_since_ms <= w.end_ms);
}
