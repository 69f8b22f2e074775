//! Tests of the sync orchestrator: ordering, failure isolation, total
//! failure escalation, and idempotent merging across cycles.

use starling_sync::model::{Currency, CurrencyValue, Direction, Status, Transaction};
use starling_sync::store::Store;
use starling_sync::sync::{sync, FetchError, FetchErrorKind, FetchOutcome};

fn tx(time: i64, uid: &str) -> Transaction {
    Transaction {
        time,
        uid: String::from(uid),
        counterparty_name: String::from("shop"),
        direction: Direction::Out,
        source_amount: CurrencyValue { pennies: 250, currency: Currency::GBP },
        reference: String::from("ref"),
        status: Status::Settled,
    }
}

// 2024-01-01T10:00:00Z, 2024-01-03T09:00:00Z, 2024-01-02T08:00:00Z
const T1: i64 = 1_704_103_200_000;
const T2: i64 = 1_704_272_400_000;
const T3: i64 = 1_704_182_400_000;

fn scenario_outcomes() -> Vec<FetchOutcome> {
    let account1 = vec![tx(T1, "tx1"), tx(T2, "tx2")];
    let account2 = vec![tx(T3, "tx3")];
    vec![Ok(account1), Ok(account2)]
}

#[test]
fn two_accounts_merge_in_time_order() {
    let mut store = Store::new();
    let result = sync(&mut store, scenario_outcomes());
    let result = match result {
        Ok(r) => r,
        Err(_) => panic!("sync must not fail when every account succeeded"),
    };
    assert_eq!(result.failures.len(), 0);
    assert_eq!(result.transactions.len(), 3);
    assert_eq!(result.transactions[0].uid, "tx1");
    assert_eq!(result.transactions[1].uid, "tx3");
    assert_eq!(result.transactions[2].uid, "tx2");
}

#[test]
fn resync_leaves_three_records_not_six() {
    let mut store = Store::new();
    let first = sync(&mut store, scenario_outcomes());
    assert!(first.is_ok());
    assert_eq!(store.list_all().len(), 3);
    let second = sync(&mut store, scenario_outcomes());
    assert!(second.is_ok());
    assert_eq!(store.list_all().len(), 3);
    assert_eq!(store.list_all()[0].uid, "tx1");
    assert_eq!(store.list_all()[1].uid, "tx3");
    assert_eq!(store.list_all()[2].uid, "tx2");
}

#[test]
fn output_order_ignores_account_order() {
    let mut store1 = Store::new();
    let forward = sync(&mut store1, scenario_outcomes()).unwrap();
    let mut store2 = Store::new();
    let swapped: Vec<FetchOutcome> =
        vec![Ok(vec![tx(T3, "tx3")]), Ok(vec![tx(T1, "tx1"), tx(T2, "tx2")])];
    let backward = sync(&mut store2, swapped).unwrap();
    assert_eq!(forward.transactions.len(), backward.transactions.len());
    for i in 0..forward.transactions.len() {
        assert_eq!(forward.transactions[i].uid, backward.transactions[i].uid);
        assert_eq!(forward.transactions[i].time, backward.transactions[i].time);
    }
}

#[test]
fn one_failed_account_does_not_fail_the_cycle() {
    let mut store = Store::new();
    let outcomes: Vec<FetchOutcome> = vec![
        Err(FetchError { account_uid: String::from("acc-a"), kind: FetchErrorKind::Transport }),
        Ok(vec![tx(T3, "tx3")]),
    ];
    let result = sync(&mut store, outcomes).unwrap();
    assert_eq!(result.transactions.len(), 1);
    assert_eq!(result.transactions[0].uid, "tx3");
    assert_eq!(result.failures.len(), 1);
    assert_eq!(result.failures[0].account_uid, "acc-a");
    assert_eq!(result.failures[0].kind, FetchErrorKind::Transport);
    assert_eq!(store.list_all().len(), 1);
}

#[test]
fn all_accounts_failed_escalates() {
    let mut store = Store::new();
    let outcomes: Vec<FetchOutcome> = vec![
        Err(FetchError { account_uid: String::from("acc-a"), kind: FetchErrorKind::Transport }),
        Err(FetchError {
            account_uid: String::from("acc-b"),
            kind: FetchErrorKind::HttpStatus(503),
        }),
    ];
    let result = sync(&mut store, outcomes);
    let agg = match result {
        Ok(_) => panic!("sync must escalate when every account failed"),
        Err(agg) => agg,
    };
    assert_eq!(agg.failures.len(), 2);
    assert_eq!(agg.failures[0].account_uid, "acc-a");
    assert_eq!(agg.failures[1].account_uid, "acc-b");
    assert_eq!(agg.failures[1].kind, FetchErrorKind::HttpStatus(503));
    assert_eq!(store.list_all().len(), 0);
}

#[test]
fn no_accounts_is_an_empty_success() {
    let mut store = Store::new();
    let result = sync(&mut store, Vec::new()).unwrap();
    assert_eq!(result.transactions.len(), 0);
    assert_eq!(result.failures.len(), 0);
    assert_eq!(store.list_all().len(), 0);
}

#[test]
fn equal_times_break_ties_by_identifier() {
    let mut store = Store::new();
    let outcomes: Vec<FetchOutcome> =
        vec![Ok(vec![tx(T1, "zz"), tx(T1, "aa")]), Ok(vec![tx(T1, "mm")])];
    let result = sync(&mut store, outcomes).unwrap();
    assert_eq!(result.transactions.len(), 3);
    assert_eq!(result.transactions[0].uid, "aa");
    assert_eq!(result.transactions[1].uid, "mm");
    assert_eq!(result.transactions[2].uid, "zz");
}

#[test]
fn one_identifier_across_accounts_is_presented_once() {
    let mut store = Store::new();
    let outcomes: Vec<FetchOutcome> =
        vec![Ok(vec![tx(T1, "dup"), tx(T2, "tx2")]), Ok(vec![tx(T1, "dup")])];
    let result = sync(&mut store, outcomes).unwrap();
    assert_eq!(result.transactions.len(), 2);
    assert_eq!(result.transactions[0].uid, "dup");
    assert_eq!(result.transactions[1].uid, "tx2");
    assert_eq!(store.list_all().len(), 2);
}

#[test]
fn least_record_survives_deduplication() {
    let mut store = Store::new();
    let mut late = tx(T2, "dup");
    late.counterparty_name = String::from("late");
    let mut early = tx(T1, "dup");
    early.counterparty_name = String::from("early");
    let outcomes: Vec<FetchOutcome> = vec![Ok(vec![late]), Ok(vec![early])];
    let result = sync(&mut store, outcomes).unwrap();
    assert_eq!(result.transactions.len(), 1);
    assert_eq!(result.transactions[0].counterparty_name, "early");
    assert_eq!(result.transactions[0].time, T1);
}

#[test]
fn merge_keeps_first_record_for_an_identifier() {
    let mut store = Store::new();
    let first = sync(&mut store, vec![Ok(vec![tx(T1, "tx1")])]);
    assert!(first.is_ok());
    let mut changed = tx(T1, "tx1");
    changed.counterparty_name = String::from("someone else");
    let second = sync(&mut store, vec![Ok(vec![changed])]);
    assert!(second.is_ok());
    assert_eq!(store.list_all().len(), 1);
    assert_eq!(store.list_all()[0].counterparty_name, "shop");
}

#[test]
fn duplicate_copies_every_field() {
    let original = tx(T1, "tx1");
    let copy = original.duplicate();
    assert_eq!(copy.time, original.time);
    assert_eq!(copy.uid, original.uid);
    assert_eq!(copy.counterparty_name, original.counterparty_name);
    assert_eq!(copy.direction, original.direction);
    assert_eq!(copy.source_amount, original.source_amount);
    assert_eq!(copy.reference, original.reference);
    assert_eq!(copy.status, original.status);
}
