//! Account identity and the decision logic at the provider boundary.
//!
//! The network calls themselves live outside the library; what is
//! verified here is every decision made about their results: which
//! account a credential resolves to, how a response status and body turn
//! into a typed outcome, and how the current instant becomes a query
//! window.

use vstd::prelude::*;
use crate::model::{ApiKey, Transaction, views};
use crate::sync::{FetchError, FetchErrorKind, FetchOutcome};
use crate::window::{
    MS_PER_DAY, QueryChangesBetween, QueryChangesSince, TimeWindow, changes_since_query,
    select_settled_in_window, settled_between_query, settled_selection, window_ending_at,
};

verus! {

/// One account associated with a credential: identifier, default
/// category, display name and creation instant (UTC milliseconds).
#[derive(Debug)]
pub struct AccountDetail {
    pub name: String,
    pub account_uid: String,
    pub default_category: String,
    pub created_at: i64,
}

/// The accounts the provider lists for one credential.
pub struct AccountDetails {
    pub accounts: Vec<AccountDetail>,
}

/// The response body of a windowed transaction query.
pub struct Transactions {
    pub feed_items: Vec<Transaction>,
}

/// Why a credential failed to resolve to an account.
#[derive(Clone, Copy, Debug, PartialEq, Eq)]
pub enum AuthError {
    /// The provider rejected the credential outright; the user must
    /// re-issue it, retrying cannot help.
    CredentialExpired,
    /// An unexpected response, or a credential with no accounts,
    /// carrying the raw status when a response arrived and nothing on a
    /// transport failure; transient, safe to retry at a higher level.
    RetrievalFailed { status: Option<u16> },
    /// The response body did not match the expected shape.
    DeserializationFailed,
}

/// One authenticated account identity: its credential and its resolved
/// detail.
pub struct StarlingAccount {
    pub key: ApiKey,
    pub detail: AccountDetail,
}

/// Decides what a credential resolved to from the status code of the
/// provider's account listing and its parsed body (`None` when the body
/// did not parse). The first listed account is taken, a documented
/// simplification for credentials that carry several.
pub fn resolve_account(status: u16, parsed: Option<AccountDetails>) -> (r: Result<
    AccountDetail,
    AuthError,
>)
    ensures
        r is Ok <==> (status == 200 && parsed is Some && parsed.unwrap().accounts@.len() > 0),
        r is Ok ==> r.unwrap() == parsed.unwrap().accounts@[0],
        r == Result::<AccountDetail, AuthError>::Err(AuthError::CredentialExpired) <==> status
            == 403,
        r == Result::<AccountDetail, AuthError>::Err(AuthError::DeserializationFailed) <==> (status
            == 200 && parsed is None),
        status == 200 && parsed is Some && parsed.unwrap().accounts@.len() == 0 ==> r
            == Result::<AccountDetail, AuthError>::Err(
            AuthError::RetrievalFailed { status: Some(200) },
        ),
        status != 200 && status != 403 ==> r == Result::<AccountDetail, AuthError>::Err(
            AuthError::RetrievalFailed { status: Some(status) },
        ),
{
    if status == 200 {
        match parsed {
            Some(details) => {
                let mut accounts = details.accounts;
                if accounts.len() > 0 {
                    Ok(accounts.remove(0))
                } else {
                    Err(AuthError::RetrievalFailed { status: Some(200) })
                }
            },
            None => Err(AuthError::DeserializationFailed),
        }
    } else if status == 403 {
        Err(AuthError::CredentialExpired)
    } else {
        Err(AuthError::RetrievalFailed { status: Some(status) })
    }
}

/// Decides the outcome of one "settled between" fetch from the response
/// status and parsed body: on success, exactly the settled records
/// inside the window, in response order; otherwise a failure attributed
/// to the account.
pub fn settled_between_outcome(
    account_uid: String,
    status: u16,
    parsed: Option<Transactions>,
    w: TimeWindow,
) -> (r: FetchOutcome)
    ensures
        r is Ok <==> (status == 200 && parsed is Some),
        r is Ok ==> views(r.unwrap()@) == settled_selection(
            views(parsed.unwrap().feed_items@),
            w,
        ),
        r is Err ==> r.unwrap_err()@.account_uid == account_uid@,
        status == 200 && parsed is None ==> r is Err && r.unwrap_err()@.kind
            == FetchErrorKind::Deserialization,
        status != 200 ==> r is Err && r.unwrap_err()@.kind == FetchErrorKind::HttpStatus(status),
{
    if status != 200 {
        Err(FetchError { account_uid, kind: FetchErrorKind::HttpStatus(status) })
    } else {
        match parsed {
            Some(body) => Ok(select_settled_in_window(body.feed_items, w)),
            None => Err(FetchError { account_uid, kind: FetchErrorKind::Deserialization }),
        }
    }
}

/// Decides the outcome of one open-ended "changes since" fetch: on
/// success the parsed records are handed back as they came, since the
/// provider keys this query by change time, which the records do not
/// carry; otherwise a failure attributed to the account.
pub fn changes_since_outcome(account_uid: String, status: u16, parsed: Option<Transactions>) -> (r:
    FetchOutcome)
    ensures
        r is Ok <==> (status == 200 && parsed is Some),
        r is Ok ==> r.unwrap()@ == parsed.unwrap().feed_items@,
        r is Err ==> r.unwrap_err()@.account_uid == account_uid@,
        status == 200 && parsed is None ==> r is Err && r.unwrap_err()@.kind
            == FetchErrorKind::Deserialization,
        status != 200 ==> r is Err && r.unwrap_err()@.kind == FetchErrorKind::HttpStatus(status),
{
    if status != 200 {
        Err(FetchError { account_uid, kind: FetchErrorKind::HttpStatus(status) })
    } else {
        match parsed {
            Some(body) => Ok(body.feed_items),
            None => Err(FetchError { account_uid, kind: FetchErrorKind::Deserialization }),
        }
    }
}

/// Relies on `chrono::Utc::now` and `chrono::DateTime::timestamp_millis`:
/// the current UTC instant in whole milliseconds since the Unix epoch.
/// `Utc::now` does not return on a clock set before the epoch, so a
/// returned instant is never negative.
#[verifier::external_body]
fn now_utc_ms() -> (r: i64)
    ensures
        r >= 0,
{
    chrono::Utc::now().timestamp_millis()
}

/// The trailing window of `days` whole days ending now. The current
/// instant is whatever the clock returns; for every such instant the
/// window is exact, and only a day count whose span cannot be
/// represented yields nothing.
pub fn settled_window_ending_now(days: i64) -> (r: Option<TimeWindow>)
    requires
        days >= 1,
    ensures
        match r {
            Some(w) => {
                &&& w.wf()
                &&& w.end_ms >= 0
                &&& w.end_ms - w.start_ms == days * MS_PER_DAY
            },
            None => days * MS_PER_DAY > i64::MAX,
        },
        r is Some <==> days * MS_PER_DAY <= i64::MAX,
{
    let now = now_utc_ms();
    window_ending_at(now, days)
}

/// The "settled between" query for the trailing window of `days` whole
/// days ending now.
pub fn settled_between_query_now(days: i64) -> (r: Option<QueryChangesBetween>)
    requires
        days >= 1,
    ensures
        match r {
            Some(q) => {
                &&& q.max_transaction_timestamp_ms >= 0
                &&& q.max_transaction_timestamp_ms - q.min_transaction_timestamp_ms == days
                    * MS_PER_DAY
            },
            None => days * MS_PER_DAY > i64::MAX,
        },
        r is Some <==> days * MS_PER_DAY <= i64::MAX,
{
    let now = now_utc_ms();
    settled_between_query(now, days)
}

/// The "changes since" query reaching back `days` whole days from now:
/// never further back than the span itself, since the clock is never
/// before the epoch, and built for every day count whose span is
/// representable.
pub fn changes_since_query_now(days: i64) -> (r: Option<QueryChangesSince>)
    requires
        days >= 1,
    ensures
        r is Some <==> days * MS_PER_DAY <= i64::MAX,
        match r {
            Some(q) => q.changes_since_ms >= -(days * MS_PER_DAY),
            None => days * MS_PER_DAY > i64::MAX,
        },
{
    let now = now_utc_ms();
    changes_since_query(now, days)
}

} // verus!
