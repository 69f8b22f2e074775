//! Time windows for transaction queries.
//!
//! A window is a half-open interval `[start, end)` of UTC instants in
//! milliseconds since the Unix epoch, derived from "now minus N days" to
//! "now". Two query shapes exist against the same record type: an
//! open-ended "changes since" query and a closed "settled between"
//! window.

use vstd::prelude::*;
use crate::model::{Status, Transaction, TransactionView, views};

verus! {

/// Milliseconds in one day.
pub const MS_PER_DAY: i64 = 86_400_000;

/// A half-open interval `[start_ms, end_ms)` of UTC instants.
#[derive(Clone, Copy, Debug, PartialEq, Eq, Structural)]
pub struct TimeWindow {
    pub start_ms: i64,
    pub end_ms: i64,
}

impl TimeWindow {
    /// A window never ends before it starts.
    pub open spec fn wf(&self) -> bool {
        self.start_ms <= self.end_ms
    }

    /// Whether an instant falls inside the half-open interval.
    pub open spec fn spec_contains(&self, t: int) -> bool {
        self.start_ms <= t < self.end_ms
    }

    /// Decides whether an instant falls inside the window.
    pub fn contains(&self, t: i64) -> (r: bool)
        ensures
            r == self.spec_contains(t as int),
    {
        self.start_ms <= t && t < self.end_ms
    }
}

/// The parameters of an open-ended "changes since" query.
#[derive(Clone, Copy, Debug, PartialEq, Eq, Structural)]
pub struct QueryChangesSince {
    pub changes_since_ms: i64,
}

/// The parameters of a closed "settled between" query.
#[derive(Clone, Copy, Debug, PartialEq, Eq, Structural)]
pub struct QueryChangesBetween {
    pub min_transaction_timestamp_ms: i64,
    pub max_transaction_timestamp_ms: i64,
}

/// Builds the trailing window of `days` whole days that ends at `now_ms`.
/// Returns the window exactly when `now_ms - days * MS_PER_DAY` fits in
/// the timestamp type, and nothing otherwise.
pub fn window_ending_at(now_ms: i64, days: i64) -> (r: Option<TimeWindow>)
    requires
        days >= 1,
    ensures
        match r {
            Some(w) => {
                &&& w.wf()
                &&& w.end_ms == now_ms
                &&& w.start_ms == now_ms - days * MS_PER_DAY
            },
            None => days * MS_PER_DAY > i64::MAX || now_ms - days * MS_PER_DAY < i64::MIN,
        },
        r is Some <==> days * MS_PER_DAY <= i64::MAX && now_ms - days * MS_PER_DAY >= i64::MIN,
{
    let limit: i64 = i64::MAX / MS_PER_DAY;
    if days > limit {
        proof {
            assert((limit + 1) * MS_PER_DAY > i64::MAX) by (nonlinear_arith)
                requires
                    limit == i64::MAX as int / MS_PER_DAY as int,
            ;
            assert(days * MS_PER_DAY >= (limit + 1) * MS_PER_DAY) by (nonlinear_arith)
                requires
                    days >= limit + 1,
            ;
        }
        None
    } else {
        proof {
            assert(days * MS_PER_DAY <= limit * MS_PER_DAY) by (nonlinear_arith)
                requires
                    1 <= days <= limit,
            ;
            assert(limit * MS_PER_DAY <= i64::MAX) by (nonlinear_arith)
                requires
                    limit == i64::MAX as int / MS_PER_DAY as int,
            ;
            assert(days * MS_PER_DAY >= MS_PER_DAY) by (nonlinear_arith)
                requires
                    days >= 1,
            ;
        }
        let span: i64 = days * MS_PER_DAY;
        if now_ms >= i64::MIN + span {
            Some(TimeWindow { start_ms: now_ms - span, end_ms: now_ms })
        } else {
            None
        }
    }
}

/// Builds the open-ended "changes since" query that reaches back `days`
/// whole days from `now_ms`, under the same overflow condition as
/// `window_ending_at`.
pub fn changes_since_query(now_ms: i64, days: i64) -> (r: Option<QueryChangesSince>)
    requires
        days >= 1,
    ensures
        match r {
            Some(q) => q.changes_since_ms == now_ms - days * MS_PER_DAY,
            None => days * MS_PER_DAY > i64::MAX || now_ms - days * MS_PER_DAY < i64::MIN,
        },
        r is Some <==> days * MS_PER_DAY <= i64::MAX && now_ms - days * MS_PER_DAY >= i64::MIN,
{
    match window_ending_at(now_ms, days) {
        Some(w) => Some(QueryChangesSince { changes_since_ms: w.start_ms }),
        None => None,
    }
}

/// Builds the closed "settled between" query for the trailing window of
/// `days` whole days ending at `now_ms`.
pub fn settled_between_query(now_ms: i64, days: i64) -> (r: Option<QueryChangesBetween>)
    requires
        days >= 1,
    ensures
        match r {
            Some(q) => {
                &&& q.min_transaction_timestamp_ms == now_ms - days * MS_PER_DAY
                &&& q.max_transaction_timestamp_ms == now_ms
            },
            None => days * MS_PER_DAY > i64::MAX || now_ms - days * MS_PER_DAY < i64::MIN,
        },
        r is Some <==> days * MS_PER_DAY <= i64::MAX && now_ms - days * MS_PER_DAY >= i64::MIN,
{
    match window_ending_at(now_ms, days) {
        Some(w) => Some(
            QueryChangesBetween {
                min_transaction_timestamp_ms: w.start_ms,
                max_transaction_timestamp_ms: w.end_ms,
            },
        ),
        None => None,
    }
}

/// Whether a record is settled and timestamped inside the window.
pub open spec fn settled_in_window(w: TimeWindow, t: TransactionView) -> bool {
    t.status == Status::Settled && w.spec_contains(t.time)
}

/// The subsequence of records that are settled and timestamped inside
/// the window, in their original order.
pub open spec fn settled_selection(s: Seq<TransactionView>, w: TimeWindow) -> Seq<TransactionView>
    decreases s.len(),
{
    if s.len() == 0 {
        Seq::empty()
    } else {
        let sub = settled_selection(s.drop_last(), w);
        if settled_in_window(w, s.last()) {
            sub.push(s.last())
        } else {
            sub
        }
    }
}

/// Keeps exactly the records that are settled and timestamped inside the
/// window, in their original order.
pub fn select_settled_in_window(txs: Vec<Transaction>, w: TimeWindow) -> (r: Vec<Transaction>)
    ensures
        views(r@) == settled_selection(views(txs@), w),
{
    let ghost orig = views(txs@);
    let mut rest = txs;
    let mut out: Vec<Transaction> = Vec::new();
    let ghost mut k: int = 0;
    proof {
        assert(settled_selection(orig.subrange(0, 0), w) =~= views(out@));
    }
    while rest.len() > 0
        invariant
            0 <= k,
            k + rest@.len() == orig.len(),
            views(rest@) == orig.subrange(k, orig.len() as int),
            views(out@) == settled_selection(orig.subrange(0, k), w),
        decreases rest.len(),
    {
        let ghost prefix = orig.subrange(0, k);
        let ghost next = orig.subrange(0, k + 1);
        let ghost before = rest@;
        let t = rest.remove(0);
        proof {
            assert(t == before[0]);
            assert(views(before)[0] == before[0]@);
            assert(t@ == orig[k]);
            assert(rest@ == before.remove(0));
            assert forall|i: int| 0 <= i < rest@.len() implies views(rest@)[i] == orig[k + 1
                + i] by {
                before.remove_ensures(0);
                assert(rest@[i] == before[i + 1]);
                assert(views(before)[i + 1] == before[i + 1]@);
            }
            assert(views(rest@) =~= orig.subrange(k + 1, orig.len() as int));
            assert(next.drop_last() =~= prefix);
            assert(next.last() == orig[k]);
        }
        let keep = match t.status {
            Status::Settled => w.contains(t.time),
            _ => false,
        };
        proof {
            assert(keep == settled_in_window(w, t@));
        }
        let ghost out_before = out@;
        if keep {
            out.push(t);
            proof {
                assert(views(out@) =~= views(out_before).push(t@));
                assert(views(out@) =~= settled_selection(next, w));
            }
        } else {
            proof {
                assert(views(out@) =~= settled_selection(next, w));
            }
        }
        proof {
            k = k + 1;
        }
    }
    proof {
        assert(orig.subrange(0, orig.len() as int) =~= orig);
    }
    out
}

/// The selection holds a record exactly when the input holds it and it is
/// settled inside the window.
pub proof fn lemma_selection_members(s: Seq<TransactionView>, w: TimeWindow, t: TransactionView)
    ensures
        settled_selection(s, w).contains(t) <==> (s.contains(t) && settled_in_window(w, t)),
    decreases s.len(),
{
    if s.len() == 0 {
    } else {
        lemma_selection_members(s.drop_last(), w, t);
        let sub = settled_selection(s.drop_last(), w);
        let out = settled_selection(s, w);
        if s.contains(t) && settled_in_window(w, t) {
            let i = choose|i: int| 0 <= i < s.len() && s[i] == t;
            if i < s.len() - 1 {
                assert(s.drop_last()[i] == t);
                assert(s.drop_last().contains(t));
                if settled_in_window(w, s.last()) {
                    let j = choose|j: int| 0 <= j < sub.len() && sub[j] == t;
                    assert(out[j] == t);
                }
            } else {
                assert(t == s.last());
                assert(out[out.len() - 1] == t);
            }
        }
        if out.contains(t) {
            let i = choose|i: int| 0 <= i < out.len() && out[i] == t;
            if settled_in_window(w, s.last()) && i == out.len() - 1 {
                assert(t == s.last());
                assert(s.contains(t));
            } else {
                assert(sub[i] == t);
                assert(sub.contains(t));
                assert(s.drop_last().contains(t));
                let j = choose|j: int| 0 <= j < s.drop_last().len() && s.drop_last()[j] == t;
                assert(s[j] == t);
                assert(s.contains(t));
            }
        }
    }
}

/// Window correctness: a record timestamped before the window's start or
/// at or past its end is never in the selection; a settled record inside
/// the window is always in the selection.
pub proof fn lemma_window_correctness(txs: Seq<TransactionView>, w: TimeWindow, t: TransactionView)
    ensures
        t.time < w.start_ms ==> !settled_selection(txs, w).contains(t),
        t.time >= w.end_ms ==> !settled_selection(txs, w).contains(t),
        txs.contains(t) && settled_in_window(w, t) ==> settled_selection(txs, w).contains(t),
{
    lemma_selection_members(txs, w, t);
}

} // verus!
