//! The synchronization orchestrator.
//!
//! One sync cycle fans out one windowed fetch per account; the fetches
//! run independently and are joined before any shared state is touched.
//! This module takes the joined per-account outcomes, keeps each
//! account's success or failure independent, flattens and sorts the
//! successful results into one chronologically ordered sequence, merges
//! it into the store, and fails as a whole only when every account
//! failed.

use vstd::prelude::*;
use crate::model::{Transaction, TransactionView, views, duplicate_all};
use crate::order::{lemma_tx_leq_total_ordering, tx_le, tx_leq};
use crate::sort::{lemma_sorted_unique, sort_transactions, tx_seq_sorted};
use crate::store::{
    Store, has_uid, lemma_merged_props, lemma_same_multiset_same_uids, merge_records, merged,
    uids_unique,
};

verus! {

/// Why one account's fetch failed.
#[derive(Clone, Copy, Debug, PartialEq, Eq, Structural)]
pub enum FetchErrorKind {
    /// The request never produced a response.
    Transport,
    /// The response carried a non-success status code.
    HttpStatus(u16),
    /// The response body did not match the expected shape.
    Deserialization,
}

/// A fetch failure, attributed to the account it came from.
#[derive(Debug)]
pub struct FetchError {
    pub account_uid: String,
    pub kind: FetchErrorKind,
}

/// Mathematical view of a fetch failure.
#[verifier::ext_equal]
pub struct FetchErrorView {
    pub account_uid: Seq<char>,
    pub kind: FetchErrorKind,
}

impl View for FetchError {
    type V = FetchErrorView;

    open spec fn view(&self) -> FetchErrorView {
        FetchErrorView { account_uid: self.account_uid@, kind: self.kind }
    }
}

/// The views of a sequence of fetch failures, in order.
pub open spec fn err_views(s: Seq<FetchError>) -> Seq<FetchErrorView> {
    s.map_values(|e: FetchError| e@)
}

/// The outcome of one account's fetch.
pub type FetchOutcome = Result<Vec<Transaction>, FetchError>;

/// All records of the successful outcomes, flattened in account order.
pub open spec fn ok_flat(s: Seq<FetchOutcome>) -> Seq<TransactionView>
    decreases s.len(),
{
    if s.len() == 0 {
        Seq::empty()
    } else {
        ok_flat(s.drop_last()) + (match s.last() {
            Ok(list) => views(list@),
            Err(_) => Seq::empty(),
        })
    }
}

/// The failures among the outcomes, in account order.
pub open spec fn failures_of(s: Seq<FetchOutcome>) -> Seq<FetchErrorView>
    decreases s.len(),
{
    if s.len() == 0 {
        Seq::empty()
    } else {
        failures_of(s.drop_last()) + (match s.last() {
            Ok(_) => Seq::empty(),
            Err(e) => seq![e@],
        })
    }
}

/// What one sync cycle hands to presentation: the merged ordered
/// sequence of new records, and the per-account failures.
#[derive(Debug)]
pub struct SyncResult {
    pub transactions: Vec<Transaction>,
    pub failures: Vec<FetchError>,
}

/// The aggregate condition of a cycle in which every configured account
/// failed; the individual causes are still surfaced.
#[derive(Debug)]
pub struct AllAccountsFailed {
    pub failures: Vec<FetchError>,
}

/// The sequence one successful cycle hands to presentation: the fetched
/// records sorted under the transaction order, then deduplicated by
/// identifier — the least record in the order survives for each
/// identifier.
pub open spec fn cycle_output(outcomes: Seq<FetchOutcome>) -> Seq<TransactionView> {
    merged(Seq::empty(), ok_flat(outcomes).sort_by(tx_leq()))
}

/// A sorted sequence in vstd's sense is sorted under the transaction
/// order.
proof fn lemma_sorted_by_tx_leq(s: Seq<TransactionView>)
    requires
        vstd::relations::sorted_by(s, tx_leq()),
    ensures
        tx_seq_sorted(s),
{
    assert forall|i: int, j: int| 0 <= i < j < s.len() implies tx_le(s[i], s[j]) by {
        assert(tx_leq()(s[i], s[j]));
    }
}

/// Ordering law: the sequence a cycle hands to presentation is
/// determined by the fetched records alone. Two cycles whose outcomes
/// carry the same records — however those records are split across
/// accounts and in whatever order the fetches completed — present the
/// same sequence.
pub proof fn lemma_sync_output_deterministic(o1: Seq<FetchOutcome>, o2: Seq<FetchOutcome>)
    requires
        ok_flat(o1).to_multiset() == ok_flat(o2).to_multiset(),
    ensures
        cycle_output(o1) == cycle_output(o2),
{
    lemma_tx_leq_total_ordering();
    ok_flat(o1).lemma_sort_by_ensures(tx_leq());
    ok_flat(o2).lemma_sort_by_ensures(tx_leq());
    let s1 = ok_flat(o1).sort_by(tx_leq());
    let s2 = ok_flat(o2).sort_by(tx_leq());
    lemma_sorted_by_tx_leq(s1);
    lemma_sorted_by_tx_leq(s2);
    lemma_sorted_unique(s1, s2);
}

/// Runs the join-side of one sync cycle over the collected per-account
/// outcomes.
///
/// One account's failure never fails the cycle: the successful lists are
/// flattened, sorted under the transaction order, deduplicated by
/// identifier and merged into the store, and every failure is reported
/// beside them. The cycle fails as a whole exactly when there was at
/// least one account and every account failed; the store is then left
/// untouched.
pub fn sync(store: &mut Store, outcomes: Vec<FetchOutcome>) -> (r: Result<
    SyncResult,
    AllAccountsFailed,
>)
    requires
        old(store).wf(),
    ensures
        final(store).wf(),
        r is Err <==> (outcomes@.len() > 0 && failures_of(outcomes@).len() == outcomes@.len()),
        match r {
            Ok(res) => {
                &&& views(res.transactions@) == cycle_output(outcomes@)
                &&& tx_seq_sorted(views(res.transactions@))
                &&& uids_unique(views(res.transactions@))
                &&& forall|u: Seq<char>|
                    has_uid(views(res.transactions@), u) <==> has_uid(ok_flat(outcomes@), u)
                &&& forall|x: TransactionView|
                    views(res.transactions@).contains(x) ==> ok_flat(outcomes@).contains(x)
                &&& err_views(res.failures@) == failures_of(outcomes@)
                &&& final(store)@ == merged(old(store)@, views(res.transactions@))
            },
            Err(agg) => {
                &&& err_views(agg.failures@) == failures_of(outcomes@)
                &&& final(store)@ == old(store)@
            },
        },
{
    let total = outcomes.len();
    let ghost orig = outcomes@;
    let mut rest = outcomes;
    let mut all: Vec<Transaction> = Vec::new();
    let mut failures: Vec<FetchError> = Vec::new();
    let mut n_ok: usize = 0;
    let ghost mut k: int = 0;
    proof {
        assert(ok_flat(orig.subrange(0, 0)) =~= views(all@));
        assert(failures_of(orig.subrange(0, 0)) =~= err_views(failures@));
    }
    while rest.len() > 0
        invariant
            0 <= k <= orig.len(),
            total == orig.len(),
            k + rest@.len() == orig.len(),
            rest@ == orig.subrange(k, orig.len() as int),
            views(all@) == ok_flat(orig.subrange(0, k)),
            err_views(failures@) == failures_of(orig.subrange(0, k)),
            n_ok + failures@.len() == k,
        decreases rest.len(),
    {
        let ghost prefix = orig.subrange(0, k);
        let ghost next = orig.subrange(0, k + 1);
        let ghost before = rest@;
        let outcome = rest.remove(0);
        proof {
            assert(outcome == orig[k]);
            assert(rest@ =~= orig.subrange(k + 1, orig.len() as int));
            assert(next.drop_last() =~= prefix);
            assert(next.last() == orig[k]);
        }
        match outcome {
            Ok(list) => {
                let ghost all_before = all@;
                let ghost lv = list@;
                let mut list = list;
                all.append(&mut list);
                n_ok = n_ok + 1;
                proof {
                    assert(all@ == all_before + lv);
                    assert forall|i: int| 0 <= i < all@.len() implies views(all@)[i] == (views(
                        all_before,
                    ) + views(lv))[i] by {
                        assert(views(all@)[i] == all@[i]@);
                        if i < all_before.len() {
                            assert(views(all_before)[i] == all_before[i]@);
                        } else {
                            assert(views(lv)[i - all_before.len()] == lv[i - all_before.len()]@);
                        }
                    }
                    assert(views(all@) =~= views(all_before) + views(lv));
                    assert(views(all@) =~= ok_flat(next));
                }
            },
            Err(e) => {
                let ghost f_before = failures@;
                failures.push(e);
                proof {
                    assert forall|i: int| 0 <= i < failures@.len() implies err_views(failures@)[i]
                        == (err_views(f_before).push(e@))[i] by {
                        assert(err_views(failures@)[i] == failures@[i]@);
                        if i < f_before.len() {
                            assert(err_views(f_before)[i] == f_before[i]@);
                        }
                    }
                    assert(err_views(failures@) =~= err_views(f_before).push(e@));
                    assert(err_views(failures@) =~= failures_of(next));
                }
            },
        }
        proof {
            k = k + 1;
        }
    }
    proof {
        assert(orig.subrange(0, orig.len() as int) =~= orig);
        assert(err_views(failures@).len() == failures@.len());
    }
    if total > 0 && n_ok == 0 {
        return Err(AllAccountsFailed { failures });
    }
    let ghost flat = views(all@);
    let sorted = sort_transactions(all);
    let ghost sorted_v = views(sorted@);
    let mut unique: Vec<Transaction> = Vec::new();
    proof {
        assert(views(unique@) =~= Seq::<TransactionView>::empty());
    }
    merge_records(&mut unique, sorted);
    proof {
        broadcast use vstd::seq_lib::group_to_multiset_ensures;

        let empty = Seq::<TransactionView>::empty();
        let spec_sorted = ok_flat(orig).sort_by(tx_leq());
        lemma_tx_leq_total_ordering();
        ok_flat(orig).lemma_sort_by_ensures(tx_leq());
        lemma_sorted_by_tx_leq(spec_sorted);
        assert(flat == ok_flat(orig));
        assert(sorted_v.to_multiset() == spec_sorted.to_multiset());
        lemma_sorted_unique(sorted_v, spec_sorted);
        assert(views(unique@) == merged(empty, sorted_v));
        assert(views(unique@) == cycle_output(orig));
        lemma_merged_props(empty, sorted_v);
        lemma_same_multiset_same_uids(sorted_v, ok_flat(orig));
        assert forall|u: Seq<char>| has_uid(views(unique@), u) implies has_uid(
            ok_flat(orig),
            u,
        ) by {
            assert(has_uid(merged(empty, sorted_v), u));
            assert(has_uid(sorted_v, u));
        }
        assert forall|u: Seq<char>| has_uid(ok_flat(orig), u) implies has_uid(
            views(unique@),
            u,
        ) by {
            assert(has_uid(sorted_v, u));
            assert(has_uid(merged(empty, sorted_v), u));
        }
        assert forall|x: TransactionView| views(unique@).contains(x) implies ok_flat(
            orig,
        ).contains(x) by {
            assert(merged(empty, sorted_v).contains(x));
            assert(sorted_v.contains(x));
            assert(sorted_v.to_multiset().count(x) > 0);
            assert(ok_flat(orig).to_multiset().count(x) > 0);
            assert(ok_flat(orig).contains(x));
        }
    }
    let copy = duplicate_all(&unique);
    store.merge_and_persist(copy);
    Ok(SyncResult { transactions: unique, failures })
}

} // verus!
