//! Verified ordered insertion and sorting of transaction records.
//!
//! The sort is specified by two clauses: the output is sorted under the
//! transaction order, and it holds exactly the input records (as a
//! multiset). Together with antisymmetry of the order this pins the
//! output down uniquely, so the merged sequence of a sync cycle cannot
//! depend on which account's fetch completed first.

use vstd::prelude::*;
use crate::model::{Transaction, TransactionView, views};
use crate::order::{tx_le, tx_lt, tx_lt_exec, lemma_tx_order_total, lemma_tx_le_trans};

verus! {

/// The sequence is sorted under the transaction order.
pub open spec fn tx_seq_sorted(s: Seq<TransactionView>) -> bool {
    forall|i: int, j: int| 0 <= i < j < s.len() ==> tx_le(s[i], s[j])
}

/// Position at which a record is inserted into a sorted sequence: the
/// number of leading elements strictly below it.
pub open spec fn insert_pos(s: Seq<TransactionView>, t: TransactionView) -> int
    decreases s.len(),
{
    if s.len() == 0 {
        0
    } else if tx_lt(s[0], t) {
        1 + insert_pos(s.drop_first(), t)
    } else {
        0
    }
}

/// The insertion position splits the sequence into a strict lower part
/// and a part not strictly below the new record.
pub proof fn lemma_insert_pos(s: Seq<TransactionView>, t: TransactionView)
    ensures
        0 <= insert_pos(s, t) <= s.len(),
        forall|i: int| 0 <= i < insert_pos(s, t) ==> tx_lt(s[i], t),
        insert_pos(s, t) < s.len() ==> !tx_lt(s[insert_pos(s, t)], t),
    decreases s.len(),
{
    if s.len() == 0 {
    } else if tx_lt(s[0], t) {
        lemma_insert_pos(s.drop_first(), t);
        let p = insert_pos(s, t);
        assert forall|i: int| 0 <= i < p implies tx_lt(s[i], t) by {
            if i > 0 {
                assert(tx_lt(s.drop_first()[i - 1], t));
            }
        }
        if p < s.len() {
            assert(s.drop_first()[p - 1] == s[p]);
        }
    }
}

/// Inserting a record into a sequence puts it into the multiset of the
/// sequence's elements.
pub proof fn lemma_to_multiset_insert(s: Seq<TransactionView>, i: int, t: TransactionView)
    requires
        0 <= i <= s.len(),
    ensures
        s.insert(i, t).to_multiset() == s.to_multiset().insert(t),
{
    broadcast use vstd::seq_lib::group_to_multiset_ensures;
    broadcast use vstd::multiset::group_multiset_axioms;

    let ns = s.insert(i, t);
    s.insert_ensures(i, t);
    ns.remove_ensures(i);
    assert(ns.remove(i) =~= s);
    assert(ns.to_multiset().remove(ns[i]) =~= s.to_multiset());
    assert(ns.contains(t));
    assert(ns.to_multiset().count(t) > 0);
    assert(s.to_multiset().insert(t) =~= ns.to_multiset());
}

/// Inserting at the insertion position keeps the sequence sorted.
pub proof fn lemma_insert_sorted(s: Seq<TransactionView>, t: TransactionView)
    requires
        tx_seq_sorted(s),
    ensures
        tx_seq_sorted(s.insert(insert_pos(s, t), t)),
{
    let p = insert_pos(s, t);
    lemma_insert_pos(s, t);
    s.insert_ensures(p, t);
    let ns = s.insert(p, t);
    assert forall|i: int, j: int| 0 <= i < j < ns.len() implies tx_le(ns[i], ns[j]) by {
        if i < p && j < p {
        } else if i < p && j == p {
            assert(tx_lt(s[i], t));
        } else if i < p && j > p {
            assert(ns[j] == s[j - 1]);
            if j - 1 == i {
                assert(tx_lt(s[i], t));
                lemma_tx_order_total(s[i], t);
            } else {
                assert(tx_le(s[i], s[j - 1]));
            }
        } else if i == p {
            assert(ns[j] == s[j - 1]);
            assert(!tx_lt(s[p], t));
            lemma_tx_order_total(t, s[p]);
            assert(tx_le(t, s[p]));
            if j - 1 == p {
            } else {
                assert(tx_le(s[p], s[j - 1]));
                lemma_tx_le_trans(t, s[p], s[j - 1]);
            }
        } else {
            assert(ns[i] == s[i - 1]);
            assert(ns[j] == s[j - 1]);
            assert(tx_le(s[i - 1], s[j - 1]));
        }
    }
}

/// Inserts a record into a sorted vector, keeping it sorted.
pub fn insert_in_order(v: &mut Vec<Transaction>, t: Transaction)
    requires
        tx_seq_sorted(views(old(v)@)),
    ensures
        tx_seq_sorted(views(final(v)@)),
        views(final(v)@) == views(old(v)@).insert(insert_pos(views(old(v)@), t@), t@),
        views(final(v)@).to_multiset() == views(old(v)@).to_multiset().insert(t@),
{
    proof {
        assert(v@ == old(v)@);
    }
    let ghost s = views(v@);
    let mut pos: usize = 0;
    while pos < v.len() && tx_lt_exec(&v[pos], &t)
        invariant
            0 <= pos <= v.len(),
            views(v@) == s,
            s == views(old(v)@),
            forall|i: int| 0 <= i < pos ==> tx_lt(s[i], t@),
        decreases v.len() - pos,
    {
        proof {
            assert(pos < v@.len());
            assert(views(v@)[pos as int] == v@[pos as int]@);
            assert(s[pos as int] == v@[pos as int]@);
        }
        pos = pos + 1;
    }
    proof {
        lemma_insert_pos(s, t@);
        let p = insert_pos(s, t@);
        if p < pos {
            assert(tx_lt(s[p], t@));
            assert(false);
        }
        if pos < p {
            assert(tx_lt(s[pos as int], t@));
            assert(false);
        }
    }
    v.insert(pos, t);
    proof {
        let p = insert_pos(s, t@);
        assert(views(v@) =~= s.insert(p, t@));
        lemma_insert_sorted(s, t@);
        lemma_to_multiset_insert(s, p, t@);
    }
}

/// Sorts the records under the transaction order. The output is sorted
/// and holds exactly the input records.
pub fn sort_transactions(input: Vec<Transaction>) -> (r: Vec<Transaction>)
    ensures
        tx_seq_sorted(views(r@)),
        views(r@).to_multiset() == views(input@).to_multiset(),
{
    broadcast use vstd::seq_lib::group_to_multiset_ensures;
    broadcast use vstd::multiset::group_multiset_axioms;

    let ghost orig = views(input@);
    let mut rest = input;
    let mut out: Vec<Transaction> = Vec::new();
    while rest.len() > 0
        invariant
            tx_seq_sorted(views(out@)),
            views(out@).to_multiset().add(views(rest@).to_multiset()) == orig.to_multiset(),
        decreases rest.len(),
    {
        let ghost rv = views(rest@);
        let t = rest.pop().unwrap();
        proof {
            rv.to_multiset_ensures();
            assert(t@ == rv[rv.len() - 1]);
            assert(rv.drop_last() =~= views(rest@));
            assert(rv.remove(rv.len() - 1) =~= rv.drop_last());
            assert(rv.remove(rv.len() - 1).to_multiset() == rv.to_multiset().remove(
                rv[rv.len() - 1],
            ));
            assert(views(rest@).to_multiset() =~= rv.to_multiset().remove(t@));
            assert(rv.contains(t@));
            assert(rv.to_multiset().count(t@) > 0);
        }
        insert_in_order(&mut out, t);
        proof {
            assert(views(out@).to_multiset().add(views(rest@).to_multiset()) =~= orig.to_multiset());
        }
    }
    proof {
        assert(views(rest@).to_multiset().len() == 0);
        assert(views(out@).to_multiset() =~= orig.to_multiset());
    }
    out
}

/// A sequence sorted under the transaction order is sorted by timestamp
/// ascending; equal timestamps are ordered by the tie-break fields.
pub proof fn lemma_sorted_times_ascending(s: Seq<TransactionView>)
    requires
        tx_seq_sorted(s),
    ensures
        forall|i: int, j: int| 0 <= i < j < s.len() ==> s[i].time <= s[j].time,
{
    assert forall|i: int, j: int| 0 <= i < j < s.len() implies s[i].time <= s[j].time by {
        assert(tx_le(s[i], s[j]));
    }
}

/// Two sorted sequences holding the same records are the same sequence:
/// the order of a sync cycle's output is determined by the records alone.
pub proof fn lemma_sorted_unique(s1: Seq<TransactionView>, s2: Seq<TransactionView>)
    requires
        tx_seq_sorted(s1),
        tx_seq_sorted(s2),
        s1.to_multiset() == s2.to_multiset(),
    ensures
        s1 == s2,
    decreases s1.len(),
{
    broadcast use vstd::seq_lib::group_to_multiset_ensures;
    broadcast use vstd::multiset::group_multiset_axioms;

    if s1.len() == 0 {
        assert(s2.to_multiset().len() == 0);
        assert(s1 =~= s2);
    } else {
        s1.to_multiset_ensures();
        s2.to_multiset_ensures();
        assert(s2.to_multiset().len() == s1.to_multiset().len());
        assert(s2.len() == s1.len());
        assert(s1.to_multiset().count(s2[0]) > 0);
        assert(s1.contains(s2[0]));
        assert(s2.to_multiset().count(s1[0]) > 0);
        assert(s2.contains(s1[0]));
        let i1 = choose|i: int| 0 <= i < s1.len() && s1[i] == s2[0];
        let i2 = choose|i: int| 0 <= i < s2.len() && s2[i] == s1[0];
        assert(tx_le(s1[0], s1[i1]) || i1 == 0);
        assert(tx_le(s2[0], s2[i2]) || i2 == 0);
        lemma_tx_order_total(s1[0], s2[0]);
        assert(s1[0] == s2[0]);
        let t1 = s1.remove(0);
        let t2 = s2.remove(0);
        s1.remove_ensures(0);
        s2.remove_ensures(0);
        assert(t1.to_multiset() == s1.to_multiset().remove(s1[0]));
        assert(t2.to_multiset() == s2.to_multiset().remove(s2[0]));
        assert(t1.to_multiset() == t2.to_multiset());
        assert(tx_seq_sorted(t1));
        assert(tx_seq_sorted(t2));
        lemma_sorted_unique(t1, t2);
        assert forall|i: int| 0 <= i < s1.len() implies s1[i] == s2[i] by {
            if i > 0 {
                assert(t1[i - 1] == t2[i - 1]);
            }
        }
        assert(s1 =~= s2);
    }
}

} // verus!
