//! The durable record of previously seen transactions.
//!
//! The store keeps one record per provider-issued identifier, in the
//! transaction order. Merging is keyed by identifier: a record whose
//! identifier is already present is dropped, so re-submitting an
//! overlapping window never creates duplicates, and merging the same
//! sequence twice leaves the store exactly as one merge does.

use vstd::prelude::*;
use crate::model::{Transaction, TransactionView, views};
use crate::order::tx_le;
use crate::sort::{
    insert_in_order, insert_pos, lemma_insert_pos, lemma_insert_sorted, tx_seq_sorted,
};

verus! {

/// Whether some record in the sequence carries the identifier.
pub open spec fn has_uid(s: Seq<TransactionView>, uid: Seq<char>) -> bool {
    exists|i: int| 0 <= i < s.len() && s[i].uid == uid
}

/// No two records in the sequence share an identifier.
pub open spec fn uids_unique(s: Seq<TransactionView>) -> bool {
    forall|i: int, j: int| 0 <= i < j < s.len() ==> s[i].uid != s[j].uid
}

/// One merge step: the record enters at its ordered position unless its
/// identifier is already present.
pub open spec fn insert_new(s: Seq<TransactionView>, t: TransactionView) -> Seq<TransactionView> {
    if has_uid(s, t.uid) {
        s
    } else {
        s.insert(insert_pos(s, t), t)
    }
}

/// The stored sequence after merging `new` into `s`, record by record in
/// order.
pub open spec fn merged(s: Seq<TransactionView>, new: Seq<TransactionView>) -> Seq<TransactionView>
    decreases new.len(),
{
    if new.len() == 0 {
        s
    } else {
        insert_new(merged(s, new.drop_last()), new.last())
    }
}

/// One merge step keeps exactly the identifiers of the sequence plus the
/// new record's, and keeps sortedness and identifier uniqueness.
pub proof fn lemma_insert_new_props(s: Seq<TransactionView>, t: TransactionView)
    requires
        tx_seq_sorted(s),
        uids_unique(s),
    ensures
        tx_seq_sorted(insert_new(s, t)),
        uids_unique(insert_new(s, t)),
        forall|u: Seq<char>| has_uid(insert_new(s, t), u) <==> (has_uid(s, u) || u == t.uid),
        forall|x: TransactionView| s.contains(x) ==> insert_new(s, t).contains(x),
        forall|x: TransactionView| insert_new(s, t).contains(x) ==> s.contains(x) || x == t,
{
    if has_uid(s, t.uid) {
    } else {
        let p = insert_pos(s, t);
        lemma_insert_pos(s, t);
        lemma_insert_sorted(s, t);
        s.insert_ensures(p, t);
        let ns = s.insert(p, t);
        assert forall|u: Seq<char>| has_uid(ns, u) implies (has_uid(s, u) || u == t.uid) by {
            let i = choose|i: int| 0 <= i < ns.len() && ns[i].uid == u;
            if i < p {
                assert(s[i].uid == u);
            } else if i > p {
                assert(s[i - 1].uid == u);
            }
        }
        assert forall|u: Seq<char>| has_uid(s, u) implies has_uid(ns, u) by {
            let i = choose|i: int| 0 <= i < s.len() && s[i].uid == u;
            if i < p {
                assert(ns[i].uid == u);
            } else {
                assert(ns[i + 1] == s[i]);
                assert(ns[i + 1].uid == u);
            }
        }
        assert(ns[p] == t);
        assert(has_uid(ns, t.uid));
        assert forall|i: int, j: int| 0 <= i < j < ns.len() implies ns[i].uid != ns[j].uid by {
            if i != p && j != p {
                let si: int = if i < p { i } else { i - 1 };
                let sj: int = if j < p { j } else { j - 1 };
                assert(ns[i] == s[si]);
                assert(ns[j] == s[sj]);
            } else if i == p {
                assert(ns[j] == s[j - 1]);
                if ns[j].uid == t.uid {
                    assert(has_uid(s, t.uid));
                }
            } else {
                assert(ns[i] == s[i]);
                if ns[i].uid == t.uid {
                    assert(has_uid(s, t.uid));
                }
            }
        }
        assert forall|x: TransactionView| s.contains(x) implies ns.contains(x) by {
            let i = choose|i: int| 0 <= i < s.len() && s[i] == x;
            if i < p {
                assert(ns[i] == x);
            } else {
                assert(ns[i + 1] == x);
            }
        }
        assert forall|x: TransactionView| ns.contains(x) implies s.contains(x) || x == t by {
            let i = choose|i: int| 0 <= i < ns.len() && ns[i] == x;
            if i < p {
                assert(s[i] == x);
            } else if i > p {
                assert(s[i - 1] == x);
            }
        }
    }
}

/// Merging keeps sortedness and identifier uniqueness, holds exactly the
/// identifiers of both inputs, keeps every stored record, and adds only
/// records of the merged-in sequence.
pub proof fn lemma_merged_props(s: Seq<TransactionView>, new: Seq<TransactionView>)
    requires
        tx_seq_sorted(s),
        uids_unique(s),
    ensures
        tx_seq_sorted(merged(s, new)),
        uids_unique(merged(s, new)),
        forall|u: Seq<char>| has_uid(merged(s, new), u) <==> (has_uid(s, u) || has_uid(new, u)),
        forall|x: TransactionView| s.contains(x) ==> merged(s, new).contains(x),
        forall|x: TransactionView| merged(s, new).contains(x) ==> s.contains(x) || new.contains(x),
    decreases new.len(),
{
    if new.len() == 0 {
        assert(forall|u: Seq<char>| !has_uid(new, u));
    } else {
        let head = new.drop_last();
        lemma_merged_props(s, head);
        let m = merged(s, head);
        lemma_insert_new_props(m, new.last());
        assert forall|u: Seq<char>| has_uid(new, u) implies (has_uid(head, u) || u
            == new.last().uid) by {
            let i = choose|i: int| 0 <= i < new.len() && new[i].uid == u;
            if i < new.len() - 1 {
                assert(head[i].uid == u);
            }
        }
        assert forall|u: Seq<char>| has_uid(head, u) implies has_uid(new, u) by {
            let i = choose|i: int| 0 <= i < head.len() && head[i].uid == u;
            assert(new[i].uid == u);
        }
        assert(new.contains(new.last()));
        assert forall|x: TransactionView| head.contains(x) implies new.contains(x) by {
            let i = choose|i: int| 0 <= i < head.len() && head[i] == x;
            assert(new[i] == x);
        }
    }
}

/// Merging a sequence whose identifiers are all present already changes
/// nothing.
pub proof fn lemma_merged_noop(s: Seq<TransactionView>, new: Seq<TransactionView>)
    requires
        forall|i: int| 0 <= i < new.len() ==> has_uid(s, #[trigger] new[i].uid),
    ensures
        merged(s, new) == s,
    decreases new.len(),
{
    if new.len() > 0 {
        let head = new.drop_last();
        assert forall|i: int| 0 <= i < head.len() implies has_uid(s, #[trigger] head[i].uid) by {
            assert(head[i] == new[i]);
        }
        lemma_merged_noop(s, head);
        assert(new.last() == new[new.len() - 1]);
        assert(has_uid(s, new.last().uid));
    }
}

/// Idempotent merge: merging the identical sequence twice yields the same
/// stored sequence as merging it once.
pub proof fn lemma_merge_idempotent(s: Seq<TransactionView>, new: Seq<TransactionView>)
    requires
        tx_seq_sorted(s),
        uids_unique(s),
    ensures
        merged(merged(s, new), new) == merged(s, new),
{
    lemma_merged_props(s, new);
    let m = merged(s, new);
    assert forall|i: int| 0 <= i < new.len() implies has_uid(m, #[trigger] new[i].uid) by {
        assert(has_uid(new, new[i].uid));
    }
    lemma_merged_noop(m, new);
}

/// Two sequences holding the same records carry the same identifiers.
pub proof fn lemma_same_multiset_same_uids(s1: Seq<TransactionView>, s2: Seq<TransactionView>)
    requires
        s1.to_multiset() == s2.to_multiset(),
    ensures
        forall|u: Seq<char>| has_uid(s1, u) <==> has_uid(s2, u),
{
    broadcast use vstd::seq_lib::group_to_multiset_ensures;

    assert forall|u: Seq<char>| has_uid(s1, u) implies has_uid(s2, u) by {
        let i = choose|i: int| 0 <= i < s1.len() && s1[i].uid == u;
        assert(s1.contains(s1[i]));
        assert(s1.to_multiset().count(s1[i]) > 0);
        assert(s2.contains(s1[i]));
        let j = choose|j: int| 0 <= j < s2.len() && s2[j] == s1[i];
        assert(s2[j].uid == u);
    }
    assert forall|u: Seq<char>| has_uid(s2, u) implies has_uid(s1, u) by {
        let i = choose|i: int| 0 <= i < s2.len() && s2[i].uid == u;
        assert(s2.contains(s2[i]));
        assert(s2.to_multiset().count(s2[i]) > 0);
        assert(s1.contains(s2[i]));
        let j = choose|j: int| 0 <= j < s1.len() && s1[j] == s2[i];
        assert(s1[j].uid == u);
    }
}

/// Whether some record in the vector carries the identifier.
fn contains_uid(records: &Vec<Transaction>, uid: &String) -> (r: bool)
    ensures
        r == has_uid(views(records@), uid@),
{
    let mut i: usize = 0;
    while i < records.len()
        invariant
            0 <= i <= records.len(),
            forall|j: int| 0 <= j < i ==> views(records@)[j].uid != uid@,
        decreases records.len() - i,
    {
        proof {
            assert(views(records@)[i as int] == records@[i as int]@);
        }
        if records[i].uid == *uid {
            return true;
        }
        i = i + 1;
    }
    false
}

/// Merges the sequence into an ordered, identifier-unique vector, record
/// by record in order, keyed by identifier: a record whose identifier is
/// already present is dropped, a fresh one enters at its ordered
/// position.
pub fn merge_records(records: &mut Vec<Transaction>, new: Vec<Transaction>)
    requires
        tx_seq_sorted(views(old(records)@)),
        uids_unique(views(old(records)@)),
    ensures
        tx_seq_sorted(views(final(records)@)),
        uids_unique(views(final(records)@)),
        views(final(records)@) == merged(views(old(records)@), views(new@)),
{
    let ghost base = views(records@);
    let ghost nv = views(new@);
    let mut rest = new;
    let ghost mut k: int = 0;
    proof {
        assert(merged(base, nv.subrange(0, 0)) =~= base);
    }
    while rest.len() > 0
        invariant
            0 <= k,
            k + rest@.len() == nv.len(),
            views(rest@) == nv.subrange(k, nv.len() as int),
            views(records@) == merged(base, nv.subrange(0, k)),
            base == views(old(records)@),
            tx_seq_sorted(base),
            uids_unique(base),
            nv == views(new@),
            tx_seq_sorted(views(records@)),
            uids_unique(views(records@)),
        decreases rest.len(),
    {
        let ghost prefix = nv.subrange(0, k);
        let ghost next = nv.subrange(0, k + 1);
        let ghost before = rest@;
        let t = rest.remove(0);
        proof {
            assert(t == before[0]);
            assert(views(before)[0] == before[0]@);
            assert(t@ == nv[k]);
            assert forall|i: int| 0 <= i < rest@.len() implies views(rest@)[i] == nv[k + 1 + i] by {
                before.remove_ensures(0);
                assert(rest@[i] == before[i + 1]);
                assert(views(before)[i + 1] == before[i + 1]@);
            }
            assert(views(rest@) =~= nv.subrange(k + 1, nv.len() as int));
            assert(next.drop_last() =~= prefix);
            assert(next.last() == nv[k]);
        }
        let ghost cur = views(records@);
        proof {
            lemma_insert_new_props(cur, t@);
        }
        if !contains_uid(records, &t.uid) {
            insert_in_order(records, t);
            proof {
                assert(views(records@) == cur.insert(insert_pos(cur, t@), t@));
                assert(views(records@) == insert_new(cur, t@));
            }
        } else {
            proof {
                assert(views(records@) == insert_new(cur, t@));
            }
        }
        proof {
            assert(views(records@) == merged(base, next));
            k = k + 1;
        }
    }
    proof {
        assert(nv.subrange(0, nv.len() as int) =~= nv);
    }
}

/// The durable store of transaction records, ordered and keyed by
/// identifier.
pub struct Store {
    records: Vec<Transaction>,
}

impl View for Store {
    type V = Seq<TransactionView>;

    closed spec fn view(&self) -> Seq<TransactionView> {
        views(self.records@)
    }
}

impl Store {
    /// The stored sequence is sorted and holds one record per identifier.
    pub open spec fn wf(&self) -> bool {
        tx_seq_sorted(self@) && uids_unique(self@)
    }

    /// An empty store.
    pub fn new() -> (r: Store)
        ensures
            r.wf(),
            r@ == Seq::<TransactionView>::empty(),
    {
        let s = Store { records: Vec::new() };
        proof {
            assert(s@ =~= Seq::<TransactionView>::empty());
        }
        s
    }

    /// Merges the sequence into the store, record by record in order,
    /// keyed by identifier: already-stored identifiers are left as they
    /// are, fresh ones enter at their ordered position.
    pub fn merge_and_persist(&mut self, new: Vec<Transaction>)
        requires
            old(self).wf(),
        ensures
            final(self).wf(),
            final(self)@ == merged(old(self)@, views(new@)),
    {
        merge_records(&mut self.records, new);
    }

    /// The stored records, oldest first, for presentation and balance
    /// use.
    pub fn list_all(&self) -> (r: &Vec<Transaction>)
        ensures
            views(r@) == self@,
    {
        &self.records
    }
}

} // verus!
