//! The total order on transaction records.
//!
//! Records are ordered by event time first, then by the remaining fields
//! as tie-break, so that merging results from several accounts yields one
//! deterministic chronological sequence.

use vstd::prelude::*;
use crate::model::{Currency, Direction, Status, Transaction, TransactionView};

verus! {

/// Strict lexicographic order on character sequences by code point.
pub open spec fn chars_lt(a: Seq<char>, b: Seq<char>) -> bool
    decreases a.len(),
{
    if b.len() == 0 {
        false
    } else if a.len() == 0 {
        true
    } else if a[0] == b[0] {
        chars_lt(a.drop_first(), b.drop_first())
    } else {
        (a[0] as u32) < (b[0] as u32)
    }
}

/// Any two character sequences are comparable or equal.
pub proof fn lemma_chars_lt_connected(a: Seq<char>, b: Seq<char>)
    ensures
        chars_lt(a, b) || chars_lt(b, a) || a == b,
    decreases a.len(),
{
    if b.len() == 0 {
        if a.len() == 0 {
            assert(a =~= b);
        }
    } else if a.len() == 0 {
    } else if a[0] == b[0] {
        lemma_chars_lt_connected(a.drop_first(), b.drop_first());
        if a.drop_first() == b.drop_first() {
            assert(a.drop_first().len() == a.len() - 1);
            assert(b.drop_first().len() == b.len() - 1);
            assert forall|i: int| 0 <= i < a.len() implies a[i] == b[i] by {
                if i > 0 {
                    assert(a.drop_first()[i - 1] == b.drop_first()[i - 1]);
                }
            }
            assert(a =~= b);
        }
    } else {
        if a[0] as u32 == b[0] as u32 {
            vstd::utf8::char_u32_cast(a[0], a[0] as u32);
            vstd::utf8::char_u32_cast(b[0], b[0] as u32);
            assert(false);
        }
    }
}

/// The strict order never holds in both directions.
pub proof fn lemma_chars_lt_asym(a: Seq<char>, b: Seq<char>)
    ensures
        !(chars_lt(a, b) && chars_lt(b, a)),
    decreases a.len(),
{
    if a.len() != 0 && b.len() != 0 && a[0] == b[0] {
        lemma_chars_lt_asym(a.drop_first(), b.drop_first());
    }
}

/// The strict order is transitive.
pub proof fn lemma_chars_lt_trans(a: Seq<char>, b: Seq<char>, c: Seq<char>)
    requires
        chars_lt(a, b),
        chars_lt(b, c),
    ensures
        chars_lt(a, c),
    decreases a.len(),
{
    if a.len() == 0 {
    } else {
        if a[0] == b[0] && b[0] == c[0] {
            lemma_chars_lt_trans(a.drop_first(), b.drop_first(), c.drop_first());
        }
    }
}

/// Rank of a direction within the tie-break order.
pub open spec fn dir_rank(d: Direction) -> int {
    match d {
        Direction::In => 0,
        Direction::Out => 1,
    }
}

/// Rank of a currency within the tie-break order.
pub open spec fn cur_rank(c: Currency) -> int {
    match c {
        Currency::GBP => 0,
        Currency::USD => 1,
        Currency::EUR => 2,
    }
}

/// Rank of a settlement status within the tie-break order.
pub open spec fn status_rank(s: Status) -> int {
    match s {
        Status::Upcoming => 0,
        Status::Pending => 1,
        Status::Settled => 2,
        Status::AccountCheck => 3,
    }
}

/// Strict total order on transaction views: event time first, then the
/// remaining fields as tie-break.
pub open spec fn tx_lt(a: TransactionView, b: TransactionView) -> bool {
    if a.time != b.time {
        a.time < b.time
    } else if a.uid != b.uid {
        chars_lt(a.uid, b.uid)
    } else if a.counterparty_name != b.counterparty_name {
        chars_lt(a.counterparty_name, b.counterparty_name)
    } else if a.direction != b.direction {
        dir_rank(a.direction) < dir_rank(b.direction)
    } else if a.pennies != b.pennies {
        a.pennies < b.pennies
    } else if a.currency != b.currency {
        cur_rank(a.currency) < cur_rank(b.currency)
    } else if a.reference != b.reference {
        chars_lt(a.reference, b.reference)
    } else {
        status_rank(a.status) < status_rank(b.status)
    }
}

/// The order on transaction views, equality allowed.
pub open spec fn tx_le(a: TransactionView, b: TransactionView) -> bool {
    tx_lt(a, b) || a == b
}

/// The order is total and antisymmetric: any two views are comparable,
/// and views ordered both ways are equal.
pub proof fn lemma_tx_order_total(a: TransactionView, b: TransactionView)
    ensures
        tx_le(a, b) || tx_le(b, a),
        tx_le(a, b) && tx_le(b, a) ==> a == b,
{
    lemma_chars_lt_connected(a.uid, b.uid);
    lemma_chars_lt_connected(a.counterparty_name, b.counterparty_name);
    lemma_chars_lt_connected(a.reference, b.reference);
    lemma_chars_lt_asym(a.uid, b.uid);
    lemma_chars_lt_asym(a.counterparty_name, b.counterparty_name);
    lemma_chars_lt_asym(a.reference, b.reference);
    if !tx_lt(a, b) && !tx_lt(b, a) {
        assert(a =~= b);
    }
}

/// The order is transitive.
pub proof fn lemma_tx_le_trans(a: TransactionView, b: TransactionView, c: TransactionView)
    requires
        tx_le(a, b),
        tx_le(b, c),
    ensures
        tx_le(a, c),
{
    if a == b || b == c {
    } else {
        lemma_chars_lt_asym(a.uid, b.uid);
        lemma_chars_lt_asym(b.uid, c.uid);
        lemma_chars_lt_asym(a.uid, c.uid);
        if chars_lt(a.uid, b.uid) && chars_lt(b.uid, c.uid) {
            lemma_chars_lt_trans(a.uid, b.uid, c.uid);
        }
        lemma_chars_lt_asym(a.counterparty_name, b.counterparty_name);
        lemma_chars_lt_asym(b.counterparty_name, c.counterparty_name);
        lemma_chars_lt_asym(a.counterparty_name, c.counterparty_name);
        if chars_lt(a.counterparty_name, b.counterparty_name) && chars_lt(
            b.counterparty_name,
            c.counterparty_name,
        ) {
            lemma_chars_lt_trans(a.counterparty_name, b.counterparty_name, c.counterparty_name);
        }
        lemma_chars_lt_asym(a.reference, b.reference);
        lemma_chars_lt_asym(b.reference, c.reference);
        lemma_chars_lt_asym(a.reference, c.reference);
        if chars_lt(a.reference, b.reference) && chars_lt(b.reference, c.reference) {
            lemma_chars_lt_trans(a.reference, b.reference, c.reference);
        }
        assert(tx_lt(a, c));
    }
}

/// The transaction order as a relation value, for vstd's ordering tools.
pub open spec fn tx_leq() -> spec_fn(TransactionView, TransactionView) -> bool {
    |a: TransactionView, b: TransactionView| tx_le(a, b)
}

/// The transaction order is a total ordering in vstd's sense.
pub proof fn lemma_tx_leq_total_ordering()
    ensures
        vstd::relations::total_ordering(tx_leq()),
{
    let r = tx_leq();
    assert(vstd::relations::reflexive(r)) by {
        assert forall|a: TransactionView| #[trigger] r(a, a) by {
            assert(tx_le(a, a));
        }
    }
    assert(vstd::relations::antisymmetric(r)) by {
        assert forall|a: TransactionView, b: TransactionView|
            #[trigger] r(a, b) && #[trigger] r(b, a) implies a == b by {
            lemma_tx_order_total(a, b);
        }
    }
    assert(vstd::relations::transitive(r)) by {
        assert forall|a: TransactionView, b: TransactionView, c: TransactionView|
            #[trigger] r(a, b) && #[trigger] r(b, c) implies r(a, c) by {
            lemma_tx_le_trans(a, b, c);
        }
    }
    assert(vstd::relations::strongly_connected(r)) by {
        assert forall|a: TransactionView, b: TransactionView| #[trigger] r(a, b) || #[trigger] r(
            b,
            a,
        ) by {
            lemma_tx_order_total(a, b);
        }
    }
}

/// Relies on `str`'s `PartialOrd`: Rust orders strings lexicographically
/// by byte value, which for UTF-8 text coincides with lexicographic order
/// by code point.
#[verifier::external_body]
fn str_lt(a: &str, b: &str) -> (r: bool)
    ensures
        r == chars_lt(a@, b@),
{
    a < b
}

/// Decides the strict order on two records.
pub fn tx_lt_exec(a: &Transaction, b: &Transaction) -> (r: bool)
    ensures
        r == tx_lt(a@, b@),
{
    if a.time != b.time {
        a.time < b.time
    } else if !(a.uid == b.uid) {
        str_lt(a.uid.as_str(), b.uid.as_str())
    } else if !(a.counterparty_name == b.counterparty_name) {
        str_lt(a.counterparty_name.as_str(), b.counterparty_name.as_str())
    } else if dir_rank_exec(a.direction) != dir_rank_exec(b.direction) {
        dir_rank_exec(a.direction) < dir_rank_exec(b.direction)
    } else if a.source_amount.pennies != b.source_amount.pennies {
        a.source_amount.pennies < b.source_amount.pennies
    } else if cur_rank_exec(a.source_amount.currency) != cur_rank_exec(b.source_amount.currency) {
        cur_rank_exec(a.source_amount.currency) < cur_rank_exec(b.source_amount.currency)
    } else if !(a.reference == b.reference) {
        str_lt(a.reference.as_str(), b.reference.as_str())
    } else {
        status_rank_exec(a.status) < status_rank_exec(b.status)
    }
}

/// Rank of a direction, executable form.
fn dir_rank_exec(d: Direction) -> (r: u8)
    ensures
        r as int == dir_rank(d),
{
    match d {
        Direction::In => 0,
        Direction::Out => 1,
    }
}

/// Rank of a currency, executable form.
fn cur_rank_exec(c: Currency) -> (r: u8)
    ensures
        r as int == cur_rank(c),
{
    match c {
        Currency::GBP => 0,
        Currency::USD => 1,
        Currency::EUR => 2,
    }
}

/// Rank of a settlement status, executable form.
fn status_rank_exec(s: Status) -> (r: u8)
    ensures
        r as int == status_rank(s),
{
    match s {
        Status::Upcoming => 0,
        Status::Pending => 1,
        Status::Settled => 2,
        Status::AccountCheck => 3,
    }
}

} // verus!
