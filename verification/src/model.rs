//! The transaction data model: plain records with mathematical views.
//!
//! Timestamps are UTC instants held as milliseconds since the Unix epoch,
//! and monetary amounts are integer minor units with a currency code, so
//! no field of the model needs floating point or an opaque provider type.

use vstd::prelude::*;

verus! {

/// Opaque bearer credential for the provider API.
pub struct ApiKey(pub String);

/// Direction of money movement for a transaction.
#[derive(Clone, Copy, Debug, PartialEq, Eq, Structural)]
pub enum Direction {
    In,
    Out,
}

/// Currencies the provider reports amounts in.
#[derive(Clone, Copy, Debug, PartialEq, Eq, Structural)]
pub enum Currency {
    GBP,
    USD,
    EUR,
}

/// Settlement status of a transaction.
#[derive(Clone, Copy, Debug, PartialEq, Eq, Structural)]
pub enum Status {
    Upcoming,
    Pending,
    Settled,
    AccountCheck,
}

/// A monetary amount: integer minor units plus a currency code.
#[derive(Clone, Copy, Debug, PartialEq, Eq, Structural)]
pub struct CurrencyValue {
    pub pennies: u32,
    pub currency: Currency,
}

/// A transaction record as the provider reports it: event time in UTC
/// milliseconds, the provider-issued identifier, counterparty, direction,
/// amount, free-text reference and settlement status.
#[derive(Debug)]
pub struct Transaction {
    pub time: i64,
    pub uid: String,
    pub counterparty_name: String,
    pub direction: Direction,
    pub source_amount: CurrencyValue,
    pub reference: String,
    pub status: Status,
}

/// Mathematical view of a transaction record.
#[verifier::ext_equal]
pub struct TransactionView {
    pub time: int,
    pub uid: Seq<char>,
    pub counterparty_name: Seq<char>,
    pub direction: Direction,
    pub pennies: int,
    pub currency: Currency,
    pub reference: Seq<char>,
    pub status: Status,
}

impl View for Transaction {
    type V = TransactionView;

    open spec fn view(&self) -> TransactionView {
        TransactionView {
            time: self.time as int,
            uid: self.uid@,
            counterparty_name: self.counterparty_name@,
            direction: self.direction,
            pennies: self.source_amount.pennies as int,
            currency: self.source_amount.currency,
            reference: self.reference@,
            status: self.status,
        }
    }
}

impl Transaction {
    /// A field-for-field copy of the record.
    pub fn duplicate(&self) -> (r: Transaction)
        ensures
            r == *self,
    {
        Transaction {
            time: self.time,
            uid: self.uid.clone(),
            counterparty_name: self.counterparty_name.clone(),
            direction: self.direction,
            source_amount: self.source_amount,
            reference: self.reference.clone(),
            status: self.status,
        }
    }
}

/// The views of a sequence of records, in order.
pub open spec fn views(s: Seq<Transaction>) -> Seq<TransactionView> {
    s.map_values(|t: Transaction| t@)
}

/// Copies a whole sequence of records.
pub fn duplicate_all(v: &Vec<Transaction>) -> (r: Vec<Transaction>)
    ensures
        r@ == v@,
{
    let mut out: Vec<Transaction> = Vec::new();
    let mut i: usize = 0;
    while i < v.len()
        invariant
            0 <= i <= v.len(),
            out@ == v@.subrange(0, i as int),
        decreases v.len() - i,
    {
        out.push(v[i].duplicate());
        i = i + 1;
        proof {
            assert(out@ =~= v@.subrange(0, i as int));
        }
    }
    proof {
        assert(out@ =~= v@);
    }
    out
}

} // verus!
