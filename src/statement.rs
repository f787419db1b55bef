use vstd::prelude::*;
use crate::limits::{limit_of, limit_by_client_id};
use crate::transaction::Transaction;
use crate::render::{history_json, int_text, push_str, push_bytes, push_int, push_history};
use vstd::string::StringSliceAdditionalSpecFns;

verus! {

/// The balance part of a statement.
#[derive(Debug, Clone, Copy)]
pub struct Balance {
    pub total: i32,
    pub date: [u8; 27],
    pub limit: i32,
}

/// A client's balance and every entry of its ledger, in storage order.
#[derive(Debug, Clone)]
pub struct Statement {
    pub balance: Balance,
    pub last_transactions: Vec<Transaction>,
}

/// The total of a ledger: the balance of its last entry, zero when it is empty.
pub open spec fn total_of(entries: Seq<Transaction>) -> int {
    if entries.len() == 0 {
        0
    } else {
        entries.last().balance as int
    }
}

/// The JSON text of a statement, its entries most recent first.
pub open spec fn statement_json(s: Statement) -> Seq<u8> {
    "{\"balance\":{\"total\":".spec_bytes() + int_text(s.balance.total as int)
        + ",\"as_of\":\"".spec_bytes() + s.balance.date@ + "\",\"limit\":".spec_bytes() + int_text(
        s.balance.limit as int,
    ) + "},\"transactions\":[".spec_bytes() + history_json(s.last_transactions@) + "]}".spec_bytes()
}

impl Statement {
    /// A statement of `client_id` as of the time `as_of`, with its limit.
    pub fn new(client_id: u8, total: i32, last_transactions: Vec<Transaction>, as_of: [u8; 27]) -> (r:
        Statement)
        ensures
            r.balance.total == total,
            r.balance.date == as_of,
            r.balance.limit == limit_of(client_id),
            r.last_transactions@ == last_transactions@,
    {
        let limit = limit_by_client_id(client_id);
        Statement { balance: Balance { total, date: as_of, limit }, last_transactions }
    }

    /// The JSON text of this statement.
    pub fn to_json(&self) -> (r: Vec<u8>)
        ensures
            r@ == statement_json(*self),
    {
        let mut out: Vec<u8> = Vec::new();
        push_str(&mut out, "{\"balance\":{\"total\":");
        push_int(&mut out, self.balance.total as i64);
        push_str(&mut out, ",\"as_of\":\"");
        push_bytes(&mut out, self.balance.date.as_slice());
        push_str(&mut out, "\",\"limit\":");
        push_int(&mut out, self.balance.limit as i64);
        push_str(&mut out, "},\"transactions\":[");
        push_history(&mut out, &self.last_transactions);
        push_str(&mut out, "]}");
        assert(out@ =~= statement_json(*self));
        out
    }
}

/// Assembles the statement of a client from its ledger's entries in storage
/// order: the total is the last entry's balance, or zero for an empty ledger.
pub fn statement_of(client_id: u8, entries: Vec<Transaction>, as_of: [u8; 27]) -> (r: Statement)
    ensures
        r.balance.total == total_of(entries@),
        r.balance.date == as_of,
        r.balance.limit == limit_of(client_id),
        r.last_transactions@ == entries@,
{
    let n = entries.len();
    if n == 0 {
        return Statement::new(client_id, 0, entries, as_of);
    }
    let total = entries[n - 1].balance;
    Statement::new(client_id, total, entries, as_of)
}

} // verus!
