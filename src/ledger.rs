use vstd::prelude::*;
use crate::limits::{limit_of, limit_by_client_id};
use crate::transaction::Transaction;

verus! {

/// Why an entry was not appended.
#[derive(Debug, Clone, Copy, PartialEq, Eq, Structural)]
pub enum LedgerError {
    /// The debit would take the balance beyond the client's credit limit.
    InsufficientLimit,
    /// The kind is neither a credit `'c'` nor a debit `'d'`.
    InvalidKind,
    /// The credit would take the balance past what a balance can hold.
    BalanceOutOfRange,
}

/// The balance that the ledger starts from: that of the last committed entry,
/// or zero for an empty ledger.
pub open spec fn previous_balance(last: Option<Transaction>) -> int {
    match last {
        Some(t) => t.balance as int,
        None => 0,
    }
}

/// What appending an entry of `kind` and `value` after a ledger whose balance
/// is `previous`, for a client with credit limit `limit`, gives: the new balance
/// or the reason for the refusal.
pub open spec fn outcome(previous: int, limit: int, kind: char, value: u32) -> Result<
    int,
    LedgerError,
> {
    if kind == 'c' {
        if previous + value <= i32::MAX {
            Ok(previous + value)
        } else {
            Err(LedgerError::BalanceOutOfRange)
        }
    } else if kind == 'd' {
        let candidate = previous - value;
        if -limit <= candidate <= limit {
            Ok(candidate)
        } else {
            Err(LedgerError::InsufficientLimit)
        }
    } else {
        Err(LedgerError::InvalidKind)
    }
}

/// The entry that appending `t` after `last` at key `applied_at` persists,
/// or the reason for the refusal.
pub open spec fn decided(last: Option<Transaction>, t: Transaction, applied_at: [u8; 27]) -> Result<
    Transaction,
    LedgerError,
> {
    match outcome(previous_balance(last), limit_of(t.client_id) as int, t.kind, t.value) {
        Ok(balance) => Ok(
            Transaction { applied_at, balance: balance as i32, limit: limit_of(t.client_id), ..t },
        ),
        Err(e) => Err(e),
    }
}

/// Decides an append: given the last committed entry of the client's ledger
/// (`None` when it is empty), the requested entry and the key `applied_at` that
/// the clock gave, returns the entry to persist, with its resulting balance, or
/// the reason to abort. A refused entry is not to be written.
pub fn settle(last: Option<Transaction>, new_transaction: Transaction, applied_at: [u8; 27]) -> (r:
    Result<Transaction, LedgerError>)
    ensures
        r == decided(last, new_transaction, applied_at),
{
    let limit = limit_by_client_id(new_transaction.client_id);
    let previous: i64 = match last {
        Some(t) => t.balance as i64,
        None => 0,
    };
    let value = new_transaction.value as i64;
    let balance: i64 = if new_transaction.kind == 'c' {
        if previous + value > i32::MAX as i64 {
            return Err(LedgerError::BalanceOutOfRange);
        }
        previous + value
    } else if new_transaction.kind == 'd' {
        let candidate = previous - value;
        if candidate < -(limit as i64) || candidate > limit as i64 {
            return Err(LedgerError::InsufficientLimit);
        }
        candidate
    } else {
        return Err(LedgerError::InvalidKind);
    };
    Ok(Transaction { applied_at, balance: balance as i32, limit, ..new_transaction })
}

/// The ledger as the sequence of its committed entries, after one append whose
/// decision was `d`: a refusal leaves it as it was.
pub open spec fn after_append(entries: Seq<Transaction>, d: Result<Transaction, LedgerError>) -> Seq<
    Transaction,
> {
    match d {
        Ok(t) => entries.push(t),
        Err(_) => entries,
    }
}

/// The last committed entry, if any.
pub open spec fn last_of(entries: Seq<Transaction>) -> Option<Transaction> {
    if entries.len() == 0 {
        None
    } else {
        Some(entries.last())
    }
}

/// Entries in strictly ascending order of their keys.
pub open spec fn keys_ascending(entries: Seq<Transaction>) -> bool {
    forall|i: int, j: int|
        0 <= i < j < entries.len() ==> key_before(entries[i].applied_at@, entries[j].applied_at@)
}

/// Lexicographic order of two keys of equal width.
pub open spec fn key_before(a: Seq<u8>, b: Seq<u8>) -> bool {
    exists|k: int|
        0 <= k < a.len() && k < b.len() && a[k] < b[k] && forall|m: int| 0 <= m < k ==> a[m] == b[m]
}

/// An accepted debit leaves a balance whose magnitude is within the client's
/// credit limit; a refused append leaves the ledger's entries as they were.
pub proof fn lemma_debit_within_limit(entries: Seq<Transaction>, t: Transaction, applied_at: [u8; 27])
    ensures
        decided(last_of(entries), t, applied_at) is Ok && t.kind == 'd' ==> -limit_of(t.client_id)
            <= decided(last_of(entries), t, applied_at)->Ok_0.balance <= limit_of(t.client_id),
        decided(last_of(entries), t, applied_at) is Err ==> after_append(
            entries,
            decided(last_of(entries), t, applied_at),
        ) == entries,
{
}

/// Appends add the decided entry at the end and nothing else, so the ledger
/// lists its entries in the order of the successful commits; and while each
/// new key follows the last one, that is also ascending key order.
pub proof fn lemma_append_keeps_order(entries: Seq<Transaction>, t: Transaction, applied_at: [u8; 27])
    requires
        keys_ascending(entries),
        entries.len() > 0 ==> key_before(entries.last().applied_at@, applied_at@),
    ensures
        decided(last_of(entries), t, applied_at) is Ok ==> after_append(
            entries,
            decided(last_of(entries), t, applied_at),
        ) == entries.push(decided(last_of(entries), t, applied_at)->Ok_0),
        decided(last_of(entries), t, applied_at) is Ok ==> decided(
            last_of(entries),
            t,
            applied_at,
        )->Ok_0.applied_at == applied_at,
        keys_ascending(after_append(entries, decided(last_of(entries), t, applied_at))),
{
    let d = decided(last_of(entries), t, applied_at);
    if d is Ok {
        let n = after_append(entries, d);
        assert forall|i: int, j: int| 0 <= i < j < n.len() implies key_before(
            n[i].applied_at@,
            n[j].applied_at@,
        ) by {
            if j == entries.len() && i < entries.len() - 1 {
                lemma_key_before_transitive(
                    entries[i].applied_at@,
                    entries.last().applied_at@,
                    applied_at@,
                );
            }
        }
    }
}

proof fn lemma_key_before_transitive(a: Seq<u8>, b: Seq<u8>, c: Seq<u8>)
    requires
        key_before(a, b),
        key_before(b, c),
    ensures
        key_before(a, c),
{
    let k1 = choose|k: int|
        0 <= k < a.len() && k < b.len() && a[k] < b[k] && forall|m: int| 0 <= m < k ==> a[m] == b[m];
    let k2 = choose|k: int|
        0 <= k < b.len() && k < c.len() && b[k] < c[k] && forall|m: int| 0 <= m < k ==> b[m] == c[m];
    let k = if k1 < k2 { k1 } else { k2 };
    assert(0 <= k < a.len() && k < c.len() && a[k] < c[k] && forall|m: int| 0 <= m < k ==> a[m] == c[m]);
}

} // verus!
