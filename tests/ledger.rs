use vernal::ledger::{settle, LedgerError};
use vernal::request::{balance_reply, ok_response};
use vernal::statement::{statement_of, Statement};
use vernal::transaction::Transaction;

const T0: &str = "2024-01-02T03:04:05.000001Z";
const T1: &str = "2024-01-02T03:04:05.000002Z";
const T2: &str = "2024-01-02T03:04:05.000003Z";

fn key(s: &str) -> [u8; 27] {
    s.as_bytes().try_into().unwrap()
}

#[test]
fn fresh_client_deposit_reply() {
    let request = Transaction::new(T0, 1000, 'c', "deposit", 1);
    let entry = settle(None, request, key(T1)).unwrap();
    assert_eq!(entry.balance, 1000);
    assert_eq!(entry.limit, 100_000);
    assert_eq!(entry.applied_at, key(T1));
    assert_eq!(
        String::from_utf8(balance_reply(entry.limit, entry.balance)).unwrap(),
        "{\"limit\":100000,\"balance\":1000}"
    );
}

#[test]
fn debit_beyond_limit_is_refused() {
    let request = Transaction::new(T0, 90_000, 'd', "rent", 2);
    assert_eq!(settle(None, request, key(T1)).unwrap_err(), LedgerError::InsufficientLimit);
    let mut entries: Vec<Transaction> = Vec::new();
    if let Ok(t) = settle(None, request, key(T1)) {
        entries.push(t);
    }
    assert!(entries.is_empty());
    let s = statement_of(2, entries, key(T2));
    assert_eq!(s.balance.total, 0);
}

#[test]
fn debit_up_to_limit_is_accepted() {
    let request = Transaction::new(T0, 80_000, 'd', "rent", 2);
    let entry = settle(None, request, key(T1)).unwrap();
    assert_eq!(entry.balance, -80_000);
    let again = Transaction::new(T1, 1, 'd', "more", 2);
    assert_eq!(settle(Some(entry), again, key(T2)).unwrap_err(), LedgerError::InsufficientLimit);
}

#[test]
fn credit_adds_to_last_balance() {
    let first = settle(None, Transaction::new(T0, 300, 'c', "a", 4), key(T0)).unwrap();
    let second = settle(Some(first), Transaction::new(T1, 200, 'd', "b", 4), key(T1)).unwrap();
    assert_eq!(second.balance, 100);
    let third = settle(Some(second), Transaction::new(T2, 50, 'c', "c", 4), key(T2)).unwrap();
    assert_eq!(third.balance, 150);
}

#[test]
fn unknown_kind_is_refused() {
    let request = Transaction::new(T0, 10, 'x', "odd", 1);
    assert_eq!(settle(None, request, key(T1)).unwrap_err(), LedgerError::InvalidKind);
}

#[test]
fn credit_past_balance_range_is_refused() {
    let mut last = Transaction::new(T0, 1, 'c', "a", 1);
    last.balance = i32::MAX;
    let request = Transaction::new(T1, 1, 'c', "b", 1);
    assert_eq!(settle(Some(last), request, key(T1)).unwrap_err(), LedgerError::BalanceOutOfRange);
}

#[test]
fn accepted_debit_stays_within_limit() {
    let mut last = Transaction::new(T0, 1, 'c', "a", 5);
    for value in [1u32, 1000, 250_000, 499_999, 500_000, 500_001, 1_000_000, u32::MAX] {
        for balance in [-500_000i32, -1, 0, 1, 500_000] {
            last.balance = balance;
            let request = Transaction::new(T1, value, 'd', "d", 5);
            match settle(Some(last), request, key(T1)) {
                Ok(t) => assert!(t.balance.unsigned_abs() <= 500_000),
                Err(e) => assert_eq!(e, LedgerError::InsufficientLimit),
            }
        }
    }
}

#[test]
fn deposit_then_statement() {
    let entry = settle(None, Transaction::new(T0, 500, 'c', "salary", 3), key(T1)).unwrap();
    let s: Statement = statement_of(3, vec![entry], key(T2));
    assert_eq!(s.balance.total, 500);
    assert_eq!(s.balance.limit, 1_000_000);
    assert_eq!(s.last_transactions.len(), 1);
    assert_eq!(s.last_transactions[0].value, 500);
    assert_eq!(
        String::from_utf8(s.to_json()).unwrap(),
        "{\"balance\":{\"total\":500,\"as_of\":\"2024-01-02T03:04:05.000003Z\",\"limit\":1000000},\"transactions\":[{\"value\":500,\"kind\":\"c\",\"description\":\"salary\",\"applied_at\":\"2024-01-02T03:04:05.000002Z\"}]}"
    );
}

#[test]
fn statement_lists_most_recent_first() {
    let a = settle(None, Transaction::new(T0, 5, 'c', "a", 1), key(T0)).unwrap();
    let b = settle(Some(a), Transaction::new(T1, 7, 'd', "b", 1), key(T1)).unwrap();
    let s = statement_of(1, vec![a, b], key(T2));
    assert_eq!(s.balance.total, -2);
    let text = String::from_utf8(s.to_json()).unwrap();
    let pos_b = text.find("\"description\":\"b\"").unwrap();
    let pos_a = text.find("\"description\":\"a\"").unwrap();
    assert!(pos_b < pos_a);
    assert!(text.contains("\"total\":-2"));
}

#[test]
fn empty_ledger_statement() {
    let s = statement_of(5, Vec::new(), key(T0));
    assert_eq!(s.balance.total, 0);
    assert_eq!(s.balance.limit, 500_000);
    assert_eq!(
        String::from_utf8(s.to_json()).unwrap(),
        "{\"balance\":{\"total\":0,\"as_of\":\"2024-01-02T03:04:05.000001Z\",\"limit\":500000},\"transactions\":[]}"
    );
}

#[test]
fn statement_new_keeps_values() {
    let s = Statement::new(2, -7, Vec::new(), key(T1));
    assert_eq!(s.balance.total, -7);
    assert_eq!(s.balance.limit, 80_000);
    assert_eq!(s.balance.date, key(T1));
}

#[test]
fn ok_response_frames_body() {
    let r = ok_response(b"{\"a\":1}");
    assert_eq!(
        String::from_utf8(r).unwrap(),
        "HTTP/1.1 200 OK\r\nContent-Type: application/json\r\nContent-Length: 7\r\n\r\n{\"a\":1}"
    );
}
