use vstd::prelude::*;
use vstd::string::StringSliceAdditionalSpecFns;
use crate::transaction::{Transaction, trim_padding};

verus! {

/// Decimal digits of a natural number, most significant first.
pub open spec fn digits(n: nat) -> Seq<u8>
    decreases n,
{
    if n < 10 {
        seq![(48 + n) as u8]
    } else {
        digits(n / 10).push((48 + n % 10) as u8)
    }
}

/// Decimal text of an integer, with a leading minus sign when negative.
pub open spec fn int_text(n: int) -> Seq<u8> {
    if n < 0 {
        seq![45u8] + digits((-n) as nat)
    } else {
        digits(n as nat)
    }
}

/// Appends the bytes of a string.
pub fn push_str(out: &mut Vec<u8>, s: &str)
    ensures
        final(out)@ == old(out)@ + s.spec_bytes(),
{
    push_bytes(out, s.as_bytes());
}

/// Appends a byte slice.
pub fn push_bytes(out: &mut Vec<u8>, s: &[u8])
    ensures
        final(out)@ == old(out)@ + s@,
{
    let ghost start = out@;
    let mut i: usize = 0;
    while i < s.len()
        invariant
            i <= s@.len(),
            out@ == start + s@.subrange(0, i as int),
        decreases s@.len() - i,
    {
        out.push(s[i]);
        i = i + 1;
        assert(out@ =~= start + s@.subrange(0, i as int));
    }
    assert(s@.subrange(0, s@.len() as int) =~= s@);
}

/// Appends the decimal digits of a natural number.
pub fn push_digits(out: &mut Vec<u8>, n: u64)
    ensures
        final(out)@ == old(out)@ + digits(n as nat),
    decreases n,
{
    if n >= 10 {
        push_digits(out, n / 10);
    }
    out.push((48 + n % 10) as u8);
    assert(final(out)@ =~= old(out)@ + digits(n as nat));
}

/// Appends the decimal text of an integer.
pub fn push_int(out: &mut Vec<u8>, n: i64)
    requires
        n > i64::MIN,
    ensures
        final(out)@ == old(out)@ + int_text(n as int),
{
    if n < 0 {
        out.push(45u8);
        push_digits(out, (-n) as u64);
        assert(final(out)@ =~= old(out)@ + int_text(n as int));
    } else {
        push_digits(out, n as u64);
    }
}

/// The JSON text of one entry: `{"value":V,"kind":"K","description":"D","applied_at":"A"}`,
/// the description with its padding trimmed.
pub open spec fn transaction_json(t: Transaction) -> Seq<u8> {
    "{\"value\":".spec_bytes() + digits(t.value as nat) + ",\"kind\":\"".spec_bytes() + seq![
        (t.kind as u32) as u8,
    ] + "\",\"description\":\"".spec_bytes() + trim_padding(t.description@)
        + "\",\"applied_at\":\"".spec_bytes() + t.applied_at@ + "\"}".spec_bytes()
}

/// The entries' JSON texts, most recent (last) first, separated by commas.
pub open spec fn history_json(ts: Seq<Transaction>) -> Seq<u8>
    decreases ts.len(),
{
    if ts.len() == 0 {
        Seq::empty()
    } else if ts.len() == 1 {
        transaction_json(ts[0])
    } else {
        history_json(ts.drop_first()) + ",".spec_bytes() + transaction_json(ts[0])
    }
}

/// The JSON text of the reply to an accepted append.
pub open spec fn balance_json(limit: int, balance: int) -> Seq<u8> {
    "{\"limit\":".spec_bytes() + int_text(limit) + ",\"balance\":".spec_bytes() + int_text(balance)
        + "}".spec_bytes()
}

fn trimmed_len(d: &[u8; 10]) -> (r: usize)
    ensures
        r <= 10,
        trim_padding(d@) == d@.subrange(0, r as int),
{
    let mut n: usize = 10;
    assert(d@.subrange(0, 10) =~= d@);
    while n > 0 && d[n - 1] == 0u8
        invariant
            n <= 10,
            trim_padding(d@) == trim_padding(d@.subrange(0, n as int)),
        decreases n,
    {
        assert(d@.subrange(0, n as int).drop_last() =~= d@.subrange(0, n - 1));
        n = n - 1;
    }
    n
}

impl Transaction {
    /// The JSON text of this entry.
    pub fn to_json(&self) -> (r: Vec<u8>)
        ensures
            r@ == transaction_json(*self),
    {
        let mut out: Vec<u8> = Vec::new();
        push_str(&mut out, "{\"value\":");
        push_digits(&mut out, self.value as u64);
        push_str(&mut out, ",\"kind\":\"");
        out.push((self.kind as u32) as u8);
        push_str(&mut out, "\",\"description\":\"");
        let n = trimmed_len(&self.description);
        push_bytes(&mut out, self.description.as_slice().split_at(n).0);
        push_str(&mut out, "\",\"applied_at\":\"");
        push_bytes(&mut out, self.applied_at.as_slice());
        push_str(&mut out, "\"}");
        assert(out@ =~= transaction_json(*self));
        out
    }
}

/// Renders the entries, most recent first, separated by commas.
pub fn push_history(out: &mut Vec<u8>, ts: &Vec<Transaction>)
    ensures
        final(out)@ == old(out)@ + history_json(ts@),
{
    let ghost start = out@;
    let n = ts.len();
    let mut k: usize = 0;
    assert(ts@.subrange(n as int, n as int) =~= Seq::<Transaction>::empty());
    while k < n
        invariant
            n == ts@.len(),
            k <= n,
            out@ == start + history_json(ts@.subrange(n - k, n as int)),
        decreases n - k,
    {
        let ghost before = ts@.subrange(n - k, n as int);
        let ghost after = ts@.subrange(n - k - 1, n as int);
        assert(after.drop_first() =~= before);
        if k > 0 {
            push_str(out, ",");
        }
        let t = ts[n - 1 - k];
        let j = t.to_json();
        push_bytes(out, j.as_slice());
        k = k + 1;
        assert(out@ =~= start + history_json(after));
    }
    assert(ts@.subrange(0, n as int) =~= ts@);
}

} // verus!
