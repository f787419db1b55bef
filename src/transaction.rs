use vstd::prelude::*;
use crate::limits::{limit_of, limit_by_client_id};
use vstd::string::StringSliceAdditionalSpecFns;

verus! {

/// Big-endian bytes of a 32-bit word.
pub open spec fn be_bytes(v: u32) -> Seq<u8> {
    seq![(v >> 24u32) as u8, (v >> 16u32) as u8, (v >> 8u32) as u8, v as u8]
}

/// The 32-bit word whose big-endian bytes are `b[0..4]`.
pub open spec fn be_word(b: Seq<u8>) -> u32 {
    ((b[0] as u32) << 24u32) | ((b[1] as u32) << 16u32) | ((b[2] as u32) << 8u32) | (b[3] as u32)
}

/// `s` zero-padded (or cut) to exactly `n` bytes.
pub open spec fn padded(s: Seq<u8>, n: nat) -> Seq<u8> {
    Seq::new(n, |i: int| if i < s.len() { s[i] } else { 0u8 })
}

/// `s` without its trailing zero bytes.
pub open spec fn trim_padding(s: Seq<u8>) -> Seq<u8>
    decreases s.len(),
{
    if s.len() > 0 && s.last() == 0u8 {
        trim_padding(s.drop_last())
    } else {
        s
    }
}

/// One ledger entry. `applied_at` is the fixed-width timestamp that keys it in
/// storage; `description` is zero-padded; `limit` is derived from `client_id`.
#[derive(Debug, Clone, Copy)]
pub struct Transaction {
    pub applied_at: [u8; 27],
    pub value: u32,
    pub kind: char,
    pub description: [u8; 10],
    pub client_id: u8,
    pub balance: i32,
    pub limit: i32,
}

/// The 20-byte record of an entry: value, kind tag, padded description,
/// client id and balance, integers big-endian.
pub open spec fn encoding(t: Transaction) -> Seq<u8> {
    be_bytes(t.value) + seq![(t.kind as u32) as u8] + t.description@ + seq![t.client_id]
        + be_bytes(t.balance as u32)
}

fn push_be(out: &mut Vec<u8>, v: u32)
    ensures
        final(out)@ == old(out)@ + be_bytes(v),
{
    out.push((v >> 24u32) as u8);
    out.push((v >> 16u32) as u8);
    out.push((v >> 8u32) as u8);
    out.push(v as u8);
    assert(final(out)@ =~= old(out)@ + be_bytes(v));
}

fn word_at(b: &[u8; 20], i: usize) -> (r: u32)
    requires
        i + 4 <= 20,
    ensures
        r == be_word(b@.subrange(i as int, i + 4)),
{
    ((b[i] as u32) << 24u32) | ((b[i + 1] as u32) << 16u32) | ((b[i + 2] as u32) << 8u32) | (
    b[i + 3] as u32)
}

proof fn lemma_word_of_bytes(v: u32)
    ensures
        be_word(be_bytes(v)) == v,
{
    let b0 = (v >> 24u32) as u8;
    let b1 = (v >> 16u32) as u8;
    let b2 = (v >> 8u32) as u8;
    let b3 = v as u8;
    assert(((b0 as u32) << 24u32) | ((b1 as u32) << 16u32) | ((b2 as u32) << 8u32) | (b3 as u32)
        == v) by (bit_vector)
        requires
            b0 == (v >> 24u32) as u8,
            b1 == (v >> 16u32) as u8,
            b2 == (v >> 8u32) as u8,
            b3 == v as u8,
    ;
}

impl Transaction {
    /// A new entry with balance zero, the description zero-padded to ten bytes
    /// and the limit of its client.
    pub fn new(applied_at: &str, value: u32, kind: char, description: &str, client_id: u8) -> (r:
        Transaction)
        requires
            applied_at.spec_bytes().len() == 27,
            description.spec_bytes().len() <= 10,
        ensures
            r.applied_at@ == applied_at.spec_bytes(),
            r.value == value,
            r.kind == kind,
            r.description@ == padded(description.spec_bytes(), 10),
            r.client_id == client_id,
            r.balance == 0,
            r.limit == limit_of(client_id),
    {
        let limit = limit_by_client_id(client_id);
        let src = applied_at.as_bytes();
        let mut applied_at_bytes: [u8; 27] = [0u8; 27];
        let mut i: usize = 0;
        while i < 27
            invariant
                src@.len() == 27,
                forall|k: int| 0 <= k < i ==> applied_at_bytes@[k] == src@[k],
            decreases 27 - i,
        {
            applied_at_bytes[i] = src[i];
            i = i + 1;
        }
        assert(applied_at_bytes@ =~= src@);
        let d = description.as_bytes();
        let mut description_bytes: [u8; 10] = [0u8; 10];
        let mut j: usize = 0;
        while j < d.len()
            invariant
                d@.len() <= 10,
                j <= d@.len(),
                forall|k: int| 0 <= k < j ==> description_bytes@[k] == d@[k],
                forall|k: int| j <= k < 10 ==> description_bytes@[k] == 0u8,
            decreases d@.len() - j,
        {
            description_bytes[j] = d[j];
            j = j + 1;
        }
        assert forall|k: int| 0 <= k < 10 implies description_bytes@[k] == padded(d@, 10)[k] by {
            if k < d@.len() {
                assert(description_bytes@[k] == d@[k]);
            }
        }
        assert(description_bytes@ =~= padded(d@, 10));
        Transaction {
            applied_at: applied_at_bytes,
            value,
            kind,
            description: description_bytes,
            client_id,
            balance: 0,
            limit,
        }
    }

    /// The 20-byte storage record of this entry.
    pub fn encode(&self) -> (r: [u8; 20])
        ensures
            r@ == encoding(*self),
    {
        let mut bytes: Vec<u8> = Vec::new();
        push_be(&mut bytes, self.value);
        bytes.push((self.kind as u32) as u8);
        let d = self.aligned_description();
        let mut j: usize = 0;
        while j < 10
            invariant
                j <= 10,
                bytes@ == be_bytes(self.value) + seq![(self.kind as u32) as u8] + d@.subrange(0, j as int),
                d@ == self.description@,
            decreases 10 - j,
        {
            bytes.push(d[j]);
            j = j + 1;
            assert(bytes@ =~= be_bytes(self.value) + seq![(self.kind as u32) as u8] + d@.subrange(0, j as int));
        }
        assert(d@.subrange(0, 10) =~= d@);
        let ghost before = bytes@;
        assert(before == be_bytes(self.value) + seq![(self.kind as u32) as u8] + self.description@);
        bytes.push(self.client_id);
        assert(bytes@ =~= before + seq![self.client_id]);
        let b: u32 = self.balance as u32;
        push_be(&mut bytes, b);
        assert(bytes@ =~= before + seq![self.client_id] + be_bytes(b));
        assert(bytes@ =~= encoding(*self));
        let mut result: [u8; 20] = [0u8; 20];
        let mut i: usize = 0;
        while i < 20
            invariant
                bytes@ == encoding(*self),
                bytes@.len() == 20,
                forall|k: int| 0 <= k < i ==> result@[k] == bytes@[k],
            decreases 20 - i,
        {
            result[i] = bytes[i];
            i = i + 1;
        }
        assert(result@ =~= bytes@);
        result
    }

    /// Reads an entry back from its record and its storage key; the limit is
    /// looked up again from the client id.
    pub fn decode(bytes: [u8; 20], applied_at: &str) -> (r: Transaction)
        requires
            applied_at.spec_bytes().len() == 27,
        ensures
            r.applied_at@ == applied_at.spec_bytes(),
            r.value == be_word(bytes@.subrange(0, 4)),
            r.kind == bytes@[4] as char,
            r.description@ == bytes@.subrange(5, 15),
            r.client_id == bytes@[15],
            r.balance == be_word(bytes@.subrange(16, 20)) as i32,
            r.limit == limit_of(bytes@[15]),
    {
        let src = applied_at.as_bytes();
        let mut key: [u8; 27] = [0u8; 27];
        let mut i: usize = 0;
        while i < 27
            invariant
                src@.len() == 27,
                forall|k: int| 0 <= k < i ==> key@[k] == src@[k],
            decreases 27 - i,
        {
            key[i] = src[i];
            i = i + 1;
        }
        assert(key@ =~= src@);
        let value = word_at(&bytes, 0);
        let kind = bytes[4] as char;
        let mut description: [u8; 10] = [0u8; 10];
        let mut j: usize = 0;
        while j < 10
            invariant
                forall|k: int| 0 <= k < j ==> description@[k] == bytes@[5 + k],
            decreases 10 - j,
        {
            description[j] = bytes[5 + j];
            j = j + 1;
        }
        assert(description@ =~= bytes@.subrange(5, 15));
        let client_id = bytes[15];
        let balance = word_at(&bytes, 16) as i32;
        let limit = limit_by_client_id(client_id);
        Transaction { applied_at: key, value, kind, description, client_id, balance, limit }
    }

    fn aligned_description(&self) -> (r: [u8; 10])
        ensures
            r@ == self.description@,
    {
        let mut aligned: [u8; 10] = [0u8; 10];
        let mut i: usize = 0;
        while i < 10
            invariant
                forall|k: int| 0 <= k < i ==> aligned@[k] == self.description@[k],
            decreases 10 - i,
        {
            aligned[i] = self.description[i];
            i = i + 1;
        }
        assert(aligned@ =~= self.description@);
        aligned
    }
}

/// Decoding the record of an entry, under the entry's own key, gives back its
/// value, kind, description, client id and balance, and the limit of its
/// client; so the description with its padding trimmed is kept too.
pub proof fn lemma_round_trip(t: Transaction)
    requires
        (t.kind as u32) < 256,
    ensures
        be_word(encoding(t).subrange(0, 4)) == t.value,
        (encoding(t)[4] as char) == t.kind,
        encoding(t).subrange(5, 15) == t.description@,
        trim_padding(encoding(t).subrange(5, 15)) == trim_padding(t.description@),
        encoding(t)[15] == t.client_id,
        be_word(encoding(t).subrange(16, 20)) as i32 == t.balance,
{
    let e = encoding(t);
    assert(e.subrange(0, 4) =~= be_bytes(t.value));
    assert(e.subrange(5, 15) =~= t.description@);
    assert(e.subrange(16, 20) =~= be_bytes(t.balance as u32));
    lemma_word_of_bytes(t.value);
    lemma_word_of_bytes(t.balance as u32);
    let b = t.balance;
    assert((b as u32) as i32 == b) by (bit_vector);
    assert(((t.kind as u32) as u8) as char == t.kind);
}

/// A description of at most ten bytes that does not end in a zero byte comes
/// back whole when its padding is trimmed.
pub proof fn lemma_description_round_trip(d: Seq<u8>)
    requires
        d.len() <= 10,
        d.len() == 0 || d.last() != 0u8,
    ensures
        trim_padding(padded(d, 10)) == d,
{
    lemma_trim_padded(d, 10);
}

proof fn lemma_trim_padded(d: Seq<u8>, n: nat)
    requires
        d.len() <= n,
        d.len() == 0 || d.last() != 0u8,
    ensures
        trim_padding(padded(d, n)) == d,
    decreases n,
{
    if n == d.len() {
        assert(padded(d, n) =~= d);
    } else {
        assert(padded(d, n).drop_last() =~= padded(d, (n - 1) as nat));
        lemma_trim_padded(d, (n - 1) as nat);
    }
}

} // verus!
