use vstd::prelude::*;

verus! {

/// The bytes that a trim removes: one given byte, or ASCII whitespace.
#[derive(Debug, Clone, Copy, PartialEq, Eq, Structural)]
pub enum Pattern {
    Byte(u8),
    Whitespace,
}

/// Whether `b` is one of the bytes of `p`.
pub open spec fn hits(p: Pattern, b: u8) -> bool {
    match p {
        Pattern::Byte(c) => b == c,
        Pattern::Whitespace => b == 32u8 || (9u8 <= b && b <= 13u8),
    }
}

fn hits_exec(p: Pattern, b: u8) -> (r: bool)
    ensures
        r == hits(p, b),
{
    match p {
        Pattern::Byte(c) => b == c,
        Pattern::Whitespace => b == 32u8 || (9u8 <= b && b <= 13u8),
    }
}

/// `s` without the leading bytes of `p`.
pub open spec fn trim_front(s: Seq<u8>, p: Pattern) -> Seq<u8>
    decreases s.len(),
{
    if s.len() > 0 && hits(p, s[0]) {
        trim_front(s.drop_first(), p)
    } else {
        s
    }
}

/// `s` without the trailing bytes of `p`.
pub open spec fn trim_back(s: Seq<u8>, p: Pattern) -> Seq<u8>
    decreases s.len(),
{
    if s.len() > 0 && hits(p, s.last()) {
        trim_back(s.drop_last(), p)
    } else {
        s
    }
}

/// `s` without the leading and the trailing bytes of `p`.
pub open spec fn trimmed(s: Seq<u8>, p: Pattern) -> Seq<u8> {
    trim_back(trim_front(s, p), p)
}

/// Removes the leading and the trailing bytes of `p`.
pub fn trim(s: &[u8], p: Pattern) -> (r: Vec<u8>)
    ensures
        r@ == trimmed(s@, p),
{
    let n = s.len();
    let mut i: usize = 0;
    assert(s@.subrange(0, n as int) =~= s@);
    while i < n && hits_exec(p, s[i])
        invariant
            n == s@.len(),
            i <= n,
            trim_front(s@, p) == trim_front(s@.subrange(i as int, n as int), p),
        decreases n - i,
    {
        assert(s@.subrange(i as int, n as int).drop_first() =~= s@.subrange(i + 1, n as int));
        i = i + 1;
    }
    let mut j: usize = n;
    while j > i && hits_exec(p, s[j - 1])
        invariant
            n == s@.len(),
            i <= j <= n,
            trim_front(s@, p) == s@.subrange(i as int, n as int),
            trimmed(s@, p) == trim_back(s@.subrange(i as int, j as int), p),
        decreases j - i,
    {
        assert(s@.subrange(i as int, j as int).drop_last() =~= s@.subrange(i as int, j - 1));
        j = j - 1;
    }
    let mut r: Vec<u8> = Vec::new();
    let mut k: usize = i;
    while k < j
        invariant
            i <= k <= j <= n,
            n == s@.len(),
            r@ == s@.subrange(i as int, k as int),
        decreases j - k,
    {
        r.push(s[k]);
        k = k + 1;
        assert(r@ =~= s@.subrange(i as int, k as int));
    }
    r
}

/// The pieces of `s` between the separators `sep`, empty pieces included;
/// always at least one.
pub open spec fn split(s: Seq<u8>, sep: u8) -> Seq<Seq<u8>>
    decreases s.len(),
{
    if s.len() == 0 {
        seq![Seq::empty()]
    } else {
        let p = split(s.drop_last(), sep);
        if s.last() == sep {
            p.push(Seq::empty())
        } else {
            p.update(p.len() - 1, p.last().push(s.last()))
        }
    }
}

/// The contents of each vector of `v`.
pub open spec fn views_of(v: Seq<Vec<u8>>) -> Seq<Seq<u8>> {
    v.map_values(|x: Vec<u8>| x@)
}

/// Splits `s` at each `sep`.
pub fn split_bytes(s: &[u8], sep: u8) -> (r: Vec<Vec<u8>>)
    ensures
        views_of(r@) == split(s@, sep),
        r@.len() >= 1,
{
    let mut done: Vec<Vec<u8>> = Vec::new();
    let mut cur: Vec<u8> = Vec::new();
    let mut i: usize = 0;
    assert(s@.subrange(0, 0) =~= Seq::<u8>::empty());
    assert(views_of(done@).push(cur@) =~= split(s@.subrange(0, 0), sep));
    while i < s.len()
        invariant
            i <= s@.len(),
            views_of(done@).push(cur@) == split(s@.subrange(0, i as int), sep),
        decreases s@.len() - i,
    {
        let ghost prev = views_of(done@).push(cur@);
        assert(s@.subrange(0, i + 1).drop_last() =~= s@.subrange(0, i as int));
        let b = s[i];
        if b == sep {
            let ghost od = done@;
            done.push(cur);
            cur = Vec::new();
            assert(views_of(done@) =~= prev);
            assert(views_of(done@).push(cur@) =~= prev.push(Seq::empty()));
        } else {
            cur.push(b);
            assert(views_of(done@).push(cur@) =~= prev.update(prev.len() - 1, prev.last().push(b)));
        }
        i = i + 1;
    }
    assert(s@.subrange(0, s@.len() as int) =~= s@);
    let ghost before = views_of(done@).push(cur@);
    done.push(cur);
    assert(views_of(done@) =~= before);
    done
}

/// The value of a run of decimal digits.
pub open spec fn decimal_value(d: Seq<u8>) -> nat
    decreases d.len(),
{
    if d.len() == 0 {
        0
    } else {
        decimal_value(d.drop_last()) * 10 + (d.last() - 48) as nat
    }
}

/// Whether every byte of `d` is an ASCII digit.
pub open spec fn all_digits(d: Seq<u8>) -> bool {
    forall|i: int| 0 <= i < d.len() ==> 48u8 <= #[trigger] d[i] <= 57u8
}

/// The digits of an unsigned number text: all after an optional leading `+`.
pub open spec fn unsigned_digits(s: Seq<u8>) -> Seq<u8> {
    if s.len() > 0 && s[0] == 43u8 {
        s.drop_first()
    } else {
        s
    }
}

/// The 32-bit unsigned number that `s` writes in decimal, if any: an optional
/// `+`, then one or more digits, of a value that fits.
pub open spec fn parsed_u32(s: Seq<u8>) -> Option<u32> {
    let d = unsigned_digits(s);
    if d.len() == 0 || !all_digits(d) || decimal_value(d) > u32::MAX {
        None
    } else {
        Some(decimal_value(d) as u32)
    }
}

/// Reads a 32-bit unsigned decimal number.
pub fn parse_u32(s: &[u8]) -> (r: Option<u32>)
    ensures
        r == parsed_u32(s@),
{
    let n = s.len();
    let start: usize = if n > 0 && s[0] == 43u8 { 1 } else { 0 };
    let ghost d = unsigned_digits(s@);
    assert(d =~= s@.subrange(start as int, n as int));
    if start == n {
        return None;
    }
    let mut acc: u64 = 0;
    let mut over = false;
    let mut i: usize = start;
    assert(d.subrange(0, 0) =~= Seq::<u8>::empty());
    while i < n
        invariant
            start <= i <= n,
            n == s@.len(),
            d == s@.subrange(start as int, n as int),
            d == unsigned_digits(s@),
            all_digits(d.subrange(0, i - start)),
            over ==> decimal_value(d.subrange(0, i - start)) > u32::MAX,
            !over ==> acc == decimal_value(d.subrange(0, i - start)) && acc <= u32::MAX,
        decreases n - i,
    {
        let b = s[i];
        let ghost pre = d.subrange(0, i - start);
        let ghost next = d.subrange(0, i + 1 - start);
        assert(next.drop_last() =~= pre);
        if b < 48u8 || b > 57u8 {
            assert(d[i - start] == b);
            assert(!(48u8 <= d[i - start] <= 57u8));
            assert(!all_digits(d));
            return None;
        }
        assert(all_digits(next));
        if !over {
            acc = acc * 10 + (b - 48u8) as u64;
            if acc > u32::MAX as u64 {
                over = true;
            }
        } else {
            assert(decimal_value(next) >= decimal_value(pre)) by (nonlinear_arith)
                requires
                    decimal_value(next) == decimal_value(pre) * 10 + (b - 48) as nat,
            ;
        }
        i = i + 1;
    }
    assert(d.subrange(0, n - start) =~= d);
    if over {
        None
    } else {
        Some(acc as u32)
    }
}

} // verus!
