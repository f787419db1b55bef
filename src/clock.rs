use vstd::prelude::*;
use vstd::string::StringSliceAdditionalSpecFns;

verus! {

/// Relies on chrono's `Utc::now` and `DateTime::to_rfc3339_opts`, with
/// microseconds and a `Z` suffix: the current UTC time as text. It depends on
/// the clock, so nothing is stated of it.
#[verifier::external_body]
pub fn get_current_time() -> String {
    chrono::Utc::now().to_rfc3339_opts(chrono::SecondsFormat::Micros, true)
}

/// The fixed-width key of a timestamp text: its bytes, when there are exactly 27.
pub fn fixed_key(s: &str) -> (r: Option<[u8; 27]>)
    ensures
        s.spec_bytes().len() == 27 <==> r is Some,
        r is Some ==> r->Some_0@ == s.spec_bytes(),
{
    let b = s.as_bytes();
    if b.len() != 27 {
        return None;
    }
    let mut key: [u8; 27] = [0u8; 27];
    let mut i: usize = 0;
    while i < 27
        invariant
            b@.len() == 27,
            forall|k: int| 0 <= k < i ==> key@[k] == b@[k],
        decreases 27 - i,
    {
        key[i] = b[i];
        i = i + 1;
    }
    assert(key@ =~= b@);
    Some(key)
}

/// The key of the current time, when the clock's text has the fixed width.
pub fn current_key() -> (r: Option<[u8; 27]>) {
    let now = get_current_time();
    fixed_key(now.as_str())
}

} // verus!
