use vstd::prelude::*;
use vstd::string::StringSliceAdditionalSpecFns;
use vstd::utf8::valid_utf8;
use crate::text::{Pattern, trimmed, trim, split, split_bytes, views_of, parsed_u32, parse_u32};
use crate::render::{digits, push_digits, push_str, push_bytes, push_int, balance_json};

verus! {

/// Why a request was not taken.
#[derive(Debug, Clone, Copy, PartialEq, Eq, Structural)]
pub enum RequestError {
    /// The request head has no blank-line terminator.
    ParseError,
    /// The route is none of the two that are served.
    NotFound,
    /// The client id is not a recognized one.
    UnknownClient,
    /// The body lacks a field or holds an invalid one.
    ValidationError,
}

/// A request that was understood.
#[derive(Debug, Clone)]
pub enum Request {
    /// Append an entry to the client's ledger.
    Transaction { client_id: u8, value: u32, kind: char, description: Vec<u8> },
    /// Read the client's statement.
    Statement { client_id: u8 },
}

/// A request as plain values.
pub enum RequestModel {
    Transaction(u8, u32, char, Seq<u8>),
    Statement(u8),
}

impl View for Request {
    type V = RequestModel;

    open spec fn view(&self) -> RequestModel {
        match self {
            Request::Transaction { client_id, value, kind, description } => RequestModel::Transaction(
                *client_id,
                *value,
                *kind,
                description@,
            ),
            Request::Statement { client_id } => RequestModel::Statement(*client_id),
        }
    }
}

/// The key of a body field: the text before its colon, without braces,
/// whitespace and quotes round it.
pub open spec fn key_text(token: Seq<u8>) -> Seq<u8> {
    trimmed(
        trimmed(trimmed(token, Pattern::Byte(123u8)), Pattern::Whitespace),
        Pattern::Byte(34u8),
    )
}

/// The value of a body field: the text after its colon, without spaces, zero
/// bytes, a closing brace, whitespace and quotes round it.
pub open spec fn value_text(token: Seq<u8>) -> Seq<u8> {
    trimmed(
        trimmed(
            trimmed(
                trimmed(trimmed(token, Pattern::Byte(32u8)), Pattern::Byte(0u8)),
                Pattern::Byte(125u8),
            ),
            Pattern::Whitespace,
        ),
        Pattern::Byte(34u8),
    )
}

/// Value, kind and description read so far, updated by one `key: value`
/// piece of the body; `None` when the piece has no colon.
pub open spec fn apply_pair(f: (u32, Seq<u8>, Seq<u8>), pair: Seq<u8>) -> Option<
    (u32, Seq<u8>, Seq<u8>),
> {
    let tokens = split(pair, 58u8);
    if tokens.len() < 2 {
        None
    } else {
        let k = key_text(tokens[0]);
        let v = value_text(tokens[1]);
        if k == "value".spec_bytes() {
            Some(
                (
                    match parsed_u32(v) {
                        Some(n) => n,
                        None => 0u32,
                    },
                    f.1,
                    f.2,
                ),
            )
        } else if k == "kind".spec_bytes() {
            Some((f.0, v, f.2))
        } else if k == "description".spec_bytes() {
            Some((f.0, f.1, v))
        } else {
            Some(f)
        }
    }
}

/// The fields that the pieces of a body give, the last of a key winning; a
/// value that is no number counts as zero.
pub open spec fn body_fields(pairs: Seq<Seq<u8>>) -> Option<(u32, Seq<u8>, Seq<u8>)>
    decreases pairs.len(),
{
    if pairs.len() == 0 {
        Some((0u32, Seq::empty(), Seq::empty()))
    } else {
        match body_fields(pairs.drop_last()) {
            None => None,
            Some(f) => apply_pair(f, pairs.last()),
        }
    }
}

/// What a transaction body asks for: a positive value, a kind `c` or `d`,
/// and a description of one to ten bytes of UTF-8 text other than `null`.
pub open spec fn body_outcome(body: Seq<u8>) -> Result<(u32, char, Seq<u8>), RequestError> {
    match body_fields(split(body, 44u8)) {
        None => Err(RequestError::ValidationError),
        Some(f) => {
            let (value, kind, description) = f;
            if description.len() > 10 || description == "null".spec_bytes() || description.len()
                == 0 || value == 0 || !valid_utf8(description) {
                Err(RequestError::ValidationError)
            } else if kind == "c".spec_bytes() {
                Ok((value, 'c', description))
            } else if kind == "d".spec_bytes() {
                Ok((value, 'd', description))
            } else {
                Err(RequestError::ValidationError)
            }
        },
    }
}

/// Relies on `std::str::from_utf8`, which accepts exactly the byte strings
/// that are well-formed UTF-8.
#[verifier::external_body]
fn is_text(b: &[u8]) -> (r: bool)
    ensures
        r == valid_utf8(b@),
{
    std::str::from_utf8(b).is_ok()
}

/// Whether two byte strings are equal.
pub fn bytes_eq(a: &[u8], b: &[u8]) -> (r: bool)
    ensures
        r == (a@ == b@),
{
    if a.len() != b.len() {
        return false;
    }
    let mut i: usize = 0;
    while i < a.len()
        invariant
            a@.len() == b@.len(),
            i <= a@.len(),
            forall|k: int| 0 <= k < i ==> a@[k] == b@[k],
        decreases a@.len() - i,
    {
        if a[i] != b[i] {
            return false;
        }
        i = i + 1;
    }
    assert(a@ =~= b@);
    true
}

fn value_of(token: &[u8]) -> (r: Vec<u8>)
    ensures
        r@ == value_text(token@),
{
    let a = trim(token, Pattern::Byte(32u8));
    let b = trim(a.as_slice(), Pattern::Byte(0u8));
    let c = trim(b.as_slice(), Pattern::Byte(125u8));
    let d = trim(c.as_slice(), Pattern::Whitespace);
    trim(d.as_slice(), Pattern::Byte(34u8))
}

fn key_of(token: &[u8]) -> (r: Vec<u8>)
    ensures
        r@ == key_text(token@),
{
    let a = trim(token, Pattern::Byte(123u8));
    let b = trim(a.as_slice(), Pattern::Whitespace);
    trim(b.as_slice(), Pattern::Byte(34u8))
}

/// Reads the value, kind and description of a transaction body.
pub fn parse_body_to_transaction_values(body: &[u8]) -> (r: Result<(u32, char, Vec<u8>), RequestError>)
    ensures
        match r {
            Ok((value, kind, description)) => body_outcome(body@) == Ok::<
                (u32, char, Seq<u8>),
                RequestError,
            >((value, kind, description@)),
            Err(e) => body_outcome(body@) == Err::<(u32, char, Seq<u8>), RequestError>(e),
        },
{
    let pairs = split_bytes(body, 44u8);
    let ghost ps = views_of(pairs@);
    let mut value: u32 = 0;
    let mut kind: Vec<u8> = Vec::new();
    let mut description: Vec<u8> = Vec::new();
    let mut i: usize = 0;
    assert(ps.subrange(0, 0) =~= Seq::<Seq<u8>>::empty());
    assert(body_fields(ps.subrange(0, 0)) == Some((value, kind@, description@)));
    while i < pairs.len()
        invariant
            ps == views_of(pairs@),
            ps == split(body@, 44u8),
            i <= pairs@.len(),
            body_fields(ps.subrange(0, i as int)) == Some((value, kind@, description@)),
        decreases pairs@.len() - i,
    {
        assert(ps.subrange(0, i + 1).drop_last() =~= ps.subrange(0, i as int));
        assert(ps[i as int] == pairs@[i as int]@);
        let tokens = split_bytes(pairs[i].as_slice(), 58u8);
        if tokens.len() < 2 {
            proof {
                lemma_no_recovery(ps, i as int + 1);
            }
            return Err(RequestError::ValidationError);
        }
        let ghost ts = views_of(tokens@);
        assert(ts[0] == tokens@[0]@ && ts[1] == tokens@[1]@);
        let k = key_of(tokens[0].as_slice());
        let v = value_of(tokens[1].as_slice());
        if bytes_eq(k.as_slice(), "value".as_bytes()) {
            value = match parse_u32(v.as_slice()) {
                Some(n) => n,
                None => 0,
            };
        } else if bytes_eq(k.as_slice(), "kind".as_bytes()) {
            kind = v;
        } else if bytes_eq(k.as_slice(), "description".as_bytes()) {
            description = v;
        }
        i = i + 1;
    }
    assert(ps.subrange(0, ps.len() as int) =~= ps);
    if description.len() > 10 || bytes_eq(description.as_slice(), "null".as_bytes())
        || description.len() == 0 || value == 0 || !is_text(description.as_slice()) {
        return Err(RequestError::ValidationError);
    }
    if bytes_eq(kind.as_slice(), "c".as_bytes()) {
        Ok((value, 'c', description))
    } else if bytes_eq(kind.as_slice(), "d".as_bytes()) {
        Ok((value, 'd', description))
    } else {
        Err(RequestError::ValidationError)
    }
}

proof fn lemma_no_recovery(ps: Seq<Seq<u8>>, i: int)
    requires
        0 < i <= ps.len(),
        body_fields(ps.subrange(0, i)) is None,
    ensures
        body_fields(ps) is None,
    decreases ps.len() - i,
{
    if i < ps.len() {
        assert(ps.subrange(0, i + 1).drop_last() =~= ps.subrange(0, i));
        lemma_no_recovery(ps, i + 1);
    } else {
        assert(ps.subrange(0, i) =~= ps);
    }
}

/// Whether the blank-line terminator `\r\n\r\n` starts at `i`.
pub open spec fn terminator_at(b: Seq<u8>, i: int) -> bool {
    0 <= i && i + 4 <= b.len() && b[i] == 13u8 && b[i + 1] == 10u8 && b[i + 2] == 13u8 && b[i + 3]
        == 10u8
}

/// The first place at or after `from` where the terminator starts.
pub open spec fn find_terminator(b: Seq<u8>, from: int) -> Option<int>
    decreases b.len() - from,
{
    if from < 0 || from + 4 > b.len() {
        None
    } else if terminator_at(b, from) {
        Some(from)
    } else {
        find_terminator(b, from + 1)
    }
}

/// Where the line that holds `from` ends: the first carriage return or line
/// feed at or after it, or the end.
pub open spec fn line_end(h: Seq<u8>, from: int) -> int
    decreases h.len() - from,
{
    if from < 0 || from >= h.len() {
        h.len() as int
    } else if h[from] == 13u8 || h[from] == 10u8 {
        from
    } else {
        line_end(h, from + 1)
    }
}

/// The client that an id segment names, if it is a recognized one.
pub open spec fn client_of(seg: Seq<u8>) -> Option<u8> {
    if seg.len() == 1 && 49u8 <= seg[0] <= 53u8 {
        Some((seg[0] - 48) as u8)
    } else {
        None
    }
}

/// Whether the request line, split at its slashes, is `<verb>/clients/<id>/<op>`.
pub open spec fn route_is(parts: Seq<Seq<u8>>, verb: Seq<u8>, op: Seq<u8>) -> bool {
    parts.len() >= 4 && parts[0] == verb && parts[1] == "clients".spec_bytes() && parts[3] == op
}

/// What the bytes of a request ask for.
pub open spec fn request_outcome(buf: Seq<u8>) -> Result<RequestModel, RequestError> {
    match find_terminator(buf, 0) {
        None => Err(RequestError::ParseError),
        Some(e) => {
            let header = buf.subrange(0, e);
            let parts = split(header.subrange(0, line_end(header, 0)), 47u8);
            if route_is(parts, "POST ".spec_bytes(), "transactions HTTP".spec_bytes()) {
                match client_of(parts[2]) {
                    None => Err(RequestError::UnknownClient),
                    Some(id) => match body_outcome(buf.subrange(e + 4, buf.len() as int)) {
                        Err(x) => Err(x),
                        Ok(f) => Ok(RequestModel::Transaction(id, f.0, f.1, f.2)),
                    },
                }
            } else if route_is(parts, "GET ".spec_bytes(), "statement HTTP".spec_bytes()) {
                match client_of(parts[2]) {
                    None => Err(RequestError::UnknownClient),
                    Some(id) => Ok(RequestModel::Statement(id)),
                }
            } else {
                Err(RequestError::NotFound)
            }
        },
    }
}

fn terminator_of(b: &[u8]) -> (r: Option<usize>)
    ensures
        match r {
            Some(e) => find_terminator(b@, 0) == Some(e as int) && e + 4 <= b@.len(),
            None => find_terminator(b@, 0) is None,
        },
{
    let mut i: usize = 0;
    while b.len() >= 4 && i <= b.len() - 4
        invariant
            i <= b@.len(),
            find_terminator(b@, 0) == find_terminator(b@, i as int),
        decreases b@.len() - i,
    {
        if b[i] == 13u8 && b[i + 1] == 10u8 && b[i + 2] == 13u8 && b[i + 3] == 10u8 {
            return Some(i);
        }
        i = i + 1;
    }
    None
}

fn first_line(h: &[u8]) -> (r: Vec<u8>)
    ensures
        r@ == h@.subrange(0, line_end(h@, 0)),
{
    let mut r: Vec<u8> = Vec::new();
    let mut i: usize = 0;
    while i < h.len() && h[i] != 13u8 && h[i] != 10u8
        invariant
            i <= h@.len(),
            line_end(h@, 0) == line_end(h@, i as int),
            r@ == h@.subrange(0, i as int),
        decreases h@.len() - i,
    {
        r.push(h[i]);
        i = i + 1;
        assert(r@ =~= h@.subrange(0, i as int));
    }
    r
}

fn client_id_of(seg: &[u8]) -> (r: Option<u8>)
    ensures
        r == client_of(seg@),
{
    if seg.len() == 1 && 49u8 <= seg[0] && seg[0] <= 53u8 {
        Some(seg[0] - 48u8)
    } else {
        None
    }
}

/// Reads one request from the bytes received: the route, the client and, for
/// an append, the fields of the body that follows the blank line.
pub fn parse_request(buf: &[u8]) -> (r: Result<Request, RequestError>)
    ensures
        match r {
            Ok(q) => request_outcome(buf@) == Ok::<RequestModel, RequestError>(q@),
            Err(e) => request_outcome(buf@) == Err::<RequestModel, RequestError>(e),
        },
{
    let found = terminator_of(buf);
    if found.is_none() {
        return Err(RequestError::ParseError);
    }
    let e = found.unwrap();
    let n = buf.len();
    assert(e + 4 <= n);
    let (header, rest) = buf.split_at(e);
    assert(header@ =~= buf@.subrange(0, e as int));
    let line = first_line(header);
    let parts = split_bytes(line.as_slice(), 47u8);
    let ghost ps = views_of(parts@);
    if parts.len() < 4 {
        return Err(RequestError::NotFound);
    }
    assert(ps[0] == parts@[0]@ && ps[1] == parts@[1]@ && ps[2] == parts@[2]@ && ps[3] == parts@[3]@);
    let clients = bytes_eq(parts[1].as_slice(), "clients".as_bytes());
    if clients && bytes_eq(parts[0].as_slice(), "POST ".as_bytes()) && bytes_eq(
        parts[3].as_slice(),
        "transactions HTTP".as_bytes(),
    ) {
        let id = match client_id_of(parts[2].as_slice()) {
            None => return Err(RequestError::UnknownClient),
            Some(id) => id,
        };
        let (_, body) = buf.split_at(e + 4);
        assert(body@ =~= buf@.subrange(e + 4, buf@.len() as int));
        match parse_body_to_transaction_values(body) {
            Err(x) => Err(x),
            Ok((value, kind, description)) => Ok(
                Request::Transaction { client_id: id, value, kind, description },
            ),
        }
    } else if clients && bytes_eq(parts[0].as_slice(), "GET ".as_bytes()) && bytes_eq(
        parts[3].as_slice(),
        "statement HTTP".as_bytes(),
    ) {
        match client_id_of(parts[2].as_slice()) {
            None => Err(RequestError::UnknownClient),
            Some(id) => Ok(Request::Statement { client_id: id }),
        }
    } else {
        Err(RequestError::NotFound)
    }
}

/// The head of a successful reply whose body has `n` bytes.
pub open spec fn ok_head(n: nat) -> Seq<u8> {
    "HTTP/1.1 200 OK\r\nContent-Type: application/json\r\nContent-Length: ".spec_bytes() + digits(n)
        + "\r\n\r\n".spec_bytes()
}

/// A successful reply carrying `contents`.
pub fn ok_response(contents: &[u8]) -> (r: Vec<u8>)
    ensures
        r@ == ok_head(contents@.len()) + contents@,
{
    let mut out: Vec<u8> = Vec::new();
    push_str(&mut out, "HTTP/1.1 200 OK\r\nContent-Type: application/json\r\nContent-Length: ");
    push_digits(&mut out, contents.len() as u64);
    push_str(&mut out, "\r\n\r\n");
    push_bytes(&mut out, contents);
    assert(out@ =~= ok_head(contents@.len()) + contents@);
    out
}

/// The reply for an unknown route or client.
pub fn not_found_response() -> (r: Vec<u8>)
    ensures
        r@ == "HTTP/1.1 404 Not Found\r\n\r\n".spec_bytes(),
{
    let mut out: Vec<u8> = Vec::new();
    push_str(&mut out, "HTTP/1.1 404 Not Found\r\n\r\n");
    out
}

/// The reply for a refused request or entry.
pub fn unprocessable_response() -> (r: Vec<u8>)
    ensures
        r@ == "HTTP/1.1 422 Unprocessable Entity\r\n\r\n".spec_bytes(),
{
    let mut out: Vec<u8> = Vec::new();
    push_str(&mut out, "HTTP/1.1 422 Unprocessable Entity\r\n\r\n");
    out
}

/// The reply text for an accepted append: the client's limit and new balance.
pub fn balance_reply(limit: i32, balance: i32) -> (r: Vec<u8>)
    ensures
        r@ == balance_json(limit as int, balance as int),
{
    let mut out: Vec<u8> = Vec::new();
    push_str(&mut out, "{\"limit\":");
    push_int(&mut out, limit as i64);
    push_str(&mut out, ",\"balance\":");
    push_int(&mut out, balance as i64);
    push_str(&mut out, "}");
    assert(out@ =~= balance_json(limit as int, balance as int));
    out
}

} // verus!
