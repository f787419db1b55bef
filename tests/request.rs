use vernal::balancer::Api;
use vernal::clock::{current_key, fixed_key, get_current_time};
use vernal::request::{
    not_found_response, parse_body_to_transaction_values, parse_request, unprocessable_response,
    Request, RequestError,
};
use vernal::text::{parse_u32, split_bytes, trim, Pattern};

fn deposit(body: &str) -> Vec<u8> {
    format!("POST /clients/1/transactions HTTP/1.1\r\nHost: localhost\r\n\r\n{}", body).into_bytes()
}

#[test]
fn parses_deposit_request() {
    let buf = deposit("{\"value\": 1000, \"kind\": \"c\", \"description\": \"deposit\"}");
    match parse_request(&buf).unwrap() {
        Request::Transaction { client_id, value, kind, description } => {
            assert_eq!(client_id, 1);
            assert_eq!(value, 1000);
            assert_eq!(kind, 'c');
            assert_eq!(description, b"deposit".to_vec());
        }
        other => panic!("unexpected {:?}", other),
    }
}

#[test]
fn parses_body_with_trailing_zero_bytes() {
    let mut body = b"{\"value\": 90000, \"kind\": \"d\", \"description\": \"rent\"}".to_vec();
    body.extend_from_slice(&[0u8; 40]);
    let (value, kind, description) = parse_body_to_transaction_values(&body).unwrap();
    assert_eq!(value, 90_000);
    assert_eq!(kind, 'd');
    assert_eq!(description, b"rent".to_vec());
}

#[test]
fn long_description_is_refused() {
    let buf = deposit("{\"value\": 10, \"kind\": \"c\", \"description\": \"elevenbytes\"}");
    assert_eq!(parse_request(&buf).unwrap_err(), RequestError::ValidationError);
    assert_eq!(
        String::from_utf8(unprocessable_response()).unwrap(),
        "HTTP/1.1 422 Unprocessable Entity\r\n\r\n"
    );
}

#[test]
fn invalid_fields_are_refused() {
    for body in [
        "{\"value\": 0, \"kind\": \"c\", \"description\": \"a\"}",
        "{\"value\": 1.5, \"kind\": \"c\", \"description\": \"a\"}",
        "{\"value\": 10, \"kind\": \"x\", \"description\": \"a\"}",
        "{\"value\": 10, \"kind\": \"c\", \"description\": null}",
        "{\"value\": 10, \"kind\": \"c\", \"description\": \"\"}",
        "{\"value\": 10, \"kind\": \"c\"}",
        "{\"value\" 10}",
    ] {
        assert_eq!(
            parse_body_to_transaction_values(body.as_bytes()).unwrap_err(),
            RequestError::ValidationError,
            "{}",
            body
        );
    }
}

#[test]
fn statement_request_for_unknown_client() {
    let buf = b"GET /clients/6/statement HTTP/1.1\r\n\r\n";
    assert_eq!(parse_request(buf).unwrap_err(), RequestError::UnknownClient);
    assert_eq!(
        String::from_utf8(not_found_response()).unwrap(),
        "HTTP/1.1 404 Not Found\r\n\r\n"
    );
}

#[test]
fn statement_request_for_known_client() {
    let buf = b"GET /clients/5/statement HTTP/1.1\r\nAccept: */*\r\n\r\n";
    match parse_request(buf).unwrap() {
        Request::Statement { client_id } => assert_eq!(client_id, 5),
        other => panic!("unexpected {:?}", other),
    }
}

#[test]
fn other_routes_are_not_found() {
    assert_eq!(
        parse_request(b"GET /clients/1/other HTTP/1.1\r\n\r\n").unwrap_err(),
        RequestError::NotFound
    );
    assert_eq!(parse_request(b"GET / HTTP/1.1\r\n\r\n").unwrap_err(), RequestError::NotFound);
}

#[test]
fn missing_terminator_is_parse_error() {
    assert_eq!(
        parse_request(b"GET /clients/1/statement HTTP/1.1\r\n").unwrap_err(),
        RequestError::ParseError
    );
}

#[test]
fn numbers_parse_like_unsigned_text() {
    assert_eq!(parse_u32(b"0"), Some(0));
    assert_eq!(parse_u32(b"+42"), Some(42));
    assert_eq!(parse_u32(b"4294967295"), Some(u32::MAX));
    assert_eq!(parse_u32(b"4294967296"), None);
    assert_eq!(parse_u32(b""), None);
    assert_eq!(parse_u32(b"+"), None);
    assert_eq!(parse_u32(b"-1"), None);
    assert_eq!(parse_u32(b"12a"), None);
}

#[test]
fn split_and_trim() {
    let parts = split_bytes(b"a,,b,", b',');
    assert_eq!(parts, vec![b"a".to_vec(), b"".to_vec(), b"b".to_vec(), b"".to_vec()]);
    assert_eq!(trim(b"  x y \t\n", Pattern::Whitespace), b"x y".to_vec());
    assert_eq!(trim(b"\"\"q\"", Pattern::Byte(b'"')), b"q".to_vec());
}

#[test]
fn round_robin_wraps() {
    let mut api = Api::new(vec!["a".to_string(), "b".to_string(), "c".to_string()]);
    let picks: Vec<String> = (0..5).map(|_| api.next_url()).collect();
    assert_eq!(picks, vec!["a", "b", "c", "a", "b"]);
}

#[test]
fn clock_gives_fixed_width_keys() {
    let now = get_current_time();
    assert_eq!(now.len(), 27);
    assert!(now.ends_with('Z'));
    assert_eq!(fixed_key(&now).unwrap().to_vec(), now.as_bytes().to_vec());
    assert!(current_key().is_some());
    assert_eq!(fixed_key("short"), None);
}

#[test]
fn description_must_be_text() {
    let mut body = b"{\"value\": 10, \"kind\": \"c\", \"description\": \"a".to_vec();
    body.push(0xff);
    body.extend_from_slice(b"\"}");
    assert_eq!(
        parse_body_to_transaction_values(&body).unwrap_err(),
        RequestError::ValidationError
    );
    let ok = "{\"value\": 10, \"kind\": \"c\", \"description\": \"a\u{e7}\u{e3}o\"}";
    let (_, _, description) = parse_body_to_transaction_values(ok.as_bytes()).unwrap();
    assert_eq!(description, "a\u{e7}\u{e3}o".as_bytes().to_vec());
}
