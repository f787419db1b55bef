use vernal::limits::limit_by_client_id;
use vernal::transaction::Transaction;

const KEY: &str = "2024-01-02T03:04:05.678901Z";

#[test]
fn limits_of_recognized_clients() {
    assert_eq!(limit_by_client_id(1), 100_000);
    assert_eq!(limit_by_client_id(2), 80_000);
    assert_eq!(limit_by_client_id(3), 1_000_000);
    assert_eq!(limit_by_client_id(4), 10_000_000);
    assert_eq!(limit_by_client_id(5), 500_000);
    assert_eq!(limit_by_client_id(6), 0);
    assert_eq!(limit_by_client_id(0), 0);
}

#[test]
fn limit_lookup_is_constant() {
    for id in 0..=255u8 {
        assert_eq!(limit_by_client_id(id), limit_by_client_id(id));
    }
}

#[test]
fn new_pads_description_and_sets_limit() {
    let t = Transaction::new(KEY, 42, 'c', "abc", 3);
    assert_eq!(&t.applied_at[..], KEY.as_bytes());
    assert_eq!(t.value, 42);
    assert_eq!(t.kind, 'c');
    assert_eq!(t.description, [b'a', b'b', b'c', 0, 0, 0, 0, 0, 0, 0]);
    assert_eq!(t.client_id, 3);
    assert_eq!(t.balance, 0);
    assert_eq!(t.limit, 1_000_000);
}

#[test]
fn encode_layout_is_big_endian() {
    let mut t = Transaction::new(KEY, 0x0102_0304, 'd', "xy", 2);
    t.balance = -2;
    let b = t.encode();
    assert_eq!(
        b,
        [1, 2, 3, 4, b'd', b'x', b'y', 0, 0, 0, 0, 0, 0, 0, 0, 2, 0xff, 0xff, 0xff, 0xfe]
    );
}

#[test]
fn decode_reads_every_field() {
    let bytes = [0, 0, 3, 232, b'c', b'h', b'i', 0, 0, 0, 0, 0, 0, 0, 0, 1, 0, 0, 1, 0];
    let t = Transaction::decode(bytes, KEY);
    assert_eq!(&t.applied_at[..], KEY.as_bytes());
    assert_eq!(t.value, 1000);
    assert_eq!(t.kind, 'c');
    assert_eq!(&t.description[..3], b"hi\0".as_slice());
    assert_eq!(t.client_id, 1);
    assert_eq!(t.balance, 256);
    assert_eq!(t.limit, 100_000);
}

#[test]
fn round_trip_keeps_fields() {
    for (value, kind, description, client_id, balance) in [
        (1u32, 'c', "a", 1u8, 0i32),
        (u32::MAX, 'd', "tenletters", 5, i32::MIN),
        (77, 'd', "x y", 2, -80_000),
        (123_456, 'c', "", 4, i32::MAX),
    ] {
        let mut t = Transaction::new(KEY, value, kind, description, client_id);
        t.balance = balance;
        let d = Transaction::decode(t.encode(), KEY);
        assert_eq!(d.value, value);
        assert_eq!(d.kind, kind);
        assert_eq!(d.description, t.description);
        assert_eq!(d.client_id, client_id);
        assert_eq!(d.balance, balance);
        assert_eq!(d.limit, limit_by_client_id(client_id));
        assert_eq!(d.applied_at, t.applied_at);
    }
}

#[test]
fn entry_json_trims_padding() {
    let t = Transaction::new(KEY, 500, 'c', "gift", 1);
    assert_eq!(
        String::from_utf8(t.to_json()).unwrap(),
        "{\"value\":500,\"kind\":\"c\",\"description\":\"gift\",\"applied_at\":\"2024-01-02T03:04:05.678901Z\"}"
    );
}
