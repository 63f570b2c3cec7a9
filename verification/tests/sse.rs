use exfer::net::IpAddr;
use exfer::sse::{
    event_payload, heartbeat_payload, new_per_ip_counter, open_stream, opening_payload,
    parse_addresses, refusal_payload, release_per_ip, stream_head, try_acquire_per_ip, ChainEvent,
    Refusal, MAX_RPC_SSE_ADDRESSES, MAX_RPC_SSE_PER_IP,
};

#[test]
fn parse_addresses_round_trip() {
    let s1 = vec![0xaa; 32];
    let s2 = vec![0xbb; 32];
    let q = format!("addresses={},{}", hex::encode(&s1), hex::encode(&s2));
    let parsed = parse_addresses(&q).unwrap();
    assert_eq!(parsed.len(), 2);
    assert_eq!(parsed[0], s1);
    assert_eq!(parsed[1], s2);
}

#[test]
fn parse_addresses_rejects_missing_param() {
    assert!(parse_addresses("other=1").is_err());
}

#[test]
fn parse_addresses_rejects_wrong_length() {
    let q = format!("addresses={}", hex::encode([1u8; 20]));
    assert!(parse_addresses(&q).is_err());
}

#[test]
fn parse_addresses_rejects_non_hex() {
    assert!(parse_addresses("addresses=notarealhex").is_err());
}

#[test]
fn per_ip_cap_enforced() {
    let mut counter = new_per_ip_counter();
    let ip = IpAddr::V4([10, 0, 0, 1]);
    let mut guards = Vec::new();
    for _ in 0..MAX_RPC_SSE_PER_IP {
        guards.push(try_acquire_per_ip(&mut counter, ip).unwrap());
    }
    assert!(try_acquire_per_ip(&mut counter, ip).is_err());
    release_per_ip(&mut counter, guards.pop().unwrap());
    assert!(try_acquire_per_ip(&mut counter, ip).is_ok());
}

#[test]
fn query_messages_are_exact() {
    assert_eq!(parse_addresses("").unwrap_err(), "missing addresses= query param");
    assert_eq!(parse_addresses("a=1&addresses=").unwrap_err(), "empty addresses list");
    assert_eq!(
        parse_addresses("addresses=zz").unwrap_err(),
        "address `zz` is not hex: Invalid character 'z' at position 0"
    );
    assert_eq!(
        parse_addresses("addresses=abc").unwrap_err(),
        "address `abc` is not hex: Odd number of digits"
    );
    assert_eq!(
        parse_addresses("addresses=abcd").unwrap_err(),
        "address must decode to 32 bytes, `abcd` gave 2"
    );
    let good = hex::encode([7u8; 32]);
    let q = format!("x=1&addresses={}&addresses=zz", good);
    assert_eq!(parse_addresses(&q).unwrap(), vec![vec![7u8; 32]]);
    let q = format!("addresses={},", good);
    assert_eq!(
        parse_addresses(&q).unwrap_err(),
        "address must decode to 32 bytes, `` gave 0"
    );
}

#[test]
fn refused_streams_are_not_counted() {
    let mut counter = new_per_ip_counter();
    let ip = IpAddr::V4([10, 0, 0, 1]);
    let good = format!("addresses={}", hex::encode([7u8; 32]));
    let e = open_stream(false, &mut counter, ip, &good).unwrap_err();
    assert_eq!((e.code, e.message.as_str()), (503, "SSE connection pool exhausted"));
    for _ in 0..10 {
        let e = open_stream(true, &mut counter, ip, "x").unwrap_err();
        assert_eq!(
            (e.code, e.message.as_str()),
            (400, "bad query: missing addresses= query param")
        );
    }
    let many = vec![hex::encode([7u8; 32]); MAX_RPC_SSE_ADDRESSES + 1].join(",");
    let e = open_stream(true, &mut counter, ip, &format!("addresses={}", many)).unwrap_err();
    assert_eq!((e.code, e.message.as_str()), (400, "too many addresses (257); max is 256"));
    let mut open = Vec::new();
    for _ in 0..MAX_RPC_SSE_PER_IP {
        open.push(open_stream(true, &mut counter, ip, &good).unwrap());
    }
    let e = open_stream(true, &mut counter, ip, &good).unwrap_err();
    assert_eq!((e.code, e.message.as_str()), (429, "Too many SSE connections from this IP"));
    assert!(open_stream(true, &mut counter, IpAddr::V4([10, 0, 0, 2]), &good).is_ok());
    let closed = open.pop().unwrap();
    assert_eq!(closed.scripts, vec![vec![7u8; 32]]);
    release_per_ip(&mut counter, closed.guard);
    assert!(open_stream(true, &mut counter, ip, &good).is_ok());
}

#[test]
fn what_is_sent_on_a_stream() {
    assert!(stream_head().starts_with("HTTP/1.1 200 OK\r\nContent-Type: text/event-stream\r\n"));
    assert!(stream_head().ends_with("\r\n\r\n"));
    assert_eq!(
        event_payload(&ChainEvent::ScriptChanged(vec![0xab, 0x01])),
        "event: script_changed\ndata: {\"script\":\"ab01\"}\n\n"
    );
    assert_eq!(
        event_payload(&ChainEvent::TipChanged { height: 1234 }),
        "event: tip\ndata: {\"height\":1234}\n\n"
    );
    assert_eq!(event_payload(&ChainEvent::Resync), "event: resync\ndata: {}\n\n");
    assert_eq!(heartbeat_payload(), ": heartbeat\n\n");
    assert_eq!(
        opening_payload(&vec![vec![1u8], vec![2u8]]),
        "event: script_changed\ndata: {\"script\":\"01\"}\n\nevent: script_changed\ndata: {\"script\":\"02\"}\n\n"
    );
}

#[test]
fn refusals_are_counted_in_bytes() {
    let r = Refusal { code: 429, message: "caf\u{e9}".to_string() };
    assert_eq!(
        refusal_payload(&r),
        "HTTP/1.1 429 Too Many Requests\r\nContent-Type: text/plain\r\nContent-Length: 5\r\nConnection: close\r\n\r\ncaf\u{e9}"
    );
    let r = Refusal { code: 503, message: String::new() };
    assert!(refusal_payload(&r).starts_with("HTTP/1.1 503 Service Unavailable\r\n"));
    let r = Refusal { code: 400, message: String::new() };
    assert!(refusal_payload(&r).starts_with("HTTP/1.1 400 Bad Request\r\n"));
    let r = Refusal { code: 418, message: String::new() };
    assert!(refusal_payload(&r).starts_with("HTTP/1.1 418 Error\r\n"));
}
