use exfer::http::{
    address_of, call_head, classify_request, extract_content_length, read_bounded_http_response,
    read_request, response_head, HeadReader, HeadStatus, RequestKind, ResponseReader, MAX_RPC_BODY,
    MAX_RPC_RESPONSE_BODY, MAX_RPC_RESPONSE_HEADERS,
};

fn http_response(headers: &[(&str, &str)], body: &[u8]) -> Vec<u8> {
    let mut out = Vec::from(&b"HTTP/1.1 200 OK\r\n"[..]);
    for (k, v) in headers {
        out.extend_from_slice(format!("{}: {}\r\n", k, v).as_bytes());
    }
    out.extend_from_slice(b"\r\n");
    out.extend_from_slice(body);
    out
}

#[test]
fn accepts_normal_response_under_cap() {
    let body = br#"{"jsonrpc":"2.0","result":42,"id":1}"#;
    let resp = http_response(
        &[("Content-Type", "application/json"), ("Content-Length", &body.len().to_string())],
        body,
    );
    let got =
        read_bounded_http_response(&resp, MAX_RPC_RESPONSE_BODY, MAX_RPC_RESPONSE_HEADERS)
            .expect("accepted");
    assert_eq!(got, body);
}

#[test]
fn rejects_content_length_over_cap() {
    let resp = http_response(&[("Content-Length", "10000000")], b"");
    let err = read_bounded_http_response(&resp, MAX_RPC_RESPONSE_BODY, MAX_RPC_RESPONSE_HEADERS)
        .expect_err("rejected");
    assert!(
        err.contains("Content-Length") && err.contains("exceeds cap"),
        "unexpected error: {}",
        err
    );
}

#[test]
fn rejects_body_larger_than_declared_length() {
    let mut resp = http_response(&[("Content-Length", "100")], &vec![b'A'; 100]);
    resp.extend_from_slice(&vec![b'B'; 10 * 1024 * 1024]);
    let err = read_bounded_http_response(&resp, MAX_RPC_RESPONSE_BODY, MAX_RPC_RESPONSE_HEADERS)
        .expect_err("server lied, should abort");
    assert!(err.contains("exceeds declared Content-Length"), "unexpected error: {}", err);
}

#[test]
fn rejects_body_read_that_exceeds_cap() {
    let resp = http_response(&[("Content-Length", "100")], &vec![b'X'; 100]);
    let err =
        read_bounded_http_response(&resp, 50, MAX_RPC_RESPONSE_HEADERS).expect_err("rejected");
    assert!(err.contains("exceeds cap"), "unexpected error: {}", err);
}

#[test]
fn rejects_missing_content_length() {
    let mut resp = Vec::from(&b"HTTP/1.1 200 OK\r\nContent-Type: application/json\r\n\r\n"[..]);
    resp.extend_from_slice(br#"{"result":1,"id":1}"#);
    let err = read_bounded_http_response(&resp, MAX_RPC_RESPONSE_BODY, MAX_RPC_RESPONSE_HEADERS)
        .expect_err("rejected");
    assert!(err.contains("missing Content-Length"), "unexpected error: {}", err);
}

#[test]
fn rejects_headers_that_never_terminate() {
    let headers: Vec<u8> = std::iter::repeat(b'a').take(200_000).collect();
    let err = read_bounded_http_response(&headers, MAX_RPC_RESPONSE_BODY, MAX_RPC_RESPONSE_HEADERS)
        .expect_err("rejected");
    assert!(err.contains("headers exceeded"), "unexpected error: {}", err);
}

#[test]
fn rejects_connection_closed_mid_body() {
    let resp = http_response(&[("Content-Length", "100")], &vec![b'Y'; 10]);
    let err = read_bounded_http_response(&resp, MAX_RPC_RESPONSE_BODY, MAX_RPC_RESPONSE_HEADERS)
        .expect_err("rejected");
    assert!(
        err.contains("bytes remaining") || err.contains("closed"),
        "unexpected error: {}",
        err
    );
}

#[test]
fn content_length_is_case_insensitive() {
    let body = b"hello";
    let resp = http_response(&[("content-LENGTH", "5")], body);
    let got =
        read_bounded_http_response(&resp, MAX_RPC_RESPONSE_BODY, MAX_RPC_RESPONSE_HEADERS)
            .expect("accepted");
    assert_eq!(got, body);
}

#[test]
fn answer_messages_are_exact() {
    let read = |data: &[u8]| read_bounded_http_response(data, 1_000, 100);
    assert_eq!(
        read(b"HTTP/1.1 200 OK\r\n").unwrap_err(),
        "RPC response closed before headers complete"
    );
    assert_eq!(
        read(b"HTTP/1.1 200 OK\r\nX: \xff\r\nContent-Length: 1\r\n\r\na").unwrap_err(),
        "RPC response has invalid UTF-8 in headers"
    );
    assert_eq!(
        read(b"HTTP/1.1 200 OK\r\nContent-Length: 1001\r\n\r\n").unwrap_err(),
        "RPC response Content-Length 1001 exceeds cap of 1000 bytes"
    );
    assert_eq!(
        read(b"HTTP/1.1 200 OK\r\nContent-Length: 2\r\n\r\nabc").unwrap_err(),
        "RPC response body exceeds declared Content-Length (3 > 2)"
    );
    assert_eq!(
        read(b"HTTP/1.1 200 OK\r\nContent-Length: 9\r\n\r\nabc").unwrap_err(),
        "RPC response closed with 6 bytes remaining (declared 9 total)"
    );
    assert_eq!(
        read(&[b'a'; 300]).unwrap_err(),
        "RPC response headers exceeded 100 byte cap"
    );
    assert_eq!(read(b"HTTP/1.1 200 OK\r\nContent-Length: 0\r\n\r\n").unwrap(), b"");
    // A length that is no number is passed over; the next one counts.
    assert_eq!(
        read(b"X 200 OK\r\nContent-Length: x\r\n content-length : +3 \r\n\r\nabc").unwrap(),
        b"abc"
    );
}

#[test]
fn a_head_over_the_cap_is_refused() {
    let resp = b"HTTP/1.1 200 OK\r\nContent-Length: 0\r\n\r\n";
    assert_eq!(resp.len(), 38);
    for cap in [0, 34, 37] {
        let err = read_bounded_http_response(resp, 10, cap).unwrap_err();
        assert_eq!(err, format!("RPC response headers exceeded {} byte cap", cap));
    }
    assert_eq!(read_bounded_http_response(resp, 10, 38).unwrap(), b"");
    assert_eq!(read_bounded_http_response(resp, 10, usize::MAX).unwrap(), b"");
    // No more is asked for than the cap allows.
    let mut r = ResponseReader::new(10, 34);
    assert_eq!(r.advance(), Ok(34));
    r.feed(&resp[..30]).unwrap();
    assert_eq!(r.advance(), Ok(4));
}

#[test]
fn answer_may_come_in_pieces() {
    let resp = http_response(&[("Content-Length", "10")], b"0123456789");
    let mut r = ResponseReader::new(100, 1_000);
    let mut at = 0;
    loop {
        let want = r.advance().expect("good so far");
        if want == 0 {
            break;
        }
        let n = std::cmp::min(3, std::cmp::min(want, resp.len() - at));
        r.feed(&resp[at..at + n]).expect("good so far");
        at += n;
    }
    assert_eq!(r.into_body(), b"0123456789");
}

#[test]
fn content_length_of_a_request() {
    assert_eq!(extract_content_length("POST / HTTP/1.1\r\nContent-Length: 12\r\n\r\n"), Some(12));
    assert_eq!(extract_content_length("CONTENT-length:   7  "), Some(7));
    assert_eq!(extract_content_length("Content-Length: x"), None);
    assert_eq!(extract_content_length("X-Content-Length: 5"), None);
    // Only the first one counts.
    assert_eq!(extract_content_length("Content-Length: x\nContent-Length: 5"), None);
    assert_eq!(extract_content_length(""), None);
}

#[test]
fn requests_are_told_apart() {
    assert!(matches!(
        classify_request("GET /sse?addresses=ab HTTP/1.1\r\n\r\n"),
        RequestKind::Stream { query } if query == "addresses=ab"
    ));
    assert!(matches!(
        classify_request("POST /sse?addresses=cd HTTP/1.1\r\n\r\n"),
        RequestKind::Stream { query } if query == "addresses=cd"
    ));
    assert!(matches!(
        classify_request("GET /sse HTTP/1.1\r\n\r\n"),
        RequestKind::Stream { query } if query.is_empty()
    ));
    assert!(matches!(classify_request("GET / HTTP/1.1\r\n\r\n"), RequestKind::WrongMethod));
    assert!(matches!(classify_request("POST / HTTP/1.1\r\n\r\n"), RequestKind::BadLength));
    let big = format!("POST / HTTP/1.1\r\nContent-Length: {}\r\n\r\n", MAX_RPC_BODY + 1);
    assert!(matches!(classify_request(&big), RequestKind::BadLength));
    let most = format!("POST / HTTP/1.1\r\nContent-Length: {}\r\n\r\n", MAX_RPC_BODY);
    assert!(matches!(
        classify_request(&most),
        RequestKind::Call { content_length } if content_length == MAX_RPC_BODY
    ));
}

#[test]
fn request_bytes_need_not_be_text() {
    let head = b"POST / HTTP/1.1\r\nX: \xff\xfe\r\nContent-Length: 3\r\n\r\n";
    assert!(matches!(read_request(head), RequestKind::Call { content_length: 3 }));
    let head = b"GET /sse?addresses=a\xffb HTTP/1.1\r\n\r\n";
    assert!(matches!(
        read_request(head),
        RequestKind::Stream { query } if query == "addresses=a\u{FFFD}b"
    ));
}

#[test]
fn request_head_ends_with_a_blank_line() {
    let mut r = HeadReader::new();
    let head = b"POST / HTTP/1.1\r\nA: b\r\n\r\n";
    for (i, b) in head.iter().enumerate() {
        let s = r.push(*b);
        if i + 1 == head.len() {
            assert_eq!(s, HeadStatus::Complete);
        } else {
            assert_eq!(s, HeadStatus::More);
        }
    }
    assert_eq!(r.buf, head);
}

#[test]
fn request_head_is_bounded() {
    let mut r = HeadReader::new();
    for _ in 0..8191 {
        assert_eq!(r.push(b'a'), HeadStatus::More);
    }
    assert_eq!(r.push(b'a'), HeadStatus::TooLong);
}

#[test]
fn heads_are_written() {
    assert_eq!(
        response_head(200, 17),
        "HTTP/1.1 200 OK\r\nContent-Type: application/json\r\nContent-Length: 17\r\nConnection: close\r\n\r\n"
    );
    assert!(response_head(405, 0).starts_with("HTTP/1.1 405 Method Not Allowed\r\n"));
    assert!(response_head(400, 0).starts_with("HTTP/1.1 400 Bad Request\r\n"));
    assert!(response_head(500, 0).starts_with("HTTP/1.1 500 Error\r\n"));
    assert_eq!(
        call_head("localhost:9334", 5),
        "POST / HTTP/1.1\r\nHost: localhost:9334\r\nContent-Type: application/json\r\nContent-Length: 5\r\nConnection: close\r\n\r\n"
    );
    assert_eq!(address_of("http://127.0.0.1:9334/rpc/x"), "127.0.0.1:9334");
    assert_eq!(address_of("127.0.0.1:9334"), "127.0.0.1:9334");
}
