use http::header;
use spdystream::server::{
    parse_http_request, parse_upgrade_request, upgrade_response, RequestReader, MAX_REQUEST,
};
use spdystream::{Error, UpgradeRequest};

fn protocol_error(text: &str) -> Error {
    Error::Protocol(text.to_string())
}

/// Reads a request octet by octet.
fn receive(octets: &[u8]) -> Result<UpgradeRequest, Error> {
    let mut reader = RequestReader::new();
    for &b in octets {
        if reader.push(b)? {
            return parse_upgrade_request(reader.octets());
        }
    }
    panic!("the request is not complete");
}

#[test]
fn test_upgrade_handshake() {
    let req = receive(
        b"GET /exec HTTP/1.1\r\nHost: localhost\r\nUpgrade: spdy/3.1\r\nConnection: Upgrade\r\n\r\n",
    )
    .unwrap();
    assert_eq!(req.method, "GET");
    assert_eq!(req.path, "/exec");
    assert_eq!(req.headers[header::HOST], "localhost");
    assert_eq!(req.headers.len(), 3);

    let resp = upgrade_response();
    assert!(resp.starts_with("HTTP/1.1 101"));
    assert!(resp.ends_with("\r\n\r\n"));
    assert_eq!(
        resp,
        "HTTP/1.1 101 Switching Protocols\r\nConnection: Upgrade\r\nUpgrade: spdy/3.1\r\n\r\n"
    );
}

#[test]
fn test_invalid_upgrade() {
    let result = receive(b"GET /exec HTTP/1.1\r\nHost: localhost\r\n\r\n");
    assert_eq!(
        result.unwrap_err(),
        protocol_error("missing or incorrect Upgrade: spdy/3.1 header")
    );
}

#[test]
fn test_upgrade_wrong_protocol() {
    let result = receive(b"GET / HTTP/1.1\r\nHost: localhost\r\n\r\n");
    assert!(result.is_err());
}

#[test]
fn other_protocols_are_refused() {
    let result = receive(
        b"GET /exec HTTP/1.1\r\nHost: localhost\r\nUpgrade: websocket\r\nConnection: Upgrade\r\n\r\n",
    );
    assert_eq!(
        result.unwrap_err(),
        protocol_error("missing or incorrect Upgrade: spdy/3.1 header")
    );
}

#[test]
fn the_upgrade_header_may_be_in_any_case() {
    let req = receive(b"GET / HTTP/1.1\r\nuPGRADE:\t SPDY/3.1 \r\n\r\n").unwrap();
    assert_eq!(req.headers[header::UPGRADE], "SPDY/3.1");
}

#[test]
fn later_headers_replace_earlier_ones() {
    let req =
        receive(b"GET / HTTP/1.1\r\nUpgrade: spdy/3.1\r\nX: 1\r\nX: 2\r\nUpgrade: other\r\n\r\n")
            .unwrap();
    assert_eq!(req.headers["x"], "2");
    assert_eq!(req.headers.get_all("x").iter().count(), 1);
    assert_eq!(req.headers[header::UPGRADE], "other");
}

#[test]
fn requests_end_with_a_blank_line() {
    let mut reader = RequestReader::new();
    for &b in b"a\r\n\r" {
        assert_eq!(reader.push(b), Ok(false));
    }
    assert_eq!(reader.push(b'\n'), Ok(true));
    assert_eq!(reader.octets(), b"a\r\n\r\n");

    let mut reader = RequestReader::new();
    for &b in b"\n\n\n\n\r\r\n\n\n\r\n\r" {
        assert_eq!(reader.push(b), Ok(false));
    }
    assert_eq!(reader.push(b'\n'), Ok(true));
}

#[test]
fn oversized_requests_are_refused() {
    let mut reader = RequestReader::new();
    for _ in 0..MAX_REQUEST {
        assert_eq!(reader.push(b'a'), Ok(false));
    }
    assert_eq!(reader.push(b'a'), Err(protocol_error("HTTP request too large")));

    let mut reader = RequestReader::new();
    for _ in 0..MAX_REQUEST - 3 {
        assert_eq!(reader.push(b'a'), Ok(false));
    }
    for &b in b"\r\n\r" {
        assert_eq!(reader.push(b), Ok(false));
    }
    assert_eq!(reader.push(b'\n'), Ok(true), "the last octet may be one too many");
}

#[test]
fn faulty_requests_are_refused() {
    let cases: Vec<(&str, &str)> = vec![
        ("", "missing path"),
        ("GET", "missing path"),
        ("GET /", "missing HTTP version"),
        ("GET / HTTP/1.1", "missing or incorrect Upgrade: spdy/3.1 header"),
        ("GET / HTTP/1.1\r\nnonsense\r\n\r\n", "invalid header line: nonsense"),
        ("GET / HTTP/1.1\r\n: x\r\n\r\n", "invalid header name: "),
        ("GET / HTTP/1.1\r\na b: x\r\n\r\n", "invalid header name: a b"),
        ("GET / HTTP/1.1\r\nn\u{e4}me: x\r\n\r\n", "invalid header name: n\u{e4}me"),
        ("GET / HTTP/1.1\r\nX: a\u{7}b\r\n\r\n", "invalid header value: a\u{7}b"),
        (
            "GET / HTTP/1.1\r\n\r\nUpgrade: spdy/3.1\r\n",
            "missing or incorrect Upgrade: spdy/3.1 header",
        ),
        (
            "GET / HTTP/1.1\r\nUpgrade: spdy/3\r\n\r\n",
            "missing or incorrect Upgrade: spdy/3.1 header",
        ),
    ];
    for (text, message) in cases {
        assert_eq!(parse_http_request(text).unwrap_err(), protocol_error(message));
    }
    assert_eq!(
        parse_upgrade_request(b"GET /\xff HTTP/1.1\r\n\r\n").unwrap_err(),
        protocol_error("non-UTF8 HTTP request")
    );
}

#[test]
fn lines_and_parts_are_cut_where_they_should_be() {
    let req = parse_http_request(
        "PO\rST /a:b HTTP/1.1 and more\r\n\u{3000}X \u{a0}:\u{2003}a\rb\u{85}\r\nUpgrade:spdy/3.1",
    );
    assert_eq!(req.unwrap_err(), protocol_error("invalid header value: a\rb"));

    let req = parse_http_request(
        "PO\rST /a:b HTTP/1.1 and more\r\n\u{3000}X \u{a0}:\u{2003}a:\u{e9}\u{85}\r\nUpgrade:spdy/3.1",
    )
    .unwrap();
    assert_eq!(req.method, "PO\rST");
    assert_eq!(req.path, "/a:b");
    assert_eq!(req.headers["x"].as_bytes(), "a:\u{e9}".as_bytes());
}
