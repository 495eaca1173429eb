use std::io::Read;

use http_core::connection::{Connection, Input, Step};
use http_core::request::HttpRequest;
use http_core::response::{decimal_bytes, Field, Response, Status};
use http_core::router::{handle, Action, FileRead};

fn request(raw: &str) -> HttpRequest {
    HttpRequest::parse(raw.as_bytes()).expect("request should parse")
}

fn values<'a>(req: &'a HttpRequest, name: &str) -> Option<Vec<&'a [u8]>> {
    req.headers
        .iter()
        .find(|h| h.name == name.as_bytes())
        .map(|h| h.values.iter().map(|v| v.as_slice()).collect())
}

fn reply(raw: &str, dir: &str) -> (Vec<u8>, bool) {
    let mut conn = Connection::new();
    match conn.receive(Input::Received(raw.as_bytes().to_vec()), dir.as_bytes()) {
        Step::Send(bytes) => (bytes, conn.keep_alive),
        _ => panic!("expected a response"),
    }
}

fn gunzip(data: &[u8]) -> Vec<u8> {
    let mut out = Vec::new();
    flate2::read::GzDecoder::new(data).read_to_end(&mut out).unwrap();
    out
}

#[test]
fn parses_request_line_headers_and_body() {
    let req = request("POST /files/a HTTP/1.1\r\nHost: localhost:4221\r\nUser-Agent: curl/8.0\r\n\r\nhello");
    assert_eq!(req.method, b"POST");
    assert_eq!(req.path, b"/files/a");
    assert_eq!(values(&req, "Host"), Some(vec![&b"localhost:4221"[..]]));
    assert_eq!(values(&req, "User-Agent"), Some(vec![&b"curl/8.0"[..]]));
    assert_eq!(req.body, Some(b"hello".to_vec()));
}

#[test]
fn body_absent_without_blank_line() {
    let req = request("GET / HTTP/1.1\r\nHost: x");
    assert_eq!(req.body, None);
    let req = request("GET / HTTP/1.1\r\n\r\n");
    assert_eq!(req.body, Some(Vec::new()));
}

#[test]
fn splits_comma_separated_values() {
    let req = request("GET / HTTP/1.1\r\nAccept-Encoding: gzip, deflate\r\n\r\n");
    assert_eq!(values(&req, "Accept-Encoding"), Some(vec![&b"gzip"[..], &b"deflate"[..]]));
}

#[test]
fn repeated_headers_accumulate() {
    let req = request("GET / HTTP/1.1\r\nX: a\r\nY: b\r\nX: c, d\r\n\r\n");
    assert_eq!(req.headers.len(), 2);
    assert_eq!(values(&req, "X"), Some(vec![&b"a"[..], &b"c"[..], &b"d"[..]]));
}

#[test]
fn rejects_malformed_requests() {
    assert!(HttpRequest::parse(b"GET /\r\n\r\n").is_none());
    assert!(HttpRequest::parse(b"GET / FTP/1.1\r\n\r\n").is_none());
    assert!(HttpRequest::parse(b"GET / HTTP/1.1\r\nno colon here\r\n\r\n").is_none());
    assert!(HttpRequest::parse(b"").is_none());
}

#[test]
fn tolerates_trailing_nul_padding() {
    let mut raw = b"GET /echo/hi HTTP/1.1\r\nHost: x\r\n\r\n".to_vec();
    raw.resize(512, 0);
    let req = HttpRequest::parse(&raw).unwrap();
    assert_eq!(req.path, b"/echo/hi");
    assert_eq!(req.body.unwrap().len(), 512 - 34);
}

#[test]
fn root_is_empty_200() {
    let (bytes, keep) = reply("GET / HTTP/1.1\r\nHost: x\r\n\r\n", "");
    assert_eq!(bytes, b"HTTP/1.1 200 OK\r\n\r\n");
    assert!(keep);
}

#[test]
fn echo_returns_value() {
    let (bytes, _) = reply("GET /echo/abc HTTP/1.1\r\nHost: x\r\n\r\n", "");
    assert_eq!(bytes, b"HTTP/1.1 200 OK\r\nContent-Type: text/plain\r\nContent-Length: 3\r\n\r\nabc");
}

#[test]
fn echo_without_gzip_in_list() {
    let (bytes, _) = reply("GET /echo/abc HTTP/1.1\r\nAccept-Encoding: deflate, br\r\n\r\n", "");
    assert_eq!(bytes, b"HTTP/1.1 200 OK\r\nContent-Type: text/plain\r\nContent-Length: 3\r\n\r\nabc");
}

#[test]
fn echo_matches_anywhere_in_path() {
    let req = request("GET /x/echo/zz HTTP/1.1\r\n\r\n");
    match handle(&req, b"").0 {
        Action::Reply(r) => assert_eq!(r.body, Some(b"zz".to_vec())),
        _ => panic!("expected a reply"),
    }
}

#[test]
fn echo_needs_a_value() {
    let (bytes, _) = reply("GET /echo/ HTTP/1.1\r\n\r\n", "");
    assert_eq!(bytes, b"HTTP/1.1 404 Not Found\r\n\r\n");
}

#[test]
fn echo_gzip_round_trips() {
    let (bytes, _) = reply("GET /echo/hello-world HTTP/1.1\r\nAccept-Encoding: deflate, gzip\r\n\r\n", "");
    let head_end = bytes.windows(4).position(|w| w == b"\r\n\r\n").unwrap();
    let head = std::str::from_utf8(&bytes[..head_end]).unwrap();
    let body = &bytes[head_end + 4..];
    assert!(head.contains("Content-Encoding: gzip"));
    assert!(head.contains(&format!("Content-Length: {}", body.len())));
    assert_ne!(body, b"hello-world");
    assert_eq!(gunzip(body), b"hello-world");
}

#[test]
fn user_agent_is_echoed() {
    let (bytes, _) = reply("GET /user-agent HTTP/1.1\r\nUser-Agent: foobar/1.2.3\r\n\r\n", "");
    assert_eq!(bytes, b"HTTP/1.1 200 OK\r\nContent-Type: text/plain\r\nContent-Length: 12\r\n\r\nfoobar/1.2.3");
}

#[test]
fn missing_user_agent_is_400() {
    let (bytes, _) = reply("GET /user-agent HTTP/1.1\r\nHost: x\r\n\r\n", "");
    assert_eq!(bytes, b"HTTP/1.1 400 Bad Request\r\n\r\n");
}

#[test]
fn post_then_get_file() {
    let mut conn = Connection::new();
    let raw = b"POST /files/foo.txt HTTP/1.1\r\nContent-Length: 5\r\n\r\nhello".to_vec();
    match conn.receive(Input::Received(raw), b"/srv/") {
        Step::WriteFile(path, content) => {
            assert_eq!(path, b"/srv/foo.txt");
            assert_eq!(content, b"hello");
        }
        _ => panic!("expected a write"),
    }
    assert_eq!(conn.file_written(true), b"HTTP/1.1 201 Created\r\n\r\n");
    let raw = b"GET /files/foo.txt HTTP/1.1\r\n\r\n".to_vec();
    match conn.receive(Input::Received(raw), b"/srv/") {
        Step::ReadFile(path) => assert_eq!(path, b"/srv/foo.txt"),
        _ => panic!("expected a read"),
    }
    assert_eq!(
        conn.file_read(FileRead::Found(b"hello".to_vec())),
        b"HTTP/1.1 200 OK\r\nContent-Type: application/octet-stream\r\nContent-Length: 5\r\n\r\nhello"
    );
}

#[test]
fn missing_file_is_404() {
    let mut conn = Connection::new();
    match conn.receive(Input::Received(b"GET /files/does-not-exist HTTP/1.1\r\n\r\n".to_vec()), b"") {
        Step::ReadFile(path) => assert_eq!(path, b"/tmp/does-not-exist"),
        _ => panic!("expected a read"),
    }
    assert_eq!(conn.file_read(FileRead::Missing), b"HTTP/1.1 404 Not Found\r\n\r\n");
}

#[test]
fn file_errors_are_400() {
    let conn = Connection::new();
    assert_eq!(conn.file_read(FileRead::Failed), b"HTTP/1.1 400 Bad Request\r\n\r\n");
    assert_eq!(conn.file_read(FileRead::Found(vec![0xff, 0xfe])), b"HTTP/1.1 400 Bad Request\r\n\r\n");
    assert_eq!(conn.file_written(false), b"HTTP/1.1 400 Bad Request\r\n\r\n");
}

#[test]
fn file_contents_lose_nul_bytes() {
    let conn = Connection::new();
    assert_eq!(
        conn.file_read(FileRead::Found(b"a\0b\0".to_vec())),
        b"HTTP/1.1 200 OK\r\nContent-Type: application/octet-stream\r\nContent-Length: 2\r\n\r\nab"
    );
}

#[test]
fn post_body_loses_nul_bytes() {
    let mut raw = b"POST /files/x HTTP/1.1\r\n\r\nab".to_vec();
    raw.resize(40, 0);
    let mut conn = Connection::new();
    match conn.receive(Input::Received(raw), b"") {
        Step::WriteFile(path, content) => {
            assert_eq!(path, b"/tmp/x");
            assert_eq!(content, b"ab");
        }
        _ => panic!("expected a write"),
    }
}

#[test]
fn post_without_body_is_400() {
    let (bytes, _) = reply("POST /files/x HTTP/1.1\r\nHost: y", "");
    assert_eq!(bytes, b"HTTP/1.1 400 Bad Request\r\n\r\n");
}

#[test]
fn other_methods_on_files_are_404() {
    let (bytes, _) = reply("PUT /files/x HTTP/1.1\r\n\r\nabc", "");
    assert_eq!(bytes, b"HTTP/1.1 404 Not Found\r\n\r\n");
}

#[test]
fn connection_close_is_announced() {
    let (bytes, keep) = reply("GET /echo/ab HTTP/1.1\r\nConnection: close\r\n\r\n", "");
    assert_eq!(
        bytes,
        b"HTTP/1.1 200 OK\r\nContent-Type: text/plain\r\nContent-Length: 2\r\nConnection: close\r\n\r\nab"
    );
    assert!(!keep);
}

#[test]
fn connection_close_on_file_reply() {
    let mut conn = Connection::new();
    let raw = b"GET /files/a HTTP/1.1\r\nConnection: keep-alive, close\r\n\r\n".to_vec();
    assert!(matches!(conn.receive(Input::Received(raw), b""), Step::ReadFile(_)));
    assert!(!conn.keep_alive);
    assert_eq!(
        conn.file_read(FileRead::Missing),
        b"HTTP/1.1 404 Not Found\r\nConnection: close\r\n\r\n"
    );
}

#[test]
fn unknown_path_is_404() {
    let (bytes, keep) = reply("GET /nope HTTP/1.1\r\n\r\n", "");
    assert_eq!(bytes, b"HTTP/1.1 404 Not Found\r\n\r\n");
    assert!(keep);
}

#[test]
fn unparsed_request_gets_bare_status_line() {
    let (bytes, keep) = reply("hello\r\n\r\n", "");
    assert_eq!(bytes, b"HTTP/1.1 200 OK\r\n");
    assert!(keep);
}

#[test]
fn invalid_utf8_is_400() {
    let mut conn = Connection::new();
    match conn.receive(Input::Received(vec![0x47, 0xff, 0x20]), b"") {
        Step::Send(bytes) => assert_eq!(bytes, b"HTTP/1.1 400 Bad Request\r\n\r\n"),
        _ => panic!("expected a response"),
    }
}

#[test]
fn peer_end_and_read_failure() {
    let mut conn = Connection::new();
    assert!(matches!(conn.receive(Input::Ended, b""), Step::Stop));
    assert!(!conn.keep_alive);
    let mut conn = Connection::new();
    match conn.receive(Input::ReadFailed, b"") {
        Step::Send(bytes) => {
            assert_eq!(bytes, b"HTTP/1.1 500 Internal Server Error\r\nConnection: close\r\n\r\n")
        }
        _ => panic!("expected a response"),
    }
    assert!(!conn.keep_alive);
}

#[test]
fn decimal_lengths() {
    assert_eq!(decimal_bytes(0), b"0");
    assert_eq!(decimal_bytes(10), b"10");
    assert_eq!(decimal_bytes(4096), b"4096");
}

#[test]
fn response_with_body_adds_length() {
    let fields = vec![Field { name: b"X".to_vec(), value: b"y".to_vec() }];
    let r = Response::with_body(Status::NotFound, fields, b"gone".to_vec());
    assert_eq!(r.encode(false), b"HTTP/1.1 404 Not Found\r\nX: y\r\nContent-Length: 4\r\n\r\ngone");
    assert_eq!(Response::bare(Status::Created).encode(true), b"HTTP/1.1 201 Created\r\nConnection: close\r\n\r\n");
}

#[test]
fn encodes_request() {
    let req = request("GET /a HTTP/1.0\r\nAccept-Encoding: gzip, deflate\r\nX: 1\r\nX: 2\r\n\r\nbody");
    assert_eq!(
        req.encode(),
        b"GET /a HTTP/1.1\r\nAccept-Encoding: gzip, deflate\r\nX: 1, 2\r\n\r\nbody"
    );
}

#[test]
fn request_round_trip() {
    let raw = "POST  /files/x   HTTP/1.1 extra\r\nHost:  localhost:4221 \r\nAccept-Encoding: gzip, deflate, br\r\nA: , b\r\nA: c\r\n\r\npayload";
    let first = request(raw);
    let second = HttpRequest::parse(&first.encode()).unwrap();
    assert_eq!(second.method, first.method);
    assert_eq!(second.path, first.path);
    assert_eq!(values(&second, "Accept-Encoding"), Some(vec![&b"gzip"[..], &b"deflate"[..], &b"br"[..]]));
    assert_eq!(values(&second, "A"), Some(vec![&b""[..], &b"b"[..], &b"c"[..]]));
    assert_eq!(second.headers.len(), first.headers.len());
    for (a, b) in first.headers.iter().zip(second.headers.iter()) {
        assert_eq!(a.name, b.name);
        assert_eq!(a.values, b.values);
    }
    assert_eq!(second.body, first.body);
}
