use httpwire::request::{parse_head, Request};
use httpwire::response::HttpCode;
use httpwire::server::{file_read_response, file_write_response, handle_request, Routed};

fn request_from(head: &str, body: Vec<u8>) -> Request {
    let (h, hm) = parse_head(head).expect("head must parse");
    Request::new(h, hm, body)
}

fn respond_bytes(r: Routed) -> Vec<u8> {
    match r {
        Routed::Respond(resp) => resp.to_bytes(),
        _ => panic!("expected a direct response"),
    }
}

#[test]
fn root_is_ok_and_empty() {
    let req = request_from("GET / HTTP/1.1\r\n\r\n", Vec::new());
    let bytes = respond_bytes(handle_request(&req, &None));
    assert_eq!(bytes, b"HTTP/1.1 200 OK\r\nContent-Length:0\r\n\r\n".to_vec());
    let req2 = request_from("POST / HTTP/1.1\r\nHost: h\r\n\r\n", Vec::new());
    let bytes2 = respond_bytes(handle_request(&req2, &Some("/srv/".to_string())));
    assert_eq!(bytes2, b"HTTP/1.1 200 OK\r\nContent-Length:0\r\n\r\n".to_vec());
}

#[test]
fn unknown_path_is_not_found() {
    let req = request_from("GET /nonexistent HTTP/1.1\r\n\r\n", Vec::new());
    let bytes = respond_bytes(handle_request(&req, &None));
    assert_eq!(bytes, b"HTTP/1.1 404 Not Found\r\nContent-Length:0\r\n\r\n".to_vec());
}

#[test]
fn user_agent_reflected_exactly() {
    let req = request_from(
        "GET /user-agent HTTP/1.1\r\nUser-Agent: test-client/1\r\n\r\n",
        Vec::new(),
    );
    let bytes = respond_bytes(handle_request(&req, &None));
    assert_eq!(
        bytes,
        b"HTTP/1.1 200 OK\r\nContent-Type:text/plain\r\nContent-Length:13\r\n\r\ntest-client/1"
            .to_vec()
    );
}

#[test]
fn user_agent_missing_is_bad_request() {
    let req = request_from("GET /user-agent HTTP/1.1\r\n\r\n", Vec::new());
    let bytes = respond_bytes(handle_request(&req, &None));
    assert_eq!(bytes, b"HTTP/1.1 400 Bad Request\r\nContent-Length:0\r\n\r\n".to_vec());
}

#[test]
fn echo_body_is_exact() {
    let req = request_from("GET /echo/abc HTTP/1.1\r\n\r\n", Vec::new());
    let bytes = respond_bytes(handle_request(&req, &None));
    assert_eq!(
        bytes,
        b"HTTP/1.1 200 OK\r\nContent-Type:text/plain\r\nContent-Length:3\r\n\r\nabc".to_vec()
    );
}

#[test]
fn echo_empty_suffix() {
    let req = request_from("GET /echo/ HTTP/1.1\r\n\r\n", Vec::new());
    let bytes = respond_bytes(handle_request(&req, &None));
    assert_eq!(
        bytes,
        b"HTTP/1.1 200 OK\r\nContent-Type:text/plain\r\nContent-Length:0\r\n\r\n".to_vec()
    );
}

#[test]
fn echo_with_gzip_negotiated() {
    let req = request_from(
        "GET /echo/abc HTTP/1.1\r\nAccept-Encoding: gzip, deflate\r\n\r\n",
        Vec::new(),
    );
    let bytes = respond_bytes(handle_request(&req, &None));
    let head_end = bytes.windows(4).position(|w| w == b"\r\n\r\n").unwrap();
    let head = String::from_utf8(bytes[..head_end].to_vec()).unwrap();
    assert!(head.contains("Content-Encoding:gzip"));
    let body = &bytes[head_end + 4..];
    let mut decoder = flate2::read::GzDecoder::new(body);
    let mut out = Vec::new();
    std::io::Read::read_to_end(&mut decoder, &mut out).expect("gunzip failed");
    assert_eq!(out, b"abc".to_vec());
}

#[test]
fn echo_with_deflate_only_is_plain() {
    let req = request_from(
        "GET /echo/abc HTTP/1.1\r\nAccept-Encoding: deflate\r\n\r\n",
        Vec::new(),
    );
    let bytes = respond_bytes(handle_request(&req, &None));
    assert_eq!(
        bytes,
        b"HTTP/1.1 200 OK\r\nContent-Type:text/plain\r\nContent-Length:3\r\n\r\nabc".to_vec()
    );
}

#[test]
fn files_without_directory_is_not_found() {
    let req = request_from("GET /files/foo HTTP/1.1\r\n\r\n", Vec::new());
    let bytes = respond_bytes(handle_request(&req, &None));
    assert_eq!(bytes, b"HTTP/1.1 404 Not Found\r\nContent-Length:0\r\n\r\n".to_vec());
}

#[test]
fn files_post_then_get_round_trip() {
    let dir = Some("/srv/data/".to_string());
    let payload = b"stored bytes \x00\xff".to_vec();
    let post = request_from(
        "POST /files/notes.txt HTTP/1.1\r\nContent-Length: 15\r\n\r\n",
        payload.clone(),
    );
    let (written_path, written_bytes) = match handle_request(&post, &dir) {
        Routed::WriteFile(p, b) => (p, b),
        _ => panic!("expected a write action"),
    };
    assert_eq!(written_path, "/srv/data/notes.txt");
    assert_eq!(written_bytes, payload);

    let get = request_from("GET /files/notes.txt HTTP/1.1\r\n\r\n", Vec::new());
    let read_path = match handle_request(&get, &dir) {
        Routed::ReadFile(p) => p,
        _ => panic!("expected a read action"),
    };
    assert_eq!(read_path, written_path);

    let bytes = file_read_response(Some(written_bytes)).to_bytes();
    let head_end = bytes.windows(4).position(|w| w == b"\r\n\r\n").unwrap();
    let head = String::from_utf8(bytes[..head_end].to_vec()).unwrap();
    assert!(head.starts_with("HTTP/1.1 200 OK"));
    assert!(head.contains("Content-Type:application/octet-stream"));
    assert_eq!(&bytes[head_end + 4..], payload.as_slice());
}

#[test]
fn file_read_failure_is_not_found() {
    let bytes = file_read_response(None).to_bytes();
    assert_eq!(bytes, b"HTTP/1.1 404 Not Found\r\nContent-Length:0\r\n\r\n".to_vec());
}

#[test]
fn file_write_outcomes() {
    let ok = file_write_response(true);
    assert_eq!(ok.header.http_code, HttpCode::Created);
    assert_eq!(
        ok.to_bytes(),
        b"HTTP/1.1 201 Created\r\nContent-Length:0\r\n\r\n".to_vec()
    );
    let bad = file_write_response(false);
    assert_eq!(bad.header.http_code, HttpCode::NotFound);
}

#[test]
fn files_get_ignores_gzip() {
    let dir = Some("/srv/".to_string());
    let req = request_from(
        "GET /files/a HTTP/1.1\r\nAccept-Encoding: gzip\r\n\r\n",
        Vec::new(),
    );
    assert!(matches!(handle_request(&req, &dir), Routed::ReadFile(_)));
}
