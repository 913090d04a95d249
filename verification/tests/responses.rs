use httpwire::response::{ContentEncoding, ContentType, HttpCode, Response, StartLine};

fn split_wire(bytes: &[u8]) -> (String, Vec<u8>) {
    let mut split_at = None;
    for i in 0..bytes.len().saturating_sub(3) {
        if &bytes[i..i + 4] == b"\r\n\r\n" {
            split_at = Some(i);
            break;
        }
    }
    let i = split_at.expect("no blank line in response");
    let head = String::from_utf8(bytes[..i].to_vec()).expect("head is not UTF-8");
    (head, bytes[i + 4..].to_vec())
}

fn header_value(head: &str, name: &str) -> Option<String> {
    for line in head.lines().skip(1) {
        if let Some((k, v)) = line.split_once(':') {
            if k == name {
                return Some(v.to_string());
            }
        }
    }
    None
}

#[test]
fn code_phrases() {
    assert_eq!(HttpCode::OK.to_string(), "200 OK");
    assert_eq!(HttpCode::Created.to_string(), "201 Created");
    assert_eq!(HttpCode::BadRequest.to_string(), "400 Bad Request");
    assert_eq!(HttpCode::NotFound.to_string(), "404 Not Found");
}

#[test]
fn start_line_text() {
    let sl = StartLine::new(HttpCode::OK);
    assert_eq!(sl.to_string(), "HTTP/1.1 200 OK");
}

#[test]
fn content_type_labels_and_len() {
    let t = ContentType::PlainText("hello".to_string());
    assert_eq!(t.get_label(), "text/plain");
    assert_eq!(t.len(), 5);
    assert_eq!(t.to_string(), "hello");
    let o = ContentType::OctetStream(vec![65, 66, 0, 255]);
    assert_eq!(o.get_label(), "application/octet-stream");
    assert_eq!(o.len(), 4);
    assert_eq!(o.to_string().chars().count(), 4);
}

#[test]
fn encoding_parse() {
    assert_eq!(
        ContentEncoding::from_string(&"gzip, deflate".to_string()),
        vec![ContentEncoding::Gzip]
    );
    assert_eq!(ContentEncoding::from_string(&"deflate".to_string()), Vec::new());
    assert_eq!(ContentEncoding::from_string(&"GZIP".to_string()), vec![ContentEncoding::Gzip]);
    assert_eq!(ContentEncoding::from_string(&"".to_string()), Vec::new());
    assert_eq!(
        ContentEncoding::from_string(&"br, Gzip".to_string()),
        vec![ContentEncoding::Gzip]
    );
    assert_eq!(ContentEncoding::Gzip.to_string(), "gzip");
}

#[test]
fn empty_response_wire_bytes() {
    let bytes = Response::new_empty(HttpCode::OK).to_bytes();
    assert_eq!(bytes, b"HTTP/1.1 200 OK\r\nContent-Length:0\r\n\r\n".to_vec());
    let nf = Response::new_empty(HttpCode::NotFound).to_bytes();
    assert_eq!(nf, b"HTTP/1.1 404 Not Found\r\nContent-Length:0\r\n\r\n".to_vec());
}

#[test]
fn text_response_wire_bytes() {
    let r = Response::new(HttpCode::OK, ContentType::PlainText("abc".to_string()), None);
    let bytes = r.to_bytes();
    assert_eq!(
        bytes,
        b"HTTP/1.1 200 OK\r\nContent-Type:text/plain\r\nContent-Length:3\r\n\r\nabc".to_vec()
    );
}

#[test]
fn content_length_matches_final_body() {
    let samples = vec![
        Response::new_empty(HttpCode::BadRequest).to_bytes(),
        Response::new(HttpCode::OK, ContentType::PlainText("some text".to_string()), None)
            .to_bytes(),
        Response::new(
            HttpCode::OK,
            ContentType::PlainText("compress me please".to_string()),
            Some(ContentEncoding::Gzip),
        )
        .to_bytes(),
        Response::new(HttpCode::OK, ContentType::OctetStream(vec![1, 2, 3, 254]), None)
            .to_bytes(),
    ];
    for bytes in samples {
        let (head, body) = split_wire(&bytes);
        let cl: usize = header_value(&head, "Content-Length")
            .expect("missing Content-Length")
            .parse()
            .expect("Content-Length is not a number");
        assert_eq!(cl, body.len());
    }
}

#[test]
fn gzip_response_round_trips() {
    let r = Response::new(
        HttpCode::OK,
        ContentType::PlainText("hello gzip world".to_string()),
        Some(ContentEncoding::Gzip),
    );
    let bytes = r.to_bytes();
    let (head, body) = split_wire(&bytes);
    assert_eq!(header_value(&head, "Content-Encoding").as_deref(), Some("gzip"));
    let mut decoder = flate2::read::GzDecoder::new(body.as_slice());
    let mut out = Vec::new();
    std::io::Read::read_to_end(&mut decoder, &mut out).expect("gunzip failed");
    assert_eq!(out, b"hello gzip world".to_vec());
}

#[test]
fn octet_response_bytes_unaltered() {
    let payload = vec![0u8, 1, 2, 128, 200, 255];
    let r = Response::new(HttpCode::OK, ContentType::OctetStream(payload.clone()), None);
    let bytes = r.to_bytes();
    let (head, body) = split_wire(&bytes);
    assert!(head.starts_with("HTTP/1.1 200 OK"));
    assert_eq!(header_value(&head, "Content-Type").as_deref(), Some("application/octet-stream"));
    assert_eq!(body, payload);
}

#[test]
fn no_trailing_newline_after_body() {
    let bytes =
        Response::new(HttpCode::OK, ContentType::PlainText("x".to_string()), None).to_bytes();
    assert_eq!(bytes.last(), Some(&b'x'));
}
