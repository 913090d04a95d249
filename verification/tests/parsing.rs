use httpwire::request::{parse_head, Header, Method, ParseError, Request};
use httpwire::request::body_length;
use httpwire::text::{parse_dec, split_lines, usize_to_dec};

#[test]
fn method_tokens() {
    assert_eq!(Method::from_string("GET"), Some(Method::GET));
    assert_eq!(Method::from_string("POST"), Some(Method::POST));
    assert_eq!(Method::from_string("PUT"), None);
    assert_eq!(Method::from_string("get"), None);
    assert_eq!(Method::from_string(""), None);
}

#[test]
fn request_line_three_tokens() {
    let h = Header::from_string("GET /echo/abc HTTP/1.1").unwrap();
    assert_eq!(h.method, Method::GET);
    assert_eq!(h.path, "/echo/abc");
    assert_eq!(h.protocol, "HTTP/1.1");
}

#[test]
fn request_line_extra_tokens_ignored() {
    let h = Header::from_string("POST /files/a HTTP/1.1 junk more").unwrap();
    assert_eq!(h.method, Method::POST);
    assert_eq!(h.path, "/files/a");
    assert_eq!(h.protocol, "HTTP/1.1");
}

#[test]
fn request_line_too_few_tokens() {
    assert!(Header::from_string("GET").is_none());
    assert!(Header::from_string("GET /").is_none());
    assert!(Header::from_string("").is_none());
    assert!(Header::from_string("  ").is_none());
}

#[test]
fn request_line_unknown_method() {
    assert!(Header::from_string("DELETE / HTTP/1.1").is_none());
}

#[test]
fn head_parses_headers() {
    let head = "GET / HTTP/1.1\r\nHost: example\r\nUser-Agent: curl/7\r\n\r\n";
    let (h, hm) = parse_head(head).unwrap();
    assert_eq!(h.method, Method::GET);
    assert_eq!(hm.get("Host").unwrap(), "example");
    assert_eq!(hm.get("User-Agent").unwrap(), "curl/7");
    assert!(hm.get("Accept-Encoding").is_none());
}

#[test]
fn head_header_names_case_sensitive() {
    let head = "GET / HTTP/1.1\r\nhost: a\r\nHost: b\r\n\r\n";
    let (_, hm) = parse_head(head).unwrap();
    assert_eq!(hm.get("host").unwrap(), "a");
    assert_eq!(hm.get("Host").unwrap(), "b");
}

#[test]
fn head_duplicate_header_overwrites() {
    let head = "GET / HTTP/1.1\r\nX: 1\r\nX: 2\r\n\r\n";
    let (_, hm) = parse_head(head).unwrap();
    assert_eq!(hm.get("X").unwrap(), "2");
    assert_eq!(hm.len(), 1);
}

#[test]
fn head_value_kept_verbatim() {
    let head = "GET / HTTP/1.1\r\nX:  padded : value \r\n\r\n";
    let (_, hm) = parse_head(head).unwrap();
    assert_eq!(hm.get("X").unwrap(), " padded : value ");
}

#[test]
fn head_bad_request_line() {
    let r = parse_head("BREW / HTTP/1.1\r\n\r\n");
    assert_eq!(r.unwrap_err(), ParseError::MalformedRequestLine);
    let r2 = parse_head("");
    assert_eq!(r2.unwrap_err(), ParseError::MalformedRequestLine);
}

#[test]
fn head_bad_header_line() {
    let r = parse_head("GET / HTTP/1.1\r\nnocolonhere\r\n\r\n");
    assert_eq!(r.unwrap_err(), ParseError::MalformedHeaderLine);
}

#[test]
fn head_stops_at_blank_line() {
    let head = "GET / HTTP/1.1\r\nA: 1\r\n\r\nB: 2\r\n";
    let (_, hm) = parse_head(head).unwrap();
    assert_eq!(hm.len(), 1);
    assert!(hm.get("B").is_none());
}

#[test]
fn declared_length_lenient() {
    let (_, hm) = parse_head("POST /files/x HTTP/1.1\r\nContent-Length: 11\r\n\r\n").unwrap();
    assert_eq!(body_length(&hm), 11);
    let (_, hm2) = parse_head("POST /files/x HTTP/1.1\r\nContent-Length: oops\r\n\r\n").unwrap();
    assert_eq!(body_length(&hm2), 0);
    let (_, hm3) = parse_head("GET / HTTP/1.1\r\n\r\n").unwrap();
    assert_eq!(body_length(&hm3), 0);
    let (_, hm4) =
        parse_head("POST / HTTP/1.1\r\nContent-Length: 99999999999999999999999\r\n\r\n").unwrap();
    assert_eq!(body_length(&hm4), 0);
}

#[test]
fn decimal_parse_and_print() {
    assert_eq!(parse_dec("0"), Some(0));
    assert_eq!(parse_dec("42"), Some(42));
    assert_eq!(parse_dec(""), None);
    assert_eq!(parse_dec("4a"), None);
    assert_eq!(parse_dec("-1"), None);
    assert_eq!(parse_dec("+5"), None);
    assert_eq!(usize_to_dec(0), "0");
    assert_eq!(usize_to_dec(13), "13");
    assert_eq!(usize_to_dec(40960), "40960");
    assert_eq!(parse_dec(&usize_to_dec(usize::MAX)), Some(usize::MAX));
}

#[test]
fn lines_split_at_line_endings() {
    let ls = split_lines("a\r\nb\nc\r\n\r\n");
    assert_eq!(ls, vec!["a", "b", "c", ""]);
    assert_eq!(split_lines(""), Vec::<String>::new());
    assert_eq!(split_lines("x"), vec!["x"]);
}

#[test]
fn request_accessors() {
    let (h, hm) = parse_head("GET /user-agent HTTP/1.1\r\nUser-Agent: me\r\n\r\n").unwrap();
    let req = Request::new(h, hm, Vec::new());
    assert_eq!(req.get_path(), "/user-agent");
    assert_eq!(*req.get_method(), Method::GET);
    assert_eq!(req.get_header("User-Agent").unwrap(), "me");
    assert!(req.get_header("user-agent").is_none());
    assert!(req.body.is_empty());
}
