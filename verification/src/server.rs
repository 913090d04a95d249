//! Routing: from a parsed request to a response or to a filesystem action,
//! evaluated as an ordered transition table, first match wins. The
//! filesystem itself is a capability of the caller: reading and writing
//! files is asked for through [`Routed`], and the outcome is turned into a
//! response by [`file_read_response`] and [`file_write_response`].
use vstd::prelude::*;

use crate::headers::assoc_get;
use crate::request::{Method, Request};
use crate::response::{
    encodings_of, encs_of_tokens, lower_seq, response_bytes, response_head_bytes, ContentEncoding,
    ContentType, HttpCode, Response,
};
use crate::text::{has_prefix, str_eq_str, str_has_prefix};

verus! {

/// What the router asks of its caller: answer with a ready response, or
/// perform one filesystem action and come back through
/// [`file_read_response`] or [`file_write_response`].
#[derive(Debug)]
pub enum Routed {
    /// Write this response.
    Respond(Response),
    /// Read the file at this path; answer through [`file_read_response`].
    ReadFile(String),
    /// Write these bytes to the file at this path; answer through
    /// [`file_write_response`].
    WriteFile(String, Vec<u8>),
}

/// A response with the given status, no headers and an empty body.
pub open spec fn is_empty_response(r: Response, code: HttpCode) -> bool {
    &&& r.header.protocol@ == "HTTP/1.1"@
    &&& r.header.http_code == code
    &&& r.http_headers@ == Seq::<(Seq<char>, Seq<char>)>::empty()
    &&& r.body matches ContentType::PlainText(s) && s@ == Seq::<char>::empty()
    &&& r.gzip_supported == false
}

/// A plain-text response with the given status and text, compressed on
/// serialization exactly when `gz` holds.
pub open spec fn is_text_response(r: Response, code: HttpCode, text: Seq<char>, gz: bool) -> bool {
    &&& r.header.protocol@ == "HTTP/1.1"@
    &&& r.header.http_code == code
    &&& r.body matches ContentType::PlainText(t) && t@ == text
    &&& r.gzip_supported == gz
    &&& r.http_headers@ == (if gz {
        seq![("Content-Type"@, "text/plain"@), ("Content-Encoding"@, "gzip"@)]
    } else {
        seq![("Content-Type"@, "text/plain"@)]
    })
}

/// An octet-stream response with the given status and bytes, never
/// compressed.
pub open spec fn is_octet_response(r: Response, code: HttpCode, data: Seq<u8>) -> bool {
    &&& r.header.protocol@ == "HTTP/1.1"@
    &&& r.header.http_code == code
    &&& r.body matches ContentType::OctetStream(v) && v@ == data
    &&& r.gzip_supported == false
    &&& r.http_headers@ == seq![("Content-Type"@, "application/octet-stream"@)]
}

/// Whether a request's `Accept-Encoding` header accepts gzip.
pub open spec fn req_accepts_gzip(req: Request) -> bool {
    match assoc_get(req.http_headers@, "Accept-Encoding"@) {
        Some(v) => encodings_of(v).contains(ContentEncoding::Gzip),
        None => false,
    }
}

/// The view of an optional configured directory.
pub open spec fn dir_view(d: Option<String>) -> Option<Seq<char>> {
    match d {
        Some(s) => Some(s@),
        None => None,
    }
}

/// The routing table: what the router must produce for a request, given
/// the configured directory, evaluated in order with the first match
/// winning.
pub open spec fn routed_ok(req: Request, dir: Option<Seq<char>>, r: Routed) -> bool {
    let p = req.request_line.path@;
    if p == "/"@ {
        r matches Routed::Respond(resp) && is_empty_response(resp, HttpCode::OK)
    } else if p == "/user-agent"@ {
        match assoc_get(req.http_headers@, "User-Agent"@) {
            Some(ua) => r matches Routed::Respond(resp) && is_text_response(
                resp,
                HttpCode::OK,
                ua,
                false,
            ),
            None => r matches Routed::Respond(resp) && is_empty_response(
                resp,
                HttpCode::BadRequest,
            ),
        }
    } else if has_prefix(p, "/echo/"@) {
        r matches Routed::Respond(resp) && is_text_response(
            resp,
            HttpCode::OK,
            p.skip("/echo/"@.len() as int),
            req_accepts_gzip(req),
        )
    } else if has_prefix(p, "/files/"@) && req.request_line.method == Method::GET {
        match dir {
            Some(d) => r matches Routed::ReadFile(path) && path@ == d + p.skip(
                "/files/"@.len() as int,
            ),
            None => r matches Routed::Respond(resp) && is_empty_response(resp, HttpCode::NotFound),
        }
    } else if has_prefix(p, "/files/"@) && req.request_line.method == Method::POST {
        match dir {
            Some(d) => r matches Routed::WriteFile(path, contents) && path@ == d + p.skip(
                "/files/"@.len() as int,
            ) && contents@ == req.body@,
            None => r matches Routed::Respond(resp) && is_empty_response(resp, HttpCode::NotFound),
        }
    } else {
        r matches Routed::Respond(resp) && is_empty_response(resp, HttpCode::NotFound)
    }
}

/// Every recognized encoding is gzip, so a non-empty parse accepts gzip.
proof fn lemma_encs_all_gzip(toks: Seq<Seq<char>>)
    ensures
        forall|i: int|
            0 <= i < encs_of_tokens(toks).len() ==> encs_of_tokens(toks)[i]
                == ContentEncoding::Gzip,
    decreases toks.len(),
{
    if toks.len() == 0 {
    } else {
        lemma_encs_all_gzip(toks.drop_first());
        let head: Seq<ContentEncoding> = if lower_seq(toks[0]) == "gzip"@ {
            seq![ContentEncoding::Gzip]
        } else {
            seq![]
        };
        assert forall|i: int|
            0 <= i < encs_of_tokens(toks).len() implies encs_of_tokens(toks)[i]
            == ContentEncoding::Gzip by {
            if i >= head.len() {
                assert(encs_of_tokens(toks)[i] == encs_of_tokens(toks.drop_first())[i - head.len()]);
            }
        }
    }
}

/// A parse of an `Accept-Encoding` value accepts gzip exactly when it is
/// non-empty.
pub proof fn lemma_gzip_iff_nonempty(v: Seq<char>)
    ensures
        encodings_of(v).contains(ContentEncoding::Gzip) <==> encodings_of(v).len() > 0,
{
    lemma_encs_all_gzip(crate::response::encoding_tokens(v));
    if encodings_of(v).len() > 0 {
        assert(encodings_of(v)[0] == ContentEncoding::Gzip);
    }
}

/// Copy a byte vector.
fn copy_bytes(v: &Vec<u8>) -> (r: Vec<u8>)
    ensures
        r@ == v@,
{
    let mut out: Vec<u8> = Vec::new();
    let n = v.len();
    let mut i: usize = 0;
    while i < n
        invariant
            i <= n,
            n == v@.len(),
            out@ == v@.take(i as int),
        decreases n - i,
    {
        out.push(v[i]);
        i = i + 1;
        proof {
            assert(out@ =~= v@.take(i as int));
        }
    }
    proof {
        assert(v@.take(n as int) =~= v@);
    }
    out
}

/// Route one request: the transition table of the server, evaluated in
/// order. Filesystem work is handed back to the caller as a [`Routed`]
/// action; everything else is answered directly. A `/user-agent` request
/// without a `User-Agent` header is answered `400 Bad Request`.
pub fn handle_request(request: &Request, dir: &Option<String>) -> (r: Routed)
    ensures
        routed_ok(*request, dir_view(*dir), r),
{
    let path = request.get_path();
    if str_eq_str(path, "/") {
        return Routed::Respond(Response::new_empty(HttpCode::OK));
    }
    if str_eq_str(path, "/user-agent") {
        match request.get_header("User-Agent") {
            Some(ua) => {
                let resp = Response::new(
                    HttpCode::OK,
                    ContentType::PlainText(ua.clone()),
                    None,
                );
                return Routed::Respond(resp);
            },
            None => {
                return Routed::Respond(Response::new_empty(HttpCode::BadRequest));
            },
        }
    }
    if str_has_prefix(path, "/echo/") {
        let accepts_gzip = match request.get_header("Accept-Encoding") {
            None => false,
            Some(v) => {
                let encs = ContentEncoding::from_string(v);
                proof {
                    lemma_gzip_iff_nonempty(v@);
                }
                encs.len() > 0
            },
        };
        proof {
            reveal_strlit("/echo/");
        }
        let n = path.unicode_len();
        let text = path.substring_char(6, n);
        proof {
            assert(text@ =~= request.request_line.path@.skip("/echo/"@.len() as int));
        }
        let enc = if accepts_gzip {
            Some(ContentEncoding::Gzip)
        } else {
            None
        };
        let resp = Response::new(HttpCode::OK, ContentType::PlainText(text.to_owned()), enc);
        return Routed::Respond(resp);
    }
    if str_has_prefix(path, "/files/") {
        match dir {
            None => {
                return Routed::Respond(Response::new_empty(HttpCode::NotFound));
            },
            Some(d) => {
                proof {
                    reveal_strlit("/files/");
                }
                let n = path.unicode_len();
                let name = path.substring_char(7, n);
                proof {
                    assert(name@ =~= request.request_line.path@.skip("/files/"@.len() as int));
                }
                let full = d.clone().concat(name);
                let is_get = match request.get_method() {
                    Method::GET => true,
                    Method::POST => false,
                };
                if is_get {
                    return Routed::ReadFile(full);
                } else {
                    return Routed::WriteFile(full, copy_bytes(&request.body));
                }
            },
        }
    }
    Routed::Respond(Response::new_empty(HttpCode::NotFound))
}

/// The response for the outcome of a requested file read: the file's bytes
/// as an octet stream on success, `404 Not Found` with an empty body when
/// the file could not be read.
pub fn file_read_response(file_res: Option<Vec<u8>>) -> (r: Response)
    ensures
        file_res matches Some(data) ==> is_octet_response(r, HttpCode::OK, data@),
        file_res is None ==> is_empty_response(r, HttpCode::NotFound),
{
    match file_res {
        Some(data) => Response::new(HttpCode::OK, ContentType::OctetStream(data), None),
        None => Response::new_empty(HttpCode::NotFound),
    }
}

/// The response for the outcome of a requested file write: `201 Created`
/// on success, `404 Not Found` on failure, both with an empty body.
pub fn file_write_response(ok: bool) -> (r: Response)
    ensures
        ok ==> is_empty_response(r, HttpCode::Created),
        !ok ==> is_empty_response(r, HttpCode::NotFound),
{
    if ok {
        Response::new_empty(HttpCode::Created)
    } else {
        Response::new_empty(HttpCode::NotFound)
    }
}

/// An empty-bodied response serializes to its head alone: the wire bytes
/// carry the demanded status and not a single body byte.
pub proof fn lemma_empty_response_bytes(r: Response, code: HttpCode)
    requires
        is_empty_response(r, code),
    ensures
        crate::response::final_body_bytes(r).len() == 0,
        response_bytes(r) == response_head_bytes(r),
        r.header.http_code == code,
{
    let s = r.body->PlainText_0;
    assert(vstd::utf8::encode_utf8(s@).len() == 0);
    assert(response_head_bytes(r) + crate::response::final_body_bytes(r) =~= response_head_bytes(
        r,
    ));
}

/// The root law: a request for `/` is always answered with status 200 and
/// an empty body, whatever its method, headers and configured directory.
pub proof fn lemma_root_always_ok(req: Request, dir: Option<Seq<char>>, r: Routed)
    requires
        routed_ok(req, dir, r),
        req.request_line.path@ == "/"@,
    ensures
        r matches Routed::Respond(resp) && is_empty_response(resp, HttpCode::OK)
            && crate::response::final_body_bytes(resp).len() == 0 && response_bytes(resp)
            == response_head_bytes(resp),
{
    let resp = r->Respond_0;
    lemma_empty_response_bytes(resp, HttpCode::OK);
}

/// The not-found law: a request whose path matches no route is always
/// answered with status 404 and an empty body.
pub proof fn lemma_unmatched_is_not_found(req: Request, dir: Option<Seq<char>>, r: Routed)
    requires
        routed_ok(req, dir, r),
        req.request_line.path@ != "/"@,
        req.request_line.path@ != "/user-agent"@,
        !has_prefix(req.request_line.path@, "/echo/"@),
        !has_prefix(req.request_line.path@, "/files/"@),
    ensures
        r matches Routed::Respond(resp) && is_empty_response(resp, HttpCode::NotFound)
            && crate::response::final_body_bytes(resp).len() == 0 && response_bytes(resp)
            == response_head_bytes(resp),
{
    let resp = r->Respond_0;
    lemma_empty_response_bytes(resp, HttpCode::NotFound);
}

/// The echo law: a request for `/echo/<s>` is answered with a plain-text
/// 200 response whose wire body is exactly the UTF-8 bytes of `<s>` when no
/// compression was negotiated — and those bytes decode back to `<s>` — and
/// exactly the gzip encoding of those bytes when it was.
pub proof fn lemma_echo_reflects_text(req: Request, dir: Option<Seq<char>>, r: Routed)
    requires
        routed_ok(req, dir, r),
        has_prefix(req.request_line.path@, "/echo/"@),
    ensures
        ({
            let text = req.request_line.path@.skip("/echo/"@.len() as int);
            r matches Routed::Respond(resp) && ({
                &&& is_text_response(resp, HttpCode::OK, text, req_accepts_gzip(req))
                &&& !resp.gzip_supported ==> response_bytes(resp) == response_head_bytes(resp)
                    + vstd::utf8::encode_utf8(text) && vstd::utf8::decode_utf8(
                    vstd::utf8::encode_utf8(text),
                ) == text
                &&& resp.gzip_supported ==> response_bytes(resp) == response_head_bytes(resp)
                    + crate::response::gzip_of(vstd::utf8::encode_utf8(text))
            })
        }),
{
    let p = req.request_line.path@;
    reveal_strlit("/echo/");
    reveal_strlit("/");
    reveal_strlit("/user-agent");
    assert(p.len() >= 6);
    assert(p[1] == p.take(6)[1]);
    assert(p[1] == 'e');
    assert(p != "/"@);
    assert(p != "/user-agent"@);
    let resp = r->Respond_0;
    let text = p.skip("/echo/"@.len() as int);
    crate::response::lemma_text_body_exact(resp, text);
}

/// The file round trip: a POST and a GET to the same `/files/` path, with
/// the same configured directory, target the same file, and the posted
/// bytes are exactly what the write action carries. With
/// [`is_octet_response`] and the octet body law, what was stored is what
/// is served back.
pub proof fn lemma_post_then_get_same_file(
    post_req: Request,
    get_req: Request,
    dir: Option<Seq<char>>,
    rp: Routed,
    rg: Routed,
)
    requires
        routed_ok(post_req, dir, rp),
        routed_ok(get_req, dir, rg),
        dir is Some,
        post_req.request_line.method == Method::POST,
        get_req.request_line.method == Method::GET,
        get_req.request_line.path@ == post_req.request_line.path@,
        has_prefix(post_req.request_line.path@, "/files/"@),
    ensures
        rp matches Routed::WriteFile(wpath, contents) && rg matches Routed::ReadFile(rpath)
            && wpath@ == rpath@ && contents@ == post_req.body@,
{
    let p = post_req.request_line.path@;
    reveal_strlit("/files/");
    reveal_strlit("/");
    reveal_strlit("/user-agent");
    reveal_strlit("/echo/");
    assert(p.len() >= 7);
    assert(p[1] == p.take(7)[1]);
    assert(p[1] == 'f');
    assert(p != "/"@);
    assert(p != "/user-agent"@);
    if has_prefix(p, "/echo/"@) {
        assert(p[1] == p.take(6)[1]);
        assert(false);
    }
}

} // verus!
