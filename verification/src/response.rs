//! Building a response and serializing it to its exact wire bytes: status
//! line, headers with correct framing, and an optionally gzip-compressed
//! body.
use vstd::prelude::*;

use crate::headers::{assoc_get, assoc_set, lemma_assoc_set_get, HeaderMap};
use crate::text::{
    dec_str_of, dec_value, lemma_dec_round_trip, push_char, split_pair, usize_to_dec,
};
use vstd::string::StringSliceAdditionalSpecFns;
use vstd::utf8::{decode_utf8, encode_utf8};

verus! {

/// The response body encodings the server can apply.
#[derive(Debug, PartialEq, Eq, Structural, Clone, Copy)]
pub enum ContentEncoding {
    Gzip,
}

/// An ASCII capital letter mapped to its small form; any other character
/// unchanged.
pub open spec fn lower_char(c: char) -> char {
    if 'A' <= c && c <= 'Z' {
        (((c as u8) + 32) as char)
    } else {
        c
    }
}

/// A sequence of characters, ASCII-lowercased.
pub open spec fn lower_seq(s: Seq<char>) -> Seq<char> {
    s.map_values(|c: char| lower_char(c))
}

/// The `", "`-separated tokens of an `Accept-Encoding` value.
pub open spec fn encoding_tokens(s: Seq<char>) -> Seq<Seq<char>> {
    split_pair(s, ',', ' ')
}

/// The encodings the tokens name once lowercased: only "gzip" is
/// recognized; unknown tokens are dropped silently.
pub open spec fn encs_of_tokens(toks: Seq<Seq<char>>) -> Seq<ContentEncoding>
    decreases toks.len(),
{
    if toks.len() == 0 {
        seq![]
    } else {
        (if lower_seq(toks[0]) == "gzip"@ {
            seq![ContentEncoding::Gzip]
        } else {
            seq![]
        }) + encs_of_tokens(toks.drop_first())
    }
}

/// The encodings an `Accept-Encoding` header value accepts.
pub open spec fn encodings_of(s: Seq<char>) -> Seq<ContentEncoding> {
    encs_of_tokens(encoding_tokens(s))
}

/// An ASCII capital letter mapped to its small form.
fn lower_char_exec(c: char) -> (r: char)
    ensures
        r == lower_char(c),
{
    if c >= 'A' && c <= 'Z' {
        ((c as u8) + 32) as char
    } else {
        c
    }
}

/// Whether a token, lowercased, reads "gzip".
fn token_is_gzip(t: &str) -> (r: bool)
    ensures
        r == (lower_seq(t@) == "gzip"@),
{
    proof {
        reveal_strlit("gzip");
    }
    let n = t.unicode_len();
    if n != 4 {
        assert(lower_seq(t@).len() == t@.len());
        return false;
    }
    let c0 = lower_char_exec(t.get_char(0));
    let c1 = lower_char_exec(t.get_char(1));
    let c2 = lower_char_exec(t.get_char(2));
    let c3 = lower_char_exec(t.get_char(3));
    let r = c0 == 'g' && c1 == 'z' && c2 == 'i' && c3 == 'p';
    proof {
        assert(lower_seq(t@)[0] == lower_char(t@[0]));
        assert(lower_seq(t@)[1] == lower_char(t@[1]));
        assert(lower_seq(t@)[2] == lower_char(t@[2]));
        assert(lower_seq(t@)[3] == lower_char(t@[3]));
        if r {
            assert(lower_seq(t@) =~= "gzip"@);
        } else {
            assert(lower_seq(t@) != "gzip"@);
        }
    }
    r
}

impl ContentEncoding {
    /// The name of the encoding as it appears in headers.
    pub fn to_string(&self) -> (r: String)
        ensures
            r@ == "gzip"@,
    {
        match self {
            ContentEncoding::Gzip => "gzip".to_owned(),
        }
    }

    /// Parse an `Accept-Encoding` value: split on `", "`, lowercase each
    /// token, keep the recognized encodings in order.
    pub fn from_string(text: &String) -> (r: Vec<ContentEncoding>)
        ensures
            r@ == encodings_of(text@),
    {
        let mut out: Vec<ContentEncoding> = Vec::new();
        let s = text.as_str();
        let n = s.unicode_len();
        let mut pos: usize = 0;
        proof {
            assert(text@.skip(0) =~= text@);
        }
        let mut done = false;
        while !done
            invariant
                pos <= n,
                n == text@.len(),
                s@ == text@,
                !done ==> encodings_of(text@) == out@ + encs_of_tokens(
                    encoding_tokens(text@.skip(pos as int)),
                ),
                done ==> encodings_of(text@) == out@,
            decreases n - pos + (if done { 0int } else { 1int }),
        {
            let rest = s.substring_char(pos, n);
            proof {
                assert(rest@ =~= text@.skip(pos as int));
            }
            let i = crate::text::find_pair_in(rest, ',', ' ');
            let rn = rest.unicode_len();
            proof {
                crate::text::lemma_find_pair(rest@, ',', ' ');
            }
            let tok = if i == rn {
                rest
            } else {
                rest.substring_char(0, i)
            };
            proof {
                let rtoks = encoding_tokens(rest@);
                if i == rn {
                    assert(rtoks == seq![rest@]);
                    assert(tok@ == rtoks[0]);
                    assert(rtoks.drop_first() =~= Seq::<Seq<char>>::empty());
                    assert(encs_of_tokens(Seq::<Seq<char>>::empty()) == Seq::<
                        ContentEncoding,
                    >::empty());
                } else {
                    assert(rtoks == seq![rest@.take(i as int)] + split_pair(
                        rest@.skip(i + 2),
                        ',',
                        ' ',
                    ));
                    assert(tok@ =~= rest@.take(i as int));
                    assert(tok@ == rtoks[0]);
                    assert(rtoks.drop_first() =~= encoding_tokens(rest@.skip(i + 2)));
                    assert(rest@.skip(i + 2) =~= text@.skip(pos + i + 2));
                }
                assert(encs_of_tokens(rtoks) == (if lower_seq(rtoks[0]) == "gzip"@ {
                    seq![ContentEncoding::Gzip]
                } else {
                    seq![]
                }) + encs_of_tokens(rtoks.drop_first()));
            }
            let ghost prev = out@;
            if token_is_gzip(tok) {
                out.push(ContentEncoding::Gzip);
                proof {
                    assert(out@ =~= prev + seq![ContentEncoding::Gzip]);
                }
            } else {
                proof {
                    assert(prev + Seq::<ContentEncoding>::empty() =~= prev);
                }
            }
            if i == rn {
                done = true;
                proof {
                    assert(encodings_of(text@) =~= out@);
                }
            } else {
                pos = pos + i + 2;
            }
        }
        out
    }
}

/// The kinds of response body: plain text, or an opaque byte payload.
#[derive(Debug)]
pub enum ContentType {
    PlainText(String),
    OctetStream(Vec<u8>),
}

impl ContentType {
    /// The `Content-Type` label for this kind of body.
    pub open spec fn spec_label(&self) -> Seq<char> {
        match self {
            ContentType::PlainText(_) => "text/plain"@,
            ContentType::OctetStream(_) => "application/octet-stream"@,
        }
    }

    /// The bytes this body contributes to the wire before any compression:
    /// the UTF-8 encoding of the text, or the raw bytes.
    pub open spec fn wire_bytes(&self) -> Seq<u8> {
        match self {
            ContentType::PlainText(s) => encode_utf8(s@),
            ContentType::OctetStream(v) => v@,
        }
    }

    /// The body as a sequence of characters: the text itself, or each byte
    /// read as one character.
    pub open spec fn spec_chars(&self) -> Seq<char> {
        match self {
            ContentType::PlainText(s) => s@,
            ContentType::OctetStream(v) => v@.map_values(|b: u8| b as char),
        }
    }

    /// The `Content-Type` label for this kind of body.
    pub fn get_label(&self) -> (r: &str)
        ensures
            r@ == self.spec_label(),
    {
        match self {
            ContentType::PlainText(_) => "text/plain",
            ContentType::OctetStream(_) => "application/octet-stream",
        }
    }

    /// The body as a string, one character per byte for a byte payload.
    pub fn to_string(&self) -> (r: String)
        ensures
            r@ == self.spec_chars(),
    {
        match self {
            ContentType::PlainText(content) => content.clone(),
            ContentType::OctetStream(content) => {
                let mut out = String::new();
                let n = content.len();
                let mut i: usize = 0;
                proof {
                    assert(out@ =~= content@.take(0).map_values(|b: u8| b as char));
                }
                while i < n
                    invariant
                        i <= n,
                        n == content@.len(),
                        out@ == content@.take(i as int).map_values(|b: u8| b as char),
                    decreases n - i,
                {
                    push_char(&mut out, content[i] as char);
                    i = i + 1;
                    proof {
                        assert(out@ =~= content@.take(i as int).map_values(|b: u8| b as char));
                    }
                }
                proof {
                    assert(content@.take(n as int) =~= content@);
                }
                out
            },
        }
    }

    /// The byte length used for framing, before any compression.
    pub fn len(&self) -> (r: usize)
        ensures
            r == self.wire_bytes().len(),
    {
        match self {
            ContentType::PlainText(content) => {
                let b = content.as_str().as_bytes_vec();
                proof {
                    assert(b@ == encode_utf8(content@));
                }
                b.len()
            },
            ContentType::OctetStream(content) => content.len(),
        }
    }

    /// The bytes this body contributes to the wire before any compression.
    pub fn to_wire_bytes(&self) -> (r: Vec<u8>)
        ensures
            r@ == self.wire_bytes(),
    {
        match self {
            ContentType::PlainText(content) => content.as_str().as_bytes_vec(),
            ContentType::OctetStream(content) => {
                let mut out: Vec<u8> = Vec::new();
                let n = content.len();
                let mut i: usize = 0;
                while i < n
                    invariant
                        i <= n,
                        n == content@.len(),
                        out@ == content@.take(i as int),
                    decreases n - i,
                {
                    out.push(content[i]);
                    i = i + 1;
                    proof {
                        assert(out@ =~= content@.take(i as int));
                    }
                }
                proof {
                    assert(content@.take(n as int) =~= content@);
                }
                out
            },
        }
    }
}

/// The status codes the server answers with.
#[derive(Debug, PartialEq, Eq, Structural, Clone, Copy)]
pub enum HttpCode {
    OK,
    Created,
    BadRequest,
    NotFound,
}

/// The status code and reason phrase as written on the status line.
pub open spec fn code_text(c: HttpCode) -> Seq<char> {
    match c {
        HttpCode::OK => "200 OK"@,
        HttpCode::Created => "201 Created"@,
        HttpCode::BadRequest => "400 Bad Request"@,
        HttpCode::NotFound => "404 Not Found"@,
    }
}

impl HttpCode {
    /// The code and reason phrase, e.g. "200 OK".
    pub fn to_string(&self) -> (r: String)
        ensures
            r@ == code_text(*self),
    {
        match self {
            HttpCode::OK => "200 OK".to_owned(),
            HttpCode::Created => "201 Created".to_owned(),
            HttpCode::BadRequest => "400 Bad Request".to_owned(),
            HttpCode::NotFound => "404 Not Found".to_owned(),
        }
    }
}

/// The first line of a response: protocol version and status.
#[derive(Debug)]
pub struct StartLine {
    pub protocol: String,
    pub http_code: HttpCode,
}

impl StartLine {
    /// A status line for the fixed protocol version.
    pub fn new(code: HttpCode) -> (r: StartLine)
        ensures
            r.protocol@ == "HTTP/1.1"@,
            r.http_code == code,
    {
        StartLine { protocol: "HTTP/1.1".to_owned(), http_code: code }
    }

    /// The status line text: protocol, one space, code and reason.
    pub fn to_string(&self) -> (r: String)
        ensures
            r@ == self.protocol@ + " "@ + code_text(self.http_code),
    {
        let code_str = self.http_code.to_string();
        self.protocol.clone().concat(" ").concat(code_str.as_str())
    }
}

/// What the gzip encoder produces for the given bytes, at the default
/// compression level.
pub uninterp spec fn gzip_of(b: Seq<u8>) -> Seq<u8>;

/// What the gzip decoder recovers from the given compressed bytes.
pub uninterp spec fn gunzip_of(b: Seq<u8>) -> Seq<u8>;

/// Relies on flate2's `write::GzEncoder` at the default level, writing into
/// a `Vec` sink, which cannot fail: the result is a deterministic function
/// of the input bytes (flate2 fixes the header's timestamp and operating
/// system fields), and flate2's decoder recovers the input from it.
#[verifier::external_body]
fn gzip_compress(data: &Vec<u8>) -> (r: Vec<u8>)
    ensures
        r@ == gzip_of(data@),
        gunzip_of(r@) == data@,
{
    let mut enc = flate2::write::GzEncoder::new(Vec::new(), flate2::Compression::default());
    std::io::Write::write_all(&mut enc, data.as_slice()).expect("a Vec sink does not fail");
    enc.finish().expect("a Vec sink does not fail")
}

/// Append the UTF-8 bytes of `s` to `out`.
fn push_str_bytes(out: &mut Vec<u8>, s: &str)
    ensures
        final(out)@ == old(out)@ + encode_utf8(s@),
{
    let mut b = s.as_bytes_vec();
    proof {
        assert(b@ == encode_utf8(s@));
    }
    out.append(&mut b);
}

/// The bytes of a status line: protocol, space, code text, CRLF.
pub open spec fn status_line_bytes(sl: StartLine) -> Seq<u8> {
    encode_utf8(sl.protocol@) + encode_utf8(" "@) + encode_utf8(code_text(sl.http_code))
        + encode_utf8("\r\n"@)
}

/// The bytes of one header line: `name:value` followed by CRLF, with no
/// space after the colon.
pub open spec fn header_line_bytes(k: Seq<char>, v: Seq<char>) -> Seq<u8> {
    encode_utf8(k) + encode_utf8(":"@) + encode_utf8(v) + encode_utf8("\r\n"@)
}

/// The bytes of a header block, one line per entry, in order.
pub open spec fn header_block_bytes(hs: Seq<(Seq<char>, Seq<char>)>) -> Seq<u8>
    decreases hs.len(),
{
    if hs.len() == 0 {
        Seq::<u8>::empty()
    } else {
        header_block_bytes(hs.drop_last()) + header_line_bytes(hs.last().0, hs.last().1)
    }
}

/// One more header line extends the block bytes at the end.
proof fn lemma_header_block_bytes_take(hs: Seq<(Seq<char>, Seq<char>)>, i: int)
    requires
        0 <= i < hs.len(),
    ensures
        header_block_bytes(hs.take(i + 1)) == header_block_bytes(hs.take(i)) + header_line_bytes(
            hs[i].0,
            hs[i].1,
        ),
{
    assert(hs.take(i + 1).drop_last() =~= hs.take(i));
    assert(hs.take(i + 1).last() == hs[i]);
}

/// A response: status line, headers, body, and whether gzip was negotiated
/// for it.
#[derive(Debug)]
pub struct Response {
    pub header: StartLine,
    pub http_headers: HeaderMap,
    pub body: ContentType,
    pub gzip_supported: bool,
}

/// The body bytes actually written on the wire: compressed exactly when
/// gzip was negotiated.
pub open spec fn final_body_bytes(r: Response) -> Seq<u8> {
    if r.gzip_supported {
        gzip_of(r.body.wire_bytes())
    } else {
        r.body.wire_bytes()
    }
}

/// The headers as serialized: the stored headers with `Content-Length` set
/// to the length of the final body.
pub open spec fn wire_headers(r: Response) -> Seq<(Seq<char>, Seq<char>)> {
    assoc_set(r.http_headers@, "Content-Length"@, dec_str_of(final_body_bytes(r).len()))
}

/// Everything before the body: status line, header block, blank line.
pub open spec fn response_head_bytes(r: Response) -> Seq<u8> {
    status_line_bytes(r.header) + header_block_bytes(wire_headers(r)) + encode_utf8("\r\n"@)
}

/// The exact wire bytes of a response.
pub open spec fn response_bytes(r: Response) -> Seq<u8> {
    response_head_bytes(r) + final_body_bytes(r)
}

impl Response {
    /// A response with no headers and an empty body, for statuses that
    /// carry no content.
    pub fn new_empty(code: HttpCode) -> (r: Response)
        ensures
            r.header.protocol@ == "HTTP/1.1"@,
            r.header.http_code == code,
            r.http_headers@ == Seq::<(Seq<char>, Seq<char>)>::empty(),
            r.body matches ContentType::PlainText(s) && s@ == Seq::<char>::empty(),
            r.gzip_supported == false,
    {
        Response {
            header: StartLine::new(code),
            http_headers: HeaderMap::new(),
            body: ContentType::PlainText(String::new()),
            gzip_supported: false,
        }
    }

    /// A response with a body: `Content-Type` is set from the body's label,
    /// and when an encoding was negotiated, `Content-Encoding` is set and
    /// the body will be compressed on serialization.
    pub fn new(code: HttpCode, content: ContentType, content_encoding: Option<ContentEncoding>)
        -> (r: Response)
        ensures
            r.header.protocol@ == "HTTP/1.1"@,
            r.header.http_code == code,
            r.body == content,
            r.gzip_supported == (content_encoding is Some),
            content_encoding is Some ==> r.http_headers@ == seq![
                ("Content-Type"@, content.spec_label()),
                ("Content-Encoding"@, "gzip"@),
            ],
            content_encoding is None ==> r.http_headers@ == seq![
                ("Content-Type"@, content.spec_label()),
            ],
    {
        let mut headers = HeaderMap::new();
        headers.insert("Content-Type".to_owned(), content.get_label().to_owned());
        proof {
            assert(headers@ =~= seq![("Content-Type"@, content.spec_label())]);
        }
        let gzip_supported = match content_encoding {
            Some(ContentEncoding::Gzip) => true,
            None => false,
        };
        if gzip_supported {
            proof {
                reveal_strlit("Content-Type");
                reveal_strlit("Content-Encoding");
                assert("Content-Type"@.len() != "Content-Encoding"@.len());
            }
            let ghost h1 = headers@;
            headers.insert("Content-Encoding".to_owned(), "gzip".to_owned());
            proof {
                assert(h1[0].0 != "Content-Encoding"@);
                assert(h1.drop_first() =~= Seq::<(Seq<char>, Seq<char>)>::empty());
                assert(assoc_set(
                    Seq::<(Seq<char>, Seq<char>)>::empty(),
                    "Content-Encoding"@,
                    "gzip"@,
                ) =~= seq![("Content-Encoding"@, "gzip"@)]);
                assert(headers@ =~= seq![
                    ("Content-Type"@, content.spec_label()),
                    ("Content-Encoding"@, "gzip"@),
                ]);
            }
        }
        Response { header: StartLine::new(code), http_headers: headers, body: content, gzip_supported }
    }

    /// Serialize the response to its exact wire bytes: status line, each
    /// header as `name:value`, `Content-Length` reflecting the final body,
    /// a blank line, then the body, compressed when gzip was negotiated,
    /// with no terminating line break after the body.
    #[verifier::loop_isolation(false)]
    #[verifier::rlimit(60)]
    pub fn to_bytes(&self) -> (r: Vec<u8>)
        ensures
            r@ == response_bytes(*self),
            self.gzip_supported ==> gunzip_of(gzip_of(self.body.wire_bytes()))
                == self.body.wire_bytes(),
    {
        let raw: Vec<u8> = self.body.to_wire_bytes();
        let mut fin: Vec<u8> = if self.gzip_supported {
            gzip_compress(&raw)
        } else {
            raw
        };
        let cl = usize_to_dec(fin.len());
        proof {
            assert(fin@ == final_body_bytes(*self));
        }
        let mut headers = self.http_headers.duplicate();
        headers.insert("Content-Length".to_owned(), cl);
        proof {
            assert(headers@ == wire_headers(*self));
        }
        let mut out: Vec<u8> = Vec::new();
        push_str_bytes(&mut out, self.header.protocol.as_str());
        push_str_bytes(&mut out, " ");
        let code_str = self.header.http_code.to_string();
        push_str_bytes(&mut out, code_str.as_str());
        push_str_bytes(&mut out, "\r\n");
        proof {
            assert(out@ == status_line_bytes(self.header));
        }
        let hn = headers.len();
        let mut i: usize = 0;
        proof {
            assert(headers@.take(0) =~= Seq::<(Seq<char>, Seq<char>)>::empty());
            assert(out@ + Seq::<u8>::empty() =~= out@);
        }
        while i < hn
            invariant
                i <= hn,
                hn == headers@.len(),
                out@ == status_line_bytes(self.header) + header_block_bytes(
                    headers@.take(i as int),
                ),
            decreases hn - i,
        {
            push_str_bytes(&mut out, headers.key_at(i).as_str());
            push_str_bytes(&mut out, ":");
            push_str_bytes(&mut out, headers.value_at(i).as_str());
            push_str_bytes(&mut out, "\r\n");
            proof {
                lemma_header_block_bytes_take(headers@, i as int);
            }
            i = i + 1;
        }
        proof {
            assert(headers@.take(hn as int) =~= headers@);
        }
        push_str_bytes(&mut out, "\r\n");
        out.append(&mut fin);
        proof {
            assert(out@ == response_bytes(*self));
        }
        out
    }
}

/// The framing law: the wire bytes are head then body, the serialized
/// headers carry a `Content-Length`, and its numeral reads back as exactly
/// the byte length of the body as written, after any compression.
pub proof fn lemma_content_length_frames_body(r: Response)
    ensures
        response_bytes(r) == response_head_bytes(r) + final_body_bytes(r),
        assoc_get(wire_headers(r), "Content-Length"@) == Some(
            dec_str_of(final_body_bytes(r).len()),
        ),
        dec_value(dec_str_of(final_body_bytes(r).len())) == final_body_bytes(r).len(),
{
    lemma_assoc_set_get(r.http_headers@, "Content-Length"@, dec_str_of(final_body_bytes(r).len()));
    lemma_dec_round_trip(final_body_bytes(r).len());
}

/// The echo law: a plain-text response carries exactly the UTF-8 bytes of
/// its text after the head when no compression was negotiated — and those
/// bytes decode back to the text — and exactly the gzip encoding of those
/// bytes when it was.
pub proof fn lemma_text_body_exact(r: Response, s: Seq<char>)
    requires
        r.body matches ContentType::PlainText(t) && t@ == s,
    ensures
        !r.gzip_supported ==> response_bytes(r) == response_head_bytes(r) + encode_utf8(s)
            && decode_utf8(encode_utf8(s)) == s,
        r.gzip_supported ==> response_bytes(r) == response_head_bytes(r) + gzip_of(
            encode_utf8(s),
        ),
{
    vstd::utf8::encode_utf8_decode_utf8(s);
}

/// The file law: a byte-payload response without compression carries
/// exactly its bytes after the head, so what was stored is what is served.
pub proof fn lemma_octet_body_exact(r: Response, data: Seq<u8>)
    requires
        r.body matches ContentType::OctetStream(v) && v@ == data,
        !r.gzip_supported,
    ensures
        response_bytes(r) == response_head_bytes(r) + data,
{
}

} // verus!
