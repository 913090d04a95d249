//! Parsing of the HTTP request: method, request line, header block, and the
//! declared body length.
use vstd::prelude::*;

use crate::headers::{assoc_get, assoc_set, HeaderMap};
use crate::text::{
    dec_value, find_char_in, find_pair, find_pair_in, is_digits, lemma_find_char, lemma_find_pair,
    lines_of, parse_dec, split_char, split_lines, str_eq_str,
};

verus! {

/// The HTTP methods the server understands. Any other method token fails
/// request-line parsing.
#[derive(Debug, PartialEq, Eq, Structural, Clone, Copy)]
pub enum Method {
    GET,
    POST,
}

/// The method a token names: exactly "GET" and "POST" are recognized.
pub open spec fn method_of(t: Seq<char>) -> Option<Method> {
    if t == "GET"@ {
        Some(Method::GET)
    } else if t == "POST"@ {
        Some(Method::POST)
    } else {
        None
    }
}

impl Method {
    /// Parse a method token.
    pub fn from_string(word: &str) -> (r: Option<Method>)
        ensures
            r == method_of(word@),
    {
        if str_eq_str(word, "GET") {
            Some(Method::GET)
        } else if str_eq_str(word, "POST") {
            Some(Method::POST)
        } else {
            None
        }
    }
}

/// The space-separated tokens of a request line.
pub open spec fn request_line_tokens(l: Seq<char>) -> Seq<Seq<char>> {
    split_char(l, ' ')
}

/// A request line parses when it has at least three tokens and the first
/// names a method; any further tokens are ignored.
pub open spec fn request_line_ok(l: Seq<char>) -> bool {
    request_line_tokens(l).len() >= 3 && method_of(request_line_tokens(l)[0]) is Some
}

/// The first line of a request: method, target path, and protocol version.
/// The path and the protocol are recorded as written, without validation.
#[derive(Debug)]
pub struct Header {
    pub method: Method,
    pub path: String,
    pub protocol: String,
}

impl Header {
    /// Parse a request line: the first three space-separated tokens are
    /// method, path and protocol; fewer than three tokens, or an unknown
    /// method token, is a malformed request line.
    pub fn from_string(header_data: &str) -> (r: Option<Header>)
        ensures
            r is Some <==> request_line_ok(header_data@),
            r matches Some(h) ==> {
                let toks = request_line_tokens(header_data@);
                &&& method_of(toks[0]) == Some(h.method)
                &&& h.path@ == toks[1]
                &&& h.protocol@ == toks[2]
            },
    {
        let n = header_data.unicode_len();
        let i1 = find_char_in(header_data, ' ');
        proof {
            lemma_find_char(header_data@, ' ');
        }
        if i1 == n {
            assert(request_line_tokens(header_data@) == seq![header_data@]);
            return None;
        }
        let tok0 = header_data.substring_char(0, i1);
        let rest1 = header_data.substring_char(i1 + 1, n);
        proof {
            assert(tok0@ =~= header_data@.take(i1 as int));
            assert(rest1@ =~= header_data@.skip(i1 + 1));
        }
        let n1 = rest1.unicode_len();
        let i2 = find_char_in(rest1, ' ');
        proof {
            lemma_find_char(rest1@, ' ');
        }
        if i2 == n1 {
            proof {
                assert(split_char(rest1@, ' ') == seq![rest1@]);
                assert(split_char(header_data@, ' ') == seq![header_data@.take(i1 as int)]
                    + split_char(header_data@.skip(i1 + 1), ' '));
                assert(split_char(header_data@.skip(i1 + 1), ' ') == split_char(rest1@, ' '));
                assert(request_line_tokens(header_data@).len() == 2);
            }
            return None;
        }
        let tok1 = rest1.substring_char(0, i2);
        let rest2 = rest1.substring_char(i2 + 1, n1);
        proof {
            assert(tok1@ =~= rest1@.take(i2 as int));
            assert(rest2@ =~= rest1@.skip(i2 + 1));
        }
        let n2 = rest2.unicode_len();
        let i3 = find_char_in(rest2, ' ');
        proof {
            lemma_find_char(rest2@, ' ');
        }
        let tok2 = if i3 == n2 {
            rest2
        } else {
            rest2.substring_char(0, i3)
        };
        proof {
            let toks = request_line_tokens(header_data@);
            assert(split_char(header_data@, ' ') == seq![header_data@.take(i1 as int)]
                + split_char(header_data@.skip(i1 + 1), ' '));
            assert(split_char(header_data@.skip(i1 + 1), ' ') == split_char(rest1@, ' '));
            assert(split_char(rest1@, ' ') == seq![rest1@.take(i2 as int)] + split_char(
                rest1@.skip(i2 + 1), ' '));
            assert(split_char(rest1@.skip(i2 + 1), ' ') == split_char(rest2@, ' '));
            assert(toks == seq![tok0@] + (seq![tok1@] + split_char(rest2@, ' ')));
            assert(split_char(rest2@, ' ').len() >= 1);
            assert(toks.len() >= 3);
            assert(toks[0] == tok0@);
            assert(toks[1] == (seq![tok1@] + split_char(rest2@, ' '))[0]);
            assert(toks[2] == (seq![tok1@] + split_char(rest2@, ' '))[1]);
            assert(toks[2] == split_char(rest2@, ' ')[0]);
            if i3 == n2 {
                assert(split_char(rest2@, ' ') == seq![rest2@]);
            } else {
                assert(split_char(rest2@, ' ')[0] == rest2@.take(i3 as int));
                assert(tok2@ =~= rest2@.take(i3 as int));
            }
            assert(toks[2] == tok2@);
        }
        let method = match Method::from_string(tok0) {
            Some(m) => m,
            None => {
                return None;
            },
        };
        Some(Header { method, path: tok1.to_owned(), protocol: tok2.to_owned() })
    }
}

/// Why a request head failed to parse.
#[derive(Debug, PartialEq, Eq, Structural, Clone, Copy)]
pub enum ParseError {
    /// The request line has fewer than three tokens or an unknown method.
    MalformedRequestLine,
    /// A header line before the blank line has no `": "` separator.
    MalformedHeaderLine,
}

/// The header block read from `ls`, on top of the bindings in `acc`:
/// processes lines until a blank line or the end, each line split at the
/// first `": "` into a name and a value; a line without the separator fails
/// the block.
pub open spec fn header_block_go(
    ls: Seq<Seq<char>>,
    acc: Seq<(Seq<char>, Seq<char>)>,
) -> Option<Seq<(Seq<char>, Seq<char>)>>
    decreases ls.len(),
{
    if ls.len() == 0 {
        Some(acc)
    } else if ls[0].len() == 0 {
        Some(acc)
    } else {
        let i = find_pair(ls[0], ':', ' ');
        if i == ls[0].len() {
            None
        } else {
            header_block_go(ls.drop_first(), assoc_set(acc, ls[0].take(i), ls[0].skip(i + 2)))
        }
    }
}

/// The header block read from the lines after the request line.
pub open spec fn header_block_of(ls: Seq<Seq<char>>) -> Option<Seq<(Seq<char>, Seq<char>)>> {
    header_block_go(ls, Seq::<(Seq<char>, Seq<char>)>::empty())
}

/// Whether a whole request head parses: a request line and a well-formed
/// header block.
pub open spec fn head_ok(s: Seq<char>) -> bool {
    let ls = lines_of(s);
    &&& ls.len() >= 1
    &&& request_line_ok(ls[0])
    &&& header_block_of(ls.skip(1)) is Some
}

/// Parse the head of a request: the request line, then `Key: Value` lines up
/// to the blank line. An empty head or a bad request line is
/// `MalformedRequestLine`; a header line without `": "` before the blank
/// line is `MalformedHeaderLine`. Both are answered with `400 Bad Request`.
#[verifier::loop_isolation(false)]
pub fn parse_head(head: &str) -> (r: Result<(Header, HeaderMap), ParseError>)
    ensures
        r is Ok <==> head_ok(head@),
        r matches Ok(p) ==> {
            let ls = lines_of(head@);
            let toks = request_line_tokens(ls[0]);
            &&& method_of(toks[0]) == Some(p.0.method)
            &&& p.0.path@ == toks[1]
            &&& p.0.protocol@ == toks[2]
            &&& header_block_of(ls.skip(1)) == Some(p.1@)
        },
        r == Err::<(Header, HeaderMap), ParseError>(ParseError::MalformedRequestLine) <==> (
        lines_of(head@).len() == 0 || !request_line_ok(lines_of(head@)[0])),
    {
    let lines = split_lines(head);
    let ghost lviews = lines@.map_values(|l: String| l@);
    proof {
        assert(lviews =~= lines_of(head@));
    }
    if lines.len() == 0 {
        return Err(ParseError::MalformedRequestLine);
    }
    proof {
        assert(lviews[0] == lines@[0]@);
    }
    let hdr = match Header::from_string(lines[0].as_str()) {
        Some(h) => h,
        None => {
            return Err(ParseError::MalformedRequestLine);
        },
    };
    let mut hm = HeaderMap::new();
    let n = lines.len();
    let mut i: usize = 1;
    proof {
        assert(lviews.skip(1).len() == n - 1);
    }
    while i < n
        invariant
            1 <= i <= n,
            n == lines@.len(),
            lviews == lines@.map_values(|l: String| l@),
            header_block_of(lviews.skip(1)) == header_block_go(lviews.skip(i as int), hm@),
        decreases n - i,
    {
        proof {
            assert(lviews.skip(i as int)[0] == lviews[i as int]);
            assert(lviews[i as int] == lines@[i as int]@);
            assert(lviews.skip(i as int).drop_first() =~= lviews.skip(i + 1));
        }
        let line = &lines[i];
        let len_i = line.as_str().unicode_len();
        if len_i == 0 {
            assert(header_block_go(lviews.skip(i as int), hm@) == Some(hm@));
            return Ok((hdr, hm));
        }
        let j = find_pair_in(line.as_str(), ':', ' ');
        proof {
            lemma_find_pair(line@, ':', ' ');
        }
        if j == len_i {
            assert(header_block_go(lviews.skip(i as int), hm@) is None);
            return Err(ParseError::MalformedHeaderLine);
        }
        let k = line.as_str().substring_char(0, j);
        let v = line.as_str().substring_char(j + 2, len_i);
        proof {
            assert(k@ =~= lviews[i as int].take(j as int));
            assert(v@ =~= lviews[i as int].skip(j + 2));
        }
        hm.insert(k.to_owned(), v.to_owned());
        i = i + 1;
    }
    proof {
        assert(lviews.skip(n as int).len() == 0);
        assert(header_block_go(lviews.skip(n as int), hm@) == Some(hm@));
    }
    Ok((hdr, hm))
}

/// The body length a header block declares: the `Content-Length` value when
/// it is a string of decimal digits whose value fits, and zero otherwise.
/// A present but unparsable value is treated as zero rather than as an
/// error: the body reader is deliberately lenient here.
pub open spec fn declared_body_len(headers: Seq<(Seq<char>, Seq<char>)>) -> nat {
    match assoc_get(headers, "Content-Length"@) {
        Some(v) => if v.len() >= 1 && is_digits(v) && dec_value(v) <= usize::MAX {
            dec_value(v)
        } else {
            0
        },
        None => 0,
    }
}

/// How many body bytes the parsed headers ask the transport to read.
pub fn body_length(headers: &HeaderMap) -> (r: usize)
    ensures
        r == declared_body_len(headers@),
{
    match headers.get("Content-Length") {
        None => 0,
        Some(v) => match parse_dec(v.as_str()) {
            Some(nv) => nv,
            None => 0,
        },
    }
}

/// A parsed request: request line, headers, body bytes. Immutable once
/// constructed.
#[derive(Debug)]
pub struct Request {
    pub request_line: Header,
    pub http_headers: HeaderMap,
    pub body: Vec<u8>,
}

impl Request {
    /// Assemble a request from its parsed head and the body read from the
    /// transport.
    pub fn new(request_line: Header, http_headers: HeaderMap, body: Vec<u8>) -> (r: Request)
        ensures
            r.request_line == request_line,
            r.http_headers == http_headers,
            r.body == body,
    {
        Request { request_line, http_headers, body }
    }

    /// The value of the named header, if present (names are
    /// case-sensitive).
    pub fn get_header(&self, header: &str) -> (r: Option<&String>)
        ensures
            r matches Some(val) ==> assoc_get(self.http_headers@, header@) == Some(val@),
            r is Some <==> assoc_get(self.http_headers@, header@) is Some,
    {
        self.http_headers.get(header)
    }

    /// The request target path.
    pub fn get_path(&self) -> (r: &str)
        ensures
            r@ == self.request_line.path@,
    {
        self.request_line.path.as_str()
    }

    /// The request method.
    pub fn get_method(&self) -> (r: &Method)
        ensures
            *r == self.request_line.method,
    {
        &self.request_line.method
    }
}

} // verus!
