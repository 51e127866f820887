use vstd::prelude::*;
use vstd::utf8::{decode_utf8, encode_utf8, valid_utf8};

use crate::body::HttpBody;
use crate::error::ServerError;
use crate::headers::{fields_map, HttpHeaders};
use crate::method::{method_from_str, method_of, HttpMethod};
use crate::syntax::{
    blank_from, fields_of_lines, lemma_blank_from_bounds, lines_of, parse_field, split_lines,
    split_tokens, tokens_of,
};
use crate::text::{chars_of, string_of};
use crate::uri::HttpUri;
use crate::version::{version_from_str, version_of, HttpVersion};

verus! {

/// The lines of a header block after the request line, up to the first empty line.
pub open spec fn header_lines(ls: Seq<Seq<char>>) -> Seq<Seq<char>> {
    if ls.len() == 0 {
        Seq::empty()
    } else {
        ls.subrange(1, blank_from(ls, 1))
    }
}

/// The header fields that header text `t` holds, in order.
pub open spec fn head_fields(t: Seq<char>) -> Seq<(Seq<char>, Seq<char>)> {
    fields_of_lines(header_lines(lines_of(t)))
}

/// The tokens of the request line of header text `t`.
pub open spec fn request_line_tokens(t: Seq<char>) -> Seq<Seq<char>> {
    tokens_of(lines_of(t)[0])
}

/// Header text whose first line has exactly three tokens: method, path, version.
pub open spec fn head_is_valid(t: Seq<char>) -> bool {
    lines_of(t).len() > 0 && request_line_tokens(t).len() == 3
}

/// The characters after the blank line that closes the headers, lines joined without
/// their line ends.
pub open spec fn trailing_text(t: Seq<char>) -> Seq<char> {
    let ls = lines_of(t);
    if ls.len() == 0 {
        Seq::empty()
    } else {
        let b = blank_from(ls, 1);
        if b + 1 < ls.len() {
            ls.subrange(b + 1, ls.len() as int).flatten()
        } else {
            Seq::empty()
        }
    }
}

/// The header name `Content-Length`.
pub open spec fn content_length_name() -> Seq<char> {
    seq!['C', 'o', 'n', 't', 'e', 'n', 't', '-', 'L', 'e', 'n', 'g', 't', 'h']
}

/// The header name `Transfer-Encoding`.
pub open spec fn transfer_encoding_name() -> Seq<char> {
    seq!['T', 'r', 'a', 'n', 's', 'f', 'e', 'r', '-', 'E', 'n', 'c', 'o', 'd', 'i', 'n', 'g']
}

/// A parsed request: the request line, the header fields and the body.
#[derive(Debug)]
pub struct HttpRequest<R> {
    pub method: HttpMethod,
    pub headers: HttpHeaders,
    pub body: Option<HttpBody<R>>,
    pub uri: HttpUri,
    pub version: HttpVersion,
}

/// Relies on `std::str::from_utf8`: it succeeds exactly on valid UTF-8, and then the
/// string holds the decoded characters.
#[verifier::external_body]
fn decode_text(b: &[u8]) -> (r: Option<String>)
    ensures
        r is Some <==> valid_utf8(b@),
        r matches Some(s) ==> s@ == decode_utf8(b@),
{
    std::str::from_utf8(b).ok().map(|s| s.to_owned())
}

/// Parses the header fields of `ls[1..]` up to the first empty line.
fn parse_fields(ls: &Vec<Vec<char>>) -> (r: HttpHeaders)
    requires
        ls@.len() > 0,
    ensures
        r.wf(),
        r.map() == fields_map(fields_of_lines(header_lines(ls@.map_values(|v: Vec<char>| v@)))),
{
    let ghost lv = ls@.map_values(|v: Vec<char>| v@);
    proof {
        lemma_blank_from_bounds(lv, 1);
    }
    let mut headers = HttpHeaders::new();
    let n = ls.len();
    let mut i: usize = 1;
    assert(lv.subrange(1, 1) =~= Seq::<Seq<char>>::empty());
    while i < n && ls[i].len() > 0
        invariant
            n == ls@.len(),
            n == lv.len(),
            1 <= i <= n,
            lv == ls@.map_values(|v: Vec<char>| v@),
            blank_from(lv, 1) == blank_from(lv, i as int),
            headers.wf(),
            headers.map() == fields_map(fields_of_lines(lv.subrange(1, i as int))),
        decreases n - i,
    {
        let ghost prev = lv.subrange(1, i as int);
        assert(lv.subrange(1, i + 1).drop_last() == prev);
        assert(lv.subrange(1, i + 1).last() == ls@[i as int]@);
        let ghost cur = lv.subrange(1, i + 1);
        assert(cur.drop_last() == prev);
        match parse_field(ls[i].as_slice()) {
            Some(field) => {
                let name = string_of(field.0.as_slice());
                let value = string_of(field.1.as_slice());
                headers.insert(name.as_str(), value.as_str());
                proof {
                    let fo = fields_of_lines(prev);
                    assert(fields_of_lines(cur) == fo.push((field.0@, field.1@)));
                    assert(fo.push((field.0@, field.1@)).drop_last() == fo);
                }
            },
            None => {
                assert(fields_of_lines(cur) == fields_of_lines(prev));
            },
        }
        i = i + 1;
    }
    proof {
        if i < n {
            assert(ls@[i as int]@.len() == 0);
            assert(lv[i as int].len() == 0);
        }
        assert(blank_from(lv, i as int) == i);
    }
    headers
}

/// Reads a method, a path and a version from three tokens.
fn request_line(toks: &Vec<Vec<char>>) -> (r: (HttpMethod, HttpUri, HttpVersion))
    requires
        toks@.len() == 3,
    ensures
        r.0 == method_of(toks@[0]@),
        r.1.path@ == toks@[1]@,
        r.2 == version_of(toks@[2]@),
{
    let m = string_of(toks[0].as_slice());
    let p = string_of(toks[1].as_slice());
    let v = string_of(toks[2].as_slice());
    (method_from_str(m.as_str()), HttpUri::from(p), version_from_str(v.as_str()))
}

impl<R> HttpRequest<R> {
    /// Parses header text: a request line of exactly three tokens, then `name: value`
    /// lines up to the first empty line; lines without `:` are skipped.
    pub fn parse_headers(headers_str: &str) -> (r: Result<
        (HttpMethod, HttpUri, HttpVersion, HttpHeaders),
        ServerError,
    >)
        ensures
            r is Ok <==> head_is_valid(headers_str@),
            r matches Ok((m, u, v, h)) ==> {
                let toks = request_line_tokens(headers_str@);
                &&& m == method_of(toks[0])
                &&& u.path@ == toks[1]
                &&& v == version_of(toks[2])
                &&& h.wf()
                &&& h.map() == fields_map(head_fields(headers_str@))
            },
            r matches Err(e) ==> e is ProtocolError,
    {
        let chars = chars_of(headers_str);
        let lines = split_lines(chars.as_slice());
        if lines.len() == 0 {
            return Err(ServerError::ProtocolError("Empty request line".to_owned()));
        }
        let toks = split_tokens(lines[0].as_slice());
        if toks.len() != 3 {
            return Err(ServerError::ProtocolError("Invalid request line format".to_owned()));
        }
        let (method, uri, version) = request_line(&toks);
        let headers = parse_fields(&lines);
        Ok((method, uri, version, headers))
    }

    /// Builds a request from a buffer whose header block ends at `headers_end`, as read
    /// from a connection whose remaining bytes `source` yields. Bytes past the header block,
    /// or a `Content-Length` or `Transfer-Encoding` header, give a streaming body that
    /// hands out those bytes first; otherwise the body is empty.
    pub fn from_buffer(buffer: &[u8], headers_end: usize, source: R) -> (r: Result<
        HttpRequest<R>,
        ServerError,
    >)
        requires
            headers_end <= buffer@.len(),
        ensures
            ({
                let hb = buffer@.take(headers_end as int);
                let t = decode_utf8(hb);
                &&& r is Ok <==> (valid_utf8(hb) && head_is_valid(t))
                &&& r matches Err(e) ==> e is ProtocolError
                &&& r matches Ok(req) ==> {
                    let toks = request_line_tokens(t);
                    let pre = buffer@.skip(headers_end as int);
                    let fields = fields_map(head_fields(t));
                    &&& req.method == method_of(toks[0])
                    &&& req.uri.path@ == toks[1]
                    &&& req.version == version_of(toks[2])
                    &&& req.headers.wf()
                    &&& req.headers.map() == fields
                    &&& if pre.len() > 0 || fields.contains_key(content_length_name())
                        || fields.contains_key(transfer_encoding_name()) {
                        (req.body matches Some(HttpBody::Streaming { reader, read_buf, buffer_size })
                            && reader == source && read_buf@ == pre && buffer_size == 1024)
                    } else {
                        req.body matches Some(HttpBody::Empty)
                    }
                }
            }),
    {
        let head = vstd::slice::slice_subrange(buffer, 0, headers_end);
        assert(head@ == buffer@.take(headers_end as int));
        let text = match decode_text(head) {
            Some(t) => t,
            None => {
                return Err(ServerError::ProtocolError("Decode headers to UTF-8 error".to_owned()));
            },
        };
        let (method, uri, version, headers) = match Self::parse_headers(text.as_str()) {
            Ok(parts) => parts,
            Err(e) => {
                return Err(e);
            },
        };
        let pre_read = vstd::slice::slice_to_vec(
            vstd::slice::slice_subrange(buffer, headers_end, buffer.len()),
        );
        assert(pre_read@ == buffer@.skip(headers_end as int));
        proof {
            reveal_strlit("Content-Length");
            reveal_strlit("Transfer-Encoding");
            assert("Content-Length"@ =~= content_length_name());
            assert("Transfer-Encoding"@ =~= transfer_encoding_name());
        }
        let body = if pre_read.len() > 0 || headers.contains_key("Content-Length")
            || headers.contains_key("Transfer-Encoding") {
            HttpBody::from_pending(source, pre_read, 1024)
        } else {
            HttpBody::Empty
        };
        Ok(HttpRequest { method, headers, body: Some(body), uri, version })
    }
}

/// Joins lines, without line ends, from line `from` on.
fn join_lines(ls: &Vec<Vec<char>>, from: usize) -> (r: Vec<char>)
    requires
        from <= ls@.len(),
    ensures
        r@ == ls@.map_values(|v: Vec<char>| v@).subrange(from as int, ls@.len() as int).flatten(),
{
    let ghost lv = ls@.map_values(|v: Vec<char>| v@);
    let n = ls.len();
    let mut out: Vec<char> = Vec::new();
    let mut i: usize = from;
    while i < n
        invariant
            n == ls@.len(),
            n == lv.len(),
            from <= i <= n,
            lv == ls@.map_values(|v: Vec<char>| v@),
            out@ == lv.subrange(from as int, i as int).flatten(),
        decreases n - i,
    {
        let line = &ls[i];
        let m = line.len();
        let mut k: usize = 0;
        let ghost base = out@;
        while k < m
            invariant
                m == line@.len(),
                k <= m,
                out@ == base + line@.take(k as int),
            decreases m - k,
        {
            out.push(line[k]);
            k = k + 1;
            assert(out@ =~= base + line@.take(k as int));
        }
        proof {
            let s = lv.subrange(from as int, i + 1);
            assert(s == lv.subrange(from as int, i as int).push(lv[i as int]));
            vstd::seq_lib::lemma_flatten_concat(lv.subrange(from as int, i as int), seq![lv[i as int]]);
            assert(seq![lv[i as int]].flatten() == lv[i as int]) by {
                assert(seq![lv[i as int]].drop_first() =~= Seq::<Seq<char>>::empty());
                assert(seq![lv[i as int]].drop_first().flatten() =~= Seq::<char>::empty());
                assert(lv[i as int] + Seq::<char>::empty() =~= lv[i as int]);
            }
            assert(lv.subrange(from as int, i as int) + seq![lv[i as int]] =~= s);
            assert(line@.take(m as int) =~= line@);
        }
        i = i + 1;
    }
    out
}

impl<'a, R> From<&'a str> for HttpRequest<R> {
    /// Reads a whole request from text, leniently: a request line without exactly three
    /// tokens leaves the method unsupported, the path empty and the version 1.1; the lines
    /// after the blank line, joined, are the body.
    fn from(value: &'a str) -> (r: HttpRequest<R>)
        ensures
            ({
                let t = value@;
                let body = encode_utf8(trailing_text(t));
                &&& if head_is_valid(t) {
                    let toks = request_line_tokens(t);
                    &&& r.method == method_of(toks[0])
                    &&& r.uri.path@ == toks[1]
                    &&& r.version == version_of(toks[2])
                } else {
                    &&& r.method == HttpMethod::NoSupport
                    &&& r.uri.path@ == Seq::<char>::empty()
                    &&& r.version == HttpVersion::V1_1
                }
                &&& r.headers.wf()
                &&& r.headers.map() == fields_map(head_fields(t))
                &&& if body.len() == 0 {
                    r.body matches Some(HttpBody::Empty)
                } else {
                    (r.body matches Some(HttpBody::InMemory { data }) && data@ == body)
                }
            }),
    {
        let chars = chars_of(value);
        let lines = split_lines(chars.as_slice());
        let ghost lv = lines@.map_values(|v: Vec<char>| v@);
        if lines.len() == 0 {
            assert(fields_of_lines(header_lines(lv)) =~= Seq::empty());
            return HttpRequest {
                method: HttpMethod::NoSupport,
                headers: HttpHeaders::new(),
                body: Some(HttpBody::Empty),
                uri: HttpUri::new(),
                version: HttpVersion::V1_1,
            };
        }
        let toks = split_tokens(lines[0].as_slice());
        let (method, uri, version) = if toks.len() == 3 {
            request_line(&toks)
        } else {
            (HttpMethod::NoSupport, HttpUri::new(), HttpVersion::V1_1)
        };
        let headers = parse_fields(&lines);
        let n = lines.len();
        let mut b: usize = 1;
        proof {
            lemma_blank_from_bounds(lv, 1);
        }
        while b < n && lines[b].len() > 0
            invariant
                n == lines@.len(),
                n == lv.len(),
                1 <= b <= n,
                lv == lines@.map_values(|v: Vec<char>| v@),
                blank_from(lv, 1) == blank_from(lv, b as int),
            decreases n - b,
        {
            b = b + 1;
        }
        proof {
            if b < n {
                assert(lv[b as int].len() == 0);
            }
            assert(blank_from(lv, b as int) == b);
        }
        let text = if b < n - 1 {
            join_lines(&lines, b + 1)
        } else {
            Vec::new()
        };
        assert(text@ == trailing_text(value@));
        let s = string_of(text.as_slice());
        let data = vstd::slice::slice_to_vec(s.as_str().as_bytes());
        HttpRequest { method, headers, body: Some(HttpBody::from_data(data)), uri, version }
    }
}

impl<'a, R> vstd::std_specs::convert::FromSpecImpl<&'a str> for HttpRequest<R> {
    open spec fn obeys_from_spec() -> bool {
        false
    }

    open spec fn from_spec(v: &'a str) -> HttpRequest<R> {
        arbitrary()
    }
}

impl<R> From<String> for HttpRequest<R> {
    fn from(value: String) -> (r: HttpRequest<R>) {
        HttpRequest::from(value.as_str())
    }
}

impl<R> vstd::std_specs::convert::FromSpecImpl<String> for HttpRequest<R> {
    open spec fn obeys_from_spec() -> bool {
        false
    }

    open spec fn from_spec(v: String) -> HttpRequest<R> {
        arbitrary()
    }
}

} // verus!
