use vstd::prelude::*;
use vstd::utf8::encode_utf8;

use crate::body::{BodyRead, HttpBody};
use crate::headers::{HeaderSeq, HttpHeaders};
use crate::numfmt::{decimal, digits_of, hex_upper};
use crate::request::{content_length_name, transfer_encoding_name};
use crate::text::{chars_of, string_of};
use crate::version::{version_text, HttpVersion};

verus! {

/// `CR LF`.
pub open spec fn crlf() -> Seq<char> {
    seq!['\r', '\n']
}

/// `CR LF` as bytes.
pub open spec fn crlf_bytes() -> Seq<u8> {
    seq![13u8, 10u8]
}

/// One header line: `name: value` and a line end.
pub open spec fn field_line(name: Seq<char>, value: Seq<char>) -> Seq<char> {
    name + seq![':', ' '] + value + crlf()
}

/// The header lines of `s`, in order.
pub open spec fn fields_text(s: HeaderSeq) -> Seq<char>
    decreases s.len(),
{
    if s.len() == 0 {
        Seq::empty()
    } else {
        fields_text(s.drop_last()) + field_line(s.last().0, s.last().1)
    }
}

/// The status line: version, code and reason, then a line end.
pub open spec fn status_line(v: HttpVersion, code: u16, reason: Seq<char>) -> Seq<char> {
    version_text(v) + seq![' '] + decimal(code as nat) + seq![' '] + reason + crlf()
}

/// The bytes of a character sequence that is all ASCII.
pub open spec fn ascii_bytes(s: Seq<char>) -> Seq<u8> {
    s.map_values(|c: char| c as u8)
}

/// How chunked framing writes one non-empty chunk: its length in hex, a line end, the
/// chunk, a line end.
pub open spec fn chunk_frame(c: Seq<u8>) -> Seq<u8> {
    ascii_bytes(hex_upper(c.len())) + crlf_bytes() + c + crlf_bytes()
}

/// The zero-length chunk that ends chunked framing.
pub open spec fn last_chunk() -> Seq<u8> {
    seq![48u8, 13u8, 10u8, 13u8, 10u8]
}

/// A response: status, header fields, a body that is sent once, and whether the body
/// is framed in chunks.
#[derive(Debug)]
pub struct HttpResponse<R> {
    status_code: u16,
    status_text: String,
    headers: HttpHeaders,
    body: HttpBody<R>,
    version: HttpVersion,
    chunked_encoding: bool,
}

impl<R> HttpResponse<R> {
    /// The status code.
    pub closed spec fn status(&self) -> u16 {
        self.status_code
    }

    /// The status text.
    pub closed spec fn reason(&self) -> Seq<char> {
        self.status_text@
    }

    /// The header fields.
    pub closed spec fn fields(&self) -> HttpHeaders {
        self.headers
    }

    /// The body.
    pub closed spec fn content(&self) -> HttpBody<R> {
        self.body
    }

    /// The protocol version of the status line.
    pub closed spec fn protocol(&self) -> HttpVersion {
        self.version
    }

    /// Whether the body is sent in chunked framing.
    pub closed spec fn chunked(&self) -> bool {
        self.chunked_encoding
    }

    /// Same status, reason, version and framing.
    pub open spec fn same_line(&self, o: &Self) -> bool {
        &&& self.status() == o.status()
        &&& self.reason() == o.reason()
        &&& self.protocol() == o.protocol()
        &&& self.chunked() == o.chunked()
    }

    /// Well-formed: the header fields are.
    pub open spec fn wf(&self) -> bool {
        self.fields().wf()
    }

    /// The length announced in a `Content-Length` line that sending adds: only for a body
    /// of known length, not chunked, with no such header set.
    pub open spec fn added_length(&self) -> Option<nat> {
        match self.content() {
            HttpBody::InMemory { data } => if !self.chunked() && !self.fields().map().contains_key(
                content_length_name(),
            ) {
                Some(data@.len())
            } else {
                None
            },
            _ => None,
        }
    }

    /// The text of the header block that sending writes.
    pub open spec fn head_text(&self) -> Seq<char> {
        status_line(self.protocol(), self.status(), self.reason()) + match self.added_length() {
            Some(n) => field_line(content_length_name(), decimal(n)),
            None => Seq::empty(),
        } + fields_text(self.fields()@) + crlf()
    }

    /// How sending frames one chunk of the body.
    pub open spec fn frame_of(&self, c: Seq<u8>) -> Seq<u8> {
        if !self.chunked() {
            c
        } else if c.len() == 0 {
            Seq::empty()
        } else {
            chunk_frame(c)
        }
    }

    /// What sending writes after the last chunk.
    pub open spec fn trailer(&self) -> Seq<u8> {
        if self.chunked() {
            last_chunk()
        } else {
            Seq::empty()
        }
    }

    /// A response with this status, no header fields, an empty body, version 1.1.
    pub fn new(status_code: u16, status_text: &str) -> (r: HttpResponse<R>)
        ensures
            r.wf(),
            r.status() == status_code,
            r.reason() == status_text@,
            r.fields()@ == HeaderSeq::empty(),
            r.content() is Empty,
            r.protocol() == HttpVersion::V1_1,
            !r.chunked(),
    {
        HttpResponse {
            status_code,
            status_text: status_text.to_owned(),
            headers: HttpHeaders::new(),
            body: HttpBody::new(),
            version: HttpVersion::V1_1,
            chunked_encoding: false,
        }
    }

    pub fn with_body(self, body: HttpBody<R>) -> (r: HttpResponse<R>)
        ensures
            r.same_line(&self),
            r.fields() == self.fields(),
            r.content() == body,
    {
        let mut s = self;
        s.body = body;
        s
    }

    pub fn add_body(&mut self, body: HttpBody<R>) -> (r: &mut HttpResponse<R>)
        ensures
            r.same_line(old(self)),
            r.fields() == old(self).fields(),
            r.content() == body,
            *final(self) == *final(r),
    {
        self.body = body;
        self
    }

    /// The header fields.
    pub fn handlers(&self) -> (r: &HttpHeaders)
        ensures
            *r == self.fields(),
    {
        &self.headers
    }

    pub fn headers_mut(&mut self) -> (r: &mut HttpHeaders)
        ensures
            *r == old(self).fields(),
            final(self).same_line(old(self)),
            final(self).fields() == *final(r),
            final(self).content() == old(self).content(),
    {
        &mut self.headers
    }

    pub fn body(&self) -> (r: &HttpBody<R>)
        ensures
            *r == self.content(),
    {
        &self.body
    }

    pub fn body_mut(&mut self) -> (r: &mut HttpBody<R>)
        ensures
            *r == old(self).content(),
            final(self).same_line(old(self)),
            final(self).fields() == old(self).fields(),
            final(self).content() == *final(r),
    {
        &mut self.body
    }

    /// Sets header `k` to `v`.
    pub fn insert_header(self, k: &str, v: &str) -> (r: HttpResponse<R>)
        requires
            self.wf(),
        ensures
            r.wf(),
            r.fields().map() == self.fields().map().insert(k@, v@),
            r.same_line(&self),
            r.content() == self.content(),
    {
        let mut s = self;
        s.headers.insert(k, v);
        s
    }

    /// A body pulled from `reader`, sent in chunked framing under a
    /// `Transfer-Encoding: chunked` header.
    pub fn with_streaming_body(self, reader: R, buffer_size: usize) -> (r: HttpResponse<R>)
        requires
            self.wf(),
        ensures
            r.wf(),
            r.chunked(),
            r.content() matches HttpBody::Streaming { reader: s, read_buf, buffer_size: n } && s
                == reader && read_buf@.len() == 0 && n == buffer_size,
            r.fields().map() == self.fields().map().insert(
                transfer_encoding_name(),
                seq!['c', 'h', 'u', 'n', 'k', 'e', 'd'],
            ),
            r.status() == self.status(),
            r.reason() == self.reason(),
            r.protocol() == self.protocol(),
    {
        let mut s = self;
        s.body = HttpBody::from_reader(reader, buffer_size);
        s.chunked_encoding = true;
        proof {
            reveal_strlit("Transfer-Encoding");
            reveal_strlit("chunked");
            assert("Transfer-Encoding"@ =~= transfer_encoding_name());
            assert("chunked"@ =~= seq!['c', 'h', 'u', 'n', 'k', 'e', 'd']);
        }
        s.headers.insert("Transfer-Encoding", "chunked");
        s
    }
}

/// Appends the characters of `s`.
fn push_str(out: &mut Vec<char>, s: &str)
    ensures
        final(out)@ == old(out)@ + s@,
{
    let c = chars_of(s);
    push_chars(out, c.as_slice());
}

/// Appends `s`.
fn push_chars(out: &mut Vec<char>, s: &[char])
    ensures
        final(out)@ == old(out)@ + s@,
{
    let ghost base = out@;
    let n = s.len();
    let mut i: usize = 0;
    while i < n
        invariant
            n == s@.len(),
            i <= n,
            out@ == base + s@.take(i as int),
        decreases n - i,
    {
        out.push(s[i]);
        i = i + 1;
        assert(out@ =~= base + s@.take(i as int));
    }
    assert(s@.take(n as int) =~= s@);
}

/// Appends `name: value` and a line end.
fn push_field(out: &mut Vec<char>, name: &str, value: &str)
    ensures
        final(out)@ == old(out)@ + field_line(name@, value@),
{
    proof {
        reveal_strlit(": ");
        reveal_strlit("\r\n");
        assert(": "@ =~= seq![':', ' ']);
        assert("\r\n"@ =~= crlf());
    }
    push_str(out, name);
    push_str(out, ": ");
    push_str(out, value);
    push_str(out, "\r\n");
    assert(final(out)@ =~= old(out)@ + field_line(name@, value@));
}

/// Appends bytes.
fn push_bytes(out: &mut Vec<u8>, s: &[u8])
    ensures
        final(out)@ == old(out)@ + s@,
{
    let ghost base = out@;
    let n = s.len();
    let mut i: usize = 0;
    while i < n
        invariant
            n == s@.len(),
            i <= n,
            out@ == base + s@.take(i as int),
        decreases n - i,
    {
        out.push(s[i]);
        i = i + 1;
        assert(out@ =~= base + s@.take(i as int));
    }
    assert(s@.take(n as int) =~= s@);
}

impl<R> HttpResponse<R> {
    /// The header block: status line, a `Content-Length` line where the length is known
    /// and not set, each header field, and the blank line.
    pub fn head_bytes(&self) -> (r: Vec<u8>)
        requires
            self.wf(),
        ensures
            r@ == encode_utf8(self.head_text()),
    {
        let mut out: Vec<char> = Vec::new();
        let v = self.version.as_string();
        push_str(&mut out, v.as_str());
        out.push(' ');
        let code = digits_of(self.status_code as usize, 10);
        push_chars(&mut out, code.as_slice());
        out.push(' ');
        push_str(&mut out, self.status_text.as_str());
        proof {
            reveal_strlit("\r\n");
            assert("\r\n"@ =~= crlf());
        }
        push_str(&mut out, "\r\n");
        assert(out@ =~= status_line(self.version, self.status_code, self.status_text@));
        let ghost before = out@;
        proof {
            reveal_strlit("Content-Length");
            assert("Content-Length"@ =~= content_length_name());
        }
        let mut added = false;
        if !self.chunked_encoding {
            match self.body.content_length() {
                Some(length) => {
                    if !self.headers.contains_key("Content-Length") {
                        let d = digits_of(length, 10);
                        let s = string_of(d.as_slice());
                        push_field(&mut out, "Content-Length", s.as_str());
                        added = true;
                        assert(self.added_length() == Some(length as nat));
                    }
                },
                None => {},
            }
        }
        proof {
            if !added {
                assert(self.added_length() is None);
                assert(out@ =~= before + Seq::<char>::empty());
            }
        }
        assert(out@ =~= before + match self.added_length() {
            Some(n) => field_line(content_length_name(), decimal(n)),
            None => Seq::empty(),
        });
        let ghost mid = out@;
        let fields = self.headers.iter();
        let ghost fv = self.headers@;
        let n = fields.len();
        let mut i: usize = 0;
        while i < n
            invariant
                n == fields@.len(),
                n == fv.len(),
                i <= n,
                fields@.map_values(|e: (String, String)| crate::headers::field_view(e)) == fv,
                out@ == mid + fields_text(fv.take(i as int)),
            decreases n - i,
        {
            let (k, val) = &fields[i];
            assert(fv[i as int] == (k@, val@));
            push_field(&mut out, k.as_str(), val.as_str());
            assert(fv.take(i + 1).drop_last() == fv.take(i as int));
            i = i + 1;
        }
        assert(fv.take(n as int) == fv);
        push_str(&mut out, "\r\n");
        assert(out@ =~= self.head_text());
        let text = string_of(out.as_slice());
        vstd::slice::slice_to_vec(text.as_str().as_bytes())
    }

    /// How one chunk of the body goes on the wire: as it is, or framed with its length
    /// when chunked; an empty chunk is dropped from chunked framing.
    pub fn frame(&self, chunk: &[u8]) -> (r: Vec<u8>)
        ensures
            r@ == self.frame_of(chunk@),
    {
        let mut out: Vec<u8> = Vec::new();
        if !self.chunked_encoding {
            push_bytes(&mut out, chunk);
            assert(out@ =~= chunk@);
        } else if chunk.len() > 0 {
            let d = digits_of(chunk.len(), 16);
            let m = d.len();
            let mut i: usize = 0;
            while i < m
                invariant
                    m == d@.len(),
                    i <= m,
                    out@ == ascii_bytes(d@.take(i as int)),
                decreases m - i,
            {
                out.push(d[i] as u8);
                i = i + 1;
                assert(out@ =~= ascii_bytes(d@.take(i as int)));
            }
            assert(d@.take(m as int) =~= d@);
            out.push(13u8);
            out.push(10u8);
            push_bytes(&mut out, chunk);
            out.push(13u8);
            out.push(10u8);
            assert(out@ =~= chunk_frame(chunk@));
        } else {
            assert(out@ =~= Seq::<u8>::empty());
        }
        out
    }

    /// What follows the last chunk: the zero-length chunk when chunked, else nothing.
    pub fn finish(&self) -> (r: Vec<u8>)
        ensures
            r@ == self.trailer(),
    {
        let mut out: Vec<u8> = Vec::new();
        if self.chunked_encoding {
            out.push(48u8);
            out.push(13u8);
            out.push(10u8);
            out.push(13u8);
            out.push(10u8);
            assert(out@ =~= last_chunk());
        } else {
            assert(out@ =~= Seq::<u8>::empty());
        }
        out
    }

    /// The body bytes that sending writes for a body that is not streamed.
    pub open spec fn body_wire(&self) -> Seq<u8> {
        match self.content() {
            HttpBody::InMemory { data } => if data@.len() > 0 {
                self.frame_of(data@)
            } else {
                Seq::empty()
            },
            _ => Seq::empty(),
        }
    }

    /// Everything sending writes for a body that is not streamed.
    pub open spec fn wire(&self) -> Seq<u8> {
        encode_utf8(self.head_text()) + self.body_wire() + self.trailer()
    }

    /// Serializes a response whose body is in memory or empty: the header block, the body
    /// and, when chunked, the closing chunk. The body is used up.
    pub fn to_bytes(&mut self) -> (r: Vec<u8>)
        requires
            old(self).wf(),
            !(old(self).content() is Streaming),
        ensures
            r@ == old(self).wire(),
            final(self).wf(),
            final(self).same_line(old(self)),
            final(self).fields() == old(self).fields(),
            !(final(self).content() is Streaming),
    {
        let mut out = self.head_bytes();
        match self.body.read_next() {
            BodyRead::Chunk(c) => {
                let f = self.frame(c.as_slice());
                push_bytes(&mut out, f.as_slice());
            },
            _ => {
                assert(old(self).body_wire() =~= Seq::<u8>::empty());
            },
        }
        let t = self.finish();
        push_bytes(&mut out, t.as_slice());
        out
    }
}

} // verus!
