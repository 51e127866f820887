use vstd::prelude::*;

use vstd::utf8::{decode_utf8, valid_utf8};

use crate::body::HttpBody;
use crate::error::ServerError;
use crate::headers::{fields_map, HeaderSeq, HttpHeaders};
use crate::method::method_of;
use crate::request::{head_fields, head_is_valid, request_line_tokens, HttpRequest};
use crate::response::HttpResponse;
use crate::utils::{find_headers_end, is_terminator_at, no_terminator_before};
use crate::version::{version_of, HttpVersion};

verus! {

/// `c` with `A`-`Z` lowered; every other character unchanged.
pub open spec fn ascii_lower(c: char) -> char {
    if 65 <= c as u32 <= 90 {
        ((c as u32 + 32) as u8) as char
    } else {
        c
    }
}

/// `a` and `b` are equal but for the case of ASCII letters.
pub open spec fn eq_ignore_case(a: Seq<char>, b: Seq<char>) -> bool {
    &&& a.len() == b.len()
    &&& forall|i: int| 0 <= i < a.len() ==> ascii_lower(#[trigger] a[i]) == ascii_lower(b[i])
}

fn lower(c: char) -> (r: char)
    ensures
        r == ascii_lower(c),
{
    let u = c as u32;
    if 65 <= u && u <= 90 {
        ((u + 32) as u8) as char
    } else {
        c
    }
}

/// Whether `a` equals `b` but for the case of ASCII letters.
pub fn eq_ignore_ascii_case(a: &str, b: &str) -> (r: bool)
    ensures
        r == eq_ignore_case(a@, b@),
{
    let n = a.unicode_len();
    if n != b.unicode_len() {
        return false;
    }
    let mut i: usize = 0;
    while i < n
        invariant
            n == a@.len(),
            n == b@.len(),
            i <= n,
            forall|j: int| 0 <= j < i ==> ascii_lower(#[trigger] a@[j]) == ascii_lower(b@[j]),
        decreases n - i,
    {
        if lower(a.get_char(i)) != lower(b.get_char(i)) {
            return false;
        }
        i = i + 1;
    }
    true
}

/// The header name `Connection`.
pub open spec fn connection_name() -> Seq<char> {
    seq!['C', 'o', 'n', 'n', 'e', 'c', 't', 'i', 'o', 'n']
}

/// The `Connection` value `close`.
pub open spec fn close_token() -> Seq<char> {
    seq!['c', 'l', 'o', 's', 'e']
}

/// The `Connection` value `keep-alive`.
pub open spec fn keep_alive_token() -> Seq<char> {
    seq!['k', 'e', 'e', 'p', '-', 'a', 'l', 'i', 'v', 'e']
}

/// Whether the connection stays open after answering a request of this version with these
/// headers: HTTP/1.1 stays open unless `Connection: close`; any other version closes unless
/// `Connection: keep-alive` (either value in any ASCII case). A server that disables
/// keep-alive always closes.
pub open spec fn keep_alive_decision(
    version: HttpVersion,
    fields: Map<Seq<char>, Seq<char>>,
    server_keep_alive: bool,
) -> bool {
    let has = fields.contains_key(connection_name());
    let value = fields[connection_name()];
    &&& server_keep_alive
    &&& if version == HttpVersion::V1_1 {
        !(has && eq_ignore_case(value, close_token()))
    } else {
        has && eq_ignore_case(value, keep_alive_token())
    }
}

/// Decides whether the connection stays open after this request, as
/// `keep_alive_decision` says.
pub fn keep_alive_requested(version: &HttpVersion, headers: &HttpHeaders, server_keep_alive: bool) -> (r: bool)
    requires
        headers.wf(),
    ensures
        r == keep_alive_decision(*version, headers.map(), server_keep_alive),
{
    proof {
        reveal_strlit("Connection");
        reveal_strlit("close");
        reveal_strlit("keep-alive");
        assert("Connection"@ =~= connection_name());
        assert("close"@ =~= close_token());
        assert("keep-alive"@ =~= keep_alive_token());
    }
    if !server_keep_alive {
        return false;
    }
    let value = headers.get("Connection");
    match version {
        HttpVersion::V1_1 => match value {
            Some(v) => !eq_ignore_ascii_case(v.as_str(), "close"),
            None => true,
        },
        _ => match value {
            Some(v) => eq_ignore_ascii_case(v.as_str(), "keep-alive"),
            None => false,
        },
    }
}

/// Sets the `Connection` header of a response to the decided outcome: `keep-alive` or
/// `close`.
pub fn mark_connection<R>(response: &mut HttpResponse<R>, keep_alive: bool)
    requires
        old(response).wf(),
    ensures
        final(response).wf(),
        final(response).same_line(old(response)),
        final(response).content() == old(response).content(),
        final(response).fields().map() == old(response).fields().map().insert(
            connection_name(),
            if keep_alive {
                keep_alive_token()
            } else {
                close_token()
            },
        ),
{
    proof {
        reveal_strlit("Connection");
        reveal_strlit("close");
        reveal_strlit("keep-alive");
        assert("Connection"@ =~= connection_name());
        assert("close"@ =~= close_token());
        assert("keep-alive"@ =~= keep_alive_token());
    }
    let headers = response.headers_mut();
    if keep_alive {
        headers.insert("Connection", "keep-alive");
    } else {
        headers.insert("Connection", "close");
    }
}

/// The answer when no route matches: `404 Not Found` with a plain-text body.
pub fn not_found<R>() -> (r: HttpResponse<R>)
    ensures
        r.wf(),
        r.status() == 404,
        r.reason() == seq!['N', 'o', 't', ' ', 'F', 'o', 'u', 'n', 'd'],
        r.fields().map() == Map::<Seq<char>, Seq<char>>::empty().insert(
            seq!['C', 'o', 'n', 't', 'e', 'n', 't', '-', 'T', 'y', 'p', 'e'],
            seq!['t', 'e', 'x', 't', '/', 'p', 'l', 'a', 'i', 'n'],
        ),
        r.content() matches HttpBody::InMemory { data } && data@ == seq![78u8, 111, 116, 32, 70, 111, 117, 110, 100],
        r.protocol() == HttpVersion::V1_1,
        !r.chunked(),
{
    proof {
        reveal_strlit("Not Found");
        reveal_strlit("Content-Type");
        reveal_strlit("text/plain");
        assert("Not Found"@ =~= seq!['N', 'o', 't', ' ', 'F', 'o', 'u', 'n', 'd']);
        assert("Content-Type"@ =~= seq!['C', 'o', 'n', 't', 'e', 'n', 't', '-', 'T', 'y', 'p', 'e']);
        assert("text/plain"@ =~= seq!['t', 'e', 'x', 't', '/', 'p', 'l', 'a', 'i', 'n']);
    }
    let mut data: Vec<u8> = Vec::new();
    data.push(78u8);
    data.push(111u8);
    data.push(116u8);
    data.push(32u8);
    data.push(70u8);
    data.push(111u8);
    data.push(117u8);
    data.push(110u8);
    data.push(100u8);
    let r = HttpResponse::new(404, "Not Found");
    let r = r.insert_header("Content-Type", "text/plain");
    proof {
        assert(crate::headers::fields_map(HeaderSeq::empty()) == Map::<Seq<char>, Seq<char>>::empty());
    }
    let r = r.with_body(HttpBody::InMemory { data });
    assert(data@ =~= seq![78u8, 111, 116, 32, 70, 111, 117, 110, 100]);
    r
}

/// What one read of a request's header block leads to.
#[derive(Debug)]
pub enum HeaderProgress {
    /// No terminator yet: read up to this many more bytes.
    More(usize),
    /// The header block ends at this offset of the buffer.
    Complete(usize),
    /// The peer closed the connection: a read gave no bytes.
    Closed,
    /// The header block does not fit in the buffer.
    Failed(ServerError),
}

/// Gathers the bytes of a header block, up to a fixed size, until its `\r\n\r\n`.
pub struct HeaderReader {
    buffer: Vec<u8>,
    limit: usize,
}

impl HeaderReader {
    /// The bytes read so far.
    pub closed spec fn bytes(&self) -> Seq<u8> {
        self.buffer@
    }

    /// The most bytes a header block may take.
    pub closed spec fn capacity(&self) -> nat {
        self.limit as nat
    }

    /// Room is left, and no terminator has been read yet.
    pub open spec fn wf(&self) -> bool {
        &&& self.bytes().len() < self.capacity()
        &&& forall|i: int| !#[trigger] is_terminator_at(self.bytes(), i)
    }

    /// A reader for a header block of at most `limit` bytes.
    pub fn new(limit: usize) -> (r: HeaderReader)
        requires
            limit > 0,
        ensures
            r.wf(),
            r.bytes() == Seq::<u8>::empty(),
            r.capacity() == limit,
    {
        HeaderReader { buffer: Vec::new(), limit }
    }

    /// How many more bytes may be read.
    pub fn remaining(&self) -> (r: usize)
        requires
            self.wf(),
        ensures
            r == self.capacity() - self.bytes().len(),
            r > 0,
    {
        self.limit - self.buffer.len()
    }

    /// The bytes read so far.
    pub fn buffer(&self) -> (r: &[u8])
        ensures
            r@ == self.bytes(),
    {
        self.buffer.as_slice()
    }

    /// Takes the bytes of one read. No bytes means the peer closed. Otherwise they are
    /// appended; the header block is complete once the buffer holds `\r\n\r\n`, and too
    /// big once the buffer is full without it.
    pub fn on_data(&mut self, data: &[u8]) -> (r: HeaderProgress)
        requires
            old(self).wf(),
            data@.len() <= old(self).capacity() - old(self).bytes().len(),
        ensures
            final(self).capacity() == old(self).capacity(),
            data@.len() == 0 ==> r is Closed && final(self).bytes() == old(self).bytes(),
            data@.len() > 0 ==> final(self).bytes() == old(self).bytes() + data@,
            data@.len() > 0 ==> match r {
                HeaderProgress::Complete(end) => {
                    &&& end >= 4
                    &&& is_terminator_at(final(self).bytes(), end - 4)
                    &&& no_terminator_before(final(self).bytes(), end - 4)
                },
                HeaderProgress::Failed(e) => {
                    &&& e is ProtocolError
                    &&& final(self).bytes().len() >= final(self).capacity()
                    &&& forall|i: int| !#[trigger] is_terminator_at(final(self).bytes(), i)
                },
                HeaderProgress::More(n) => {
                    &&& final(self).wf()
                    &&& n == final(self).capacity() - final(self).bytes().len()
                },
                HeaderProgress::Closed => false,
            },
            r matches HeaderProgress::Complete(_) ==> data@.len() > 0,
            r matches HeaderProgress::Failed(_) ==> data@.len() > 0,
            r matches HeaderProgress::More(_) ==> data@.len() > 0,
    {
        if data.len() == 0 {
            return HeaderProgress::Closed;
        }
        let ghost before = self.buffer@;
        let n = data.len();
        let mut i: usize = 0;
        while i < n
            invariant
                n == data@.len(),
                i <= n,
                self.buffer@ == before + data@.take(i as int),
                self.limit == old(self).limit,
            decreases n - i,
        {
            self.buffer.push(data[i]);
            i = i + 1;
            assert(self.buffer@ =~= before + data@.take(i as int));
        }
        assert(data@.take(n as int) =~= data@);
        match find_headers_end(self.buffer.as_slice()) {
            Some(end) => HeaderProgress::Complete(end),
            None => {
                if self.buffer.len() >= self.limit {
                    HeaderProgress::Failed(
                        ServerError::ProtocolError("request header was too big".to_owned()),
                    )
                } else {
                    HeaderProgress::More(self.limit - self.buffer.len())
                }
            },
        }
    }
}

} // verus!

verus! {

/// Where a connection stands between requests.
#[derive(Debug, PartialEq, Eq, Structural)]
pub enum Phase {
    /// Gathering the header block of the next request.
    ReadingHeaders,
    /// The header block is complete; the request is to be taken.
    HeadersRead,
    /// The request has been taken; its response is to be written.
    Writing,
    /// The connection is over.
    Closed,
}

/// What a read event asks of the connection's owner.
#[derive(Debug)]
pub enum Next {
    /// Read up to this many bytes from the peer.
    Read(usize),
    /// The header block is complete: take the request.
    Ready,
    /// Close the connection, reporting this outcome.
    Close(Result<(), ServerError>),
}

/// The outcome of one bounded read of the peer.
#[derive(Debug)]
pub enum ReadEvent {
    /// These bytes arrived; none means the peer closed.
    Data(Vec<u8>),
    /// The read failed.
    Failed(std::io::Error),
    /// No bytes arrived within the configured time.
    TimedOut,
}

/// The decisions of one connection: read until a header block is complete, hand out the
/// request, mark the response with the keep-alive outcome, then read the next request or
/// close. Any failure closes the connection.
pub struct Session {
    buffer_size: usize,
    server_keep_alive: bool,
    headers: HeaderReader,
    end: usize,
    phase: Phase,
    keep_alive: bool,
}

impl Session {
    /// The phase.
    pub closed spec fn phase_of(&self) -> Phase {
        self.phase
    }

    /// The most bytes a header block may take.
    pub closed spec fn limit(&self) -> nat {
        self.buffer_size as nat
    }

    /// Whether keep-alive is allowed at all.
    pub closed spec fn allows_keep_alive(&self) -> bool {
        self.server_keep_alive
    }

    /// The header bytes gathered for the current request.
    pub closed spec fn gathered(&self) -> Seq<u8> {
        self.headers.bytes()
    }

    /// Whether the connection stays open after the current response.
    pub closed spec fn keeps_alive(&self) -> bool {
        self.keep_alive
    }

    /// Where the header block ends, once it is complete.
    pub closed spec fn headers_end(&self) -> nat {
        self.end as nat
    }

    /// Well-formed: a positive limit; while reading, room is left and no terminator has
    /// been read; once read, the header block's end is that of its first terminator.
    pub closed spec fn wf(&self) -> bool {
        &&& self.buffer_size > 0
        &&& self.headers.capacity() == self.buffer_size
        &&& self.phase == Phase::ReadingHeaders ==> self.headers.wf()
        &&& self.phase == Phase::HeadersRead ==> {
            &&& self.end >= 4
            &&& self.end <= self.headers.bytes().len()
            &&& is_terminator_at(self.headers.bytes(), self.end - 4)
            &&& no_terminator_before(self.headers.bytes(), self.end - 4)
        }
    }

    /// A connection about to read its first request, with header blocks of at most
    /// `buffer_size` bytes.
    pub fn new(buffer_size: usize, keep_alive: bool) -> (r: Session)
        requires
            buffer_size > 0,
        ensures
            r.wf(),
            r.phase_of() == Phase::ReadingHeaders,
            r.gathered() == Seq::<u8>::empty(),
            r.limit() == buffer_size,
            r.allows_keep_alive() == keep_alive,
    {
        Session {
            buffer_size,
            server_keep_alive: keep_alive,
            headers: HeaderReader::new(buffer_size),
            end: 0,
            phase: Phase::ReadingHeaders,
            keep_alive: false,
        }
    }

    /// How many bytes the next read may take.
    pub fn want(&self) -> (r: usize)
        requires
            self.wf(),
            self.phase_of() == Phase::ReadingHeaders,
        ensures
            r == self.limit() - self.gathered().len(),
            r > 0,
    {
        self.headers.remaining()
    }

    /// Takes the outcome of one read while gathering a header block. No bytes: the peer
    /// closed, a clean end. A failed read or a timeout ends the connection with that error.
    /// Bytes complete the header block once it holds `\r\n\r\n`; a full buffer without it is
    /// a protocol error.
    pub fn on_read(&mut self, ev: ReadEvent) -> (r: Next)
        requires
            old(self).wf(),
            old(self).phase_of() == Phase::ReadingHeaders,
            ev matches ReadEvent::Data(d) ==> d@.len() <= old(self).limit() - old(self).gathered().len(),
        ensures
            final(self).wf(),
            final(self).limit() == old(self).limit(),
            final(self).allows_keep_alive() == old(self).allows_keep_alive(),
            match ev {
                ReadEvent::Data(d) => if d@.len() == 0 {
                    r matches Next::Close(Ok(_)) && final(self).phase_of() == Phase::Closed
                } else {
                    let b = old(self).gathered() + d@;
                    &&& final(self).gathered() == b
                    &&& if exists|i: int| #[trigger] is_terminator_at(b, i) {
                        &&& r is Ready
                        &&& final(self).phase_of() == Phase::HeadersRead
                    } else if b.len() >= old(self).limit() {
                        &&& r matches Next::Close(Err(e)) && e is ProtocolError
                        &&& final(self).phase_of() == Phase::Closed
                    } else {
                        &&& r == Next::Read((old(self).limit() - b.len()) as usize)
                        &&& final(self).phase_of() == Phase::ReadingHeaders
                    }
                },
                ReadEvent::Failed(_) => r matches Next::Close(Err(e)) && e is IOError
                    && final(self).phase_of() == Phase::Closed,
                ReadEvent::TimedOut => r matches Next::Close(Err(e)) && e is TimeoutError
                    && final(self).phase_of() == Phase::Closed,
            },
    {
        match ev {
            ReadEvent::Data(d) => {
                match self.headers.on_data(d.as_slice()) {
                    HeaderProgress::More(n) => Next::Read(n),
                    HeaderProgress::Complete(end) => {
                        self.end = end;
                        self.phase = Phase::HeadersRead;
                        Next::Ready
                    },
                    HeaderProgress::Closed => {
                        self.phase = Phase::Closed;
                        Next::Close(Ok(()))
                    },
                    HeaderProgress::Failed(e) => {
                        self.phase = Phase::Closed;
                        Next::Close(Err(e))
                    },
                }
            },
            ReadEvent::Failed(e) => {
                self.phase = Phase::Closed;
                Next::Close(Err(ServerError::IOError(e)))
            },
            ReadEvent::TimedOut => {
                self.phase = Phase::Closed;
                Next::Close(Err(ServerError::TimeoutError("request timeout".to_owned())))
            },
        }
    }

    /// Parses the complete header block into a request whose body reads on from `source`,
    /// and decides whether the connection stays open after answering it. A block that does
    /// not parse closes the connection.
    pub fn take_request<R>(&mut self, source: R) -> (r: Result<HttpRequest<R>, ServerError>)
        requires
            old(self).wf(),
            old(self).phase_of() == Phase::HeadersRead,
        ensures
            final(self).wf(),
            final(self).limit() == old(self).limit(),
            final(self).allows_keep_alive() == old(self).allows_keep_alive(),
            ({
                let hb = old(self).gathered().take(old(self).headers_end() as int);
                let t = decode_utf8(hb);
                &&& r is Ok <==> (valid_utf8(hb) && head_is_valid(t))
                &&& r matches Err(e) ==> e is ProtocolError && final(self).phase_of() == Phase::Closed
                &&& r matches Ok(req) ==> {
                    let toks = request_line_tokens(t);
                    &&& req.method == method_of(toks[0])
                    &&& req.uri.path@ == toks[1]
                    &&& req.version == version_of(toks[2])
                    &&& req.headers.wf()
                    &&& req.headers.map() == fields_map(head_fields(t))
                    &&& final(self).phase_of() == Phase::Writing
                    &&& final(self).keeps_alive() == keep_alive_decision(
                        req.version,
                        req.headers.map(),
                        old(self).allows_keep_alive(),
                    )
                }
            }),
    {
        match HttpRequest::from_buffer(self.headers.buffer(), self.end, source) {
            Ok(req) => {
                self.keep_alive = keep_alive_requested(&req.version, &req.headers, self.server_keep_alive);
                self.phase = Phase::Writing;
                Ok(req)
            },
            Err(e) => {
                self.phase = Phase::Closed;
                Err(e)
            },
        }
    }

    /// Marks a response with the decided outcome in its `Connection` header.
    pub fn respond<R>(&self, response: &mut HttpResponse<R>)
        requires
            self.phase_of() == Phase::Writing,
            old(response).wf(),
        ensures
            final(response).wf(),
            final(response).same_line(old(response)),
            final(response).content() == old(response).content(),
            final(response).fields().map() == old(response).fields().map().insert(
                connection_name(),
                if self.keeps_alive() {
                    keep_alive_token()
                } else {
                    close_token()
                },
            ),
    {
        mark_connection(response, self.keep_alive);
    }

    /// Takes the outcome of writing the response: a failed write closes with that error;
    /// otherwise a kept-alive connection reads the next request into a fresh buffer, and any
    /// other closes cleanly.
    pub fn on_written(&mut self, result: Result<(), std::io::Error>) -> (r: Next)
        requires
            old(self).wf(),
            old(self).phase_of() == Phase::Writing,
        ensures
            final(self).wf(),
            final(self).limit() == old(self).limit(),
            final(self).allows_keep_alive() == old(self).allows_keep_alive(),
            match result {
                Err(_) => r matches Next::Close(Err(e)) && e is IOError && final(self).phase_of()
                    == Phase::Closed,
                Ok(_) => if old(self).keeps_alive() {
                    &&& r == Next::Read(old(self).limit() as usize)
                    &&& final(self).phase_of() == Phase::ReadingHeaders
                    &&& final(self).gathered() == Seq::<u8>::empty()
                } else {
                    r matches Next::Close(Ok(_)) && final(self).phase_of() == Phase::Closed
                },
            },
    {
        match result {
            Err(e) => {
                self.phase = Phase::Closed;
                Next::Close(Err(ServerError::IOError(e)))
            },
            Ok(()) => {
                if self.keep_alive {
                    self.headers = HeaderReader::new(self.buffer_size);
                    self.phase = Phase::ReadingHeaders;
                    Next::Read(self.buffer_size)
                } else {
                    self.phase = Phase::Closed;
                    Next::Close(Ok(()))
                }
            },
        }
    }
}

} // verus!
