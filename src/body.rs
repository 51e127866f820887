use vstd::prelude::*;
use vstd::string::StringSliceAdditionalSpecFns;

verus! {

/// A message body: bytes held in memory, bytes pulled from a source `R`, or nothing.
///
/// Reading is single-pass. A streaming body does not touch its source itself: `read_next`
/// asks its owner to read up to `buffer_size` bytes from `reader` and hand them to `accept`.
#[derive(Debug)]
pub enum HttpBody<R> {
    /// The complete data, handed out as one chunk.
    InMemory { data: Vec<u8> },
    /// Data pulled from `reader`; `read_buf` holds bytes already read but not yet handed out.
    Streaming { reader: R, read_buf: Vec<u8>, buffer_size: usize },
    /// No data.
    Empty,
}

/// What one pull on a body gives.
#[derive(Debug, PartialEq, Eq)]
pub enum BodyRead {
    /// The next chunk of data.
    Chunk(Vec<u8>),
    /// Read up to this many bytes from the body's source and pass them to `accept`.
    Fill(usize),
    /// No more data.
    End,
}

/// One pull on a body: an in-memory body hands out all its data once, then the end; a
/// streaming body hands out its pending bytes, else asks for a read of its source; an empty
/// body is at its end.
pub open spec fn read_step<R>(before: HttpBody<R>, after: HttpBody<R>, r: BodyRead) -> bool {
    match before {
        HttpBody::InMemory { data } => if data@.len() == 0 {
            r is End && after == before
        } else {
            &&& r matches BodyRead::Chunk(c) && c@ == data@
            &&& after matches HttpBody::InMemory { data: d } && d@.len() == 0
        },
        HttpBody::Streaming { reader, read_buf, buffer_size } => if read_buf@.len() == 0 {
            r == BodyRead::Fill(buffer_size) && after == before
        } else {
            &&& r matches BodyRead::Chunk(c) && c@ == read_buf@
            &&& after matches HttpBody::Streaming {
                reader: s,
                read_buf: b,
                buffer_size: n,
            } && s == reader && b@.len() == 0 && n == buffer_size
        },
        HttpBody::Empty => r is End && after == before,
    }
}

/// What a streaming body hands out for one read of its source: nothing once the source
/// gives no bytes, else the bytes read.
pub open spec fn read_result(data: Seq<u8>) -> Option<Seq<u8>> {
    if data.len() == 0 {
        None
    } else {
        Some(data)
    }
}

/// The reads a source holding `src` gives when each asks for up to `size` bytes.
pub open spec fn source_reads(src: Seq<u8>, size: nat) -> Seq<Seq<u8>>
    decreases src.len(),
{
    if src.len() == 0 || size == 0 {
        Seq::empty()
    } else {
        let n = if size < src.len() { size as int } else { src.len() as int };
        seq![src.take(n)] + source_reads(src.skip(n), size)
    }
}

/// The chunks a streaming body hands out: its pending bytes, if any, then each read.
pub open spec fn stream_chunks(pending: Seq<u8>, src: Seq<u8>, size: nat) -> Seq<Seq<u8>> {
    if pending.len() == 0 {
        source_reads(src, size)
    } else {
        seq![pending] + source_reads(src, size)
    }
}

/// Every read of a finite source is non-empty and at most `size` bytes, and together
/// the reads are the whole source.
pub proof fn lemma_source_reads(src: Seq<u8>, size: nat)
    requires
        size > 0,
    ensures
        source_reads(src, size).flatten() == src,
        forall|i: int|
            0 <= i < source_reads(src, size).len() ==> 0 < #[trigger] source_reads(src, size)[i].len()
                <= size,
    decreases src.len(),
{
    if src.len() > 0 {
        let n = if size < src.len() { size as int } else { src.len() as int };
        lemma_source_reads(src.skip(n), size);
        let rest = source_reads(src.skip(n), size);
        let whole = seq![src.take(n)] + rest;
        assert(whole.drop_first() == rest);
        assert(whole.flatten() == src.take(n) + rest.flatten()) by {
            vstd::seq_lib::lemma_flatten_concat(seq![src.take(n)], rest);
            assert(seq![src.take(n)].flatten() == src.take(n)) by {
                assert(seq![src.take(n)].drop_first() =~= Seq::<Seq<u8>>::empty());
                assert(src.take(n) + Seq::<u8>::empty() =~= src.take(n));
            }
        }
        assert(src.take(n) + src.skip(n) =~= src);
        assert forall|i: int| 0 <= i < whole.len() implies 0 < #[trigger] whole[i].len() <= size by {
            if i > 0 {
                assert(whole[i] == rest[i - 1]);
            }
        }
    }
}

/// A streaming body drained to its end hands out its pending bytes followed by the whole
/// source, for any read size, and no chunk is empty.
pub proof fn law_stream_chunks_concat(pending: Seq<u8>, src: Seq<u8>, size: nat)
    requires
        size > 0,
    ensures
        stream_chunks(pending, src, size).flatten() == pending + src,
        forall|i: int|
            0 <= i < stream_chunks(pending, src, size).len() ==> #[trigger] stream_chunks(
                pending,
                src,
                size,
            )[i].len() > 0,
{
    lemma_source_reads(src, size);
    let rest = source_reads(src, size);
    if pending.len() == 0 {
        assert(pending + src =~= src);
    } else {
        vstd::seq_lib::lemma_flatten_concat(seq![pending], rest);
        assert(seq![pending].flatten() == pending) by {
            assert(seq![pending].drop_first() =~= Seq::<Seq<u8>>::empty());
            assert(seq![pending].drop_first().flatten() =~= Seq::<u8>::empty());
            assert(seq![pending].first() == pending);
            assert(pending + Seq::<u8>::empty() =~= pending);
        }
        let all = seq![pending] + rest;
        assert forall|i: int| 0 <= i < all.len() implies #[trigger] all[i].len() > 0 by {
            if i > 0 {
                assert(all[i] == rest[i - 1]);
            }
        }
    }
}

/// An in-memory body built from non-empty data hands out exactly that data as one chunk,
/// and nothing but the end after it, however often it is pulled.
pub proof fn law_in_memory_single_chunk<R>(
    b0: HttpBody<R>,
    b1: HttpBody<R>,
    b2: HttpBody<R>,
    b3: HttpBody<R>,
    r1: BodyRead,
    r2: BodyRead,
    r3: BodyRead,
    data: Seq<u8>,
)
    requires
        b0 matches HttpBody::InMemory { data: d } && d@ == data,
        data.len() > 0,
        read_step(b0, b1, r1),
        read_step(b1, b2, r2),
        read_step(b2, b3, r3),
    ensures
        r1 matches BodyRead::Chunk(c) && c@ == data && c@.len() > 0,
        r2 is End,
        r3 is End,
{
}

/// Each pull on a streaming body follows `stream_chunks`: pending bytes come out first and
/// leave nothing pending; with nothing pending, the body asks for a read of `size` bytes,
/// and the read of a finite source either ends the body, when the source is used up, or
/// hands out the next piece of the source, after which the rest is read the same way.
pub proof fn law_stream_step<R>(
    b0: HttpBody<R>,
    b1: HttpBody<R>,
    r: BodyRead,
    src: Seq<u8>,
)
    requires
        b0 is Streaming,
        read_step(b0, b1, r),
    ensures
        ({
            let pending = b0->Streaming_read_buf@;
            let size = b0->Streaming_buffer_size as nat;
            if pending.len() > 0 {
                &&& r matches BodyRead::Chunk(c) && c@ == pending
                &&& b1 matches HttpBody::Streaming { read_buf, buffer_size, .. } && read_buf@.len()
                    == 0 && buffer_size == size
                &&& stream_chunks(pending, src, size) == seq![pending] + stream_chunks(
                    Seq::empty(),
                    src,
                    size,
                )
            } else {
                &&& r == BodyRead::Fill(size as usize)
                &&& b1 == b0
                &&& size > 0 ==> {
                    let n = if size < src.len() { size as int } else { src.len() as int };
                    &&& read_result(src.take(n)) is None <==> src.len() == 0
                    &&& src.len() == 0 ==> stream_chunks(pending, src, size).len() == 0
                    &&& src.len() > 0 ==> stream_chunks(pending, src, size) == seq![src.take(n)]
                        + stream_chunks(Seq::empty(), src.skip(n), size)
                }
            }
        }),
{
    let pending = b0->Streaming_read_buf@;
    let size = b0->Streaming_buffer_size as nat;
    if pending.len() == 0 && size > 0 && src.len() > 0 {
        let n = if size < src.len() { size as int } else { src.len() as int };
        assert(src.take(n).len() > 0);
    }
}

impl<R> HttpBody<R> {
    pub fn new() -> (r: HttpBody<R>)
        ensures
            r is Empty,
    {
        HttpBody::Empty
    }

    /// A body holding `data`; no data gives the empty body.
    pub fn from_data(data: Vec<u8>) -> (r: HttpBody<R>)
        ensures
            data@.len() == 0 ==> r is Empty,
            data@.len() > 0 ==> (r matches HttpBody::InMemory { data: d } && d@ == data@),
    {
        if data.len() == 0 {
            HttpBody::Empty
        } else {
            HttpBody::InMemory { data }
        }
    }

    /// A body pulled from `reader`, up to `buffer_size` bytes at a time.
    pub fn from_reader(reader: R, buffer_size: usize) -> (r: HttpBody<R>)
        ensures
            r matches HttpBody::Streaming { reader: s, read_buf, buffer_size: n } && s == reader
                && read_buf@.len() == 0 && n == buffer_size,
    {
        HttpBody::Streaming { reader, read_buf: Vec::new(), buffer_size }
    }

    /// A streaming body whose first chunk is `pending`, bytes already read from `reader`.
    pub fn from_pending(reader: R, pending: Vec<u8>, buffer_size: usize) -> (r: HttpBody<R>)
        ensures
            r matches HttpBody::Streaming { reader: s, read_buf, buffer_size: n } && s == reader
                && read_buf@ == pending@ && n == buffer_size,
    {
        HttpBody::Streaming { reader, read_buf: pending, buffer_size }
    }

    /// Pulls the next piece: the whole in-memory data once, then the end; for a streaming
    /// body its pending bytes, else a request to read from the source.
    pub fn read_next(&mut self) -> (r: BodyRead)
        ensures
            read_step(*old(self), *final(self), r),
    {
        match self {
            HttpBody::InMemory { data } => {
                if data.len() == 0 {
                    BodyRead::End
                } else {
                    let chunk = data.clone();
                    data.clear();
                    BodyRead::Chunk(chunk)
                }
            },
            HttpBody::Streaming { reader: _, read_buf, buffer_size } => {
                if read_buf.len() == 0 {
                    BodyRead::Fill(*buffer_size)
                } else {
                    let chunk = read_buf.clone();
                    read_buf.clear();
                    BodyRead::Chunk(chunk)
                }
            },
            HttpBody::Empty => BodyRead::End,
        }
    }

    /// Takes the bytes of one read of a streaming body's source: none means the source has
    /// ended, otherwise they are the next chunk.
    pub fn accept(&self, data: Vec<u8>) -> (r: Option<Vec<u8>>)
        requires
            self matches HttpBody::Streaming { buffer_size, .. } && data@.len() <= *buffer_size,
        ensures
            match r {
                Some(c) => read_result(data@) == Some(c@),
                None => read_result(data@) is None,
            },
    {
        if data.len() == 0 {
            None
        } else {
            Some(data)
        }
    }

    pub fn is_streaming(&self) -> (r: bool)
        ensures
            r == (self is Streaming),
    {
        matches!(self, HttpBody::Streaming { .. })
    }

    /// The number of bytes left, known only for an in-memory body.
    pub fn content_length(&self) -> (r: Option<usize>)
        ensures
            match self {
                HttpBody::InMemory { data } => r is Some && r->0 == data@.len(),
                _ => r is None,
            },
    {
        match self {
            HttpBody::InMemory { data } => Some(data.len()),
            HttpBody::Streaming { .. } => None,
            HttpBody::Empty => None,
        }
    }
}

impl<R> Default for HttpBody<R> {
    fn default() -> (r: HttpBody<R>)
        ensures
            r is Empty,
    {
        HttpBody::Empty
    }
}

impl<'a, R> From<&'a str> for HttpBody<R> {
    fn from(value: &'a str) -> (r: HttpBody<R>)
        ensures
            r matches HttpBody::InMemory { data } && data@ == value.spec_bytes(),
    {
        HttpBody::InMemory { data: vstd::slice::slice_to_vec(value.as_bytes()) }
    }
}

impl<'a, R> vstd::std_specs::convert::FromSpecImpl<&'a str> for HttpBody<R> {
    open spec fn obeys_from_spec() -> bool {
        false
    }

    open spec fn from_spec(v: &'a str) -> HttpBody<R> {
        arbitrary()
    }
}

} // verus!
