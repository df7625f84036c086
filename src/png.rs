use vstd::prelude::*;

use crate::chunk::{be_u32_value, lemma_parse_chunk_bytes, parse_chunk, ChunkModel, PNGChunk};
use crate::error::InvalidPNGFormat;
use crate::ihdr::{ihdr_tag, IHDR_TAG};
use crate::time::{decode_time, time_tag, TimeData, TIME_TAG};

verus! {

/// The eight bytes that every PNG stream starts with.
pub const PNG_SIGNATURE: [u8; 8] = [137, 80, 78, 71, 13, 10, 26, 10];

/// The type tag of the terminal chunk, "IEND".
pub const IEND_TAG: [u8; 4] = [73, 69, 78, 68];

/// The PNG signature as a sequence of bytes.
pub open spec fn png_signature() -> Seq<u8> {
    seq![137u8, 80u8, 78u8, 71u8, 13u8, 10u8, 26u8, 10u8]
}

/// "IEND" as a sequence of bytes.
pub open spec fn iend_tag() -> Seq<u8> {
    seq![73u8, 69u8, 78u8, 68u8]
}

/// Whether a chunk is kept apart from the ordinary ones: the header or the timestamp.
pub open spec fn is_special(c: ChunkModel) -> bool {
    c.chunk_type == ihdr_tag() || c.chunk_type == time_tag()
}

/// Prepends `front` to the chunks of `r`, if there are any.
pub open spec fn prepend(front: Seq<ChunkModel>, r: Option<Seq<ChunkModel>>) -> Option<
    Seq<ChunkModel>,
> {
    match r {
        Some(t) => Some(front + t),
        None => None,
    }
}

/// The chunks at the front of `s`, up to and including the first "IEND" chunk;
/// `None` where `s` ends before that chunk does. Bytes after it are ignored.
pub open spec fn parse_chunks(s: Seq<u8>) -> Option<Seq<ChunkModel>>
    decreases s.len(),
{
    match parse_chunk(s) {
        None => None,
        Some(c) => if c.chunk_type == iend_tag() {
            Some(seq![c])
        } else {
            prepend(seq![c], parse_chunks(s.subrange(c.data.len() + 12 as int, s.len() as int)))
        },
    }
}

/// The last chunk of `cs` whose type is `tag`.
pub open spec fn last_with_type(cs: Seq<ChunkModel>, tag: Seq<u8>) -> Option<ChunkModel>
    decreases cs.len(),
{
    if cs.len() == 0 {
        None
    } else if cs.last().chunk_type == tag {
        Some(cs.last())
    } else {
        last_with_type(cs.drop_last(), tag)
    }
}

/// The chunks of `cs` that are neither header nor timestamp, in their order.
pub open spec fn ordinary_chunks(cs: Seq<ChunkModel>) -> Seq<ChunkModel>
    decreases cs.len(),
{
    if cs.len() == 0 {
        seq![]
    } else if is_special(cs.last()) {
        ordinary_chunks(cs.drop_last())
    } else {
        ordinary_chunks(cs.drop_last()).push(cs.last())
    }
}

/// The bytes of the chunks of `cs`, one after another.
pub open spec fn chunks_bytes(cs: Seq<ChunkModel>) -> Seq<u8>
    decreases cs.len(),
{
    if cs.len() == 0 {
        seq![]
    } else {
        chunks_bytes(cs.drop_last()) + cs.last().bytes()
    }
}

/// What a PNG document holds: the header chunk, the timestamp chunk if any,
/// and the other chunks in stream order, the last of them "IEND".
pub ghost struct DocModel {
    pub header: ChunkModel,
    pub time: Option<ChunkModel>,
    pub chunks: Seq<ChunkModel>,
}

/// Every chunk of `cs` can stand in a stream, and none is a header or a timestamp.
pub open spec fn all_ordinary(cs: Seq<ChunkModel>) -> bool {
    forall|i: int| 0 <= i < cs.len() ==> #[trigger] cs[i].wf() && !is_special(cs[i])
}

/// No chunk of `cs` is an "IEND" chunk.
pub open spec fn no_iend(cs: Seq<ChunkModel>) -> bool {
    forall|i: int| 0 <= i < cs.len() ==> #[trigger] cs[i].chunk_type != iend_tag()
}

impl DocModel {
    /// A document that reading a stream gives.
    pub open spec fn wf(self) -> bool {
        &&& self.header.wf()
        &&& self.header.chunk_type == ihdr_tag()
        &&& (self.time matches Some(t) ==> t.wf() && t.chunk_type == time_tag())
        &&& self.chunks.len() > 0
        &&& self.chunks.last().chunk_type == iend_tag()
        &&& all_ordinary(self.chunks)
        &&& no_iend(self.chunks.drop_last())
    }

    /// Header, timestamp if any, then the others: the order in which they are written.
    pub open spec fn stream_order(self) -> Seq<ChunkModel> {
        match self.time {
            Some(t) => seq![self.header, t] + self.chunks,
            None => seq![self.header] + self.chunks,
        }
    }
}

/// What reading `bytes` as a PNG stream gives. A signature with nothing
/// after it holds no chunk, so no header either. Where a stream holds several
/// header or timestamp chunks, the last of each is kept.
pub open spec fn parse_png(bytes: Seq<u8>) -> Result<DocModel, InvalidPNGFormat> {
    if bytes.len() < 8 || bytes.subrange(0, 8) != png_signature() {
        Err(InvalidPNGFormat::InvalidSignature)
    } else if bytes.len() == 8 {
        Err(InvalidPNGFormat::MissingHeaderChunk)
    } else {
        match parse_chunks(bytes.subrange(8, bytes.len() as int)) {
            None => Err(InvalidPNGFormat::TruncatedStream),
            Some(cs) => match last_with_type(cs, ihdr_tag()) {
                None => Err(InvalidPNGFormat::MissingHeaderChunk),
                Some(h) => Ok(
                    DocModel {
                        header: h,
                        time: last_with_type(cs, time_tag()),
                        chunks: ordinary_chunks(cs),
                    },
                ),
            },
        }
    }
}

/// The bytes of document `d`: the signature, the header chunk, the timestamp
/// chunk if any, then the other chunks in order.
pub open spec fn png_bytes(d: DocModel) -> Seq<u8> {
    png_signature() + chunks_bytes(d.stream_order())
}

/// The view of an optional chunk.
pub open spec fn opt_view(o: Option<PNGChunk>) -> Option<ChunkModel> {
    match o {
        Some(c) => Some(c@),
        None => None,
    }
}

/// The views of a sequence of chunks.
pub open spec fn views(cs: Seq<PNGChunk>) -> Seq<ChunkModel> {
    cs.map_values(|c: PNGChunk| c@)
}

/// The bytes of `a` followed by those of `b` are the bytes of `a + b`.
pub proof fn lemma_chunks_bytes_concat(a: Seq<ChunkModel>, b: Seq<ChunkModel>)
    ensures
        chunks_bytes(a + b) == chunks_bytes(a) + chunks_bytes(b),
    decreases b.len(),
{
    if b.len() == 0 {
        assert(a + b =~= a);
        assert(chunks_bytes(a) + chunks_bytes(b) =~= chunks_bytes(a));
    } else {
        assert((a + b).drop_last() =~= a + b.drop_last());
        lemma_chunks_bytes_concat(a, b.drop_last());
        assert(chunks_bytes(a + b) =~= chunks_bytes(a) + chunks_bytes(b));
    }
}

/// The bytes of a single chunk.
pub proof fn lemma_chunks_bytes_one(c: ChunkModel)
    ensures
        chunks_bytes(seq![c]) == c.bytes(),
{
    assert(seq![c].drop_last() =~= Seq::<ChunkModel>::empty());
    assert(chunks_bytes(Seq::<ChunkModel>::empty()) + c.bytes() =~= c.bytes());
}

/// Reading the bytes of chunks none of which is "IEND", followed by `rest`,
/// gives those chunks followed by what reading `rest` gives.
pub proof fn lemma_parse_chunks_prefix(cs: Seq<ChunkModel>, rest: Seq<u8>)
    requires
        forall|i: int| 0 <= i < cs.len() ==> #[trigger] cs[i].wf() && cs[i].chunk_type != iend_tag(),
    ensures
        parse_chunks(chunks_bytes(cs) + rest) == prepend(cs, parse_chunks(rest)),
    decreases cs.len(),
{
    if cs.len() == 0 {
        assert(chunks_bytes(cs) + rest =~= rest);
        if let Some(t) = parse_chunks(rest) {
            assert(cs + t =~= t);
        }
    } else {
        let c = cs[0];
        let tail = cs.subrange(1, cs.len() as int);
        assert(cs =~= seq![c] + tail);
        assert forall|i: int| 0 <= i < tail.len() implies #[trigger] tail[i].wf()
            && tail[i].chunk_type != iend_tag() by {
            assert(tail[i] == cs[i + 1]);
            assert(cs[i + 1].wf());
        }
        lemma_parse_chunks_prefix(tail, rest);
        lemma_chunks_bytes_concat(seq![c], tail);
        lemma_chunks_bytes_one(c);
        let x = chunks_bytes(tail) + rest;
        let s = c.bytes() + x;
        assert(chunks_bytes(cs) + rest =~= s);
        assert(c.wf()) by {
            assert(cs[0].wf());
        }
        lemma_parse_chunk_bytes(c, x);
        assert(s.subrange(c.data.len() + 12 as int, s.len() as int) =~= x);
        assert(parse_chunks(s) == prepend(seq![c], parse_chunks(x)));
        if let Some(t) = parse_chunks(rest) {
            assert(seq![c] + (tail + t) =~= cs + t);
        }
    }
}

/// Reading the bytes of an "IEND" chunk, followed by anything, gives that chunk alone.
pub proof fn lemma_parse_chunks_iend(c: ChunkModel, rest: Seq<u8>)
    requires
        c.wf(),
        c.chunk_type == iend_tag(),
    ensures
        parse_chunks(c.bytes() + rest) == Some(seq![c]),
{
    lemma_parse_chunk_bytes(c, rest);
}

/// Chunks of another type, added at the end, do not change the last chunk of type `tag`.
pub proof fn lemma_last_with_type_append(a: Seq<ChunkModel>, b: Seq<ChunkModel>, tag: Seq<u8>)
    requires
        forall|i: int| 0 <= i < b.len() ==> #[trigger] b[i].chunk_type != tag,
    ensures
        last_with_type(a + b, tag) == last_with_type(a, tag),
    decreases b.len(),
{
    if b.len() == 0 {
        assert(a + b =~= a);
    } else {
        assert((a + b).drop_last() =~= a + b.drop_last());
        lemma_last_with_type_append(a, b.drop_last(), tag);
    }
}

/// Ordinary chunks, added at the end, are kept as they are.
pub proof fn lemma_ordinary_append(a: Seq<ChunkModel>, b: Seq<ChunkModel>)
    requires
        forall|i: int| 0 <= i < b.len() ==> !is_special(#[trigger] b[i]),
    ensures
        ordinary_chunks(a + b) == ordinary_chunks(a) + b,
    decreases b.len(),
{
    if b.len() == 0 {
        assert(a + b =~= a);
        assert(ordinary_chunks(a) + b =~= ordinary_chunks(a));
    } else {
        assert((a + b).drop_last() =~= a + b.drop_last());
        lemma_ordinary_append(a, b.drop_last());
        assert(ordinary_chunks(a) + b.drop_last() + seq![b.last()] =~= ordinary_chunks(a) + b);
    }
}

/// The three tags that the reader tells apart are distinct.
pub proof fn lemma_tags_distinct()
    ensures
        ihdr_tag() != time_tag(),
        ihdr_tag() != iend_tag(),
        time_tag() != iend_tag(),
{
    assert(ihdr_tag()[0] != time_tag()[0]);
    assert(ihdr_tag()[1] != iend_tag()[1]);
    assert(time_tag()[0] != iend_tag()[0]);
}

/// A sequence of chunks that a stream can hold and that ends at its first "IEND".
pub open spec fn is_chunk_stream(cs: Seq<ChunkModel>) -> bool {
    &&& cs.len() > 0
    &&& cs.last().chunk_type == iend_tag()
    &&& no_iend(cs.drop_last())
    &&& forall|i: int| 0 <= i < cs.len() ==> #[trigger] cs[i].wf()
}

/// Reading the bytes of a chunk stream, followed by anything, gives the stream back.
pub proof fn lemma_parse_chunk_stream(cs: Seq<ChunkModel>, rest: Seq<u8>)
    requires
        is_chunk_stream(cs),
    ensures
        parse_chunks(chunks_bytes(cs) + rest) == Some(cs),
{
    let pre = cs.drop_last();
    let last = cs.last();
    assert forall|i: int| 0 <= i < pre.len() implies #[trigger] pre[i].wf() && pre[i].chunk_type
        != iend_tag() by {
        assert(pre[i] == cs[i]);
    }
    assert(last.wf()) by {
        assert(cs[cs.len() - 1].wf());
    }
    lemma_parse_chunks_prefix(pre, last.bytes() + rest);
    lemma_parse_chunks_iend(last, rest);
    assert(pre + seq![last] =~= cs);
    assert(chunks_bytes(cs) + rest =~= chunks_bytes(pre) + (last.bytes() + rest));
}

/// The signature, followed by `x`, splits back into the two.
pub proof fn lemma_signed(x: Seq<u8>)
    ensures
        (png_signature() + x).len() >= 8,
        (png_signature() + x).subrange(0, 8) == png_signature(),
        (png_signature() + x).subrange(8, (png_signature() + x).len() as int) == x,
{
    assert((png_signature() + x).subrange(0, 8) =~= png_signature());
    assert((png_signature() + x).subrange(8, (png_signature() + x).len() as int) =~= x);
}

/// The chunks that a document is written as form a chunk stream, from which
/// reading keeps apart the same header and timestamp and the same others.
pub proof fn lemma_stream_order(d: DocModel)
    requires
        d.wf(),
    ensures
        is_chunk_stream(d.stream_order()),
        last_with_type(d.stream_order(), ihdr_tag()) == Some(d.header),
        last_with_type(d.stream_order(), time_tag()) == d.time,
        ordinary_chunks(d.stream_order()) == d.chunks,
{
    lemma_tags_distinct();
    let front = match d.time {
        Some(t) => seq![d.header, t],
        None => seq![d.header],
    };
    let all = d.stream_order();
    assert(all =~= front + d.chunks);
    assert forall|i: int| 0 <= i < d.chunks.len() implies !is_special(#[trigger] d.chunks[i])
        && d.chunks[i].chunk_type != ihdr_tag() && d.chunks[i].chunk_type != time_tag() by {
        assert(d.chunks[i].wf());
    }
    assert forall|i: int| 0 <= i < all.len() implies #[trigger] all[i].wf() by {
        if i >= front.len() {
            assert(all[i] == d.chunks[i - front.len()]);
            assert(d.chunks[i - front.len()].wf());
        }
    }
    assert forall|i: int| 0 <= i < all.drop_last().len() implies #[trigger] all.drop_last()[i].chunk_type
        != iend_tag() by {
        if i >= front.len() {
            assert(all.drop_last()[i] == d.chunks.drop_last()[i - front.len()]);
        }
    }
    lemma_last_with_type_append(front, d.chunks, ihdr_tag());
    lemma_last_with_type_append(front, d.chunks, time_tag());
    lemma_ordinary_append(front, d.chunks);
    assert(seq![d.header].drop_last() =~= Seq::<ChunkModel>::empty());
    assert(ordinary_chunks(seq![d.header]) == ordinary_chunks(Seq::<ChunkModel>::empty()));
    assert(last_with_type(seq![d.header], time_tag()) == last_with_type(
        Seq::<ChunkModel>::empty(),
        time_tag(),
    ));
    match d.time {
        Some(t) => {
            assert(front.drop_last() =~= seq![d.header]);
            assert(front.last() == t);
            assert(ordinary_chunks(front) == ordinary_chunks(seq![d.header]));
            assert(last_with_type(front, ihdr_tag()) == last_with_type(seq![d.header], ihdr_tag()));
        },
        None => {},
    }
    assert(ordinary_chunks(front) + d.chunks =~= d.chunks);
}

/// Round trip: writing a document and reading the bytes back gives the same
/// header chunk, the same timestamp chunk and the same other chunks.
pub proof fn lemma_round_trip(d: DocModel)
    requires
        d.wf(),
    ensures
        parse_png(png_bytes(d)) == Ok::<DocModel, InvalidPNGFormat>(d),
{
    lemma_stream_order(d);
    lemma_parse_chunk_stream(d.stream_order(), Seq::<u8>::empty());
    assert(chunks_bytes(d.stream_order()) + Seq::<u8>::empty() =~= chunks_bytes(d.stream_order()));
    lemma_signed(chunks_bytes(d.stream_order()));
}

/// A stream that does not start with the PNG signature is refused with
/// `InvalidSignature`, whatever follows.
pub proof fn lemma_bad_signature(bytes: Seq<u8>)
    requires
        bytes.len() < 8 || bytes.subrange(0, 8) != png_signature(),
    ensures
        parse_png(bytes) == Err::<DocModel, InvalidPNGFormat>(InvalidPNGFormat::InvalidSignature),
{
}

/// A signed stream whose chunks reach "IEND" without an "IHDR" chunk is
/// refused with `MissingHeaderChunk`.
pub proof fn lemma_missing_header(cs: Seq<ChunkModel>, rest: Seq<u8>)
    requires
        is_chunk_stream(cs),
        forall|i: int| 0 <= i < cs.len() ==> #[trigger] cs[i].chunk_type != ihdr_tag(),
    ensures
        parse_png(png_signature() + (chunks_bytes(cs) + rest)) == Err::<DocModel, InvalidPNGFormat>(
            InvalidPNGFormat::MissingHeaderChunk,
        ),
{
    lemma_parse_chunk_stream(cs, rest);
    lemma_signed(chunks_bytes(cs) + rest);
    lemma_last_with_type_append(Seq::<ChunkModel>::empty(), cs, ihdr_tag());
    assert(Seq::<ChunkModel>::empty() + cs =~= cs);
}

/// A stream that holds the signature and nothing after it has no chunk, so
/// it is refused with `MissingHeaderChunk`.
pub proof fn lemma_no_chunks()
    ensures
        parse_png(png_signature()) == Err::<DocModel, InvalidPNGFormat>(
            InvalidPNGFormat::MissingHeaderChunk,
        ),
{
    assert(png_signature().subrange(0, 8) =~= png_signature());
}

/// A signed stream in which a chunk declares more payload than the bytes
/// that follow its length and type, before any "IEND" chunk, is refused with
/// `TruncatedStream`.
pub proof fn lemma_truncated_payload(cs: Seq<ChunkModel>, tail: Seq<u8>)
    requires
        forall|i: int| 0 <= i < cs.len() ==> #[trigger] cs[i].wf() && cs[i].chunk_type != iend_tag(),
        tail.len() >= 8,
        be_u32_value(tail.subrange(0, 4)) > tail.len() - 8,
    ensures
        parse_png(png_signature() + (chunks_bytes(cs) + tail)) == Err::<DocModel, InvalidPNGFormat>(
            InvalidPNGFormat::TruncatedStream,
        ),
{
    lemma_parse_chunks_prefix(cs, tail);
    lemma_signed(chunks_bytes(cs) + tail);
}

/// The chunks that a stream reader returns: the last header chunk, the last
/// timestamp chunk and the others in stream order.
pub type ChunkSplit = (Option<PNGChunk>, Option<PNGChunk>, Vec<PNGChunk>);

/// What a stream reader returns holds the chunks read from `cs`, and the
/// others end at their only "IEND" chunk.
pub open spec fn split_of(r: ChunkSplit, cs: Seq<ChunkModel>) -> bool {
    &&& opt_view(r.0) == last_with_type(cs, ihdr_tag())
    &&& opt_view(r.1) == last_with_type(cs, time_tag())
    &&& views(r.2@) == ordinary_chunks(cs)
    &&& (r.0 matches Some(h) ==> h@.wf() && h@.chunk_type == ihdr_tag())
    &&& (r.1 matches Some(t) ==> t@.wf() && t@.chunk_type == time_tag())
    &&& views(r.2@).len() > 0
    &&& views(r.2@).last().chunk_type == iend_tag()
    &&& all_ordinary(views(r.2@))
    &&& no_iend(views(r.2@).drop_last())
}

/// Reads chunks from `bytes` at `pos` until an "IEND" chunk has been read.
/// Header and timestamp chunks are set apart, a later one replacing an
/// earlier one; every other chunk, "IEND" included, is kept in stream order.
/// Fails with `TruncatedStream` where `bytes` ends before an "IEND" chunk does.
pub fn read_all(bytes: &[u8], pos: usize) -> (r: Result<ChunkSplit, InvalidPNGFormat>)
    requires
        pos <= bytes@.len(),
    ensures
        match parse_chunks(bytes@.subrange(pos as int, bytes@.len() as int)) {
            None => r is Err && r->Err_0 == InvalidPNGFormat::TruncatedStream,
            Some(cs) => r is Ok && split_of(r->Ok_0, cs),
        },
{
    let ghost whole = bytes@.subrange(pos as int, bytes@.len() as int);
    let ghost mut seen: Seq<ChunkModel> = Seq::empty();
    let mut header: Option<PNGChunk> = None;
    let mut time: Option<PNGChunk> = None;
    let mut chunks: Vec<PNGChunk> = Vec::new();
    let mut p: usize = pos;
    let mut found_iend = false;
    assert(views(chunks@) =~= Seq::<ChunkModel>::empty());
    assert(prepend(seen, parse_chunks(whole)) == parse_chunks(whole)) by {
        if let Some(t) = parse_chunks(whole) {
            assert(seen + t =~= t);
        }
    }
    while !found_iend
        invariant
            pos <= p <= bytes@.len(),
            whole == bytes@.subrange(pos as int, bytes@.len() as int),
            opt_view(header) == last_with_type(seen, ihdr_tag()),
            opt_view(time) == last_with_type(seen, time_tag()),
            views(chunks@) == ordinary_chunks(seen),
            header matches Some(h) ==> h@.wf() && h@.chunk_type == ihdr_tag(),
            time matches Some(t) ==> t@.wf() && t@.chunk_type == time_tag(),
            all_ordinary(views(chunks@)),
            found_iend ==> parse_chunks(whole) == Some(seen),
            found_iend ==> views(chunks@).len() > 0 && views(chunks@).last().chunk_type
                == iend_tag() && no_iend(views(chunks@).drop_last()),
            !found_iend ==> parse_chunks(whole) == prepend(
                seen,
                parse_chunks(bytes@.subrange(p as int, bytes@.len() as int)),
            ),
            !found_iend ==> no_iend(views(chunks@)),
        decreases bytes@.len() - p,
    {
        let ghost rest = bytes@.subrange(p as int, bytes@.len() as int);
        let (chunk, next) = match PNGChunk::read_from(bytes, p) {
            Ok(x) => x,
            Err(e) => {
                return Err(e);
            },
        };
        let ghost c = chunk@;
        let ghost after = bytes@.subrange(next as int, bytes@.len() as int);
        proof {
            lemma_tags_distinct();
            lemma_parse_chunk_bytes(c, Seq::<u8>::empty());
            assert(rest.subrange(c.data.len() + 12 as int, rest.len() as int) =~= after);
            if let Some(t) = parse_chunks(after) {
                assert(seen + (seq![c] + t) =~= seen.push(c) + t);
            }
            assert(seen.push(c) =~= seen + seq![c]);
            assert(seen.push(c).drop_last() =~= seen);
            seen = seen.push(c);
        }
        let ghost old_chunks = chunks@;
        if chunk.has_type(&IHDR_TAG) {
            assert(IHDR_TAG@ =~= ihdr_tag());
            header = Some(chunk);
        } else if chunk.has_type(&TIME_TAG) {
            assert(IHDR_TAG@ =~= ihdr_tag());
            assert(TIME_TAG@ =~= time_tag());
            time = Some(chunk);
        } else {
            assert(IHDR_TAG@ =~= ihdr_tag());
            assert(TIME_TAG@ =~= time_tag());
            assert(IEND_TAG@ =~= iend_tag());
            if chunk.has_type(&IEND_TAG) {
                found_iend = true;
            }
            chunks.push(chunk);
            assert(views(chunks@) =~= views(old_chunks).push(c));
            assert(views(chunks@).drop_last() =~= views(old_chunks));
        }
        p = next;
    }
    Ok((header, time, chunks))
}

/// A PNG document: its header chunk, its timestamp chunk if it has one, and
/// its other chunks in stream order, the last of which is "IEND".
pub struct PNGFile {
    ihdr_chunk: PNGChunk,
    time_chunk: Option<PNGChunk>,
    chunks: Vec<PNGChunk>,
}

impl View for PNGFile {
    type V = DocModel;

    closed spec fn view(&self) -> DocModel {
        DocModel {
            header: self.ihdr_chunk@,
            time: opt_view(self.time_chunk),
            chunks: views(self.chunks@),
        }
    }
}

impl PNGFile {
    #[verifier::type_invariant]
    spec fn is_document(self) -> bool {
        self@.wf()
    }

    /// Reads a PNG document from the bytes of a stream: the signature, then
    /// chunks up to the first "IEND". Fails with `InvalidSignature` where the
    /// first eight bytes are not the signature (or there are fewer), with
    /// `MissingHeaderChunk` where nothing follows the signature or no "IHDR"
    /// chunk comes before "IEND", and with `TruncatedStream` where the bytes
    /// end inside a chunk, or after some chunks but before an "IEND" chunk.
    pub fn from_bytes(bytes: &[u8]) -> (r: Result<PNGFile, InvalidPNGFormat>)
        ensures
            match parse_png(bytes@) {
                Ok(d) => r is Ok && r->Ok_0@ == d,
                Err(e) => r is Err && r->Err_0 == e,
            },
    {
        if bytes.len() < 8 {
            return Err(InvalidPNGFormat::InvalidSignature);
        }
        let mut i: usize = 0;
        while i < 8
            invariant
                i <= 8,
                bytes@.len() >= 8,
                PNG_SIGNATURE@ == png_signature(),
                bytes@.subrange(0, i as int) == png_signature().subrange(0, i as int),
            decreases 8 - i,
        {
            if bytes[i] != PNG_SIGNATURE[i] {
                assert(bytes@.subrange(0, 8)[i as int] != png_signature()[i as int]);
                return Err(InvalidPNGFormat::InvalidSignature);
            }
            i = i + 1;
            assert(bytes@.subrange(0, i as int) =~= png_signature().subrange(0, i as int));
        }
        assert(png_signature().subrange(0, 8) =~= png_signature());
        if bytes.len() == 8 {
            return Err(InvalidPNGFormat::MissingHeaderChunk);
        }
        match read_all(bytes, 8) {
            Err(e) => Err(e),
            Ok((header, time, chunks)) => match header {
                None => Err(InvalidPNGFormat::MissingHeaderChunk),
                Some(h) => Ok(PNGFile { ihdr_chunk: h, time_chunk: time, chunks }),
            },
        }
    }

    /// The header chunk.
    pub fn get_ihdr_chunk(&self) -> (r: &PNGChunk)
        ensures
            r@ == self@.header,
            self@.wf(),
    {
        proof {
            use_type_invariant(self);
        }
        &self.ihdr_chunk
    }

    /// The timestamp chunk, where the document has one.
    pub fn get_time_chunk(&self) -> (r: Option<&PNGChunk>)
        ensures
            match r {
                Some(c) => self@.time == Some(c@),
                None => self@.time is None,
            },
            self@.wf(),
    {
        proof {
            use_type_invariant(self);
        }
        match &self.time_chunk {
            Some(c) => Some(c),
            None => None,
        }
    }

    /// The chunks other than header and timestamp, in stream order; the last is "IEND".
    pub fn get_chunks(&self) -> (r: &Vec<PNGChunk>)
        ensures
            views(r@) == self@.chunks,
            self@.wf(),
    {
        proof {
            use_type_invariant(self);
        }
        &self.chunks
    }

    /// The decoded timestamp: `None` where the document has no timestamp
    /// chunk, `TruncatedPayload` where its payload has fewer than 7 bytes.
    pub fn get_last_modified(&self) -> (r: Result<Option<TimeData>, InvalidPNGFormat>)
        ensures
            match self@.time {
                None => r is Ok && r->Ok_0 is None,
                Some(t) => match decode_time(t) {
                    Ok(x) => r is Ok && r->Ok_0 == Some(x),
                    Err(e) => r is Err && r->Err_0 == e,
                },
            },
    {
        match &self.time_chunk {
            None => Ok(None),
            Some(c) => match TimeData::from_chunk(c) {
                Ok(x) => Ok(Some(x)),
                Err(e) => Err(e),
            },
        }
    }

    /// The bytes of this document: the signature, the header chunk, the
    /// timestamp chunk if any, then the other chunks in order. Reading them
    /// back gives this document.
    pub fn to_bytes(&self) -> (r: Vec<u8>)
        ensures
            r@ == png_bytes(self@),
            parse_png(r@) == Ok::<DocModel, InvalidPNGFormat>(self@),
    {
        proof {
            use_type_invariant(self);
            lemma_round_trip(self@);
        }
        let mut out: Vec<u8> = Vec::new();
        let mut i: usize = 0;
        while i < 8
            invariant
                i <= 8,
                PNG_SIGNATURE@ == png_signature(),
                out@ == png_signature().subrange(0, i as int),
            decreases 8 - i,
        {
            out.push(PNG_SIGNATURE[i]);
            i = i + 1;
            assert(out@ =~= png_signature().subrange(0, i as int));
        }
        assert(png_signature().subrange(0, 8) =~= png_signature());
        let ghost front: Seq<ChunkModel> = match self@.time {
            Some(t) => seq![self@.header, t],
            None => seq![self@.header],
        };
        self.ihdr_chunk.write_to(&mut out);
        proof {
            lemma_chunks_bytes_one(self@.header);
        }
        match &self.time_chunk {
            Some(t) => {
                t.write_to(&mut out);
                proof {
                    assert(front.drop_last() =~= seq![self@.header]);
                }
            },
            None => {},
        }
        assert(out@ =~= png_signature() + chunks_bytes(front));
        let ghost cs = views(self.chunks@);
        let mut j: usize = 0;
        assert(front + cs.subrange(0, 0) =~= front);
        while j < self.chunks.len()
            invariant
                j <= cs.len(),
                cs == views(self.chunks@),
                out@ == png_signature() + chunks_bytes(front + cs.subrange(0, j as int)),
            decreases cs.len() - j,
        {
            self.chunks[j].write_to(&mut out);
            let ghost done = front + cs.subrange(0, j as int);
            assert((front + cs.subrange(0, j + 1)).drop_last() =~= done);
            assert((front + cs.subrange(0, j + 1)).last() == self.chunks@[j as int]@);
            j = j + 1;
            assert(out@ =~= png_signature() + chunks_bytes(front + cs.subrange(0, j as int)));
        }
        assert(front + cs.subrange(0, cs.len() as int) =~= self@.stream_order());
        out
    }
}

} // verus!
