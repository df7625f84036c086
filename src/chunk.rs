use vstd::prelude::*;

use crate::error::InvalidPNGFormat;

verus! {

/// The value of four bytes read as a big-endian unsigned integer.
#[verifier::opaque]
pub open spec fn be_u32_value(b: Seq<u8>) -> nat
    recommends
        b.len() == 4,
{
    (b[0] as nat) * 0x1000000 + (b[1] as nat) * 0x10000 + (b[2] as nat) * 0x100 + (b[3] as nat)
}

/// The four big-endian bytes of `n`.
#[verifier::opaque]
pub open spec fn be_u32_bytes(n: u32) -> Seq<u8> {
    seq![
        (n / 0x1000000) as u8,
        ((n / 0x10000) % 0x100) as u8,
        ((n / 0x100) % 0x100) as u8,
        (n % 0x100) as u8,
    ]
}

/// Writing a number in four big-endian bytes and reading it back gives the number.
pub proof fn lemma_be_u32_round_trip(n: u32)
    ensures
        be_u32_bytes(n).len() == 4,
        be_u32_value(be_u32_bytes(n)) == n,
{
    reveal(be_u32_bytes);
    reveal(be_u32_value);
    let b = be_u32_bytes(n);
    assert(b[0] as nat == n / 0x1000000);
    assert(b[1] as nat == (n / 0x10000) % 0x100);
    assert(b[2] as nat == (n / 0x100) % 0x100);
    assert(b[3] as nat == n % 0x100);
    assert((n / 0x1000000) * 0x1000000 + ((n / 0x10000) % 0x100) * 0x10000 + ((n / 0x100)
        % 0x100) * 0x100 + n % 0x100 == n) by (nonlinear_arith);
}

/// What a chunk holds: its type tag, its payload and its checksum.
/// The length field of a chunk is always the payload's length.
pub ghost struct ChunkModel {
    pub chunk_type: Seq<u8>,
    pub data: Seq<u8>,
    pub crc: Seq<u8>,
}

impl ChunkModel {
    /// The bytes of this chunk in a PNG stream: length, type, payload, checksum.
    pub open spec fn bytes(self) -> Seq<u8> {
        be_u32_bytes(self.data.len() as u32) + self.chunk_type + self.data + self.crc
    }

    /// A chunk that a PNG stream can hold: a four-byte tag and checksum, and a
    /// payload whose length fits in the length field.
    pub open spec fn wf(self) -> bool {
        &&& self.chunk_type.len() == 4
        &&& self.crc.len() == 4
        &&& self.data.len() <= u32::MAX
    }
}

/// The chunk at the front of `s`, if `s` holds all of it.
pub open spec fn parse_chunk(s: Seq<u8>) -> Option<ChunkModel> {
    if s.len() < 8 {
        None
    } else {
        let n = be_u32_value(s.subrange(0, 4)) as int;
        if s.len() < n + 12 {
            None
        } else {
            Some(
                ChunkModel {
                    chunk_type: s.subrange(4, 8),
                    data: s.subrange(8, n + 8),
                    crc: s.subrange(n + 8, n + 12),
                },
            )
        }
    }
}

/// One chunk of a PNG stream. Its length field always equals its payload's length.
pub struct PNGChunk {
    length: u32,
    chunk_type: [u8; 4],
    data: Vec<u8>,
    crc: [u8; 4],
}

impl View for PNGChunk {
    type V = ChunkModel;

    closed spec fn view(&self) -> ChunkModel {
        ChunkModel { chunk_type: self.chunk_type@, data: self.data@, crc: self.crc@ }
    }
}

/// Reads a big-endian `u32` from `bytes` at `pos`.
fn read_be_u32(bytes: &[u8], pos: usize) -> (r: u32)
    requires
        pos + 4 <= bytes@.len(),
    ensures
        r as nat == be_u32_value(bytes@.subrange(pos as int, pos + 4)),
{
    reveal(be_u32_value);
    (bytes[pos] as u32) * 0x1000000 + (bytes[pos + 1] as u32) * 0x10000 + (bytes[pos + 2] as u32)
        * 0x100 + (bytes[pos + 3] as u32)
}

/// Appends the four big-endian bytes of `n` to `out`.
fn push_be_u32(out: &mut Vec<u8>, n: u32)
    ensures
        final(out)@ == old(out)@ + be_u32_bytes(n),
{
    reveal(be_u32_bytes);
    out.push((n / 0x1000000) as u8);
    out.push(((n / 0x10000) % 0x100) as u8);
    out.push(((n / 0x100) % 0x100) as u8);
    out.push((n % 0x100) as u8);
    assert(out@ =~= old(out)@ + be_u32_bytes(n));
}

/// Reads four bytes of `bytes` at `pos` into an array.
fn read_tag(bytes: &[u8], pos: usize) -> (r: [u8; 4])
    requires
        pos + 4 <= bytes@.len(),
    ensures
        r@ == bytes@.subrange(pos as int, pos + 4),
{
    let r = [bytes[pos], bytes[pos + 1], bytes[pos + 2], bytes[pos + 3]];
    assert(r@ =~= bytes@.subrange(pos as int, pos + 4));
    r
}

impl PNGChunk {
    #[verifier::type_invariant]
    spec fn length_matches(self) -> bool {
        self.length as nat == self.data@.len()
    }

    /// A chunk with the given type tag, payload and checksum; its length field
    /// is the payload's length.
    pub fn new(chunk_type: [u8; 4], data: Vec<u8>, crc: [u8; 4]) -> (r: PNGChunk)
        requires
            data@.len() <= u32::MAX,
        ensures
            r@ == (ChunkModel { chunk_type: chunk_type@, data: data@, crc: crc@ }),
            r@.wf(),
    {
        PNGChunk { length: data.len() as u32, chunk_type, data, crc }
    }

    /// The length field: the number of payload bytes.
    pub fn length(&self) -> (r: u32)
        ensures
            r as nat == self@.data.len(),
    {
        proof {
            use_type_invariant(self);
        }
        self.length
    }

    /// The four-byte type tag.
    pub fn chunk_type(&self) -> (r: [u8; 4])
        ensures
            r@ == self@.chunk_type,
    {
        self.chunk_type
    }

    /// The payload.
    pub fn data(&self) -> (r: &Vec<u8>)
        ensures
            r@ == self@.data,
    {
        &self.data
    }

    /// The checksum, as it was read; it is never checked nor recomputed.
    pub fn crc(&self) -> (r: [u8; 4])
        ensures
            r@ == self@.crc,
    {
        self.crc
    }

    /// Whether this chunk's type tag is `tag`.
    pub fn has_type(&self, tag: &[u8; 4]) -> (r: bool)
        ensures
            r == (self@.chunk_type == tag@),
    {
        let t = &self.chunk_type;
        let r = t[0] == tag[0] && t[1] == tag[1] && t[2] == tag[2] && t[3] == tag[3];
        assert(r ==> t@ =~= tag@);
        r
    }

    /// Reads the chunk that starts at `pos` in `bytes`: a big-endian length,
    /// a type tag, that many payload bytes and a checksum. Returns the chunk
    /// and the position just after it, or `TruncatedStream` where `bytes`
    /// ends before the chunk does. The payload is copied only once the
    /// length is known to fit in what is left of `bytes`.
    pub fn read_from(bytes: &[u8], pos: usize) -> (r: Result<(PNGChunk, usize), InvalidPNGFormat>)
        requires
            pos <= bytes@.len(),
        ensures
            match parse_chunk(bytes@.subrange(pos as int, bytes@.len() as int)) {
                None => r == Err::<(PNGChunk, usize), InvalidPNGFormat>(
                    InvalidPNGFormat::TruncatedStream,
                ),
                Some(c) => r is Ok && r->Ok_0.0@ == c && r->Ok_0.0@.wf() && r->Ok_0.1 == pos
                    + c.bytes().len(),
            },
    {
        let ghost s = bytes@.subrange(pos as int, bytes@.len() as int);
        let avail = bytes.len() - pos;
        if avail < 8 {
            return Err(InvalidPNGFormat::TruncatedStream);
        }
        let length = read_be_u32(bytes, pos);
        assert(s.subrange(0, 4) =~= bytes@.subrange(pos as int, pos + 4));
        if avail < 12 || avail - 12 < length as usize {
            return Err(InvalidPNGFormat::TruncatedStream);
        }
        let chunk_type = read_tag(bytes, pos + 4);
        let start = pos + 8;
        let end = start + length as usize;
        let mut data: Vec<u8> = Vec::new();
        let mut i: usize = start;
        while i < end
            invariant
                start <= i <= end,
                end + 4 <= bytes@.len(),
                data@ == bytes@.subrange(start as int, i as int),
            decreases end - i,
        {
            data.push(bytes[i]);
            i = i + 1;
            assert(data@ =~= bytes@.subrange(start as int, i as int));
        }
        let crc = read_tag(bytes, end);
        let chunk = PNGChunk { length, chunk_type, data, crc };
        let ghost c = parse_chunk(s)->Some_0;
        assert(chunk@.chunk_type =~= c.chunk_type);
        assert(chunk@.data =~= c.data);
        assert(chunk@.crc =~= c.crc);
        proof {
            lemma_be_u32_round_trip(length);
        }
        Ok((chunk, end + 4))
    }

    /// Appends this chunk's bytes to `out`: the big-endian length, the type
    /// tag, the payload and the checksum, with nothing between them.
    pub fn write_to(&self, out: &mut Vec<u8>)
        ensures
            final(out)@ == old(out)@ + self@.bytes(),
    {
        proof {
            use_type_invariant(self);
        }
        push_be_u32(out, self.length);
        let mut k: usize = 0;
        while k < 4
            invariant
                k <= 4,
                out@ == old(out)@ + be_u32_bytes(self.length) + self.chunk_type@.subrange(0, k as int),
            decreases 4 - k,
        {
            out.push(self.chunk_type[k]);
            k = k + 1;
            assert(out@ =~= old(out)@ + be_u32_bytes(self.length) + self.chunk_type@.subrange(0, k as int));
        }
        let ghost mid = out@;
        assert(self.chunk_type@.subrange(0, 4) =~= self.chunk_type@);
        let mut i: usize = 0;
        while i < self.data.len()
            invariant
                i <= self.data@.len(),
                out@ == mid + self.data@.subrange(0, i as int),
            decreases self.data@.len() - i,
        {
            out.push(self.data[i]);
            i = i + 1;
            assert(out@ =~= mid + self.data@.subrange(0, i as int));
        }
        assert(self.data@.subrange(0, self.data@.len() as int) =~= self.data@);
        let ghost mid2 = out@;
        let mut k: usize = 0;
        while k < 4
            invariant
                k <= 4,
                out@ == mid2 + self.crc@.subrange(0, k as int),
            decreases 4 - k,
        {
            out.push(self.crc[k]);
            k = k + 1;
            assert(out@ =~= mid2 + self.crc@.subrange(0, k as int));
        }
        assert(self.crc@.subrange(0, 4) =~= self.crc@);
        assert(out@ =~= old(out)@ + self@.bytes());
    }
}

/// Reading a well-formed chunk's bytes, followed by anything, gives the chunk back.
pub proof fn lemma_parse_chunk_bytes(c: ChunkModel, rest: Seq<u8>)
    requires
        c.wf(),
    ensures
        parse_chunk(c.bytes() + rest) == Some(c),
        c.bytes().len() == c.data.len() + 12,
{
    let n = c.data.len() as u32;
    lemma_be_u32_round_trip(n);
    let s = c.bytes() + rest;
    assert(s.subrange(0, 4) =~= be_u32_bytes(n));
    assert(s.subrange(4, 8) =~= c.chunk_type);
    assert(s.subrange(8, n + 8) =~= c.data);
    assert(s.subrange(n + 8, n + 12) =~= c.crc);
}

} // verus!
