//! Reading a byte range of a file that is stored chunk by chunk.
//!
//! A read runs as a session: it says which chunk it needs next, is handed that chunk's bytes,
//! and goes on until the range is complete. Where the bytes come from, and how they are
//! decompressed, is not its business.
use vstd::prelude::*;

use crate::archive::wire;
use crate::chunk;

verus! {

/// The bytes of a chunk, as far as there are any.
pub enum ChunkData {
    /// The open tail of the file, not sealed yet.
    Tail(Vec<u8>),
    /// A stored chunk, decompressed.
    Stored(Vec<u8>),
    /// No chunk is stored there.
    Hole,
}

/// The bytes of a chunk, as far as there are any, as a mathematical value.
#[verifier::ext_equal]
pub enum ChunkView {
    Tail(Seq<u8>),
    Stored(Seq<u8>),
    Hole,
}

impl View for ChunkData {
    type V = ChunkView;

    open spec fn view(&self) -> ChunkView {
        match self {
            ChunkData::Tail(b) => ChunkView::Tail(b@),
            ChunkData::Stored(b) => ChunkView::Stored(b@),
            ChunkData::Hole => ChunkView::Hole,
        }
    }
}

impl ChunkView {
    /// The bytes that there are.
    pub open spec fn bytes(&self) -> Seq<u8> {
        match *self {
            ChunkView::Tail(b) => b,
            ChunkView::Stored(b) => b,
            ChunkView::Hole => Seq::empty(),
        }
    }

    /// The byte at `at` within the chunk: zero where there is none.
    pub open spec fn byte(&self, at: int) -> u8 {
        if 0 <= at < self.bytes().len() {
            self.bytes()[at]
        } else {
            0
        }
    }
}

/// A read of the range `[offset, end)` of a file of `size` bytes in chunks of `chunk_size`.
pub struct ReadSession {
    offset: u64,
    end: u64,
    size: u64,
    chunk_size: u64,
    next: u64,
    last: u64,
    out: Vec<u8>,
}

/// What a read has come to.
#[verifier::ext_equal]
pub struct ReadView {
    /// Start of the range.
    pub offset: u64,
    /// End of the range, within the file.
    pub end: u64,
    /// Length of the file.
    pub size: u64,
    /// Length of a chunk.
    pub chunk_size: u64,
    /// The chunk that is needed next.
    pub next: u64,
    /// The last chunk that is needed.
    pub last: u64,
    /// The bytes so far.
    pub out: Seq<u8>,
}

impl View for ReadSession {
    type V = ReadView;

    closed spec fn view(&self) -> ReadView {
        ReadView {
            offset: self.offset,
            end: self.end,
            size: self.size,
            chunk_size: self.chunk_size,
            next: self.next,
            last: self.last,
            out: self.out@,
        }
    }
}

impl ReadView {
    /// How far the bytes so far reach.
    pub open spec fn reached(&self) -> int {
        let start = self.next * self.chunk_size;
        if start <= self.offset {
            self.offset as int
        } else if start >= self.end {
            self.end as int
        } else {
            start
        }
    }

    /// Start of the part of the next chunk that the range covers, within the chunk.
    pub open spec fn from(&self) -> int {
        self.reached() - self.next * self.chunk_size
    }

    /// End of the part of the next chunk that the range covers, within the chunk.
    pub open spec fn to(&self) -> int {
        let rest = self.end - self.next * self.chunk_size;
        if rest < self.chunk_size {
            rest
        } else {
            self.chunk_size as int
        }
    }

    /// Whether the next chunk is the last one of the file.
    pub open spec fn at_last_chunk(&self) -> bool {
        self.next * self.chunk_size + self.chunk_size >= self.size
    }

    /// Whether the session stands as it should: what is read is what lies before the next chunk.
    pub open spec fn wf(&self) -> bool {
        &&& self.chunk_size > 0
        &&& self.offset < self.end <= self.size
        &&& self.last == (self.end - 1) / self.chunk_size as int
        &&& self.offset as int / self.chunk_size as int <= self.next <= self.last + 1
        &&& self.out.len() == self.reached() - self.offset
    }

    /// Whether the range is complete.
    pub open spec fn complete(&self) -> bool {
        self.next > self.last
    }

    /// Whether the bytes so far are those of `file`.
    pub open spec fn reads(&self, file: spec_fn(int) -> u8) -> bool {
        forall|i: int| 0 <= i < self.out.len() ==> #[trigger] self.out[i] == file(self.offset + i)
    }

    /// Whether the next chunk is stored too short: it holds less than the range asks of it, and
    /// more chunks follow.
    pub open spec fn too_short(&self, data: ChunkView) -> bool {
        data is Stored && data.bytes().len() < self.to() && !self.at_last_chunk()
    }

    /// The part of the next chunk that the range covers; zeros stand for bytes that there are
    /// none of.
    pub open spec fn part(&self, data: ChunkView) -> Seq<u8> {
        Seq::new((self.to() - self.from()) as nat, |i: int| data.byte(self.from() + i))
    }
}

/// The end of a read of `len` bytes at `offset` in a file of `size` bytes.
pub open spec fn read_end(offset: u64, len: u32, size: u64) -> int {
    if offset + len <= size {
        offset + len
    } else {
        size as int
    }
}

/// Places where a chunk that the range covers starts and ends.
proof fn next_chunk_is_covered(v: ReadView)
    requires
        v.wf(),
        !v.complete(),
    ensures
        0 <= v.next * v.chunk_size < v.end,
        v.offset < v.next * v.chunk_size + v.chunk_size,
        0 <= v.from() < v.to() <= v.chunk_size,
        v.next < v.last ==> v.next * v.chunk_size + v.chunk_size < v.end,
        v.next == v.last ==> v.end <= v.next * v.chunk_size + v.chunk_size,
{
    let cs = v.chunk_size as int;
    let first = v.offset as int / cs;
    chunk::block_and_offset_give_place(v.offset as int, cs);
    chunk::block_and_offset_give_place(v.end - 1, cs);
    assert(v.next * cs <= v.last * cs && 0 <= v.next * cs && first * cs <= v.next * cs)
        by (nonlinear_arith)
        requires
            first <= v.next <= v.last,
            0 <= v.next,
            cs > 0,
    ;
    if v.next < v.last {
        assert(v.next * cs + cs <= v.last * cs) by (nonlinear_arith)
            requires
                v.next + 1 <= v.last,
                cs > 0,
        ;
    }
}

/// What a read starts with.
pub enum ReadStart {
    /// The file does not exist.
    NoFile,
    /// There is nothing to read.
    Empty,
    /// The range has bytes.
    Session(ReadSession),
}

impl ReadSession {
    /// Starts a read of `len` bytes at `offset`. `geometry` is the length of the file and of its
    /// chunks.
    pub fn start(geometry: Option<(u64, u32)>, offset: u64, len: u32) -> (r: ReadStart)
        requires
            geometry matches Some((size, chunk_size)) ==> offset < size && len > 0 ==> chunk_size
                > 0,
        ensures
            match geometry {
                None => r is NoFile,
                Some((size, chunk_size)) => if offset >= size || len == 0 {
                    r is Empty
                } else {
                    r matches ReadStart::Session(s) && s@.wf() && s@ == (ReadView {
                        offset,
                        end: read_end(offset, len, size) as u64,
                        size,
                        chunk_size: chunk_size as u64,
                        next: (offset as int / chunk_size as int) as u64,
                        last: ((read_end(offset, len, size) - 1) / chunk_size as int) as u64,
                        out: Seq::empty(),
                    })
                },
            },
    {
        let (size, chunk_size) = match geometry {
            Some(g) => g,
            None => {
                return ReadStart::NoFile;
            },
        };
        if offset >= size || len == 0 {
            return ReadStart::Empty;
        }
        let end: u64 = if len as u64 <= size - offset { offset + len as u64 } else { size };
        let cs: u64 = chunk_size as u64;
        let (first, last) = chunk::block_range(offset, end - offset, cs);
        let s: ReadSession = ReadSession {
            offset,
            end,
            size,
            chunk_size: cs,
            next: first,
            last,
            out: Vec::new(),
        };
        proof {
            chunk::block_and_offset_give_place(offset as int, cs as int);
            vstd::arithmetic::div_mod::lemma_div_is_ordered(offset as int, end - 1, cs as int);
            assert(s@.out =~= Seq::empty());
        }
        ReadStart::Session(s)
    }

    /// The range that is read: where it starts and how long it is.
    pub fn range(&self) -> (r: (u64, u64))
        requires
            self@.wf(),
        ensures
            r.0 == self@.offset,
            r.1 == self@.end - self@.offset,
    {
        (self.offset, self.end - self.offset)
    }

    /// Takes the answer from the head cache: `plain` is the start of the file. `None` where it
    /// does not reach to the end of the range; the chunks then have to answer.
    pub fn from_head(&self, plain: &[u8]) -> (r: Option<Vec<u8>>)
        requires
            self@.wf(),
        ensures
            match r {
                Some(out) => self@.end <= plain@.len() && out@ == plain@.subrange(
                    self@.offset as int,
                    self@.end as int,
                ),
                None => self@.end > plain@.len(),
            },
    {
        if self.end > plain.len() as u64 {
            return None;
        }
        Some(wire::copy_range(plain, self.offset as usize, self.end as usize))
    }

    /// The chunk that is needed next, and whether it lies before the last chunk of the file, so
    /// that its bytes do not change until it is written; `None` once the range is complete.
    pub fn need(&self) -> (r: Option<(u64, bool)>)
        requires
            self@.wf(),
        ensures
            r == (if self@.complete() {
                None
            } else {
                Some((self@.next, self@.next < (self@.size - 1) / self@.chunk_size as int))
            }),
    {
        if self.next > self.last {
            None
        } else {
            Some((self.next, self.next < (self.size - 1) / self.chunk_size))
        }
    }

    /// Takes the bytes of the chunk that is needed next. A stored chunk that is too short is an
    /// input or output error, unless it is the last one of the file, which zeros complete.
    pub fn feed(&mut self, data: &ChunkData) -> (r: Result<(), i32>)
        requires
            old(self)@.wf(),
            !old(self)@.complete(),
        ensures
            match r {
                Ok(_) => {
                    &&& !old(self)@.too_short(data@)
                    &&& final(self)@.wf()
                    &&& final(self)@ == (ReadView {
                        next: (old(self)@.next + 1) as u64,
                        out: old(self)@.out + old(self)@.part(data@),
                        ..old(self)@
                    })
                },
                Err(e) => e == crate::blockio::EIO && old(self)@.too_short(data@) && final(self)@
                    == old(self)@,
            },
    {
        let ghost v = self@;
        proof {
            next_chunk_is_covered(v);
            assert(v.next < u64::MAX) by {
                assert(v.last < u64::MAX) by {
                    assert((v.end - 1) / v.chunk_size as int <= v.end - 1) by (nonlinear_arith)
                        requires
                            v.chunk_size > 0,
                            v.end > 0,
                    ;
                }
            }
            assert((v.next + 1) * v.chunk_size == v.next * v.chunk_size + v.chunk_size)
                by (nonlinear_arith);
        }
        let start: u64 = self.next * self.chunk_size;
        let from: u64 = if start <= self.offset { self.offset - start } else { 0 };
        let to: u64 = if self.end - start < self.chunk_size {
            self.end - start
        } else {
            self.chunk_size
        };
        let empty: Vec<u8> = Vec::new();
        let (bytes, stored): (&Vec<u8>, bool) = match data {
            ChunkData::Tail(b) => (b, false),
            ChunkData::Stored(b) => (b, true),
            ChunkData::Hole => (&empty, false),
        };
        assert(bytes@ =~= data@.bytes());
        if stored && (bytes.len() as u64) < to && self.size - start > self.chunk_size {
            return Err(crate::blockio::EIO);
        }
        let mut at: u64 = from;
        while at < to
            invariant
                from <= at <= to,
                v.wf(),
                bytes@ == data@.bytes(),
                v.from() == from,
                v.to() == to,
                self@ == (ReadView {
                    out: v.out + Seq::new((at - from) as nat, |i: int| data@.byte(from + i)),
                    ..v
                }),
            decreases to - at,
        {
            let ghost before = self.out@;
            if at < bytes.len() as u64 {
                self.out.push(bytes[at as usize]);
            } else {
                self.out.push(0);
            }
            at = at + 1;
            assert(self.out@ =~= v.out + Seq::new(
                (at - from) as nat,
                |i: int| data@.byte(from + i),
            ));
        }
        self.next = self.next + 1;
        assert(self.out@ =~= v.out + v.part(data@));
        Ok(())
    }

    /// The bytes of the range, once it is complete.
    pub fn finish(self) -> (out: Vec<u8>)
        requires
            self@.wf(),
            self@.complete(),
        ensures
            out@ == self@.out,
            out@.len() == self@.end - self@.offset,
    {
        proof {
            let v = self@;
            chunk::block_and_offset_give_place(v.end - 1, v.chunk_size as int);
            assert(v.next * v.chunk_size >= v.last * v.chunk_size + v.chunk_size)
                by (nonlinear_arith)
                requires
                    v.next >= v.last + 1,
                    v.chunk_size > 0,
            ;
        }
        self.out
    }
}

/// A read returns the file's bytes: as long as every chunk that is handed over holds the file's
/// bytes where the range covers it, and zeros stand where the file has none, what is read is what
/// the file holds.
pub proof fn read_returns_file_bytes(
    before: ReadView,
    after: ReadView,
    data: ChunkView,
    file: spec_fn(int) -> u8,
)
    requires
        before.wf(),
        !before.complete(),
        before.reads(file),
        after == (ReadView {
            next: (before.next + 1) as u64,
            out: before.out + before.part(data),
            ..before
        }),
        forall|at: int|
            before.from() <= at < before.to() ==> #[trigger] data.byte(at) == file(
                before.next * before.chunk_size + at,
            ),
    ensures
        after.reads(file),
{
    next_chunk_is_covered(before);
    assert forall|i: int| 0 <= i < after.out.len() implies #[trigger] after.out[i] == file(
        after.offset + i,
    ) by {
        if i >= before.out.len() {
            let at = before.from() + (i - before.out.len());
            assert(after.out[i] == data.byte(at));
            assert(before.next * before.chunk_size + at == after.offset + i);
        }
    }
}

/// A read ends where it was asked to, or at the end of the file where that comes first.
pub proof fn read_ends_within_the_file(offset: u64, len: u32, size: u64)
    ensures
        read_end(offset, len, size) <= size,
        read_end(offset, len, size) <= offset + len,
        read_end(offset, len, size) == size || read_end(offset, len, size) == offset + len,
{
}

/// The part of a chunk that is taken is what the range and the chunk have in common, byte for byte.
pub proof fn part_is_what_range_and_chunk_share(v: ReadView, p: int)
    requires
        v.wf(),
        !v.complete(),
    ensures
        ({
            let start = v.next * v.chunk_size;
            v.from() <= p - start < v.to() <==> v.offset <= p < v.end && start <= p < start
                + v.chunk_size
        }),
{
    next_chunk_is_covered(v);
}

/// What is taken of a chunk is as long as that part, holds the chunk's own bytes as far as it has
/// any, and zeros behind them; a hole is all zeros.
pub proof fn missing_bytes_are_zeros(v: ReadView, data: ChunkView, i: int)
    requires
        v.wf(),
        !v.complete(),
        v.from() <= i < v.to(),
    ensures
        v.part(data).len() == v.to() - v.from(),
        data matches ChunkView::Stored(b) ==> v.part(data)[i - v.from()] == (if i < b.len() {
            b[i]
        } else {
            0
        }),
        data matches ChunkView::Tail(b) ==> v.part(data)[i - v.from()] == (if i < b.len() {
            b[i]
        } else {
            0
        }),
        data is Hole ==> v.part(data)[i - v.from()] == 0,
{
    next_chunk_is_covered(v);
}

/// A chunk is refused only where it is stored with fewer bytes than are asked of it and is not the
/// last one of the file; then it always is. The open tail and a hole never are.
pub proof fn short_chunk_is_refused(v: ReadView, data: ChunkView)
    requires
        v.wf(),
        !v.complete(),
    ensures
        data matches ChunkView::Stored(b) ==> (v.too_short(data) <==> b.len() < v.to() && (v.next
            + 1) * v.chunk_size < v.size),
        !(data is Stored) ==> !v.too_short(data),
{
    assert((v.next + 1) * v.chunk_size == v.next * v.chunk_size + v.chunk_size) by (nonlinear_arith);
}

/// Whether `vs` are the states of a read from its start on, and `ds` the chunks that it was handed,
/// each of which holds the file's bytes.
pub open spec fn handed(
    vs: Seq<ReadView>,
    ds: Seq<ChunkView>,
    file: spec_fn(int) -> u8,
) -> bool {
    &&& vs.len() == ds.len() + 1
    &&& vs[0].out.len() == 0
    &&& forall|k: int| 0 <= k < vs.len() ==> (#[trigger] vs[k]).wf()
    &&& forall|k: int|
        0 <= k < ds.len() ==> {
            let v = vs[k];
            &&& !v.complete()
            &&& vs[k + 1] == (ReadView {
                next: (v.next + 1) as u64,
                out: v.out + v.part(#[trigger] ds[k]),
                ..v
            })
            &&& forall|p: int|
                v.next * v.chunk_size <= p < v.next * v.chunk_size + v.chunk_size && v.offset <= p
                    < v.end ==> #[trigger] ds[k].byte(p - v.next * v.chunk_size) == file(p)
        }
}

proof fn handed_reads(vs: Seq<ReadView>, ds: Seq<ChunkView>, file: spec_fn(int) -> u8, k: int)
    requires
        handed(vs, ds, file),
        0 <= k < vs.len(),
    ensures
        vs[k].reads(file),
        vs[k].offset == vs[0].offset,
        vs[k].end == vs[0].end,
    decreases k,
{
    if k > 0 {
        handed_reads(vs, ds, file, k - 1);
        let v = vs[k - 1];
        assert(!v.complete());
        next_chunk_is_covered(v);
        let d = ds[k - 1];
        assert forall|at: int| v.from() <= at < v.to() implies #[trigger] d.byte(at) == file(
            v.next * v.chunk_size + at,
        ) by {
            let p = v.next * v.chunk_size + at;
            part_is_what_range_and_chunk_share(v, p);
            assert(d.byte(p - v.next * v.chunk_size) == file(p));
        }
        assert(vs[k - 1 + 1] == vs[k]);
        read_returns_file_bytes(v, vs[k], d, file);
    }
}

/// A read that is complete has given the file's bytes from the start of the range to its end, no
/// fewer and no more.
pub proof fn complete_read_is_the_range(
    vs: Seq<ReadView>,
    ds: Seq<ChunkView>,
    file: spec_fn(int) -> u8,
)
    requires
        handed(vs, ds, file),
        vs.last().complete(),
    ensures
        vs.last().out.len() == vs[0].end - vs[0].offset,
        forall|i: int|
            0 <= i < vs.last().out.len() ==> #[trigger] vs.last().out[i] == file(vs[0].offset + i),
{
    let k = vs.len() - 1;
    handed_reads(vs, ds, file, k);
    let v = vs[k];
    chunk::block_and_offset_give_place(v.end - 1, v.chunk_size as int);
    assert(v.next * v.chunk_size >= v.last * v.chunk_size + v.chunk_size) by (nonlinear_arith)
        requires
            v.next >= v.last + 1,
            v.chunk_size > 0,
    ;
}

} // verus!
