//! Measuring how well chunks compress.
use vstd::prelude::*;

use crate::archive::wire;

verus! {

/// Files of at least this length have chunks that long-range matching can help.
pub const LONG_RANGE_THRESHOLD: u64 = 8_388_608;

/// Whether long-range matching can help a file.
pub fn is_eligible(len: u64) -> (b: bool)
    ensures
        b == (len >= LONG_RANGE_THRESHOLD),
{
    len >= LONG_RANGE_THRESHOLD
}

/// Which files are measured: nothing more is taken once enough bytes are.
#[derive(Debug, Clone, Copy, PartialEq, Eq, Structural)]
pub struct Collected {
    /// Bytes taken.
    pub total: u64,
    /// Bytes that are enough.
    pub cap: u64,
}

impl Collected {
    /// Whether enough was taken.
    pub fn is_full(&self) -> (b: bool)
        ensures
            b == (self.total >= self.cap),
    {
        self.total >= self.cap
    }

    /// Takes a file of that length.
    pub fn take(&mut self, len: u64)
        requires
            old(self).total + len <= u64::MAX,
        ensures
            *final(self) == (Collected { total: (old(self).total + len) as u64, ..*old(self) }),
    {
        self.total = self.total + len;
    }
}

/// What was measured so far.
#[derive(Debug, Clone, Copy, PartialEq, Eq, Structural)]
pub struct Measured {
    /// Bytes before compression.
    pub logical: u64,
    /// Bytes after it.
    pub physical: u64,
    /// Files that long-range matching can help.
    pub eligible: u64,
    /// Whether one of those was read back.
    pub checked: bool,
}

impl Measured {
    /// Nothing was measured yet.
    pub fn new() -> (m: Measured)
        ensures
            m == (Measured { logical: 0, physical: 0, eligible: 0, checked: false }),
    {
        Measured { logical: 0, physical: 0, eligible: 0, checked: false }
    }

    /// Begins with a file of that length, and tells whether it is read back: the first one that
    /// long-range matching can help is. Nothing comes of an empty file, which is not measured.
    pub fn begin(&mut self, len: u64) -> (verify: Option<bool>)
        requires
            old(self).eligible < u64::MAX,
        ensures
            len == 0 ==> verify is None && *final(self) == *old(self),
            len > 0 ==> {
                let counts = len >= LONG_RANGE_THRESHOLD;
                &&& verify == Some(counts && !old(self).checked)
                &&& *final(self) == (Measured {
                    eligible: (old(self).eligible + if counts {
                        1int
                    } else {
                        0
                    }) as u64,
                    checked: old(self).checked || counts,
                    ..*old(self)
                })
            },
    {
        if len == 0 {
            return None;
        }
        if !is_eligible(len) {
            return Some(false);
        }
        let verify: bool = !self.checked;
        self.eligible = self.eligible + 1;
        self.checked = true;
        Some(verify)
    }

    /// Adds the bytes of a file before and after compression.
    pub fn add_file(&mut self, logical: u64, physical: u64)
        requires
            old(self).logical + logical <= u64::MAX,
            old(self).physical + physical <= u64::MAX,
        ensures
            *final(self) == (Measured {
                logical: (old(self).logical + logical) as u64,
                physical: (old(self).physical + physical) as u64,
                ..*old(self)
            }),
    {
        self.logical = self.logical + logical;
        self.physical = self.physical + physical;
    }
}

/// The number of chunks of a file.
pub open spec fn chunk_total(len: nat, chunk_size: nat) -> nat {
    (len + chunk_size - 1) as nat / chunk_size
}

/// A chunk of a file; the last one may be shorter.
pub open spec fn chunk_of(content: Seq<u8>, chunk_size: int, i: int) -> Seq<u8> {
    let from = i * chunk_size;
    let to = if from + chunk_size < content.len() {
        from + chunk_size
    } else {
        content.len() as int
    };
    content.subrange(from, to)
}

/// The lengths of the first `n` byte strings together.
pub open spec fn lengths(v: Seq<Vec<u8>>, n: int) -> nat
    decreases n,
{
    if n <= 0 {
        0
    } else {
        lengths(v, n - 1) + v[n - 1]@.len()
    }
}

proof fn lengths_grow(v: Seq<Vec<u8>>, n: int, m: int)
    requires
        0 <= n <= m <= v.len(),
    ensures
        lengths(v, n) <= lengths(v, m),
    decreases m - n,
{
    if n < m {
        lengths_grow(v, n, m - 1);
    }
}

/// The bytes of a file before and after compression. `stored` holds what each chunk was compressed
/// to, and `back`, where it is to be checked, what each of those was decompressed to. The first
/// chunk that did not come back refuses the file; its length is told.
pub fn compress_file(
    content: &[u8],
    chunk_size: usize,
    stored: &Vec<Vec<u8>>,
    back: Option<&Vec<Vec<u8>>>,
) -> (r: Result<(u64, u64), usize>)
    requires
        chunk_size > 0,
        stored@.len() == chunk_total(content@.len(), chunk_size as nat),
        back matches Some(b) ==> b@.len() == stored@.len(),
        lengths(stored@, stored@.len() as int) <= u64::MAX,
    ensures
        match r {
            Ok((logical, physical)) => {
                &&& logical == content@.len()
                &&& physical == lengths(stored@, stored@.len() as int)
                &&& back matches Some(b) ==> forall|i: int|
                    0 <= i < b@.len() ==> (#[trigger] b@[i])@ == chunk_of(
                        content@,
                        chunk_size as int,
                        i,
                    )
            },
            Err(len) => back matches Some(b) && exists|i: int|
                {
                    &&& 0 <= i < b@.len()
                    &&& (#[trigger] b@[i])@ != chunk_of(content@, chunk_size as int, i)
                    &&& len == chunk_of(content@, chunk_size as int, i).len()
                    &&& forall|j: int|
                        0 <= j < i ==> (#[trigger] b@[j])@ == chunk_of(
                            content@,
                            chunk_size as int,
                            j,
                        )
                },
        },
{
    let ghost cs = chunk_size as int;
    let ghost n = content@.len() as int;
    let len: usize = content.len();
    let mut at: usize = 0;
    let mut physical: u64 = 0;
    let mut i: usize = 0;
    proof {
        assert(0 * cs == 0);
        chunk_total_bounds(n, cs);
    }
    while i < stored.len()
        invariant
            cs == chunk_size as int,
            cs > 0,
            n == content@.len(),
            len == n,
            i <= stored@.len(),
            stored@.len() == chunk_total(content@.len(), chunk_size as nat),
            back matches Some(b) ==> b@.len() == stored@.len(),
            lengths(stored@, stored@.len() as int) <= u64::MAX,
            physical == lengths(stored@, i as int),
            at == (if i * cs < n {
                i * cs
            } else {
                n
            }),
            back matches Some(b) ==> forall|j: int|
                0 <= j < i ==> (#[trigger] b@[j])@ == chunk_of(content@, cs, j),
        decreases stored@.len() - i,
    {
        proof {
            chunk_total_bounds(n, cs);
            within(n, cs, i as int);
            lengths_grow(stored@, i + 1, stored@.len() as int);
            assert((i + 1) * cs == i * cs + cs) by (nonlinear_arith);
        }
        let end: usize = if chunk_size < len - at { at + chunk_size } else { len };
        if let Some(b) = back {
            let chunk: Vec<u8> = wire::copy_range(content, at, end);
            assert(chunk@ =~= chunk_of(content@, cs, i as int));
            if !wire::same_bytes(&b[i], &chunk) {
                assert(b@[i as int]@ != chunk_of(content@, cs, i as int));
                return Err(end - at);
            }
        }
        physical = physical + stored[i].len() as u64;
        at = end;
        i = i + 1;
    }
    proof {
        chunk_total_bounds(n, cs);
    }
    Ok((len as u64, physical))
}

proof fn chunk_total_bounds(n: int, cs: int)
    requires
        n >= 0,
        cs > 0,
    ensures
        chunk_total(n as nat, cs as nat) * cs >= n,
        n > 0 ==> (chunk_total(n as nat, cs as nat) - 1) * cs < n,
        n == 0 ==> chunk_total(n as nat, cs as nat) == 0,
{
    let q = chunk_total(n as nat, cs as nat) as int;
    assert(q == (n + cs - 1) / cs);
    assert(q * cs >= n && (n > 0 ==> (q - 1) * cs < n) && (n == 0 ==> q == 0)) by (nonlinear_arith)
        requires
            q == (n + cs - 1) / cs,
            cs > 0,
            n >= 0,
    ;
}

proof fn within(n: int, cs: int, i: int)
    requires
        n >= 0,
        cs > 0,
        0 <= i < chunk_total(n as nat, cs as nat),
    ensures
        0 <= i * cs < n,
{
    chunk_total_bounds(n, cs);
    let q = chunk_total(n as nat, cs as nat) as int;
    assert(i * cs <= (q - 1) * cs && 0 <= i * cs) by (nonlinear_arith)
        requires
            0 <= i <= q - 1,
            cs > 0,
    ;
}

/// The chunks of a file make it up: each byte stands in the chunk that its place falls in, at its
/// place within it; no chunk is empty or longer than a chunk may be.
pub proof fn chunks_make_up_the_file(content: Seq<u8>, cs: int, p: int)
    requires
        cs > 0,
        0 <= p < content.len(),
    ensures
        0 <= p / cs < chunk_total(content.len(), cs as nat),
        0 < chunk_of(content, cs, p / cs).len() <= cs,
        p % cs < chunk_of(content, cs, p / cs).len(),
        chunk_of(content, cs, p / cs)[p % cs] == content[p],
        p / cs < chunk_total(content.len(), cs as nat) - 1 ==> chunk_of(content, cs, p / cs).len()
            == cs,
{
    let n = content.len() as int;
    let q = chunk_total(n as nat, cs as nat) as int;
    chunk_total_bounds(n, cs);
    crate::chunk::block_and_offset_give_place(p, cs);
    let i = p / cs;
    assert(i >= 0) by (nonlinear_arith)
        requires
            i == p / cs,
            p >= 0,
            cs > 0,
    ;
    assert(i < q) by (nonlinear_arith)
        requires
            i * cs <= p,
            p < n,
            q * cs >= n,
            cs > 0,
    ;
    assert(i < q - 1 ==> (i + 1) * cs <= (q - 1) * cs) by (nonlinear_arith)
        requires
            cs > 0,
    ;
    assert((i + 1) * cs == i * cs + cs) by (nonlinear_arith);
    assert(i * cs >= 0) by (nonlinear_arith)
        requires
            i >= 0,
            cs > 0,
    ;
}

/// The lengths of byte strings add up one by one.
pub proof fn lengths_add_up(v: Seq<Vec<u8>>, n: int)
    requires
        0 <= n < v.len(),
    ensures
        lengths(v, 0) == 0,
        lengths(v, n + 1) == lengths(v, n) + v[n]@.len(),
{
}

} // verus!
