//! Sizing of the GPU vertex buffer.
use vstd::prelude::*;
use vstd::arithmetic::power2::{
    lemma2_to64, lemma2_to64_rest, lemma_pow2_pos, lemma_pow2_strictly_increases, lemma_pow2_unfold, pow2,
};

verus! {

/// `p` is the smallest power of two that is at least `size`.
pub open spec fn is_next_pow2(p: int, size: int) -> bool {
    exists|k: nat| p == #[trigger] pow2(k) && p >= size && (k == 0 || pow2((k - 1) as nat) < size)
}

pub open spec fn round_up(v: int, align: int) -> int {
    ((v + align - 1) / align) * align
}

/// The alignment of buffer copy sizes.
pub open spec fn copy_alignment() -> int {
    4
}

/// Relies on `wgpu::COPY_BUFFER_ALIGNMENT`: the alignment that buffer sizes for
/// copies must have, 4 in the wgpu version used.
#[verifier::external_body]
fn copy_buffer_alignment() -> (r: u64)
    ensures
        r == copy_alignment(),
{
    wgpu::COPY_BUFFER_ALIGNMENT
}

/// The size of a buffer made to hold `size` bytes: the next power of two,
/// rounded up to the copy alignment, and at least the alignment.
pub open spec fn copy_buffer_size(size: int) -> int {
    let p = choose|p: int| is_next_pow2(p, size);
    let r = round_up(p, copy_alignment());
    if r >= copy_alignment() { r } else { copy_alignment() }
}

proof fn lemma_next_pow2_unique(p: int, q: int, size: int)
    requires
        is_next_pow2(p, size),
        is_next_pow2(q, size),
    ensures
        p == q,
{
    let kp = choose|k: nat| p == #[trigger] pow2(k) && p >= size && (k == 0 || pow2((k - 1) as nat) < size);
    let kq = choose|k: nat| q == #[trigger] pow2(k) && q >= size && (k == 0 || pow2((k - 1) as nat) < size);
    if kp < kq {
        if kp < (kq - 1) as nat {
            lemma_pow2_strictly_increases(kp, (kq - 1) as nat);
        }
    } else if kq < kp {
        if kq < (kp - 1) as nat {
            lemma_pow2_strictly_increases(kq, (kp - 1) as nat);
        }
    }
}

/// Size of a buffer able to hold `size` bytes, see `copy_buffer_size`.
pub fn next_copy_buffer_size(size: u64) -> (r: u64)
    requires
        size <= 0x8000_0000_0000_0000u64,
    ensures
        r == copy_buffer_size(size as int),
        r >= size,
        r >= copy_alignment(),
{
    let align = copy_buffer_alignment();
    let mut p: u64 = 1;
    let ghost mut k: nat = 0;
    proof {
        lemma2_to64();
    }
    while p < size
        invariant
            p == pow2(k),
            p >= 1,
            p <= 0x8000_0000_0000_0000u64,
            k == 0 || pow2((k - 1) as nat) < size,
            size <= 0x8000_0000_0000_0000u64,
            k <= 63,
        decreases 64 - k,
    {
        proof {
            lemma2_to64_rest();
            if k >= 63 {
                if k > 63 {
                    lemma_pow2_strictly_increases(63, k);
                }
                assert(false);
            }
            if k + 1 < 63 {
                lemma_pow2_strictly_increases(k + 1, 63);
            }
            lemma_pow2_unfold(k + 1);
            k = k + 1;
        }
        p = p * 2;
    }
    proof {
        assert(is_next_pow2(p as int, size as int));
        let q = choose|q: int| is_next_pow2(q, size as int);
        lemma_next_pow2_unique(p as int, q, size as int);
        assert(round_up(p as int, 4) >= p) by (nonlinear_arith)
            requires p >= 0;
    }
    let rounded: u64 = ((p + align - 1) / align) * align;
    if rounded >= align {
        rounded
    } else {
        align
    }
}

/// The capacity of the vertex buffer after a stream of `len` bytes was written to
/// a buffer of capacity `cap`.
pub open spec fn next_capacity(cap: int, len: int) -> int {
    if len <= cap { cap } else { copy_buffer_size(len) }
}

/// How a vertex stream reaches the GPU buffer.
#[derive(Clone, Copy, Debug, PartialEq, Eq, Structural)]
pub enum BufferWrite {
    /// The stream fits: write it at offset 0 of the current buffer.
    InPlace,
    /// The stream does not fit: destroy the buffer and create one of `size` bytes
    /// that holds the stream from creation.
    Recreate { size: u64 },
}

/// The write for a stream of `len` bytes into a buffer of capacity `cap`.
pub open spec fn buffer_write(cap: int, len: int) -> BufferWrite {
    if len <= cap { BufferWrite::InPlace } else { BufferWrite::Recreate { size: copy_buffer_size(len) as u64 } }
}

/// Decides how a stream of `len` bytes is written into a buffer of capacity `cap`,
/// and the capacity afterwards.
pub fn plan_buffer_write(cap: u64, len: u64) -> (r: (BufferWrite, u64))
    requires
        len <= 0x8000_0000_0000_0000u64,
    ensures
        r.0 == buffer_write(cap as int, len as int),
        r.1 == next_capacity(cap as int, len as int),
        r.1 >= len,
        r.1 >= cap,
{
    if len <= cap {
        (BufferWrite::InPlace, cap)
    } else {
        let size = next_copy_buffer_size(len);
        (BufferWrite::Recreate { size }, size)
    }
}

/// Across two successive frames the vertex buffer never shrinks and always holds
/// the stream just written; a stream that fits leaves the capacity unchanged.
pub proof fn lemma_capacity_monotone(cap: u64, len1: u64, len2: u64)
    requires
        len1 <= 0x8000_0000_0000_0000u64,
        len2 <= 0x8000_0000_0000_0000u64,
    ensures
        next_capacity(cap as int, len1 as int) >= cap,
        next_capacity(cap as int, len1 as int) >= len1,
        next_capacity(next_capacity(cap as int, len1 as int), len2 as int) >= next_capacity(
            cap as int,
            len1 as int,
        ),
        next_capacity(next_capacity(cap as int, len1 as int), len2 as int) >= len2,
        len2 <= next_capacity(cap as int, len1 as int) ==> {
            &&& next_capacity(next_capacity(cap as int, len1 as int), len2 as int)
                == next_capacity(cap as int, len1 as int)
            &&& buffer_write(next_capacity(cap as int, len1 as int), len2 as int)
                == BufferWrite::InPlace
        },
{
    lemma_copy_size_holds(len1);
    lemma_copy_size_holds(len2);
}

proof fn lemma_copy_size_holds(len: u64)
    requires
        len <= 0x8000_0000_0000_0000u64,
    ensures
        copy_buffer_size(len as int) >= len,
{
    let q = choose|q: int| is_next_pow2(q, len as int);
    lemma_pow2_exists(len as nat);
    assert(q >= len);
    assert(round_up(q, 4) >= q) by (nonlinear_arith)
        requires q >= 0;
}

proof fn lemma_pow2_exists(size: nat)
    ensures
        exists|p: int| is_next_pow2(p, size as int),
{
    lemma_pow2_reaches(size, 0);
}

proof fn lemma_pow2_reaches(size: nat, k: nat)
    requires
        k == 0 || pow2((k - 1) as nat) < size,
    ensures
        exists|p: int| is_next_pow2(p, size as int),
    decreases (if pow2(k) < size { size - pow2(k) } else { 0int }),
{
    lemma_pow2_pos(k);
    if pow2(k) >= size {
        assert(is_next_pow2(pow2(k) as int, size as int));
    } else {
        lemma_pow2_unfold(k + 1);
        lemma_pow2_reaches(size, k + 1);
    }
}

} // verus!
