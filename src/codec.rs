//! Fixed-width little-endian unsigned integers, as the index files store them.

use vstd::prelude::*;

verus! {

/// Why stored bytes could not be read back as an index.
#[derive(Debug, Clone, Copy, PartialEq, Eq, Structural)]
pub enum IndexError {
    /// The bytes end before a fixed-size field does.
    UnexpectedEof,
    /// The bytes after the header are not a whole number of entries.
    InvalidData,
}

/// The value of the eight bytes of `b` that start at `pos`, least significant first.
pub open spec fn le_u64_at(b: Seq<u8>, pos: int) -> u64 {
    (b[pos] as u64)
        | ((b[pos + 1] as u64) << 8u64)
        | ((b[pos + 2] as u64) << 16u64)
        | ((b[pos + 3] as u64) << 24u64)
        | ((b[pos + 4] as u64) << 32u64)
        | ((b[pos + 5] as u64) << 40u64)
        | ((b[pos + 6] as u64) << 48u64)
        | ((b[pos + 7] as u64) << 56u64)
}

/// The value of the four bytes of `b` that start at `pos`, least significant first.
pub open spec fn le_u32_at(b: Seq<u8>, pos: int) -> u32 {
    (b[pos] as u32)
        | ((b[pos + 1] as u32) << 8u32)
        | ((b[pos + 2] as u32) << 16u32)
        | ((b[pos + 3] as u32) << 24u32)
}

/// The eight bytes of `v`, least significant first.
pub open spec fn le_bytes(v: u64) -> Seq<u8> {
    seq![
        v as u8,
        (v >> 8u64) as u8,
        (v >> 16u64) as u8,
        (v >> 24u64) as u8,
        (v >> 32u64) as u8,
        (v >> 40u64) as u8,
        (v >> 48u64) as u8,
        (v >> 56u64) as u8,
    ]
}

/// Reads the little-endian `u64` stored at `b[pos..pos + 8]`.
pub fn read_u64_le(b: &[u8], pos: usize) -> (r: u64)
    requires
        pos + 8 <= b@.len(),
    ensures
        r == le_u64_at(b@, pos as int),
{
    (b[pos] as u64)
        | ((b[pos + 1] as u64) << 8u64)
        | ((b[pos + 2] as u64) << 16u64)
        | ((b[pos + 3] as u64) << 24u64)
        | ((b[pos + 4] as u64) << 32u64)
        | ((b[pos + 5] as u64) << 40u64)
        | ((b[pos + 6] as u64) << 48u64)
        | ((b[pos + 7] as u64) << 56u64)
}

/// Appends the eight little-endian bytes of `v` to `out`.
pub fn push_u64_le(out: &mut Vec<u8>, v: u64)
    ensures
        final(out)@ == old(out)@ + le_bytes(v),
{
    out.push(v as u8);
    out.push((v >> 8u64) as u8);
    out.push((v >> 16u64) as u8);
    out.push((v >> 24u64) as u8);
    out.push((v >> 32u64) as u8);
    out.push((v >> 40u64) as u8);
    out.push((v >> 48u64) as u8);
    out.push((v >> 56u64) as u8);
    assert(final(out)@ =~= old(out)@ + le_bytes(v));
}

/// Decoding the eight bytes of an encoded value gives the value back.
pub proof fn lemma_le_round_trip(v: u64)
    ensures
        le_u64_at(le_bytes(v), 0) == v,
{
    let b = le_bytes(v);
    let (b0, b1, b2, b3) = (v as u8, (v >> 8u64) as u8, (v >> 16u64) as u8, (v >> 24u64) as u8);
    let (b4, b5, b6, b7) = ((v >> 32u64) as u8, (v >> 40u64) as u8, (v >> 48u64) as u8, (v >> 56u64) as u8);
    assert(b[0] == b0 && b[1] == b1 && b[2] == b2 && b[3] == b3);
    assert(b[4] == b4 && b[5] == b5 && b[6] == b6 && b[7] == b7);
    assert((b0 as u64) | ((b1 as u64) << 8u64) | ((b2 as u64) << 16u64) | ((b3 as u64) << 24u64)
        | ((b4 as u64) << 32u64) | ((b5 as u64) << 40u64) | ((b6 as u64) << 48u64)
        | ((b7 as u64) << 56u64) == v) by (bit_vector)
        requires
            b0 == v as u8, b1 == (v >> 8u64) as u8, b2 == (v >> 16u64) as u8,
            b3 == (v >> 24u64) as u8, b4 == (v >> 32u64) as u8, b5 == (v >> 40u64) as u8,
            b6 == (v >> 48u64) as u8, b7 == (v >> 56u64) as u8,
    ;
}

/// Bytes in the same place hold the same value: `le_u64_at` reads only its eight bytes.
pub proof fn lemma_le_u64_at_shift(a: Seq<u8>, b: Seq<u8>, pa: int, pb: int)
    requires
        0 <= pa,
        pa + 8 <= a.len(),
        0 <= pb,
        pb + 8 <= b.len(),
        forall|k: int| 0 <= k < 8 ==> #[trigger] a[pa + k] == b[pb + k],
    ensures
        le_u64_at(a, pa) == le_u64_at(b, pb),
{
    assert(a[pa + 0] == b[pb + 0]);
    assert(a[pa + 1] == b[pb + 1]);
    assert(a[pa + 2] == b[pb + 2]);
    assert(a[pa + 3] == b[pb + 3]);
    assert(a[pa + 4] == b[pb + 4]);
    assert(a[pa + 5] == b[pb + 5]);
    assert(a[pa + 6] == b[pb + 6]);
    assert(a[pa + 7] == b[pb + 7]);
}

} // verus!
