//! The BGZF block index (`.gzi`): where each BGZF block after the first
//! starts, in the compressed file and in the uncompressed stream.

use vstd::prelude::*;
use crate::codec::{IndexError, le_u64_at, read_u64_le};

verus! {

/// The start of a BGZF block, in the compressed file and in the
/// uncompressed stream.
#[derive(Debug, Clone, Copy, PartialEq, Eq, Structural)]
pub struct BgzfIndexOffset {
    pub compressed_offset: u64,
    pub uncompressed_offset: u64,
}

/// The block starts of a BGZF file, led by the start of the file itself.
pub struct BgzfIndex {
    pub entries: Vec<BgzfIndexOffset>,
}

/// The first `n` pairs stored after the eight-byte count of a `.gzi` file.
pub open spec fn stored_offsets(b: Seq<u8>, n: nat) -> Seq<BgzfIndexOffset>
    decreases n,
{
    if n == 0 {
        Seq::empty()
    } else {
        stored_offsets(b, (n - 1) as nat).push(
            BgzfIndexOffset {
                compressed_offset: le_u64_at(b, 8 + 16 * (n - 1)),
                uncompressed_offset: le_u64_at(b, 16 + 16 * (n - 1)),
            },
        )
    }
}

/// The index of the first entry at or after `from` that starts at or after
/// the uncompressed offset `target`, or `s.len()` when there is none.
pub open spec fn first_at_or_after(s: Seq<BgzfIndexOffset>, from: int, target: u64) -> int
    decreases s.len() - from,
{
    if from >= s.len() {
        s.len() as int
    } else if s[from].uncompressed_offset >= target {
        from
    } else {
        first_at_or_after(s, from + 1, target)
    }
}

/// The last index in `[0, k]` whose entry starts at or before the
/// uncompressed offset `target`, or 0 when there is none.
pub open spec fn last_at_or_before(s: Seq<BgzfIndexOffset>, k: int, target: u64) -> int
    decreases k,
{
    if k <= 0 {
        0
    } else if s[k].uncompressed_offset <= target {
        k
    } else {
        last_at_or_before(s, k - 1, target)
    }
}

/// Which entry to start reading at, and how many blocks to read, to cover
/// the uncompressed bytes `[start_byte, end_byte)`: the entry is the last one
/// starting at or before `start_byte` among those up to the first entry
/// starting at or after `end_byte`, and the count runs from it up to and
/// including that first entry (or to the end of the index).
pub open spec fn located(s: Seq<BgzfIndexOffset>, start_byte: u64, end_byte: u64) -> (int, int) {
    let b = first_at_or_after(s, 0, end_byte);
    let scanned: int = if b < s.len() { b + 1 } else { s.len() as int };
    let a = last_at_or_before(s, scanned - 1, start_byte);
    (a, scanned - a)
}

impl BgzfIndex {
    /// Reads a `.gzi` file's contents: a little-endian count, then that many
    /// pairs of compressed and uncompressed offsets, led in memory by the
    /// start of the file `(0, 0)`. Fails with `UnexpectedEof` when the bytes
    /// end before the count or before the last pair; bytes after it are not
    /// read.
    pub fn from(data: &[u8]) -> (r: Result<BgzfIndex, IndexError>)
        ensures
            match r {
                Ok(idx) => {
                    &&& data@.len() >= 8
                    &&& 8 + 16 * le_u64_at(data@, 0) <= data@.len()
                    &&& idx.entries@ == seq![BgzfIndexOffset { compressed_offset: 0, uncompressed_offset: 0 }]
                        + stored_offsets(data@, le_u64_at(data@, 0) as nat)
                },
                Err(e) => {
                    &&& e == IndexError::UnexpectedEof
                    &&& (data@.len() < 8 || 8 + 16 * le_u64_at(data@, 0) > data@.len())
                },
            },
    {
        if data.len() < 8 {
            return Err(IndexError::UnexpectedEof);
        }
        let count = read_u64_le(data, 0);
        let room: u64 = ((data.len() - 8) / 16) as u64;
        if room < count {
            proof {
                let len = data@.len() as int;
                assert(8 + 16 * count > len) by (nonlinear_arith)
                    requires
                        room == (len - 8) / 16,
                        room < count,
                        len >= 8,
                ;
            }
            return Err(IndexError::UnexpectedEof);
        }
        proof {
            let len = data@.len() as int;
            assert(8 + 16 * count <= len) by (nonlinear_arith)
                requires
                    room == (len - 8) / 16,
                    room >= count,
                    len >= 8,
            ;
        }
        let mut entries: Vec<BgzfIndexOffset> = Vec::new();
        entries.push(BgzfIndexOffset { compressed_offset: 0, uncompressed_offset: 0 });
        let ghost head = seq![BgzfIndexOffset { compressed_offset: 0, uncompressed_offset: 0 }];
        assert(entries@ =~= head + stored_offsets(data@, 0));
        let mut i: u64 = 0;
        let mut pos: usize = 8;
        while i < count
            invariant
                0 <= i <= count,
                8 + 16 * count <= data@.len() <= usize::MAX,
                pos == 8 + 16 * i,
                head == seq![BgzfIndexOffset { compressed_offset: 0, uncompressed_offset: 0 }],
                entries@ == head + stored_offsets(data@, i as nat),
            decreases count - i,
        {
            proof {
                let len = data@.len() as int;
                assert(pos + 16 <= len) by (nonlinear_arith)
                    requires
                        8 + 16 * count <= len,
                        pos == 8 + 16 * i,
                        i < count,
                ;
            }
            let compressed_offset = read_u64_le(data, pos);
            let uncompressed_offset = read_u64_le(data, pos + 8);
            entries.push(BgzfIndexOffset { compressed_offset, uncompressed_offset });
            i = i + 1;
            pos = pos + 16;
            assert(entries@ =~= head + stored_offsets(data@, i as nat));
        }
        Ok(BgzfIndex { entries })
    }

    /// Finds where to start reading, and how many blocks to read, to cover
    /// the uncompressed bytes `[start_byte, end_byte)`; see `located`.
    pub fn locate(&self, start_byte: u64, end_byte: u64) -> (r: (BgzfIndexOffset, usize))
        requires
            self.entries@.len() >= 1,
        ensures
            ({
                let (a, n) = located(self.entries@, start_byte, end_byte);
                r.0 == self.entries@[a] && r.1 == n
            }),
    {
        let ghost s = self.entries@;
        let mut start_entry = self.entries[0];
        let mut a: usize = 0;
        let mut num_blocks: usize = 0;
        let mut i: usize = 0;
        let mut found = false;
        while i < self.entries.len() && !found
            invariant
                s == self.entries@,
                s.len() >= 1,
                0 <= a < s.len(),
                a <= i <= s.len(),
                start_entry == s[a as int],
                num_blocks == i - a,
                i == 0 ==> a == 0,
                i > 0 ==> a == last_at_or_before(s, i - 1, start_byte),
                !found ==> first_at_or_after(s, 0, end_byte) == first_at_or_after(s, i as int, end_byte),
                found ==> i >= 1 && first_at_or_after(s, 0, end_byte) == i - 1,
            decreases s.len() - i,
        {
            let entry = self.entries[i];
            if entry.uncompressed_offset <= start_byte {
                start_entry = entry;
                a = i;
                num_blocks = 0;
            }
            num_blocks = num_blocks + 1;
            if entry.uncompressed_offset >= end_byte {
                found = true;
            }
            i = i + 1;
        }
        (start_entry, num_blocks)
    }
}

} // verus!
