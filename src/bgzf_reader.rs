//! The block-streaming reader: decoded BGZF blocks, one at a time, served as
//! a byte stream that starts at a chosen uncompressed offset. The caller
//! reads each block's bytes from the compressed file when the reader asks
//! for them.

use vstd::prelude::*;
use crate::bgzf::{BgzfError, decode_outcome, decompress, footer_of, footer_values};
use crate::bgzf_index::BgzfIndexOffset;

verus! {

/// The reader's state: the decoded bytes of the current block, how far they
/// have been consumed, how many more blocks may be read, and how many
/// bytes are still to be skipped to reach the starting offset.
pub struct BgzfReader {
    decompressor: libdeflater::Decompressor,
    uncompressed_data: Vec<u8>,
    uncompressed_data_index: usize,
    num_blocks_left: usize,
    to_skip: u64,
    decoded: Ghost<Seq<u8>>,
    delivered: Ghost<Seq<u8>>,
    skip_target: Ghost<nat>,
}

impl BgzfReader {
    /// All bytes of the blocks decoded so far, in order.
    pub closed spec fn decoded(&self) -> Seq<u8> {
        self.decoded@
    }

    /// The bytes served so far.
    pub closed spec fn delivered(&self) -> Seq<u8> {
        self.delivered@
    }

    /// The bytes of the current block not yet consumed.
    pub closed spec fn remaining(&self) -> Seq<u8> {
        self.uncompressed_data@.subrange(self.uncompressed_data_index as int, self.uncompressed_data@.len() as int)
    }

    /// How many decoded bytes come before the starting offset.
    pub closed spec fn skip_target(&self) -> nat {
        self.skip_target@
    }

    /// How many more blocks may be decoded.
    pub closed spec fn blocks_left(&self) -> nat {
        self.num_blocks_left as nat
    }

    /// The number of decoded bytes consumed, by skipping or serving them.
    pub closed spec fn consumed(&self) -> int {
        self.decoded@.len() - (self.uncompressed_data@.len() - self.uncompressed_data_index)
    }

    /// The decoded bytes from the starting offset on: none while the bytes
    /// to skip reach past what has been decoded.
    pub open spec fn from_start(&self) -> Seq<u8> {
        let d = self.decoded();
        let k: int = if self.skip_target() < d.len() { self.skip_target() as int } else { d.len() as int };
        d.subrange(k, d.len() as int)
    }

    pub closed spec fn wf(&self) -> bool {
        let pos = self.consumed();
        &&& self.uncompressed_data_index <= self.uncompressed_data@.len() <= self.decoded@.len()
        &&& self.uncompressed_data@ == self.decoded@.subrange(
            self.decoded@.len() - self.uncompressed_data@.len(),
            self.decoded@.len() as int,
        )
        &&& self.to_skip > 0 ==> {
            &&& self.uncompressed_data_index == self.uncompressed_data@.len()
            &&& pos + self.to_skip == self.skip_target@
            &&& self.delivered@ == Seq::<u8>::empty()
        }
        &&& self.to_skip == 0 ==> pos >= self.skip_target@ && self.delivered@ == self.decoded@.subrange(
            self.skip_target@ as int,
            pos,
        )
    }

    /// A reader positioned at the block that starts at `entry`, which will
    /// skip the decoded bytes before `start_byte` and read at most
    /// `num_blocks` blocks. The caller positions the compressed file at
    /// `entry.compressed_offset`.
    pub fn new(start_byte: u64, entry: BgzfIndexOffset, num_blocks: usize) -> (r: BgzfReader)
        ensures
            r.wf(),
            r.delivered() + r.remaining() == r.from_start(),
            r.decoded() == Seq::<u8>::empty(),
            r.delivered() == Seq::<u8>::empty(),
            r.remaining() == Seq::<u8>::empty(),
            r.blocks_left() == num_blocks,
            r.skip_target() == (if entry.uncompressed_offset < start_byte {
                start_byte - entry.uncompressed_offset
            } else {
                0
            }),
    {
        let to_skip: u64 = if entry.uncompressed_offset < start_byte {
            start_byte - entry.uncompressed_offset
        } else {
            0
        };
        let r = BgzfReader {
            decompressor: libdeflater::Decompressor::new(),
            uncompressed_data: Vec::new(),
            uncompressed_data_index: 0,
            num_blocks_left: num_blocks,
            to_skip,
            decoded: Ghost(Seq::empty()),
            delivered: Ghost(Seq::empty()),
            skip_target: Ghost(to_skip as nat),
        };
        assert(r.decoded@.subrange(0, 0) =~= Seq::<u8>::empty());
        assert(r.remaining() =~= Seq::<u8>::empty());
        r
    }

    /// The number of decoded bytes ready to be served.
    pub fn bytes_available(&self) -> (r: usize)
        requires
            self.wf(),
        ensures
            r == self.remaining().len(),
    {
        self.uncompressed_data.len() - self.uncompressed_data_index
    }

    /// Whether the next step is to decode another block: nothing is left of
    /// the current one and the block budget is not spent.
    pub fn needs_block(&self) -> (r: bool)
        requires
            self.wf(),
        ensures
            r == (self.remaining().len() == 0 && self.blocks_left() > 0),
    {
        self.uncompressed_data.len() == self.uncompressed_data_index && self.num_blocks_left > 0
    }

    /// Decodes the next block from `rest`, its bytes after the header, and
    /// makes its bytes current, first skipping what is still to be skipped.
    /// Returns the number of bytes then ready. On an error nothing is decoded.
    pub fn load_block(&mut self, rest: &[u8]) -> (r: Result<usize, BgzfError>)
        requires
            old(self).wf(),
            old(self).remaining().len() == 0,
            old(self).blocks_left() > 0,
            rest@.len() >= 8,
        ensures
            final(self).wf(),
            final(self).delivered() + final(self).remaining() == final(self).from_start(),
            final(self).skip_target() == old(self).skip_target(),
            final(self).delivered() == old(self).delivered(),
            footer_of(rest@).amount == 0 && footer_of(rest@).sum == 0 ==> r == Ok::<usize, BgzfError>(0usize),
            footer_of(rest@).amount == 0 && footer_of(rest@).sum != 0 ==> r is Err,
            match r {
                Ok(n) => {
                    &&& decode_outcome(rest@, footer_of(rest@)) == Ok::<Seq<u8>, BgzfError>(
                        final(self).decoded().subrange(old(self).decoded().len() as int, final(self).decoded().len() as int),
                    )
                    &&& final(self).decoded().subrange(0, old(self).decoded().len() as int) == old(self).decoded()
                    &&& final(self).blocks_left() == old(self).blocks_left() - 1
                    &&& n == final(self).remaining().len()
                },
                Err(e) => {
                    &&& decode_outcome(rest@, footer_of(rest@)) == Err::<Seq<u8>, BgzfError>(e)
                    &&& final(self).decoded() == old(self).decoded()
                    &&& final(self).remaining() == old(self).remaining()
                    &&& final(self).blocks_left() == old(self).blocks_left()
                },
            },
    {
        let footer = footer_values(rest);
        let out = match decompress(rest, &mut self.decompressor, footer) {
            Ok(out) => out,
            Err(e) => {
                return Err(e);
            },
        };
        let ghost old_decoded = self.decoded@;
        let ghost pos = self.consumed();
        let ghost old_to_skip = self.to_skip;
        assert(pos == old_decoded.len());
        let len = out.len();
        let skip: usize = if (len as u64) < self.to_skip { len } else { self.to_skip as usize };
        self.uncompressed_data = out;
        self.uncompressed_data_index = skip;
        self.to_skip = self.to_skip - skip as u64;
        self.num_blocks_left = self.num_blocks_left - 1;
        self.decoded = Ghost(old_decoded + self.uncompressed_data@);
        proof {
            let d = self.decoded@;
            assert(d.subrange(d.len() - self.uncompressed_data@.len(), d.len() as int) =~= self.uncompressed_data@);
            assert(d.subrange(old_decoded.len() as int, d.len() as int) =~= self.uncompressed_data@);
            assert(d.subrange(0, old_decoded.len() as int) =~= old_decoded);
            if old_to_skip == 0 {
                assert(d.subrange(self.skip_target@ as int, self.consumed()) =~= old_decoded.subrange(
                    self.skip_target@ as int,
                    pos,
                ));
            } else if self.to_skip == 0 {
                assert(d.subrange(self.skip_target@ as int, self.consumed()) =~= Seq::<u8>::empty());
            }
        }
        Ok(len - skip)
    }

    /// Serves up to `max` of the ready bytes, appending them to `out`, and
    /// returns how many it served.
    pub fn read(&mut self, out: &mut Vec<u8>, max: usize) -> (r: usize)
        requires
            old(self).wf(),
        ensures
            final(self).wf(),
            final(self).delivered() + final(self).remaining() == final(self).from_start(),
            r == (if max < old(self).remaining().len() { max as int } else { old(self).remaining().len() as int }),
            final(out)@ == old(out)@ + old(self).remaining().take(r as int),
            final(self).delivered() == old(self).delivered() + old(self).remaining().take(r as int),
            final(self).remaining() == old(self).remaining().skip(r as int),
            final(self).decoded() == old(self).decoded(),
            final(self).skip_target() == old(self).skip_target(),
            final(self).blocks_left() == old(self).blocks_left(),
    {
        let ghost rem = self.remaining();
        let ghost out0 = out@;
        let ghost del0 = self.delivered@;
        let available = self.uncompressed_data.len() - self.uncompressed_data_index;
        let n: usize = if max < available { max } else { available };
        let start = self.uncompressed_data_index;
        let mut k: usize = 0;
        while k < n
            invariant
                self.wf(),
                0 <= k <= n,
                n <= rem.len(),
                start + rem.len() == self.uncompressed_data@.len() <= usize::MAX,
                self.uncompressed_data_index == start + k,
                rem == self.uncompressed_data@.subrange(start as int, self.uncompressed_data@.len() as int),
                out@ == out0 + rem.take(k as int),
                self.delivered@ == del0 + rem.take(k as int),
                n > 0 ==> self.to_skip == 0,
                self.decoded == old(self).decoded,
                self.skip_target == old(self).skip_target,
                self.num_blocks_left == old(self).num_blocks_left,
            decreases n - k,
        {
            let b = self.uncompressed_data[self.uncompressed_data_index];
            out.push(b);
            proof {
                let d = self.decoded@;
                let pos = self.consumed();
                assert(d[pos] == b);
                assert(d.subrange(self.skip_target@ as int, pos + 1) =~= d.subrange(self.skip_target@ as int, pos).push(b));
                assert(rem.take(k + 1) =~= rem.take(k as int).push(b));
            }
            self.delivered = Ghost(self.delivered@.push(b));
            self.uncompressed_data_index = self.uncompressed_data_index + 1;
            k = k + 1;
        }
        assert(self.remaining() =~= rem.skip(n as int));
        n
    }
}

/// What has been served, followed by what is ready, is exactly the decoded
/// bytes from the starting offset on; while the offset lies past the
/// decoded bytes, nothing has been served and nothing is ready.
pub proof fn lemma_served_from_start(r: BgzfReader)
    requires
        r.wf(),
    ensures
        r.delivered() + r.remaining() == r.from_start(),
        r.skip_target() >= r.decoded().len() ==> r.delivered().len() == 0 && r.remaining().len() == 0,
{
    assert(r.delivered() + r.remaining() =~= r.from_start());
}

/// Byte conservation: a reader that starts at the beginning of its first
/// block has served, followed by what it holds ready, exactly the bytes of
/// all the blocks it has decoded.
pub proof fn lemma_byte_conservation(r: BgzfReader)
    requires
        r.wf(),
        r.skip_target() == 0,
    ensures
        r.delivered() + r.remaining() == r.decoded(),
{
    assert(r.delivered() + r.remaining() =~= r.decoded());
}

} // verus!
