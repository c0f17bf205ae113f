//! The FASTQ record index (`.fqi`): a sparse table of prefix sums from record
//! counts to uncompressed byte counts, how it is built, stored, loaded and
//! queried for a record range.

use vstd::prelude::*;
use crate::codec::{IndexError, le_bytes, le_u64_at, lemma_le_round_trip, lemma_le_u64_at_shift, push_u64_le, read_u64_le};

verus! {

/// A checkpoint of the index: after `total_records` records, `total_bytes`
/// bytes of the FASTQ stream have been consumed.
#[derive(Debug, Clone, Copy, PartialEq, Eq, Hash, Structural)]
pub struct FastqIndexEntry {
    pub total_records: u64,
    pub total_bytes: u64,
}

/// A FASTQ record index: the number of records, the checkpoint stride, and
/// the checkpoints themselves, the first at `(0, 0)` and the last at the
/// grand totals.
#[derive(Debug, Clone, PartialEq, Eq, Hash)]
pub struct FastqIndex {
    pub total_records: u64,
    pub nth: u64,
    pub entries: Vec<FastqIndexEntry>,
}

/// What a range query resolves to: the uncompressed byte window
/// `[start_byte, end_byte)` that covers the requested records, and how many
/// records of the window come before and after them.
#[derive(Debug, Clone, Copy, PartialEq, Eq, Hash, Structural)]
pub struct FastqIndexRange {
    pub start_byte: u64,
    pub end_byte: u64,
    pub leading_records: u64,
    pub trailing_records: u64,
    pub total_records: u64,
}

/// The index of the first entry at or after `from` whose record count is at
/// least `target`, or `s.len()` when there is none.
pub open spec fn first_reaching(s: Seq<FastqIndexEntry>, from: int, target: u64) -> int
    decreases s.len() - from,
{
    if from >= s.len() {
        s.len() as int
    } else if s[from].total_records >= target {
        from
    } else {
        first_reaching(s, from + 1, target)
    }
}

/// The window of the 1-based inclusive records `[start, end]`, for
/// `1 <= start <= end`: it begins at the last checkpoint below `start` (or at
/// the origin) and ends at the first checkpoint at or after `end`.
pub open spec fn window(entries: Seq<FastqIndexEntry>, start: u64, end: u64) -> FastqIndexRange {
    let lo = first_reaching(entries, 0, start);
    let start_byte: u64 = if lo == 0 { 0 } else { entries[lo - 1].total_bytes };
    let last_total: u64 = if lo == 0 { 0 } else { entries[lo - 1].total_records };
    let hi = first_reaching(entries, lo, end);
    if hi < entries.len() {
        FastqIndexRange {
            start_byte,
            end_byte: entries[hi].total_bytes,
            leading_records: (start - last_total - 1) as u64,
            trailing_records: (entries[hi].total_records - end) as u64,
            total_records: (entries[hi].total_records - last_total) as u64,
        }
    } else {
        FastqIndexRange {
            start_byte,
            end_byte: 0,
            leading_records: (start - last_total - 1) as u64,
            trailing_records: 0,
            total_records: 0,
        }
    }
}

/// The answer to a query for the 1-based inclusive records `[start, end]`:
/// none when `end < start`, `end < 1`, or the range begins after the last
/// record; otherwise the window of the range clamped to `[1, total]`.
pub open spec fn range_of(
    entries: Seq<FastqIndexEntry>,
    total: u64,
    start: u64,
    end: u64,
) -> Option<FastqIndexRange> {
    let s: u64 = if start < 1 { 1 } else { start };
    let e: u64 = if total < end { total } else { end };
    if end < start || end < 1 || total < s {
        None
    } else {
        Some(window(entries, s, e))
    }
}

/// The number of requested records in a window.
pub open spec fn selected_of(r: FastqIndexRange) -> int {
    r.total_records - r.leading_records - r.trailing_records
}

/// Scanning forward from `from` past entries below `target` keeps the same answer.
proof fn lemma_first_reaching_step(s: Seq<FastqIndexEntry>, from: int, target: u64)
    requires
        0 <= from < s.len(),
        s[from].total_records < target,
    ensures
        first_reaching(s, from, target) == first_reaching(s, from + 1, target),
{
}

/// The sum of `sizes`.
pub open spec fn sum_sizes(sizes: Seq<u64>) -> int
    decreases sizes.len(),
{
    if sizes.len() == 0 {
        0
    } else {
        sum_sizes(sizes.drop_last()) + sizes.last()
    }
}

/// The checkpoints taken while reading records of the given sizes one by one:
/// before each record whose 0-based ordinal is a multiple of `nth`, the
/// counts seen so far.
pub open spec fn checkpoints(sizes: Seq<u64>, nth: u64) -> Seq<FastqIndexEntry>
    decreases sizes.len(),
{
    if sizes.len() == 0 {
        Seq::empty()
    } else {
        let prev = sizes.drop_last();
        let rest = checkpoints(prev, nth);
        if (prev.len() as int) % (nth as int) == 0 {
            rest.push(FastqIndexEntry { total_records: prev.len() as u64, total_bytes: sum_sizes(prev) as u64 })
        } else {
            rest
        }
    }
}

/// The entries of the index built from records of the given sizes: the
/// checkpoints, then the grand totals.
pub open spec fn built_entries(sizes: Seq<u64>, nth: u64) -> Seq<FastqIndexEntry> {
    checkpoints(sizes, nth).push(
        FastqIndexEntry { total_records: sizes.len() as u64, total_bytes: sum_sizes(sizes) as u64 },
    )
}

/// `idx` is the index built with stride `nth` from records of the given sizes.
pub open spec fn is_built_from(idx: FastqIndex, sizes: Seq<u64>, nth: u64) -> bool {
    &&& idx.total_records == sizes.len()
    &&& idx.nth == nth
    &&& idx.entries@ == built_entries(sizes, nth)
}

/// The stored form of a sequence of entries: for each, its record count and
/// then its byte count, as eight little-endian bytes each.
pub open spec fn encode_entries(s: Seq<FastqIndexEntry>) -> Seq<u8>
    decreases s.len(),
{
    if s.len() == 0 {
        Seq::empty()
    } else {
        encode_entries(s.drop_last()) + le_bytes(s.last().total_records) + le_bytes(s.last().total_bytes)
    }
}

/// The stored form of an index: the number of records, the stride, then the entries.
pub open spec fn encode_index(total: u64, nth: u64, entries: Seq<FastqIndexEntry>) -> Seq<u8> {
    le_bytes(total) + le_bytes(nth) + encode_entries(entries)
}

/// The entries stored in `b`, read sixteen bytes at a time.
pub open spec fn decode_entries(b: Seq<u8>) -> Seq<FastqIndexEntry>
    decreases b.len(),
{
    if b.len() < 16 {
        Seq::empty()
    } else {
        decode_entries(b.take(b.len() - 16)).push(
            FastqIndexEntry {
                total_records: le_u64_at(b, b.len() - 16),
                total_bytes: le_u64_at(b, b.len() - 8),
            },
        )
    }
}

/// `b` is long enough for the header and then holds whole entries.
pub open spec fn has_index_shape(b: Seq<u8>) -> bool {
    b.len() >= 16 && (b.len() - 16) % 16 == 0
}

/// Stored entries take sixteen bytes each.
pub proof fn lemma_encode_entries_len(s: Seq<FastqIndexEntry>)
    ensures
        encode_entries(s).len() == 16 * s.len(),
    decreases s.len(),
{
    if s.len() > 0 {
        lemma_encode_entries_len(s.drop_last());
    }
}

/// Reading stored entries gives the entries back.
pub proof fn lemma_entries_round_trip(s: Seq<FastqIndexEntry>)
    ensures
        decode_entries(encode_entries(s)) == s,
    decreases s.len(),
{
    if s.len() > 0 {
        let p = s.drop_last();
        let a = s.last().total_records;
        let c = s.last().total_bytes;
        let b = encode_entries(s);
        lemma_encode_entries_len(s);
        lemma_encode_entries_len(p);
        lemma_entries_round_trip(p);
        assert(b.take(b.len() - 16) =~= encode_entries(p));
        let n = b.len() - 16;
        assert forall|k: int| 0 <= k < 8 implies #[trigger] b[n + k] == le_bytes(a)[0 + k] by {}
        assert forall|k: int| 0 <= k < 8 implies #[trigger] b[n + 8 + k] == le_bytes(c)[0 + k] by {}
        lemma_le_u64_at_shift(b, le_bytes(a), n, 0);
        lemma_le_u64_at_shift(b, le_bytes(c), n + 8, 0);
        lemma_le_round_trip(a);
        lemma_le_round_trip(c);
        assert(decode_entries(b) =~= s);
    }
}

/// A FASTQ record held by its fields: the header without its leading `@`,
/// the sequence and the quality string.
#[derive(Debug, Clone, PartialEq, Eq)]
pub struct FastqRecord {
    pub head: Vec<u8>,
    pub seq: Vec<u8>,
    pub qual: Vec<u8>,
}

/// The size of a record written back from its fields with a bare `+`
/// separator line: `@`, the header, the sequence, `+`, the quality string,
/// and four newlines.
pub open spec fn estimated_size(rec: FastqRecord) -> int {
    rec.head@.len() + rec.seq@.len() + rec.qual@.len() + 6int
}

/// The estimated sizes of a sequence of records.
pub open spec fn estimated_sizes(records: Seq<FastqRecord>) -> Seq<u64> {
    Seq::new(records.len(), |i: int| estimated_size(records[i]) as u64)
}

/// A sum of sizes grows with the sizes it takes in.
proof fn lemma_sum_sizes_prefix(sizes: Seq<u64>, i: int)
    requires
        0 <= i <= sizes.len(),
    ensures
        0 <= sum_sizes(sizes.take(i)) <= sum_sizes(sizes),
    decreases sizes.len(),
{
    if i < sizes.len() {
        assert(sizes.drop_last().take(i) =~= sizes.take(i));
        lemma_sum_sizes_prefix(sizes.drop_last(), i);
    } else {
        assert(sizes.take(i) =~= sizes);
        lemma_sum_sizes_nonneg(sizes);
    }
}

/// A sum of sizes is never negative.
pub proof fn lemma_sum_sizes_nonneg(sizes: Seq<u64>)
    ensures
        0 <= sum_sizes(sizes),
    decreases sizes.len(),
{
    if sizes.len() > 0 {
        lemma_sum_sizes_nonneg(sizes.drop_last());
    }
}

/// Builds an index one record at a time: the checkpointing of the index
/// builder, apart from reading and measuring the records.
pub struct FastqIndexBuilder {
    nth: u64,
    total_records: u64,
    total_bytes: u64,
    entries: Vec<FastqIndexEntry>,
    sizes: Ghost<Seq<u64>>,
}

impl FastqIndexBuilder {
    /// The sizes of the records added so far, in order.
    pub closed spec fn record_sizes(&self) -> Seq<u64> {
        self.sizes@
    }

    /// The checkpoint stride.
    pub closed spec fn stride(&self) -> u64 {
        self.nth
    }

    pub closed spec fn wf(&self) -> bool {
        &&& self.nth >= 1
        &&& self.total_records == self.sizes@.len()
        &&& self.total_bytes == sum_sizes(self.sizes@)
        &&& self.entries@ == checkpoints(self.sizes@, self.nth)
    }

    /// An empty builder with checkpoint stride `nth`.
    pub fn new(nth: u64) -> (r: FastqIndexBuilder)
        requires
            nth >= 1,
        ensures
            r.wf(),
            r.stride() == nth,
            r.record_sizes() == Seq::<u64>::empty(),
    {
        FastqIndexBuilder {
            nth,
            total_records: 0,
            total_bytes: 0,
            entries: Vec::new(),
            sizes: Ghost(Seq::empty()),
        }
    }

    /// The number of records added so far.
    pub fn total_records(&self) -> (r: u64)
        requires
            self.wf(),
        ensures
            r == self.record_sizes().len(),
    {
        self.total_records
    }

    /// The number of bytes of the records added so far.
    pub fn total_bytes(&self) -> (r: u64)
        requires
            self.wf(),
        ensures
            r == sum_sizes(self.record_sizes()),
    {
        self.total_bytes
    }

    /// Adds a record of `num_bytes` bytes, first taking a checkpoint when the
    /// number of records seen so far is a multiple of the stride.
    pub fn add_record(&mut self, num_bytes: u64)
        requires
            old(self).wf(),
            old(self).record_sizes().len() < u64::MAX,
            sum_sizes(old(self).record_sizes()) + num_bytes <= u64::MAX,
        ensures
            final(self).wf(),
            final(self).stride() == old(self).stride(),
            final(self).record_sizes() == old(self).record_sizes().push(num_bytes),
    {
        let ghost prev = self.sizes@;
        if self.total_records % self.nth == 0 {
            self.entries.push(FastqIndexEntry { total_records: self.total_records, total_bytes: self.total_bytes });
        }
        self.total_records = self.total_records + 1;
        self.total_bytes = self.total_bytes + num_bytes;
        self.sizes = Ghost(prev.push(num_bytes));
        assert(prev.push(num_bytes).drop_last() =~= prev);
    }

    /// The index of the records added: the checkpoints and a final entry
    /// with the grand totals.
    pub fn finish(self) -> (r: FastqIndex)
        requires
            self.wf(),
        ensures
            is_built_from(r, self.record_sizes(), self.stride()),
    {
        let mut entries = self.entries;
        entries.push(FastqIndexEntry { total_records: self.total_records, total_bytes: self.total_bytes });
        FastqIndex { total_records: self.total_records, nth: self.nth, entries }
    }
}

/// Counts the bytes written to it and keeps none of them.
pub struct ByteCountingWriter {
    count: u64,
}

impl ByteCountingWriter {
    /// The number of bytes written since creation or the last reset.
    pub closed spec fn counted(&self) -> u64 {
        self.count
    }

    pub fn new() -> (r: ByteCountingWriter)
        ensures
            r.counted() == 0,
    {
        ByteCountingWriter { count: 0 }
    }

    pub fn count(&self) -> (r: u64)
        ensures
            r == self.counted(),
    {
        self.count
    }

    pub fn reset(&mut self)
        ensures
            final(self).counted() == 0,
    {
        self.count = 0;
    }

    /// Takes in all of `buf`, counting its bytes.
    pub fn write(&mut self, buf: &[u8]) -> (r: usize)
        requires
            old(self).counted() + buf@.len() <= u64::MAX,
        ensures
            r == buf@.len(),
            final(self).counted() == old(self).counted() + buf@.len(),
    {
        self.count = self.count + buf.len() as u64;
        buf.len()
    }

    /// Nothing is held back, so there is nothing to flush.
    pub fn flush(&mut self)
        ensures
            final(self).counted() == old(self).counted(),
    {
    }
}

impl Default for ByteCountingWriter {
    fn default() -> (r: ByteCountingWriter)
        ensures
            r.counted() == 0,
    {
        ByteCountingWriter::new()
    }
}

impl FastqIndex {
    /// Reads an index from its stored form. Fails with `UnexpectedEof` when
    /// the header is cut short and with `InvalidData` when what follows it is
    /// not a whole number of entries.
    pub fn read(data: &[u8]) -> (r: Result<FastqIndex, IndexError>)
        ensures
            match r {
                Ok(idx) => {
                    &&& has_index_shape(data@)
                    &&& idx.total_records == le_u64_at(data@, 0)
                    &&& idx.nth == le_u64_at(data@, 8)
                    &&& idx.entries@ == decode_entries(data@.subrange(16, data@.len() as int))
                },
                Err(e) => {
                    &&& !has_index_shape(data@)
                    &&& e == (if data@.len() < 16 { IndexError::UnexpectedEof } else { IndexError::InvalidData })
                },
            },
    {
        if data.len() < 16 {
            return Err(IndexError::UnexpectedEof);
        }
        if (data.len() - 16) % 16 != 0 {
            return Err(IndexError::InvalidData);
        }
        let total_records = read_u64_le(data, 0);
        let nth = read_u64_le(data, 8);
        let mut entries: Vec<FastqIndexEntry> = Vec::new();
        let mut pos: usize = 16;
        assert(data@.subrange(16, 16) =~= Seq::<u8>::empty());
        while pos < data.len()
            invariant
                16 <= pos <= data@.len(),
                (data@.len() - pos) % 16 == 0,
                entries@ == decode_entries(data@.subrange(16, pos as int)),
            decreases data@.len() - pos,
        {
            let a = read_u64_le(data, pos);
            let b = read_u64_le(data, pos + 8);
            entries.push(FastqIndexEntry { total_records: a, total_bytes: b });
            proof {
                let sub = data@.subrange(16, pos + 16);
                assert(sub.take(sub.len() - 16) =~= data@.subrange(16, pos as int));
                assert forall|k: int| 0 <= k < 8 implies #[trigger] sub[pos - 16 + k] == data@[pos + k] by {}
                assert forall|k: int| 0 <= k < 8 implies #[trigger] sub[pos - 8 + k] == data@[pos + 8 + k] by {}
                lemma_le_u64_at_shift(sub, data@, pos - 16, pos as int);
                lemma_le_u64_at_shift(sub, data@, pos - 8, pos + 8);
            }
            pos = pos + 16;
        }
        Ok(FastqIndex { total_records, nth, entries })
    }

    /// The stored form of the index: `16 + 16 * entries.len()` bytes.
    pub fn write(&self) -> (r: Vec<u8>)
        ensures
            r@ == encode_index(self.total_records, self.nth, self.entries@),
            r@.len() == 16 + 16 * self.entries@.len(),
    {
        let mut out: Vec<u8> = Vec::new();
        push_u64_le(&mut out, self.total_records);
        push_u64_le(&mut out, self.nth);
        let ghost head = le_bytes(self.total_records) + le_bytes(self.nth);
        assert(out@ =~= head + encode_entries(self.entries@.take(0)));
        let mut i: usize = 0;
        while i < self.entries.len()
            invariant
                0 <= i <= self.entries@.len(),
                head == le_bytes(self.total_records) + le_bytes(self.nth),
                out@ == head + encode_entries(self.entries@.take(i as int)),
            decreases self.entries@.len() - i,
        {
            let entry = self.entries[i];
            push_u64_le(&mut out, entry.total_records);
            push_u64_le(&mut out, entry.total_bytes);
            proof {
                let t = self.entries@.take(i + 1);
                assert(t.drop_last() =~= self.entries@.take(i as int));
                assert(out@ =~= head + encode_entries(t));
            }
            i = i + 1;
        }
        assert(self.entries@.take(i as int) =~= self.entries@);
        proof {
            lemma_encode_entries_len(self.entries@);
        }
        out
    }

    /// The size of `rec` when written back from its fields with a bare `+`
    /// line. This undercounts a record whose `+` line carries a comment;
    /// measuring the record as it was read gives its true size.
    pub fn record_to_num_bytes(rec: &FastqRecord) -> (r: u64)
        requires
            estimated_size(*rec) <= u64::MAX,
        ensures
            r == estimated_size(*rec),
    {
        1 + rec.head.len() as u64 + 1 + rec.seq.len() as u64 + 1 + 2 + rec.qual.len() as u64 + 1
    }

    /// The index of `records` with stride `nth`, each record counted at its
    /// estimated size (see `record_to_num_bytes`).
    pub fn from(records: &Vec<FastqRecord>, nth: u64) -> (r: FastqIndex)
        requires
            nth >= 1,
            forall|i: int| 0 <= i < records@.len() ==> estimated_size(#[trigger] records@[i]) <= u64::MAX,
            sum_sizes(estimated_sizes(records@)) <= u64::MAX,
        ensures
            is_built_from(r, estimated_sizes(records@), nth),
    {
        let ghost all = estimated_sizes(records@);
        let mut builder = FastqIndexBuilder::new(nth);
        let mut i: usize = 0;
        assert(all.take(0) =~= Seq::<u64>::empty());
        while i < records.len()
            invariant
                0 <= i <= records@.len(),
                all == estimated_sizes(records@),
                sum_sizes(all) <= u64::MAX,
                forall|k: int| 0 <= k < records@.len() ==> estimated_size(#[trigger] records@[k]) <= u64::MAX,
                builder.wf(),
                builder.stride() == nth,
                builder.record_sizes() == all.take(i as int),
            decreases records@.len() - i,
        {
            let num_bytes = FastqIndex::record_to_num_bytes(&records[i]);
            proof {
                assert(all.take(i as int + 1).drop_last() =~= all.take(i as int));
                lemma_sum_sizes_prefix(all, i as int + 1);
            }
            builder.add_record(num_bytes);
            i = i + 1;
            assert(builder.record_sizes() =~= all.take(i as int));
        }
        assert(all.take(i as int) =~= all);
        builder.finish()
    }

    /// Resolves the 1-based inclusive record range `[start_record, end_record]`
    /// to a byte window and trim counts. A start below 1 is read as 1 and an
    /// end past the last record as the last record.
    pub fn range(&self, start_record: u64, end_record: u64) -> (r: Option<FastqIndexRange>)
        ensures
            r == range_of(self.entries@, self.total_records, start_record, end_record),
    {
        if end_record < start_record || end_record < 1 || self.total_records < start_record {
            return None;
        }
        let start_record: u64 = if start_record < 1 { 1 } else { start_record };
        if self.total_records < start_record {
            return None;
        }
        let end_record: u64 = if self.total_records < end_record { self.total_records } else { end_record };
        let ghost entries = self.entries@;
        let n = self.entries.len();
        let mut start_byte: u64 = 0;
        let mut last_total_records: u64 = 0;
        let mut lo: usize = 0;
        while lo < n && self.entries[lo].total_records < start_record
            invariant
                n == entries.len(),
                entries == self.entries@,
                0 <= lo <= n,
                first_reaching(entries, 0, start_record) == first_reaching(entries, lo as int, start_record),
                lo == 0 ==> start_byte == 0 && last_total_records == 0,
                lo > 0 ==> start_byte == entries[lo - 1].total_bytes
                    && last_total_records == entries[lo - 1].total_records,
                last_total_records < start_record,
            decreases n - lo,
        {
            proof {
                lemma_first_reaching_step(entries, lo as int, start_record);
            }
            start_byte = self.entries[lo].total_bytes;
            last_total_records = self.entries[lo].total_records;
            lo = lo + 1;
        }
        let leading_records = start_record - last_total_records - 1;
        let mut hi: usize = lo;
        while hi < n && self.entries[hi].total_records < end_record
            invariant
                n == entries.len(),
                entries == self.entries@,
                lo <= hi <= n,
                first_reaching(entries, lo as int, end_record) == first_reaching(entries, hi as int, end_record),
            decreases n - hi,
        {
            proof {
                lemma_first_reaching_step(entries, hi as int, end_record);
            }
            hi = hi + 1;
        }
        if hi < n {
            let entry = self.entries[hi];
            proof {
                assert(entry.total_records >= end_record);
            }
            Some(FastqIndexRange {
                start_byte,
                end_byte: entry.total_bytes,
                leading_records,
                trailing_records: entry.total_records - end_record,
                total_records: entry.total_records - last_total_records,
            })
        } else {
            Some(FastqIndexRange {
                start_byte,
                end_byte: 0,
                leading_records,
                trailing_records: 0,
                total_records: 0,
            })
        }
    }
}

impl FastqIndexRange {
    /// The number of records of the window that were asked for.
    pub fn selected_records(self) -> (r: u64)
        requires
            self.leading_records + self.trailing_records <= self.total_records,
        ensures
            r == selected_of(self),
    {
        self.total_records - self.leading_records - self.trailing_records
    }

    /// The length of the byte window.
    pub fn num_bytes(&self) -> (r: u64)
        requires
            self.start_byte <= self.end_byte,
        ensures
            r == self.end_byte - self.start_byte,
    {
        self.end_byte - self.start_byte
    }
}

/// Loading what was persisted gives the index back: the stored form of any
/// index has the shape that `read` accepts, and the header and entries it
/// decodes to are those of the index.
pub proof fn lemma_persist_then_load(idx: FastqIndex)
    ensures
        ({
            let d = encode_index(idx.total_records, idx.nth, idx.entries@);
            &&& has_index_shape(d)
            &&& le_u64_at(d, 0) == idx.total_records
            &&& le_u64_at(d, 8) == idx.nth
            &&& decode_entries(d.subrange(16, d.len() as int)) == idx.entries@
        }),
{
    let d = encode_index(idx.total_records, idx.nth, idx.entries@);
    lemma_encode_entries_len(idx.entries@);
    lemma_entries_round_trip(idx.entries@);
    assert(d.subrange(16, d.len() as int) =~= encode_entries(idx.entries@));
    assert forall|k: int| 0 <= k < 8 implies #[trigger] d[0 + k] == le_bytes(idx.total_records)[0 + k] by {}
    assert forall|k: int| 0 <= k < 8 implies #[trigger] d[8 + k] == le_bytes(idx.nth)[0 + k] by {}
    lemma_le_u64_at_shift(d, le_bytes(idx.total_records), 0, 0);
    lemma_le_u64_at_shift(d, le_bytes(idx.nth), 8, 0);
    lemma_le_round_trip(idx.total_records);
    lemma_le_round_trip(idx.nth);
}

} // verus!
