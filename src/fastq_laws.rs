//! What holds of every index built from a FASTQ stream and of every range
//! query on a well-formed index.

use vstd::prelude::*;
use crate::fastq_index::{
    FastqIndex, FastqIndexEntry, built_entries, checkpoints, first_reaching,
    lemma_sum_sizes_nonneg, range_of, selected_of, sum_sizes, window,
};

verus! {

/// The invariants of a stored index: it starts at the origin, ends at the
/// grand totals, and its record counts strictly increase while its byte
/// counts never decrease.
pub open spec fn entries_well_formed(entries: Seq<FastqIndexEntry>, total: u64) -> bool {
    &&& entries.len() >= 1
    &&& entries[0] == (FastqIndexEntry { total_records: 0, total_bytes: 0 })
    &&& entries.last().total_records == total
    &&& forall|i: int, j: int|
        0 <= i < j < entries.len() ==> #[trigger] entries[i].total_records < #[trigger] entries[j].total_records
    &&& forall|i: int, j: int|
        0 <= i < j < entries.len() ==> #[trigger] entries[i].total_bytes <= #[trigger] entries[j].total_bytes
}

impl FastqIndex {
    pub open spec fn well_formed(&self) -> bool {
        self.nth >= 1 && entries_well_formed(self.entries@, self.total_records)
    }
}

/// Every entry of `entries` records the byte count of the records it counts.
pub open spec fn entries_are_prefix_sums(entries: Seq<FastqIndexEntry>, sizes: Seq<u64>) -> bool {
    forall|k: int|
        0 <= k < entries.len() ==> {
            &&& #[trigger] entries[k].total_records <= sizes.len()
            &&& entries[k].total_bytes == sum_sizes(sizes.take(entries[k].total_records as int))
        }
}

/// The checkpoints lie below the number of records, each records the bytes
/// of the records before it, they increase, and the first is the origin.
proof fn lemma_checkpoints(sizes: Seq<u64>, nth: u64)
    requires
        nth >= 1,
        sum_sizes(sizes) <= u64::MAX,
        sizes.len() <= u64::MAX,
    ensures
        ({
            let c = checkpoints(sizes, nth);
            &&& forall|k: int|
                0 <= k < c.len() ==> {
                    &&& #[trigger] c[k].total_records < sizes.len()
                    &&& c[k].total_bytes == sum_sizes(sizes.take(c[k].total_records as int))
                    &&& c[k].total_bytes <= sum_sizes(sizes)
                }
            &&& forall|i: int, j: int|
                0 <= i < j < c.len() ==> #[trigger] c[i].total_records < #[trigger] c[j].total_records
                    && c[i].total_bytes <= c[j].total_bytes
            &&& sizes.len() > 0 ==> c.len() >= 1 && c[0] == (FastqIndexEntry { total_records: 0, total_bytes: 0 })
        }),
    decreases sizes.len(),
{
    if sizes.len() > 0 {
        let prev = sizes.drop_last();
        let t = prev.len();
        lemma_sum_sizes_nonneg(prev);
        assert(sum_sizes(prev) <= sum_sizes(sizes));
        lemma_checkpoints(prev, nth);
        let rest = checkpoints(prev, nth);
        assert forall|k: int| 0 <= k < rest.len() implies sum_sizes(sizes.take(rest[k].total_records as int))
            == sum_sizes(prev.take(rest[k].total_records as int)) by {
            assert(sizes.take(rest[k].total_records as int) =~= prev.take(rest[k].total_records as int));
        }
        assert(sizes.take(t as int) =~= prev);
        if t == 0 {
            assert(prev =~= Seq::<u64>::empty());
            assert(rest =~= Seq::<FastqIndexEntry>::empty());
        }
    }
}

/// The entries of a built index are well formed and are prefix sums of the
/// record sizes.
pub proof fn lemma_built_entries(sizes: Seq<u64>, nth: u64)
    requires
        nth >= 1,
        sum_sizes(sizes) <= u64::MAX,
        sizes.len() <= u64::MAX,
    ensures
        entries_well_formed(built_entries(sizes, nth), sizes.len() as u64),
        entries_are_prefix_sums(built_entries(sizes, nth), sizes),
{
    lemma_checkpoints(sizes, nth);
    lemma_sum_sizes_nonneg(sizes);
    let c = checkpoints(sizes, nth);
    let e = built_entries(sizes, nth);
    assert(sizes.take(sizes.len() as int) =~= sizes);
    if sizes.len() == 0 {
        assert(c =~= Seq::<FastqIndexEntry>::empty());
        assert(sizes =~= Seq::<u64>::empty());
    }
    assert forall|k: int| 0 <= k < e.len() implies {
        &&& #[trigger] e[k].total_records <= sizes.len()
        &&& e[k].total_bytes == sum_sizes(sizes.take(e[k].total_records as int))
    } by {
        if k < c.len() {
            assert(e[k] == c[k]);
        }
    }
    assert forall|i: int, j: int| 0 <= i < j < e.len() implies #[trigger] e[i].total_records
        < #[trigger] e[j].total_records by {
        assert(e[i] == c[i]);
        if j < c.len() {
            assert(e[j] == c[j]);
        }
    }
    assert forall|i: int, j: int| 0 <= i < j < e.len() implies #[trigger] e[i].total_bytes
        <= #[trigger] e[j].total_bytes by {
        assert(e[i] == c[i]);
        if j < c.len() {
            assert(e[j] == c[j]);
            assert(c[i].total_records < c[j].total_records);
        } else {
            assert(c[i].total_records < sizes.len());
        }
    }
}

/// An index built from any FASTQ stream starts at `(0, 0)` and ends at the
/// number of records and the number of bytes of the stream.
pub proof fn lemma_built_index_prefix_sums(idx: FastqIndex, sizes: Seq<u64>, nth: u64)
    requires
        crate::fastq_index::is_built_from(idx, sizes, nth),
        nth >= 1,
        sum_sizes(sizes) <= u64::MAX,
    ensures
        idx.entries@[0] == (FastqIndexEntry { total_records: 0, total_bytes: 0 }),
        idx.entries@.last() == (FastqIndexEntry {
            total_records: idx.total_records,
            total_bytes: sum_sizes(sizes) as u64,
        }),
        sum_sizes(sizes) == idx.entries@.last().total_bytes,
        idx.well_formed(),
{
    lemma_built_entries(sizes, nth);
    lemma_sum_sizes_nonneg(sizes);
}

proof fn lemma_checkpoints_len_stride_one(sizes: Seq<u64>)
    ensures
        checkpoints(sizes, 1).len() == sizes.len(),
    decreases sizes.len(),
{
    if sizes.len() > 0 {
        lemma_checkpoints_len_stride_one(sizes.drop_last());
    }
}

/// With a stride of one, the index holds one entry more than there are records.
pub proof fn lemma_stride_one_entries(sizes: Seq<u64>)
    ensures
        built_entries(sizes, 1).len() == sizes.len() + 1,
{
    lemma_checkpoints_len_stride_one(sizes);
}

proof fn lemma_checkpoints_len_wide_stride(sizes: Seq<u64>, nth: u64)
    requires
        sizes.len() >= 1,
        nth > sizes.len(),
    ensures
        checkpoints(sizes, nth).len() == 1,
    decreases sizes.len(),
{
    let prev = sizes.drop_last();
    if prev.len() > 0 {
        vstd::arithmetic::div_mod::lemma_small_mod(prev.len(), nth as nat);
        lemma_checkpoints_len_wide_stride(prev, nth);
    } else {
        assert(checkpoints(prev, nth) =~= Seq::<FastqIndexEntry>::empty());
    }
}

/// With a stride beyond the number of records, a non-empty stream gives an
/// index of exactly two entries: the origin and the grand totals.
pub proof fn lemma_wide_stride_entries(sizes: Seq<u64>, nth: u64)
    requires
        sizes.len() >= 1,
        nth > sizes.len(),
    ensures
        built_entries(sizes, nth).len() == 2,
{
    lemma_checkpoints_len_wide_stride(sizes, nth);
}

/// `first_reaching` stops no later than any entry at or after `from` that
/// reaches the target.
proof fn lemma_first_reaching_at_most(s: Seq<FastqIndexEntry>, from: int, target: u64, k: int)
    requires
        0 <= from <= k < s.len(),
        s[k].total_records >= target,
    ensures
        from <= first_reaching(s, from, target) <= k,
        first_reaching(s, from, target) < s.len(),
        s[first_reaching(s, from, target)].total_records >= target,
        forall|m: int| from <= m < first_reaching(s, from, target) ==> #[trigger] s[m].total_records < target,
    decreases k - from,
{
    if s[from].total_records < target {
        lemma_first_reaching_at_most(s, from + 1, target, k);
    }
}

/// For `1 <= start <= end` up to the last entry's record count, the window
/// ends at an entry, its counts do not underflow, and it selects
/// `end - start + 1` records.
proof fn lemma_window_found(entries: Seq<FastqIndexEntry>, start: u64, end: u64)
    requires
        entries.len() >= 1,
        1 <= start <= end <= entries.last().total_records,
    ensures
        ({
            let lo = first_reaching(entries, 0, start);
            let hi = first_reaching(entries, lo, end);
            let last_total: int = if lo == 0 { 0 } else { entries[lo - 1].total_records as int };
            let r = window(entries, start, end);
            &&& 0 <= lo <= hi < entries.len()
            &&& last_total < start
            &&& entries[hi].total_records >= end
            &&& r.leading_records == start - last_total - 1
            &&& r.trailing_records == entries[hi].total_records - end
            &&& r.total_records == entries[hi].total_records - last_total
            &&& r.end_byte == entries[hi].total_bytes
            &&& r.start_byte == (if lo == 0 { 0 } else { entries[lo - 1].total_bytes })
            &&& r.leading_records + r.trailing_records <= r.total_records
            &&& selected_of(r) == end - start + 1
        }),
{
    let last = entries.len() - 1;
    lemma_first_reaching_at_most(entries, 0, start, last);
    let lo = first_reaching(entries, 0, start);
    lemma_first_reaching_at_most(entries, lo, end, last);
    if lo > 0 {
        assert(entries[lo - 1].total_records < start);
    }
}

/// On a well-formed index, a query for `1 <= start <= end <= total_records`
/// selects exactly `end - start + 1` records, and its window does not end
/// before it starts.
pub proof fn lemma_range_selects_requested(idx: FastqIndex, start: u64, end: u64)
    requires
        idx.well_formed(),
        1 <= start <= end <= idx.total_records,
    ensures
        range_of(idx.entries@, idx.total_records, start, end) matches Some(r) && r.leading_records
            + r.trailing_records <= r.total_records && selected_of(r) == end - start + 1
            && r.start_byte <= r.end_byte,
{
    let e = idx.entries@;
    lemma_window_found(e, start, end);
    let lo = first_reaching(e, 0, start);
    let hi = first_reaching(e, lo, end);
    if lo > 0 {
        assert(e[lo - 1].total_bytes <= e[hi].total_bytes);
    }
}

/// A query starting at record 0 is the query starting at record 1.
pub proof fn lemma_range_start_zero(idx: FastqIndex, end: u64)
    ensures
        range_of(idx.entries@, idx.total_records, 0, end) == range_of(idx.entries@, idx.total_records, 1, end),
{
}

/// A query ending past the last record is the query ending at the last record.
pub proof fn lemma_range_end_clamped(idx: FastqIndex, start: u64, end: u64)
    requires
        end > idx.total_records,
    ensures
        range_of(idx.entries@, idx.total_records, start, end) == range_of(
            idx.entries@,
            idx.total_records,
            start,
            idx.total_records,
        ),
{
}

/// A query that ends before it starts, ends before record 1, or starts after
/// the last record has no answer.
pub proof fn lemma_range_none(idx: FastqIndex, start: u64, end: u64)
    requires
        end < start || end < 1 || start > idx.total_records,
    ensures
        range_of(idx.entries@, idx.total_records, start, end) is None,
{
}

/// On an index built from records of the given sizes, the window of a query
/// for `1 <= start <= end <= total_records` begins and ends on record
/// boundaries and holds exactly `total_records` records: its bytes are those
/// of the records `first .. first + total_records`, where `first` is
/// `start - 1 - leading_records`, and these include the requested records.
pub proof fn lemma_window_coverage(sizes: Seq<u64>, nth: u64, start: u64, end: u64)
    requires
        nth >= 1,
        sum_sizes(sizes) <= u64::MAX,
        sizes.len() <= u64::MAX,
        1 <= start <= end <= sizes.len(),
    ensures
        range_of(built_entries(sizes, nth), sizes.len() as u64, start, end) matches Some(r) && {
            let first = start - 1 - r.leading_records;
            &&& 0 <= first
            &&& end <= first + r.total_records <= sizes.len()
            &&& r.start_byte == sum_sizes(sizes.take(first))
            &&& r.end_byte == sum_sizes(sizes.take(first + r.total_records))
        },
{
    let e = built_entries(sizes, nth);
    lemma_built_entries(sizes, nth);
    lemma_window_found(e, start, end);
    let lo = first_reaching(e, 0, start);
    if lo > 0 {
        assert(e[lo - 1].total_records <= sizes.len());
    } else {
        assert(sizes.take(0) =~= Seq::<u64>::empty());
    }
    let hi = first_reaching(e, lo, end);
    assert(e[hi].total_records <= sizes.len());
}

} // verus!
