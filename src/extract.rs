//! The decisions of the `extract` command: which records were asked for,
//! where in the compressed file to start and how many blocks to read, and
//! which of the records read to emit.

use vstd::prelude::*;
use crate::bgzf_index::{BgzfIndex, BgzfIndexOffset, located};
use crate::fastq_index::{FastqIndex, FastqIndexRange, range_of};

verus! {

/// Options of the `extract` command.
#[derive(Debug, Clone, PartialEq, Eq)]
pub struct Opts {
    /// The BGZF-compressed FASTQ; its indexes are beside it, with `.fqi`
    /// and `.gzi` appended to its name.
    pub input: String,
    /// The first record to emit (1-based).
    pub start: Option<u64>,
    /// The last record to emit (1-based, inclusive).
    pub end: Option<u64>,
}

/// Why the options do not name a record range.
#[derive(Debug, Clone, Copy, PartialEq, Eq, Structural)]
pub enum UsageError {
    /// Neither a start nor an end was given.
    MissingRange,
    /// The start comes after the end.
    StartAfterEnd,
}

/// The records that the options ask for: both bounds when both are given,
/// else the single record given.
pub open spec fn requested(start: Option<u64>, end: Option<u64>) -> Result<(u64, u64), UsageError> {
    let pair: Option<(u64, u64)> = match (start, end) {
        (Some(s), Some(e)) => Some((s, e)),
        (Some(s), None) => Some((s, s)),
        (None, Some(e)) => Some((e, e)),
        (None, None) => None,
    };
    match pair {
        None => Err(UsageError::MissingRange),
        Some((s, e)) => if s <= e {
            Ok((s, e))
        } else {
            Err(UsageError::StartAfterEnd)
        },
    }
}

impl Opts {
    /// The 1-based inclusive record range asked for.
    pub fn record_range(&self) -> (r: Result<(u64, u64), UsageError>)
        ensures
            r == requested(self.start, self.end),
    {
        let (start, end) = match (self.start, self.end) {
            (Some(s), Some(e)) => (s, e),
            (Some(s), None) => (s, s),
            (None, Some(e)) => (e, e),
            (None, None) => {
                return Err(UsageError::MissingRange);
            },
        };
        if start <= end {
            Ok((start, end))
        } else {
            Err(UsageError::StartAfterEnd)
        }
    }
}

/// How to extract a record range: the byte window and trim counts from the
/// `.fqi`, the block to start at and the number of blocks to read from the
/// `.gzi`, and the number of records to emit.
#[derive(Debug, Clone, Copy, PartialEq, Eq, Structural)]
pub struct ExtractPlan {
    pub range: FastqIndexRange,
    pub start_entry: BgzfIndexOffset,
    pub num_blocks: usize,
    pub num_records: u64,
}

/// The number of records in `[start, end]` once clamped to the records of
/// the index.
pub open spec fn clamped_count(total: u64, start: u64, end: u64) -> int {
    let s: int = if start < 1 { 1 } else { start as int };
    let e: int = if total < end { total as int } else { end as int };
    e - s + 1
}

/// Plans the extraction of the 1-based inclusive records `[start, end]`:
/// none when the range holds no record of the index.
pub fn plan(fqi: &FastqIndex, gzi: &BgzfIndex, start: u64, end: u64) -> (r: Option<ExtractPlan>)
    requires
        gzi.entries@.len() >= 1,
    ensures
        match range_of(fqi.entries@, fqi.total_records, start, end) {
            None => r is None,
            Some(range) => r matches Some(p) && {
                let (a, n) = located(gzi.entries@, range.start_byte, range.end_byte);
                &&& p.range == range
                &&& p.start_entry == gzi.entries@[a]
                &&& p.num_blocks == n
                &&& p.num_records == clamped_count(fqi.total_records, start, end)
            },
        },
{
    match fqi.range(start, end) {
        None => None,
        Some(range) => {
            let (start_entry, num_blocks) = gzi.locate(range.start_byte, range.end_byte);
            let s: u64 = if start < 1 { 1 } else { start };
            let e: u64 = if fqi.total_records < end { fqi.total_records } else { end };
            Some(ExtractPlan { range, start_entry, num_blocks, num_records: e - s + 1 })
        },
    }
}

/// Chooses, record by record, which of the records read from the start of
/// the window to emit: it skips `leading` records and then emits `count`.
pub struct RecordSelector {
    leading: u64,
    seen: u64,
    left: u64,
}

impl RecordSelector {
    pub closed spec fn leading(&self) -> u64 {
        self.leading
    }

    /// The number of records looked at so far.
    pub closed spec fn seen(&self) -> u64 {
        self.seen
    }

    /// The number of records still to emit.
    pub closed spec fn left(&self) -> u64 {
        self.left
    }

    /// A selector that skips `leading` records and then emits `count`.
    pub fn new(leading: u64, count: u64) -> (r: RecordSelector)
        ensures
            r.leading() == leading,
            r.seen() == 0,
            r.left() == count,
    {
        RecordSelector { leading, seen: 0, left: count }
    }

    /// Whether every record to emit has been emitted.
    pub fn done(&self) -> (r: bool)
        ensures
            r == (self.left() == 0),
    {
        self.left == 0
    }

    /// Looks at the next record and says whether to emit it: it is emitted
    /// when the leading records are behind and some are still to emit. The
    /// count of records looked at stops at `u64::MAX`.
    pub fn next_record(&mut self) -> (emit: bool)
        ensures
            emit == (old(self).seen() >= old(self).leading() && old(self).left() > 0),
            final(self).leading() == old(self).leading(),
            final(self).seen() == (if old(self).seen() < u64::MAX { old(self).seen() + 1 } else { u64::MAX as int }),
            final(self).left() == (if emit { old(self).left() - 1 } else { old(self).left() as int }),
    {
        let emit = self.seen >= self.leading && self.left > 0;
        if emit {
            self.left = self.left - 1;
        }
        if self.seen < u64::MAX {
            self.seen = self.seen + 1;
        }
        emit
    }
}

} // verus!
