//! Options of the `index` command, which builds a `.fqi` from FASTQ read on
//! standard input.

use vstd::prelude::*;

verus! {

/// The stride used when none is given.
pub const DEFAULT_NTH: u64 = 100000;

/// Options of the `index` command.
#[derive(Debug, Clone, PartialEq, Eq)]
pub struct Opts {
    /// Where to write the index.
    pub output: String,
    /// Take a checkpoint every `nth` records.
    pub nth: u64,
    /// Do not copy the FASTQ to standard output.
    pub no_stdout: bool,
}

} // verus!
