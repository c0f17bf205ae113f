//! Random record-level access into BGZF-compressed FASTQ files.
//!
//! The library holds the two indexes (`.fqi` for FASTQ records, `.gzi` for
//! BGZF blocks), the BGZF block decoder, the block-streaming reader that turns
//! decoded blocks into a byte stream, and the decisions of the `index` and
//! `extract` commands. Files, standard input and output, and the FASTQ
//! tokenizer stay with the caller.

pub mod codec;
pub mod fastq_index;
pub mod fastq_laws;
pub mod bgzf_index;
pub mod bgzf;
pub mod bgzf_reader;
pub mod extract;
pub mod index;
