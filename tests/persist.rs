use fqme::codec::{push_u64_le, read_u64_le, IndexError};
use fqme::fastq_index::{FastqIndex, FastqIndexEntry};

fn sample() -> FastqIndex {
    FastqIndex {
        total_records: 8,
        nth: 3,
        entries: vec![
            FastqIndexEntry { total_records: 0, total_bytes: 0 },
            FastqIndexEntry { total_records: 3, total_bytes: 102 },
            FastqIndexEntry { total_records: 6, total_bytes: 204 },
            FastqIndexEntry { total_records: 8, total_bytes: 272 },
        ],
    }
}

#[test]
fn little_endian_bytes_are_exact() {
    let mut out = vec![9u8];
    push_u64_le(&mut out, 0x0102_0304_0506_0708);
    assert_eq!(out, vec![9, 8, 7, 6, 5, 4, 3, 2, 1]);
    assert_eq!(read_u64_le(&out, 1), 0x0102_0304_0506_0708);
    assert_eq!(read_u64_le(&[0xff; 8], 0), u64::MAX);
}

#[test]
fn persisted_index_has_deterministic_size_and_layout() {
    let bytes = sample().write();
    assert_eq!(bytes.len(), 16 + 16 * 4);
    assert_eq!(&bytes[0..8], &[8, 0, 0, 0, 0, 0, 0, 0]);
    assert_eq!(&bytes[8..16], &[3, 0, 0, 0, 0, 0, 0, 0]);
    assert_eq!(&bytes[16 + 16 * 3..16 + 16 * 3 + 8], &[8, 0, 0, 0, 0, 0, 0, 0]);
    assert_eq!(&bytes[16 + 16 * 3 + 8..], &[16, 1, 0, 0, 0, 0, 0, 0]);
}

#[test]
fn load_after_persist_gives_index_back() {
    let index = sample();
    assert_eq!(FastqIndex::read(&index.write()), Ok(index));
    let big = FastqIndex {
        total_records: u64::MAX,
        nth: 1 << 40,
        entries: vec![FastqIndexEntry { total_records: u64::MAX - 1, total_bytes: 0x8000_0000_0000_0001 }],
    };
    assert_eq!(FastqIndex::read(&big.write()), Ok(big));
    let empty = FastqIndex { total_records: 0, nth: 1, entries: vec![] };
    assert_eq!(FastqIndex::read(&empty.write()), Ok(empty));
}

#[test]
fn load_rejects_short_header_and_partial_entries() {
    let bytes = sample().write();
    assert_eq!(FastqIndex::read(&bytes[..15]), Err(IndexError::UnexpectedEof));
    assert_eq!(FastqIndex::read(&[]), Err(IndexError::UnexpectedEof));
    assert_eq!(FastqIndex::read(&bytes[..bytes.len() - 8]), Err(IndexError::InvalidData));
    assert_eq!(FastqIndex::read(&bytes[..bytes.len() - 1]), Err(IndexError::InvalidData));
}
