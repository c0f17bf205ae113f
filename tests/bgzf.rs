use fqme::bgzf::{block_rest_len, check_block, decompress, footer_values, zero_pad, BgzfError, FooterValues};
use fqme::bgzf_index::BgzfIndexOffset;
use fqme::bgzf_reader::BgzfReader;

const EOF_BLOCK: [u8; 28] = [
    0x1f, 0x8b, 0x08, 0x04, 0, 0, 0, 0, 0, 0xff, 0x06, 0, b'B', b'C', 0x02, 0, 0x1b, 0, 0x03, 0, 0, 0,
    0, 0, 0, 0, 0, 0,
];

fn bgzf_block(data: &[u8]) -> Vec<u8> {
    let mut compressor = libdeflater::Compressor::new(libdeflater::CompressionLvl::default());
    let mut payload = vec![0u8; compressor.deflate_compress_bound(data.len())];
    let n = compressor.deflate_compress(data, &mut payload).unwrap();
    payload.truncate(n);
    let bsize = 18 + n + 8 - 1;
    let mut block = vec![
        0x1f, 0x8b, 8, 4, 0, 0, 0, 0, 0, 0xff, 6, 0, b'B', b'C', 2, 0, (bsize & 0xff) as u8, (bsize >> 8) as u8,
    ];
    block.extend_from_slice(&payload);
    block.extend_from_slice(&libdeflater::crc32(data).to_le_bytes());
    block.extend_from_slice(&(data.len() as u32).to_le_bytes());
    block
}

fn decode(block: &[u8]) -> Result<Vec<u8>, BgzfError> {
    let rest_len = block_rest_len(&block[..18])?;
    let rest = &block[18..18 + rest_len];
    let mut decoder = libdeflater::Decompressor::new();
    decompress(rest, &mut decoder, footer_values(rest))
}

/// Streams a file held in memory the way the command does with a real file.
fn stream(file: &[u8], start_byte: u64, entry: BgzfIndexOffset, num_blocks: usize, chunk: usize) -> Vec<u8> {
    let mut reader = BgzfReader::new(start_byte, entry, num_blocks);
    let mut pos = entry.compressed_offset as usize;
    let mut out = Vec::new();
    loop {
        if reader.bytes_available() == 0 {
            if !reader.needs_block() || pos + 18 > file.len() {
                break;
            }
            let rest_len = block_rest_len(&file[pos..pos + 18]).unwrap();
            reader.load_block(&file[pos + 18..pos + 18 + rest_len]).unwrap();
            pos += 18 + rest_len;
            continue;
        }
        let before = out.len();
        let n = reader.read(&mut out, chunk);
        assert_eq!(out.len() - before, n);
        assert!(n > 0 && n <= chunk);
    }
    out
}

fn two_block_file() -> (Vec<u8>, usize) {
    let first = bgzf_block(b"@r1\nACGT\n+\nIIII\n");
    let second = bgzf_block(b"@r2\nGG\n+\nJJ\n");
    let split = first.len();
    let mut file = first;
    file.extend_from_slice(&second);
    file.extend_from_slice(&EOF_BLOCK);
    (file, split)
}

fn origin() -> BgzfIndexOffset {
    BgzfIndexOffset { compressed_offset: 0, uncompressed_offset: 0 }
}

#[test]
fn eof_block_decodes_to_nothing() {
    assert_eq!(block_rest_len(&EOF_BLOCK[..18]), Ok(10));
    assert_eq!(footer_values(&EOF_BLOCK[18..]), FooterValues { sum: 0, amount: 0 });
    assert_eq!(decode(&EOF_BLOCK), Ok(vec![]));
}

#[test]
fn block_decodes_to_its_payload() {
    let data = b"@read\nGATTACA\n+\nIIIIIII\n".repeat(40);
    let block = bgzf_block(&data);
    assert_eq!(decode(&block), Ok(data.clone()));
    let rest = &block[18..];
    let footer = footer_values(rest);
    assert_eq!(footer.amount as usize, data.len());
    assert_eq!(footer.sum, libdeflater::crc32(&data));
}

#[test]
fn wrong_checksum_is_reported() {
    let mut block = bgzf_block(b"hello");
    let n = block.len();
    let good = libdeflater::crc32(b"hello");
    block[n - 8] ^= 1;
    assert_eq!(decode(&block), Err(BgzfError::InvalidCheck { found: good, expected: good ^ 1 }));
}

#[test]
fn empty_block_with_nonzero_checksum_fails_the_check() {
    let mut block = EOF_BLOCK;
    block[20] = 7;
    assert_eq!(decode(&block), Err(BgzfError::InvalidCheck { found: 0, expected: 7 }));
}

#[test]
fn bad_payload_is_a_decompress_error() {
    let mut rest = vec![0xffu8; 6];
    rest.extend_from_slice(&[0, 0, 0, 0, 5, 0, 0, 0]);
    let mut decoder = libdeflater::Decompressor::new();
    assert_eq!(decompress(&rest, &mut decoder, footer_values(&rest)), Err(BgzfError::DecompressError));
}

#[test]
fn payload_larger_than_isize_is_a_decompress_error() {
    let mut block = bgzf_block(b"hello world");
    let n = block.len();
    block[n - 4] = 3;
    assert_eq!(decode(&block), Err(BgzfError::DecompressError));
}

#[test]
fn bad_headers_are_rejected() {
    let mut header = EOF_BLOCK;
    header[13] = b'X';
    assert_eq!(block_rest_len(&header[..18]), Err(BgzfError::BadHeader));
    let mut header = EOF_BLOCK;
    header[3] = 0;
    assert_eq!(block_rest_len(&header[..18]), Err(BgzfError::BadHeader));
    let mut header = EOF_BLOCK;
    header[16] = 20;
    assert_eq!(block_rest_len(&header[..18]), Err(BgzfError::BadHeader));
    header[16] = 25;
    assert_eq!(block_rest_len(&header[..18]), Ok(8));
    header[16] = 0xff;
    header[17] = 0xff;
    assert_eq!(block_rest_len(&header[..18]), Ok(65536 - 18));
}

#[test]
fn stream_from_start_is_whole_decompressed_file() {
    let (file, _) = two_block_file();
    let all = b"@r1\nACGT\n+\nIIII\n@r2\nGG\n+\nJJ\n".to_vec();
    for chunk in [1, 3, 7, 100] {
        assert_eq!(stream(&file, 0, origin(), usize::MAX, chunk), all);
    }
}

#[test]
fn stream_skips_to_start_byte() {
    let (file, split) = two_block_file();
    assert_eq!(stream(&file, 4, origin(), usize::MAX, 4), b"ACGT\n+\nIIII\n@r2\nGG\n+\nJJ\n".to_vec());
    assert_eq!(stream(&file, 20, origin(), usize::MAX, 4), b"GG\n+\nJJ\n".to_vec());
    let second = BgzfIndexOffset { compressed_offset: split as u64, uncompressed_offset: 16 };
    assert_eq!(stream(&file, 16, second, usize::MAX, 2), b"@r2\nGG\n+\nJJ\n".to_vec());
    assert_eq!(stream(&file, 40, second, usize::MAX, 2), Vec::<u8>::new());
}

#[test]
fn stream_stops_after_block_budget() {
    let (file, _) = two_block_file();
    assert_eq!(stream(&file, 0, origin(), 1, 5), b"@r1\nACGT\n+\nIIII\n".to_vec());
    assert_eq!(stream(&file, 0, origin(), 0, 5), Vec::<u8>::new());
}

#[test]
fn reader_reports_ready_bytes_and_budget() {
    let block = bgzf_block(b"abcdef");
    let mut reader = BgzfReader::new(2, origin(), 3);
    assert!(reader.needs_block());
    assert_eq!(reader.load_block(&block[18..]), Ok(4));
    assert_eq!(reader.bytes_available(), 4);
    assert!(!reader.needs_block());
    let mut out = Vec::new();
    assert_eq!(reader.read(&mut out, 3), 3);
    assert_eq!(out, b"cde".to_vec());
    assert_eq!(reader.read(&mut out, 3), 1);
    assert_eq!(reader.read(&mut out, 3), 0);
    assert_eq!(out, b"cdef".to_vec());
    assert!(reader.needs_block());
}

#[test]
fn failed_block_leaves_reader_unchanged() {
    let mut block = bgzf_block(b"abcdef");
    let n = block.len();
    block[n - 6] ^= 0x10;
    let mut reader = BgzfReader::new(0, origin(), 2);
    assert!(matches!(reader.load_block(&block[18..]), Err(BgzfError::InvalidCheck { .. })));
    assert_eq!(reader.bytes_available(), 0);
    assert!(reader.needs_block());
}

#[test]
fn zero_pad_fills_output_buffer_with_zeros() {
    assert_eq!(zero_pad(vec![1, 2], 5), vec![1, 2, 0, 0, 0]);
    assert_eq!(zero_pad(vec![7], 1), vec![7]);
    assert_eq!(zero_pad(vec![], 0), Vec::<u8>::new());
}

#[test]
fn check_block_compares_found_with_trailer() {
    let footer = FooterValues { sum: 9, amount: 2 };
    assert_eq!(check_block(vec![1, 2], 9, footer), Ok(vec![1, 2]));
    assert_eq!(check_block(vec![1, 2], 8, footer), Err(BgzfError::InvalidCheck { found: 8, expected: 9 }));
}

#[test]
fn header_without_gzip_magic_is_rejected() {
    let mut header = EOF_BLOCK;
    header[0] = 0x1e;
    assert_eq!(block_rest_len(&header[..18]), Err(BgzfError::BadHeader));
    let mut header = EOF_BLOCK;
    header[1] = 0x8a;
    assert_eq!(block_rest_len(&header[..18]), Err(BgzfError::BadHeader));
}

#[test]
fn eof_block_through_reader_leaves_nothing_ready() {
    let mut reader = BgzfReader::new(0, origin(), 2);
    assert_eq!(reader.load_block(&EOF_BLOCK[18..]), Ok(0));
    assert_eq!(reader.bytes_available(), 0);
    assert!(reader.needs_block());
    let mut out = Vec::new();
    assert_eq!(reader.read(&mut out, 10), 0);
}

#[test]
fn skip_past_decoded_block_leaves_nothing_ready() {
    let block = bgzf_block(b"abcdef");
    let mut reader = BgzfReader::new(100, origin(), 1);
    assert_eq!(reader.load_block(&block[18..]), Ok(0));
    assert_eq!(reader.bytes_available(), 0);
    assert!(!reader.needs_block());
    let mut out = Vec::new();
    assert_eq!(reader.read(&mut out, 10), 0);
    assert!(out.is_empty());
}
