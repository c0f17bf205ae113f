use fqme::bgzf::block_rest_len;
use fqme::bgzf_index::BgzfIndex;
use fqme::bgzf_reader::BgzfReader;
use fqme::codec::push_u64_le;
use fqme::extract::{plan, RecordSelector};
use fqme::fastq_index::{ByteCountingWriter, FastqIndex, FastqIndexBuilder};

const FASTQ: &[u8] = b"@r1\nACGT\n+\nIIII\n@r2 two\nGATTACA\n+r2 two\nIIIIIII\n@r3\nA\n+\nI\n\
@r4\nTTTTTTTTTT\n+\nJJJJJJJJJJ\n@r5\nCC\n+\nKK\n@r6\nG\n+comment\nL\n@r7\nACGTACGT\n+\nMMMMMMMM\n";

fn records_of(data: &[u8]) -> Vec<Vec<u8>> {
    let mut reader = seq_io::fastq::Reader::new(data);
    let mut out = Vec::new();
    while let Some(result) = reader.next() {
        let mut bytes = Vec::new();
        result.unwrap().write_unchanged(&mut bytes).unwrap();
        out.push(bytes);
    }
    out
}

fn build_fqi(data: &[u8], nth: u64) -> FastqIndex {
    let mut builder = FastqIndexBuilder::new(nth);
    let mut counter = ByteCountingWriter::new();
    for rec in records_of(data) {
        counter.reset();
        counter.write(&rec);
        builder.add_record(counter.count());
    }
    builder.finish()
}

fn bgzf_block(data: &[u8]) -> Vec<u8> {
    let mut compressor = libdeflater::Compressor::new(libdeflater::CompressionLvl::default());
    let mut payload = vec![0u8; compressor.deflate_compress_bound(data.len())];
    let n = compressor.deflate_compress(data, &mut payload).unwrap();
    payload.truncate(n);
    let bsize = 18 + n + 8 - 1;
    let mut block = vec![
        0x1f, 0x8b, 8, 4, 0, 0, 0, 0, 0, 0xff, 6, 0, b'B', b'C', 2, 0, (bsize & 0xff) as u8, (bsize >> 8) as u8,
    ];
    block.extend_from_slice(&payload);
    block.extend_from_slice(&libdeflater::crc32(data).to_le_bytes());
    block.extend_from_slice(&(data.len() as u32).to_le_bytes());
    block
}

/// Compresses `data` in blocks of `block_len` bytes, with an empty block at
/// the end, and returns the file and its `.gzi` contents.
fn compress(data: &[u8], block_len: usize) -> (Vec<u8>, Vec<u8>) {
    let mut file = Vec::new();
    let mut pairs = Vec::new();
    for (i, chunk) in data.chunks(block_len).enumerate() {
        if i > 0 {
            pairs.push((file.len() as u64, (i * block_len) as u64));
        }
        file.extend_from_slice(&bgzf_block(chunk));
    }
    file.extend_from_slice(&bgzf_block(b""));
    let mut gzi = Vec::new();
    push_u64_le(&mut gzi, pairs.len() as u64);
    for (c, u) in pairs {
        push_u64_le(&mut gzi, c);
        push_u64_le(&mut gzi, u);
    }
    (file, gzi)
}

fn extract(file: &[u8], fqi: &FastqIndex, gzi: &BgzfIndex, start: u64, end: u64) -> Vec<u8> {
    let plan = match plan(fqi, gzi, start, end) {
        Some(plan) => plan,
        None => return Vec::new(),
    };
    let mut reader = BgzfReader::new(plan.range.start_byte, plan.start_entry, plan.num_blocks);
    let mut pos = plan.start_entry.compressed_offset as usize;
    let mut bytes = Vec::new();
    loop {
        if reader.bytes_available() == 0 {
            if !reader.needs_block() || pos + 18 > file.len() {
                break;
            }
            let rest_len = block_rest_len(&file[pos..pos + 18]).unwrap();
            reader.load_block(&file[pos + 18..pos + 18 + rest_len]).unwrap();
            pos += 18 + rest_len;
            continue;
        }
        reader.read(&mut bytes, 7);
    }
    let mut selector = RecordSelector::new(plan.range.leading_records, plan.num_records);
    let mut records = seq_io::fastq::Reader::new(&bytes[..]);
    let mut out = Vec::new();
    while !selector.done() {
        let rec = match records.next() {
            Some(result) => result.unwrap(),
            None => break,
        };
        if selector.next_record() {
            rec.write_unchanged(&mut out).unwrap();
        }
    }
    out
}

#[test]
fn extract_emits_exactly_the_requested_records() {
    let records = records_of(FASTQ);
    assert_eq!(records.len(), 7);
    assert_eq!(records.concat(), FASTQ.to_vec());
    for nth in [1u64, 2, 3, 10] {
        let fqi = build_fqi(FASTQ, nth);
        let fqi = FastqIndex::read(&fqi.write()).unwrap();
        for block_len in [9usize, 25, 64, 1000] {
            let (file, gzi_bytes) = compress(FASTQ, block_len);
            let gzi = BgzfIndex::from(&gzi_bytes).unwrap();
            for start in 1..=7u64 {
                for end in start..=7u64 {
                    let expected = records[(start - 1) as usize..end as usize].concat();
                    assert_eq!(extract(&file, &fqi, &gzi, start, end), expected, "nth {nth} block {block_len} [{start}, {end}]");
                }
            }
            assert_eq!(extract(&file, &fqi, &gzi, 0, 100), FASTQ.to_vec());
            assert_eq!(extract(&file, &fqi, &gzi, 8, 9), Vec::<u8>::new());
        }
    }
}

#[test]
fn index_of_stream_measures_records_as_read() {
    let fqi = build_fqi(FASTQ, 3);
    assert_eq!(fqi.total_records, 7);
    assert_eq!(fqi.entries.last().unwrap().total_bytes, FASTQ.len() as u64);
    assert_eq!(fqi.entries.len(), 4);
}
