//! Decoding one BGZF block: its header, its DEFLATE payload, and the CRC32
//! and length in its trailer.

use vstd::prelude::*;
use crate::codec::le_u32_at;

verus! {

#[verifier::external_type_specification]
#[verifier::external_body]
pub struct ExDecompressor(libdeflater::Decompressor);

#[verifier::external_type_specification]
#[verifier::external_body]
pub struct ExDecompressionError(libdeflater::DecompressionError);

#[verifier::external_type_specification]
#[verifier::external_body]
pub struct ExGzpError(gzp::GzpError);

/// Relies on libdeflater's `Decompressor::new`, which allocates a DEFLATE
/// decompressor.
pub assume_specification[ libdeflater::Decompressor::new ]() -> libdeflater::Decompressor;

/// The length of a BGZF block header, up to and including the `BSIZE` field.
pub const HEADER_SIZE: usize = 18;

/// The length of a BGZF block trailer: CRC32, then `ISIZE`.
pub const FOOTER_SIZE: usize = 8;

/// Why a BGZF block could not be decoded.
#[derive(Debug, Clone, Copy, PartialEq, Eq, Structural)]
pub enum BgzfError {
    /// The header lacks the gzip magic bytes, the extra-field flag or the
    /// `BC` subfield, or gives a block too short to hold a header and a
    /// trailer.
    BadHeader,
    /// The payload is not DEFLATE data that fits in `ISIZE` bytes.
    DecompressError,
    /// The CRC32 of the decoded bytes is not the one in the trailer.
    InvalidCheck { found: u32, expected: u32 },
}

/// The trailer of a BGZF block: the CRC32 of the uncompressed bytes, and
/// their number.
#[derive(Debug, Clone, Copy, PartialEq, Eq, Structural)]
pub struct FooterValues {
    pub sum: u32,
    pub amount: u32,
}

/// The header has the extra-field flag set and the subfield identifier `BC`.
pub open spec fn header_ok(h: Seq<u8>) -> bool {
    (h[3] & 4u8) == 4u8 && h[12] == 66u8 && h[13] == 67u8
}

/// The header starts with the gzip magic bytes `1f 8b`.
pub open spec fn magic_ok(h: Seq<u8>) -> bool {
    h[0] == 31u8 && h[1] == 139u8
}

/// The total length of the block that `h` heads: its `BSIZE` field plus one.
pub open spec fn block_size_of(h: Seq<u8>) -> int {
    h[16] as int + 256 * (h[17] as int) + 1
}

/// The trailer at the end of `b`.
pub open spec fn footer_of(b: Seq<u8>) -> FooterValues {
    FooterValues { sum: le_u32_at(b, b.len() - 8), amount: le_u32_at(b, b.len() - 4) }
}

/// What DEFLATE-decoding `data` gives when the output may take at most
/// `capacity` bytes: the decoded bytes, or none when `data` is not valid
/// DEFLATE data or does not fit.
pub uninterp spec fn inflated(data: Seq<u8>, capacity: nat) -> Option<Seq<u8>>;

/// The CRC32 checksum of `data`.
pub uninterp spec fn crc32_of(data: Seq<u8>) -> u32;

/// Relies on gzp's `BlockFormatSpec::check_header` for `Bgzf`: it accepts a
/// header exactly when bit 2 of byte 3 is set and bytes 12 and 13 are `B`
/// and `C`.
#[verifier::external_body]
fn bgzf_header_ok(header: &[u8]) -> (r: bool)
    requires
        header@.len() >= 14,
    ensures
        r == header_ok(header@),
{
    <gzp::deflate::Bgzf as gzp::BlockFormatSpec>::check_header(&gzp::deflate::Bgzf {}, header).is_ok()
}

/// Relies on gzp's `BlockFormatSpec::get_block_size` for `Bgzf`: the
/// little-endian `u16` at bytes 16 and 17, plus one; it never fails.
#[verifier::external_body]
fn bgzf_block_size(header: &[u8]) -> (r: Result<usize, gzp::GzpError>)
    requires
        header@.len() >= 18,
    ensures
        r is Ok,
        r is Ok ==> r->Ok_0 == block_size_of(header@),
{
    <gzp::deflate::Bgzf as gzp::BlockFormatSpec>::get_block_size(&gzp::deflate::Bgzf {}, header)
}

/// Relies on gzp's `BlockFormatSpec::get_footer_values`: the little-endian
/// `u32`s in the last eight bytes, the checksum first.
#[verifier::external_body]
fn bgzf_footer_values(block: &[u8]) -> (r: FooterValues)
    requires
        block@.len() >= 8,
    ensures
        r == footer_of(block@),
{
    let f = <gzp::deflate::Bgzf as gzp::BlockFormatSpec>::get_footer_values(&gzp::deflate::Bgzf {}, block);
    FooterValues { sum: f.sum, amount: f.amount }
}

/// Relies on libdeflater's `Decompressor::deflate_decompress`: decoding
/// depends on the input and the room for output alone, and on success the
/// first bytes of the output, as many as it reports, hold the decoded data.
#[verifier::external_body]
fn deflate_decompress(
    decoder: &mut libdeflater::Decompressor,
    data: &[u8],
    capacity: usize,
) -> (r: Result<Vec<u8>, libdeflater::DecompressionError>)
    ensures
        match r {
            Ok(out) => inflated(data@, capacity as nat) == Some(out@) && out@.len() <= capacity,
            Err(_) => inflated(data@, capacity as nat) is None,
        },
{
    let mut out = vec![0u8; capacity];
    match decoder.deflate_decompress(data, &mut out) {
        Ok(n) => {
            out.truncate(n);
            Ok(out)
        },
        Err(e) => Err(e),
    }
}

/// Relies on libdeflater's `Crc`: starting from 0 and updated with `data`,
/// its sum is the CRC32 of `data`, which is 0 for no bytes.
#[verifier::external_body]
fn crc32(data: &[u8]) -> (r: u32)
    ensures
        r == crc32_of(data@),
        data@.len() == 0 ==> r == 0,
{
    let mut crc = libdeflater::Crc::new();
    crc.update(data);
    crc.sum()
}

/// `s` followed by zeros up to `n` bytes.
pub open spec fn zero_padded(s: Seq<u8>, n: nat) -> Seq<u8> {
    s + Seq::new((n - s.len()) as nat, |i: int| 0u8)
}

/// The uncompressed bytes of a block whose bytes after the header are
/// `rest`: none for an empty block, else the decoded payload (all but the
/// trailer) in an output buffer of `amount` bytes; nothing when decoding fails.
pub open spec fn block_bytes(rest: Seq<u8>, footer: FooterValues) -> Option<Seq<u8>> {
    if footer.amount == 0 {
        Some(Seq::empty())
    } else {
        match inflated(rest.take(rest.len() - 8), footer.amount as nat) {
            Some(v) => Some(zero_padded(v, footer.amount as nat)),
            None => None,
        }
    }
}

/// The outcome of decoding a block: its bytes when their CRC32 is the one in
/// the trailer.
pub open spec fn decode_outcome(rest: Seq<u8>, footer: FooterValues) -> Result<Seq<u8>, BgzfError> {
    match block_bytes(rest, footer) {
        None => Err(BgzfError::DecompressError),
        Some(out) => if crc32_of(out) == footer.sum {
            Ok(out)
        } else {
            Err(BgzfError::InvalidCheck { found: crc32_of(out), expected: footer.sum })
        },
    }
}

/// `v` followed by zeros up to `n` bytes: the output buffer of a block whose
/// payload decoded to `v`.
pub fn zero_pad(v: Vec<u8>, n: usize) -> (r: Vec<u8>)
    requires
        v@.len() <= n,
    ensures
        r@ == zero_padded(v@, n as nat),
{
    let ghost v0 = v@;
    let mut out = v;
    assert(out@ =~= zero_padded(v0, out@.len() as nat));
    while out.len() < n
        invariant
            v0.len() <= out@.len() <= n,
            out@ == zero_padded(v0, out@.len() as nat),
        decreases n - out@.len(),
    {
        out.push(0u8);
        assert(out@ =~= zero_padded(v0, out@.len() as nat));
    }
    out
}

/// Accepts the decoded bytes `out` of a block when `found`, their CRC32, is
/// the checksum in the trailer, and reports the mismatch otherwise.
pub fn check_block(out: Vec<u8>, found: u32, footer: FooterValues) -> (r: Result<Vec<u8>, BgzfError>)
    ensures
        found == footer.sum ==> (r matches Ok(v) && v@ == out@),
        found != footer.sum ==> r == Err::<Vec<u8>, BgzfError>(
            BgzfError::InvalidCheck { found, expected: footer.sum },
        ),
{
    if found != footer.sum {
        return Err(BgzfError::InvalidCheck { found, expected: footer.sum });
    }
    Ok(out)
}

/// Decodes the payload of a block into `footer.amount` bytes and checks
/// them against the trailer's CRC32. `input` holds the block's bytes after
/// its header, trailer included.
pub fn decompress(
    input: &[u8],
    decoder: &mut libdeflater::Decompressor,
    footer: FooterValues,
) -> (r: Result<Vec<u8>, BgzfError>)
    requires
        input@.len() >= 8,
    ensures
        match r {
            Ok(out) => decode_outcome(input@, footer) == Ok::<Seq<u8>, BgzfError>(out@),
            Err(e) => decode_outcome(input@, footer) == Err::<Seq<u8>, BgzfError>(e),
        },
        r matches Ok(out) ==> out@.len() == footer.amount && crc32_of(out@) == footer.sum,
        footer.amount == 0 ==> (r is Ok <==> footer.sum == 0),
        footer.amount == 0 && r is Ok ==> r->Ok_0@.len() == 0,
{
    let mut out: Vec<u8> = Vec::new();
    if footer.amount != 0 {
        let payload = slice_prefix(input, input.len() - 8);
        match deflate_decompress(decoder, payload, footer.amount as usize) {
            Ok(v) => {
                out = zero_pad(v, footer.amount as usize);
            },
            Err(_) => {
                return Err(BgzfError::DecompressError);
            },
        }
    } else {
        assert(out@ =~= Seq::<u8>::empty());
    }
    let found = crc32(out.as_slice());
    check_block(out, found, footer)
}

/// The first `n` bytes of `b`.
fn slice_prefix(b: &[u8], n: usize) -> (r: &[u8])
    requires
        n <= b@.len(),
    ensures
        r@ == b@.take(n as int),
{
    vstd::slice::slice_subrange(b, 0, n)
}

/// How many bytes of the block that `header` heads follow the header, or
/// `BadHeader` when the header lacks the gzip magic bytes, is not a BGZF
/// header, or gives a block too short for a header and a trailer.
pub fn block_rest_len(header: &[u8]) -> (r: Result<usize, BgzfError>)
    requires
        header@.len() == HEADER_SIZE,
    ensures
        match r {
            Ok(n) => magic_ok(header@) && header_ok(header@) && block_size_of(header@) >= HEADER_SIZE
                + FOOTER_SIZE && n == block_size_of(header@) - HEADER_SIZE,
            Err(e) => e == BgzfError::BadHeader && !(magic_ok(header@) && header_ok(header@)
                && block_size_of(header@) >= HEADER_SIZE + FOOTER_SIZE),
        },
{
    if header[0] != 31u8 || header[1] != 139u8 {
        return Err(BgzfError::BadHeader);
    }
    if !bgzf_header_ok(header) {
        return Err(BgzfError::BadHeader);
    }
    match bgzf_block_size(header) {
        Ok(size) => {
            if size < HEADER_SIZE + FOOTER_SIZE {
                Err(BgzfError::BadHeader)
            } else {
                Ok(size - HEADER_SIZE)
            }
        },
        Err(_) => Err(BgzfError::BadHeader),
    }
}

/// Reads the trailer of a block from its bytes after the header.
pub fn footer_values(rest: &[u8]) -> (r: FooterValues)
    requires
        rest@.len() >= 8,
    ensures
        r == footer_of(rest@),
{
    bgzf_footer_values(rest)
}

} // verus!
