//! The dump format: a header of 19 bytes, then the payload, compressed as
//! the header says.
//!
//! ```text
//! offset  size  field
//! 0       4     magic "BZA1"
//! 4       1     version (1)
//! 5       1     algorithm (0 none, 1 lz4, 2 deflate, 3 zstd)
//! 6       1     reserved (0)
//! 7       8     length of the payload before compression, little-endian
//! 15      4     CRC32 of the payload before compression, little-endian
//! 19      ..    the payload
//! ```
//!
//! An LZ4 payload is one block of at most `LZ4_MAX_PAYLOAD` bytes, and the
//! length in its header is at most 255 times the length of the block.

use crate::codec::{decode_entries, encode_entries, entries_bytes, parse_entries};
use crate::error::DumpError;
use crate::storage::{entry_views, StorageEntry};
use flate2::read::GzDecoder;
use flate2::write::GzEncoder;
use flate2::Compression;
use std::io::{Read, Write};
use vstd::bytes::{
    lemma_auto_spec_u32_to_from_le_bytes, lemma_auto_spec_u64_to_from_le_bytes,
    spec_u32_from_le_bytes, spec_u32_to_le_bytes, spec_u64_from_le_bytes, spec_u64_to_le_bytes,
    u32_from_le_bytes, u32_to_le_bytes, u64_from_le_bytes, u64_to_le_bytes,
};
use vstd::prelude::*;
use vstd::slice::{slice_subrange, slice_to_vec};

verus! {

/// The version this codec writes and reads.
pub const VERSION: u8 = 1;

/// Bytes of the header.
pub const HEADER_LEN: usize = 19;

/// The level at which zstd compresses.
pub const ZSTD_LEVEL: i32 = 3;

/// The most bytes an LZ4 payload may have. The LZ4 decoder adds lengths up
/// in 32 bits, at most 255 to each byte it reads and on top of what it has
/// written; within this limit no such sum runs over.
pub const LZ4_MAX_PAYLOAD: usize = 8_421_504;

/// The four bytes that open every dump: `BZA1`.
pub open spec fn magic() -> Seq<u8> {
    seq![0x42u8, 0x5Au8, 0x41u8, 0x31u8]
}

/// How the payload of a dump is compressed.
#[derive(Debug, Clone, Copy, PartialEq, Eq, Structural)]
pub enum Algorithm {
    Uncompressed,
    Lz4,
    Deflate,
    Zstd,
}

impl Algorithm {
    /// The byte that stands for the algorithm in a header.
    pub open spec fn code_spec(self) -> u8 {
        match self {
            Algorithm::Uncompressed => 0,
            Algorithm::Lz4 => 1,
            Algorithm::Deflate => 2,
            Algorithm::Zstd => 3,
        }
    }

    /// The byte that stands for the algorithm in a header.
    pub fn code(self) -> (c: u8)
        ensures
            c == self.code_spec(),
    {
        match self {
            Algorithm::Uncompressed => 0,
            Algorithm::Lz4 => 1,
            Algorithm::Deflate => 2,
            Algorithm::Zstd => 3,
        }
    }

    /// The algorithm a byte stands for; a byte that stands for none reads
    /// as no compression.
    pub open spec fn of_code(v: u8) -> Algorithm {
        if v == 1 {
            Algorithm::Lz4
        } else if v == 2 {
            Algorithm::Deflate
        } else if v == 3 {
            Algorithm::Zstd
        } else {
            Algorithm::Uncompressed
        }
    }
}

impl From<u8> for Algorithm {
    fn from(v: u8) -> (a: Algorithm) {
        match v {
            1 => Algorithm::Lz4,
            2 => Algorithm::Deflate,
            3 => Algorithm::Zstd,
            _ => Algorithm::Uncompressed,
        }
    }
}

impl vstd::std_specs::convert::FromSpecImpl<u8> for Algorithm {
    open spec fn obeys_from_spec() -> bool {
        true
    }

    open spec fn from_spec(v: u8) -> Algorithm {
        Algorithm::of_code(v)
    }
}

/// The CRC32 (IEEE) checksum of `data`.
pub uninterp spec fn crc32(data: Seq<u8>) -> u32;

/// What the LZ4 block `data` expands to in a buffer of `size` bytes, or
/// nothing where it is no block or needs more room.
pub uninterp spec fn lz4_decompressed(data: Seq<u8>, size: nat) -> Option<Seq<u8>>;

/// `data` as a gzip stream at the default level, or nothing where the
/// encoder fails.
pub uninterp spec fn gzip_compressed(data: Seq<u8>) -> Option<Seq<u8>>;

/// What the gzip stream `data` expands to, or nothing where it is none.
pub uninterp spec fn gzip_decompressed(data: Seq<u8>) -> Option<Seq<u8>>;

/// `data` as a zstd frame at `level`, or nothing where the encoder fails.
pub uninterp spec fn zstd_compressed(data: Seq<u8>, level: int) -> Option<Seq<u8>>;

/// What the zstd frames `data` expand to, or nothing where they are none.
pub uninterp spec fn zstd_decompressed(data: Seq<u8>) -> Option<Seq<u8>>;

/// `crc32fast::hash`: the CRC32 checksum of `data`.
#[verifier::external_body]
fn checksum(data: &[u8]) -> (c: u32)
    ensures
        c == crc32(data@),
{
    crc32fast::hash(data)
}

/// `lz4_flex::compress`: `data` as one LZ4 block. Which block it is depends
/// on the machine, so nothing is said of its bytes but that
/// `lz4_flex::decompress` with room for as many bytes as `data` has gives
/// `data` back. The compressor sizes its buffer at 110 bytes to each 100 of
/// `data`, a product that must fit, and the decoder adds lengths up in 32
/// bits, so `data` is kept within both.
#[verifier::external_body]
fn lz4_encode(data: &[u8]) -> (out: Vec<u8>)
    requires
        110 * data@.len() <= usize::MAX,
        data@.len() <= u32::MAX,
    ensures
        lz4_decompressed(out@, data@.len()) == Some(data@),
{
    lz4_flex::compress(data)
}

/// `lz4_flex::decompress` into a buffer of `size` bytes, which it allocates:
/// what the block expands to, never more than `size` bytes. The crate's
/// safe decoder, which is built by default, refuses a block that is
/// malformed or needs more room. It adds the length bytes of the block up
/// in 32 bits, at most 255 to a byte, and adds such a length to a position
/// in the buffer: the block and the buffer are kept so small that neither
/// sum runs over.
#[verifier::external_body]
fn lz4_decode(data: &[u8], size: usize) -> (r: Option<Vec<u8>>)
    requires
        size <= isize::MAX,
        size + 255 * data@.len() <= u32::MAX,
    ensures
        match r {
            Some(v) => lz4_decompressed(data@, size as nat) == Some(v@) && v@.len() <= size,
            None => lz4_decompressed(data@, size as nat) is None,
        },
{
    lz4_flex::decompress(data, size).ok()
}

/// `GzEncoder` of crate flate2 over a vector, at `Compression::default()`:
/// `data` written through it as one gzip stream. `GzDecoder` gives `data`
/// back from that stream.
#[verifier::external_body]
fn gzip_encode(data: &[u8]) -> (r: Option<Vec<u8>>)
    ensures
        match r {
            Some(v) => gzip_compressed(data@) == Some(v@) && gzip_decompressed(v@) == Some(data@),
            None => gzip_compressed(data@) is None,
        },
{
    let mut encoder = GzEncoder::new(Vec::new(), Compression::default());
    encoder.write_all(data).ok()?;
    encoder.finish().ok()
}

/// `GzDecoder` of crate flate2 over `data`, read to its end.
#[verifier::external_body]
fn gzip_decode(data: &[u8]) -> (r: Option<Vec<u8>>)
    ensures
        match r {
            Some(v) => gzip_decompressed(data@) == Some(v@),
            None => gzip_decompressed(data@) is None,
        },
{
    let mut out = Vec::new();
    GzDecoder::new(data).read_to_end(&mut out).ok()?;
    Some(out)
}

/// `zstd::stream::encode_all` at `level`: `data` as a zstd frame.
/// `zstd::stream::decode_all` gives `data` back from that frame.
#[verifier::external_body]
fn zstd_encode(data: &[u8], level: i32) -> (r: Option<Vec<u8>>)
    ensures
        match r {
            Some(v) => zstd_compressed(data@, level as int) == Some(v@) && zstd_decompressed(v@)
                == Some(data@),
            None => zstd_compressed(data@, level as int) is None,
        },
{
    zstd::stream::encode_all(data, level).ok()
}

/// `zstd::stream::decode_all` over `data`.
#[verifier::external_body]
fn zstd_decode(data: &[u8]) -> (r: Option<Vec<u8>>)
    ensures
        match r {
            Some(v) => zstd_decompressed(data@) == Some(v@),
            None => zstd_decompressed(data@) is None,
        },
{
    zstd::stream::decode_all(data).ok()
}

/// Whether an LZ4 block of `block_len` bytes can stand in a dump for data of
/// `data_len` bytes: the block is within `LZ4_MAX_PAYLOAD`, and the data
/// has at most 255 bytes to each byte of the block, which is the room a
/// restore gives a block to expand in.
pub open spec fn lz4_fits(data_len: nat, block_len: nat) -> bool {
    block_len <= LZ4_MAX_PAYLOAD && data_len <= 255 * block_len
}

/// Whether data of `data_len` bytes is handed to the LZ4 compressor: it is
/// not longer than any block that fits can expand to, and the compressor
/// can size its buffer for it.
pub open spec fn lz4_takes(data_len: nat) -> bool {
    data_len <= 255 * LZ4_MAX_PAYLOAD && 110 * data_len <= usize::MAX
}

/// Whether `payload` is what a dump of `data` under `alg` holds behind its
/// header. An LZ4 block is stated by what it expands to, the other
/// payloads by what they are.
pub open spec fn is_payload(alg: Algorithm, data: Seq<u8>, payload: Seq<u8>) -> bool {
    match alg {
        Algorithm::Uncompressed => payload == data,
        Algorithm::Lz4 => {
            &&& lz4_fits(data.len(), payload.len())
            &&& lz4_decompressed(payload, data.len()) == Some(data)
        },
        Algorithm::Deflate => gzip_compressed(data) == Some(payload),
        Algorithm::Zstd => zstd_compressed(data, ZSTD_LEVEL as int) == Some(payload),
    }
}

/// Whether `data` has no payload under `alg`: the compressor fails, or
/// `data` is not handed to the LZ4 compressor, or the block that the LZ4
/// compressor made of it does not fit.
pub open spec fn no_payload(alg: Algorithm, data: Seq<u8>) -> bool {
    match alg {
        Algorithm::Uncompressed => false,
        Algorithm::Lz4 => {
            ||| !lz4_takes(data.len())
            ||| exists|block: Seq<u8>|
                #[trigger] lz4_decompressed(block, data.len()) == Some(data) && !lz4_fits(
                    data.len(),
                    block.len(),
                )
        },
        Algorithm::Deflate => gzip_compressed(data) is None,
        Algorithm::Zstd => zstd_compressed(data, ZSTD_LEVEL as int) is None,
    }
}

/// What `payload` expands to under `alg`, where the header gives `len` as
/// the length.
pub open spec fn decompressed(alg: Algorithm, payload: Seq<u8>, len: nat) -> Option<Seq<u8>> {
    match alg {
        Algorithm::Uncompressed => Some(payload),
        Algorithm::Lz4 => lz4_decompressed(payload, len),
        Algorithm::Deflate => gzip_decompressed(payload),
        Algorithm::Zstd => zstd_decompressed(payload),
    }
}

/// The header of a dump.
pub open spec fn header(alg: Algorithm, len: u64, sum: u32) -> Seq<u8> {
    magic() + seq![VERSION, alg.code_spec(), 0u8] + spec_u64_to_le_bytes(len)
        + spec_u32_to_le_bytes(sum)
}

/// Whether `bytes` are a dump of `data` under `alg`: the header, then a
/// payload of `data`.
pub open spec fn is_dump(data: Seq<u8>, alg: Algorithm, bytes: Seq<u8>) -> bool {
    &&& bytes.len() >= HEADER_LEN
    &&& bytes.take(HEADER_LEN as int) == header(alg, data.len() as u64, crc32(data))
    &&& is_payload(alg, data, bytes.skip(HEADER_LEN as int))
}

/// What restoring `bytes` gives: the payload as it was before compression,
/// or the first thing that is wrong with the dump.
pub open spec fn restore_spec(bytes: Seq<u8>) -> Result<Seq<u8>, DumpError> {
    if bytes.len() < HEADER_LEN {
        Err(DumpError::TruncatedHeader)
    } else if bytes.subrange(0, 4) != magic() {
        Err(DumpError::BadMagic)
    } else if bytes[4] != VERSION {
        Err(DumpError::UnsupportedVersion)
    } else if bytes[5] > 3 {
        Err(DumpError::UnsupportedAlgorithm)
    } else {
        let alg = Algorithm::of_code(bytes[5]);
        let len = spec_u64_from_le_bytes(bytes.subrange(7, 15));
        let sum = spec_u32_from_le_bytes(bytes.subrange(15, 19));
        let payload = bytes.skip(HEADER_LEN as int);
        if alg == Algorithm::Lz4 && payload.len() > LZ4_MAX_PAYLOAD {
            Err(DumpError::SerializationFailed)
        } else if alg == Algorithm::Lz4 && len > 255 * payload.len() {
            Err(DumpError::LengthMismatch)
        } else {
            match decompressed(alg, payload, len as nat) {
                None => Err(DumpError::SerializationFailed),
                Some(data) => if data.len() != len {
                    Err(DumpError::LengthMismatch)
                } else if crc32(data) != sum {
                    Err(DumpError::ChecksumMismatch)
                } else {
                    Ok(data)
                },
            }
        }
    }
}

/// Whether an LZ4 block of `block_len` bytes can stand in a dump for data of
/// `data_len` bytes.
pub fn lz4_block_fits(data_len: usize, block_len: usize) -> (fits: bool)
    ensures
        fits == lz4_fits(data_len as nat, block_len as nat),
{
    block_len <= LZ4_MAX_PAYLOAD && data_len <= 255 * block_len
}

/// What the compressor of `alg` makes of `data`, or nothing where it fails
/// or, for LZ4, is not handed `data`.
fn compress(alg: Algorithm, data: &[u8]) -> (r: Option<Vec<u8>>)
    ensures
        match r {
            Some(p) => {
                &&& decompressed(alg, p@, data@.len()) == Some(data@)
                &&& alg != Algorithm::Lz4 ==> is_payload(alg, data@, p@)
            },
            None => alg != Algorithm::Uncompressed && (alg == Algorithm::Lz4 ==> !lz4_takes(
                data@.len(),
            )) && (alg != Algorithm::Lz4 ==> no_payload(alg, data@)),
        },
{
    match alg {
        Algorithm::Uncompressed => Some(slice_to_vec(data)),
        Algorithm::Lz4 => {
            if data.len() > 255 * LZ4_MAX_PAYLOAD || data.len() > usize::MAX / 110 {
                None
            } else {
                Some(lz4_encode(data))
            }
        },
        Algorithm::Deflate => gzip_encode(data),
        Algorithm::Zstd => zstd_encode(data, ZSTD_LEVEL),
    }
}

/// Puts the header of a dump of `data` under `alg` in front of `payload`,
/// which is taken to be what the compressor of `alg` made of `data`. An LZ4
/// block that does not fit is refused.
pub fn frame(data: &[u8], alg: Algorithm, payload: &[u8]) -> (r: Result<Vec<u8>, DumpError>)
    ensures
        match r {
            Ok(out) => {
                &&& alg == Algorithm::Lz4 ==> lz4_fits(data@.len(), payload@.len())
                &&& out@ == header(alg, data@.len() as u64, crc32(data@)) + payload@
            },
            Err(e) => {
                &&& e == DumpError::SerializationFailed
                &&& alg == Algorithm::Lz4
                &&& !lz4_fits(data@.len(), payload@.len())
            },
        },
{
    if alg == Algorithm::Lz4 && !lz4_block_fits(data.len(), payload.len()) {
        return Err(DumpError::SerializationFailed);
    }
    let len: u64 = data.len() as u64;
    let sum: u32 = checksum(data);
    let mut out: Vec<u8> = Vec::new();
    out.push(0x42);
    out.push(0x5A);
    out.push(0x41);
    out.push(0x31);
    out.push(VERSION);
    out.push(alg.code());
    out.push(0);
    let mut len_bytes = u64_to_le_bytes(len);
    out.append(&mut len_bytes);
    let mut sum_bytes = u32_to_le_bytes(sum);
    out.append(&mut sum_bytes);
    proof {
        assert(out@ == header(alg, len, sum));
    }
    out.extend_from_slice(payload);
    Ok(out)
}

/// Frames `data` as a dump: the header, then `data` compressed under `alg`.
/// Restoring the dump gives `data` back. The dump fails where `data` has no
/// payload under `alg`.
pub fn dump(data: &[u8], alg: Algorithm) -> (r: Result<Vec<u8>, DumpError>)
    ensures
        match r {
            Ok(out) => {
                &&& is_dump(data@, alg, out@)
                &&& restore_spec(out@) == Ok::<Seq<u8>, DumpError>(data@)
            },
            Err(e) => e == DumpError::SerializationFailed && no_payload(alg, data@),
        },
{
    let payload = match compress(alg, data) {
        Some(p) => p,
        None => { return Err(DumpError::SerializationFailed); },
    };
    let r = frame(data, alg, payload.as_slice());
    proof {
        if r is Ok {
            assert(data@.len() == data.len());
            let out = r->Ok_0@;
            let h = header(alg, data@.len() as u64, crc32(data@));
            lemma_auto_spec_u64_to_from_le_bytes();
            lemma_auto_spec_u32_to_from_le_bytes();
            assert(h.len() == HEADER_LEN);
            assert(out.take(HEADER_LEN as int) == h);
            assert(out.skip(HEADER_LEN as int) == payload@);
            lemma_dump_restores(data@, alg, payload@);
        }
    }
    r
}

/// Checks a dump and hands out its payload as it was before compression:
/// the header is held against the format, the payload is expanded, and its
/// length and checksum are held against the header.
pub fn restore(bytes: &[u8]) -> (r: Result<Vec<u8>, DumpError>)
    ensures
        match r {
            Ok(data) => restore_spec(bytes@) == Ok::<Seq<u8>, DumpError>(data@),
            Err(e) => restore_spec(bytes@) == Err::<Seq<u8>, DumpError>(e),
        },
{
    if bytes.len() < HEADER_LEN {
        return Err(DumpError::TruncatedHeader);
    }
    if bytes[0] != 0x42 || bytes[1] != 0x5A || bytes[2] != 0x41 || bytes[3] != 0x31 {
        proof {
            let m = bytes@.subrange(0, 4);
            assert(m[0] == bytes@[0] && m[1] == bytes@[1]);
            assert(m[2] == bytes@[2] && m[3] == bytes@[3]);
        }
        return Err(DumpError::BadMagic);
    }
    proof {
        assert(bytes@.subrange(0, 4) =~= magic());
    }
    if bytes[4] != VERSION {
        return Err(DumpError::UnsupportedVersion);
    }
    if bytes[5] > 3 {
        return Err(DumpError::UnsupportedAlgorithm);
    }
    let alg = Algorithm::from(bytes[5]);
    let len: u64 = u64_from_le_bytes(slice_subrange(bytes, 7, 15));
    let sum: u32 = u32_from_le_bytes(slice_subrange(bytes, 15, 19));
    let payload = slice_subrange(bytes, HEADER_LEN, bytes.len());
    proof {
        assert(payload@ == bytes@.skip(HEADER_LEN as int));
    }
    let expanded = match alg {
        Algorithm::Uncompressed => Some(slice_to_vec(payload)),
        Algorithm::Lz4 => {
            if payload.len() > LZ4_MAX_PAYLOAD {
                return Err(DumpError::SerializationFailed);
            }
            if len > 255 * (payload.len() as u64) {
                return Err(DumpError::LengthMismatch);
            }
            lz4_decode(payload, len as usize)
        },
        Algorithm::Deflate => gzip_decode(payload),
        Algorithm::Zstd => zstd_decode(payload),
    };
    let data = match expanded {
        Some(d) => d,
        None => { return Err(DumpError::SerializationFailed); },
    };
    if data.len() as u64 != len {
        return Err(DumpError::LengthMismatch);
    }
    if checksum(data.as_slice()) != sum {
        return Err(DumpError::ChecksumMismatch);
    }
    Ok(data)
}

/// What restoring `bytes` as a list of entries gives.
pub open spec fn restore_entries_spec(bytes: Seq<u8>) -> Result<
    Seq<(Seq<char>, Seq<u8>)>,
    DumpError,
> {
    match restore_spec(bytes) {
        Err(e) => Err(e),
        Ok(data) => match parse_entries(data) {
            Some(list) => Ok(list),
            None => Err(DumpError::SerializationFailed),
        },
    }
}

/// Dumps a list of entries: the list is encoded, then framed under `alg`.
/// Restoring the dump gives the list back.
pub fn dump_entries(entries: &Vec<StorageEntry>, alg: Algorithm) -> (r: Result<Vec<u8>, DumpError>)
    ensures
        match r {
            Ok(out) => {
                &&& is_dump(entries_bytes(entry_views(entries@)), alg, out@)
                &&& restore_entries_spec(out@) == Ok::<Seq<(Seq<char>, Seq<u8>)>, DumpError>(
                    entry_views(entries@),
                )
            },
            Err(e) => {
                &&& e == DumpError::SerializationFailed
                &&& no_payload(alg, entries_bytes(entry_views(entries@)))
            },
        },
{
    let encoded = encode_entries(entries);
    dump(encoded.as_slice(), alg)
}

/// Restores a list of entries from a dump.
pub fn restore_entries(bytes: &[u8]) -> (r: Result<Vec<StorageEntry>, DumpError>)
    ensures
        match r {
            Ok(entries) => restore_entries_spec(bytes@) == Ok::<
                Seq<(Seq<char>, Seq<u8>)>,
                DumpError,
            >(entry_views(entries@)),
            Err(e) => restore_entries_spec(bytes@) == Err::<Seq<(Seq<char>, Seq<u8>)>, DumpError>(
                e,
            ),
        },
{
    match restore(bytes) {
        Ok(data) => decode_entries(data.as_slice()),
        Err(e) => Err(e),
    }
}

/// A dump restores to what was dumped wherever its payload expands to
/// that: the header then passes every check.
pub proof fn lemma_dump_restores(data: Seq<u8>, alg: Algorithm, payload: Seq<u8>)
    requires
        data.len() <= u64::MAX,
        decompressed(alg, payload, data.len()) == Some(data),
        alg == Algorithm::Lz4 ==> lz4_fits(data.len(), payload.len()),
    ensures
        restore_spec(header(alg, data.len() as u64, crc32(data)) + payload) == Ok::<
            Seq<u8>,
            DumpError,
        >(data),
{
    let len = data.len() as u64;
    let sum = crc32(data);
    let h = header(alg, len, sum);
    let bytes = h + payload;
    lemma_auto_spec_u64_to_from_le_bytes();
    lemma_auto_spec_u32_to_from_le_bytes();
    assert(h.len() == HEADER_LEN);
    assert(bytes.subrange(0, 4) == magic());
    assert(bytes.subrange(7, 15) == spec_u64_to_le_bytes(len));
    assert(bytes.subrange(15, 19) == spec_u32_to_le_bytes(sum));
    assert(bytes.skip(HEADER_LEN as int) == payload);
    assert(Algorithm::of_code(alg.code_spec()) == alg);
}

/// A dump cut short of its header is refused as truncated.
pub proof fn lemma_truncated_is_refused(bytes: Seq<u8>, n: int)
    requires
        0 <= n < HEADER_LEN,
        n <= bytes.len(),
    ensures
        restore_spec(bytes.take(n)) == Err::<Seq<u8>, DumpError>(DumpError::TruncatedHeader),
{
}

/// Where a dump restores, changing one byte of its checksum field makes it
/// fail with a checksum mismatch.
pub proof fn lemma_checksum_is_held(bytes: Seq<u8>, i: int, b: u8)
    requires
        restore_spec(bytes) is Ok,
        15 <= i < 19,
        b != bytes[i],
    ensures
        restore_spec(bytes.update(i, b)) == Err::<Seq<u8>, DumpError>(
            DumpError::ChecksumMismatch,
        ),
{
    let changed = bytes.update(i, b);
    let before = bytes.subrange(15, 19);
    let after = changed.subrange(15, 19);
    lemma_auto_spec_u32_to_from_le_bytes();
    assert(changed.subrange(0, 4) == bytes.subrange(0, 4));
    assert(changed.subrange(7, 15) == bytes.subrange(7, 15));
    assert(changed.skip(HEADER_LEN as int) == bytes.skip(HEADER_LEN as int));
    assert(after[i - 15] != before[i - 15]);
    assert(spec_u32_to_le_bytes(spec_u32_from_le_bytes(before)) == before);
    assert(spec_u32_to_le_bytes(spec_u32_from_le_bytes(after)) == after);
}

} // verus!
