use baza_core::dump::{
    dump, dump_entries, frame, lz4_block_fits, restore, restore_entries, Algorithm, HEADER_LEN,
    LZ4_MAX_PAYLOAD, VERSION, ZSTD_LEVEL,
};
use baza_core::error::DumpError;
use baza_core::storage::StorageEntry;

const ALL: [Algorithm; 4] = [
    Algorithm::Uncompressed,
    Algorithm::Lz4,
    Algorithm::Deflate,
    Algorithm::Zstd,
];

fn header(alg: u8, len: u64, sum: u32) -> Vec<u8> {
    let mut h = b"BZA1".to_vec();
    h.push(1);
    h.push(alg);
    h.push(0);
    h.extend_from_slice(&len.to_le_bytes());
    h.extend_from_slice(&sum.to_le_bytes());
    h
}

fn framed(alg: u8, len: u64, sum: u32, payload: &[u8]) -> Vec<u8> {
    let mut d = header(alg, len, sum);
    d.extend_from_slice(payload);
    d
}

fn entry(key: &str, value: &[u8]) -> StorageEntry {
    StorageEntry { key: key.to_string(), value: value.to_vec() }
}

#[test]
fn uncompressed_dump_is_bit_exact() {
    let d = dump(b"123456789", Algorithm::Uncompressed).unwrap();
    let expected: Vec<u8> = vec![
        0x42, 0x5A, 0x41, 0x31, 1, 0, 0, 9, 0, 0, 0, 0, 0, 0, 0, 0x26, 0x39, 0xF4, 0xCB, b'1',
        b'2', b'3', b'4', b'5', b'6', b'7', b'8', b'9',
    ];
    assert_eq!(d, expected);
    assert_eq!(HEADER_LEN, 19);
    assert_eq!(VERSION, 1);
    assert_eq!(ZSTD_LEVEL, 3);
}

#[test]
fn empty_payload_dumps_to_a_bare_header() {
    let d = dump(b"", Algorithm::Uncompressed).unwrap();
    assert_eq!(d, header(0, 0, 0));
    assert_eq!(restore(&d).unwrap(), b"");
}

#[test]
fn headers_name_the_algorithm() {
    for (alg, code) in ALL.iter().zip(0u8..) {
        assert_eq!(alg.code(), code);
        assert_eq!(Algorithm::from(code), *alg);
        let d = dump(b"hello", *alg).unwrap();
        assert_eq!(&d[..HEADER_LEN], &header(code, 5, 0x3610a686)[..]);
    }
    for code in 4..=255u8 {
        assert_eq!(Algorithm::from(code), Algorithm::Uncompressed);
    }
}

#[test]
fn payloads_are_compressed_as_the_header_says() {
    let data = vec![b'a'; 4096];
    let plain = dump(&data, Algorithm::Uncompressed).unwrap();
    assert_eq!(&plain[HEADER_LEN..], &data[..]);
    let lz4 = dump(&data, Algorithm::Lz4).unwrap();
    assert!(lz4.len() < 100);
    let gz = dump(&data, Algorithm::Deflate).unwrap();
    assert!(gz.len() < 100);
    assert_eq!(&gz[HEADER_LEN..HEADER_LEN + 3], &[0x1f, 0x8b, 8]);
    let zstd = dump(&data, Algorithm::Zstd).unwrap();
    assert!(zstd.len() < 100);
    assert_eq!(&zstd[HEADER_LEN..HEADER_LEN + 4], &[0x28, 0xb5, 0x2f, 0xfd]);
}

#[test]
fn dump_then_restore_gives_the_payload() {
    let payloads: Vec<Vec<u8>> = vec![
        vec![],
        vec![0],
        b"hello".to_vec(),
        (0..=255u8).collect(),
        vec![b'x'; 100_000],
        (0..50_000u32).map(|i| (i * 7 % 251) as u8).collect(),
        vec![0, 0, 0, 0xA0, 1, 2, 3, 4, 5, 6, 7, 8, 9, 10],
    ];
    for alg in ALL {
        for p in &payloads {
            let d = dump(p, alg).unwrap();
            assert_eq!(&restore(&d).unwrap(), p);
        }
    }
}

#[test]
fn hand_made_dumps_restore() {
    assert_eq!(
        restore(&framed(1, 3, 0x527b03fa, &[0x30, b'a', b'4', b'9'])).unwrap(),
        b"a49"
    );
    let gz = [
        31u8, 139, 8, 0, 0, 0, 0, 0, 2, 255, 203, 72, 205, 201, 201, 87, 200, 64, 144, 0, 128,
        136, 249, 229, 17, 0, 0, 0,
    ];
    assert_eq!(
        restore(&framed(2, 17, 0xe5f98880, &gz)).unwrap(),
        b"hello hello hello"
    );
    let zstd = [
        0x28u8, 0xb5, 0x2f, 0xfd, 0x20, 0x05, 0x29, 0x00, 0x00, b'h', b'e', b'l', b'l', b'o',
    ];
    assert_eq!(restore(&framed(3, 5, 0x3610a686, &zstd)).unwrap(), b"hello");
    assert_eq!(restore(&framed(0, 5, 0x3610a686, b"hello")).unwrap(), b"hello");
}

#[test]
fn frame_puts_the_header_in_front() {
    assert_eq!(
        frame(b"hello", Algorithm::Zstd, &[1, 2, 3]).unwrap(),
        framed(3, 5, 0x3610a686, &[1, 2, 3])
    );
    assert_eq!(
        frame(b"hello", Algorithm::Uncompressed, b"hello").unwrap(),
        dump(b"hello", Algorithm::Uncompressed).unwrap()
    );
    assert_eq!(
        frame(b"123456789", Algorithm::Deflate, &[]).unwrap(),
        header(2, 9, 0xCBF43926)
    );
    assert_eq!(
        frame(b"a49", Algorithm::Lz4, &[0x30, b'a', b'4', b'9']).unwrap(),
        framed(1, 3, 0x527b03fa, &[0x30, b'a', b'4', b'9'])
    );
    assert_eq!(
        frame(&[0u8; 255], Algorithm::Lz4, &[0]).unwrap().len(),
        HEADER_LEN + 1
    );
    assert_eq!(
        frame(&[0u8; 256], Algorithm::Lz4, &[0]).unwrap_err(),
        DumpError::SerializationFailed
    );
    assert_eq!(
        frame(&[0u8; 1], Algorithm::Lz4, &[]).unwrap_err(),
        DumpError::SerializationFailed
    );
    assert_eq!(frame(&[0u8; 256], Algorithm::Zstd, &[0]).unwrap().len(), HEADER_LEN + 1);
}

#[test]
fn lz4_blocks_fit_within_their_room() {
    assert_eq!(LZ4_MAX_PAYLOAD, 8_421_504);
    assert!(lz4_block_fits(0, 0));
    assert!(lz4_block_fits(255, 1));
    assert!(!lz4_block_fits(256, 1));
    assert!(!lz4_block_fits(1, 0));
    assert!(lz4_block_fits(510, 2));
    assert!(lz4_block_fits(0, LZ4_MAX_PAYLOAD));
    assert!(lz4_block_fits(255 * LZ4_MAX_PAYLOAD, LZ4_MAX_PAYLOAD));
    assert!(!lz4_block_fits(255 * LZ4_MAX_PAYLOAD + 1, LZ4_MAX_PAYLOAD));
    assert!(!lz4_block_fits(0, LZ4_MAX_PAYLOAD + 1));
}

#[test]
fn long_lz4_payloads_are_refused() {
    let mut run = vec![0xFFu8; 16_843_011];
    run[0] = 0xF0;
    assert_eq!(
        restore(&framed(1, 0, 0, &run)).unwrap_err(),
        DumpError::SerializationFailed
    );
    run.truncate(LZ4_MAX_PAYLOAD + 1);
    for len in [0u64, 1, u64::MAX] {
        assert_eq!(
            restore(&framed(1, len, 0, &run)).unwrap_err(),
            DumpError::SerializationFailed
        );
    }
    run.truncate(LZ4_MAX_PAYLOAD);
    assert_eq!(
        restore(&framed(1, 0, 0, &run)).unwrap_err(),
        DumpError::SerializationFailed
    );
    assert_eq!(
        restore(&framed(1, 255 * LZ4_MAX_PAYLOAD as u64 + 1, 0, &run)).unwrap_err(),
        DumpError::LengthMismatch
    );
    let other = framed(0, run.len() as u64 + 1, 0, &run);
    assert_eq!(restore(&other).unwrap_err(), DumpError::LengthMismatch);
}

#[test]
fn reserved_byte_is_not_looked_at() {
    let mut d = dump(b"hello", Algorithm::Uncompressed).unwrap();
    d[6] = 0xAB;
    assert_eq!(restore(&d).unwrap(), b"hello");
}

#[test]
fn truncated_dumps_are_refused() {
    for alg in ALL {
        let d = dump(b"some payload", alg).unwrap();
        assert_eq!(restore(&d[..18]).unwrap_err(), DumpError::TruncatedHeader);
        for n in 0..HEADER_LEN {
            assert_eq!(restore(&d[..n]).unwrap_err(), DumpError::TruncatedHeader);
        }
    }
    assert_eq!(restore(&[]).unwrap_err(), DumpError::TruncatedHeader);
}

#[test]
fn checksum_field_is_held() {
    for alg in ALL {
        let d = dump(b"some payload", alg).unwrap();
        for i in 15..19 {
            for flip in [0x01u8, 0x80, 0xFF] {
                let mut bad = d.clone();
                bad[i] ^= flip;
                assert_eq!(restore(&bad).unwrap_err(), DumpError::ChecksumMismatch);
            }
        }
    }
}

#[test]
fn payload_is_held_against_the_checksum() {
    let mut d = dump(b"some payload", Algorithm::Uncompressed).unwrap();
    let last = d.len() - 1;
    d[last] ^= 1;
    assert_eq!(restore(&d).unwrap_err(), DumpError::ChecksumMismatch);
}

#[test]
fn magic_version_and_algorithm_are_held() {
    let d = dump(b"hello", Algorithm::Uncompressed).unwrap();
    for i in 0..4 {
        let mut bad = d.clone();
        bad[i] ^= 0x20;
        assert_eq!(restore(&bad).unwrap_err(), DumpError::BadMagic);
    }
    for v in [0u8, 2, 255] {
        let mut bad = d.clone();
        bad[4] = v;
        assert_eq!(restore(&bad).unwrap_err(), DumpError::UnsupportedVersion);
    }
    for a in [4u8, 5, 128, 255] {
        let mut bad = d.clone();
        bad[5] = a;
        assert_eq!(restore(&bad).unwrap_err(), DumpError::UnsupportedAlgorithm);
    }
    let mut both = d.clone();
    both[0] = 0;
    both[4] = 9;
    both[5] = 9;
    assert_eq!(restore(&both).unwrap_err(), DumpError::BadMagic);
    let mut later = d.clone();
    later[4] = 9;
    later[5] = 9;
    assert_eq!(restore(&later).unwrap_err(), DumpError::UnsupportedVersion);
}

#[test]
fn length_field_is_held() {
    for alg in [Algorithm::Uncompressed, Algorithm::Deflate, Algorithm::Zstd] {
        let d = dump(b"hello", alg).unwrap();
        for len in [0u64, 4, 6, u64::MAX] {
            let mut bad = d.clone();
            bad[7..15].copy_from_slice(&len.to_le_bytes());
            assert_eq!(restore(&bad).unwrap_err(), DumpError::LengthMismatch);
        }
    }
    let d = dump(b"hello", Algorithm::Lz4).unwrap();
    let mut long = d.clone();
    long[7..15].copy_from_slice(&6u64.to_le_bytes());
    assert_eq!(restore(&long).unwrap_err(), DumpError::LengthMismatch);
    for len in [u64::MAX, 1 << 62, 1 << 40, 255 * (d.len() as u64 - 19) + 1] {
        let mut huge = d.clone();
        huge[7..15].copy_from_slice(&len.to_le_bytes());
        assert_eq!(restore(&huge).unwrap_err(), DumpError::LengthMismatch);
    }
    let run = dump(&vec![0u8; 100_000], Algorithm::Lz4).unwrap();
    assert!(run.len() < 19 + 500);
    assert_eq!(restore(&run).unwrap().len(), 100_000);
    let mut short = d.clone();
    short[7..15].copy_from_slice(&4u64.to_le_bytes());
    assert_eq!(restore(&short).unwrap_err(), DumpError::SerializationFailed);
}

#[test]
fn broken_payloads_are_refused() {
    assert_eq!(
        restore(&framed(1, 5, 0, &[0xF0])).unwrap_err(),
        DumpError::SerializationFailed
    );
    assert_eq!(
        restore(&framed(2, 5, 0, b"not gzip")).unwrap_err(),
        DumpError::SerializationFailed
    );
    assert_eq!(
        restore(&framed(3, 5, 0, b"not zstd")).unwrap_err(),
        DumpError::SerializationFailed
    );
    assert_eq!(
        restore(&framed(2, 0, 0, &[])).unwrap_err(),
        DumpError::SerializationFailed
    );
}

#[test]
fn entries_round_trip_under_every_algorithm() {
    let lists: Vec<Vec<StorageEntry>> = vec![
        vec![entry("a", b"1")],
        vec![entry("work::email::login", &[0u8; 40]), entry("b::z", b"")],
        vec![entry("", b""), entry("é::ü", &[255, 0, 128]), entry("k", &vec![9u8; 70_000])],
        (0..300).map(|i| entry(&format!("box{}::bundle{}", i % 7, i), &[i as u8; 5])).collect(),
        vec![],
    ];
    for alg in ALL {
        for list in &lists {
            let d = dump_entries(list, alg).unwrap();
            assert_eq!(&restore_entries(&d).unwrap(), list);
        }
    }
}

#[test]
fn restore_entries_reports_what_is_wrong() {
    assert_eq!(restore_entries(&[1, 2, 3]).unwrap_err(), DumpError::TruncatedHeader);
    let d = dump(&[1], Algorithm::Uncompressed).unwrap();
    assert_eq!(restore_entries(&d).unwrap_err(), DumpError::SerializationFailed);
    let mut bad = dump_entries(&vec![entry("a", b"1")], Algorithm::Lz4).unwrap();
    bad[16] ^= 1;
    assert_eq!(restore_entries(&bad).unwrap_err(), DumpError::ChecksumMismatch);
    let d = dump(&[0], Algorithm::Zstd).unwrap();
    assert_eq!(restore_entries(&d).unwrap(), Vec::new());
}

#[test]
fn dump_messages() {
    assert_eq!(DumpError::TruncatedHeader.message(), "Input too short for dump header");
    assert_eq!(DumpError::BadMagic.message(), "Invalid magic header");
    assert_eq!(DumpError::UnsupportedVersion.message(), "Unsupported dump version");
    assert_eq!(
        DumpError::UnsupportedAlgorithm.message(),
        "Unsupported compression algorithm"
    );
    assert_eq!(DumpError::LengthMismatch.message(), "Uncompressed length mismatch");
    assert_eq!(DumpError::ChecksumMismatch.message(), "Checksum mismatch");
    assert_eq!(
        DumpError::SerializationFailed.message(),
        "Payload cannot be encoded or decoded"
    );
}
