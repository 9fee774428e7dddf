use ikconfig::error::ErrorKind;
use ikconfig::extract::marker_bytes;
use ikconfig::matcher::LiteralRegex;
use ikconfig::pattern::search_bytes;
use ikconfig::scanner::{find_in, search, PatternScanner, ScanStep, CHUNK_SIZE};

const IKCFG_ST_FLAG_BYTES: &[u8] = b"IKCFG_ST\x1f\x8b\x08";
const PATTERN_OFFSET_VMLINUX_RAW: u64 = 12645664;
const PATTERN_OFFSET_VMLINUX_COMPRESSED: u64 = 16063;

const MAGIC_NUMBER_GZIP: &[u8] = b"\x1f\x8b\x08";
const MAGIC_NUMBER_XZ: &[u8] = b"\xfd7zXZ\x00";
const MAGIC_NUMBER_BZIP2: &[u8] = b"BZh";
const MAGIC_NUMBER_LZMA: &[u8] = b"\x5d\x00\x00\x00";
const MAGIC_NUMBER_LZ4: &[u8] = b"\x02\x21\x4c\x18";
const MAGIC_NUMBER_ZSTD: &[u8] = b"\x28\xb5\x2f\xfd";

/// A source of `len` filler bytes with `pattern` written at `at`.
fn source_with(len: usize, pattern: &[u8], at: usize) -> Vec<u8> {
    let mut s = vec![0xAAu8; len];
    s[at..at + pattern.len()].copy_from_slice(pattern);
    s
}

#[test]
fn test_search_bytes() {
    let raw = source_with(13_000_000, IKCFG_ST_FLAG_BYTES, PATTERN_OFFSET_VMLINUX_RAW as usize);
    assert_eq!(search_bytes(&raw, IKCFG_ST_FLAG_BYTES).unwrap(), PATTERN_OFFSET_VMLINUX_RAW);
    for magic in [
        MAGIC_NUMBER_GZIP,
        MAGIC_NUMBER_XZ,
        MAGIC_NUMBER_BZIP2,
        MAGIC_NUMBER_LZMA,
        MAGIC_NUMBER_LZ4,
        MAGIC_NUMBER_ZSTD,
    ] {
        let image = source_with(40_000, magic, PATTERN_OFFSET_VMLINUX_COMPRESSED as usize);
        assert_eq!(search_bytes(&image, magic).unwrap(), PATTERN_OFFSET_VMLINUX_COMPRESSED);
    }
}

#[test]
fn test_search_regex() {
    let raw = source_with(13_000_000, IKCFG_ST_FLAG_BYTES, PATTERN_OFFSET_VMLINUX_RAW as usize);
    assert_eq!(search(&raw, IKCFG_ST_FLAG_BYTES).unwrap(), PATTERN_OFFSET_VMLINUX_RAW);
    for magic in [
        MAGIC_NUMBER_GZIP,
        MAGIC_NUMBER_XZ,
        MAGIC_NUMBER_BZIP2,
        MAGIC_NUMBER_LZMA,
        MAGIC_NUMBER_LZ4,
        MAGIC_NUMBER_ZSTD,
    ] {
        let image = source_with(40_000, magic, PATTERN_OFFSET_VMLINUX_COMPRESSED as usize);
        assert_eq!(search(&image, magic).unwrap(), PATTERN_OFFSET_VMLINUX_COMPRESSED);
    }
}

#[test]
fn single_occurrence_found_at_its_offset() {
    for k in [0usize, 1, 77, 5000, 99_989] {
        let s = source_with(100_000, IKCFG_ST_FLAG_BYTES, k);
        assert_eq!(search(&s, IKCFG_ST_FLAG_BYTES), Ok(k as u64));
    }
}

#[test]
fn occurrence_straddling_each_window_boundary_found() {
    let m = IKCFG_ST_FLAG_BYTES.len();
    let overlap = m - 1;
    // Windows start at 0, CHUNK_SIZE - overlap, ...; test every straddling start.
    for boundary in [CHUNK_SIZE, 2 * CHUNK_SIZE - overlap] {
        for k in boundary - m..=boundary {
            let s = source_with(5 * CHUNK_SIZE, IKCFG_ST_FLAG_BYTES, k);
            assert_eq!(search(&s, IKCFG_ST_FLAG_BYTES), Ok(k as u64), "start {k}");
            assert_eq!(search_bytes(&s, IKCFG_ST_FLAG_BYTES), Some(k as u64));
        }
    }
}

#[test]
fn occurrence_at_end_of_source_found() {
    let s = source_with(3 * CHUNK_SIZE + 5, IKCFG_ST_FLAG_BYTES, 3 * CHUNK_SIZE + 5 - 11);
    assert_eq!(search(&s, IKCFG_ST_FLAG_BYTES), Ok((3 * CHUNK_SIZE + 5 - 11) as u64));
    let exact = IKCFG_ST_FLAG_BYTES.to_vec();
    assert_eq!(search(&exact, IKCFG_ST_FLAG_BYTES), Ok(0));
}

#[test]
fn absent_pattern_not_found() {
    let s = vec![0xAAu8; 4 * CHUNK_SIZE + 3];
    assert_eq!(search(&s, IKCFG_ST_FLAG_BYTES), Err(ErrorKind::NotFound));
    assert_eq!(search_bytes(&s, IKCFG_ST_FLAG_BYTES), None);
    // A partial occurrence at the very end is no occurrence.
    let mut t = vec![0xAAu8; 100];
    t.extend_from_slice(&IKCFG_ST_FLAG_BYTES[..10]);
    assert_eq!(search(&t, IKCFG_ST_FLAG_BYTES), Err(ErrorKind::NotFound));
}

#[test]
fn source_shorter_than_pattern_not_found() {
    assert_eq!(search(b"IKCFG", IKCFG_ST_FLAG_BYTES), Err(ErrorKind::NotFound));
    assert_eq!(search(b"", MAGIC_NUMBER_GZIP), Err(ErrorKind::NotFound));
}

#[test]
fn empty_pattern_is_invalid_input() {
    assert_eq!(search(b"abc", b""), Err(ErrorKind::InvalidInput));
    assert!(LiteralRegex::new(b"").is_err());
}

#[test]
fn first_of_several_occurrences_found() {
    let mut s = source_with(50_000, MAGIC_NUMBER_ZSTD, 17613);
    s[30_000..30_004].copy_from_slice(MAGIC_NUMBER_ZSTD);
    s[10..14].copy_from_slice(MAGIC_NUMBER_ZSTD);
    assert_eq!(search(&s, MAGIC_NUMBER_ZSTD), Ok(10));
}

#[test]
fn overlapping_self_similar_pattern_found() {
    // A naive matcher that restarts after a mismatch would miss this.
    let s = b"xxaaab".to_vec();
    assert_eq!(search_bytes(&s, b"aab"), Some(3));
    assert_eq!(search(&s, b"aab"), Ok(3));
}

#[test]
fn regex_metacharacters_matched_literally() {
    let s = b"a.b a+b (x) [y] \\d".to_vec();
    assert_eq!(search(&s, b"(x)"), Ok(8));
    assert_eq!(search(&s, b"a+b"), Ok(4));
    assert_eq!(search(&s, b"\\d"), Ok(16));
    assert_eq!(search(&s, b".*"), Err(ErrorKind::NotFound));
}

#[test]
fn find_in_matches_search_bytes() {
    let m = LiteralRegex::new(&marker_bytes()).unwrap();
    let s = source_with(20_000, IKCFG_ST_FLAG_BYTES, 8190);
    assert_eq!(find_in(&m, &s), Some(8190));
    assert_eq!(find_in(&m, &s[8191..]), None);
}

#[test]
fn scanner_asks_for_overlapping_windows() {
    let m = LiteralRegex::new(IKCFG_ST_FLAG_BYTES).unwrap();
    let len = CHUNK_SIZE as u64 + 100;
    let (mut scanner, step) = PatternScanner::new(11, len);
    assert_eq!(step, ScanStep::Read { offset: 0, len: CHUNK_SIZE });
    let zeros = vec![0u8; CHUNK_SIZE];
    let step = scanner.feed(&m, &zeros);
    let next = (CHUNK_SIZE - 10) as u64;
    assert_eq!(step, ScanStep::Read { offset: next, len: (len - next) as usize });
    let mut last = vec![0u8; (len - next) as usize];
    last[3..14].copy_from_slice(IKCFG_ST_FLAG_BYTES);
    assert_eq!(scanner.feed(&m, &last), ScanStep::Found(next + 3));
}

#[test]
fn scanner_ends_after_window_reaching_the_end() {
    let m = LiteralRegex::new(MAGIC_NUMBER_GZIP).unwrap();
    let (mut scanner, step) = PatternScanner::new(3, 100);
    assert_eq!(step, ScanStep::Read { offset: 0, len: 100 });
    assert_eq!(scanner.feed(&m, &[0u8; 100]), ScanStep::NotFound);
    let (_, step) = PatternScanner::new(3, 2);
    assert_eq!(step, ScanStep::NotFound);
}

#[test]
fn long_patterns_straddling_window_boundaries_found() {
    for m in [6000usize, CHUNK_SIZE, CHUNK_SIZE + 1500] {
        let pattern: Vec<u8> = (0..m).map(|i| (i % 251) as u8).collect();
        for k in [CHUNK_SIZE - 1, CHUNK_SIZE - m / 2, CHUNK_SIZE + 3, 3 * CHUNK_SIZE - 7] {
            let mut s = vec![0xFFu8; 5 * CHUNK_SIZE];
            s[k..k + m].copy_from_slice(&pattern);
            assert_eq!(search(&s, &pattern), Ok(k as u64), "pattern {m} at {k}");
            assert_eq!(search_bytes(&s, &pattern), Some(k as u64));
        }
    }
}

fn compare_searching_vmlinux(image: &[u8], bytes: &[u8]) {
    let naive = search_bytes(image, bytes).unwrap();
    let chunked = search(image, bytes).unwrap();
    assert_eq!(naive, chunked);
}

#[test]
fn compare_searching_vmlinux_raw() {
    let raw = source_with(13_000_000, IKCFG_ST_FLAG_BYTES, PATTERN_OFFSET_VMLINUX_RAW as usize);
    compare_searching_vmlinux(&raw, IKCFG_ST_FLAG_BYTES);
}

#[test]
fn compare_searching_vmlinux_gzip() {
    let image = source_with(40_000, MAGIC_NUMBER_GZIP, PATTERN_OFFSET_VMLINUX_COMPRESSED as usize);
    compare_searching_vmlinux(&image, MAGIC_NUMBER_GZIP);
}

#[test]
fn compare_searching_vmlinux_xz() {
    let image = source_with(40_000, MAGIC_NUMBER_XZ, PATTERN_OFFSET_VMLINUX_COMPRESSED as usize);
    compare_searching_vmlinux(&image, MAGIC_NUMBER_XZ);
}

#[test]
fn compare_searching_vmlinux_bzip2() {
    let image = source_with(40_000, MAGIC_NUMBER_BZIP2, PATTERN_OFFSET_VMLINUX_COMPRESSED as usize);
    compare_searching_vmlinux(&image, MAGIC_NUMBER_BZIP2);
}

#[test]
fn compare_searching_vmlinux_lzma() {
    let image = source_with(40_000, MAGIC_NUMBER_LZMA, PATTERN_OFFSET_VMLINUX_COMPRESSED as usize);
    compare_searching_vmlinux(&image, MAGIC_NUMBER_LZMA);
}

#[test]
fn compare_searching_vmlinux_lz4() {
    let image = source_with(40_000, MAGIC_NUMBER_LZ4, PATTERN_OFFSET_VMLINUX_COMPRESSED as usize);
    compare_searching_vmlinux(&image, MAGIC_NUMBER_LZ4);
}

#[test]
fn compare_searching_vmlinux_zstd() {
    let image = source_with(40_000, MAGIC_NUMBER_ZSTD, PATTERN_OFFSET_VMLINUX_COMPRESSED as usize);
    compare_searching_vmlinux(&image, MAGIC_NUMBER_ZSTD);
}
