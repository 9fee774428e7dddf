use ikconfig::codec::{decompress, Format};
use ikconfig::error::ErrorKind;
use ikconfig::lzop::{decode_lzop, parse_header, LzopError};

const F_ADLER32_D: u32 = 0x1;
const F_ADLER32_C: u32 = 0x2;
const F_H_EXTRA_FIELD: u32 = 0x40;
const F_CRC32_D: u32 = 0x100;
const F_H_FILTER: u32 = 0x800;

const LZOP_MAGIC: [u8; 9] = [0x89, 0x4c, 0x5a, 0x4f, 0x00, 0x0d, 0x0a, 0x1a, 0x0a];

fn config_text() -> Vec<u8> {
    let mut t = String::from("#\n# Automatically generated file; DO NOT EDIT.\n#\n");
    for i in 0..400 {
        t.push_str(&format!("CONFIG_OPTION_{i}=y\n"));
    }
    t.push_str("CONFIG_IKCONFIG=y\nCONFIG_KERNEL_LZO=y\n");
    t.into_bytes()
}

/// An lzop header of the newer layout, with a name, and with `flags`.
fn header(flags: u32) -> Vec<u8> {
    let mut h = LZOP_MAGIC.to_vec();
    h.extend_from_slice(&0x1030u16.to_be_bytes()); // version
    h.extend_from_slice(&0x2080u16.to_be_bytes()); // library version
    h.extend_from_slice(&0x0940u16.to_be_bytes()); // version needed
    h.push(1); // method
    h.push(5); // level
    h.extend_from_slice(&flags.to_be_bytes());
    if flags & F_H_FILTER != 0 {
        h.extend_from_slice(&7u32.to_be_bytes());
    }
    h.extend_from_slice(&0o100644u32.to_be_bytes()); // mode
    h.extend_from_slice(&1u32.to_be_bytes()); // mtime low
    h.extend_from_slice(&0u32.to_be_bytes()); // mtime high
    h.push(6);
    h.extend_from_slice(b"config");
    h.extend_from_slice(&0xdeadbeefu32.to_be_bytes()); // header checksum
    if flags & F_H_EXTRA_FIELD != 0 {
        h.extend_from_slice(&3u32.to_be_bytes());
        h.extend_from_slice(b"xyz");
        h.extend_from_slice(&0u32.to_be_bytes());
    }
    h
}

/// One block of `data` as lzop writes it under `flags`.
fn block(flags: u32, data: &[u8]) -> Vec<u8> {
    let mut lzo = minilzo_rs::LZO::init().unwrap();
    let packed = lzo.compress(data).unwrap();
    let compressed = packed.len() < data.len();
    let mut b = Vec::new();
    b.extend_from_slice(&(data.len() as u32).to_be_bytes());
    let body: &[u8] = if compressed { &packed } else { data };
    b.extend_from_slice(&(body.len() as u32).to_be_bytes());
    if flags & F_ADLER32_D != 0 {
        b.extend_from_slice(&minilzo_rs::adler32(data).to_be_bytes());
    }
    if flags & F_CRC32_D != 0 {
        b.extend_from_slice(&0u32.to_be_bytes());
    }
    if flags & F_ADLER32_C != 0 && compressed {
        b.extend_from_slice(&minilzo_rs::adler32(body).to_be_bytes());
    }
    b.extend_from_slice(body);
    b
}

fn lzop_file(flags: u32, data: &[u8]) -> Vec<u8> {
    let mut f = header(flags);
    for piece in data.chunks(4096) {
        f.extend_from_slice(&block(flags, piece));
    }
    f.extend_from_slice(&0u32.to_be_bytes());
    f
}

fn lzo() -> minilzo_rs::LZO {
    minilzo_rs::LZO::init().unwrap()
}

#[test]
fn test_decompress_lzo() {
    let config = config_text();
    let file = lzop_file(F_ADLER32_D | F_ADLER32_C, &config);
    assert_eq!(decompress(&lzo(), Format::Lzo, &file).unwrap(), config);
}

#[test]
fn lzop_with_filter_extra_field_and_crc() {
    let config = config_text();
    let file = lzop_file(F_ADLER32_D | F_CRC32_D | F_H_FILTER | F_H_EXTRA_FIELD, &config);
    assert_eq!(decode_lzop(&lzo(), &file).unwrap(), config);
}

#[test]
fn lzop_stored_block_copied_verbatim() {
    let data: Vec<u8> = (0..=255u8).collect();
    let mut file = header(F_ADLER32_D);
    file.extend_from_slice(&block(F_ADLER32_D, &data));
    file.extend_from_slice(&0u32.to_be_bytes());
    assert_eq!(decode_lzop(&lzo(), &file).unwrap(), data);
}

#[test]
fn lzop_zero_size_ends_stream_despite_trailing_bytes() {
    let config = config_text();
    let mut file = lzop_file(F_ADLER32_D, &config);
    file.extend_from_slice(b"unrelated bytes of the next section \xff\xff\xff\xff");
    assert_eq!(decode_lzop(&lzo(), &file).unwrap(), config);
    let mut empty = header(0);
    empty.extend_from_slice(&[0, 0, 0, 0, 1, 2, 3]);
    assert_eq!(decode_lzop(&lzo(), &empty).unwrap(), Vec::<u8>::new());
}

#[test]
fn lzop_compressed_larger_than_uncompressed_is_corrupt() {
    let mut file = header(0);
    file.extend_from_slice(&16u32.to_be_bytes());
    file.extend_from_slice(&17u32.to_be_bytes());
    file.extend_from_slice(&[0u8; 17]);
    let e = decode_lzop(&lzo(), &file).unwrap_err();
    assert_eq!(e, LzopError::BadBlockSize);
    assert_eq!(e.kind(), ErrorKind::CorruptData);
    assert_eq!(decompress(&lzo(), Format::Lzo, &file), Err(ErrorKind::CorruptData));
}

#[test]
fn lzop_zero_compressed_size_is_corrupt() {
    let mut file = header(0);
    file.extend_from_slice(&16u32.to_be_bytes());
    file.extend_from_slice(&0u32.to_be_bytes());
    assert_eq!(decode_lzop(&lzo(), &file), Err(LzopError::BadBlockSize));
}

#[test]
fn lzop_split_file_rejected() {
    let mut file = header(0);
    file.extend_from_slice(&0xFFFF_FFFFu32.to_be_bytes());
    assert_eq!(decode_lzop(&lzo(), &file), Err(LzopError::SplitFile));
    assert_eq!(LzopError::SplitFile.kind(), ErrorKind::InvalidInput);
    assert_eq!(decompress(&lzo(), Format::Lzo, &file), Err(ErrorKind::InvalidInput));
}

#[test]
fn lzop_block_sizes_out_of_range_rejected() {
    let mut file = header(0);
    file.extend_from_slice(&0x400_0001u32.to_be_bytes());
    file.extend_from_slice(&16u32.to_be_bytes());
    assert_eq!(decode_lzop(&lzo(), &file), Err(LzopError::BlockTooLarge));
    assert_eq!(LzopError::BlockTooLarge.kind(), ErrorKind::InvalidInput);
    let mut file = header(0);
    file.extend_from_slice(&0x4_0001u32.to_be_bytes());
    file.extend_from_slice(&16u32.to_be_bytes());
    let e = decode_lzop(&lzo(), &file).unwrap_err();
    assert_eq!(e, LzopError::BlockExceedsBuffer);
    assert_eq!(e.kind(), ErrorKind::InvalidInput);
}

#[test]
fn lzop_bad_block_data_rejected() {
    let mut file = header(0);
    file.extend_from_slice(&64u32.to_be_bytes());
    file.extend_from_slice(&8u32.to_be_bytes());
    file.extend_from_slice(&[0xffu8; 8]);
    file.extend_from_slice(&0u32.to_be_bytes());
    assert_eq!(decode_lzop(&lzo(), &file), Err(LzopError::BadBlockData));
}

#[test]
fn lzop_stored_block_without_data_checksum_rejected() {
    let mut file = header(F_ADLER32_C);
    file.extend_from_slice(&4u32.to_be_bytes());
    file.extend_from_slice(&4u32.to_be_bytes());
    file.extend_from_slice(b"abcd");
    assert_eq!(decode_lzop(&lzo(), &file), Err(LzopError::MissingChecksum));
}

#[test]
fn lzop_truncated_input_rejected() {
    let config = config_text();
    let file = lzop_file(F_ADLER32_D, &config);
    let e = decode_lzop(&lzo(), &file[..file.len() - 10]).unwrap_err();
    assert_eq!(e, LzopError::Truncated);
    assert_eq!(e.kind(), ErrorKind::Io);
    assert_eq!(parse_header(&header(0)[..20]), Err(LzopError::Truncated));
}

#[test]
fn lzop_header_checks() {
    assert_eq!(parse_header(b"not an lzop file at all"), Err(LzopError::NotLzop));
    assert_eq!(LzopError::NotLzop.kind(), ErrorKind::NotFound);
    let mut old = header(0);
    old[9..11].copy_from_slice(&0x0800u16.to_be_bytes());
    assert_eq!(parse_header(&old), Err(LzopError::UnsupportedVersion));
    let mut needs_newer = header(0);
    needs_newer[13..15].copy_from_slice(&0x2000u16.to_be_bytes());
    assert_eq!(parse_header(&needs_newer), Err(LzopError::UnsupportedVersion));
    let h = header(F_ADLER32_D);
    assert_eq!(parse_header(&h), Ok((F_ADLER32_D, h.len())));
}

#[test]
fn lzop_older_header_layout() {
    let config = b"CONFIG_IKCONFIG=y\n".to_vec();
    let mut f = LZOP_MAGIC.to_vec();
    f.extend_from_slice(&0x0900u16.to_be_bytes()); // version
    f.extend_from_slice(&0x0900u16.to_be_bytes()); // library version
    f.push(1); // method
    f.extend_from_slice(&0u32.to_be_bytes()); // flags
    f.extend_from_slice(&0u32.to_be_bytes()); // mode
    f.extend_from_slice(&0u32.to_be_bytes()); // mtime
    f.push(0); // name length
    f.extend_from_slice(&0u32.to_be_bytes()); // header checksum
    assert_eq!(parse_header(&f), Ok((0, f.len())));
    f.extend_from_slice(&block(0, &config));
    f.extend_from_slice(&0u32.to_be_bytes());
    assert_eq!(decode_lzop(&lzo(), &f).unwrap(), config);
}
