//! The lzop container: a header followed by length-prefixed LZO1X blocks.
//!
//! The container is parsed here; each compressed block is handed to minilzo.
use crate::error::ErrorKind;
use crate::pattern::append_bytes;
use vstd::prelude::*;

verus! {

/// The nine bytes that open an lzop file.
pub const LZOP_MAGIC_LEN: usize = 9;

/// The largest uncompressed block size lzop ever writes.
pub const MAX_BLOCK_SIZE: u32 = 0x400_0000;

/// The largest uncompressed block size this decoder accepts.
pub const BLOCK_SIZE: u32 = 0x4_0000;

/// The uncompressed size that marks a split file.
pub const SPLIT_FILE_SIZE: u32 = 0xFFFF_FFFF;

/// The oldest header version understood.
pub const MIN_VERSION: u16 = 0x0900;

/// The header version from which the header carries extra fields.
pub const EXTENDED_VERSION: u16 = 0x0940;

/// The newest "version needed to extract" understood.
pub const MAX_VERSION_NEEDED: u16 = 0x1040;

/// Header flag: each block carries an Adler-32 of its uncompressed data.
pub const F_ADLER32_D: u32 = 0x0000_0001;
/// Header flag: each compressed block carries an Adler-32 of its compressed data.
pub const F_ADLER32_C: u32 = 0x0000_0002;
/// Header flag: the header ends with an extra field.
pub const F_H_EXTRA_FIELD: u32 = 0x0000_0040;
/// Header flag: each block carries a CRC-32 of its uncompressed data.
pub const F_CRC32_D: u32 = 0x0000_0100;
/// Header flag: each compressed block carries a CRC-32 of its compressed data.
pub const F_CRC32_C: u32 = 0x0000_0200;
/// Header flag: the header names a filter.
pub const F_H_FILTER: u32 = 0x0000_0800;

/// Why an lzop stream could not be decoded.
#[derive(Clone, Copy, Debug, PartialEq, Eq, Structural)]
pub enum LzopError {
    /// The data does not start with the lzop magic.
    NotLzop,
    /// The data ends inside the header or inside a block.
    Truncated,
    /// The header's version fields are out of the supported range.
    UnsupportedVersion,
    /// The block's uncompressed size marks a split file.
    SplitFile,
    /// The block's uncompressed size exceeds what lzop ever writes.
    BlockTooLarge,
    /// The block's compressed size is zero or larger than its uncompressed size.
    BadBlockSize,
    /// The block's uncompressed size exceeds the block buffer of this decoder.
    BlockExceedsBuffer,
    /// A stored block lacks the checksum that its flags announce.
    MissingChecksum,
    /// The LZO1X data of a block does not decompress.
    BadBlockData,
}

impl LzopError {
    /// The class of this failure.
    pub fn kind(&self) -> (r: ErrorKind)
        ensures
            r == self.kind_spec(),
    {
        match self {
            LzopError::NotLzop => ErrorKind::NotFound,
            LzopError::Truncated => ErrorKind::Io,
            LzopError::UnsupportedVersion => ErrorKind::InvalidInput,
            LzopError::SplitFile => ErrorKind::InvalidInput,
            LzopError::BlockTooLarge => ErrorKind::InvalidInput,
            LzopError::BlockExceedsBuffer => ErrorKind::InvalidInput,
            _ => ErrorKind::CorruptData,
        }
    }

    pub open spec fn kind_spec(&self) -> ErrorKind {
        match self {
            LzopError::NotLzop => ErrorKind::NotFound,
            LzopError::Truncated => ErrorKind::Io,
            LzopError::UnsupportedVersion => ErrorKind::InvalidInput,
            LzopError::SplitFile => ErrorKind::InvalidInput,
            LzopError::BlockTooLarge => ErrorKind::InvalidInput,
            LzopError::BlockExceedsBuffer => ErrorKind::InvalidInput,
            _ => ErrorKind::CorruptData,
        }
    }
}

/// The lzop magic.
pub open spec fn lzop_magic() -> Seq<u8> {
    seq![0x89u8, 0x4c, 0x5a, 0x4f, 0x00, 0x0d, 0x0a, 0x1a, 0x0a]
}

/// The big-endian 16-bit integer at `i`.
pub open spec fn be16(d: Seq<u8>, i: int) -> int {
    d[i] * 0x100 + d[i + 1]
}

/// The big-endian 32-bit integer at `i`.
pub open spec fn be32(d: Seq<u8>, i: int) -> int {
    d[i] * 0x100_0000 + d[i + 1] * 0x1_0000 + d[i + 2] * 0x100 + d[i + 3]
}

/// Reads the big-endian 16-bit integer at `i`.
pub fn read_be16(d: &[u8], i: usize) -> (r: u16)
    requires
        i + 2 <= d@.len(),
    ensures
        r == be16(d@, i as int),
{
    (d[i] as u16) * 0x100 + (d[i + 1] as u16)
}

/// Reads the big-endian 32-bit integer at `i`.
pub fn read_be32(d: &[u8], i: usize) -> (r: u32)
    requires
        i + 4 <= d@.len(),
    ensures
        r == be32(d@, i as int),
{
    (d[i] as u32) * 0x100_0000 + (d[i + 1] as u32) * 0x1_0000 + (d[i + 2] as u32) * 0x100 + (
    d[i + 3] as u32)
}

/// The header of an lzop stream: its flags and the index where the blocks start.
pub open spec fn header_spec(d: Seq<u8>) -> Result<(u32, int), LzopError> {
    if d.len() < 9 || d.subrange(0, 9) != lzop_magic() {
        Err(LzopError::NotLzop)
    } else if d.len() < 11 {
        Err(LzopError::Truncated)
    } else if be16(d, 9) < MIN_VERSION {
        Err(LzopError::UnsupportedVersion)
    } else {
        let extended = be16(d, 9) >= EXTENDED_VERSION;
        if extended && d.len() < 15 {
            Err(LzopError::Truncated)
        } else if extended && (be16(d, 13) > MAX_VERSION_NEEDED || be16(d, 13) < MIN_VERSION) {
            Err(LzopError::UnsupportedVersion)
        } else {
            // version, library version, [version needed], method, [level]
            let flags_at: int = if extended { 17 } else { 14 };
            if d.len() < flags_at + 4 {
                Err(LzopError::Truncated)
            } else {
                let flags = be32(d, flags_at) as u32;
                let filter_len: int = if flags & F_H_FILTER != 0 { 4 } else { 0 };
                // [filter], mode, mtime low, [mtime high]
                let name_len_at = flags_at + 4 + filter_len + 8 + if extended { 4int } else { 0 };
                if d.len() < name_len_at + 1 {
                    Err(LzopError::Truncated)
                } else {
                    // name, header checksum
                    let after = name_len_at + 1 + d[name_len_at] + 4;
                    if d.len() < after {
                        Err(LzopError::Truncated)
                    } else if flags & F_H_EXTRA_FIELD == 0 {
                        Ok((flags, after))
                    } else if d.len() < after + 4 {
                        Err(LzopError::Truncated)
                    } else {
                        // extra field length, extra field, extra field checksum
                        let end = after + 4 + be32(d, after) + 4;
                        if d.len() < end {
                            Err(LzopError::Truncated)
                        } else {
                            Ok((flags, end))
                        }
                    }
                }
            }
        }
    }
}

/// Parses the lzop header: returns its flags and the index where the blocks start.
pub fn parse_header(d: &[u8]) -> (r: Result<(u32, usize), LzopError>)
    ensures
        match r {
            Ok((flags, end)) => header_spec(d@) == Ok::<(u32, int), LzopError>((flags, end as int)),
            Err(e) => header_spec(d@) == Err::<(u32, int), LzopError>(e),
        },
{
    let len = d.len();
    if len < LZOP_MAGIC_LEN {
        return Err(LzopError::NotLzop);
    }
    let magic: [u8; 9] = [0x89, 0x4c, 0x5a, 0x4f, 0x00, 0x0d, 0x0a, 0x1a, 0x0a];
    let mut i: usize = 0;
    while i < LZOP_MAGIC_LEN
        invariant
            i <= 9,
            9 <= d@.len(),
            magic@ == lzop_magic(),
            forall|t: int| 0 <= t < i ==> d@[t] == lzop_magic()[t],
        decreases 9 - i,
    {
        if d[i] != magic[i] {
            assert(d@.subrange(0, 9)[i as int] != lzop_magic()[i as int]);
            return Err(LzopError::NotLzop);
        }
        i = i + 1;
    }
    assert(d@.subrange(0, 9) =~= lzop_magic());
    if len < 11 {
        return Err(LzopError::Truncated);
    }
    let version = read_be16(d, 9);
    if version < MIN_VERSION {
        return Err(LzopError::UnsupportedVersion);
    }
    let extended = version >= EXTENDED_VERSION;
    if extended {
        if len < 15 {
            return Err(LzopError::Truncated);
        }
        let needed = read_be16(d, 13);
        if needed > MAX_VERSION_NEEDED || needed < MIN_VERSION {
            return Err(LzopError::UnsupportedVersion);
        }
    }
    let flags_at: usize = if extended { 17 } else { 14 };
    if len < flags_at + 4 {
        return Err(LzopError::Truncated);
    }
    let flags = read_be32(d, flags_at);
    let filter_len: usize = if flags & F_H_FILTER != 0 { 4 } else { 0 };
    let name_len_at = flags_at + 4 + filter_len + 8 + if extended { 4 } else { 0 };
    if len < name_len_at + 1 {
        return Err(LzopError::Truncated);
    }
    let after = name_len_at + 1 + d[name_len_at] as usize + 4;
    if len < after {
        return Err(LzopError::Truncated);
    }
    if flags & F_H_EXTRA_FIELD == 0 {
        return Ok((flags, after));
    }
    if len - after < 4 {
        return Err(LzopError::Truncated);
    }
    let extra_len = read_be32(d, after) as usize;
    if extra_len > len - after - 4 || len - after - 4 - extra_len < 4 {
        return Err(LzopError::Truncated);
    }
    Ok((flags, after + 4 + extra_len + 4))
}

#[verifier::external_type_specification]
#[verifier::external_body]
pub struct ExLzo(minilzo_rs::LZO);

#[verifier::external_type_specification]
#[verifier::external_body]
pub struct ExLzoError(minilzo_rs::Error);

/// What LZO1X decompression of `src` gives when at most `dst_len` bytes are expected.
pub uninterp spec fn lzo1x_decompressed(src: Seq<u8>, dst_len: nat) -> Option<Seq<u8>>;

/// Relies on minilzo_rs::LZO::init, which checks that the C library was built
/// for this platform's type sizes.
#[verifier::external_body]
pub(crate) fn lzo_init() -> (r: Result<minilzo_rs::LZO, minilzo_rs::Error>) {
    minilzo_rs::LZO::init()
}

/// Relies on minilzo_rs::LZO::decompress_safe: LZO1X decompression with bounds
/// checks. On success it returns the whole `dst_len`-byte buffer it allocated.
#[verifier::external_body]
fn lzo_decompress_safe(lzo: &minilzo_rs::LZO, src: &[u8], dst_len: usize) -> (r: Result<
    Vec<u8>,
    minilzo_rs::Error,
>)
    ensures
        match r {
            Ok(v) => lzo1x_decompressed(src@, dst_len as nat) == Some(v@),
            Err(_) => lzo1x_decompressed(src@, dst_len as nat) is None,
        },
        r matches Ok(v) ==> v@.len() == dst_len,
{
    lzo.decompress_safe(src, dst_len)
}

/// The block at `pos`: `None` for the end marker, else its output and the
/// index just after it.
pub open spec fn block_spec(d: Seq<u8>, pos: int, flags: u32) -> Result<
    Option<(Seq<u8>, int)>,
    LzopError,
> {
    if d.len() < pos + 4 {
        Err(LzopError::Truncated)
    } else {
        let dst_len = be32(d, pos);
        if dst_len == 0 {
            Ok(None)
        } else if dst_len == SPLIT_FILE_SIZE {
            Err(LzopError::SplitFile)
        } else if dst_len > MAX_BLOCK_SIZE {
            Err(LzopError::BlockTooLarge)
        } else if d.len() < pos + 8 {
            Err(LzopError::Truncated)
        } else {
            let src_len = be32(d, pos + 4);
            let compressed = src_len < dst_len;
            if src_len == 0 || src_len > dst_len {
                Err(LzopError::BadBlockSize)
            } else if dst_len > BLOCK_SIZE {
                Err(LzopError::BlockExceedsBuffer)
            } else {
                let has_adler_d = flags & F_ADLER32_D != 0;
                let has_crc_d = flags & F_CRC32_D != 0;
                let has_adler_c = flags & F_ADLER32_C != 0;
                let has_crc_c = flags & F_CRC32_C != 0;
                // checksums of the uncompressed data
                let sums_end = pos + 8 + (if has_adler_d { 4int } else { 0 }) + (if has_crc_d {
                    4int
                } else {
                    0
                });
                // checksums of the compressed data, present for compressed blocks only
                let adler_end = sums_end + if has_adler_c && compressed { 4int } else { 0 };
                let data_at = adler_end + if has_crc_c && compressed { 4int } else { 0 };
                if d.len() < sums_end {
                    Err(LzopError::Truncated)
                } else if has_adler_c && !compressed && !has_adler_d {
                    Err(LzopError::MissingChecksum)
                } else if d.len() < adler_end {
                    Err(LzopError::Truncated)
                } else if has_crc_c && !compressed && !has_crc_d {
                    Err(LzopError::MissingChecksum)
                } else if d.len() < data_at + src_len {
                    Err(LzopError::Truncated)
                } else {
                    let data = d.subrange(data_at, data_at + src_len);
                    if !compressed {
                        Ok(Some((data, data_at + src_len)))
                    } else {
                        match lzo1x_decompressed(data, dst_len as nat) {
                            Some(out) => Ok(Some((out, data_at + src_len))),
                            None => Err(LzopError::BadBlockData),
                        }
                    }
                }
            }
        }
    }
}

/// The output of the blocks from `pos` on, up to the end marker.
pub open spec fn blocks_spec(d: Seq<u8>, pos: int, flags: u32) -> Result<Seq<u8>, LzopError>
    decreases d.len() - pos,
{
    match block_spec(d, pos, flags) {
        Err(e) => Err(e),
        Ok(None) => Ok(Seq::empty()),
        Ok(Some((out, next))) => if pos < next <= d.len() {
            match blocks_spec(d, next, flags) {
                Ok(rest) => Ok(out + rest),
                Err(e) => Err(e),
            }
        } else {
            Err(LzopError::Truncated)
        },
    }
}

/// What decoding the lzop stream `d` gives.
pub open spec fn lzop_spec(d: Seq<u8>) -> Result<Seq<u8>, LzopError> {
    match header_spec(d) {
        Ok((flags, end)) => blocks_spec(d, end, flags),
        Err(e) => Err(e),
    }
}

/// `out` followed by what `rest` gives, when it gives anything.
pub open spec fn prepend(out: Seq<u8>, rest: Result<Seq<u8>, LzopError>) -> Result<Seq<u8>, LzopError> {
    match rest {
        Ok(r) => Ok(out + r),
        Err(e) => Err(e),
    }
}

/// Decodes the block at `pos`: `None` for the end marker, else its output and
/// the index just after it.
pub fn decode_block(lzo: &minilzo_rs::LZO, d: &[u8], pos: usize, flags: u32) -> (r: Result<
    Option<(Vec<u8>, usize)>,
    LzopError,
>)
    requires
        pos <= d@.len(),
    ensures
        match r {
            Ok(None) => block_spec(d@, pos as int, flags) == Ok::<Option<(Seq<u8>, int)>, LzopError>(None),
            Ok(Some((out, next))) => block_spec(d@, pos as int, flags) == Ok::<Option<(Seq<u8>, int)>, LzopError>(Some((out@, next as int)))
                && pos < next <= d@.len(),
            Err(e) => block_spec(d@, pos as int, flags) == Err::<Option<(Seq<u8>, int)>, LzopError>(e),
        },
{
    let len = d.len();
    if len - pos < 4 {
        return Err(LzopError::Truncated);
    }
    let dst_len = read_be32(d, pos);
    if dst_len == 0 {
        return Ok(None);
    }
    if dst_len == SPLIT_FILE_SIZE {
        return Err(LzopError::SplitFile);
    }
    if dst_len > MAX_BLOCK_SIZE {
        return Err(LzopError::BlockTooLarge);
    }
    if len - pos < 8 {
        return Err(LzopError::Truncated);
    }
    let src_len = read_be32(d, pos + 4);
    let compressed = src_len < dst_len;
    if src_len == 0 || src_len > dst_len {
        return Err(LzopError::BadBlockSize);
    }
    if dst_len > BLOCK_SIZE {
        return Err(LzopError::BlockExceedsBuffer);
    }
    let has_adler_d = flags & F_ADLER32_D != 0;
    let has_crc_d = flags & F_CRC32_D != 0;
    let has_adler_c = flags & F_ADLER32_C != 0;
    let has_crc_c = flags & F_CRC32_C != 0;
    let d_sums: usize = (if has_adler_d { 4 } else { 0 }) + (if has_crc_d { 4 } else { 0 });
    if len - pos - 8 < d_sums {
        return Err(LzopError::Truncated);
    }
    let sums_end = pos + 8 + d_sums;
    if has_adler_c && !compressed && !has_adler_d {
        return Err(LzopError::MissingChecksum);
    }
    let adler_c: usize = if has_adler_c && compressed { 4 } else { 0 };
    if len - sums_end < adler_c {
        return Err(LzopError::Truncated);
    }
    let adler_end = sums_end + adler_c;
    if has_crc_c && !compressed && !has_crc_d {
        return Err(LzopError::MissingChecksum);
    }
    let crc_c: usize = if has_crc_c && compressed { 4 } else { 0 };
    if len - adler_end < crc_c {
        return Err(LzopError::Truncated);
    }
    let data_at = adler_end + crc_c;
    let n = src_len as usize;
    if len - data_at < n {
        return Err(LzopError::Truncated);
    }
    let data = &d[data_at..data_at + n];
    if !compressed {
        let mut stored: Vec<u8> = Vec::new();
        append_bytes(&mut stored, data);
        return Ok(Some((stored, data_at + n)));
    }
    match lzo_decompress_safe(lzo, data, dst_len as usize) {
        Ok(out) => Ok(Some((out, data_at + n))),
        Err(_) => Err(LzopError::BadBlockData),
    }
}

/// Decodes an lzop stream: the header, then every block up to the end marker.
///
/// Data after the end marker is not read.
pub fn decode_lzop(lzo: &minilzo_rs::LZO, d: &[u8]) -> (r: Result<Vec<u8>, LzopError>)
    ensures
        match r {
            Ok(out) => lzop_spec(d@) == Ok::<Seq<u8>, LzopError>(out@),
            Err(e) => lzop_spec(d@) == Err::<Seq<u8>, LzopError>(e),
        },
{
    let (flags, start) = match parse_header(d) {
        Ok(h) => h,
        Err(e) => return Err(e),
    };
    let mut pos = start;
    let mut out: Vec<u8> = Vec::new();
    loop
        invariant
            start <= d@.len(),
            pos <= d@.len(),
            header_spec(d@) == Ok::<(u32, int), LzopError>((flags, start as int)),
            blocks_spec(d@, start as int, flags) == prepend(out@, blocks_spec(d@, pos as int, flags)),
        decreases d@.len() - pos,
    {
        match decode_block(lzo, d, pos, flags) {
            Err(e) => return Err(e),
            Ok(None) => {
                assert(out@ + Seq::<u8>::empty() =~= out@);
                return Ok(out);
            },
            Ok(Some((block, next))) => {
                proof {
                    let rest = blocks_spec(d@, next as int, flags);
                    if let Ok(r) = rest {
                        assert(out@ + (block@ + r) =~= (out@ + block@) + r);
                    }
                }
                append_bytes(&mut out, block.as_slice());
                pos = next;
            },
        }
    }
}

/// A block whose uncompressed size field is zero ends the stream without
/// error, whatever bytes follow it.
pub proof fn lemma_zero_size_ends_stream(d: Seq<u8>, pos: int, flags: u32)
    requires
        0 <= pos,
        pos + 4 <= d.len(),
        be32(d, pos) == 0,
    ensures
        blocks_spec(d, pos, flags) == Ok::<Seq<u8>, LzopError>(Seq::empty()),
{
}

/// A block whose compressed size exceeds its uncompressed size is rejected as
/// corrupt data.
pub proof fn lemma_oversized_compressed_block_rejected(d: Seq<u8>, pos: int, flags: u32)
    requires
        0 <= pos,
        pos + 8 <= d.len(),
        0 < be32(d, pos) <= MAX_BLOCK_SIZE,
        be32(d, pos + 4) > be32(d, pos),
    ensures
        blocks_spec(d, pos, flags) == Err::<Seq<u8>, LzopError>(LzopError::BadBlockSize),
        LzopError::BadBlockSize.kind_spec() == ErrorKind::CorruptData,
{
}

/// Blocks that decode from `d` decode the same way when more bytes follow.
proof fn lemma_blocks_ignore_trailing(d: Seq<u8>, t: Seq<u8>, pos: int, flags: u32)
    requires
        0 <= pos,
        blocks_spec(d, pos, flags) is Ok,
    ensures
        blocks_spec(d + t, pos, flags) == blocks_spec(d, pos, flags),
    decreases d.len() - pos,
{
    let e = d + t;
    assert(pos + 4 <= d.len());
    assert(be32(e, pos) == be32(d, pos));
    if be32(d, pos) != 0 {
        assert(be32(e, pos + 4) == be32(d, pos + 4));
        if let Ok(Some((out, next))) = block_spec(d, pos, flags) {
            let src_len = be32(d, pos + 4);
            let data_at = next - src_len;
            assert(e.subrange(data_at, next) =~= d.subrange(data_at, next));
            assert(block_spec(e, pos, flags) == block_spec(d, pos, flags));
            lemma_blocks_ignore_trailing(d, t, next, flags);
        }
    }
}

/// A stream that decodes from `d` decodes to the same output when unrelated
/// bytes follow it: decoding stops at the end marker.
pub proof fn lemma_trailing_bytes_ignored(d: Seq<u8>, t: Seq<u8>)
    requires
        lzop_spec(d) is Ok,
    ensures
        lzop_spec(d + t) == lzop_spec(d),
{
    let e = d + t;
    assert(e.subrange(0, 9) =~= d.subrange(0, 9));
    assert(be16(e, 9) == be16(d, 9));
    if be16(d, 9) >= EXTENDED_VERSION {
        assert(be16(e, 13) == be16(d, 13));
    }
    let flags_at: int = if be16(d, 9) >= EXTENDED_VERSION { 17 } else { 14 };
    assert(be32(e, flags_at) == be32(d, flags_at));
    if let Ok((flags, end)) = header_spec(d) {
        let filter_len: int = if flags & F_H_FILTER != 0 { 4 } else { 0 };
        let name_len_at = flags_at + 4 + filter_len + 8 + if be16(d, 9) >= EXTENDED_VERSION { 4int } else { 0 };
        assert(e[name_len_at] == d[name_len_at]);
        let after = name_len_at + 1 + d[name_len_at] + 4;
        if flags & F_H_EXTRA_FIELD != 0 {
            assert(be32(e, after) == be32(d, after));
        }
        assert(header_spec(e) == header_spec(d));
        lemma_blocks_ignore_trailing(d, t, end, flags);
    }
}

} // verus!
