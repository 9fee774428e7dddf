//! The compression formats a kernel image may be wrapped in, the magic numbers
//! that announce them, and the decoders that undo them.
use crate::error::ErrorKind;
use crate::lzop::{decode_lzop, lzop_spec};
use vstd::prelude::*;

verus! {

/// An outer compression format, in the order in which they are tried.
#[derive(Clone, Copy, Debug, PartialEq, Eq, Structural)]
pub enum Format {
    Gzip,
    Xz,
    Bzip2,
    Lzma,
    Lzo,
    Lz4,
    Zstd,
}

/// The number of formats.
pub const FORMAT_COUNT: usize = 7;

/// The formats in the order in which they are tried.
pub open spec fn format_at(i: int) -> Format {
    if i == 0 {
        Format::Gzip
    } else if i == 1 {
        Format::Xz
    } else if i == 2 {
        Format::Bzip2
    } else if i == 3 {
        Format::Lzma
    } else if i == 4 {
        Format::Lzo
    } else if i == 5 {
        Format::Lz4
    } else {
        Format::Zstd
    }
}

/// The format tried in position `i`.
pub fn format_in_order(i: usize) -> (r: Format)
    requires
        i < FORMAT_COUNT,
    ensures
        r == format_at(i as int),
{
    if i == 0 {
        Format::Gzip
    } else if i == 1 {
        Format::Xz
    } else if i == 2 {
        Format::Bzip2
    } else if i == 3 {
        Format::Lzma
    } else if i == 4 {
        Format::Lzo
    } else if i == 5 {
        Format::Lz4
    } else {
        Format::Zstd
    }
}

impl Format {
    /// The magic number that starts a stream of this format.
    pub open spec fn magic_spec(self) -> Seq<u8> {
        match self {
            Format::Gzip => seq![0x1fu8, 0x8b, 0x08],
            Format::Xz => seq![0xfdu8, 0x37, 0x7a, 0x58, 0x5a, 0x00],
            Format::Bzip2 => seq![0x42u8, 0x5a, 0x68],
            Format::Lzma => seq![0x5du8, 0x00, 0x00, 0x00],
            Format::Lzo => seq![0x89u8, 0x4c, 0x5a, 0x4f, 0x00, 0x0d, 0x0a, 0x1a, 0x0a],
            Format::Lz4 => seq![0x02u8, 0x21, 0x4c, 0x18],
            Format::Zstd => seq![0x28u8, 0xb5, 0x2f, 0xfd],
        }
    }

    /// The magic number that starts a stream of this format.
    pub fn magic(&self) -> (r: Vec<u8>)
        ensures
            r@ == self.magic_spec(),
    {
        let r = match self {
            Format::Gzip => vec![0x1fu8, 0x8b, 0x08],
            Format::Xz => vec![0xfdu8, 0x37, 0x7a, 0x58, 0x5a, 0x00],
            Format::Bzip2 => vec![0x42u8, 0x5a, 0x68],
            Format::Lzma => vec![0x5du8, 0x00, 0x00, 0x00],
            Format::Lzo => vec![0x89u8, 0x4c, 0x5a, 0x4f, 0x00, 0x0d, 0x0a, 0x1a, 0x0a],
            Format::Lz4 => vec![0x02u8, 0x21, 0x4c, 0x18],
            Format::Zstd => vec![0x28u8, 0xb5, 0x2f, 0xfd],
        };
        assert(r@ =~= self.magic_spec());
        r
    }

    /// Whether a stream of this format is normally followed by unrelated
    /// bytes that its decoder cannot tell from a damaged frame.
    pub open spec fn tolerates_trailing_data_spec(self) -> bool {
        self == Format::Lz4 || self == Format::Zstd
    }

    /// Whether a stream of this format is normally followed by unrelated
    /// bytes that its decoder cannot tell from a damaged frame.
    pub fn tolerates_trailing_data(&self) -> (r: bool)
        ensures
            r == self.tolerates_trailing_data_spec(),
    {
        match self {
            Format::Lz4 | Format::Zstd => true,
            _ => false,
        }
    }
}

/// What flate2's gzip decoder gives for the gzip member at the start of `data`.
pub uninterp spec fn gzip_decoded(data: Seq<u8>) -> Option<Seq<u8>>;

/// What liblzma's automatic decoder gives for the xz or lzma stream at the
/// start of `data`.
pub uninterp spec fn lzma_decoded(data: Seq<u8>) -> Option<Seq<u8>>;

/// What the bzip2 decoder gives for the bzip2 stream at the start of `data`.
pub uninterp spec fn bzip2_decoded(data: Seq<u8>) -> Option<Seq<u8>>;

/// What lz4_flex's frame decoder writes for `data`, and whether it finished
/// without error.
pub uninterp spec fn lz4_decoded(data: Seq<u8>) -> (Seq<u8>, bool);

/// What the zstd decoder writes for `data`, and whether it finished without
/// error.
pub uninterp spec fn zstd_decoded(data: Seq<u8>) -> (Seq<u8>, bool);

/// Relies on flate2::bufread::GzDecoder read to its end: decodes the single
/// gzip member at the start of `data`; bytes after the member are not read.
#[verifier::external_body]
fn gunzip(data: &[u8]) -> (r: Option<Vec<u8>>)
    ensures
        match r {
            Some(v) => gzip_decoded(data@) == Some(v@),
            None => gzip_decoded(data@) is None,
        },
{
    let mut out = Vec::new();
    match std::io::copy(&mut flate2::bufread::GzDecoder::new(data), &mut out) {
        Ok(_) => Some(out),
        Err(_) => None,
    }
}

/// Relies on lzma::LzmaReader::new_decompressor (package rust-lzma) read to its
/// end: liblzma's automatic decoder, which takes both the xz and the lzma
/// container. A decoder that cannot be set up (liblzma out of memory) is
/// reported like a stream that does not decode.
#[verifier::external_body]
fn unlzma(data: &[u8]) -> (r: Option<Vec<u8>>)
    ensures
        match r {
            Some(v) => lzma_decoded(data@) == Some(v@),
            None => lzma_decoded(data@) is None,
        },
{
    let mut out = Vec::new();
    match lzma::LzmaReader::new_decompressor(data) {
        Ok(mut reader) => match std::io::copy(&mut reader, &mut out) {
            Ok(_) => Some(out),
            Err(_) => None,
        },
        Err(_) => None,
    }
}

/// Relies on bzip2::bufread::BzDecoder read to its end: decodes the single
/// bzip2 stream at the start of `data`.
#[verifier::external_body]
fn bunzip2(data: &[u8]) -> (r: Option<Vec<u8>>)
    ensures
        match r {
            Some(v) => bzip2_decoded(data@) == Some(v@),
            None => bzip2_decoded(data@) is None,
        },
{
    let mut out = Vec::new();
    match std::io::copy(&mut bzip2::bufread::BzDecoder::new(data), &mut out) {
        Ok(_) => Some(out),
        Err(_) => None,
    }
}

/// Relies on lz4_flex::frame::FrameDecoder read until it ends or fails: the
/// bytes written before it stopped, and whether it stopped without error.
#[verifier::external_body]
fn unlz4(data: &[u8]) -> (r: (Vec<u8>, bool))
    ensures
        lz4_decoded(data@) == (r.0@, r.1),
{
    let mut out = Vec::new();
    let complete = std::io::copy(&mut lz4_flex::frame::FrameDecoder::new(data), &mut out).is_ok();
    (out, complete)
}

/// Relies on zstd::stream::read::Decoder read until it ends or fails: the
/// bytes written before it stopped, and whether it stopped without error.
#[verifier::external_body]
fn unzstd(data: &[u8]) -> (r: (Vec<u8>, bool))
    ensures
        zstd_decoded(data@) == (r.0@, r.1),
{
    let mut out = Vec::new();
    match zstd::stream::read::Decoder::new(data) {
        Ok(mut reader) => {
            let complete = std::io::copy(&mut reader, &mut out).is_ok();
            (out, complete)
        },
        Err(_) => (out, false),
    }
}

/// The output kept from a decoder that stopped: all of it when it finished,
/// and when the format tolerates trailing data, what it produced before a
/// failure, provided that is not empty.
pub open spec fn kept_output(tolerant: bool, out: Seq<u8>, complete: bool) -> Option<Seq<u8>> {
    if complete || (tolerant && out.len() > 0) {
        Some(out)
    } else {
        None
    }
}

/// What decompressing `data` as `format` gives.
pub open spec fn decoded(format: Format, data: Seq<u8>) -> Option<Seq<u8>> {
    match format {
        Format::Gzip => gzip_decoded(data),
        Format::Xz | Format::Lzma => lzma_decoded(data),
        Format::Bzip2 => bzip2_decoded(data),
        Format::Lzo => match lzop_spec(data) {
            Ok(out) => Some(out),
            Err(_) => None,
        },
        Format::Lz4 => {
            let (out, complete) = lz4_decoded(data);
            kept_output(format.tolerates_trailing_data_spec(), out, complete)
        },
        Format::Zstd => {
            let (out, complete) = zstd_decoded(data);
            kept_output(format.tolerates_trailing_data_spec(), out, complete)
        },
    }
}

/// Applies the trailing-data policy to what a decoder produced.
pub fn keep_output(tolerant: bool, out: Vec<u8>, complete: bool) -> (r: Option<Vec<u8>>)
    ensures
        match r {
            Some(v) => kept_output(tolerant, out@, complete) == Some(v@),
            None => kept_output(tolerant, out@, complete) is None,
        },
{
    if complete || (tolerant && out.len() > 0) {
        Some(out)
    } else {
        None
    }
}

/// The class of the failure when `data` does not decode as `format`: the
/// class of the lzop error for lzop streams, else `CorruptData`. (A decoder
/// that cannot be set up counts as a stream that does not decode.)
pub open spec fn failure_kind(format: Format, data: Seq<u8>) -> ErrorKind {
    match format {
        Format::Lzo => match lzop_spec(data) {
            Err(e) => e.kind_spec(),
            Ok(_) => ErrorKind::CorruptData,
        },
        _ => ErrorKind::CorruptData,
    }
}

/// Decompresses `data`, which starts with a stream of `format`.
///
/// Fails with `CorruptData` when the stream does not decode, or with the
/// class of the lzop failure for lzop streams.
pub fn decompress(lzo: &minilzo_rs::LZO, format: Format, data: &[u8]) -> (r: Result<
    Vec<u8>,
    ErrorKind,
>)
    ensures
        match r {
            Ok(v) => decoded(format, data@) == Some(v@),
            Err(k) => decoded(format, data@) is None && k == failure_kind(format, data@),
        },
{
    let out = match format {
        Format::Gzip => gunzip(data),
        Format::Xz | Format::Lzma => unlzma(data),
        Format::Bzip2 => bunzip2(data),
        Format::Lzo => match decode_lzop(lzo, data) {
            Ok(v) => Some(v),
            Err(e) => return Err(e.kind()),
        },
        Format::Lz4 => {
            let (v, complete) = unlz4(data);
            keep_output(format.tolerates_trailing_data(), v, complete)
        },
        Format::Zstd => {
            let (v, complete) = unzstd(data);
            keep_output(format.tolerates_trailing_data(), v, complete)
        },
    };
    match out {
        Some(v) => Ok(v),
        None => Err(ErrorKind::CorruptData),
    }
}

/// An xz stream and an lzma stream go through the same decoder: the two
/// formats give the same result for the same bytes, failure class included.
pub proof fn lemma_xz_same_as_lzma(data: Seq<u8>)
    ensures
        decoded(Format::Xz, data) == decoded(Format::Lzma, data),
        failure_kind(Format::Xz, data) == failure_kind(Format::Lzma, data),
{
}

/// For lz4 and zstd, a decoder that stopped on an error after producing
/// output still yields that output: the bytes that follow the frame do not
/// make decompression fail.
pub proof fn lemma_trailing_error_tolerated(format: Format, data: Seq<u8>)
    requires
        format == Format::Lz4 || format == Format::Zstd,
    ensures
        format == Format::Lz4 && lz4_decoded(data).0.len() > 0 ==> decoded(format, data) == Some(
            lz4_decoded(data).0,
        ),
        format == Format::Zstd && zstd_decoded(data).0.len() > 0 ==> decoded(format, data) == Some(
            zstd_decoded(data).0,
        ),
{
}

} // verus!
