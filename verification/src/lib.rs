//! Reader for the dimensions and embedded comments of JPEG and PNG images.
//!
//! The reader walks the marker or chunk structure of an in-memory byte buffer
//! and extracts the image's width and height together with any comments, in
//! the order they appear in the stream.  It never decodes pixel data, and
//! every read is bounds-checked against the buffer, so truncated or hostile
//! input yields a typed error rather than an out-of-range access.
//!
//! For PNG images, the dimensions come from the IHDR chunk, the comments from
//! `tEXt` chunks keyed `comment`, and every chunk's CRC is verified.  For JPEG
//! images, the dimensions come from the first SOF segment and the comments
//! from COM segments; the scanner resynchronizes after corrupt bytes between
//! segments.

use vstd::prelude::*;

mod bytes;
pub mod jpeg;
pub mod png;

pub use jpeg::JpegDecodingError;
pub use png::PngDecodingError;

use bytes::be32;
use bytes::be32_at;
use bytes::byte_at;
use jpeg::jpeg_scan;
use jpeg::JpegErrView;
use png::png_scan;

verus! {

/// An image's dimensions, along with any comments found in the data.
#[derive(Debug, Clone, PartialEq, Eq)]
pub struct ImageMetadata {
    pub width: u32,
    pub height: u32,
    pub comments: Vec<Vec<u8>>,
}

/// The mathematical content of an [`ImageMetadata`]: the dimensions and the
/// comment byte-strings in encounter order.
pub struct MetaView {
    pub width: u32,
    pub height: u32,
    pub comments: Seq<Seq<u8>>,
}

/// The comment list as a sequence of byte-sequences, in the same order.
pub open spec fn comments_view(v: Seq<Vec<u8>>) -> Seq<Seq<u8>> {
    v.map_values(|c: Vec<u8>| c@)
}

impl View for ImageMetadata {
    type V = MetaView;

    open spec fn view(&self) -> MetaView {
        MetaView { width: self.width, height: self.height, comments: comments_view(self.comments@) }
    }
}

#[verifier::external_type_specification]
#[verifier::external_body]
pub struct ExIoError(std::io::Error);

/// An error that occurred while reading an image.
#[derive(Debug)]
pub enum Error {
    Io(std::io::Error),
    Decoding(DecodingError),
}

impl From<std::io::Error> for Error {
    fn from(e: std::io::Error) -> Self {
        Error::Io(e)
    }
}

impl vstd::std_specs::convert::FromSpecImpl<std::io::Error> for Error {
    open spec fn obeys_from_spec() -> bool {
        true
    }

    open spec fn from_spec(e: std::io::Error) -> Self {
        Error::Io(e)
    }
}

impl From<DecodingError> for Error {
    fn from(e: DecodingError) -> Self {
        Error::Decoding(e)
    }
}

impl vstd::std_specs::convert::FromSpecImpl<DecodingError> for Error {
    open spec fn obeys_from_spec() -> bool {
        true
    }

    open spec fn from_spec(e: DecodingError) -> Self {
        Error::Decoding(e)
    }
}

impl From<JpegDecodingError> for DecodingError {
    fn from(e: JpegDecodingError) -> Self {
        DecodingError::Jpeg(e)
    }
}

impl vstd::std_specs::convert::FromSpecImpl<JpegDecodingError> for DecodingError {
    open spec fn obeys_from_spec() -> bool {
        true
    }

    open spec fn from_spec(e: JpegDecodingError) -> Self {
        DecodingError::Jpeg(e)
    }
}

impl From<PngDecodingError> for DecodingError {
    fn from(e: PngDecodingError) -> Self {
        DecodingError::Png(e)
    }
}

impl vstd::std_specs::convert::FromSpecImpl<PngDecodingError> for DecodingError {
    open spec fn obeys_from_spec() -> bool {
        true
    }

    open spec fn from_spec(e: PngDecodingError) -> Self {
        DecodingError::Png(e)
    }
}

/// An error that occurred while decoding an image.
#[derive(Debug, Clone, PartialEq, Eq)]
pub enum DecodingError {
    /// The first four bytes match neither a JPEG nor a PNG signature.
    UnknownMagic(u32),
    /// The JPEG scanner failed.
    Jpeg(JpegDecodingError),
    /// The PNG scanner failed.
    Png(PngDecodingError),
    /// The buffer is shorter than the four bytes needed to recognize a format.
    TooShort(usize),
}

/// The mathematical content of a [`DecodingError`].
pub enum DecodingErrView {
    UnknownMagic(u32),
    Jpeg(JpegErrView),
    Png(PngDecodingError),
    TooShort(int),
}

impl View for DecodingError {
    type V = DecodingErrView;

    open spec fn view(&self) -> DecodingErrView {
        match self {
            DecodingError::UnknownMagic(w) => DecodingErrView::UnknownMagic(*w),
            DecodingError::Jpeg(e) => DecodingErrView::Jpeg(e@),
            DecodingError::Png(e) => DecodingErrView::Png(*e),
            DecodingError::TooShort(n) => DecodingErrView::TooShort(*n as int),
        }
    }
}

/// What decoding an arbitrary byte buffer yields: the metadata of the first
/// recognized format, or the error that the format's scanner (or the
/// dispatcher itself) reports.
pub open spec fn decode_spec(buf: Seq<u8>) -> Result<MetaView, DecodingErrView> {
    if buf.len() < 4 {
        Err(DecodingErrView::TooShort(buf.len() as int))
    } else if buf[0] == 0xff && buf[1] == 0xd8 {
        match jpeg_scan(buf, 2, None, Seq::empty()) {
            Ok(m) => Ok(m),
            Err(e) => Err(DecodingErrView::Jpeg(e)),
        }
    } else if buf[0] == 0x89 && buf[1] == 0x50 && buf[2] == 0x4e && buf[3] == 0x47 {
        match png_scan(buf, 8, None, Seq::empty()) {
            Ok(m) => Ok(m),
            Err(e) => Err(DecodingErrView::Png(e)),
        }
    } else {
        Err(DecodingErrView::UnknownMagic(be32(buf, 0)))
    }
}

/// Reads the dimensions and comments of an image from a byte slice.
///
/// The first bytes pick the format: a buffer of fewer than 4 bytes is
/// rejected as too short, `FF D8` routes to the JPEG scanner, `89 50 4E 47`
/// to the PNG scanner, and anything else is rejected as an unknown magic
/// number carrying the first four bytes as one big-endian value.
pub fn read_bytes(data: &[u8]) -> (r: Result<ImageMetadata, DecodingError>)
    ensures
        match r {
            Ok(m) => decode_spec(data@) == Ok::<MetaView, DecodingErrView>(m@),
            Err(e) => decode_spec(data@) == Err::<MetaView, DecodingErrView>(e@),
        },
{
    if data.len() < 4 {
        return Err(DecodingError::TooShort(data.len()));
    }
    let b0 = byte_at(data, 0);
    let b1 = byte_at(data, 1);
    let b2 = byte_at(data, 2);
    let b3 = byte_at(data, 3);
    if b0 == 0xff && b1 == 0xd8 {
        match jpeg::read_jpeg_data(data) {
            Ok(m) => Ok(m),
            Err(e) => Err(DecodingError::Jpeg(e)),
        }
    } else if b0 == 0x89 && b1 == 0x50 && b2 == 0x4e && b3 == 0x47 {
        match png::read_png_data(data) {
            Ok(m) => Ok(m),
            Err(e) => Err(DecodingError::Png(e)),
        }
    } else {
        Err(DecodingError::UnknownMagic(be32_at(data, 0)))
    }
}

} // verus!
