//! PNG scanner: walks length-prefixed chunks, validates each chunk's CRC,
//! and extracts the dimensions from IHDR and the comments from `tEXt` chunks
//! keyed `comment`.

use vstd::prelude::*;
use vstd::slice::slice_index_get;
use vstd::slice::slice_subrange;
use vstd::slice::slice_to_vec;

use crate::bytes::be32;
use crate::bytes::be32_at;
use crate::bytes::byte_at;
use crate::comments_view;
use crate::ImageMetadata;
use crate::MetaView;

verus! {

/// An error that occurred while decoding a PNG image.
#[derive(Debug, Clone, PartialEq, Eq)]
pub enum PngDecodingError {
    /// No IHDR chunk was met before the scan ended.
    MissingIHDR,
    /// An IHDR chunk declared a length other than 13.
    InvalidIHDRLength(u32),
    /// A chunk's CRC did not match its contents, or a chunk was malformed:
    /// its declared length would run past the buffer, or a `tEXt` chunk had
    /// no NUL separator.
    InvalidChunkCrc,
}

/// The type bytes of an image-header chunk, `IHDR`.
pub open spec fn ihdr_type() -> Seq<u8> {
    seq![0x49u8, 0x48u8, 0x44u8, 0x52u8]
}

/// The type bytes of a textual-data chunk, `tEXt`.
pub open spec fn text_type() -> Seq<u8> {
    seq![0x74u8, 0x45u8, 0x58u8, 0x74u8]
}

/// The type bytes of the image-trailer chunk, `IEND`.
pub open spec fn iend_type() -> Seq<u8> {
    seq![0x49u8, 0x45u8, 0x4eu8, 0x44u8]
}

/// The keyword whose `tEXt` chunks are collected as comments.
pub open spec fn comment_keyword() -> Seq<u8> {
    seq![0x63u8, 0x6fu8, 0x6du8, 0x6du8, 0x65u8, 0x6eu8, 0x74u8]
}

/// The IEEE CRC32 of a byte sequence, as the `crc32fast` crate computes it.
pub uninterp spec fn crc32_of(data: Seq<u8>) -> u32;

/// Relies on `crc32fast::Hasher` (`new`, `update`, `finalize`): feeding two
/// slices computes the CRC32 of their concatenation, and the result depends
/// on the bytes alone.
#[verifier::external_body]
fn crc32_pair(a: &[u8], b: &[u8]) -> (r: u32)
    ensures
        r == crc32_of(a@ + b@),
{
    let mut h = crc32fast::Hasher::new();
    h.update(a);
    h.update(b);
    h.finalize()
}

/// The index of the first NUL byte of `s` at or after `i`, if any.
pub open spec fn first_nul_from(s: Seq<u8>, i: int) -> Option<int>
    decreases s.len() - i,
{
    if i < 0 || i >= s.len() {
        None
    } else if s[i] == 0 {
        Some(i)
    } else {
        first_nul_from(s, i + 1)
    }
}

proof fn lemma_first_nul_none(s: Seq<u8>, i: int)
    requires
        0 <= i <= s.len(),
        forall|j: int| i <= j < s.len() ==> s[j] != 0,
    ensures
        first_nul_from(s, i) is None,
    decreases s.len() - i,
{
    if i < s.len() {
        lemma_first_nul_none(s, i + 1);
    }
}

proof fn lemma_first_nul_some(s: Seq<u8>, i: int, k: int)
    requires
        0 <= i <= k < s.len(),
        s[k] == 0,
        forall|j: int| i <= j < k ==> s[j] != 0,
    ensures
        first_nul_from(s, i) == Some(k),
    decreases k - i,
{
    if i < k {
        lemma_first_nul_some(s, i + 1, k);
    }
}

/// Finds the first NUL byte, which splits a `tEXt` payload into keyword and
/// text.
fn find_nul(data: &[u8]) -> (r: Option<usize>)
    ensures
        match r {
            Some(k) => k < data@.len() && first_nul_from(data@, 0) == Some(k as int),
            None => first_nul_from(data@, 0) is None,
        },
{
    let n = data.len();
    let mut i: usize = 0;
    while i < n
        invariant
            n == data@.len(),
            i <= n,
            forall|j: int| 0 <= j < i ==> data@[j] != 0,
        decreases n - i,
    {
        if *slice_index_get(data, i) == 0 {
            proof {
                lemma_first_nul_some(data@, 0, i as int);
            }
            return Some(i);
        }
        i = i + 1;
    }
    proof {
        lemma_first_nul_none(data@, 0);
    }
    None
}

/// Whether the first `k` bytes of `data` spell the keyword `comment`.
fn is_comment_keyword(data: &[u8], k: usize) -> (r: bool)
    requires
        k <= data@.len(),
    ensures
        r == (data@.subrange(0, k as int) == comment_keyword()),
{
    if k != 7 {
        assert(data@.subrange(0, k as int).len() != comment_keyword().len());
        return false;
    }
    let eq = byte_at(data, 0) == 0x63 && byte_at(data, 1) == 0x6f && byte_at(data, 2) == 0x6d
        && byte_at(data, 3) == 0x6d && byte_at(data, 4) == 0x65 && byte_at(data, 5) == 0x6e
        && byte_at(data, 6) == 0x74;
    proof {
        if eq {
            assert(data@.subrange(0, 7) =~= comment_keyword());
        } else {
            assert(data@.subrange(0, 7) != comment_keyword());
        }
    }
    eq
}

/// What ends a scan that met no error: the recorded dimensions, or
/// `MissingIHDR` if no IHDR chunk was seen.
pub open spec fn png_finish(dims: Option<(u32, u32)>, comments: Seq<Seq<u8>>) -> Result<
    MetaView,
    PngDecodingError,
> {
    match dims {
        Some(d) => Ok(MetaView { width: d.0, height: d.1, comments }),
        None => Err(PngDecodingError::MissingIHDR),
    }
}

/// One walk over the chunks of `buf` from `pos`, with the dimensions and
/// comments accumulated so far.  Each step reads a 4-byte big-endian length,
/// 4 type bytes, the payload and a 4-byte CRC; a chunk that would run past
/// the buffer, a CRC mismatch, and a `tEXt` payload without a NUL separator
/// are malformed.  IHDR must declare length 13 and records the dimensions if
/// none are recorded yet (the first header wins); `tEXt` keyed `comment`
/// appends its text; IEND ends the walk, as does running out of bytes.
pub open spec fn png_scan(
    buf: Seq<u8>,
    pos: int,
    dims: Option<(u32, u32)>,
    comments: Seq<Seq<u8>>,
) -> Result<MetaView, PngDecodingError>
    decreases buf.len() - pos,
{
    let len = buf.len() as int;
    if pos < 0 || pos + 12 > len {
        png_finish(dims, comments)
    } else {
        let l = be32(buf, pos) as int;
        let ty = buf.subrange(pos + 4, pos + 8);
        if l > len - pos - 12 {
            Err(PngDecodingError::InvalidChunkCrc)
        } else {
            let data = buf.subrange(pos + 8, pos + 8 + l);
            if crc32_of(ty + data) != be32(buf, pos + 8 + l) {
                Err(PngDecodingError::InvalidChunkCrc)
            } else if ty == ihdr_type() {
                if l != 13 {
                    Err(PngDecodingError::InvalidIHDRLength(l as u32))
                } else {
                    let d = if dims is None {
                        Some((be32(data, 0), be32(data, 4)))
                    } else {
                        dims
                    };
                    png_scan(buf, pos + 12 + l, d, comments)
                }
            } else if ty == text_type() {
                match first_nul_from(data, 0) {
                    None => Err(PngDecodingError::InvalidChunkCrc),
                    Some(k) => {
                        let cs = if data.subrange(0, k) == comment_keyword() {
                            comments.push(data.subrange(k + 1, l))
                        } else {
                            comments
                        };
                        png_scan(buf, pos + 12 + l, dims, cs)
                    },
                }
            } else if ty == iend_type() {
                png_finish(dims, comments)
            } else {
                png_scan(buf, pos + 12 + l, dims, comments)
            }
        }
    }
}

/// Read PNG data, and return its dimensions and any comments found.
///
/// The walk starts at byte 8, past the fixed signature, which the caller has
/// already checked.
pub fn read_png_data(buf: &[u8]) -> (r: Result<ImageMetadata, PngDecodingError>)
    ensures
        match r {
            Ok(m) => png_scan(buf@, 8, None, Seq::empty()) == Ok::<
                MetaView,
                PngDecodingError,
            >(m@),
            Err(e) => png_scan(buf@, 8, None, Seq::empty()) == Err::<
                MetaView,
                PngDecodingError,
            >(e),
        },
{
    let mut comments: Vec<Vec<u8>> = Vec::new();
    let mut dimensions: Option<(u32, u32)> = None;
    let mut pos: usize = 8;
    proof {
        assert(comments_view(comments@) =~= Seq::<Seq<u8>>::empty());
    }

    while 12 <= buf.len() && pos <= buf.len() - 12
        invariant
            8 <= pos,
            png_scan(buf@, pos as int, dimensions, comments_view(comments@)) == png_scan(
                buf@,
                8,
                None,
                Seq::<Seq<u8>>::empty(),
            ),
        ensures
            png_scan(buf@, 8, None, Seq::<Seq<u8>>::empty()) == png_finish(
                dimensions,
                comments_view(comments@),
            ),
        decreases buf@.len() - pos,
    {
        let ghost pos0 = pos as int;
        let ghost dims0 = dimensions;
        let ghost cs0 = comments_view(comments@);

        let chunk_len_32 = be32_at(buf, pos);
        let chunk_len = chunk_len_32 as usize;
        if chunk_len > buf.len() - pos - 12 {
            return Err(PngDecodingError::InvalidChunkCrc);
        }
        let ty = slice_subrange(buf, pos + 4, pos + 8);
        let data = slice_subrange(buf, pos + 8, pos + 8 + chunk_len);
        let stored_crc = be32_at(buf, pos + 8 + chunk_len);
        let computed_crc = crc32_pair(ty, data);
        if computed_crc != stored_crc {
            return Err(PngDecodingError::InvalidChunkCrc);
        }

        let t0 = byte_at(buf, pos + 4);
        let t1 = byte_at(buf, pos + 5);
        let t2 = byte_at(buf, pos + 6);
        let t3 = byte_at(buf, pos + 7);

        if t0 == 0x49 && t1 == 0x48 && t2 == 0x44 && t3 == 0x52 {
            // IHDR: image header
            proof {
                assert(ty@ =~= ihdr_type());
            }
            if chunk_len != 13 {
                return Err(PngDecodingError::InvalidIHDRLength(chunk_len_32));
            }
            if dimensions.is_none() {
                let width = be32_at(buf, pos + 8);
                let height = be32_at(buf, pos + 12);
                proof {
                    assert(width == be32(buf@.subrange(pos0 + 8, pos0 + 21), 0));
                    assert(height == be32(buf@.subrange(pos0 + 8, pos0 + 21), 4));
                }
                dimensions = Some((width, height));
            }
            pos = pos + 12 + chunk_len;
        } else if t0 == 0x74 && t1 == 0x45 && t2 == 0x58 && t3 == 0x74 {
            // tEXt: textual data, split at the first NUL into keyword and text
            proof {
                assert(ty@ =~= text_type());
                assert(ty@ != ihdr_type());
            }
            match find_nul(data) {
                None => {
                    return Err(PngDecodingError::InvalidChunkCrc);
                },
                Some(k) => {
                    if is_comment_keyword(data, k) {
                        let text = slice_to_vec(slice_subrange(data, k + 1, data.len()));
                        let ghost tv = text@;
                        let ghost cs_vec0 = comments@;
                        comments.push(text);
                        proof {
                            assert(comments@.last()@ == tv);
                            assert(comments_view(comments@) =~= comments_view(cs_vec0).push(tv));
                            assert(tv =~= buf@.subrange(pos0 + 8, pos0 + 8
                                + chunk_len as int).subrange(k as int + 1, chunk_len as int));
                        }
                    }
                },
            }
            pos = pos + 12 + chunk_len;
        } else if t0 == 0x49 && t1 == 0x45 && t2 == 0x4e && t3 == 0x44 {
            // IEND: image trailer
            proof {
                assert(ty@ =~= iend_type());
                assert(ty@ != ihdr_type());
                assert(ty@ != text_type());
            }
            break;
        } else {
            // any other chunk is skipped
            proof {
                assert(ty@ != ihdr_type());
                assert(ty@ != text_type());
                assert(ty@ != iend_type());
            }
            pos = pos + 12 + chunk_len;
        }
    }

    match dimensions {
        Some(d) => Ok(ImageMetadata { width: d.0, height: d.1, comments }),
        None => Err(PngDecodingError::MissingIHDR),
    }
}

proof fn lemma_prefix_push(s: Seq<Seq<u8>>, x: Seq<u8>)
    ensures
        s.is_prefix_of(s.push(x)),
{
    assert(s =~= s.push(x).subrange(0, s.len() as int));
}

proof fn lemma_prefix_trans(a: Seq<Seq<u8>>, b: Seq<Seq<u8>>, c: Seq<Seq<u8>>)
    requires
        a.is_prefix_of(b),
        b.is_prefix_of(c),
    ensures
        a.is_prefix_of(c),
{
    assert(a =~= c.subrange(0, a.len() as int));
}

/// A well-formed IHDR chunk standing at `q`: declared length 13, type bytes
/// `IHDR`, payload and CRC inside the buffer, and a valid CRC over the type
/// and payload bytes.
pub open spec fn ihdr_chunk_at(buf: Seq<u8>, q: int) -> bool {
    &&& 0 <= q
    &&& q + 25 <= buf.len()
    &&& be32(buf, q) == 13
    &&& buf.subrange(q + 4, q + 8) == ihdr_type()
    &&& crc32_of(buf.subrange(q + 4, q + 8) + buf.subrange(q + 8, q + 21)) == be32(buf, q + 21)
}

/// Dimensions, once recorded, are never overwritten: a walk that starts with
/// a recorded pair and succeeds reports exactly that pair.  The first image
/// header wins.
pub proof fn lemma_png_scan_keeps_dimensions(
    buf: Seq<u8>,
    pos: int,
    d: (u32, u32),
    comments: Seq<Seq<u8>>,
    m: MetaView,
)
    requires
        0 <= pos,
        png_scan(buf, pos, Some(d), comments) == Ok::<MetaView, PngDecodingError>(m),
    ensures
        m.width == d.0,
        m.height == d.1,
    decreases buf.len() - pos,
{
    let len = buf.len() as int;
    if !(pos + 12 > len) {
        let l = be32(buf, pos) as int;
        if l <= len - pos - 12 {
            let data = buf.subrange(pos + 8, pos + 8 + l);
            let ty = buf.subrange(pos + 4, pos + 8);
            if crc32_of(ty + data) == be32(buf, pos + 8 + l) {
                if ty == ihdr_type() {
                    if l == 13 {
                        lemma_png_scan_keeps_dimensions(buf, pos + 12 + l, d, comments, m);
                    }
                } else if ty == text_type() {
                    match first_nul_from(data, 0) {
                        None => {},
                        Some(k) => {
                            let cs = if data.subrange(0, k) == comment_keyword() {
                                comments.push(data.subrange(k + 1, l))
                            } else {
                                comments
                            };
                            lemma_png_scan_keeps_dimensions(buf, pos + 12 + l, d, cs, m);
                        },
                    }
                } else if ty != iend_type() {
                    lemma_png_scan_keeps_dimensions(buf, pos + 12 + l, d, comments, m);
                }
            }
        }
    }
}

/// Where a walk that starts without recorded dimensions succeeds, the
/// dimensions are the first and second big-endian 32-bit fields of the
/// payload of an IHDR chunk of the buffer.  A well-formed PNG has one IHDR,
/// which is then the witness.
pub proof fn lemma_png_dimensions_from_ihdr(
    buf: Seq<u8>,
    pos: int,
    comments: Seq<Seq<u8>>,
    m: MetaView,
)
    requires
        0 <= pos,
        png_scan(buf, pos, None, comments) == Ok::<MetaView, PngDecodingError>(m),
    ensures
        exists|q: int|
            {
                &&& pos <= q
                &&& #[trigger] ihdr_chunk_at(buf, q)
                &&& m.width == be32(buf, q + 8)
                &&& m.height == be32(buf, q + 12)
            },
    decreases buf.len() - pos,
{
    let len = buf.len() as int;
    if !(pos + 12 > len) {
        let l = be32(buf, pos) as int;
        if l <= len - pos - 12 {
            let data = buf.subrange(pos + 8, pos + 8 + l);
            let ty = buf.subrange(pos + 4, pos + 8);
            if crc32_of(ty + data) == be32(buf, pos + 8 + l) {
                if ty == ihdr_type() {
                    if l == 13 {
                        let d = (be32(data, 0), be32(data, 4));
                        lemma_png_scan_keeps_dimensions(buf, pos + 12 + l, d, comments, m);
                        assert(be32(data, 0) == be32(buf, pos + 8));
                        assert(be32(data, 4) == be32(buf, pos + 12));
                        assert(buf.subrange(pos + 8, pos + 21) =~= data);
                        assert(ihdr_chunk_at(buf, pos));
                    }
                } else if ty == text_type() {
                    match first_nul_from(data, 0) {
                        None => {},
                        Some(k) => {
                            let cs = if data.subrange(0, k) == comment_keyword() {
                                comments.push(data.subrange(k + 1, l))
                            } else {
                                comments
                            };
                            lemma_png_dimensions_from_ihdr(buf, pos + 12 + l, cs, m);
                        },
                    }
                } else if ty != iend_type() {
                    lemma_png_dimensions_from_ihdr(buf, pos + 12 + l, comments, m);
                }
            }
        }
    }
}

/// Comment order equals encounter order: a walk only appends to the comments
/// it was started with, which stay, unchanged and in order, ahead of those
/// found later.
pub proof fn lemma_png_comments_in_order(
    buf: Seq<u8>,
    pos: int,
    dims: Option<(u32, u32)>,
    comments: Seq<Seq<u8>>,
)
    requires
        0 <= pos,
    ensures
        png_scan(buf, pos, dims, comments) matches Ok(m) ==> comments.is_prefix_of(m.comments),
    decreases buf.len() - pos,
{
    let len = buf.len() as int;
    assert(comments =~= comments.subrange(0, comments.len() as int));
    if !(pos + 12 > len) {
        let l = be32(buf, pos) as int;
        if l <= len - pos - 12 {
            let data = buf.subrange(pos + 8, pos + 8 + l);
            let ty = buf.subrange(pos + 4, pos + 8);
            if crc32_of(ty + data) == be32(buf, pos + 8 + l) {
                if ty == ihdr_type() {
                    if l == 13 {
                        let d = if dims is None {
                            Some((be32(data, 0), be32(data, 4)))
                        } else {
                            dims
                        };
                        lemma_png_comments_in_order(buf, pos + 12 + l, d, comments);
                    }
                } else if ty == text_type() {
                    match first_nul_from(data, 0) {
                        None => {},
                        Some(k) => {
                            if data.subrange(0, k) == comment_keyword() {
                                let cs = comments.push(data.subrange(k + 1, l));
                                lemma_png_comments_in_order(buf, pos + 12 + l, dims, cs);
                                lemma_prefix_push(comments, data.subrange(k + 1, l));
                                match png_scan(buf, pos + 12 + l, dims, cs) {
                                    Ok(m) => {
                                        lemma_prefix_trans(comments, cs, m.comments);
                                    },
                                    Err(_) => {},
                                }
                            } else {
                                lemma_png_comments_in_order(buf, pos + 12 + l, dims, comments);
                            }
                        },
                    }
                } else if ty != iend_type() {
                    lemma_png_comments_in_order(buf, pos + 12 + l, dims, comments);
                }
            }
        }
    }
}

/// An in-bounds, CRC-valid IHDR chunk whose declared length is not 13 stops
/// the walk with `InvalidIHDRLength` carrying that length, whatever stands
/// in the scanner's state or after the chunk.
pub proof fn lemma_png_bad_ihdr_length(
    buf: Seq<u8>,
    pos: int,
    dims: Option<(u32, u32)>,
    comments: Seq<Seq<u8>>,
)
    requires
        0 <= pos,
        pos + 12 <= buf.len(),
        be32(buf, pos) as int <= buf.len() - pos - 12,
        buf.subrange(pos + 4, pos + 8) == ihdr_type(),
        crc32_of(
            buf.subrange(pos + 4, pos + 8) + buf.subrange(
                pos + 8,
                pos + 8 + be32(buf, pos) as int,
            ),
        ) == be32(buf, pos + 8 + be32(buf, pos) as int),
        be32(buf, pos) != 13,
    ensures
        png_scan(buf, pos, dims, comments) == Err::<MetaView, PngDecodingError>(
            PngDecodingError::InvalidIHDRLength(be32(buf, pos)),
        ),
{
}

/// A walk that meets no IHDR type bytes cannot succeed: without the header
/// the result is `MissingIHDR`, unless a malformed chunk stops the walk
/// first.
pub proof fn lemma_png_missing_ihdr(buf: Seq<u8>, pos: int, comments: Seq<Seq<u8>>)
    requires
        0 <= pos,
        forall|q: int|
            0 <= q && q + 8 <= buf.len() ==> #[trigger] buf.subrange(q + 4, q + 8) != ihdr_type(),
    ensures
        png_scan(buf, pos, None, comments) matches Err(e) && (e == PngDecodingError::MissingIHDR
            || e == PngDecodingError::InvalidChunkCrc),
    decreases buf.len() - pos,
{
    let len = buf.len() as int;
    if !(pos + 12 > len) {
        let l = be32(buf, pos) as int;
        if l <= len - pos - 12 {
            let data = buf.subrange(pos + 8, pos + 8 + l);
            let ty = buf.subrange(pos + 4, pos + 8);
            assert(ty != ihdr_type());
            if crc32_of(ty + data) == be32(buf, pos + 8 + l) {
                if ty == text_type() {
                    match first_nul_from(data, 0) {
                        None => {},
                        Some(k) => {
                            let cs = if data.subrange(0, k) == comment_keyword() {
                                comments.push(data.subrange(k + 1, l))
                            } else {
                                comments
                            };
                            lemma_png_missing_ihdr(buf, pos + 12 + l, cs);
                        },
                    }
                } else if ty != iend_type() {
                    lemma_png_missing_ihdr(buf, pos + 12 + l, comments);
                }
            }
        }
    }
}

} // verus!
