//! JPEG scanner: walks `0xFFxx` markers starting after the 2-byte SOI,
//! detects SOF segments (dimensions) and COM segments (comments), and
//! resynchronizes after corrupt bytes between segments.

use vstd::prelude::*;
use vstd::slice::slice_index_get;
use vstd::slice::slice_subrange;
use vstd::slice::slice_to_vec;

use crate::bytes::be16;
use crate::bytes::be16_at;
use crate::comments_view;
use crate::ImageMetadata;
use crate::MetaView;

verus! {

/// An error that occurred while decoding a JPEG image.
#[derive(Debug, Clone, PartialEq, Eq)]
pub enum JpegDecodingError {
    /// Reserved for a missing leading SOI check; not reachable once the
    /// dispatcher has matched the SOI bytes.
    NoSoiMarker,
    /// The scan ended without meeting a SOF segment.  Carries the comments
    /// collected before the failure, for diagnostics.
    NoSofMarker { position: usize, comments: Vec<Vec<u8>> },
    /// A SOF segment's payload held fewer than the 5 bytes that carry the
    /// sample precision and the dimensions.
    SofDataTooShort { position: usize },
    /// A marker word below `0xFF01`, or `0xFFFF`, stood where a segment was
    /// expected.
    InvalidFrameMarker { word: u16, position: usize },
    /// A segment's declared length was below 2 or ran past the buffer.
    InvalidSegmentLength(usize),
}

/// The mathematical content of a [`JpegDecodingError`].
pub enum JpegErrView {
    NoSoi,
    NoSof { position: int, comments: Seq<Seq<u8>> },
    SofDataTooShort { position: int },
    InvalidFrameMarker { word: u16, position: int },
    InvalidSegmentLength(int),
}

impl View for JpegDecodingError {
    type V = JpegErrView;

    open spec fn view(&self) -> JpegErrView {
        match self {
            JpegDecodingError::NoSoiMarker => JpegErrView::NoSoi,
            JpegDecodingError::NoSofMarker { position, comments } => JpegErrView::NoSof {
                position: *position as int,
                comments: comments_view(comments@),
            },
            JpegDecodingError::SofDataTooShort { position } => JpegErrView::SofDataTooShort {
                position: *position as int,
            },
            JpegDecodingError::InvalidFrameMarker { word, position } => JpegErrView::InvalidFrameMarker {
                word: *word,
                position: *position as int,
            },
            JpegDecodingError::InvalidSegmentLength(l) => JpegErrView::InvalidSegmentLength(
                *l as int,
            ),
        }
    }
}

/// Whether a marker starts at `q`: `0xFF` followed by a byte above `0x01`,
/// with both bytes inside the buffer.
pub open spec fn is_marker_at(buf: Seq<u8>, q: int) -> bool {
    0 <= q && q + 1 < buf.len() && buf[q] == 0xff && buf[q + 1] > 0x01
}

/// The first position at or after `i` where a marker starts, if any.
pub open spec fn first_marker_from(buf: Seq<u8>, i: int) -> Option<int>
    decreases buf.len() - i,
{
    if i < 0 || i + 1 >= buf.len() {
        None
    } else if is_marker_at(buf, i) {
        Some(i)
    } else {
        first_marker_from(buf, i + 1)
    }
}

proof fn lemma_first_marker_some(buf: Seq<u8>, i: int)
    requires
        first_marker_from(buf, i) is Some,
    ensures
        first_marker_from(buf, i) matches Some(q) && i <= q && is_marker_at(buf, q) && forall|
            j: int,
        | i <= j < q ==> !is_marker_at(buf, j),
    decreases buf.len() - i,
{
    if !(i < 0 || i + 1 >= buf.len()) && !is_marker_at(buf, i) {
        lemma_first_marker_some(buf, i + 1);
    }
}

proof fn lemma_first_marker_none(buf: Seq<u8>, i: int)
    requires
        forall|q: int| i <= q ==> !is_marker_at(buf, q),
    ensures
        first_marker_from(buf, i) is None,
    decreases buf.len() - i,
{
    if !(i < 0 || i + 1 >= buf.len()) {
        lemma_first_marker_none(buf, i + 1);
    }
}

proof fn lemma_first_marker_found(buf: Seq<u8>, i: int, q: int)
    requires
        0 <= i <= q,
        is_marker_at(buf, q),
        forall|j: int| i <= j < q ==> !is_marker_at(buf, j),
    ensures
        first_marker_from(buf, i) == Some(q),
    decreases q - i,
{
    if i < q {
        lemma_first_marker_found(buf, i + 1, q);
    }
}

/// Where the resynchronization walk from `pos` ends: at the first marker at
/// or after `pos`; at the last byte, where it is a trailing `0xFF` with no
/// marker after `pos`; at the buffer's end otherwise.  A walk started within
/// one byte of the end does not move.
pub open spec fn resync_pos(buf: Seq<u8>, pos: int) -> int {
    let len = buf.len() as int;
    if pos + 1 >= len {
        pos
    } else {
        match first_marker_from(buf, pos) {
            Some(q) => q,
            None => if buf[len - 1] == 0xff {
                len - 1
            } else {
                len
            },
        }
    }
}

/// The cursor after the alignment check that opens each segment read: the
/// cursor itself if it stands on `0xFF`, else where resynchronization ends.
pub open spec fn align_pos(buf: Seq<u8>, pos: int) -> int {
    if 0 <= pos < buf.len() && buf[pos] == 0xff {
        pos
    } else {
        resync_pos(buf, pos)
    }
}

/// What one segment read yields.
pub enum SegStep {
    /// The scan is over: the cursor is out of bytes, or EOI or SOS stands at
    /// `pos`.
    End { pos: int },
    /// A segment: its marker stood at `pos`, its payload is
    /// `buf[data_start..new_pos]`, and the cursor moves to `new_pos`.  A SOI
    /// met mid-stream is a segment with an empty payload.
    Seg { pos: int, marker: u16, data_start: int, new_pos: int },
    /// A structural error.
    Fail { err: JpegErrView },
}

/// One segment read at `pos`: align the cursor on `0xFF` (resynchronizing if
/// need be), read the marker word, stop at EOI or SOS, pass SOI through as
/// an empty segment, reject invalid marker words, then read the length and
/// check that the payload fits.
pub open spec fn seg_step(buf: Seq<u8>, pos: int) -> SegStep {
    let len = buf.len() as int;
    let p = align_pos(buf, pos);
    if !(0 <= p < len && buf[p] == 0xff) || p + 1 >= len {
        SegStep::End { pos: p }
    } else {
        let marker = be16(buf, p);
        if marker == 0xffd9 || marker == 0xffda {
            SegStep::End { pos: p }
        } else if marker == 0xffd8 {
            SegStep::Seg { pos: p, marker, data_start: p + 2, new_pos: p + 2 }
        } else if marker < 0xff01 || marker == 0xffff {
            SegStep::Fail { err: JpegErrView::InvalidFrameMarker { word: marker, position: p } }
        } else if p + 4 > len {
            SegStep::End { pos: p }
        } else {
            let l = be16(buf, p + 2) as int;
            if l < 2 || l > len - p - 2 {
                SegStep::Fail { err: JpegErrView::InvalidSegmentLength(l) }
            } else {
                SegStep::Seg { pos: p, marker, data_start: p + 4, new_pos: p + 2 + l }
            }
        }
    }
}

proof fn lemma_resync_pos_bounds(buf: Seq<u8>, pos: int)
    requires
        0 <= pos,
    ensures
        pos <= resync_pos(buf, pos) <= vstd::math::max(pos, buf.len() as int),
{
    let len = buf.len() as int;
    if pos + 1 < len {
        if first_marker_from(buf, pos) is Some {
            lemma_first_marker_some(buf, pos);
        }
    }
}

proof fn lemma_seg_step_bounds(buf: Seq<u8>, pos: int)
    requires
        0 <= pos,
    ensures
        seg_step(buf, pos) matches SegStep::Seg { pos: p, data_start, new_pos, .. } ==> pos <= p
            && p + 2 <= data_start <= new_pos <= buf.len() && pos < new_pos,
        seg_step(buf, pos) matches SegStep::End { pos: p } ==> pos <= p <= vstd::math::max(
            pos,
            buf.len() as int,
        ),
        pos <= align_pos(buf, pos) <= vstd::math::max(pos, buf.len() as int),
{
    lemma_resync_pos_bounds(buf, pos);
}

/// Whether `m` is a Start-Of-Frame marker: `0xFFC0` through `0xFFCF`, less
/// DHT (`0xFFC4`), JPG (`0xFFC8`) and DAC (`0xFFCC`).
pub open spec fn is_sof_marker(m: u16) -> bool {
    0xffc0 <= m <= 0xffcf && m != 0xffc4 && m != 0xffc8 && m != 0xffcc
}

/// What ends a scan that met no error: the recorded dimensions, or
/// `NoSofMarker` carrying the cursor and the comments collected so far.
pub open spec fn jpeg_finish(pos: int, dims: Option<(u32, u32)>, comments: Seq<Seq<u8>>) -> Result<
    MetaView,
    JpegErrView,
> {
    match dims {
        Some(d) => Ok(MetaView { width: d.0, height: d.1, comments }),
        None => Err(JpegErrView::NoSof { position: pos, comments }),
    }
}

/// One walk over the segments of `buf` from `pos`, with the dimensions and
/// comments accumulated so far.  The first SOF segment with a payload of at
/// least 5 bytes records height then width, each big-endian 16-bit, at
/// payload offsets 1 and 3; a shorter SOF payload is an error; later SOF
/// segments do not overwrite the recorded pair.  Each COM segment appends
/// its payload to the comments.
pub open spec fn jpeg_scan(
    buf: Seq<u8>,
    pos: int,
    dims: Option<(u32, u32)>,
    comments: Seq<Seq<u8>>,
) -> Result<MetaView, JpegErrView>
    decreases buf.len() - pos,
    when 0 <= pos
    via jpeg_scan_decreases
{
    match seg_step(buf, pos) {
        SegStep::End { pos: p } => jpeg_finish(p, dims, comments),
        SegStep::Fail { err } => Err(err),
        SegStep::Seg { pos: p, marker, data_start, new_pos } => {
            let data = buf.subrange(data_start, new_pos);
            if is_sof_marker(marker) && dims is None {
                if data.len() < 5 {
                    Err(JpegErrView::SofDataTooShort { position: p })
                } else {
                    jpeg_scan(
                        buf,
                        new_pos,
                        Some((be16(data, 3) as u32, be16(data, 1) as u32)),
                        comments,
                    )
                }
            } else if marker == 0xfffe {
                jpeg_scan(buf, new_pos, dims, comments.push(data))
            } else {
                jpeg_scan(buf, new_pos, dims, comments)
            }
        },
    }
}

#[via_fn]
proof fn jpeg_scan_decreases(buf: Seq<u8>, pos: int, dims: Option<(u32, u32)>, comments: Seq<Seq<u8>>) {
    lemma_seg_step_bounds(buf, pos);
}

/// The scanner's state: the buffer, the cursor, and what has been collected.
pub struct JpegContext<'a> {
    pub buf: &'a [u8],
    pub position: usize,
    pub comments: Vec<Vec<u8>>,
    pub dimensions: Option<(u32, u32)>,
}

/// A segment: its marker, the byte offset at which it began, and a borrowed
/// slice of its payload.
pub struct JpegSegment<'a> {
    pub position: usize,
    pub marker: u16,
    pub data: &'a [u8],
}

impl<'a> JpegContext<'a> {
    /// Read a segment from the JPEG data.  Returns the marker, and the data
    /// following the marker.
    ///
    /// Returns `None` if the end of the JPEG data has been reached.
    pub fn read_segment(&mut self) -> (r: Result<Option<JpegSegment<'a>>, JpegDecodingError>)
        ensures
            final(self).buf == old(self).buf,
            final(self).comments == old(self).comments,
            final(self).dimensions == old(self).dimensions,
            match seg_step(old(self).buf@, old(self).position as int) {
                SegStep::End { pos } => r matches Ok(None) && final(self).position as int == pos,
                SegStep::Fail { err } => r matches Err(e) && e@ == err
                    && final(self).position as int == align_pos(
                    old(self).buf@,
                    old(self).position as int,
                ),
                SegStep::Seg { pos, marker, data_start, new_pos } => r matches Ok(Some(seg))
                    && seg.position as int == pos && seg.marker == marker && seg.data@ == old(
                    self,
                ).buf@.subrange(data_start, new_pos) && final(self).position as int == new_pos,
            },
    {
        let buf = self.buf;
        let len = buf.len();
        // If the current byte is not 0xff, resync to the next marker.
        if self.position >= len || *slice_index_get(buf, self.position) != 0xff {
            self.resync();
        }
        let p = self.position;
        assert(p as int == align_pos(buf@, old(self).position as int));
        // If the current byte is still not 0xff, we have reached the end of
        // the data; likewise if no second marker byte fits.
        if p >= len || *slice_index_get(buf, p) != 0xff {
            return Ok(None);
        }
        if p + 1 >= len {
            return Ok(None);
        }
        let marker = be16_at(buf, p);
        // EOI ends the image, SOS starts entropy-coded data: in both cases
        // all the metadata there is to see has been seen.
        if marker == 0xffd9 || marker == 0xffda {
            return Ok(None);
        }
        // A SOI met mid-stream is passed through as an empty segment.
        if marker == 0xffd8 {
            self.position = p + 2;
            let data = slice_subrange(buf, p + 2, p + 2);
            return Ok(Some(JpegSegment { position: p, marker, data }));
        }
        if marker < 0xff01 || marker == 0xffff {
            return Err(JpegDecodingError::InvalidFrameMarker { word: marker, position: p });
        }
        // The 2-byte length must fit in the buffer; a marker whose length
        // field is cut off ends the scan like any other exhaustion.
        if len - p < 4 {
            return Ok(None);
        }
        let l = be16_at(buf, p + 2) as usize;
        // The length includes its own 2 bytes, and the payload must fit.
        if l < 2 || l > len - p - 2 {
            return Err(JpegDecodingError::InvalidSegmentLength(l));
        }
        let data = slice_subrange(buf, p + 4, p + 2 + l);
        self.position = p + 2 + l;
        Ok(Some(JpegSegment { position: p, marker, data }))
    }

    /// Resync to the next marker.
    /// This is used to recover from errors in the JPEG data.
    fn resync(&mut self)
        ensures
            final(self).buf == old(self).buf,
            final(self).comments == old(self).comments,
            final(self).dimensions == old(self).dimensions,
            final(self).position as int == resync_pos(old(self).buf@, old(self).position as int),
    {
        let buf = self.buf;
        let len = buf.len();
        let ghost pos0 = self.position as int;
        if len < 2 {
            return ;
        }
        if self.position >= len - 1 {
            return ;
        }
        let mut pos = self.position;
        while pos < len - 1
            invariant_except_break
                len == buf@.len(),
                2 <= len,
                pos0 <= pos <= len,
                forall|j: int| pos0 <= j < pos ==> !is_marker_at(buf@, j),
                pos < len ==> pos == pos0 || buf@[pos as int] == 0xff,
                pos == len ==> buf@[len as int - 1] != 0xff,
            ensures
                pos0 <= pos <= len,
                forall|j: int| pos0 <= j < pos ==> !is_marker_at(buf@, j),
                is_marker_at(buf@, pos as int) || (pos as int >= len - 1 && (pos == len
                    ==> buf@[len as int - 1] != 0xff) && (pos < len ==> pos == pos0
                    || buf@[pos as int] == 0xff)),
            decreases len - pos,
        {
            if *slice_index_get(buf, pos) == 0xff && *slice_index_get(buf, pos + 1) > 0x01 {
                break ;
            }
            let tail = slice_subrange(buf, pos + 1, len);
            match find_byte(tail, 0xff) {
                Some(i) => {
                    proof {
                        assert forall|j: int| pos <= j < pos + 1 + i implies !is_marker_at(
                            buf@,
                            j,
                        ) by {
                            if pos < j {
                                assert(buf@[j] == tail@[j - pos - 1]);
                            }
                        }
                    }
                    pos = pos + 1 + i;
                },
                None => {
                    proof {
                        assert forall|j: int| pos <= j < len implies !is_marker_at(buf@, j) by {
                            if pos < j {
                                assert(buf@[j] == tail@[j - pos - 1]);
                            }
                        }
                        assert(buf@[len as int - 1] == tail@[len as int - 1 - pos - 1]);
                    }
                    pos = len;
                },
            }
        }
        proof {
            let b = buf@;
            if is_marker_at(b, pos as int) {
                lemma_first_marker_found(b, pos0, pos as int);
            } else {
                assert forall|q: int| pos0 <= q implies !is_marker_at(b, q) by {
                    if q < pos {
                    } else if q + 1 < len {
                        assert(b[q] != 0xff || b[q + 1] <= 0x01 || q == pos);
                    }
                }
                lemma_first_marker_none(b, pos0);
                if pos < len {
                    assert(pos as int == len - 1);
                    assert(b[len - 1] == 0xff);
                } else {
                    assert(b[len - 1] != 0xff);
                }
            }
        }
        self.position = pos;
    }
}

/// Relies on `memchr::memchr`: the index of the first occurrence of `needle`
/// in `haystack`, or `None` if it does not occur.
#[verifier::external_body]
fn find_byte(haystack: &[u8], needle: u8) -> (r: Option<usize>)
    ensures
        match r {
            Some(i) => i < haystack@.len() && haystack@[i as int] == needle && forall|j: int|
                0 <= j < i ==> haystack@[j] != needle,
            None => forall|j: int| 0 <= j < haystack@.len() ==> haystack@[j] != needle,
        },
{
    memchr::memchr(needle, haystack)
}

impl<'a> JpegSegment<'a> {
    /// Returns true if this segment is a SOF (Start Of Frame) marker.
    pub fn is_sof(&self) -> (r: bool)
        ensures
            r == is_sof_marker(self.marker),
    {
        self.marker >= 0xffc0 && self.marker <= 0xffcf && self.marker != 0xffc4 && self.marker
            != 0xffc8 && self.marker != 0xffcc
    }

    /// Returns true if this segment is a COM (comment) marker.
    pub fn is_com(&self) -> (r: bool)
        ensures
            r == (self.marker == 0xfffe),
    {
        self.marker == 0xfffe
    }

    /// Read the dimensions from a SOF (Start Of Frame) segment: byte 0 of the
    /// payload is the sample precision, bytes 1-2 the height and bytes 3-4
    /// the width, both big-endian.
    pub fn read_sof(&self) -> (r: Result<(u16, u16), JpegDecodingError>)
        ensures
            match r {
                Ok(d) => self.data@.len() >= 5 && d.0 == be16(self.data@, 3) && d.1 == be16(
                    self.data@,
                    1,
                ),
                Err(e) => self.data@.len() < 5 && e@ == (JpegErrView::SofDataTooShort {
                    position: self.position as int,
                }),
            },
    {
        if self.data.len() < 5 {
            return Err(JpegDecodingError::SofDataTooShort { position: self.position });
        }
        let height = be16_at(self.data, 1);
        let width = be16_at(self.data, 3);
        Ok((width, height))
    }

    /// The segment's payload, copied out of the buffer.
    pub fn into_data(self) -> (r: Vec<u8>)
        ensures
            r@ == self.data@,
    {
        slice_to_vec(self.data)
    }
}

/// Read JPEG data, and return its dimensions and any comments found.
///
/// The walk starts at byte 2, past the SOI marker, which the caller has
/// already checked.
pub fn read_jpeg_data(buf: &[u8]) -> (r: Result<ImageMetadata, JpegDecodingError>)
    ensures
        match r {
            Ok(m) => jpeg_scan(buf@, 2, None, Seq::empty()) == Ok::<MetaView, JpegErrView>(m@),
            Err(e) => jpeg_scan(buf@, 2, None, Seq::empty()) == Err::<MetaView, JpegErrView>(e@),
        },
{
    let mut context = JpegContext { buf, position: 2, comments: Vec::new(), dimensions: None };

    proof {
        assert(comments_view(context.comments@) =~= Seq::<Seq<u8>>::empty());
    }

    loop
        invariant_except_break
            jpeg_scan(
                buf@,
                context.position as int,
                context.dimensions,
                comments_view(context.comments@),
            ) == jpeg_scan(buf@, 2, None, Seq::<Seq<u8>>::empty()),
        invariant
            context.buf == buf,
            2 <= context.position,
            context.position as int <= vstd::math::max(2, buf@.len() as int),
        ensures
            jpeg_scan(buf@, 2, None, Seq::<Seq<u8>>::empty()) == jpeg_finish(
                context.position as int,
                context.dimensions,
                comments_view(context.comments@),
            ),
        decreases vstd::math::max(2, buf@.len() as int) - context.position,
    {
        let ghost pos0 = context.position as int;
        let ghost dims0 = context.dimensions;
        let ghost cs0 = comments_view(context.comments@);
        proof {
            lemma_seg_step_bounds(buf@, pos0);
        }
        let ghost step = seg_step(buf@, pos0);
        let segment = match context.read_segment() {
            Err(e) => {
                proof {
                    assert(jpeg_scan(buf@, pos0, dims0, cs0) == Err::<MetaView, JpegErrView>(e@));
                }
                return Err(e);
            },
            Ok(None) => {
                proof {
                    assert(jpeg_scan(buf@, pos0, dims0, cs0) == jpeg_finish(
                        context.position as int,
                        dims0,
                        cs0,
                    ));
                }
                break ;
            },
            Ok(Some(segment)) => segment,
        };
        proof {
            assert(step matches SegStep::Seg { pos, marker, data_start, new_pos } && segment.data@
                == buf@.subrange(data_start, new_pos));
        }
        if segment.is_sof() && context.dimensions.is_none() {
            match segment.read_sof() {
                Err(e) => {
                    proof {
                        assert(jpeg_scan(buf@, pos0, dims0, cs0) == Err::<MetaView, JpegErrView>(
                            e@,
                        ));
                    }
                    return Err(e);
                },
                Ok(d) => {
                    context.dimensions = Some((d.0 as u32, d.1 as u32));
                },
            }
        } else if segment.is_com() {
            let data = segment.into_data();
            let ghost dv = data@;
            context.comments.push(data);
            proof {
                assert(context.comments@.last()@ == dv);
                assert(comments_view(context.comments@) =~= cs0.push(dv));
            }
        }
        proof {
            assert(jpeg_scan(buf@, pos0, dims0, cs0) == jpeg_scan(
                buf@,
                context.position as int,
                context.dimensions,
                comments_view(context.comments@),
            ));
        }
    }

    match context.dimensions {
        Some(d) => Ok(ImageMetadata { width: d.0, height: d.1, comments: context.comments }),
        None => Err(
            JpegDecodingError::NoSofMarker {
                position: context.position,
                comments: context.comments,
            },
        ),
    }
}

proof fn lemma_prefix_push(s: Seq<Seq<u8>>, x: Seq<u8>)
    ensures
        s.is_prefix_of(s.push(x)),
{
    assert(s =~= s.push(x).subrange(0, s.len() as int));
}

proof fn lemma_prefix_trans(a: Seq<Seq<u8>>, b: Seq<Seq<u8>>, c: Seq<Seq<u8>>)
    requires
        a.is_prefix_of(b),
        b.is_prefix_of(c),
    ensures
        a.is_prefix_of(c),
{
    assert(a =~= c.subrange(0, a.len() as int));
}

/// Dimensions, once recorded, are never overwritten: a scan that starts with
/// a recorded pair and succeeds reports exactly that pair.  The first SOF
/// segment wins.
pub proof fn lemma_jpeg_scan_keeps_dimensions(
    buf: Seq<u8>,
    pos: int,
    d: (u32, u32),
    comments: Seq<Seq<u8>>,
    m: MetaView,
)
    requires
        0 <= pos,
        jpeg_scan(buf, pos, Some(d), comments) == Ok::<MetaView, JpegErrView>(m),
    ensures
        m.width == d.0,
        m.height == d.1,
    decreases buf.len() - pos,
{
    lemma_seg_step_bounds(buf, pos);
    match seg_step(buf, pos) {
        SegStep::End { .. } => {},
        SegStep::Fail { .. } => {},
        SegStep::Seg { pos: p, marker, data_start, new_pos } => {
            let data = buf.subrange(data_start, new_pos);
            if marker == 0xfffe {
                lemma_jpeg_scan_keeps_dimensions(buf, new_pos, d, comments.push(data), m);
            } else {
                lemma_jpeg_scan_keeps_dimensions(buf, new_pos, d, comments, m);
            }
        },
    }
}

/// Where a scan that starts with no recorded dimensions succeeds, the
/// dimensions come from a Start-Of-Frame segment of the buffer: the width is
/// the big-endian 16-bit value at payload offsets 3-4 and the height the one
/// at offsets 1-2.  With exactly one SOF segment in the buffer, that segment
/// is the witness.
pub proof fn lemma_jpeg_dimensions_from_sof(
    buf: Seq<u8>,
    pos: int,
    comments: Seq<Seq<u8>>,
    m: MetaView,
)
    requires
        0 <= pos,
        jpeg_scan(buf, pos, None, comments) == Ok::<MetaView, JpegErrView>(m),
    ensures
        exists|q: int|
            {
                &&& pos <= q
                &&& (#[trigger] seg_step(buf, q)) matches SegStep::Seg {
                    marker,
                    data_start,
                    new_pos,
                    ..
                }
                &&& is_sof_marker(marker)
                &&& new_pos - data_start >= 5
                &&& m.width == be16(buf, data_start + 3) as u32
                &&& m.height == be16(buf, data_start + 1) as u32
            },
    decreases buf.len() - pos,
{
    lemma_seg_step_bounds(buf, pos);
    match seg_step(buf, pos) {
        SegStep::End { .. } => {},
        SegStep::Fail { .. } => {},
        SegStep::Seg { pos: p, marker, data_start, new_pos } => {
            let data = buf.subrange(data_start, new_pos);
            if is_sof_marker(marker) {
                let d = (be16(data, 3) as u32, be16(data, 1) as u32);
                lemma_jpeg_scan_keeps_dimensions(buf, new_pos, d, comments, m);
                assert(be16(data, 3) == be16(buf, data_start + 3));
                assert(be16(data, 1) == be16(buf, data_start + 1));
                assert(pos <= pos && (seg_step(buf, pos) matches SegStep::Seg { .. }));
            } else if marker == 0xfffe {
                lemma_jpeg_dimensions_from_sof(buf, new_pos, comments.push(data), m);
            } else {
                lemma_jpeg_dimensions_from_sof(buf, new_pos, comments, m);
            }
        },
    }
}

/// Comment order equals encounter order: a scan only appends to the comments
/// it was started with, which stay, unchanged and in order, ahead of those
/// found later.  This holds of the comments of a successful scan and of
/// those that a failed scan reports with `NoSofMarker`.
pub proof fn lemma_jpeg_comments_in_order(
    buf: Seq<u8>,
    pos: int,
    dims: Option<(u32, u32)>,
    comments: Seq<Seq<u8>>,
)
    requires
        0 <= pos,
    ensures
        jpeg_scan(buf, pos, dims, comments) matches Ok(m) ==> comments.is_prefix_of(m.comments),
        jpeg_scan(buf, pos, dims, comments) matches Err(JpegErrView::NoSof { comments: cs, .. })
            ==> comments.is_prefix_of(cs),
    decreases buf.len() - pos,
{
    lemma_seg_step_bounds(buf, pos);
    assert(comments =~= comments.subrange(0, comments.len() as int));
    match seg_step(buf, pos) {
        SegStep::End { .. } => {},
        SegStep::Fail { .. } => {},
        SegStep::Seg { pos: p, marker, data_start, new_pos } => {
            let data = buf.subrange(data_start, new_pos);
            if is_sof_marker(marker) && dims is None {
                if data.len() >= 5 {
                    lemma_jpeg_comments_in_order(
                        buf,
                        new_pos,
                        Some((be16(data, 3) as u32, be16(data, 1) as u32)),
                        comments,
                    );
                }
            } else if marker == 0xfffe {
                lemma_jpeg_comments_in_order(buf, new_pos, dims, comments.push(data));
                lemma_prefix_push(comments, data);
                match jpeg_scan(buf, new_pos, dims, comments.push(data)) {
                    Ok(m) => {
                        lemma_prefix_trans(comments, comments.push(data), m.comments);
                    },
                    Err(e) => {
                        if e matches JpegErrView::NoSof { comments: cs, .. } {
                            lemma_prefix_trans(comments, comments.push(data), e->NoSof_comments);
                        }
                    },
                }
            } else {
                lemma_jpeg_comments_in_order(buf, new_pos, dims, comments);
            }
        },
    }
}

} // verus!
