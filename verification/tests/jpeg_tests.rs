use pb_imgsize::jpeg::read_jpeg_data;
use pb_imgsize::jpeg::JpegContext;
use pb_imgsize::jpeg::JpegDecodingError;
use pb_imgsize::jpeg::JpegSegment;
use pb_imgsize::read_bytes;

/// A small JPEG: SOI, APP0 (JFIF), COM "Buttercups", SOF0 512x341, SOS, EOI.
fn sample_jpeg() -> Vec<u8> {
    let mut buf: Vec<u8> = Vec::new();
    buf.extend_from_slice(&[0xff, 0xd8]);
    // APP0, length 0x10: "JFIF\0" and version/density fields
    buf.extend_from_slice(&[0xff, 0xe0, 0x00, 0x10]);
    buf.extend_from_slice(b"JFIF\0");
    buf.extend_from_slice(&[0x01, 0x01, 0x00, 0x00, 0x00, 0x00, 0x00, 0x00, 0x00]);
    // COM, length 0x0c: "Buttercups"
    buf.extend_from_slice(&[0xff, 0xfe, 0x00, 0x0c]);
    buf.extend_from_slice(b"Buttercups");
    // SOF0, length 0x11: precision 8, height 0x0155 = 341, width 0x0200 = 512
    buf.extend_from_slice(&[0xff, 0xc0, 0x00, 0x11, 0x08, 0x01, 0x55, 0x02, 0x00]);
    buf.extend_from_slice(&[0x03, 0x01, 0x11, 0x00, 0x02, 0x11, 0x01, 0x03, 0x11, 0x01]);
    // SOS, then entropy-coded data and EOI
    buf.extend_from_slice(&[0xff, 0xda, 0x00, 0x08, 0x01, 0x01, 0x00, 0x00, 0x3f, 0x00]);
    buf.extend_from_slice(&[0x12, 0x34, 0x56, 0xff, 0xd9]);
    buf
}

#[test]
fn test_is_sof_marker() {
    let mut segment = JpegSegment {
        position: 0,
        marker: 0xffc0,
        data: &[],
    };

    segment.marker = 0xffc0;
    assert!(segment.is_sof(), "SOF0");
    segment.marker = 0xffc1;
    assert!(segment.is_sof(), "SOF1");
    segment.marker = 0xffc2;
    assert!(segment.is_sof(), "SOF2");
    segment.marker = 0xffc3;
    assert!(segment.is_sof(), "SOF3");
    segment.marker = 0xffc5;
    assert!(segment.is_sof(), "SOF5");
    segment.marker = 0xffc6;
    assert!(segment.is_sof(), "SOF6");
    segment.marker = 0xffc7;
    assert!(segment.is_sof(), "SOF7");
    segment.marker = 0xffc9;
    assert!(segment.is_sof(), "SOF9");
    segment.marker = 0xffca;
    assert!(segment.is_sof(), "SOF10");
    segment.marker = 0xffcb;
    assert!(segment.is_sof(), "SOF11");
    segment.marker = 0xffcd;
    assert!(segment.is_sof(), "SOF13");
    segment.marker = 0xffce;
    assert!(segment.is_sof(), "SOF14");
    segment.marker = 0xffcf;
    assert!(segment.is_sof(), "SOF15");
    segment.marker = 0xffc4;
    assert!(!segment.is_sof(), "DHT");
    segment.marker = 0xffc8;
    assert!(!segment.is_sof(), "JPG");
}

#[test]
fn dac_marker_is_not_sof() {
    let segment = JpegSegment {
        position: 0,
        marker: 0xffcc,
        data: &[],
    };
    assert!(!segment.is_sof(), "DAC");
}

/// Create a SOF0 segment from the given data, and read its dimensions.
fn read_sof(data: &[u8]) -> (u16, u16) {
    let segment = JpegSegment {
        marker: 0xffc0,
        position: 0,
        data,
    };

    assert!(segment.is_sof());
    segment.read_sof().unwrap()
}

#[test]
fn read_sof_decodes_big_endian_dimensions() {
    // read_sof() does not read past the width field, so the rest of the
    // payload can be omitted.
    assert_eq!(read_sof(&[0x08, 0x00, 0x01, 0x00, 0x01]), (1, 1));
    assert_eq!(read_sof(&[0x08, 0x00, 0x02, 0x00, 0x01]), (1, 2));
    assert_eq!(read_sof(&[0x08, 0x00, 0x01, 0x00, 0x02]), (2, 1));
    assert_eq!(read_sof(&[0x08, 0x00, 0x02, 0x00, 0x02]), (2, 2));
    assert_eq!(read_sof(&[0x08, 0x08, 0x00, 0x03, 0xe8]), (1000, 2048));
}

#[test]
fn decodes_dimensions_and_comment() {
    let buf = sample_jpeg();
    let metadata = read_bytes(&buf).unwrap();
    assert_eq!(512, metadata.width);
    assert_eq!(341, metadata.height);
    assert_eq!(vec![b"Buttercups".to_vec()], metadata.comments);
}

#[test]
fn comment_segment_reads_payload() {
    let buf = sample_jpeg();
    // The COM segment starts at 0x14: ff fe 00 0c "Buttercups".
    let mut context = JpegContext {
        buf: &buf,
        position: 0x14,
        comments: vec![],
        dimensions: None,
    };
    let segment = context.read_segment().unwrap().unwrap();
    assert_eq!(segment.marker, 0xfffe);
    assert!(segment.is_com());
    assert_eq!(segment.into_data(), b"Buttercups");
}

#[test]
fn resyncs_from_inside_comment_text() {
    let buf = sample_jpeg();
    // Point the context into the middle of the COM payload (0x18 is inside
    // "Buttercups"); it must resync forward to the next real marker, the
    // SOF0 segment at 0x22, rather than erroring immediately.
    let mut context = JpegContext {
        buf: &buf,
        position: 0x18,
        comments: vec![],
        dimensions: None,
    };
    let segment = context.read_segment().unwrap().unwrap();
    assert_eq!(segment.marker, 0xffc0);
    assert_eq!(segment.position, 0x22);

    // Scanning continues successfully from there: the dimensions are found.
    let mut context = JpegContext {
        buf: &buf,
        position: 0x18,
        comments: vec![],
        dimensions: None,
    };
    let mut dims: Option<(u16, u16)> = None;
    while let Ok(Some(segment)) = context.read_segment() {
        if segment.is_sof() {
            dims = Some(segment.read_sof().unwrap());
            break;
        }
    }
    assert_eq!(dims, Some((512, 341)));
}

#[test]
fn resyncs_over_garbage_between_segments() {
    // SOI, then bytes that are no marker at all, then a SOF and EOI: the
    // scanner recovers and still finds the dimensions.
    let mut buf: Vec<u8> = vec![0xff, 0xd8];
    buf.extend_from_slice(b"garbage bytes");
    buf.extend_from_slice(&[0xff, 0xc0, 0x00, 0x07, 0x08, 0x00, 0x02, 0x00, 0x01]);
    buf.extend_from_slice(&[0xff, 0xd9]);
    let metadata = read_jpeg_data(&buf).unwrap();
    assert_eq!(1, metadata.width);
    assert_eq!(2, metadata.height);
}

#[test]
fn resync_near_end_reports_no_sof() {
    // SOI followed by marker-free bytes, with the trailing EOI cut off: the
    // resynchronization walk runs off the end and the scan reports that no
    // SOF was found, rather than reading out of range.
    let mut buf: Vec<u8> = vec![0xff, 0xd8];
    buf.extend_from_slice(&[0x67, 0xb8, 0xd2, 0x8f, 0x01, 0xce, 0xe6, 0x39, 0x0a, 0x1a]);
    let result = read_jpeg_data(&buf);
    assert!(matches!(
        result,
        Err(JpegDecodingError::NoSofMarker { .. })
    ));

    let mut context = JpegContext {
        buf: &buf,
        position: 4,
        comments: vec![],
        dimensions: None,
    };
    let segment = context.read_segment().unwrap();
    assert!(segment.is_none());
}

#[test]
fn jpeg_comments_keep_encounter_order() {
    let mut buf: Vec<u8> = vec![0xff, 0xd8];
    buf.extend_from_slice(&[0xff, 0xfe, 0x00, 0x07, 0x66, 0x69, 0x72, 0x73, 0x74]);
    buf.extend_from_slice(&[0xff, 0xc0, 0x00, 0x07, 0x08, 0x00, 0x02, 0x00, 0x01]);
    buf.extend_from_slice(&[0xff, 0xfe, 0x00, 0x08, 0x73, 0x65, 0x63, 0x6f, 0x6e, 0x64]);
    buf.extend_from_slice(&[0xff, 0xd9]);
    let metadata = read_jpeg_data(&buf).unwrap();
    assert_eq!(
        vec![b"first".to_vec(), b"second".to_vec()],
        metadata.comments
    );
}

#[test]
fn first_sof_wins() {
    let mut buf: Vec<u8> = vec![0xff, 0xd8];
    buf.extend_from_slice(&[0xff, 0xc0, 0x00, 0x07, 0x08, 0x00, 0x02, 0x00, 0x01]);
    buf.extend_from_slice(&[0xff, 0xc0, 0x00, 0x07, 0x08, 0x00, 0x63, 0x00, 0x63]);
    buf.extend_from_slice(&[0xff, 0xd9]);
    let metadata = read_jpeg_data(&buf).unwrap();
    assert_eq!(1, metadata.width);
    assert_eq!(2, metadata.height);
}

#[test]
fn repeated_soi_is_a_no_op() {
    let mut buf: Vec<u8> = vec![0xff, 0xd8, 0xff, 0xd8];
    buf.extend_from_slice(&[0xff, 0xc0, 0x00, 0x07, 0x08, 0x00, 0x02, 0x00, 0x01]);
    buf.extend_from_slice(&[0xff, 0xd9]);
    let metadata = read_jpeg_data(&buf).unwrap();
    assert_eq!(1, metadata.width);
    assert_eq!(2, metadata.height);
}

#[test]
fn scan_stops_at_sos() {
    // A comment after the SOS marker belongs to entropy-coded data and is
    // not collected.
    let mut buf: Vec<u8> = vec![0xff, 0xd8];
    buf.extend_from_slice(&[0xff, 0xc0, 0x00, 0x07, 0x08, 0x00, 0x02, 0x00, 0x01]);
    buf.extend_from_slice(&[0xff, 0xda, 0x00, 0x04, 0x00, 0x00]);
    buf.extend_from_slice(&[0xff, 0xfe, 0x00, 0x06, 0x68, 0x69, 0x68, 0x69]);
    buf.extend_from_slice(&[0xff, 0xd9]);
    let metadata = read_jpeg_data(&buf).unwrap();
    assert_eq!(1, metadata.width);
    assert!(metadata.comments.is_empty());
}

#[test]
fn invalid_frame_marker_is_reported() {
    let buf: Vec<u8> = vec![0xff, 0xd8, 0xff, 0x00, 0xaa, 0xbb];
    let result = read_jpeg_data(&buf);
    assert_eq!(
        result,
        Err(JpegDecodingError::InvalidFrameMarker {
            word: 0xff00,
            position: 2
        })
    );
}

#[test]
fn invalid_segment_length_is_reported() {
    let buf: Vec<u8> = vec![0xff, 0xd8, 0xff, 0xe0, 0x00, 0x01];
    let result = read_jpeg_data(&buf);
    assert_eq!(result, Err(JpegDecodingError::InvalidSegmentLength(1)));

    // A declared length that runs past the buffer is rejected the same way.
    let buf: Vec<u8> = vec![0xff, 0xd8, 0xff, 0xe0, 0xff, 0xff, 0x00];
    let result = read_jpeg_data(&buf);
    assert_eq!(result, Err(JpegDecodingError::InvalidSegmentLength(0xffff)));
}

#[test]
fn short_sof_payload_is_reported() {
    let buf: Vec<u8> = vec![0xff, 0xd8, 0xff, 0xc0, 0x00, 0x04, 0x08, 0x01];
    let result = read_jpeg_data(&buf);
    assert_eq!(
        result,
        Err(JpegDecodingError::SofDataTooShort { position: 2 })
    );
}

#[test]
fn missing_sof_reports_collected_comments() {
    let buf: Vec<u8> = vec![
        0xff, 0xd8, 0xff, 0xfe, 0x00, 0x04, 0x41, 0x42, 0xff, 0xd9,
    ];
    let result = read_jpeg_data(&buf);
    assert_eq!(
        result,
        Err(JpegDecodingError::NoSofMarker {
            position: 8,
            comments: vec![b"AB".to_vec()],
        })
    );
}
