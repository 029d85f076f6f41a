use pb_imgsize::jpeg::JpegDecodingError;
use pb_imgsize::png::PngDecodingError;
use pb_imgsize::read_bytes;
use pb_imgsize::DecodingError;
use pb_imgsize::Error;

fn sample_jpeg() -> Vec<u8> {
    let mut buf: Vec<u8> = vec![0xff, 0xd8];
    buf.extend_from_slice(&[0xff, 0xfe, 0x00, 0x06, 0x68, 0x69, 0x21, 0x21]);
    buf.extend_from_slice(&[0xff, 0xc0, 0x00, 0x07, 0x08, 0x01, 0x55, 0x02, 0x00]);
    buf.extend_from_slice(&[0xff, 0xd9]);
    buf
}

fn sample_png() -> Vec<u8> {
    let mut png: Vec<u8> = vec![0x89, 0x50, 0x4e, 0x47, 0x0d, 0x0a, 0x1a, 0x0a];
    let chunks: [(&[u8; 4], &[u8]); 3] = [
        (b"IHDR", &[0, 0, 0, 2, 0, 0, 0, 3, 8, 0, 0, 0, 0]),
        (b"tEXt", b"comment\0hello"),
        (b"IEND", &[]),
    ];
    for (ty, data) in chunks {
        png.extend_from_slice(&(data.len() as u32).to_be_bytes());
        png.extend_from_slice(&ty[..]);
        png.extend_from_slice(data);
        let mut h = crc32fast::Hasher::new();
        h.update(&ty[..]);
        h.update(data);
        png.extend_from_slice(&h.finalize().to_be_bytes());
    }
    png
}

#[test]
fn short_buffers_are_rejected() {
    let result = read_bytes(&[0x01, 0x02, 0x03]);
    assert_eq!(result, Err(DecodingError::TooShort(3)));

    let result = read_bytes(&[]);
    assert_eq!(result, Err(DecodingError::TooShort(0)));
}

#[test]
fn unknown_magic_is_rejected() {
    let result = read_bytes(&[0x00, 0x00, 0x00, 0x00]);
    assert_eq!(result, Err(DecodingError::UnknownMagic(0)));

    // "GIF8": recognizable to a human, but not a format this reader knows.
    let result = read_bytes(&[0x47, 0x49, 0x46, 0x38, 0x39, 0x61]);
    assert_eq!(result, Err(DecodingError::UnknownMagic(0x47494638)));
}

#[test]
fn jpeg_errors_are_wrapped() {
    let result = read_bytes(&[0xff, 0xd8, 0xff, 0x00]);
    assert!(matches!(result, Err(DecodingError::Jpeg(_))));
}

#[test]
fn png_errors_are_wrapped() {
    let mut png = sample_png();
    png[31] = png[31].wrapping_add(1);
    let result = read_bytes(&png);
    assert!(matches!(result, Err(DecodingError::Png(_))));
}

#[test]
fn every_truncation_returns_a_value() {
    // Progressive truncation of valid files: decoding either succeeds or
    // returns a typed error, and never reads out of range.
    let jpeg = sample_jpeg();
    for n in 0..=jpeg.len() {
        let result = read_bytes(&jpeg[..n]);
        assert!(result.is_ok() || result.is_err());
    }
    let png = sample_png();
    for n in 0..=png.len() {
        let result = read_bytes(&png[..n]);
        assert!(result.is_ok() || result.is_err());
    }
}

#[test]
fn every_byte_flip_returns_a_value() {
    let jpeg = sample_jpeg();
    for i in 0..jpeg.len() {
        let mut data = jpeg.clone();
        data[i] = data[i].wrapping_add(0x40);
        let result = read_bytes(&data);
        assert!(result.is_ok() || result.is_err());
    }
    let png = sample_png();
    for i in 0..png.len() {
        let mut data = png.clone();
        data[i] = data[i].wrapping_add(0x40);
        let result = read_bytes(&data);
        assert!(result.is_ok() || result.is_err());
    }
}

#[test]
fn dispatches_both_formats() {
    let metadata = read_bytes(&sample_jpeg()).unwrap();
    assert_eq!(512, metadata.width);
    assert_eq!(341, metadata.height);
    assert_eq!(vec![b"hi!!".to_vec()], metadata.comments);

    let metadata = read_bytes(&sample_png()).unwrap();
    assert_eq!(2, metadata.width);
    assert_eq!(3, metadata.height);
    assert_eq!(vec![b"hello".to_vec()], metadata.comments);
}

#[test]
fn error_conversions_wrap_the_inner_error() {
    assert_eq!(
        DecodingError::from(JpegDecodingError::NoSoiMarker),
        DecodingError::Jpeg(JpegDecodingError::NoSoiMarker)
    );
    assert_eq!(
        DecodingError::from(PngDecodingError::MissingIHDR),
        DecodingError::Png(PngDecodingError::MissingIHDR)
    );
    let e = Error::from(DecodingError::TooShort(0));
    assert!(matches!(e, Error::Decoding(DecodingError::TooShort(0))));
}
