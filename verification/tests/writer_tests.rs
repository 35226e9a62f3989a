use sortify::exif::ExifProcessor;
use sortify::exif_writer::{create_app1_segment, insert_app1_segment, ExifTagType, ExifWriter};
use sortify::timestamp::CaptureTimestamp;

#[test]
fn tag_type_sizes() {
    assert_eq!(ExifTagType::Byte.size(), 1);
    assert_eq!(ExifTagType::Ascii.size(), 1);
    assert_eq!(ExifTagType::Short.size(), 2);
    assert_eq!(ExifTagType::Long.size(), 4);
    assert_eq!(ExifTagType::Rational.size(), 8);
    assert_eq!(ExifTagType::Undefined.size(), 1);
    assert_eq!(ExifTagType::SLong.size(), 4);
    assert_eq!(ExifTagType::SRational.size(), 8);
}

#[test]
fn short_tag_renders_exact_tiff_bytes() {
    let mut w = ExifWriter::new();
    w.add_short_tag("Orientation", 1).unwrap();
    let bytes = w.to_bytes().unwrap();
    let expected: Vec<u8> = vec![
        0x49, 0x49, 42, 0, 8, 0, 0, 0, // TIFF header, little-endian
        1, 0, // one entry
        0x12, 0x01, 3, 0, 1, 0, 0, 0, 1, 0, 0, 0, // Orientation, Short, count 1, value 1
        0, 0, 0, 0, // no next directory
    ];
    assert_eq!(bytes, expected);
}

#[test]
fn ascii_tag_value_goes_to_overflow_area() {
    let mut w = ExifWriter::new();
    w.add_ascii_tag("DateTime", "2025:09:24 08:20:49").unwrap();
    let bytes = w.to_bytes().unwrap();
    let mut expected: Vec<u8> = vec![
        0x49, 0x49, 42, 0, 8, 0, 0, 0, // TIFF header
        1, 0, // one entry
        0x32, 0x01, 2, 0, 20, 0, 0, 0, 0, 0, 0, 0, // DateTime, Ascii, count 20, offset word
        0, 0, 0, 0, // no next directory
    ];
    expected.extend_from_slice(b"2025:09:24 08:20:49\0");
    assert_eq!(bytes, expected);
}

#[test]
fn timestamp_tag_equals_its_text_form() {
    let ts = CaptureTimestamp { year: 2025, month: 9, day: 24, hour: 8, minute: 20, second: 49, millis: 680 };
    let mut a = ExifWriter::new();
    a.add_timestamp("DateTimeOriginal", &ts).unwrap();
    let mut b = ExifWriter::new();
    b.add_ascii_tag("DateTimeOriginal", "2025:09:24 08:20:49").unwrap();
    assert_eq!(a.to_bytes().unwrap(), b.to_bytes().unwrap());
}

#[test]
fn long_tag_little_endian_value() {
    let mut w = ExifWriter::new();
    w.add_long_tag("PixelXDimension", 0x01020304).unwrap();
    let bytes = w.to_bytes().unwrap();
    // the value word of the single entry holds the little-endian u32
    assert_eq!(&bytes[18..22], &[4, 3, 2, 1]);
}

#[test]
fn unknown_tag_is_refused() {
    let mut w = ExifWriter::new();
    let e = w.add_short_tag("NotATag", 1).unwrap_err();
    assert_eq!(e, "Unknown EXIF tag: NotATag");
}

#[test]
fn app1_segment_layout() {
    let payload = vec![1u8, 2, 3];
    let seg = create_app1_segment(&payload).unwrap();
    let mut expected: Vec<u8> = vec![0xff, 0xe1, 0x00, 0x0b];
    expected.extend_from_slice(b"Exif\0\0");
    expected.extend_from_slice(&[1, 2, 3]);
    assert_eq!(seg, expected);
}

#[test]
fn app1_segment_refuses_oversized_payload() {
    let payload = vec![0u8; 70000];
    let e = create_app1_segment(&payload).unwrap_err();
    assert_eq!(e, "EXIF data too large for JPEG APP1 segment");
}

#[test]
fn insert_plants_segment_after_soi() {
    let mut jpeg: Vec<u8> = vec![0xff, 0xd8, 0xff, 0xd9];
    let seg: Vec<u8> = vec![0xaa, 0xbb];
    insert_app1_segment(&mut jpeg, &seg).unwrap();
    assert_eq!(jpeg, vec![0xff, 0xd8, 0xaa, 0xbb, 0xff, 0xd9]);
}

#[test]
fn insert_replaces_existing_app1() {
    let mut jpeg: Vec<u8> = vec![0xff, 0xd8, 0xff, 0xe1, 0x00, 0x04, 0x01, 0x02, 0xff, 0xd9];
    let seg: Vec<u8> = vec![0xaa, 0xbb];
    insert_app1_segment(&mut jpeg, &seg).unwrap();
    assert_eq!(jpeg, vec![0xff, 0xd8, 0xaa, 0xbb, 0xff, 0xd9]);
}

#[test]
fn insert_without_soi_reports_error() {
    let mut jpeg: Vec<u8> = vec![0x00, 0x01, 0x02];
    let seg: Vec<u8> = vec![0xaa];
    let e = insert_app1_segment(&mut jpeg, &seg).unwrap_err();
    assert_eq!(e, "Invalid JPEG file: SOI marker not found");
    assert_eq!(jpeg, vec![0x00, 0x01, 0x02]);
}

#[test]
fn tags_picked_by_narrowest_parse() {
    let p = ExifProcessor::new();
    let mut w = ExifWriter::new();
    // parses as u16: stored as a Short
    p.add_tag_to_writer(&mut w, "Orientation", "1").unwrap();
    // too large for u16, fits u32: stored as a Long
    p.add_tag_to_writer(&mut w, "PixelXDimension", "70000").unwrap();
    // not numeric: stored as ASCII
    p.add_tag_to_writer(&mut w, "Artist", "Ansel").unwrap();
    let bytes = w.to_bytes().unwrap();
    // three entries in the directory
    assert_eq!(&bytes[8..10], &[3, 0]);
    // first entry is a Short, second a Long, third Ascii
    assert_eq!(bytes[10 + 2], 3);
    assert_eq!(bytes[22 + 2], 4);
    assert_eq!(bytes[34 + 2], 2);
}
