use filefish::dissectors::{identify, Block, Dissector};
use filefish::dissectors::jpeg::JpegDissector;
use filefish::dissectors::jpeg::{exif_enum_value, exif_tag_name, gps_enum_value, gps_tag_name};

const SOI: u8 = 0xD8;
const EOI: u8 = 0xD9;
const SOS: u8 = 0xDA;
const APP0: u8 = 0xE0;
const APP1: u8 = 0xE1;
const EXIF_IDENTIFIER: &[u8] = b"Exif\0\0";
const JFIF_IDENTIFIER: &[u8] = b"JFIF\0";

fn push_bytes(buf: &mut Vec<u8>, bytes: &[u8]) {
    buf.extend_from_slice(bytes);
}

fn find_block<'a>(blocks: &'a [Block], label: &str) -> &'a Block {
    blocks.iter().find(|b| b.label == label).unwrap_or_else(|| {
        panic!(
            "block {label:?} not found; have {:?}",
            blocks.iter().map(|b| &b.label).collect::<Vec<_>>()
        )
    })
}

/// Builds a minimal synthetic JPEG: SOI, a minimal SOF0 marker (tiny
/// width/height, 1 component), a minimal SOS marker (1 component) with a
/// few bytes of fake entropy-coded scan data, then EOI.
fn build_jpeg() -> Vec<u8> {
    let mut data = Vec::new();

    // SOI
    push_bytes(&mut data, &[0xFF, SOI]);

    // SOF0
    let mut sof = Vec::new();
    sof.push(8); // precision
    push_bytes(&mut sof, &20u16.to_be_bytes()); // height
    push_bytes(&mut sof, &10u16.to_be_bytes()); // width
    sof.push(1); // num components
    sof.push(1); // component id
    sof.push(0x11); // sampling factors
    sof.push(0); // quant table selector

    push_bytes(&mut data, &[0xFF, 0xC0]);
    push_bytes(&mut data, &((sof.len() + 2) as u16).to_be_bytes());
    push_bytes(&mut data, &sof);

    // SOS
    let mut sos = Vec::new();
    sos.push(1); // num components
    sos.push(1); // component selector
    sos.push(0x00); // huffman table selectors
    sos.push(0); // spectral start
    sos.push(63); // spectral end
    sos.push(0); // approximation

    push_bytes(&mut data, &[0xFF, SOS]);
    push_bytes(&mut data, &((sos.len() + 2) as u16).to_be_bytes());
    push_bytes(&mut data, &sos);

    // fake entropy-coded scan data
    push_bytes(&mut data, &[0x12, 0x34, 0x56, 0x78]);

    // EOI
    push_bytes(&mut data, &[0xFF, EOI]);

    data
}

#[test]
fn matches_jpeg_magic() {
    let data = build_jpeg();
    assert!(JpegDissector.matches(&data));
}

#[test]
fn does_not_match_non_jpeg_data() {
    assert!(!JpegDissector.matches(b"not a jpeg file"));
    assert!(!JpegDissector.matches(b""));
    assert!(!JpegDissector.matches(&[0xFF, 0xD9]));
}

#[test]
fn jpeg_dissect_returns_graceful_result_for_truncated_header() {
    let blocks = JpegDissector.dissect(&[0xFF, SOI]);
    assert_eq!(blocks.len(), 1);

    let blocks = JpegDissector.dissect(&[0xFF]);
    assert!(blocks.is_empty());
}

#[test]
fn jpeg_dissect_parses_full_structure() {
    let data = build_jpeg();
    let blocks = JpegDissector.dissect(&data);

    find_block(&blocks, "SOI");

    let sof = find_block(&blocks, "SOF0 marker");
    assert!(sof.children.iter().any(|b| b.label == "Width: 10"));
    assert!(sof.children.iter().any(|b| b.label == "Height: 20"));
    assert!(sof.default_expanded);

    let sos = find_block(&blocks, "SOS");
    assert!(
        sos.children
            .iter()
            .any(|b| b.label == "Entropy-coded scan data")
    );

    find_block(&blocks, "EOI");
}

/// Builds a minimal little-endian Exif APP1 payload (identifier + TIFF
/// header + IFD0 with a Make ASCII tag and an Orientation SHORT tag, no
/// next-IFD).
fn build_exif_app1() -> Vec<u8> {
    let mut tiff = Vec::new();
    push_bytes(&mut tiff, b"II"); // little-endian
    push_bytes(&mut tiff, &42u16.to_le_bytes()); // magic
    push_bytes(&mut tiff, &8u32.to_le_bytes()); // IFD0 offset (right after header)

    let make = b"Acme\0";
    // IFD0 starts at tiff offset 8: 2-byte count, 2 entries * 12 bytes, 4-byte next-IFD offset
    let ifd_start = tiff.len() as u32;
    assert_eq!(ifd_start, 8);
    let make_value_offset = ifd_start + 2 + 2 * 12 + 4;

    push_bytes(&mut tiff, &2u16.to_le_bytes()); // entry count

    // Make (ASCII, count 5, offset since 5 > 4 bytes)
    push_bytes(&mut tiff, &0x010Fu16.to_le_bytes()); // tag
    push_bytes(&mut tiff, &2u16.to_le_bytes()); // type ASCII
    push_bytes(&mut tiff, &(make.len() as u32).to_le_bytes()); // count
    push_bytes(&mut tiff, &make_value_offset.to_le_bytes()); // offset

    // Orientation (SHORT, count 1, inline)
    push_bytes(&mut tiff, &0x0112u16.to_le_bytes()); // tag
    push_bytes(&mut tiff, &3u16.to_le_bytes()); // type SHORT
    push_bytes(&mut tiff, &1u32.to_le_bytes()); // count
    push_bytes(&mut tiff, &1u16.to_le_bytes()); // inline value
    push_bytes(&mut tiff, &0u16.to_le_bytes()); // padding to fill 4-byte field

    push_bytes(&mut tiff, &0u32.to_le_bytes()); // next IFD offset (none)

    push_bytes(&mut tiff, make);

    let mut app1 = Vec::new();
    push_bytes(&mut app1, EXIF_IDENTIFIER);
    push_bytes(&mut app1, &tiff);
    app1
}

fn wrap_marker(marker: u8, payload: &[u8]) -> Vec<u8> {
    let mut data = Vec::new();
    push_bytes(&mut data, &[0xFF, marker]);
    push_bytes(&mut data, &((payload.len() + 2) as u16).to_be_bytes());
    push_bytes(&mut data, payload);
    data
}

/// Builds an APP0 JFIF payload: identifier, version 1.02, density units
/// = pixels per inch, 72x72 density, a tiny 2x1 RGB thumbnail.
fn build_jfif_app0() -> Vec<u8> {
    let mut app0 = Vec::new();
    push_bytes(&mut app0, JFIF_IDENTIFIER);
    app0.push(1); // major version
    app0.push(2); // minor version
    app0.push(1); // density units: pixels per inch
    push_bytes(&mut app0, &72u16.to_be_bytes()); // x density
    push_bytes(&mut app0, &72u16.to_be_bytes()); // y density
    app0.push(2); // thumbnail width
    app0.push(1); // thumbnail height
    push_bytes(&mut app0, &[0xFF, 0x00, 0x00, 0x00, 0xFF, 0x00]); // 2 RGB pixels
    app0
}

#[test]
fn dissect_parses_jfif_app0_segment() {
    let mut data = Vec::new();
    push_bytes(&mut data, &[0xFF, SOI]);
    push_bytes(&mut data, &wrap_marker(APP0, &build_jfif_app0()));
    push_bytes(&mut data, &[0xFF, EOI]);

    let blocks = JpegDissector.dissect(&data);
    let app0 = find_block(&blocks, "APP0 marker (JFIF)");
    assert!(app0.default_expanded);

    assert!(app0.children.iter().any(|b| b.label == "Version: 1.02"));
    assert!(
        app0.children
            .iter()
            .any(|b| b.label == "Density units: Pixels per inch (1)")
    );
    assert!(app0.children.iter().any(|b| b.label == "X density: 72"));
    assert!(app0.children.iter().any(|b| b.label == "Y density: 72"));
    assert!(
        app0.children
            .iter()
            .any(|b| b.label == "Thumbnail width: 2")
    );

    let thumbnail = app0
        .children
        .iter()
        .find(|b| b.label == "Thumbnail data (RGB)")
        .expect("thumbnail data block");
    assert_eq!(thumbnail.range.end - thumbnail.range.start, 6); // 2x1 RGB pixels
}

#[test]
fn does_not_treat_non_jfif_app0_as_jfif() {
    let mut data = Vec::new();
    push_bytes(&mut data, &[0xFF, SOI]);
    push_bytes(&mut data, &wrap_marker(APP0, b"not jfif"));
    push_bytes(&mut data, &[0xFF, EOI]);

    let blocks = JpegDissector.dissect(&data);
    let app0 = find_block(&blocks, "APP0 marker");
    assert!(!app0.default_expanded);
    assert!(app0.children.iter().any(|b| b.label == "Data"));
}

#[test]
fn dissect_parses_exif_app1_segment() {
    let mut data = Vec::new();
    push_bytes(&mut data, &[0xFF, SOI]);
    push_bytes(&mut data, &wrap_marker(APP1, &build_exif_app1()));
    push_bytes(&mut data, &[0xFF, EOI]);

    let blocks = JpegDissector.dissect(&data);
    let app1 = find_block(&blocks, "APP1 marker (Exif)");
    assert!(app1.default_expanded);

    let ifd0 = find_block(&app1.children, "IFD0");
    assert!(ifd0.children.iter().any(|b| b.label == "Make: Acme"));
    assert!(
        ifd0.children
            .iter()
            .any(|b| b.label == "Orientation: Horizontal (normal) (1)")
    );
}

/// Builds a minimal little-endian Exif APP1 payload whose IFD0 contains
/// only a GPS IFD pointer, and whose GPS IFD has GPSLatitudeRef ("N",
/// inline ASCII) and GPSLatitude (37 deg, 25 min, 19.07 sec, offset
/// RATIONAL[3]).
fn build_gps_exif_app1() -> Vec<u8> {
    let mut tiff = Vec::new();
    push_bytes(&mut tiff, b"II");
    push_bytes(&mut tiff, &42u16.to_le_bytes());
    push_bytes(&mut tiff, &8u32.to_le_bytes()); // IFD0 offset

    let ifd0_start = tiff.len() as u32;
    assert_eq!(ifd0_start, 8);
    let gps_ifd_offset = ifd0_start + 2 + 12 + 4;

    push_bytes(&mut tiff, &1u16.to_le_bytes()); // IFD0 entry count

    // GPS IFD pointer (LONG, count 1, inline offset)
    push_bytes(&mut tiff, &0x8825u16.to_le_bytes());
    push_bytes(&mut tiff, &4u16.to_le_bytes());
    push_bytes(&mut tiff, &1u32.to_le_bytes());
    push_bytes(&mut tiff, &gps_ifd_offset.to_le_bytes());

    push_bytes(&mut tiff, &0u32.to_le_bytes()); // IFD0 next-IFD offset (none)
    assert_eq!(tiff.len() as u32, gps_ifd_offset);

    let gps_ifd_start = tiff.len() as u32;
    let latitude_value_offset = gps_ifd_start + 2 + 2 * 12 + 4;

    push_bytes(&mut tiff, &2u16.to_le_bytes()); // GPS IFD entry count

    // GPSLatitudeRef (ASCII, count 2, inline "N\0")
    push_bytes(&mut tiff, &0x0001u16.to_le_bytes());
    push_bytes(&mut tiff, &2u16.to_le_bytes());
    push_bytes(&mut tiff, &2u32.to_le_bytes());
    push_bytes(&mut tiff, b"N\0\0\0");

    // GPSLatitude (RATIONAL, count 3, offset)
    push_bytes(&mut tiff, &0x0002u16.to_le_bytes());
    push_bytes(&mut tiff, &5u16.to_le_bytes());
    push_bytes(&mut tiff, &3u32.to_le_bytes());
    push_bytes(&mut tiff, &latitude_value_offset.to_le_bytes());

    push_bytes(&mut tiff, &0u32.to_le_bytes()); // GPS IFD next-IFD offset (none)
    assert_eq!(tiff.len() as u32, latitude_value_offset);

    // 37 deg, 25 min, 19.07 sec
    push_bytes(&mut tiff, &37u32.to_le_bytes());
    push_bytes(&mut tiff, &1u32.to_le_bytes());
    push_bytes(&mut tiff, &25u32.to_le_bytes());
    push_bytes(&mut tiff, &1u32.to_le_bytes());
    push_bytes(&mut tiff, &1907u32.to_le_bytes());
    push_bytes(&mut tiff, &100u32.to_le_bytes());

    let mut app1 = Vec::new();
    push_bytes(&mut app1, EXIF_IDENTIFIER);
    push_bytes(&mut app1, &tiff);
    app1
}

#[test]
fn dissect_parses_gps_ifd() {
    let mut data = Vec::new();
    push_bytes(&mut data, &[0xFF, SOI]);
    push_bytes(&mut data, &wrap_marker(APP1, &build_gps_exif_app1()));
    push_bytes(&mut data, &[0xFF, EOI]);

    let blocks = JpegDissector.dissect(&data);
    let app1 = find_block(&blocks, "APP1 marker (Exif)");
    let ifd0 = find_block(&app1.children, "IFD0");
    let gps = find_block(&ifd0.children, "GPS IFD");
    assert!(!gps.default_expanded);

    assert!(
        gps.children
            .iter()
            .any(|b| b.label == "GPSLatitudeRef: North (N)")
    );

    let latitude = gps
        .children
        .iter()
        .find(|b| b.label.starts_with("GPSLatitude:"))
        .expect("GPSLatitude entry");
    assert!(latitude.label.contains("37"));
    assert!(latitude.label.contains("37.421964"));
}

#[test]
fn gps_tag_names_and_enum_values_resolve() {
    assert_eq!(gps_tag_name(0x0001), "GPSLatitudeRef");
    assert_eq!(gps_tag_name(0x0007), "GPSTimeStamp");
    assert_eq!(gps_tag_name(0xFFFF), "");
    assert_eq!(gps_enum_value(0x0001, "N"), Some("North"));
    assert_eq!(gps_enum_value(0x0003, "W"), Some("West"));
    assert_eq!(gps_enum_value(0x0005, "1"), Some("Below sea level"));
    assert_eq!(gps_enum_value(0x0009, "A"), Some("Measurement in progress"));
}

#[test]
fn exif_enum_values_decode_known_fields() {
    assert_eq!(exif_enum_value(0x0112, 1), Some("Horizontal (normal)"));
    assert_eq!(exif_enum_value(0x0112, 6), Some("Rotated 90 CW (Vertical)"));
    assert_eq!(exif_enum_value(0x0128, 2), Some("Inches"));
    assert_eq!(exif_enum_value(0x0128, 3), Some("Centimeters"));
    assert_eq!(exif_enum_value(0x9209, 0x00), Some("No flash"));
    assert_eq!(exif_enum_value(0x0112, 200), None);
}

#[test]
fn exif_tag_names_cover_extended_registry() {
    assert_eq!(exif_tag_name(0x9010), "OffsetTime");
    assert_eq!(exif_tag_name(0x9011), "OffsetTimeOriginal");
    assert_eq!(exif_tag_name(0x9012), "OffsetTimeDigitized");
    assert_eq!(exif_tag_name(0xA432), "LensSpecification");
    assert_eq!(exif_tag_name(0xA005), "Interoperability IFD pointer");
    assert_eq!(exif_tag_name(0xFFFF), "");
}

#[test]
fn identify_reports_jpeg() {
    let data = build_jpeg();
    assert_eq!(identify(&data), "JPEG");
}
