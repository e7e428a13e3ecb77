use filefish::dissectors::exif::{ifd_block, IfdNamespace};
use filefish::dissectors::jpeg::JpegDissector;
use filefish::dissectors::{Block, Dissector};

fn entry(tag: u16, typ: u16, count: u32, value: [u8; 4]) -> Vec<u8> {
    let mut e = Vec::new();
    e.extend_from_slice(&tag.to_le_bytes());
    e.extend_from_slice(&typ.to_le_bytes());
    e.extend_from_slice(&count.to_le_bytes());
    e.extend_from_slice(&value);
    e
}

fn rationals(values: &[(u32, u32)]) -> Vec<u8> {
    let mut v = Vec::new();
    for (n, d) in values {
        v.extend_from_slice(&n.to_le_bytes());
        v.extend_from_slice(&d.to_le_bytes());
    }
    v
}

/// A JPEG whose Exif IFD0 holds a GPS IFD pointer and an Orientation value
/// with no name, and whose GPS IFD holds an altitude reference, a time
/// stamp, a longitude (one denominator zero) and an unknown tag.
fn build() -> Vec<u8> {
    let gps_offset: u32 = 8 + 2 + 2 * 12 + 4;
    let values_offset: u32 = gps_offset + 2 + 4 * 12 + 4;
    let mut tiff = Vec::new();
    tiff.extend_from_slice(b"II");
    tiff.extend_from_slice(&42u16.to_le_bytes());
    tiff.extend_from_slice(&8u32.to_le_bytes());
    tiff.extend_from_slice(&2u16.to_le_bytes());
    tiff.extend(entry(0x8825, 4, 1, gps_offset.to_le_bytes()));
    tiff.extend(entry(0x0112, 3, 1, [200, 0, 0, 0]));
    tiff.extend_from_slice(&0u32.to_le_bytes());
    assert_eq!(tiff.len() as u32, gps_offset);
    tiff.extend_from_slice(&4u16.to_le_bytes());
    tiff.extend(entry(0x0005, 1, 1, [1, 0, 0, 0]));
    tiff.extend(entry(0x0007, 5, 3, values_offset.to_le_bytes()));
    tiff.extend(entry(0x0004, 5, 3, (values_offset + 24).to_le_bytes()));
    tiff.extend(entry(0x0abc, 3, 1, [7, 0, 0, 0]));
    tiff.extend_from_slice(&0u32.to_le_bytes());
    assert_eq!(tiff.len() as u32, values_offset);
    tiff.extend(rationals(&[(14, 1), (5, 1), (3050, 100)]));
    tiff.extend(rationals(&[(122, 1), (5, 1), (0, 0)]));

    let mut payload = b"Exif\0\0".to_vec();
    payload.extend(tiff);
    let mut data = vec![0xff, 0xd8, 0xff, 0xe1];
    data.extend_from_slice(&((payload.len() + 2) as u16).to_be_bytes());
    data.extend(payload);
    data.extend_from_slice(&[0xff, 0xd9]);
    data
}

fn labels(blocks: &[Block]) -> Vec<&str> {
    blocks.iter().map(|b| b.label.as_str()).collect()
}

#[test]
fn exif_ifds_nest_and_render_values() {
    let blocks = JpegDissector.dissect(&build());
    assert_eq!(labels(&blocks), ["SOI", "APP1 marker (Exif)", "EOI"]);
    let app1 = &blocks[1];
    assert_eq!(labels(&app1.children), ["Identifier: Exif", "Byte order: little-endian (II)", "IFD0"]);
    let ifd0 = &app1.children[2];
    assert!(ifd0.default_expanded);
    assert_eq!(labels(&ifd0.children), ["GPS IFD", "Orientation: 200"]);
    let gps = &ifd0.children[0];
    assert!(!gps.default_expanded);
    assert_eq!(
        labels(&gps.children),
        [
            "GPSAltitudeRef (BYTE, count 1)",
            "GPSTimeStamp: 14:05:30.50 UTC",
            "GPSLongitude: 122\u{b0}5'0.00\" (122.083333\u{b0})",
            "Tag 0x0abc: 7",
        ]
    );
}

#[test]
fn exif_with_unknown_byte_order_is_one_span() {
    let mut data = build();
    data[12] = b'X';
    let blocks = JpegDissector.dissect(&data);
    assert_eq!(labels(&blocks[1].children), ["Exif data"]);
    assert!(blocks[1].default_expanded);
}

fn height(b: &Block) -> usize {
    b.children.iter().map(|c| 1 + height(c)).max().unwrap_or(0)
}

#[test]
fn cyclic_ifd_pointers_stop_at_the_depth_limit() {
    let mut d = b"II*\0".to_vec();
    d.extend_from_slice(&8u32.to_le_bytes());
    d.extend_from_slice(&1u16.to_le_bytes());
    d.extend(entry(0x8769, 4, 1, 8u32.to_le_bytes()));
    d.extend_from_slice(&0u32.to_le_bytes());
    let b = ifd_block(&d, 0, 8, true, "IFD0", IfdNamespace::Exif, 0).unwrap();
    assert_eq!(height(&b), 5);
    let mut inner = &b;
    for _ in 0..5 {
        assert_eq!(inner.children.len(), 1);
        inner = &inner.children[0];
    }
    assert!(inner.children.is_empty());
    let b = ifd_block(&d, 0, 8, true, "IFD0", IfdNamespace::Exif, 3).unwrap();
    assert_eq!(height(&b), 2);
}
