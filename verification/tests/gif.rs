use filefish::dissectors::{identify, Block, Dissector};
use filefish::dissectors::gif::GifDissector;

const GIF87A: &[u8] = b"GIF87a";
const GIF89A: &[u8] = b"GIF89a";
const EXTENSION_INTRODUCER: u8 = 0x21;
const IMAGE_DESCRIPTOR_INTRODUCER: u8 = 0x2C;
const TRAILER: u8 = 0x3B;

fn push_bytes(buf: &mut Vec<u8>, bytes: &[u8]) {
    buf.extend_from_slice(bytes);
}

fn find_block<'a>(blocks: &'a [Block], label: &str) -> &'a Block {
    blocks.iter().find(|b| b.label == label).unwrap_or_else(|| {
        panic!(
            "block {label:?} not found; have {:?}",
            blocks.iter().map(|b| &b.label).collect::<Vec<_>>()
        )
    })
}

/// Builds a minimal synthetic GIF: header, logical screen descriptor
/// (no global color table), one Graphic Control Extension, one minimal
/// image descriptor (no local color table) with a tiny fake LZW data
/// sub-block, then trailer.
fn build_gif() -> Vec<u8> {
    let mut data = Vec::new();

    // Header
    push_bytes(&mut data, GIF89A);

    // Logical screen descriptor: 10x5 canvas, no global color table
    push_bytes(&mut data, &10u16.to_le_bytes()); // width
    push_bytes(&mut data, &5u16.to_le_bytes()); // height
    data.push(0x00); // packed: no global color table
    data.push(0x00); // background color index
    data.push(0x00); // pixel aspect ratio

    // Graphic Control Extension
    data.push(EXTENSION_INTRODUCER);
    data.push(0xF9); // label
    data.push(4); // sub-block size
    push_bytes(&mut data, &[0x00, 0x0A, 0x00, 0x00]); // fake GCE data
    data.push(0x00); // terminator

    // Image descriptor
    data.push(IMAGE_DESCRIPTOR_INTRODUCER);
    push_bytes(&mut data, &0u16.to_le_bytes()); // left
    push_bytes(&mut data, &0u16.to_le_bytes()); // top
    push_bytes(&mut data, &10u16.to_le_bytes()); // width
    push_bytes(&mut data, &5u16.to_le_bytes()); // height
    data.push(0x00); // packed: no local color table
    data.push(2); // LZW minimum code size
    data.push(2); // sub-block size
    push_bytes(&mut data, &[0x00, 0x01]); // fake LZW data
    data.push(0x00); // terminator

    // Trailer
    data.push(TRAILER);

    data
}

#[test]
fn matches_gif_magic() {
    let mut gif87 = Vec::new();
    push_bytes(&mut gif87, GIF87A);
    assert!(GifDissector.matches(&gif87));

    let data = build_gif();
    assert!(GifDissector.matches(&data));
}

#[test]
fn does_not_match_non_gif_data() {
    assert!(!GifDissector.matches(b"not a gif file"));
    assert!(!GifDissector.matches(b""));
    assert!(!GifDissector.matches(b"GIF88a"));
}

#[test]
fn gif_dissect_returns_empty_or_graceful_for_truncated_header() {
    let blocks = GifDissector.dissect(b"GIF89a");
    assert!(blocks.len() <= 1);

    let blocks = GifDissector.dissect(b"GIF89a\x0A\x00\x05");
    assert!(blocks.len() <= 1);
}

#[test]
fn gif_dissect_parses_full_structure() {
    let data = build_gif();
    let blocks = GifDissector.dissect(&data);

    find_block(&blocks, "Header");

    let lsd = find_block(&blocks, "Logical screen descriptor");
    assert!(lsd.children.iter().any(|b| b.label == "Canvas width: 10"));
    assert!(lsd.children.iter().any(|b| b.label == "Canvas height: 5"));

    let gce = find_block(&blocks, "Extension: Graphic Control Extension");
    assert!(!gce.children.is_empty());

    let img = find_block(&blocks, "Image descriptor");
    assert!(
        img.children
            .iter()
            .any(|b| b.label == "Image width: 10")
    );
    assert!(
        img.children
            .iter()
            .any(|b| b.label == "Image height: 5")
    );
    assert!(img.children.iter().any(|b| b.label == "Image data"));

    find_block(&blocks, "Trailer");
}

#[test]
fn identify_reports_gif() {
    let data = build_gif();
    assert_eq!(identify(&data), "GIF");
}
