use filefish::dissectors::{identify, Block, ByteRange, Dissector};
use filefish::dissectors::webp::WebpDissector;


fn push_bytes(buf: &mut Vec<u8>, bytes: &[u8]) {
    buf.extend_from_slice(bytes);
}

fn build_webp(vp8x_flags: u8, width: u32, height: u32, vp8_data: &[u8]) -> Vec<u8> {
    let mut data = Vec::new();

    let vp8x_size: u32 = 10;
    let vp8_size = vp8_data.len() as u32;
    let riff_size = 4 + (8 + vp8x_size) + (8 + vp8_size);

    push_bytes(&mut data, b"RIFF");
    push_bytes(&mut data, &riff_size.to_le_bytes());
    push_bytes(&mut data, b"WEBP");

    push_bytes(&mut data, b"VP8X");
    push_bytes(&mut data, &vp8x_size.to_le_bytes());
    push_bytes(&mut data, &[vp8x_flags]);
    push_bytes(&mut data, &[0u8; 3]); // reserved
    let width_minus_one = width - 1;
    let height_minus_one = height - 1;
    push_bytes(&mut data, &width_minus_one.to_le_bytes()[0..3]);
    push_bytes(&mut data, &height_minus_one.to_le_bytes()[0..3]);

    push_bytes(&mut data, b"VP8 ");
    push_bytes(&mut data, &vp8_size.to_le_bytes());
    push_bytes(&mut data, vp8_data);

    data
}

fn find_block<'a>(blocks: &'a [Block], label: &str) -> &'a Block {
    blocks.iter().find(|b| b.label == label).unwrap_or_else(|| {
        panic!(
            "block {label:?} not found; have {:?}",
            blocks.iter().map(|b| &b.label).collect::<Vec<_>>()
        )
    })
}

#[test]
fn matches_webp_magic() {
    let data = build_webp(0x10, 100, 200, &[1, 2, 3, 4]);
    assert!(WebpDissector.matches(&data));
}

#[test]
fn does_not_match_non_webp_data() {
    assert!(!WebpDissector.matches(b"not a webp file"));
    assert!(!WebpDissector.matches(b""));
    assert!(!WebpDissector.matches(b"RIFF1234AVI "));

    // WAV is also RIFF-based; make sure it's correctly rejected.
    let mut wav = Vec::new();
    wav.extend_from_slice(b"RIFF");
    wav.extend_from_slice(&16u32.to_le_bytes());
    wav.extend_from_slice(b"WAVE");
    assert!(!WebpDissector.matches(&wav));
}

#[test]
fn webp_dissect_returns_empty_for_truncated_header() {
    let blocks = WebpDissector.dissect(b"RIFF");
    assert!(blocks.is_empty());
}

#[test]
fn dissect_parses_vp8x_and_bitstream_chunks() {
    let data = build_webp(0x10 | 0x08, 320, 240, &[9, 9, 9, 9]);
    let blocks = WebpDissector.dissect(&data);

    let riff = find_block(&blocks, "RIFF header");
    assert_eq!(riff.children[0].label, "Chunk ID: RIFF");
    assert_eq!(riff.children[2].label, "Format: WEBP");

    let vp8x = find_block(&blocks, "Chunk: VP8X");
    assert!(
        vp8x.children
            .iter()
            .any(|b| b.label.contains("alpha") && b.label.contains("EXIF"))
    );
    assert!(
        vp8x.children
            .iter()
            .any(|b| b.label == "Canvas width: 320")
    );
    assert!(
        vp8x.children
            .iter()
            .any(|b| b.label == "Canvas height: 240")
    );

    let vp8 = find_block(&blocks, "Chunk: VP8");
    assert!(
        vp8.children
            .iter()
            .any(|b| b.label == "VP8 bitstream data")
    );
}

#[test]
fn webp_dissect_handles_odd_sized_chunk_padding() {
    let mut data = build_webp(0, 10, 10, &[1, 2, 3]);
    data.push(0); // RIFF pad byte for the odd-sized VP8 chunk

    let blocks = WebpDissector.dissect(&data);
    let vp8 = find_block(&blocks, "Chunk: VP8");
    // VP8 chunk starts at 30 (12 RIFF header + 18 VP8X chunk), header 8 bytes + 3 bytes data + 1 pad byte = 12
    assert_eq!(vp8.range, ByteRange::new(30, 42));
}

#[test]
fn identify_reports_webp() {
    let data = build_webp(0, 1, 1, &[0u8; 4]);
    assert_eq!(identify(&data), "WebP");
}
