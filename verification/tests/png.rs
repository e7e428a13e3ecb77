use filefish::dissectors::{identify, Block, ByteRange, Dissector};
use filefish::dissectors::png::PngDissector;

const PNG_SIGNATURE: &[u8] = &[0x89, b'P', b'N', b'G', b'\r', b'\n', 0x1a, b'\n'];

fn push_bytes(buf: &mut Vec<u8>, bytes: &[u8]) {
    buf.extend_from_slice(bytes);
}

fn push_chunk(buf: &mut Vec<u8>, chunk_type: &[u8; 4], chunk_data: &[u8]) {
    push_bytes(buf, &(chunk_data.len() as u32).to_be_bytes());
    push_bytes(buf, chunk_type);
    push_bytes(buf, chunk_data);
    push_bytes(buf, &[0, 0, 0, 0]); // fake CRC
}

fn build_png() -> Vec<u8> {
    let mut data = Vec::new();
    push_bytes(&mut data, PNG_SIGNATURE);

    let mut ihdr = Vec::new();
    push_bytes(&mut ihdr, &100u32.to_be_bytes()); // width
    push_bytes(&mut ihdr, &50u32.to_be_bytes()); // height
    ihdr.push(8); // bit depth
    ihdr.push(2); // color type: truecolor
    ihdr.push(0); // compression
    ihdr.push(0); // filter
    ihdr.push(0); // interlace
    push_chunk(&mut data, b"IHDR", &ihdr);

    push_chunk(&mut data, b"IDAT", &[1, 2, 3, 4]);
    push_chunk(&mut data, b"IEND", &[]);

    data
}

fn find_block<'a>(blocks: &'a [Block], label: &str) -> &'a Block {
    blocks.iter().find(|b| b.label == label).unwrap_or_else(|| {
        panic!(
            "block {label:?} not found; have {:?}",
            blocks.iter().map(|b| &b.label).collect::<Vec<_>>()
        )
    })
}

#[test]
fn matches_png_signature() {
    let data = build_png();
    assert!(PngDissector.matches(&data));
}

#[test]
fn does_not_match_non_png_data() {
    assert!(!PngDissector.matches(b"not a png file"));
    assert!(!PngDissector.matches(b""));
}

#[test]
fn png_dissect_returns_empty_for_truncated_header() {
    let blocks = PngDissector.dissect(&PNG_SIGNATURE[..4]);
    assert!(blocks.is_empty());
}

#[test]
fn dissect_parses_ihdr_idat_iend_chunks() {
    let data = build_png();
    let blocks = PngDissector.dissect(&data);

    let sig = find_block(&blocks, "Signature");
    assert_eq!(sig.range, ByteRange::new(0, 8));

    let ihdr = find_block(&blocks, "Chunk: IHDR");
    assert!(ihdr.children.iter().any(|b| b.label == "Width: 100"));
    assert!(ihdr.children.iter().any(|b| b.label == "Height: 50"));
    assert!(
        ihdr.children
            .iter()
            .any(|b| b.label == "Color type: truecolor")
    );

    let idat = find_block(&blocks, "Chunk: IDAT");
    assert!(idat.children.iter().any(|b| b.label == "Data"));

    let iend = find_block(&blocks, "Chunk: IEND");
    assert!(!iend.children.iter().any(|b| b.label == "Data"));
}

#[test]
fn identify_reports_png() {
    let data = build_png();
    assert_eq!(identify(&data), "PNG");
}
