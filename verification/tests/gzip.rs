use filefish::dissectors::{identify, Block, Dissector};
use filefish::dissectors::gzip::GzipDissector;

const MAGIC: &[u8] = &[0x1f, 0x8b];
const FNAME: u8 = 0x08;

fn push_bytes(buf: &mut Vec<u8>, bytes: &[u8]) {
    buf.extend_from_slice(bytes);
}

fn build_gzip(name: &str, compressed: &[u8]) -> Vec<u8> {
    let mut data = Vec::new();
    push_bytes(&mut data, MAGIC);
    data.push(8); // CM: deflate
    data.push(FNAME); // FLG: FNAME set
    push_bytes(&mut data, &0u32.to_le_bytes()); // MTIME
    data.push(0); // XFL
    data.push(3); // OS: Unix
    push_bytes(&mut data, name.as_bytes());
    data.push(0); // null terminator
    push_bytes(&mut data, compressed);
    push_bytes(&mut data, &0xdeadbeefu32.to_le_bytes()); // CRC32 (fake)
    push_bytes(&mut data, &42u32.to_le_bytes()); // ISIZE (fake)
    data
}

fn find_block<'a>(blocks: &'a [Block], label: &str) -> &'a Block {
    blocks.iter().find(|b| b.label == label).unwrap_or_else(|| {
        panic!(
            "block {label:?} not found; have {:?}",
            blocks.iter().map(|b| &b.label).collect::<Vec<_>>()
        )
    })
}

#[test]
fn matches_gzip_magic() {
    let data = build_gzip("hello.txt", b"fake compressed data");
    assert!(GzipDissector.matches(&data));
}

#[test]
fn does_not_match_non_gzip_data() {
    assert!(!GzipDissector.matches(b"not a gzip file"));
    assert!(!GzipDissector.matches(b""));
    assert!(!GzipDissector.matches(b"\x1f\x00"));
}

#[test]
fn gzip_dissect_returns_empty_for_truncated_header() {
    let blocks = GzipDissector.dissect(&[0x1f, 0x8b, 8, 0]);
    assert!(blocks.is_empty());
}

#[test]
fn dissect_parses_header_data_and_trailer() {
    let data = build_gzip("hello.txt", b"fake compressed data");
    let blocks = GzipDissector.dissect(&data);

    let header = find_block(&blocks, "Gzip header");
    assert!(
        header
            .children
            .iter()
            .any(|b| b.label == "Original file name: hello.txt")
    );
    assert!(
        header
            .children
            .iter()
            .any(|b| b.label == "Compression method: Deflate")
    );

    assert!(blocks.iter().any(|b| b.label == "Compressed data"));

    let trailer = find_block(&blocks, "Trailer");
    assert!(
        trailer
            .children
            .iter()
            .any(|b| b.label == "CRC-32: 0xdeadbeef")
    );
    assert!(
        trailer
            .children
            .iter()
            .any(|b| b.label == "Input size (mod 2^32): 42")
    );
}

#[test]
fn identify_reports_gzip() {
    let data = build_gzip("a.txt", b"data");
    assert_eq!(identify(&data), "Gzip");
}
