use filefish::dissectors::{identify, Block, ByteRange, Dissector};
use filefish::dissectors::sqlite::SqliteDissector;

const MAGIC: &[u8] = b"SQLite format 3\0";

fn find_block<'a>(blocks: &'a [Block], label: &str) -> &'a Block {
    blocks
        .iter()
        .find(|b| b.label == label)
        .unwrap_or_else(|| panic!("block {label:?} not found; have {:?}", blocks.iter().map(|b| &b.label).collect::<Vec<_>>()))
}

fn build_header() -> Vec<u8> {
    let mut data = vec![0u8; 120];
    data[0..16].copy_from_slice(MAGIC);
    data[16..18].copy_from_slice(&1024u16.to_be_bytes());
    data[18] = 1; // write version
    data[19] = 1; // read version
    data[20] = 0; // reserved space
    data[21] = 64; // max embedded payload fraction
    data[22] = 32; // min embedded payload fraction
    data[23] = 32; // leaf payload fraction
    data[24..28].copy_from_slice(&5u32.to_be_bytes()); // change counter
    data[28..32].copy_from_slice(&10u32.to_be_bytes()); // size in pages
    data[40..44].copy_from_slice(&7u32.to_be_bytes()); // schema cookie
    data[56..60].copy_from_slice(&1u32.to_be_bytes()); // text encoding: utf8
    data[96..100].copy_from_slice(&3045000u32.to_be_bytes()); // version number
    data
}

#[test]
fn matches_magic() {
    let data = build_header();
    assert!(SqliteDissector.matches(&data));
}

#[test]
fn does_not_match_non_sqlite_data() {
    assert!(!SqliteDissector.matches(b"not a sqlite file"));
    assert!(!SqliteDissector.matches(b""));
}

#[test]
fn dissect_empty_data_returns_empty() {
    let blocks = SqliteDissector.dissect(&[]);
    assert!(blocks.is_empty());
}

#[test]
fn dissect_parses_header_fields() {
    let data = build_header();
    let blocks = SqliteDissector.dissect(&data);

    let header = find_block(&blocks, "Database header");
    assert!(header.children.iter().any(|b| b.label == "page_size: 1024"));
    assert!(header.children.iter().any(|b| b.label == "schema_cookie: 7"));
    assert!(header.children.iter().any(|b| b.label == "text_encoding: UTF-8 (1)"));
    assert!(header.children.iter().any(|b| b.label == "sqlite_version_number: 3045000"));

    let pages = find_block(&blocks, "Database pages");
    assert_eq!(pages.range, ByteRange::new(100, 120));
}

#[test]
fn dissect_handles_page_size_one_as_65536() {
    let mut data = build_header();
    data[16..18].copy_from_slice(&1u16.to_be_bytes());
    let blocks = SqliteDissector.dissect(&data);
    let header = find_block(&blocks, "Database header");
    assert!(header.children.iter().any(|b| b.label == "page_size: 65536"));
}

#[test]
fn dissect_handles_truncated_header() {
    let data = build_header();
    let truncated = &data[..30];
    let blocks = SqliteDissector.dissect(truncated);

    let header = find_block(&blocks, "Database header");
    assert_eq!(header.range, ByteRange::new(0, 30));
    assert!(header.children.iter().any(|b| b.label == "page_size: 1024"));
    assert!(!header.children.iter().any(|b| b.label.starts_with("schema_cookie")));
    assert!(blocks.iter().find(|b| b.label == "Database pages").is_none());
}

#[test]
fn identify_reports_sqlite() {
    let data = build_header();
    assert_eq!(identify(&data), "SQLite");
}
