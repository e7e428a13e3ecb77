use filefish::dissectors::{identify, Block, ByteRange, Dissector};
use filefish::dissectors::tar::TarDissector;

const BLOCK_SIZE: u64 = 512;

fn octal_bytes(value: u64, width: usize) -> Vec<u8> {
    // e.g. width 12 -> 11 octal digits + trailing NUL
    let digits = width - 1;
    let s = format!("{:0width$o}", value, width = digits);
    let mut bytes = s.into_bytes();
    bytes.push(0);
    assert_eq!(bytes.len(), width);
    bytes
}

fn put_field(buf: &mut [u8], offset: usize, bytes: &[u8]) {
    buf[offset..offset + bytes.len()].copy_from_slice(bytes);
}

fn build_tar(name: &str, file_data: &[u8]) -> Vec<u8> {
    let mut header = vec![0u8; 512];

    let name_bytes = name.as_bytes();
    put_field(&mut header, 0, name_bytes);
    put_field(&mut header, 100, &octal_bytes(0o644, 8));
    put_field(&mut header, 108, &octal_bytes(0, 8));
    put_field(&mut header, 116, &octal_bytes(0, 8));
    put_field(&mut header, 124, &octal_bytes(file_data.len() as u64, 12));
    put_field(&mut header, 136, &octal_bytes(0, 12));
    // chksum (148..156) left as spaces/zero; not validated by dissector
    header[156] = b'0'; // typeflag: regular file
    put_field(&mut header, 257, b"ustar\0");
    put_field(&mut header, 263, b"00");

    let mut data = Vec::new();
    data.extend_from_slice(&header);
    data.extend_from_slice(file_data);
    let padded_len = (file_data.len() as u64).div_ceil(BLOCK_SIZE) * BLOCK_SIZE;
    let padding = padded_len - file_data.len() as u64;
    data.extend(std::iter::repeat(0u8).take(padding as usize));

    // Two all-zero end-of-archive blocks.
    data.extend(std::iter::repeat(0u8).take(1024));

    data
}

fn find_block<'a>(blocks: &'a [Block], label: &str) -> &'a Block {
    blocks.iter().find(|b| b.label == label).unwrap_or_else(|| {
        panic!(
            "block {label:?} not found; have {:?}",
            blocks.iter().map(|b| &b.label).collect::<Vec<_>>()
        )
    })
}

#[test]
fn matches_tar_magic() {
    let data = build_tar("hello.txt", b"hello world");
    assert!(TarDissector.matches(&data));
}

#[test]
fn does_not_match_non_tar_data() {
    assert!(!TarDissector.matches(b""));
    assert!(!TarDissector.matches(b"not a tar file"));
    let mut short = vec![0u8; 100];
    put_field(&mut short, 0, b"ustar");
    assert!(!TarDissector.matches(&short));
    let garbage = vec![0xAAu8; 600];
    assert!(!TarDissector.matches(&garbage));
}

#[test]
fn tar_dissect_returns_empty_or_graceful_for_truncated_header() {
    let blocks = TarDissector.dissect(b"too short");
    assert!(blocks.is_empty());

    let truncated = vec![0xAAu8; 100];
    let blocks = TarDissector.dissect(&truncated);
    assert!(blocks.is_empty());
}

#[test]
fn dissect_parses_single_file_entry() {
    let data = build_tar("hello.txt", b"hello world");
    let blocks = TarDissector.dissect(&data);

    let file = find_block(&blocks, "File: hello.txt");
    assert!(file.children.iter().any(|b| b.label == "Name: hello.txt"));
    assert!(file.children.iter().any(|b| b.label == "Size: 11"));

    let file_data = file
        .children
        .iter()
        .find(|b| b.label == "File data")
        .expect("File data block present");
    assert_eq!(file_data.range, ByteRange::new(512, 523));
}

#[test]
fn identify_reports_tar() {
    let data = build_tar("a.txt", b"data");
    assert_eq!(identify(&data), "TAR");
}
