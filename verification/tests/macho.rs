use filefish::dissectors::{identify, Block, Dissector};
use filefish::dissectors::macho::MachoDissector;

const MAGIC_32: u32 = 0xFEEDFACE;
const MAGIC_64: u32 = 0xFEEDFACF;

fn push_bytes(buf: &mut Vec<u8>, offset: usize, bytes: &[u8]) {
    if buf.len() < offset + bytes.len() {
        buf.resize(offset + bytes.len(), 0);
    }
    buf[offset..offset + bytes.len()].copy_from_slice(bytes);
}

fn put_u32(buf: &mut Vec<u8>, offset: usize, value: u32) {
    push_bytes(buf, offset, &value.to_le_bytes());
}

fn put_i32(buf: &mut Vec<u8>, offset: usize, value: i32) {
    push_bytes(buf, offset, &value.to_le_bytes());
}

fn find_block<'a>(blocks: &'a [Block], label: &str) -> &'a Block {
    blocks
        .iter()
        .find(|b| b.label == label)
        .unwrap_or_else(|| {
            panic!(
                "block {label:?} not found; have {:?}",
                blocks.iter().map(|b| &b.label).collect::<Vec<_>>()
            )
        })
}

// Builds a minimal synthetic 64-bit Mach-O file: header (ARM64,
// MH_EXECUTE, ncmds=1) followed by one LC_SEGMENT_64 load command
// named "__TEXT".
fn build_macho64() -> Vec<u8> {
    let header_size = 32usize;
    let cmdsize = 24usize; // 8 (cmd/cmdsize) + 16 (segname), minimal
    let mut data = vec![0u8; header_size];

    put_u32(&mut data, 0, MAGIC_64);
    put_i32(&mut data, 4, 0x0100000Cu32 as i32); // cputype ARM64
    put_i32(&mut data, 8, 0); // cpusubtype
    put_u32(&mut data, 12, 2); // filetype MH_EXECUTE
    put_u32(&mut data, 16, 1); // ncmds
    put_u32(&mut data, 20, cmdsize as u32); // sizeofcmds
    put_u32(&mut data, 24, 0); // flags
    put_u32(&mut data, 28, 0); // reserved

    let cmd_offset = header_size;
    put_u32(&mut data, cmd_offset, 0x19); // LC_SEGMENT_64
    put_u32(&mut data, cmd_offset + 4, cmdsize as u32);
    push_bytes(&mut data, cmd_offset + 8, b"__TEXT\0\0\0\0\0\0\0\0\0\0");

    data
}

#[test]
fn matches_macho_magic_64() {
    let data = build_macho64();
    assert!(MachoDissector.matches(&data));
}

#[test]
fn matches_macho_magic_32() {
    let mut data = vec![0u8; 28];
    put_u32(&mut data, 0, MAGIC_32);
    assert!(MachoDissector.matches(&data));
}

#[test]
fn does_not_match_non_macho_data() {
    assert!(!MachoDissector.matches(b""));
    assert!(!MachoDissector.matches(b"not a macho file"));
    assert!(!MachoDissector.matches(b"\x7fELF"));
    assert!(!MachoDissector.matches(b"MZ\0\0"));
}

#[test]
fn macho_dissect_returns_graceful_result_for_truncated_header() {
    let blocks = MachoDissector.dissect(b"\xCF\xFA\xED\xFE");
    assert!(blocks.is_empty());
}

#[test]
fn dissect_parses_header_and_load_commands() {
    let data = build_macho64();
    let blocks = MachoDissector.dissect(&data);

    let header = find_block(&blocks, "Mach header");
    assert!(header.default_expanded);
    assert!(header.children.iter().any(|b| b.label == "CPU type: ARM64"));
    assert!(header.children.iter().any(|b| b.label == "File type: MH_EXECUTE"));
    assert!(header.children.iter().any(|b| b.label == "64-bit: true"));

    let load_cmd = find_block(&blocks, "Load command: LC_SEGMENT_64 (__TEXT)");
    assert!(load_cmd
        .children
        .iter()
        .any(|b| b.label == "Segment name: __TEXT"));
}

#[test]
fn identify_reports_macho() {
    let data = build_macho64();
    assert_eq!(identify(&data), "Mach-O");
}
