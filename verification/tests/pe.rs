use filefish::dissectors::{identify, Block, Dissector};
use filefish::dissectors::pe::PeDissector;

const DOS_MAGIC: &[u8] = b"MZ";
const PE_SIGNATURE: &[u8] = b"PE\0\0";
const E_LFANEW_OFFSET: usize = 0x3C;

fn push_bytes(buf: &mut Vec<u8>, offset: usize, bytes: &[u8]) {
    if buf.len() < offset + bytes.len() {
        buf.resize(offset + bytes.len(), 0);
    }
    buf[offset..offset + bytes.len()].copy_from_slice(bytes);
}

fn put_u16(buf: &mut Vec<u8>, offset: usize, value: u16) {
    push_bytes(buf, offset, &value.to_le_bytes());
}

fn put_u32(buf: &mut Vec<u8>, offset: usize, value: u32) {
    push_bytes(buf, offset, &value.to_le_bytes());
}

fn find_block<'a>(blocks: &'a [Block], label: &str) -> &'a Block {
    blocks
        .iter()
        .find(|b| b.label == label)
        .unwrap_or_else(|| panic!("block {label:?} not found; have {:?}", blocks.iter().map(|b| &b.label).collect::<Vec<_>>()))
}

// Builds a minimal synthetic PE file: DOS header, PE signature, COFF
// header (AMD64, 1 section, no optional header), and one ".text" section.
fn build_pe() -> Vec<u8> {
    let pe_offset = 64usize;
    let mut data = vec![0u8; pe_offset];

    data[0..2].copy_from_slice(DOS_MAGIC);
    put_u32(&mut data, E_LFANEW_OFFSET, pe_offset as u32);

    push_bytes(&mut data, pe_offset, PE_SIGNATURE);

    let coff_offset = pe_offset + 4;
    put_u16(&mut data, coff_offset, 0x8664); // Machine: AMD64
    put_u16(&mut data, coff_offset + 2, 1); // NumberOfSections
    put_u32(&mut data, coff_offset + 4, 0); // TimeDateStamp
    put_u32(&mut data, coff_offset + 8, 0); // PointerToSymbolTable
    put_u32(&mut data, coff_offset + 12, 0); // NumberOfSymbols
    put_u16(&mut data, coff_offset + 16, 0); // SizeOfOptionalHeader
    put_u16(&mut data, coff_offset + 18, 0x0002); // Characteristics: EXECUTABLE_IMAGE

    let section_offset = coff_offset + 20;
    push_bytes(&mut data, section_offset, b".text\0\0\0");
    put_u32(&mut data, section_offset + 8, 0x1000); // VirtualSize
    put_u32(&mut data, section_offset + 12, 0x1000); // VirtualAddress
    put_u32(&mut data, section_offset + 16, 0x200); // SizeOfRawData
    put_u32(&mut data, section_offset + 20, 0x400); // PointerToRawData
    put_u32(&mut data, section_offset + 24, 0); // PointerToRelocations
    put_u32(&mut data, section_offset + 28, 0); // PointerToLinenumbers
    put_u16(&mut data, section_offset + 32, 0); // NumberOfRelocations
    put_u16(&mut data, section_offset + 34, 0); // NumberOfLinenumbers
    put_u32(&mut data, section_offset + 36, 0x60000020); // Characteristics

    data
}

#[test]
fn matches_pe_magic() {
    let data = build_pe();
    assert!(PeDissector.matches(&data));
}

#[test]
fn does_not_match_non_pe_data() {
    assert!(!PeDissector.matches(b""));
    assert!(!PeDissector.matches(b"not a pe file"));

    // A plain DOS executable: "MZ" signature but no valid PE header at
    // e_lfanew (garbage bytes instead of "PE\0\0").
    let mut dos_only = vec![0u8; 128];
    dos_only[0..2].copy_from_slice(DOS_MAGIC);
    put_u32(&mut dos_only, E_LFANEW_OFFSET, 100);
    push_bytes(&mut dos_only, 100, b"NOPE");
    assert!(!PeDissector.matches(&dos_only));
}

#[test]
fn pe_dissect_returns_graceful_result_for_truncated_header() {
    let blocks = PeDissector.dissect(b"MZ");
    assert!(blocks.is_empty());

    // Full DOS header but e_lfanew points out of bounds.
    let mut data = vec![0u8; 64];
    data[0..2].copy_from_slice(DOS_MAGIC);
    put_u32(&mut data, E_LFANEW_OFFSET, 1000);
    let blocks = PeDissector.dissect(&data);
    assert_eq!(blocks.len(), 1);
    assert_eq!(blocks[0].label, "DOS header");
}

#[test]
fn dissect_parses_headers_and_sections() {
    let data = build_pe();
    let blocks = PeDissector.dissect(&data);

    let dos_header = find_block(&blocks, "DOS header");
    assert!(dos_header.children.iter().any(|b| b.label == "Signature: MZ"));
    assert!(dos_header.children.iter().any(|b| b.label == "PE header offset: 64"));

    let coff = find_block(&blocks, "COFF file header");
    assert!(coff.default_expanded);
    assert!(coff.children.iter().any(|b| b.label == "Machine: AMD64"));
    assert!(coff.children.iter().any(|b| b.label == "Number of sections: 1"));

    let section = find_block(&blocks, "Section: .text");
    assert!(section.children.iter().any(|b| b.label == "Name: .text"));
}

#[test]
fn identify_reports_pe() {
    let data = build_pe();
    assert_eq!(identify(&data), "PE");
}
