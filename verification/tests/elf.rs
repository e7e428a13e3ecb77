use filefish::dissectors::elf::ElfDissector;
use filefish::dissectors::{identify, ByteRange, Dissector};

fn put(buf: &mut [u8], off: usize, bytes: &[u8]) {
    buf[off..off + bytes.len()].copy_from_slice(bytes);
}

fn build_elf64() -> Vec<u8> {
    let mut d = vec![0u8; 64];
    put(&mut d, 0, b"\x7fELF");
    d[4] = 2;
    d[5] = 1;
    d[6] = 1;
    d[7] = 0;
    put(&mut d, 16, &2u16.to_le_bytes());
    put(&mut d, 18, &0x3eu16.to_le_bytes());
    put(&mut d, 20, &1u32.to_le_bytes());
    put(&mut d, 24, &0x401000u64.to_le_bytes());
    put(&mut d, 32, &64u64.to_le_bytes());
    put(&mut d, 40, &0x1000u64.to_le_bytes());
    put(&mut d, 52, &64u16.to_le_bytes());
    put(&mut d, 54, &56u16.to_le_bytes());
    put(&mut d, 56, &2u16.to_le_bytes());
    put(&mut d, 58, &64u16.to_le_bytes());
    put(&mut d, 60, &3u16.to_le_bytes());
    put(&mut d, 62, &2u16.to_le_bytes());
    d
}

#[test]
fn elf_matches_magic() {
    assert!(ElfDissector.matches(&build_elf64()));
    assert!(!ElfDissector.matches(b"\x7fEL"));
    assert_eq!(identify(&build_elf64()), "ELF");
}

#[test]
fn elf_dissects_64_bit_header_and_tables() {
    let blocks = ElfDissector.dissect(&build_elf64());
    assert_eq!(blocks.len(), 4);
    let ident = &blocks[0];
    assert_eq!(ident.label, "Identification");
    assert_eq!(ident.range, ByteRange::new(0, 16));
    let labels: Vec<&str> = ident.children.iter().map(|b| b.label.as_str()).collect();
    assert_eq!(
        labels,
        ["Magic number: ELF", "Class: 64-bit", "Endianness: little", "Version: 1", "OS/ABI: Unix - System V", "Padding"]
    );
    let header = &blocks[1];
    assert_eq!(header.label, "Header: 64-bit");
    assert_eq!(header.range, ByteRange::new(16, 64));
    let labels: Vec<&str> = header.children.iter().map(|b| b.label.as_str()).collect();
    assert_eq!(
        labels,
        [
            "Type: executable",
            "Machine: x86_64",
            "Version: current",
            "Entry: 0x401000",
            "Program header offset: 0x40",
            "Section header offset: 0x1000",
            "Flags: 0x0",
            "Header size: 64",
            "Program header size: 56",
            "Program header count: 2",
            "Section header size: 64",
            "Section header count: 3",
            "Section header string index: 2",
        ]
    );
    let ph = &blocks[2];
    assert_eq!(ph.label, "Program headers");
    assert!(ph.expandable && !ph.default_expanded);
    assert_eq!(ph.range, ByteRange::new(64, 176));
    assert_eq!(ph.children[1].label, "Program header 1");
    assert_eq!(ph.children[1].range, ByteRange::new(120, 176));
    let sh = &blocks[3];
    assert_eq!(sh.range, ByteRange::new(0x1000, 0x1000 + 192));
    assert_eq!(sh.children.len(), 3);
}

#[test]
fn elf_dissects_32_bit_big_endian_header() {
    let mut d = vec![0u8; 52];
    d[0..4].copy_from_slice(b"\x7fELF");
    d[4] = 1;
    d[5] = 2;
    d[16..18].copy_from_slice(&3u16.to_be_bytes());
    d[18..20].copy_from_slice(&0x28u16.to_be_bytes());
    d[20..24].copy_from_slice(&7u32.to_be_bytes());
    d[42..44].copy_from_slice(&32u16.to_be_bytes());
    d[44..46].copy_from_slice(&1u16.to_be_bytes());
    let blocks = ElfDissector.dissect(&d);
    assert_eq!(blocks.len(), 4);
    assert_eq!(blocks[1].label, "Header: 32-bit");
    assert_eq!(blocks[1].range, ByteRange::new(16, 52));
    assert_eq!(blocks[1].children[0].label, "Type: shared object");
    assert_eq!(blocks[1].children[1].label, "Machine: ARM");
    assert_eq!(blocks[1].children[2].label, "Version: 7");
    assert_eq!(blocks[0].children[2].label, "Endianness: big");
    assert_eq!(blocks[2].children.len(), 1);
    assert_eq!(blocks[2].children[0].range, ByteRange::new(0, 32));
    assert!(blocks[3].children.is_empty());
}

#[test]
fn elf_truncated_header_keeps_identification_only() {
    let mut d = build_elf64();
    d.truncate(40);
    let blocks = ElfDissector.dissect(&d);
    assert_eq!(blocks.len(), 1);
    assert_eq!(blocks[0].label, "Identification");
    assert!(ElfDissector.dissect(b"\x7fELF\x02").is_empty());
}

#[test]
fn elf_table_offsets_stop_at_the_largest_offset() {
    let mut d = build_elf64();
    d[32..40].copy_from_slice(&(u64::MAX - 10).to_le_bytes());
    d[56..58].copy_from_slice(&1u16.to_le_bytes());
    let blocks = ElfDissector.dissect(&d);
    assert_eq!(blocks[2].range, ByteRange::new(u64::MAX - 10, u64::MAX));
    assert_eq!(blocks[2].children[0].range, ByteRange::new(u64::MAX - 10, u64::MAX));
}
