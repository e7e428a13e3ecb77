use filefish::dissectors::gzip::{os_name, GzipDissector};
use filefish::dissectors::ogg::OggDissector;
use filefish::dissectors::{ByteRange, Dissector};

fn ogg_page(payload: &[u8]) -> Vec<u8> {
    let mut d = b"OggS".to_vec();
    d.push(0);
    d.push(0);
    d.extend_from_slice(&[0u8; 8]);
    d.extend_from_slice(&1u32.to_le_bytes());
    d.extend_from_slice(&0u32.to_le_bytes());
    d.extend_from_slice(&0u32.to_le_bytes());
    d.push(1);
    d.push(payload.len() as u8);
    d.extend_from_slice(payload);
    d
}

#[test]
fn ogg_pages_follow_one_another() {
    let mut data = ogg_page(b"one");
    data.extend(ogg_page(b"second"));
    data.extend(ogg_page(b"third page"));
    let blocks = OggDissector.dissect(&data);
    assert_eq!(blocks.len(), 3);
    assert_eq!(blocks[0].range.start, 0);
    for (i, b) in blocks.iter().enumerate() {
        assert_eq!(b.label, format!("Page {i}"));
        if i > 0 {
            assert_eq!(b.range.start, blocks[i - 1].range.end);
        }
    }
    assert!(blocks[0].default_expanded && !blocks[1].default_expanded);
    assert_eq!(blocks[2].range.end, data.len() as u64);
}

#[test]
fn ogg_header_type_flags_are_named() {
    let mut data = ogg_page(b"x");
    data[5] = 0x05;
    let blocks = OggDissector.dissect(&data);
    assert_eq!(blocks[0].children[2].label, "Header type flag: 0x05 (continued packet, last page (eos))");
    data[5] = 0;
    let blocks = OggDissector.dissect(&data);
    assert_eq!(blocks[0].children[2].label, "Header type flag: 0x00 (none)");
}

#[test]
fn gzip_truncated_extra_field_ends_header() {
    let mut data = vec![0x1f, 0x8b, 8, 0x04, 0, 0, 0, 0, 0, 3];
    data.extend_from_slice(&10u16.to_le_bytes());
    data.extend_from_slice(&[1, 2, 3]);
    let blocks = GzipDissector.dissect(&data);
    assert_eq!(blocks.len(), 1);
    let header = &blocks[0];
    assert_eq!(header.range, ByteRange::new(0, 15));
    assert!(!header.default_expanded);
    assert_eq!(header.children[3].label, "Flags: 0x04");
    assert_eq!(header.children[7].label, "Extra field length: 10");
    assert_eq!(header.children[8].range, ByteRange::new(12, 15));
}

#[test]
fn gzip_header_crc_and_comment() {
    let mut data = vec![0x1f, 0x8b, 9, 0x12, 0, 0, 0, 0, 2, 255];
    data.extend_from_slice(b"note\0");
    data.extend_from_slice(&0xbeefu16.to_le_bytes());
    data.extend_from_slice(&[0xaa; 12]);
    let blocks = GzipDissector.dissect(&data);
    let labels: Vec<&str> = blocks.iter().map(|b| b.label.as_str()).collect();
    assert_eq!(labels, ["Gzip header", "Compressed data", "Trailer"]);
    let header = &blocks[0];
    assert!(header.default_expanded);
    assert_eq!(header.range, ByteRange::new(0, 17));
    assert_eq!(header.children[2].label, "Compression method: unknown (9)");
    assert_eq!(header.children[5].label, "Extra flags: 0x02");
    assert_eq!(header.children[6].label, "OS: unknown");
    assert_eq!(header.children[7].label, "Comment: note");
    assert_eq!(header.children[8].label, "Header CRC16: 0xbeef");
    assert_eq!(blocks[1].range, ByteRange::new(17, 21));
    assert_eq!(blocks[2].range, ByteRange::new(21, 29));
}

#[test]
fn gzip_os_names() {
    assert_eq!(os_name(3), "Unix");
    assert_eq!(os_name(11), "NTFS");
    assert_eq!(os_name(255), "unknown");
    assert_eq!(os_name(42), "unknown (42)");
}
