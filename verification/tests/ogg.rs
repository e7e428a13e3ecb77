use filefish::dissectors::{identify, Block, ByteRange, Dissector};
use filefish::dissectors::ogg::OggDissector;


fn push_bytes(buf: &mut Vec<u8>, bytes: &[u8]) {
    buf.extend_from_slice(bytes);
}

fn build_ogg_page(header_type_flag: u8, payload: &[u8]) -> Vec<u8> {
    let mut data = Vec::new();
    push_bytes(&mut data, b"OggS");
    data.push(0); // stream structure version
    data.push(header_type_flag);
    push_bytes(&mut data, &0i64.to_le_bytes()); // granule position
    push_bytes(&mut data, &1u32.to_le_bytes()); // bitstream serial number
    push_bytes(&mut data, &0u32.to_le_bytes()); // page sequence number
    push_bytes(&mut data, &0u32.to_le_bytes()); // CRC checksum (fake)

    let mut remaining = payload.len();
    let mut segment_table = Vec::new();
    loop {
        if remaining >= 255 {
            segment_table.push(255u8);
            remaining -= 255;
        } else {
            segment_table.push(remaining as u8);
            break;
        }
    }
    data.push(segment_table.len() as u8);
    push_bytes(&mut data, &segment_table);
    push_bytes(&mut data, payload);

    data
}

fn find_block<'a>(blocks: &'a [Block], label: &str) -> &'a Block {
    blocks.iter().find(|b| b.label == label).unwrap_or_else(|| {
        panic!(
            "block {label:?} not found; have {:?}",
            blocks.iter().map(|b| &b.label).collect::<Vec<_>>()
        )
    })
}

#[test]
fn matches_ogg_magic() {
    let data = build_ogg_page(0x02, b"\x01vorbishello");
    assert!(OggDissector.matches(&data));
}

#[test]
fn does_not_match_non_ogg_data() {
    assert!(!OggDissector.matches(b"not an ogg file"));
    assert!(!OggDissector.matches(b""));
}

#[test]
fn ogg_dissect_returns_empty_for_truncated_header() {
    let blocks = OggDissector.dissect(b"OggS");
    assert!(blocks.is_empty());
}

#[test]
fn dissect_parses_single_page_with_vorbis_header() {
    let payload = b"\x01vorbis_extra_data_here";
    let data = build_ogg_page(0x02, payload);
    let blocks = OggDissector.dissect(&data);

    assert_eq!(blocks.len(), 1);
    let page = find_block(&blocks, "Page 0");
    assert!(
        page.children
            .iter()
            .any(|b| b.label == "Capture pattern: OggS")
    );
    assert!(
        page.children
            .iter()
            .any(|b| b.label.contains("first page (bos)"))
    );
    let payload_block = page
        .children
        .iter()
        .find(|b| b.label.contains("Payload data"))
        .unwrap();
    assert!(payload_block.label.contains("Vorbis identification header"));
    assert_eq!(
        payload_block.range,
        ByteRange::new(page.range.end - payload.len() as u64, page.range.end)
    );
}

#[test]
fn dissect_handles_multiple_pages() {
    let mut data = build_ogg_page(0x02, b"OpusHeadxxxx");
    data.extend(build_ogg_page(0x00, b"more audio data"));
    let blocks = OggDissector.dissect(&data);

    assert_eq!(blocks.len(), 2);
    assert_eq!(blocks[0].label, "Page 0");
    assert_eq!(blocks[1].label, "Page 1");
    assert_eq!(blocks[1].range.start, blocks[0].range.end);
}

#[test]
fn identify_reports_ogg() {
    let data = build_ogg_page(0x02, b"\x01vorbis");
    assert_eq!(identify(&data), "OGG");
}
