use filefish::dissectors::{identify, Block, Dissector};
use filefish::dissectors::ico::IcoDissector;


fn push_bytes(buf: &mut Vec<u8>, bytes: &[u8]) {
    buf.extend_from_slice(bytes);
}

fn build_ico_with_dib(width: u8, height: u8, image_data: &[u8]) -> Vec<u8> {
    let mut data = Vec::new();
    let header_len = 6usize;
    let entry_len = 16usize;
    let image_offset = (header_len + entry_len) as u32;

    // ICONDIR
    push_bytes(&mut data, &0u16.to_le_bytes()); // reserved
    push_bytes(&mut data, &1u16.to_le_bytes()); // type = ICO
    push_bytes(&mut data, &1u16.to_le_bytes()); // count

    // ICONDIRENTRY
    data.push(width);
    data.push(height);
    data.push(0); // color count
    data.push(0); // reserved
    push_bytes(&mut data, &1u16.to_le_bytes()); // planes
    push_bytes(&mut data, &32u16.to_le_bytes()); // bit count
    push_bytes(&mut data, &(image_data.len() as u32).to_le_bytes()); // bytes in resource
    push_bytes(&mut data, &image_offset.to_le_bytes()); // image offset

    push_bytes(&mut data, image_data);

    data
}

fn build_dib_image(width: i32, height: i32) -> Vec<u8> {
    let mut data = Vec::new();
    push_bytes(&mut data, &40u32.to_le_bytes()); // header size
    push_bytes(&mut data, &width.to_le_bytes());
    push_bytes(&mut data, &height.to_le_bytes());
    push_bytes(&mut data, &1u16.to_le_bytes()); // planes
    push_bytes(&mut data, &32u16.to_le_bytes()); // bpp
    push_bytes(&mut data, &0u32.to_le_bytes()); // compression
    push_bytes(&mut data, &0u32.to_le_bytes()); // image size
    push_bytes(&mut data, &0i32.to_le_bytes()); // h res
    push_bytes(&mut data, &0i32.to_le_bytes()); // v res
    push_bytes(&mut data, &0u32.to_le_bytes()); // colors used
    push_bytes(&mut data, &0u32.to_le_bytes()); // important colors
    push_bytes(&mut data, &[0u8; 32]); // pixel data padding
    data
}

fn find_block<'a>(blocks: &'a [Block], label: &str) -> &'a Block {
    blocks.iter().find(|b| b.label == label).unwrap_or_else(|| {
        panic!(
            "block {label:?} not found; have {:?}",
            blocks.iter().map(|b| &b.label).collect::<Vec<_>>()
        )
    })
}

#[test]
fn matches_ico_magic() {
    let image = build_dib_image(16, 32);
    let data = build_ico_with_dib(16, 16, &image);
    assert!(IcoDissector.matches(&data));
}

#[test]
fn matches_cur_magic() {
    let mut data = vec![0u8, 0, 2, 0, 0, 0];
    data.extend_from_slice(&[0u8; 16]);
    assert!(IcoDissector.matches(&data));
}

#[test]
fn does_not_match_non_ico_data() {
    assert!(!IcoDissector.matches(b"not an ico file"));
    assert!(!IcoDissector.matches(b""));
    assert!(!IcoDissector.matches(b"BM"));
}

#[test]
fn ico_dissect_returns_empty_for_truncated_header() {
    let blocks = IcoDissector.dissect(&[0u8, 0]);
    assert!(blocks.is_empty());
}

#[test]
fn dissect_parses_icondir_and_entries() {
    let image = build_dib_image(16, 32);
    let data = build_ico_with_dib(16, 16, &image);
    let blocks = IcoDissector.dissect(&data);

    let icondir = find_block(&blocks, "ICONDIR header");
    assert!(
        icondir
            .children
            .iter()
            .any(|b| b.label == "Type: 1 (ICO)")
    );
    assert!(icondir.children.iter().any(|b| b.label == "Image count: 1"));

    let entry = find_block(&blocks, "ICONDIRENTRY[0]");
    assert!(entry.children.iter().any(|b| b.label == "Width: 16"));
    assert!(entry.children.iter().any(|b| b.label == "Height: 16"));

    let image_block = entry
        .children
        .iter()
        .find(|b| b.label.starts_with("Image data: DIB image"))
        .expect("expected DIB image block");
    let dib = find_block(&image_block.children, "DIB header");
    assert!(dib.children.iter().any(|b| b.label == "Width: 16"));
}

#[test]
fn identify_reports_ico() {
    let image = build_dib_image(16, 32);
    let data = build_ico_with_dib(16, 16, &image);
    assert_eq!(identify(&data), "ICO");
}
