use filefish::dissectors::{identify, Block, ByteRange, Dissector};
use filefish::dissectors::bmp::BmpDissector;


fn push_bytes(buf: &mut Vec<u8>, bytes: &[u8]) {
    buf.extend_from_slice(bytes);
}

fn build_bmp(width: i32, height: i32, bpp: u16, pixel_data: &[u8]) -> Vec<u8> {
    let mut data = Vec::new();
    let header_size = 14u32;
    let dib_size = 40u32;
    let pixel_data_offset = header_size + dib_size;
    let file_size = pixel_data_offset + pixel_data.len() as u32;

    // BITMAPFILEHEADER
    push_bytes(&mut data, b"BM");
    push_bytes(&mut data, &file_size.to_le_bytes());
    push_bytes(&mut data, &0u16.to_le_bytes()); // reserved1
    push_bytes(&mut data, &0u16.to_le_bytes()); // reserved2
    push_bytes(&mut data, &pixel_data_offset.to_le_bytes());

    // BITMAPINFOHEADER
    push_bytes(&mut data, &dib_size.to_le_bytes());
    push_bytes(&mut data, &width.to_le_bytes());
    push_bytes(&mut data, &height.to_le_bytes());
    push_bytes(&mut data, &1u16.to_le_bytes()); // planes
    push_bytes(&mut data, &bpp.to_le_bytes());
    push_bytes(&mut data, &0u32.to_le_bytes()); // compression: BI_RGB
    push_bytes(&mut data, &(pixel_data.len() as u32).to_le_bytes()); // image size
    push_bytes(&mut data, &2835i32.to_le_bytes()); // h res
    push_bytes(&mut data, &2835i32.to_le_bytes()); // v res
    push_bytes(&mut data, &0u32.to_le_bytes()); // colors used
    push_bytes(&mut data, &0u32.to_le_bytes()); // important colors

    push_bytes(&mut data, pixel_data);

    data
}

fn find_block<'a>(blocks: &'a [Block], label: &str) -> &'a Block {
    blocks.iter().find(|b| b.label == label).unwrap_or_else(|| {
        panic!(
            "block {label:?} not found; have {:?}",
            blocks.iter().map(|b| &b.label).collect::<Vec<_>>()
        )
    })
}

#[test]
fn matches_bmp_magic() {
    let data = build_bmp(2, 2, 24, &[0u8; 16]);
    assert!(BmpDissector.matches(&data));
}

#[test]
fn does_not_match_non_bmp_data() {
    assert!(!BmpDissector.matches(b"not a bmp file"));
    assert!(!BmpDissector.matches(b""));
    assert!(!BmpDissector.matches(b"BZh91AY"));
}

#[test]
fn bmp_dissect_returns_empty_for_truncated_header() {
    let blocks = BmpDissector.dissect(b"BM");
    assert!(blocks.is_empty());
}

#[test]
fn dissect_parses_headers_and_pixel_data() {
    let pixel_data = [1u8, 2, 3, 4, 5, 6, 7, 8, 9, 10, 11, 12, 13, 14, 15, 16];
    let data = build_bmp(4, 2, 24, &pixel_data);
    let blocks = BmpDissector.dissect(&data);

    let file_header = find_block(&blocks, "BMP file header");
    assert!(
        file_header
            .children
            .iter()
            .any(|b| b.label == "Signature: BM")
    );

    let dib = find_block(&blocks, "DIB header");
    assert!(dib.children.iter().any(|b| b.label == "Width: 4"));
    assert!(dib.children.iter().any(|b| b.label == "Height: 2"));
    assert!(
        dib.children
            .iter()
            .any(|b| b.label == "Bits per pixel: 24")
    );
    assert!(
        dib.children
            .iter()
            .any(|b| b.label == "Compression: BI_RGB")
    );

    let pixel_block = find_block(&blocks, "Pixel data");
    assert_eq!(pixel_block.range, ByteRange::new(54, 70));
}

#[test]
fn identify_reports_bmp() {
    let data = build_bmp(1, 1, 24, &[0u8; 4]);
    assert_eq!(identify(&data), "BMP");
}
