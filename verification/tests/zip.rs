use filefish::dissectors::{identify, Block, Dissector};
use filefish::dissectors::zip::ZipDissector;

const LOCAL_FILE_SIGNATURE: u32 = 0x04034b50;
const CENTRAL_DIRECTORY_SIGNATURE: u32 = 0x02014b50;
const EOCD_SIGNATURE: u32 = 0x06054b50;

fn push_bytes(buf: &mut Vec<u8>, bytes: &[u8]) {
    buf.extend_from_slice(bytes);
}

fn build_zip(name: &str, file_data: &[u8]) -> Vec<u8> {
    let mut data = Vec::new();
    let name_bytes = name.as_bytes();
    let local_header_offset = 0u32;

    // Local file header
    let local_start = data.len();
    push_bytes(&mut data, &LOCAL_FILE_SIGNATURE.to_le_bytes());
    push_bytes(&mut data, &20u16.to_le_bytes()); // version needed
    push_bytes(&mut data, &0u16.to_le_bytes()); // flags
    push_bytes(&mut data, &0u16.to_le_bytes()); // compression: stored
    push_bytes(&mut data, &0u16.to_le_bytes()); // mod time
    push_bytes(&mut data, &0u16.to_le_bytes()); // mod date
    push_bytes(&mut data, &0u32.to_le_bytes()); // crc32 (fake)
    push_bytes(&mut data, &(file_data.len() as u32).to_le_bytes()); // compressed size
    push_bytes(&mut data, &(file_data.len() as u32).to_le_bytes()); // uncompressed size
    push_bytes(&mut data, &(name_bytes.len() as u16).to_le_bytes());
    push_bytes(&mut data, &0u16.to_le_bytes()); // extra length
    push_bytes(&mut data, name_bytes);
    push_bytes(&mut data, file_data);
    let _ = local_start;

    // Central directory entry
    let cd_start = data.len();
    push_bytes(&mut data, &CENTRAL_DIRECTORY_SIGNATURE.to_le_bytes());
    push_bytes(&mut data, &20u16.to_le_bytes()); // version made by
    push_bytes(&mut data, &20u16.to_le_bytes()); // version needed
    push_bytes(&mut data, &0u16.to_le_bytes()); // flags
    push_bytes(&mut data, &0u16.to_le_bytes()); // compression: stored
    push_bytes(&mut data, &0u16.to_le_bytes()); // mod time
    push_bytes(&mut data, &0u16.to_le_bytes()); // mod date
    push_bytes(&mut data, &0u32.to_le_bytes()); // crc32 (fake)
    push_bytes(&mut data, &(file_data.len() as u32).to_le_bytes()); // compressed size
    push_bytes(&mut data, &(file_data.len() as u32).to_le_bytes()); // uncompressed size
    push_bytes(&mut data, &(name_bytes.len() as u16).to_le_bytes());
    push_bytes(&mut data, &0u16.to_le_bytes()); // extra length
    push_bytes(&mut data, &0u16.to_le_bytes()); // comment length
    push_bytes(&mut data, &0u16.to_le_bytes()); // disk number start
    push_bytes(&mut data, &0u16.to_le_bytes()); // internal attrs
    push_bytes(&mut data, &0u32.to_le_bytes()); // external attrs
    push_bytes(&mut data, &local_header_offset.to_le_bytes());
    push_bytes(&mut data, name_bytes);
    let cd_size = (data.len() - cd_start) as u32;

    // EOCD
    push_bytes(&mut data, &EOCD_SIGNATURE.to_le_bytes());
    push_bytes(&mut data, &0u16.to_le_bytes()); // disk number
    push_bytes(&mut data, &0u16.to_le_bytes()); // cd start disk
    push_bytes(&mut data, &1u16.to_le_bytes()); // cd records this disk
    push_bytes(&mut data, &1u16.to_le_bytes()); // cd records total
    push_bytes(&mut data, &cd_size.to_le_bytes());
    push_bytes(&mut data, &(cd_start as u32).to_le_bytes());
    push_bytes(&mut data, &0u16.to_le_bytes()); // comment length

    data
}

fn find_block<'a>(blocks: &'a [Block], label: &str) -> &'a Block {
    blocks.iter().find(|b| b.label == label).unwrap_or_else(|| {
        panic!(
            "block {label:?} not found; have {:?}",
            blocks.iter().map(|b| &b.label).collect::<Vec<_>>()
        )
    })
}

#[test]
fn matches_zip_magic() {
    let data = build_zip("hello.txt", b"hello world");
    assert!(ZipDissector.matches(&data));
}

#[test]
fn does_not_match_non_zip_data() {
    assert!(!ZipDissector.matches(b"not a zip file"));
    assert!(!ZipDissector.matches(b""));
    assert!(!ZipDissector.matches(b"PK\x05\x06"));
}

#[test]
fn zip_dissect_returns_empty_for_truncated_header() {
    let blocks = ZipDissector.dissect(b"PK\x03\x04");
    assert!(blocks.is_empty());
}

#[test]
fn dissect_parses_local_file_and_central_directory_and_eocd() {
    let data = build_zip("hello.txt", b"hello world");
    let blocks = ZipDissector.dissect(&data);

    let local = find_block(&blocks, "Local file header: hello.txt");
    assert!(
        local
            .children
            .iter()
            .any(|b| b.label == "File name: hello.txt")
    );
    assert!(
        local
            .children
            .iter()
            .any(|b| b.label == "Compression method: Stored")
    );
    assert!(local.children.iter().any(|b| b.label == "File data"));

    let cd = find_block(&blocks, "Central directory entry: hello.txt");
    assert!(
        cd.children
            .iter()
            .any(|b| b.label == "File name: hello.txt")
    );

    let eocd = find_block(&blocks, "End of central directory");
    assert!(
        eocd.children
            .iter()
            .any(|b| b.label == "Total central directory records: 1")
    );
}

#[test]
fn identify_reports_zip() {
    let data = build_zip("a.txt", b"data");
    assert_eq!(identify(&data), "ZIP");
}
