use filefish::dissectors::{identify, Block, Dissector};
use filefish::dissectors::mp4::Mp4Dissector;


fn make_box(box_type: &[u8; 4], payload: &[u8]) -> Vec<u8> {
    let mut buf = Vec::new();
    let size = 8 + payload.len() as u32;
    buf.extend_from_slice(&size.to_be_bytes());
    buf.extend_from_slice(box_type);
    buf.extend_from_slice(payload);
    buf
}

fn encode_language(lang: &str) -> u16 {
    let bytes = lang.as_bytes();
    let c1 = (bytes[0] - 0x60) as u16;
    let c2 = (bytes[1] - 0x60) as u16;
    let c3 = (bytes[2] - 0x60) as u16;
    (c1 << 10) | (c2 << 5) | c3
}

fn build_mp4() -> Vec<u8> {
    let ftyp_payload = {
        let mut p = Vec::new();
        p.extend_from_slice(b"isom");
        p.extend_from_slice(&0u32.to_be_bytes());
        p.extend_from_slice(b"isom");
        p.extend_from_slice(b"iso2");
        p.extend_from_slice(b"mp41");
        p
    };
    let ftyp = make_box(b"ftyp", &ftyp_payload);

    let free = make_box(b"free", &[0u8; 4]);

    let mvhd_payload = {
        let mut p = Vec::new();
        p.push(0); // version
        p.extend_from_slice(&[0, 0, 0]); // flags
        p.extend_from_slice(&0u32.to_be_bytes()); // creation time
        p.extend_from_slice(&0u32.to_be_bytes()); // modification time
        p.extend_from_slice(&1000u32.to_be_bytes()); // timescale
        p.extend_from_slice(&5000u32.to_be_bytes()); // duration
        p.extend_from_slice(&0x0001_0000u32.to_be_bytes()); // rate 1.0
        p.extend_from_slice(&0x0100u16.to_be_bytes()); // volume 1.0
        p.extend_from_slice(&[0u8; 10]); // reserved
        p.extend_from_slice(&[0u8; 36]); // matrix
        p.extend_from_slice(&[0u8; 24]); // pre-defined
        p.extend_from_slice(&2u32.to_be_bytes()); // next track ID
        p
    };
    let mvhd = make_box(b"mvhd", &mvhd_payload);

    let tkhd_payload = {
        let mut p = Vec::new();
        p.push(0); // version
        p.extend_from_slice(&[0, 0, 0]); // flags
        p.extend_from_slice(&0u32.to_be_bytes()); // creation time
        p.extend_from_slice(&0u32.to_be_bytes()); // modification time
        p.extend_from_slice(&1u32.to_be_bytes()); // track ID
        p.extend_from_slice(&0u32.to_be_bytes()); // reserved
        p.extend_from_slice(&5000u32.to_be_bytes()); // duration
        p.extend_from_slice(&[0u8; 8]); // reserved
        p.extend_from_slice(&0i16.to_be_bytes()); // layer
        p.extend_from_slice(&0i16.to_be_bytes()); // alternate group
        p.extend_from_slice(&0u16.to_be_bytes()); // volume
        p.extend_from_slice(&0u16.to_be_bytes()); // reserved
        p.extend_from_slice(&[0u8; 36]); // matrix
        p.extend_from_slice(&320u32.wrapping_shl(16).to_be_bytes()); // width 320.0
        p.extend_from_slice(&240u32.wrapping_shl(16).to_be_bytes()); // height 240.0
        p
    };
    let tkhd = make_box(b"tkhd", &tkhd_payload);

    let mdhd_payload = {
        let mut p = Vec::new();
        p.push(0); // version
        p.extend_from_slice(&[0, 0, 0]); // flags
        p.extend_from_slice(&0u32.to_be_bytes()); // creation time
        p.extend_from_slice(&0u32.to_be_bytes()); // modification time
        p.extend_from_slice(&1000u32.to_be_bytes()); // timescale
        p.extend_from_slice(&5000u32.to_be_bytes()); // duration
        p.extend_from_slice(&encode_language("und").to_be_bytes());
        p.extend_from_slice(&0u16.to_be_bytes()); // pre-defined
        p
    };
    let mdhd = make_box(b"mdhd", &mdhd_payload);

    let hdlr_payload = {
        let mut p = Vec::new();
        p.push(0); // version
        p.extend_from_slice(&[0, 0, 0]); // flags
        p.extend_from_slice(&0u32.to_be_bytes()); // pre-defined
        p.extend_from_slice(b"vide"); // handler type
        p.extend_from_slice(&[0u8; 12]); // reserved
        p.extend_from_slice(b"VideoHandler\0");
        p
    };
    let hdlr = make_box(b"hdlr", &hdlr_payload);

    let mdia_payload = [mdhd, hdlr].concat();
    let mdia = make_box(b"mdia", &mdia_payload);

    let trak_payload = [tkhd, mdia].concat();
    let trak = make_box(b"trak", &trak_payload);

    let moov_payload = [mvhd, trak].concat();
    let moov = make_box(b"moov", &moov_payload);

    let mdat = make_box(b"mdat", b"fakemediadata");

    [ftyp, free, moov, mdat].concat()
}

fn find_block<'a>(blocks: &'a [Block], label: &str) -> &'a Block {
    fn find<'a>(blocks: &'a [Block], label: &str) -> Option<&'a Block> {
        for block in blocks {
            if block.label == label {
                return Some(block);
            }
            if let Some(found) = find(&block.children, label) {
                return Some(found);
            }
        }
        None
    }
    find(blocks, label).unwrap_or_else(|| panic!("block {label:?} not found"))
}

#[test]
fn matches_ftyp_magic() {
    let data = build_mp4();
    assert!(Mp4Dissector.matches(&data));
}

#[test]
fn does_not_match_non_mp4_data() {
    assert!(!Mp4Dissector.matches(b"not an mp4 file"));
    assert!(!Mp4Dissector.matches(b""));
    assert!(!Mp4Dissector.matches(b"\0\0\0\x08free"));
}

#[test]
fn dissect_returns_empty_for_truncated_data() {
    let blocks = Mp4Dissector.dissect(b"ftyp");
    assert!(blocks.is_empty());
}

#[test]
fn dissect_parses_ftyp_moov_and_mdat() {
    let data = build_mp4();
    let blocks = Mp4Dissector.dissect(&data);

    let ftyp = find_block(&blocks, "ftyp (File Type)");
    assert!(
        ftyp.children
            .iter()
            .any(|b| b.label == "Major brand: isom")
    );
    assert!(
        ftyp.children
            .iter()
            .any(|b| b.label == "Compatible brand: iso2")
    );

    let mvhd = find_block(&blocks, "mvhd (Movie Header)");
    assert!(
        mvhd.children
            .iter()
            .any(|b| b.label == "Creation time: 0 (1904-01-01 00:00:00 UTC)")
    );
    assert!(mvhd.children.iter().any(|b| b.label == "Timescale: 1000"));
    assert!(
        mvhd.children
            .iter()
            .any(|b| b.label == "Duration: 5000 (5.000s)")
    );
    assert!(
        mvhd.children
            .iter()
            .any(|b| b.label == "Next track ID: 2")
    );

    let tkhd = find_block(&blocks, "tkhd (Track Header)");
    assert!(tkhd.children.iter().any(|b| b.label == "Track ID: 1"));
    assert!(tkhd.children.iter().any(|b| b.label == "Width: 320"));
    assert!(tkhd.children.iter().any(|b| b.label == "Height: 240"));

    let mdhd = find_block(&blocks, "mdhd (Media Header)");
    assert!(mdhd.children.iter().any(|b| b.label == "Language: und"));

    let hdlr = find_block(&blocks, "hdlr (Handler Reference)");
    assert!(
        hdlr.children
            .iter()
            .any(|b| b.label == "Handler type: vide")
    );
    assert!(
        hdlr.children
            .iter()
            .any(|b| b.label == "Name: VideoHandler")
    );

    let mdat = find_block(&blocks, "mdat (Media Data)");
    assert!(
        mdat.children
            .iter()
            .any(|b| b.label == "Media data (13 bytes)")
    );
}

#[test]
fn identify_reports_mp4() {
    let data = build_mp4();
    assert_eq!(identify(&data), "MP4");
}
