use filefish::dissectors::{identify, Block, ByteRange, Dissector};
use filefish::dissectors::flac::FlacDissector;


fn push_bytes(buf: &mut Vec<u8>, bytes: &[u8]) {
    buf.extend_from_slice(bytes);
}

fn build_streaminfo() -> Vec<u8> {
    let mut info = Vec::new();
    push_bytes(&mut info, &4096u16.to_be_bytes()); // min block size
    push_bytes(&mut info, &4096u16.to_be_bytes()); // max block size
    push_bytes(&mut info, &[0, 0, 16]); // min frame size (24-bit)
    push_bytes(&mut info, &[0, 0, 32]); // max frame size (24-bit)

    // sample rate = 44100, channels = 2, bits per sample = 16, total samples = 1000
    let sample_rate: u32 = 44100;
    let channels_minus1: u32 = 1;
    let bps_minus1: u32 = 15;
    let total_samples: u64 = 1000;

    let mut packed: u64 = 0;
    packed |= (sample_rate as u64) << 44;
    packed |= (channels_minus1 as u64) << 41;
    packed |= (bps_minus1 as u64) << 36;
    packed |= total_samples & 0xF_FFFF_FFFF;
    push_bytes(&mut info, &packed.to_be_bytes());

    push_bytes(&mut info, &[0xAB; 16]); // MD5
    info
}

fn build_flac() -> Vec<u8> {
    let mut data = Vec::new();
    push_bytes(&mut data, b"fLaC");

    let streaminfo = build_streaminfo();
    assert_eq!(streaminfo.len(), 34);

    // header: is-last=1, type=0 (STREAMINFO), length=34
    let header: u32 = (1u32 << 31) | (0u32 << 24) | 34u32;
    push_bytes(&mut data, &header.to_be_bytes());
    push_bytes(&mut data, &streaminfo);

    // trailing "audio frames"
    push_bytes(&mut data, &[0xFF, 0xF8, 0x00, 0x00]);

    data
}

fn find_block<'a>(blocks: &'a [Block], label: &str) -> &'a Block {
    blocks.iter().find(|b| b.label == label).unwrap_or_else(|| {
        panic!(
            "block {label:?} not found; have {:?}",
            blocks.iter().map(|b| &b.label).collect::<Vec<_>>()
        )
    })
}

#[test]
fn matches_flac_magic() {
    assert!(FlacDissector.matches(&build_flac()));
    assert!(!FlacDissector.matches(b"not flac"));
    assert!(!FlacDissector.matches(b""));
}

#[test]
fn flac_dissect_returns_empty_for_truncated_header() {
    let blocks = FlacDissector.dissect(b"fLa");
    assert!(blocks.is_empty());
}

#[test]
fn dissect_parses_streaminfo_and_audio_frames() {
    let data = build_flac();
    let blocks = FlacDissector.dissect(&data);

    assert_eq!(blocks[0].label, "Marker: fLaC");

    let streaminfo = find_block(&blocks, "Metadata block: STREAMINFO");
    assert!(
        streaminfo
            .children
            .iter()
            .any(|b| b.label.contains("Sample rate: 44100 Hz"))
    );
    assert!(
        streaminfo
            .children
            .iter()
            .any(|b| b.label.contains("Channels: 2"))
    );
    assert!(
        streaminfo
            .children
            .iter()
            .any(|b| b.label.contains("Bits per sample: 16"))
    );
    assert!(
        streaminfo
            .children
            .iter()
            .any(|b| b.label.contains("Total samples: 1000"))
    );
    assert!(
        streaminfo
            .children
            .iter()
            .any(|b| b.label == "MD5 signature")
    );

    let audio = find_block(&blocks, "Audio frames");
    assert_eq!(audio.range, ByteRange::new(4 + 4 + 34, data.len() as u64));
}

#[test]
fn dissect_handles_truncated_metadata_gracefully() {
    let mut data = build_flac();
    data.truncate(4 + 4 + 10); // cut off mid-STREAMINFO, no audio frames
    let blocks = FlacDissector.dissect(&data);
    // Should not panic, and should still surface the marker + block.
    assert_eq!(blocks[0].label, "Marker: fLaC");
    find_block(&blocks, "Metadata block: STREAMINFO");
}

#[test]
fn identify_reports_flac() {
    assert_eq!(identify(&build_flac()), "FLAC");
}
