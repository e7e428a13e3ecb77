use filefish::dissectors::{identify, Block, ByteRange, Dissector};
use filefish::dissectors::wav::WavDissector;


fn push_bytes(buf: &mut Vec<u8>, bytes: &[u8]) {
    buf.extend_from_slice(bytes);
}

fn build_wav(pcm_data: &[u8]) -> Vec<u8> {
    let mut data = Vec::new();
    let fmt_size: u32 = 16;
    let data_size = pcm_data.len() as u32;
    let riff_size = 4 + (8 + fmt_size) + (8 + data_size);

    push_bytes(&mut data, b"RIFF");
    push_bytes(&mut data, &riff_size.to_le_bytes());
    push_bytes(&mut data, b"WAVE");

    push_bytes(&mut data, b"fmt ");
    push_bytes(&mut data, &fmt_size.to_le_bytes());
    push_bytes(&mut data, &1u16.to_le_bytes()); // PCM
    push_bytes(&mut data, &2u16.to_le_bytes()); // channels
    push_bytes(&mut data, &44100u32.to_le_bytes()); // sample rate
    push_bytes(&mut data, &176400u32.to_le_bytes()); // byte rate
    push_bytes(&mut data, &4u16.to_le_bytes()); // block align
    push_bytes(&mut data, &16u16.to_le_bytes()); // bits per sample

    push_bytes(&mut data, b"data");
    push_bytes(&mut data, &data_size.to_le_bytes());
    push_bytes(&mut data, pcm_data);

    data
}

fn find_block<'a>(blocks: &'a [Block], label: &str) -> &'a Block {
    blocks.iter().find(|b| b.label == label).unwrap_or_else(|| {
        panic!(
            "block {label:?} not found; have {:?}",
            blocks.iter().map(|b| &b.label).collect::<Vec<_>>()
        )
    })
}

#[test]
fn matches_wav_magic() {
    let data = build_wav(&[0u8; 8]);
    assert!(WavDissector.matches(&data));
}

#[test]
fn does_not_match_non_wav_data() {
    assert!(!WavDissector.matches(b"not a wav file"));
    assert!(!WavDissector.matches(b""));
    assert!(!WavDissector.matches(b"RIFF1234AVI "));
}

#[test]
fn wav_dissect_returns_empty_for_truncated_header() {
    let blocks = WavDissector.dissect(b"RIFF");
    assert!(blocks.is_empty());
}

#[test]
fn dissect_parses_fmt_and_data_chunks() {
    let data = build_wav(&[1, 2, 3, 4, 5, 6, 7, 8]);
    let blocks = WavDissector.dissect(&data);

    let riff = find_block(&blocks, "RIFF header");
    assert_eq!(riff.children[0].label, "Chunk ID: RIFF");
    assert_eq!(riff.children[2].label, "Format: WAVE");

    let fmt = find_block(&blocks, "Chunk: fmt ");
    assert!(fmt.children.iter().any(|b| b.label == "Audio format: PCM"));
    assert!(fmt.children.iter().any(|b| b.label == "Channels: 2"));
    assert!(fmt.children.iter().any(|b| b.label == "Sample rate: 44100"));
    assert!(
        fmt.children
            .iter()
            .any(|b| b.label == "Bits per sample: 16")
    );

    let data_chunk = find_block(&blocks, "Chunk: data");
    assert!(data_chunk.children.iter().any(|b| b.label == "Data"));
    let data_block = data_chunk
        .children
        .iter()
        .find(|b| b.label == "Data")
        .unwrap();
    assert_eq!(data_block.range, ByteRange::new(44, 52));
}

#[test]
fn wav_dissect_handles_odd_sized_chunk_padding() {
    let mut data = build_wav(&[1, 2, 3]);
    data.push(0); // RIFF pad byte for the odd-sized data chunk
    let blocks = WavDissector.dissect(&data);

    let data_chunk = find_block(&blocks, "Chunk: data");
    // data chunk starts at 36, header 8 bytes + 3 bytes data + 1 pad byte = 12
    assert_eq!(data_chunk.range, ByteRange::new(36, 48));
}

#[test]
fn identify_reports_wav() {
    let data = build_wav(&[0u8; 4]);
    assert_eq!(identify(&data), "WAV");
}
