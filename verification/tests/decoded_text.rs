use filefish::dissectors::png::chunk_with_type;
use filefish::dissectors::wav::chunk_with_id as wav_chunk_with_id;
use filefish::dissectors::webp::chunk_with_id as webp_chunk_with_id;

fn riff_chunk(id: &[u8], payload: &[u8]) -> Vec<u8> {
    let mut d = b"RIFF\0\0\0\0WAVE".to_vec();
    d.extend_from_slice(id);
    d.extend_from_slice(&(payload.len() as u32).to_le_bytes());
    d.extend_from_slice(payload);
    d
}

#[test]
fn wav_chunk_label_follows_the_decoded_id() {
    let data = riff_chunk(b"LIST", &[1, 2, 3]);
    let b = wav_chunk_with_id(&data, 12, &['d', 'a', 't', 'a']);
    assert_eq!(b.label, "Chunk: data");
    assert_eq!(b.children[2].label, "Data");
    assert_eq!((b.range.start, b.range.end), (12, 23));
    let b = wav_chunk_with_id(&data, 12, &['\u{fffd}', 'x', ' ', ' ']);
    assert_eq!(b.label, "Chunk: \u{fffd}x");
    assert_eq!(b.children[0].label, "Chunk ID: \u{fffd}x  ");
    assert_eq!(b.children[2].label, "Data (\u{fffd}x  )");
}

#[test]
fn webp_chunk_label_follows_the_decoded_id() {
    let data = riff_chunk(b"ICCP", &[9, 9]);
    let b = webp_chunk_with_id(&data, 12, &['I', 'C', 'C', 'P']);
    assert_eq!(b.label, "Chunk: ICCP");
    assert_eq!(b.children[2].label, "ICC profile data");
    assert!(!b.default_expanded);
    let b = webp_chunk_with_id(&data, 12, &['A', 'B', ' ', ' ']);
    assert_eq!(b.label, "Chunk: AB");
    assert_eq!(b.children[2].label, "Data (AB  )");
}

#[test]
fn png_chunk_expansion_follows_the_decoded_type() {
    let mut data = vec![0x89, b'P', b'N', b'G', 0x0d, 0x0a, 0x1a, 0x0a];
    data.extend_from_slice(&0u32.to_be_bytes());
    data.extend_from_slice(b"IEND");
    data.extend_from_slice(&[0xae, 0x42, 0x60, 0x82]);
    let b = chunk_with_type(&data, 8, &"IEND".to_string());
    assert_eq!(b.label, "Chunk: IEND");
    assert!(b.default_expanded);
    assert_eq!(b.children.len(), 3);
    assert_eq!(b.children[2].label, "CRC");
    let b = chunk_with_type(&data, 8, &"tEXt".to_string());
    assert_eq!(b.label, "Chunk: tEXt");
    assert!(!b.default_expanded);
    assert_eq!((b.range.start, b.range.end), (8, 20));
}
