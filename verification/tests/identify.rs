use filefish::dissectors::{dissect, dissectors, identify, matched_dissector, ByteRange, Dissector, Format};

#[test]
fn unknown_data_falls_back_to_generic() {
    assert_eq!(identify(b"just some text"), "Data");
    assert_eq!(identify(b""), "Data");
    assert_eq!(matched_dissector(b"just some text"), Format::Generic);
}

#[test]
fn generic_dissection_spans_whole_input() {
    let blocks = dissect(b"xyz");
    assert_eq!(blocks.len(), 1);
    assert_eq!(blocks[0].label, "Data");
    assert_eq!(blocks[0].range, ByteRange::new(0, 3));
    assert!(!blocks[0].expandable);
    assert!(blocks[0].children.is_empty());
}

#[test]
fn registry_order_puts_mp4_before_ico() {
    // A 256-byte `ftyp` box starts with 00 00 01 00, which the ICO check also accepts.
    let mut data = vec![0u8, 0, 1, 0];
    data.extend_from_slice(b"ftypisom");
    data.resize(256, 0);
    assert!(Format::Ico.matches(&data));
    assert!(Format::Mp4.matches(&data));
    assert_eq!(identify(&data), "MP4");
    assert_eq!(matched_dissector(&data), Format::Mp4);
}

#[test]
fn registry_lists_formats_in_trial_order() {
    let all = dissectors();
    assert_eq!(all.len(), 17);
    assert_eq!(all[0], Format::Elf);
    assert_eq!(all[16], Format::Jpeg);
    assert!(!all.contains(&Format::Generic));
}

#[test]
fn identify_and_dissect_use_the_same_format() {
    let data = b"\x7fELF\x02\x01\x01\x00\x00\x00\x00\x00\x00\x00\x00\x00";
    assert_eq!(identify(data), "ELF");
    let blocks = dissect(data);
    assert_eq!(blocks[0].label, "Identification");
    assert_eq!(Format::Elf.name(), "ELF");
}
