use filefish::dissect::hex_dump;

#[test]
fn hex_dump_of_empty_input_is_empty() {
    assert_eq!(hex_dump(b""), "");
}

#[test]
fn hex_dump_pads_a_short_line() {
    assert_eq!(
        hex_dump(b"Hello, world!\n"),
        "00000000  48 65 6c 6c 6f 2c 20 77 6f 72 6c 64 21 0a        Hello, world!.\n"
    );
}

#[test]
fn hex_dump_breaks_lines_every_sixteen_bytes() {
    let data: Vec<u8> = (0u8..20).collect();
    assert_eq!(
        hex_dump(&data),
        "00000000  00 01 02 03 04 05 06 07 08 09 0a 0b 0c 0d 0e 0f  ................\n\
         00000010  10 11 12 13                                      ....\n"
    );
}

#[test]
fn hex_dump_shows_only_printable_ascii_as_text() {
    let dump = hex_dump(&[0x41, 0x7f, 0x20, 0x7e, 0x80]);
    assert!(dump.ends_with(" A. ~.\n"));
}

#[test]
fn hex_dump_length_follows_line_layout() {
    for n in 0usize..70 {
        let data = vec![0x61u8; n];
        let expected = 76 * (n / 16) + if n % 16 > 0 { 60 + n % 16 } else { 0 };
        assert_eq!(hex_dump(&data).len(), expected);
    }
}
