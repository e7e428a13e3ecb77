use filefish::decimal::{fixed_string, push_fixed_padded, push_plain};
use filefish::dissectors::mp4::parse_language;
use filefish::text::{lossy_string, trim_string};
use filefish::timefmt::{civil_from_days, format_duration, format_mp4_epoch, format_unix_timestamp};

#[test]
fn fixed_rounds_half_to_even() {
    assert_eq!(fixed_string(1907, 100, 2), "19.07");
    assert_eq!(fixed_string(5, 2, 0), "2");
    assert_eq!(fixed_string(7, 2, 0), "4");
    assert_eq!(fixed_string(1, 8, 2), "0.12");
    assert_eq!(fixed_string(3, 8, 2), "0.38");
    assert_eq!(fixed_string(2, 3, 3), "0.667");
    assert_eq!(fixed_string(0, 1, 6), "0.000000");
}

#[test]
fn fixed_padded_counts_the_point() {
    let mut s = String::new();
    push_fixed_padded(&mut s, 15, 2, 2, 5);
    assert_eq!(s, "07.50");
}

#[test]
fn plain_drops_trailing_zeros() {
    let cases: [(u128, u128, u32, &str); 5] = [
        (0x10000, 65536, 16, "1"),
        (0x18000, 65536, 16, "1.5"),
        (320 << 16, 65536, 16, "320"),
        (256, 256, 8, "1"),
        (1, 256, 8, "0.00390625"),
    ];
    for (n, d, p, expected) in cases {
        let mut s = String::new();
        push_plain(&mut s, n, d, p);
        assert_eq!(s, expected);
    }
}

#[test]
fn durations_drop_leading_zero_components() {
    assert_eq!(format_duration(5000, 1000), "5.000s");
    assert_eq!(format_duration(125_500, 1000), "2:05.500");
    assert_eq!(format_duration(3_725_000, 1000), "1:02:05.000");
    assert_eq!(format_duration(1, 3), "0.333s");
}

#[test]
fn calendar_dates_from_day_numbers() {
    assert_eq!(civil_from_days(0), (1970, 1, 1));
    assert_eq!(civil_from_days(-719468), (0, 3, 1));
    assert_eq!(civil_from_days(19723), (2024, 1, 1));
    assert_eq!(civil_from_days(-719893), (-1, 1, 1));
}

#[test]
fn consecutive_day_numbers_are_consecutive_dates() {
    assert_eq!(civil_from_days(-1), (1969, 12, 31));
    assert_eq!(civil_from_days(-25509), (1900, 2, 28));
    assert_eq!(civil_from_days(-25508), (1900, 3, 1));
    assert_eq!(civil_from_days(11016), (2000, 2, 29));
    assert_eq!(civil_from_days(11017), (2000, 3, 1));
    assert_eq!(civil_from_days(47540), (2100, 2, 28));
    assert_eq!(civil_from_days(47541), (2100, 3, 1));
}

#[test]
fn calendar_dates_at_the_ends_of_the_day_range() {
    assert_eq!(civil_from_days(i64::MIN), (-25252734927764585, 6, 7));
    assert_eq!(civil_from_days(i64::MAX), (25252734927768524, 7, 27));
}

#[test]
fn timestamps_render_in_utc() {
    assert_eq!(format_unix_timestamp(0), "1970-01-01 00:00:00 UTC");
    assert_eq!(format_unix_timestamp(951_782_400), "2000-02-29 00:00:00 UTC");
    assert_eq!(format_unix_timestamp(-1), "1969-12-31 23:59:59 UTC");
    assert_eq!(format_unix_timestamp(-62_198_755_200), "-001-01-01 00:00:00 UTC");
}

#[test]
fn mp4_timestamps_count_from_1904() {
    assert_eq!(format_mp4_epoch(0), "1904-01-01 00:00:00 UTC");
    assert_eq!(format_mp4_epoch(2_082_844_800), "1970-01-01 00:00:00 UTC");
    assert_eq!(format_mp4_epoch(2_082_844_800 + 86_399), "1970-01-01 23:59:59 UTC");
    assert_eq!(format_mp4_epoch(0x8000_0000_0000_0000), "292277026530-12-04 15:30:08 UTC");
    assert_eq!(format_mp4_epoch(u64::MAX), "584554051157-11-08 07:00:15 UTC");
}

#[test]
fn language_codes_unpack_to_letters() {
    assert_eq!(parse_language(0x55c4), "und");
}

#[test]
fn lossy_decoding_replaces_invalid_bytes() {
    assert_eq!(lossy_string(b"ok\xff"), "ok\u{fffd}");
    assert_eq!(lossy_string("gr\u{fc}n".as_bytes()), "gr\u{fc}n");
}

#[test]
fn trimming_removes_surrounding_white_space() {
    assert_eq!(trim_string(&['\t', 'a', ' ', 'b', '\n']), "a b");
}
