//! Calendar dates and durations: days since the Unix epoch as proleptic
//! Gregorian dates, timestamps in UTC, and durations as `H:MM:SS.sss`.

use vstd::prelude::*;
use vstd::arithmetic::div_mod::{lemma_fundamental_div_mod, lemma_fundamental_div_mod_converse, lemma_mod_bound};
use crate::decimal::{fixed_s, lemma_pow10_values, pow10, push_dec_padded, push_fixed, push_fixed_padded};
use crate::text::{dec, lit, push_char_pub, push_dec, push_str, zpad};

verus! {

/// The year, month and day of the proleptic Gregorian calendar that fall
/// `z` days after 1970-01-01 (days counted in 400-year eras from 0000-03-01).
pub open spec fn civil_from_days_s(z: int) -> (int, int, int) {
    let zz = z + 719468;
    let era = zz / 146097;
    let doe = zz - era * 146097;
    let yoe = (doe - doe / 1460 + doe / 36524 - doe / 146096) / 365;
    let y = yoe + era * 400;
    let doy = doe - (365 * yoe + yoe / 4 - yoe / 100);
    let mp = (5 * doy + 2) / 153;
    let d = doy - (153 * mp + 2) / 5 + 1;
    let m = if mp < 10 { mp + 3 } else { mp - 9 };
    (if m <= 2 { y + 1 } else { y }, m, d)
}

/// The day of the era's year and the year of the era for a day of a 400-year era.
proof fn lemma_doe(doe: int)
    requires
        0 <= doe < 146097,
    ensures
        ({
            let yoe = (doe - doe / 1460 + doe / 36524 - doe / 146096) / 365;
            let doy = doe - (365 * yoe + yoe / 4 - yoe / 100);
            &&& 0 <= yoe <= 399
            &&& 0 <= doy <= 365
        }),
{
}

/// The days of the era split into year of era, day of year, month index (March first) and day.
proof fn lemma_civil_ranges(doy: int)
    requires
        0 <= doy <= 365,
    ensures
        ({
            let mp = (5 * doy + 2) / 153;
            let d = doy - (153 * mp + 2) / 5 + 1;
            &&& 0 <= mp <= 11
            &&& 1 <= d <= 31
        }),
{
}

/// The calendar date `z` days after 1970-01-01.
pub fn civil_from_days(z: i64) -> (r: (i64, u32, u32))
    ensures
        (r.0 as int, r.1 as int, r.2 as int) == civil_from_days_s(z as int),
        1 <= r.1 <= 12,
        1 <= r.2 <= 31,
{
    let eras: i128 = 100_000_000_000_000;
    let w = (z as i128 + 719468 + 146097 * eras) as u128;
    let era_shifted = w / 146097;
    let doe = w % 146097;
    let ghost zz = z + 719468;
    proof {
        lemma_fundamental_div_mod_converse(zz, 146097, era_shifted - eras, doe as int);
        lemma_doe(doe as int);
    }
    let era: i128 = era_shifted as i128 - eras;
    let yoe = (doe - doe / 1460 + doe / 36524 - doe / 146096) / 365;
    let doy = doe - (365 * yoe + yoe / 4 - yoe / 100);
    proof { lemma_civil_ranges(doy as int); }
    let mp = (5 * doy + 2) / 153;
    let d = doy - (153 * mp + 2) / 5 + 1;
    let m = if mp < 10 { mp + 3 } else { mp - 9 };
    let y = yoe as i128 + era * 400;
    let year = if m <= 2 { y + 1 } else { y };
    (year as i64, m as u32, d as u32)
}


/// Whether `y` is a leap year of the Gregorian calendar.
pub open spec fn is_leap_year(y: int) -> bool {
    y % 4 == 0 && (y % 100 != 0 || y % 400 == 0)
}

/// The number of days of month `m` (1 for January) of year `y`.
pub open spec fn month_days(y: int, m: int) -> int {
    if m == 2 {
        if is_leap_year(y) { 29 } else { 28 }
    } else if m == 4 || m == 6 || m == 9 || m == 11 {
        30
    } else {
        31
    }
}

/// Whether `(y, m, d)` names a day of the calendar.
pub open spec fn valid_date(date: (int, int, int)) -> bool {
    1 <= date.1 <= 12 && 1 <= date.2 <= month_days(date.0, date.1)
}

/// The calendar day after `(y, m, d)`.
pub open spec fn next_date(date: (int, int, int)) -> (int, int, int) {
    let (y, m, d) = date;
    if d < month_days(y, m) {
        (y, m, d + 1)
    } else if m < 12 {
        (y, m + 1, 1)
    } else {
        (y + 1, 1, 1)
    }
}

/// The date of day `doy` (0 for March 1) of the year that runs from March
/// of `y` to February of `y + 1`.
spec fn march_date(y: int, doy: int) -> (int, int, int) {
    let mp = (5 * doy + 2) / 153;
    let d = doy - (153 * mp + 2) / 5 + 1;
    let m = if mp < 10 { mp + 3 } else { mp - 9 };
    (if m <= 2 { y + 1 } else { y }, m, d)
}

/// The first day of month `k` (0 for March) of a year that starts in March.
spec fn month_start(k: int) -> int {
    if k <= 0 { 0 } else if k == 1 { 31 } else if k == 2 { 61 } else if k == 3 { 92 }
    else if k == 4 { 122 } else if k == 5 { 153 } else if k == 6 { 184 } else if k == 7 { 214 }
    else if k == 8 { 245 } else if k == 9 { 275 } else if k == 10 { 306 } else if k == 11 { 337 }
    else { 367 }
}

proof fn lemma_month_index(doy: int, k: int)
    requires
        0 <= k <= 11,
        month_start(k) <= doy < month_start(k + 1),
    ensures
        (5 * doy + 2) / 153 == k,
        (153 * k + 2) / 5 == month_start(k),
{
    lemma_fundamental_div_mod_converse(5 * doy + 2, 153, k, 5 * doy + 2 - 153 * k);
    lemma_fundamental_div_mod_converse(153 * k + 2, 5, month_start(k), 153 * k + 2 - 5 * month_start(k));
}

proof fn lemma_month_of(doy: int) -> (k: int)
    requires
        0 <= doy < 367,
    ensures
        0 <= k <= 11,
        month_start(k) <= doy < month_start(k + 1),
        (5 * doy + 2) / 153 == k,
        (153 * k + 2) / 5 == month_start(k),
{
    let k = if doy < 31 { 0int } else if doy < 61 { 1 } else if doy < 92 { 2 } else if doy < 122 { 3 }
        else if doy < 153 { 4 } else if doy < 184 { 5 } else if doy < 214 { 6 } else if doy < 245 { 7 }
        else if doy < 275 { 8 } else if doy < 306 { 9 } else if doy < 337 { 10 } else { 11 };
    lemma_month_index(doy, k);
    k
}

/// Within a year that starts in March, each day is a date and the next day
/// is the next date; the last day is followed by March 1 of the next year.
proof fn lemma_march_step(y: int, doy: int)
    requires
        0 <= doy < (if is_leap_year(y + 1) { 366int } else { 365 }),
    ensures
        valid_date(march_date(y, doy)),
        doy + 1 < (if is_leap_year(y + 1) { 366int } else { 365 })
            ==> march_date(y, doy + 1) == next_date(march_date(y, doy)),
        doy + 1 == (if is_leap_year(y + 1) { 366int } else { 365 })
            ==> march_date(y + 1, 0) == next_date(march_date(y, doy)),
{
    let k = lemma_month_of(doy);
    if doy + 1 < (if is_leap_year(y + 1) { 366int } else { 365 }) {
        let k2 = if doy + 1 < month_start(k + 1) { k } else { k + 1 };
        lemma_month_index(doy + 1, k2);
    } else {
        lemma_month_index(0, 0);
    }
}

/// The year of a 400-year era (0 from March of its first year) in which
/// falls day `doe` of the era.
spec fn yoe_of(doe: int) -> int {
    (doe - doe / 1460 + doe / 36524 - doe / 146096) / 365
}

/// The day of its year (0 for March 1) of day `doe` of a 400-year era.
spec fn doy_of(doe: int) -> int {
    let yoe = yoe_of(doe);
    doe - (365 * yoe + yoe / 4 - yoe / 100)
}

/// The length of year `yoe` of an era: it ends with the February of year
/// `yoe + 1`, which is leap every fourth year but in the first three centuries' last.
spec fn era_year_len(yoe: int) -> int {
    if (yoe + 1) % 4 == 0 && ((yoe + 1) % 100 != 0 || yoe == 399) { 366 } else { 365 }
}

/// Day `d` of year `100 * c + 4 * q + r` of an era: the year is found again
/// from the day of the era, and so is the day.
proof fn lemma_era_parts(c: int, q: int, r: int, d: int)
    requires
        0 <= c <= 3,
        0 <= q <= 24,
        0 <= r <= 3,
        0 <= d < era_year_len(100 * c + 4 * q + r),
    ensures
        yoe_of(36524 * c + 1461 * q + 365 * r + d) == 100 * c + 4 * q + r,
        doy_of(36524 * c + 1461 * q + 365 * r + d) == d,
{
    let yoe = 100 * c + 4 * q + r;
    let doe = 36524 * c + 1461 * q + 365 * r + d;
    lemma_fundamental_div_mod_converse(yoe + 1, 4, 25 * c + q + (r + 1) / 4, (r + 1) % 4);
    if r == 3 {
        if q < 24 {
            lemma_fundamental_div_mod_converse(yoe + 1, 100, c, 4 * q + 4);
        } else {
            lemma_fundamental_div_mod_converse(yoe + 1, 100, c + 1, 0);
        }
    }
    let e: int = if 24 * c + q + 365 * r + d >= 1460 { 1 } else { 0 };
    lemma_fundamental_div_mod_converse(doe, 1460, 25 * c + q + e, 24 * c + q + 365 * r + d - 1460 * e);
    let last: int = if doe == 146096 { 1 } else { 0 };
    lemma_fundamental_div_mod_converse(doe, 36524, c + last, doe - 36524 * (c + last));
    lemma_fundamental_div_mod_converse(doe, 146096, last, doe - 146096 * last);
    lemma_fundamental_div_mod_converse(doe - doe / 1460 + doe / 36524 - doe / 146096, 365, yoe, d - e);
    lemma_fundamental_div_mod_converse(yoe, 4, 25 * c + q, r);
    lemma_fundamental_div_mod_converse(yoe, 100, c, 4 * q + r);
}

/// Every day of an era is a day of a year of the era.
proof fn lemma_era_split(doe: int) -> (t: (int, int, int, int))
    requires
        0 <= doe < 146097,
    ensures
        0 <= t.0 <= 3,
        0 <= t.1 <= 24,
        0 <= t.2 <= 3,
        0 <= t.3 < era_year_len(100 * t.0 + 4 * t.1 + t.2),
        doe == 36524 * t.0 + 1461 * t.1 + 365 * t.2 + t.3,
{
    let c: int = if doe >= 109572 { 3 } else if doe >= 73048 { 2 } else if doe >= 36524 { 1 } else { 0 };
    let rest1 = doe - 36524 * c;
    let q0 = rest1 / 1461;
    lemma_fundamental_div_mod_converse(rest1, 1461, q0, rest1 % 1461);
    let q: int = if q0 > 24 { 24 } else { q0 };
    let rest2 = rest1 - 1461 * q;
    let r0 = rest2 / 365;
    lemma_fundamental_div_mod_converse(rest2, 365, r0, rest2 % 365);
    let r: int = if r0 > 3 { 3 } else { r0 };
    let d = rest2 - 365 * r;
    let yoe = 100 * c + 4 * q + r;
    lemma_fundamental_div_mod_converse(yoe + 1, 4, 25 * c + q + (r + 1) / 4, (r + 1) % 4);
    if r == 3 {
        if q < 24 {
            lemma_fundamental_div_mod_converse(yoe + 1, 100, c, 4 * q + 4);
        } else {
            lemma_fundamental_div_mod_converse(yoe + 1, 100, c + 1, 0);
        }
    }
    (c, q, r, d)
}

/// Whether year `400 * era + t` is leap depends on `t` alone.
proof fn lemma_leap_in_era(era: int, yoe: int)
    requires
        0 <= yoe <= 399,
    ensures
        (if is_leap_year(400 * era + yoe + 1) { 366int } else { 365 }) == era_year_len(yoe),
{
    let t = yoe + 1;
    lemma_fundamental_div_mod_converse(t, 4, t / 4, t % 4);
    lemma_fundamental_div_mod_converse(t, 100, t / 100, t % 100);
    lemma_fundamental_div_mod_converse(400 * era + t, 4, 100 * era + t / 4, t % 4);
    lemma_fundamental_div_mod_converse(400 * era + t, 100, 4 * era + t / 100, t % 100);
    if t == 400 {
        lemma_fundamental_div_mod_converse(400 * era + t, 400, era + 1, 0);
    } else {
        lemma_fundamental_div_mod_converse(400 * era + t, 400, era, t);
    }
}

/// Day `doe` of an era is a date, and the day after it is the next date
/// (`doe + 1` staying within the era).
proof fn lemma_era_step(era: int, doe: int)
    requires
        0 <= doe < 146097,
    ensures
        0 <= yoe_of(doe) <= 399,
        0 <= doy_of(doe) < era_year_len(yoe_of(doe)),
        (if is_leap_year(400 * era + yoe_of(doe) + 1) { 366int } else { 365 }) == era_year_len(yoe_of(doe)),
        doe + 1 < 146097 && doy_of(doe) + 1 < era_year_len(yoe_of(doe))
            ==> yoe_of(doe + 1) == yoe_of(doe) && doy_of(doe + 1) == doy_of(doe) + 1,
        doe + 1 < 146097 && doy_of(doe) + 1 == era_year_len(yoe_of(doe))
            ==> yoe_of(doe + 1) == yoe_of(doe) + 1 && doy_of(doe + 1) == 0,
        doe + 1 == 146097 ==> yoe_of(doe) == 399 && doy_of(doe) + 1 == era_year_len(399),
{
    let (c, q, r, d) = lemma_era_split(doe);
    lemma_era_parts(c, q, r, d);
    lemma_leap_in_era(era, 100 * c + 4 * q + r);
    if doe + 1 < 146097 {
        let (c2, q2, r2, d2) = lemma_era_split(doe + 1);
        lemma_era_parts(c2, q2, r2, d2);
        if d + 1 < era_year_len(100 * c + 4 * q + r) {
            assert(c2 == c && q2 == q && r2 == r && d2 == d + 1) by {
                lemma_era_parts(c, q, r, d + 1);
            }
        } else if r < 3 {
            lemma_era_parts(c, q, r + 1, 0);
        } else if q < 24 {
            lemma_era_parts(c, q + 1, 0, 0);
        } else {
            lemma_era_parts(c + 1, 0, 0, 0);
        }
    }
}

/// Days counted from 1970-01-01 are the days of the proleptic Gregorian
/// calendar: day 0 is 1970-01-01, every day is a date, and each next day is
/// the next date.
pub proof fn lemma_civil_calendar(z: int)
    ensures
        civil_from_days_s(0) == (1970int, 1int, 1int),
        valid_date(civil_from_days_s(z)),
        civil_from_days_s(z + 1) == next_date(civil_from_days_s(z)),
{
    lemma_fundamental_div_mod_converse(719468, 146097, 4, 135080);
    lemma_era_parts(3, 17, 1, 306);
    let zz = z + 719468;
    let era = zz / 146097;
    let doe = zz % 146097;
    lemma_fundamental_div_mod(zz, 146097);
    lemma_mod_bound(zz, 146097);
    lemma_era_step(era, doe);
    let y = yoe_of(doe) + era * 400;
    assert(civil_from_days_s(z) == march_date(y, doy_of(doe)));
    lemma_march_step(y, doy_of(doe));
    if doe + 1 < 146097 {
        lemma_fundamental_div_mod_converse(zz + 1, 146097, era, doe + 1);
        assert(civil_from_days_s(z + 1) == march_date(yoe_of(doe + 1) + era * 400, doy_of(doe + 1)));
    } else {
        lemma_fundamental_div_mod_converse(zz + 1, 146097, era + 1, 0);
        assert(yoe_of(0) == 0 && doy_of(0) == 0) by {
            lemma_era_parts(0, 0, 0, 0);
        }
        assert(civil_from_days_s(z + 1) == march_date((era + 1) * 400, 0));
    }
}

/// A year as std's `{:04}` renders it: at least four characters, zeros
/// after the sign of a negative year.
pub open spec fn year_s(y: int) -> Seq<char> {
    if y < 0 {
        seq!['-'] + zpad(dec((-y) as nat), 3)
    } else {
        zpad(dec(y as nat), 4)
    }
}

/// `u` seconds after 1970-01-01 00:00:00 UTC as `YYYY-MM-DD HH:MM:SS UTC`.
pub open spec fn unix_timestamp_s(u: int) -> Seq<char> {
    let days = u / 86400;
    let sod = u % 86400;
    let (y, m, d) = civil_from_days_s(days);
    year_s(y) + "-"@ + zpad(dec(m as nat), 2) + "-"@ + zpad(dec(d as nat), 2) + " "@ + zpad(dec((sod / 3600) as nat), 2) + ":"@
        + zpad(dec(((sod % 3600) / 60) as nat), 2) + ":"@ + zpad(dec((sod % 60) as nat), 2) + " UTC"@
}

fn push_year(s: &mut String, y: i64)
    ensures
        final(s)@ == old(s)@ + year_s(y as int),
{
    if y < 0 {
        push_char_pub(s, '-');
        let a: u128 = (0 - (y as i128)) as u128;
        push_dec_padded(s, a, 3);
    } else {
        push_dec_padded(s, y as u128, 4);
    }
    assert(final(s)@ =~= old(s)@ + year_s(y as int));
}

pub fn format_unix_timestamp(u: i64) -> (r: String)
    ensures
        r@ == unix_timestamp_s(u as int),
{
    format_unix_seconds(u as i128)
}

/// `u` seconds after the Unix epoch, for any `u` from the least 64-bit
/// signed value to the greatest 64-bit unsigned one.
fn format_unix_seconds(u: i128) -> (r: String)
    requires
        -0x8000_0000_0000_0000 <= u <= 0xffff_ffff_ffff_ffff,
    ensures
        r@ == unix_timestamp_s(u as int),
{
    let k: i128 = 0x8000_0000_0000;
    let w = (u as i128 + 86400 * k) as u128;
    let q = w / 86400;
    let sod = w % 86400;
    proof {
        lemma_fundamental_div_mod_converse(u as int, 86400, q - k, sod as int);
    }
    let days = (q as i128 - k) as i64;
    let (y, m, d) = civil_from_days(days);
    let mut s = String::new();
    push_year(&mut s, y);
    push_str(&mut s, "-");
    push_dec_padded(&mut s, m as u128, 2);
    push_str(&mut s, "-");
    push_dec_padded(&mut s, d as u128, 2);
    push_str(&mut s, " ");
    push_dec_padded(&mut s, sod / 3600, 2);
    push_str(&mut s, ":");
    push_dec_padded(&mut s, (sod % 3600) / 60, 2);
    push_str(&mut s, ":");
    push_dec_padded(&mut s, sod % 60, 2);
    push_str(&mut s, " UTC");
    s
}

/// Seconds between 1904-01-01 (the MP4 epoch) and 1970-01-01.
pub const MP4_EPOCH_OFFSET: i64 = 2_082_844_800;

/// The Unix time of an MP4 timestamp, `v` seconds after 1904-01-01: the
/// epoch offset less, computed without wrapping.
pub open spec fn mp4_unix_s(v: u64) -> int {
    v - MP4_EPOCH_OFFSET
}

/// An MP4 timestamp (seconds since 1904-01-01 00:00:00 UTC) as a UTC date and time.
pub fn format_mp4_epoch(v: u64) -> (r: String)
    ensures
        r@ == unix_timestamp_s(mp4_unix_s(v)),
{
    format_unix_seconds(v as i128 - MP4_EPOCH_OFFSET as i128)
}

/// A duration of `v / ts` seconds as `H:MM:SS.sss`, `M:SS.sss` or `S.sssS`:
/// leading zero components dropped, seconds rounded to milliseconds.
pub open spec fn duration_s(v: nat, ts: nat) -> Seq<char> {
    let hours = v / (3600 * ts);
    let minutes = (v % (3600 * ts)) / (60 * ts);
    let secs = fixed_s(v % (60 * ts), ts, 3);
    if hours > 0 {
        dec(hours) + ":"@ + zpad(dec(minutes), 2) + ":"@ + zpad(secs, 6)
    } else if minutes > 0 {
        dec(minutes) + ":"@ + zpad(secs, 6)
    } else {
        secs + "s"@
    }
}

pub fn format_duration(v: u64, ts: u32) -> (r: String)
    requires
        ts > 0,
    ensures
        r@ == duration_s(v as nat, ts as nat),
{
    let v = v as u128;
    let t = ts as u128;
    let hours = v / (3600 * t);
    let minutes = (v % (3600 * t)) / (60 * t);
    let rem = v % (60 * t);
    proof {
        lemma_pow10_values();
        assert(rem / t < 60) by (nonlinear_arith)
            requires
                rem < 60 * t,
                t > 0,
        ;
    }
    let mut s = String::new();
    if hours > 0 {
        push_dec_padded(&mut s, hours, 0);
        push_str(&mut s, ":");
        push_dec_padded(&mut s, minutes, 2);
        push_str(&mut s, ":");
        push_fixed_padded(&mut s, rem, t, 3, 6);
    } else if minutes > 0 {
        push_dec_padded(&mut s, minutes, 0);
        push_str(&mut s, ":");
        push_fixed_padded(&mut s, rem, t, 3, 6);
    } else {
        push_fixed(&mut s, rem, t, 3);
        push_str(&mut s, "s");
    }
    proof {
        assert(zpad(dec(hours as nat), 0) == dec(hours as nat));
        assert(zpad(dec(minutes as nat), 0) == dec(minutes as nat));
    }
    s
}

} // verus!
