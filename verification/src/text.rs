//! Text building blocks: decimal and hexadecimal rendering of integers,
//! booleans, and the assembly of block labels.

use vstd::prelude::*;
use vstd::string::*;
use vstd::utf8::{decode_utf8, valid_utf8};
use crate::bytes::{as_i16, as_i32, as_i64, signed16, signed32, signed64};

verus! {

/// Appends one character to a string (std's `String::push`).
/// Trusted: the string's characters afterwards are the old ones followed by `c`.
#[verifier::external_body]
pub(crate) fn push_char(s: &mut String, c: char)
    ensures
        final(s)@ == old(s)@.push(c),
{
    s.push(c);
}

/// Appends one character.
pub fn push_char_pub(s: &mut String, c: char)
    ensures
        final(s)@ == old(s)@.push(c),
{
    push_char(s, c);
}

/// Appends a string slice.
pub fn push_str(s: &mut String, t: &str)
    ensures
        final(s)@ == old(s)@ + t@,
{
    s.append(t);
}

/// A fresh string holding the characters of `t`.
pub fn lit(t: &str) -> (r: String)
    ensures
        r@ == t@,
{
    String::from_str(t)
}

/// The ASCII digit for a value below ten.
pub open spec fn digit_char(d: nat) -> char {
    (d + 48) as char
}

/// The lower-case hexadecimal digit for a value below sixteen.
pub open spec fn hex_char(d: nat) -> char {
    if d < 10 {
        (d + 48) as char
    } else {
        (d + 87) as char
    }
}

/// Decimal digits of `n`, most significant first, without leading zeros.
pub open spec fn dec(n: nat) -> Seq<char>
    decreases n,
{
    if n < 10 {
        seq![digit_char(n)]
    } else {
        dec(n / 10).push(digit_char(n % 10))
    }
}

/// Decimal rendering of a signed integer: a minus sign before the digits of a negative value.
pub open spec fn sdec(n: int) -> Seq<char> {
    if n < 0 {
        seq!['-'] + dec((-n) as nat)
    } else {
        dec(n as nat)
    }
}

/// Lower-case hexadecimal digits of `n`, without leading zeros.
pub open spec fn hex(n: nat) -> Seq<char>
    decreases n,
{
    if n < 16 {
        seq![hex_char(n)]
    } else {
        hex(n / 16).push(hex_char(n % 16))
    }
}

/// `k` zero characters.
pub open spec fn zeros(k: nat) -> Seq<char> {
    Seq::new(k, |i: int| '0')
}

/// `s` left-padded with zeros to at least `w` characters.
pub open spec fn zpad(s: Seq<char>, w: nat) -> Seq<char> {
    if s.len() < w {
        zeros((w - s.len()) as nat) + s
    } else {
        s
    }
}

/// `0x` followed by the hexadecimal digits of `n`, zero-padded so that the
/// whole rendering has at least `w` characters (std's `{:#0wx}`).
pub open spec fn alt_hex(n: nat, w: nat) -> Seq<char> {
    seq!['0', 'x'] + zpad(hex(n), if w >= 2 { (w - 2) as nat } else { 0 })
}

/// `true` or `false`.
pub open spec fn bool_text(b: bool) -> Seq<char> {
    if b {
        seq!['t', 'r', 'u', 'e']
    } else {
        seq!['f', 'a', 'l', 's', 'e']
    }
}

/// Appends the decimal rendering of `n`.
pub fn push_dec(s: &mut String, n: u64)
    ensures
        final(s)@ == old(s)@ + dec(n as nat),
    decreases n,
{
    if n >= 10 {
        push_dec(s, n / 10);
    }
    let d: u8 = (n % 10) as u8;
    push_char(s, (d + 48) as char);
    proof {
        if n >= 10 {
            assert(dec(n as nat) == dec((n / 10) as nat).push(digit_char((n % 10) as nat)));
        }
    }
}

/// Appends the decimal rendering of a signed value.
pub fn push_sdec(s: &mut String, n: i64)
    ensures
        final(s)@ == old(s)@ + sdec(n as int),
{
    if n < 0 {
        push_char(s, '-');
        let m: u64 = if n == i64::MIN {
            9223372036854775808u64
        } else {
            (-n) as u64
        };
        push_dec(s, m);
        assert(final(s)@ =~= old(s)@ + sdec(n as int));
    } else {
        push_dec(s, n as u64);
    }
}

/// Appends the lower-case hexadecimal digits of `n`.
pub fn push_hex_digits(s: &mut String, n: u64)
    ensures
        final(s)@ == old(s)@ + hex(n as nat),
    decreases n,
{
    if n >= 16 {
        push_hex_digits(s, n / 16);
    }
    let d: u8 = (n % 16) as u8;
    if d < 10 {
        push_char(s, (d + 48) as char);
    } else {
        push_char(s, (d + 87) as char);
    }
    proof {
        if n >= 16 {
            assert(hex(n as nat) == hex((n / 16) as nat).push(hex_char((n % 16) as nat)));
        }
    }
}

fn hex_digit_count(n: u64) -> (c: u64)
    ensures
        c == hex(n as nat).len(),
    decreases n,
{
    if n >= 16 {
        let c = hex_digit_count(n / 16);
        proof { lemma_hex_len((n / 16) as nat); }
        c + 1
    } else {
        1
    }
}

proof fn lemma_hex_len(n: nat)
    ensures
        hex(n).len() <= n + 1,
    decreases n,
{
    if n >= 16 {
        lemma_hex_len(n / 16);
    }
}

/// Appends `k` zero characters.
pub fn push_zeros(s: &mut String, k: u64)
    ensures
        final(s)@ == old(s)@ + zeros(k as nat),
{
    let mut i: u64 = 0;
    while i < k
        invariant
            i <= k,
            s@ == old(s)@ + zeros(i as nat),
        decreases k - i,
    {
        push_char(s, '0');
        i = i + 1;
        assert(s@ =~= old(s)@ + zeros(i as nat));
    }
}

/// Appends the digits of `n` in hexadecimal, zero-padded to at least `w` characters.
pub fn push_hex_padded(s: &mut String, n: u64, w: u64)
    ensures
        final(s)@ == old(s)@ + zpad(hex(n as nat), w as nat),
{
    let c = hex_digit_count(n);
    if c < w {
        push_zeros(s, w - c);
    }
    push_hex_digits(s, n);
    assert(final(s)@ =~= old(s)@ + zpad(hex(n as nat), w as nat));
}

/// Appends `0x` and the hexadecimal digits of `n`, padded to a total width of `w` (std's `{:#0wx}`).
pub fn push_alt_hex(s: &mut String, n: u64, w: u64)
    ensures
        final(s)@ == old(s)@ + alt_hex(n as nat, w as nat),
{
    push_char(s, '0');
    push_char(s, 'x');
    push_hex_padded(s, n, if w >= 2 { w - 2 } else { 0 });
    assert(final(s)@ =~= old(s)@ + alt_hex(n as nat, w as nat));
}

/// Appends `true` or `false`.
pub fn push_bool(s: &mut String, b: bool)
    ensures
        final(s)@ == old(s)@ + bool_text(b),
{
    if b {
        push_char(s, 't');
        push_char(s, 'r');
        push_char(s, 'u');
        push_char(s, 'e');
    } else {
        push_char(s, 'f');
        push_char(s, 'a');
        push_char(s, 'l');
        push_char(s, 's');
        push_char(s, 'e');
    }
    assert(final(s)@ =~= old(s)@ + bool_text(b));
}

/// `part` appended to a comma-separated list.
pub open spec fn add_part(acc: Seq<char>, part: Seq<char>) -> Seq<char> {
    if acc.len() == 0 {
        part
    } else {
        acc + ", "@ + part
    }
}

/// Appends `part` to a comma-separated list.
pub fn push_part(s: &mut String, part: &str)
    requires
        part@.len() > 0,
    ensures
        final(s)@ == add_part(old(s)@, part@),
        final(s)@.len() > 0,
{
    if s.as_str().unicode_len() > 0 {
        push_str(s, ", ");
    }
    push_str(s, part);
}

/// `prefix` followed by the decimal rendering of `n`.
pub fn label_u64(prefix: &str, n: u64) -> (r: String)
    ensures
        r@ == prefix@ + dec(n as nat),
{
    let mut s = lit(prefix);
    push_dec(&mut s, n);
    s
}

pub fn label_u32(prefix: &str, n: u32) -> (r: String)
    ensures
        r@ == prefix@ + dec(n as nat),
{
    label_u64(prefix, n as u64)
}

pub fn label_u16(prefix: &str, n: u16) -> (r: String)
    ensures
        r@ == prefix@ + dec(n as nat),
{
    label_u64(prefix, n as u64)
}

pub fn label_u8(prefix: &str, n: u8) -> (r: String)
    ensures
        r@ == prefix@ + dec(n as nat),
{
    label_u64(prefix, n as u64)
}

/// Appends the decimal rendering of a 32-bit value.
pub fn push_u32(s: &mut String, n: u32)
    ensures
        final(s)@ == old(s)@ + dec(n as nat),
{
    push_dec(s, n as u64);
}

pub fn push_u16(s: &mut String, n: u16)
    ensures
        final(s)@ == old(s)@ + dec(n as nat),
{
    push_dec(s, n as u64);
}

pub fn push_u8(s: &mut String, n: u8)
    ensures
        final(s)@ == old(s)@ + dec(n as nat),
{
    push_dec(s, n as u64);
}

/// `prefix` followed by a 32-bit pattern rendered as a signed decimal.
pub fn label_i32(prefix: &str, bits: u32) -> (r: String)
    ensures
        r@ == prefix@ + sdec(as_i32(bits)),
{
    let mut s = lit(prefix);
    push_sdec(&mut s, signed32(bits));
    s
}

/// `prefix` followed by a 16-bit pattern rendered as a signed decimal.
pub fn label_i16(prefix: &str, bits: u16) -> (r: String)
    ensures
        r@ == prefix@ + sdec(as_i16(bits)),
{
    let mut s = lit(prefix);
    push_sdec(&mut s, signed16(bits));
    s
}

/// `prefix` followed by a 64-bit pattern rendered as a signed decimal.
pub fn label_i64(prefix: &str, bits: u64) -> (r: String)
    ensures
        r@ == prefix@ + sdec(as_i64(bits)),
{
    let mut s = lit(prefix);
    push_sdec(&mut s, signed64(bits));
    s
}

/// `prefix` followed by `0x` and the hexadecimal digits of `n`, padded to width `w`.
pub fn label_hex(prefix: &str, n: u64, w: u64) -> (r: String)
    ensures
        r@ == prefix@ + alt_hex(n as nat, w as nat),
{
    let mut s = lit(prefix);
    push_alt_hex(&mut s, n, w);
    s
}

pub fn label_hex32(prefix: &str, n: u32, w: u64) -> (r: String)
    ensures
        r@ == prefix@ + alt_hex(n as nat, w as nat),
{
    label_hex(prefix, n as u64, w)
}

pub fn label_hex16(prefix: &str, n: u16, w: u64) -> (r: String)
    ensures
        r@ == prefix@ + alt_hex(n as nat, w as nat),
{
    label_hex(prefix, n as u64, w)
}

pub fn label_hex8(prefix: &str, n: u8, w: u64) -> (r: String)
    ensures
        r@ == prefix@ + alt_hex(n as nat, w as nat),
{
    label_hex(prefix, n as u64, w)
}

/// `prefix` followed by `true` or `false`.
pub fn label_bool(prefix: &str, b: bool) -> (r: String)
    ensures
        r@ == prefix@ + bool_text(b),
{
    let mut s = lit(prefix);
    push_bool(&mut s, b);
    s
}

/// `prefix` followed by `t`.
pub fn label_str(prefix: &str, t: &str) -> (r: String)
    ensures
        r@ == prefix@ + t@,
{
    let mut s = lit(prefix);
    push_str(&mut s, t);
    s
}

/// `prefix`, then `t`, then `suffix`.
pub fn label_wrap(prefix: &str, t: &str, suffix: &str) -> (r: String)
    ensures
        r@ == prefix@ + t@ + suffix@,
{
    let mut s = lit(prefix);
    push_str(&mut s, t);
    push_str(&mut s, suffix);
    s
}

/// `prefix`, the decimal rendering of `n`, then `suffix`.
pub fn label_u64_wrap(prefix: &str, n: u64, suffix: &str) -> (r: String)
    ensures
        r@ == prefix@ + dec(n as nat) + suffix@,
{
    let mut s = lit(prefix);
    push_dec(&mut s, n);
    push_str(&mut s, suffix);
    s
}

/// The characters std's `String::from_utf8_lossy` makes of `bytes`: the
/// decoded text, with each invalid sequence replaced by U+FFFD.
pub uninterp spec fn utf8_lossy(bytes: Seq<u8>) -> Seq<char>;

/// Decodes bytes as UTF-8, replacing invalid sequences (std's `String::from_utf8_lossy`).
/// Trusted: the result is `utf8_lossy(bytes)`, and valid UTF-8 decodes to its characters.
#[verifier::external_body]
pub(crate) fn lossy_chars(bytes: &[u8]) -> (r: Vec<char>)
    ensures
        r@ == utf8_lossy(bytes@),
        valid_utf8(bytes@) ==> r@ == decode_utf8(bytes@),
{
    String::from_utf8_lossy(bytes).chars().collect()
}

/// A string holding exactly the characters `cs`.
pub fn string_from(cs: &[char]) -> (r: String)
    ensures
        r@ == cs@,
{
    let mut s = String::new();
    let mut i: usize = 0;
    while i < cs.len()
        invariant
            i <= cs@.len(),
            s@ == cs@.subrange(0, i as int),
        decreases cs.len() - i,
    {
        push_char(&mut s, cs[i]);
        i = i + 1;
        assert(s@ =~= cs@.subrange(0, i as int));
    }
    assert(cs@.subrange(0, cs@.len() as int) =~= cs@);
    s
}

/// `bytes` decoded as UTF-8 with replacement of invalid sequences.
pub fn lossy_string(bytes: &[u8]) -> (r: String)
    ensures
        r@ == utf8_lossy(bytes@),
{
    let cs = lossy_chars(bytes);
    string_from(cs.as_slice())
}

/// Unicode White_Space, the characters std's `trim` functions remove.
pub open spec fn is_ws(c: char) -> bool {
    let v = c as u32;
    (0x09 <= v <= 0x0d) || v == 0x20 || v == 0x85 || v == 0xa0 || v == 0x1680 || (0x2000 <= v <= 0x200a)
        || v == 0x2028 || v == 0x2029 || v == 0x202f || v == 0x205f || v == 0x3000
}

pub fn char_is_ws(c: char) -> (r: bool)
    ensures
        r == is_ws(c),
{
    let v = c as u32;
    (0x09 <= v && v <= 0x0d) || v == 0x20 || v == 0x85 || v == 0xa0 || v == 0x1680 || (0x2000 <= v
        && v <= 0x200a) || v == 0x2028 || v == 0x2029 || v == 0x202f || v == 0x205f || v == 0x3000
}

/// `s` without trailing white space (std's `trim_end`).
pub open spec fn trim_end_s(s: Seq<char>) -> Seq<char>
    decreases s.len(),
{
    if s.len() > 0 && is_ws(s.last()) {
        trim_end_s(s.drop_last())
    } else {
        s
    }
}

/// `s` without leading white space (std's `trim_start`).
pub open spec fn trim_start_s(s: Seq<char>) -> Seq<char>
    decreases s.len(),
{
    if s.len() > 0 && is_ws(s[0]) {
        trim_start_s(s.drop_first())
    } else {
        s
    }
}

/// `s` without leading or trailing white space (std's `trim`).
pub open spec fn trim_s(s: Seq<char>) -> Seq<char> {
    trim_start_s(trim_end_s(s))
}

/// `s` without trailing NUL characters (std's `trim_end_matches('\0')`).
pub open spec fn trim_nul_end_s(s: Seq<char>) -> Seq<char>
    decreases s.len(),
{
    if s.len() > 0 && s.last() == '\0' {
        trim_nul_end_s(s.drop_last())
    } else {
        s
    }
}

/// Whether trimming removes `c`: NUL when `nul`, white space otherwise.
fn trims(c: char, nul: bool) -> (r: bool)
    ensures
        r == if nul { c == '\0' } else { is_ws(c) },
{
    if nul { c == '\0' } else { char_is_ws(c) }
}

/// The length of `s` without trailing white space (or trailing NULs when `nul`).
fn trimmed_end(cs: &[char], nul: bool) -> (e: usize)
    ensures
        e <= cs@.len(),
        !nul ==> trim_end_s(cs@) == cs@.subrange(0, e as int),
        nul ==> trim_nul_end_s(cs@) == cs@.subrange(0, e as int),
{
    let mut e = cs.len();
    assert(cs@.subrange(0, e as int) =~= cs@);
    while e > 0 && trims(cs[e - 1], nul)
        invariant
            e <= cs@.len(),
            !nul ==> trim_end_s(cs@) == trim_end_s(cs@.subrange(0, e as int)),
            nul ==> trim_nul_end_s(cs@) == trim_nul_end_s(cs@.subrange(0, e as int)),
        decreases e,
    {
        assert(cs@.subrange(0, e as int).drop_last() =~= cs@.subrange(0, e - 1));
        e = e - 1;
    }
    e
}

/// The index of the first character of `cs[0..e]` that is not white space.
fn trimmed_start(cs: &[char], e: usize) -> (b: usize)
    requires
        e <= cs@.len(),
    ensures
        b <= e,
        trim_start_s(cs@.subrange(0, e as int)) == cs@.subrange(b as int, e as int),
{
    let mut b: usize = 0;
    assert(cs@.subrange(0, e as int) =~= cs@.subrange(b as int, e as int));
    while b < e && char_is_ws(cs[b])
        invariant
            b <= e <= cs@.len(),
            trim_start_s(cs@.subrange(0, e as int)) == trim_start_s(cs@.subrange(b as int, e as int)),
        decreases e - b,
    {
        assert(cs@.subrange(b as int, e as int).drop_first() =~= cs@.subrange(b + 1, e as int));
        b = b + 1;
    }
    b
}

/// Bounds `b..e` of `cs` without leading and trailing white space.
pub fn trim_bounds(cs: &[char]) -> (r: (usize, usize))
    ensures
        r.0 <= r.1 <= cs@.len(),
        trim_s(cs@) == cs@.subrange(r.0 as int, r.1 as int),
{
    let e = trimmed_end(cs, false);
    let b = trimmed_start(cs, e);
    (b, e)
}

/// `cs` without trailing white space, as a string.
pub fn trim_end_string(cs: &[char]) -> (r: String)
    ensures
        r@ == trim_end_s(cs@),
{
    let e = trimmed_end(cs, false);
    string_from(slice_prefix(cs, e))
}

/// `cs` without leading or trailing white space, as a string.
pub fn trim_string(cs: &[char]) -> (r: String)
    ensures
        r@ == trim_s(cs@),
{
    let e = trimmed_end(cs, false);
    let b = trimmed_start(cs, e);
    string_from(slice_range(cs, b, e))
}

/// `cs` without trailing NUL characters, as a string.
pub fn trim_nul_end_string(cs: &[char]) -> (r: String)
    ensures
        r@ == trim_nul_end_s(cs@),
{
    let e = trimmed_end(cs, true);
    string_from(slice_prefix(cs, e))
}

/// The first `n` characters.
fn slice_prefix(cs: &[char], n: usize) -> (r: &[char])
    requires
        n <= cs@.len(),
    ensures
        r@ == cs@.subrange(0, n as int),
{
    slice_range(cs, 0, n)
}

/// The characters from `b` up to `e`.
fn slice_range(cs: &[char], b: usize, e: usize) -> (r: &[char])
    requires
        b <= e <= cs@.len(),
    ensures
        r@ == cs@.subrange(b as int, e as int),
{
    vstd::slice::slice_subrange(cs, b, e)
}

} // verus!
