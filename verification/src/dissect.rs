//! Helpers for viewing raw file contents.

use vstd::prelude::*;
use crate::text::{hex, push_char_pub, push_hex_padded, push_str, zpad};

verus! {

/// Bytes shown as text: printable ASCII and space as themselves, other bytes as `.`.
pub open spec fn ascii_s(c: Seq<u8>) -> Seq<char> {
    c.map_values(|b: u8| if 0x20 <= b <= 0x7e { b as char } else { '.' })
}

/// Each byte as two lower-case hexadecimal digits followed by a space.
pub open spec fn hex_bytes_s(c: Seq<u8>) -> Seq<char>
    decreases c.len(),
{
    if c.len() == 0 {
        Seq::empty()
    } else {
        hex_bytes_s(c.drop_last()) + zpad(hex(c.last() as nat), 2) + seq![' ']
    }
}

/// `n` space characters.
pub open spec fn spaces(n: nat) -> Seq<char> {
    Seq::new(n, |i: int| ' ')
}

/// The bytes of line `k`: sixteen from offset `16 * k`, fewer at the end of `d`.
pub open spec fn chunk_s(d: Seq<u8>, k: nat) -> Seq<u8> {
    let start = (16 * k) as int;
    let end: int = if start + 16 <= d.len() { start + 16 } else { d.len() as int };
    d.subrange(start, end)
}

/// Line `k` of the dump: the offset as eight hexadecimal digits, two
/// spaces, the bytes in hexadecimal padded to sixteen columns, a space, the
/// bytes as text, and a newline.
pub open spec fn line_s(d: Seq<u8>, k: nat) -> Seq<char> {
    let c = chunk_s(d, k);
    zpad(hex(16 * k), 8) + seq![' ', ' '] + hex_bytes_s(c) + spaces((3 * (16 - c.len())) as nat) + seq![' ']
        + ascii_s(c) + seq!['\n']
}

/// The lines of the dump from line `k` on.
pub open spec fn lines_from(d: Seq<u8>, k: nat) -> Seq<char>
    decreases d.len() + 16 - 16 * k,
{
    if 16 * k >= d.len() {
        Seq::empty()
    } else {
        line_s(d, k) + lines_from(d, k + 1)
    }
}

/// The classic hex dump of `data`: one line per sixteen bytes.
pub open spec fn hex_dump_s(d: Seq<u8>) -> Seq<char> {
    lines_from(d, 0)
}

fn push_line(s: &mut String, data: &[u8], k: u64)
    requires
        16 * k < data@.len(),
    ensures
        final(s)@ == old(s)@ + line_s(data@, k as nat),
{
    let len = data.len();
    let start = (16 * k) as usize;
    let end = if len - start >= 16 { start + 16 } else { len };
    let ghost c = chunk_s(data@, k as nat);
    push_hex_padded(s, 16 * k, 8);
    push_str(s, "  ");
    let ghost s1 = s@;
    let mut i = start;
    while i < end
        invariant
            start <= i <= end <= len,
            len == data@.len(),
            c == data@.subrange(start as int, end as int),
            s@ == s1 + hex_bytes_s(c.subrange(0, i - start)),
        decreases end - i,
    {
        push_hex_padded(s, data[i] as u64, 2);
        push_char_pub(s, ' ');
        proof {
            let x = c.subrange(0, i + 1 - start);
            assert(x.drop_last() =~= c.subrange(0, i - start));
            assert(x.last() == data@[i as int]);
        }
        i = i + 1;
    }
    assert(c.subrange(0, (end - start) as int) =~= c);
    let ghost s2 = s@;
    let mut j = end - start;
    while j < 16
        invariant
            end - start <= j <= 16,
            s@ == s2 + spaces((3 * (j - (end - start))) as nat),
        decreases 16 - j,
    {
        proof { reveal_strlit("   "); }
        push_str(s, "   ");
        j = j + 1;
        assert(s@ =~= s2 + spaces((3 * (j - (end - start))) as nat));
    }
    push_char_pub(s, ' ');
    let ghost s3 = s@;
    let mut i = start;
    while i < end
        invariant
            start <= i <= end <= len,
            len == data@.len(),
            c == data@.subrange(start as int, end as int),
            s@ == s3 + ascii_s(c.subrange(0, i - start)),
        decreases end - i,
    {
        let b = data[i];
        let ch = if 0x20 <= b && b <= 0x7e { b as char } else { '.' };
        push_char_pub(s, ch);
        assert(ascii_s(c.subrange(0, i + 1 - start)) =~= ascii_s(c.subrange(0, i - start)).push(ch));
        i = i + 1;
    }
    push_char_pub(s, '\n');
    proof {
        reveal_strlit("  ");
        assert(c.subrange(0, (end - start) as int) =~= c);
    }
    assert(final(s)@ =~= old(s)@ + line_s(data@, k as nat));
}

/// The hex dump of `data`.
pub fn hex_dump(data: &[u8]) -> (r: String)
    ensures
        r@ == hex_dump_s(data@),
{
    let mut out = String::new();
    let len = data.len() as u64;
    let lines = len / 16 + if len % 16 > 0 { 1 } else { 0 };
    let mut k: u64 = 0;
    while k < lines
        invariant
            len == data@.len(),
            lines == len / 16 + if len % 16 > 0 { 1int } else { 0int },
            k <= lines,
            hex_dump_s(data@) == out@ + lines_from(data@, k as nat),
        decreases lines - k,
    {
        let ghost before = out@;
        push_line(&mut out, data, k);
        assert(before + lines_from(data@, k as nat) =~= out@ + lines_from(data@, k as nat + 1));
        k = k + 1;
    }
    assert(out@ + lines_from(data@, k as nat) =~= out@);
    out
}

/// Sixteen to the power `m`.
pub open spec fn pow16(m: nat) -> nat
    decreases m,
{
    if m == 0 {
        1
    } else {
        16 * pow16((m - 1) as nat)
    }
}

proof fn lemma_hex_len(n: nat, m: nat)
    requires
        m >= 1,
        n < pow16(m),
    ensures
        1 <= hex(n).len() <= m,
    decreases n,
{
    if n >= 16 {
        assert(pow16(m) == 16 * pow16((m - 1) as nat));
        if m == 1 {
            assert(pow16(0) == 1);
        }
        lemma_hex_len(n / 16, (m - 1) as nat);
    }
}

proof fn lemma_hex_bytes_len(c: Seq<u8>)
    ensures
        hex_bytes_s(c).len() == 3 * c.len(),
    decreases c.len(),
{
    if c.len() > 0 {
        lemma_hex_bytes_len(c.drop_last());
        assert(pow16(2) == 256) by {
            reveal_with_fuel(pow16, 3);
        }
        lemma_hex_len(c.last() as nat, 2);
    }
}

/// The length of the dump from line `k` on, for the `r` bytes that remain.
pub open spec fn dump_len(r: int) -> int {
    if r <= 0 {
        0
    } else {
        76 * (r / 16) + if r % 16 > 0 { 60 + r % 16 } else { 0 }
    }
}

proof fn lemma_line_len(d: Seq<u8>, k: nat)
    requires
        16 * k < d.len() <= 0x1_0000_0000,
    ensures
        line_s(d, k).len() == 60 + chunk_s(d, k).len(),
        chunk_s(d, k).len() == if d.len() - 16 * k >= 16 { 16 } else { d.len() - 16 * k },
{
    let c = chunk_s(d, k);
    lemma_hex_bytes_len(c);
    assert(pow16(8) == 0x1_0000_0000) by {
        reveal_with_fuel(pow16, 9);
    }
    lemma_hex_len(16 * k, 8);
}

proof fn lemma_dump_len_step(r: int)
    requires
        r > 0,
    ensures
        dump_len(r) == (if r >= 16 { 76 } else { 60 + r }) + dump_len(r - 16),
{
}

proof fn lemma_lines_len(d: Seq<u8>, k: nat)
    requires
        d.len() <= 0x1_0000_0000,
    ensures
        lines_from(d, k).len() == dump_len(d.len() - 16 * k),
    decreases d.len() + 16 - 16 * k,
{
    if 16 * k < d.len() {
        lemma_lines_len(d, k + 1);
        lemma_line_len(d, k);
        lemma_dump_len_step(d.len() - 16 * k);
    }
}

/// A dump has one 76-character line per sixteen bytes, and a last line of
/// 60 characters plus one per remaining byte, as long as every offset fits
/// in the eight hexadecimal digits shown (inputs up to 4 GiB).
pub proof fn lemma_hex_dump_len(d: Seq<u8>)
    requires
        d.len() <= 0x1_0000_0000,
    ensures
        hex_dump_s(d).len() == 76 * (d.len() / 16) + if d.len() % 16 > 0 { 60 + d.len() % 16 } else { 0 },
{
    lemma_lines_len(d, 0);
}

} // verus!
