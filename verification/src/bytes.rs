//! Bounds-checked reading of little- and big-endian integers from byte slices.

use vstd::prelude::*;

verus! {

/// The smaller of two integers.
pub open spec fn imin(a: int, b: int) -> int {
    if a <= b { a } else { b }
}

/// The larger of two integers.
pub open spec fn imax(a: int, b: int) -> int {
    if a >= b { a } else { b }
}

/// A 32-bit pattern read as a two's-complement signed value.
pub open spec fn as_i32(x: u32) -> int {
    if x < 0x8000_0000 { x as int } else { x - 0x1_0000_0000 }
}

/// A 16-bit pattern read as a two's-complement signed value.
pub open spec fn as_i16(x: u16) -> int {
    if x < 0x8000 { x as int } else { x - 0x1_0000 }
}

/// A 64-bit pattern read as a two's-complement signed value.
pub open spec fn as_i64(x: u64) -> int {
    if x < 0x8000_0000_0000_0000 { x as int } else { x - 0x1_0000_0000_0000_0000 }
}

pub fn min_u64(a: u64, b: u64) -> (r: u64)
    ensures
        r == imin(a as int, b as int),
{
    if a <= b { a } else { b }
}

pub fn max_u64(a: u64, b: u64) -> (r: u64)
    ensures
        r == imax(a as int, b as int),
{
    if a >= b { a } else { b }
}

/// The signed value of a 32-bit pattern.
pub fn signed32(x: u32) -> (r: i64)
    ensures
        r as int == as_i32(x),
{
    if x < 0x8000_0000 { x as i64 } else { x as i64 - 0x1_0000_0000 }
}

/// The signed value of a 16-bit pattern.
pub fn signed16(x: u16) -> (r: i64)
    ensures
        r as int == as_i16(x),
{
    if x < 0x8000 { x as i64 } else { x as i64 - 0x1_0000 }
}

/// The signed value of a 64-bit pattern.
pub fn signed64(x: u64) -> (r: i64)
    ensures
        r as int == as_i64(x),
{
    if x < 0x8000_0000_0000_0000 {
        x as i64
    } else {
        let y: u64 = x - 0x8000_0000_0000_0000;
        (y as i64) - 0x7fff_ffff_ffff_ffff - 1
    }
}

pub open spec fn or0_u32(o: Option<u32>) -> u32 {
    match o { Some(v) => v, None => 0 }
}

/// Whether `n` bytes starting at `i` lie within `s`.
pub open spec fn fits(s: Seq<u8>, i: int, n: int) -> bool {
    0 <= i && i + n <= s.len()
}

pub open spec fn le16(s: Seq<u8>, i: int) -> int {
    s[i] + s[i + 1] * 0x100
}

pub open spec fn be16(s: Seq<u8>, i: int) -> int {
    s[i] * 0x100 + s[i + 1]
}

pub open spec fn le24(s: Seq<u8>, i: int) -> int {
    s[i] + s[i + 1] * 0x100 + s[i + 2] * 0x10000
}

pub open spec fn be24(s: Seq<u8>, i: int) -> int {
    s[i] * 0x10000 + s[i + 1] * 0x100 + s[i + 2]
}

pub open spec fn le32(s: Seq<u8>, i: int) -> int {
    le16(s, i) + le16(s, i + 2) * 0x10000
}

pub open spec fn be32(s: Seq<u8>, i: int) -> int {
    be16(s, i) * 0x10000 + be16(s, i + 2)
}

pub open spec fn le64(s: Seq<u8>, i: int) -> int {
    le32(s, i) + le32(s, i + 4) * 0x100000000
}

pub open spec fn be64(s: Seq<u8>, i: int) -> int {
    be32(s, i) * 0x100000000 + be32(s, i + 4)
}

/// The 16-bit integer at `i` in the given byte order.
pub open spec fn u16at(s: Seq<u8>, i: int, little: bool) -> u16 {
    (if little { le16(s, i) } else { be16(s, i) }) as u16
}

/// The 24-bit integer at `i` in the given byte order.
pub open spec fn u24at(s: Seq<u8>, i: int, little: bool) -> u32 {
    (if little { le24(s, i) } else { be24(s, i) }) as u32
}

/// The 32-bit integer at `i` in the given byte order.
pub open spec fn u32at(s: Seq<u8>, i: int, little: bool) -> u32 {
    (if little { le32(s, i) } else { be32(s, i) }) as u32
}

/// The 64-bit integer at `i` in the given byte order.
pub open spec fn u64at(s: Seq<u8>, i: int, little: bool) -> u64 {
    (if little { le64(s, i) } else { be64(s, i) }) as u64
}

/// The byte at `i`, if there is one.
pub open spec fn opt_u8(s: Seq<u8>, i: int) -> Option<u8> {
    if fits(s, i, 1) { Some(s[i]) } else { None }
}

/// The 16-bit integer at `i`, if it lies within `s`.
pub open spec fn opt_u16(s: Seq<u8>, i: int, little: bool) -> Option<u16> {
    if fits(s, i, 2) { Some(u16at(s, i, little)) } else { None }
}

/// The 24-bit integer at `i`, if it lies within `s`.
pub open spec fn opt_u24(s: Seq<u8>, i: int, little: bool) -> Option<u32> {
    if fits(s, i, 3) { Some(u24at(s, i, little)) } else { None }
}

/// The 32-bit integer at `i`, if it lies within `s`.
pub open spec fn opt_u32(s: Seq<u8>, i: int, little: bool) -> Option<u32> {
    if fits(s, i, 4) { Some(u32at(s, i, little)) } else { None }
}

/// The 64-bit integer at `i`, if it lies within `s`.
pub open spec fn opt_u64(s: Seq<u8>, i: int, little: bool) -> Option<u64> {
    if fits(s, i, 8) { Some(u64at(s, i, little)) } else { None }
}

/// Whether `n` bytes at `off` lie within `data`, computed without overflow.
pub fn avail(data: &[u8], off: u64, n: u64) -> (r: bool)
    ensures
        r == fits(data@, off as int, n as int),
        data@.len() <= usize::MAX,
{
    let len = data.len() as u64;
    off <= len && len - off >= n
}

/// An in-bounds offset as an index.
pub fn idx(data: &[u8], off: u64) -> (r: usize)
    requires
        off <= data@.len(),
    ensures
        r as int == off as int,
{
    let n = data.len();
    assert(off <= n);
    off as usize
}

pub fn read_u8(data: &[u8], off: u64) -> (r: Option<u8>)
    ensures
        r == opt_u8(data@, off as int),
{
    if avail(data, off, 1) {
        Some(data[off as usize])
    } else {
        None
    }
}

pub fn read_u16(data: &[u8], off: u64, little: bool) -> (r: Option<u16>)
    ensures
        r == opt_u16(data@, off as int, little),
{
    if avail(data, off, 2) {
        let i = off as usize;
        let a = data[i] as u16;
        let b = data[i + 1] as u16;
        Some(if little { a + b * 0x100 } else { a * 0x100 + b })
    } else {
        None
    }
}

pub fn read_u24(data: &[u8], off: u64, little: bool) -> (r: Option<u32>)
    ensures
        r == opt_u24(data@, off as int, little),
{
    if avail(data, off, 3) {
        let i = off as usize;
        let a = data[i] as u32;
        let b = data[i + 1] as u32;
        let c = data[i + 2] as u32;
        Some(if little { a + b * 0x100 + c * 0x10000 } else { a * 0x10000 + b * 0x100 + c })
    } else {
        None
    }
}

pub fn read_u32(data: &[u8], off: u64, little: bool) -> (r: Option<u32>)
    ensures
        r == opt_u32(data@, off as int, little),
{
    if avail(data, off, 4) {
        let lo = read_u16(data, off, little).unwrap() as u32;
        let hi = read_u16(data, off + 2, little).unwrap() as u32;
        Some(if little { lo + hi * 0x10000 } else { lo * 0x10000 + hi })
    } else {
        None
    }
}

pub fn read_u64(data: &[u8], off: u64, little: bool) -> (r: Option<u64>)
    ensures
        r == opt_u64(data@, off as int, little),
{
    if avail(data, off, 8) {
        let lo = read_u32(data, off, little).unwrap() as u64;
        let hi = read_u32(data, off + 4, little).unwrap() as u64;
        Some(if little { lo + hi * 0x100000000 } else { lo * 0x100000000 + hi })
    } else {
        None
    }
}

/// The number of bytes before the first zero byte of `s` (all of `s` if it has none).
pub open spec fn nul_pos(s: Seq<u8>) -> int
    decreases s.len(),
{
    if s.len() == 0 || s[0] == 0 {
        0
    } else {
        1 + nul_pos(s.drop_first())
    }
}

/// The bytes of `s` before its first zero byte.
pub open spec fn until_nul(s: Seq<u8>) -> Seq<u8> {
    s.subrange(0, nul_pos(s))
}

pub proof fn lemma_nul_pos_bounds(s: Seq<u8>)
    ensures
        0 <= nul_pos(s) <= s.len(),
        nul_pos(s) < s.len() ==> s[nul_pos(s)] == 0,
        forall|j: int| 0 <= j < nul_pos(s) ==> s[j] != 0,
    decreases s.len(),
{
    if s.len() > 0 && s[0] != 0 {
        lemma_nul_pos_bounds(s.drop_first());
        assert forall|j: int| 0 <= j < nul_pos(s) implies s[j] != 0 by {
            if j > 0 {
                assert(s[j] == s.drop_first()[j - 1]);
            }
        }
    }
}

/// The position of the first zero byte in `data[start..end]`, relative to `start`
/// (`end - start` if there is none).
pub fn find_nul(data: &[u8], start: usize, end: usize) -> (r: usize)
    requires
        start <= end <= data@.len(),
    ensures
        r == nul_pos(data@.subrange(start as int, end as int)),
        r <= end - start,
{
    let ghost s = data@.subrange(start as int, end as int);
    let mut i: usize = 0;
    assert(s.subrange(0, s.len() as int) =~= s);
    while start + i < end && data[start + i] != 0
        invariant
            start + i <= end <= data@.len(),
            s == data@.subrange(start as int, end as int),
            nul_pos(s) == i + nul_pos(s.subrange(i as int, s.len() as int)),
        decreases end - start - i,
    {
        assert(s.subrange(i as int, s.len() as int).drop_first() =~= s.subrange(i + 1, s.len() as int));
        i = i + 1;
    }
    i
}

/// Bytes read as Latin-1 characters (each byte is the code point of one character).
pub open spec fn latin1(s: Seq<u8>) -> Seq<char> {
    s.map_values(|b: u8| b as char)
}

pub fn latin1_chars(bytes: &[u8]) -> (r: Vec<char>)
    ensures
        r@ == latin1(bytes@),
{
    let mut v: Vec<char> = Vec::new();
    let mut i: usize = 0;
    while i < bytes.len()
        invariant
            i <= bytes@.len(),
            v@ == latin1(bytes@.subrange(0, i as int)),
        decreases bytes.len() - i,
    {
        v.push(bytes[i] as char);
        i = i + 1;
        assert(v@ =~= latin1(bytes@.subrange(0, i as int)));
    }
    assert(bytes@.subrange(0, bytes@.len() as int) =~= bytes@);
    v
}

/// Whether `s` holds the bytes `m` at position `i`.
pub open spec fn has_at(s: Seq<u8>, i: int, m: Seq<u8>) -> bool {
    fits(s, i, m.len() as int) && s.subrange(i, i + m.len()) == m
}

/// Whether `data` holds the bytes `m` at `off`.
pub fn bytes_at(data: &[u8], off: u64, m: &[u8]) -> (r: bool)
    ensures
        r == has_at(data@, off as int, m@),
{
    if !avail(data, off, m.len() as u64) {
        return false;
    }
    let base = off as usize;
    let mut i: usize = 0;
    while i < m.len()
        invariant
            fits(data@, off as int, m@.len() as int),
            data@.len() <= usize::MAX,
            base as int == off as int,
            i <= m@.len(),
            forall|j: int| 0 <= j < i ==> data@[base + j] == m@[j],
        decreases m.len() - i,
    {
        if data[base + i] != m[i] {
            assert(data@.subrange(off as int, off + m@.len())[i as int] != m@[i as int]);
            return false;
        }
        i = i + 1;
    }
    assert(data@.subrange(off as int, off + m@.len()) =~= m@);
    true
}

} // verus!
