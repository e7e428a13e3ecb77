//! TAR archives: 512-byte headers, file data and the end-of-archive marker.

use vstd::prelude::*;
use super::{
    Block, BlockModel, ByteRange, Dissector, all_nest, input_ok, leaf_m, models, nests, no_blocks, node_m,
    push_block, rng, within,
};
use crate::bytes::{
    avail, bytes_at, find_nul, fits, has_at, idx, imax, imin, latin1, latin1_chars,
    lemma_nul_pos_bounds, max_u64, min_u64, until_nul,
};
use crate::text::{
    dec, label_str, label_u64, lit, lossy_chars, push_char_pub, push_str, trim_bounds, trim_s,
    trim_string, utf8_lossy,
};

verus! {

pub struct TarDissector;

pub const BLOCK_SIZE: u64 = 512;
pub const MAX_ENTRIES: u64 = 100_000;

/// The text field of `len` bytes at `off`: the bytes before the first NUL,
/// decoded as UTF-8 with replacement, without surrounding white space;
/// empty when the field runs past the end of `d`.
pub open spec fn ascii_field_s(d: Seq<u8>, off: int, len: int) -> Seq<char> {
    if fits(d, off, len) {
        trim_s(utf8_lossy(until_nul(d.subrange(off, off + len))))
    } else {
        Seq::empty()
    }
}

pub fn ascii_field(data: &[u8], off: u64, len: u64) -> (r: String)
    ensures
        r@ == ascii_field_s(data@, off as int, len as int),
{
    if !avail(data, off, len) {
        return String::new();
    }
    let start = off as usize;
    let end = (off + len) as usize;
    let n = find_nul(data, start, end);
    let bytes = vstd::slice::slice_subrange(data, start, start + n);
    assert(bytes@ =~= until_nul(data@.subrange(start as int, end as int)));
    let cs = lossy_chars(bytes);
    trim_string(cs.as_slice())
}

/// An octal digit character.
pub open spec fn is_oct(c: char) -> bool {
    48 <= (c as u32) <= 55
}

/// The value of a string of octal digits.
pub open spec fn oct_val(t: Seq<char>) -> nat
    decreases t.len(),
{
    if t.len() == 0 {
        0
    } else {
        oct_val(t.drop_last()) * 8 + ((t.last() as u32) - 48) as nat
    }
}

pub open spec fn all_oct(t: Seq<char>) -> bool {
    forall|i: int| 0 <= i < t.len() ==> is_oct(#[trigger] t[i])
}

/// std's `u64::from_str_radix(src, 8)`: an optional `+`, then at least one
/// octal digit, with a value that fits in 64 bits.
pub open spec fn radix8_s(src: Seq<char>) -> Option<u64> {
    let digits = if src.len() > 0 && src[0] == '+' { src.drop_first() } else { src };
    if digits.len() == 0 {
        None
    } else if all_oct(digits) && oct_val(digits) <= u64::MAX {
        Some(oct_val(digits) as u64)
    } else {
        None
    }
}

fn radix8(cs: &[char], b: usize, e: usize) -> (r: Option<u64>)
    requires
        b <= e <= cs@.len(),
    ensures
        r == radix8_s(cs@.subrange(b as int, e as int)),
{
    let ghost src = cs@.subrange(b as int, e as int);
    let mut i = b;
    if b < e && cs[b] == '+' {
        i = b + 1;
    }
    let start = i;
    let ghost digits = cs@.subrange(start as int, e as int);
    assert(digits =~= if src.len() > 0 && src[0] == '+' { src.drop_first() } else { src });
    if start == e {
        return None;
    }
    let mut v: u64 = 0;
    let mut overflowed = false;
    let mut bad = false;
    while i < e
        invariant
            start <= i <= e <= cs@.len(),
            digits == cs@.subrange(start as int, e as int),
            !bad ==> all_oct(cs@.subrange(start as int, i as int)),
            bad ==> !all_oct(digits),
            !bad && !overflowed ==> v as nat == oct_val(cs@.subrange(start as int, i as int)),
            !bad && overflowed ==> oct_val(cs@.subrange(start as int, i as int)) > u64::MAX,
        decreases e - i,
    {
        let c = cs[i];
        let ghost pre = cs@.subrange(start as int, i as int);
        let ghost next = cs@.subrange(start as int, i + 1);
        assert(next.drop_last() =~= pre);
        assert(next.last() == c);
        if !bad {
            if (c as u32) < 48 || (c as u32) > 55 {
                bad = true;
                assert(digits[i - start] == c);
            } else {
                let dgt = (c as u32 - 48) as u64;
                assert(all_oct(next)) by {
                    assert forall|j: int| 0 <= j < next.len() implies is_oct(#[trigger] next[j]) by {
                        if j < pre.len() {
                            assert(next[j] == pre[j]);
                        }
                    }
                }
                if overflowed || v > (u64::MAX - dgt) / 8 {
                    overflowed = true;
                } else {
                    v = v * 8 + dgt;
                }
            }
        }
        i = i + 1;
    }
    assert(cs@.subrange(start as int, i as int) =~= digits);
    if bad || overflowed {
        None
    } else {
        Some(v)
    }
}

pub open spec fn pow8(n: nat) -> nat
    decreases n,
{
    if n == 0 { 1 } else { pow8((n - 1) as nat) * 8 }
}

proof fn lemma_oct_val_bound(t: Seq<char>)
    requires
        all_oct(t),
    ensures
        oct_val(t) < pow8(t.len()),
    decreases t.len(),
{
    if t.len() > 0 {
        let p = t.drop_last();
        assert(all_oct(p)) by {
            assert forall|i: int| 0 <= i < p.len() implies is_oct(#[trigger] p[i]) by {
                assert(p[i] == t[i]);
            }
        }
        lemma_oct_val_bound(p);
        assert(is_oct(t[t.len() - 1]));
    }
}

proof fn lemma_pow8_mono(n: nat, m: nat)
    requires
        n <= m,
    ensures
        pow8(n) <= pow8(m),
    decreases m - n,
{
    if n < m {
        lemma_pow8_mono(n, (m - 1) as nat);
    }
}

/// The numeric field of `len` bytes at `off`: the bytes before the first NUL
/// read as Latin-1 text, trimmed, parsed as octal; zero when the field runs
/// past the end, is blank, or does not parse.
pub open spec fn octal_field_s(d: Seq<u8>, off: int, len: int) -> u64 {
    if !fits(d, off, len) {
        0
    } else {
        let t = trim_s(latin1(until_nul(d.subrange(off, off + len))));
        if t.len() == 0 {
            0
        } else {
            match radix8_s(t) {
                Some(v) => v,
                None => 0,
            }
        }
    }
}

pub fn octal_field(data: &[u8], off: u64, len: u64) -> (r: u64)
    ensures
        r == octal_field_s(data@, off as int, len as int),
        len <= 12 ==> r < 0x10_0000_0000,
{
    if !avail(data, off, len) {
        return 0;
    }
    let start = off as usize;
    let end = (off + len) as usize;
    let n = find_nul(data, start, end);
    let bytes = vstd::slice::slice_subrange(data, start, start + n);
    assert(bytes@ =~= until_nul(data@.subrange(start as int, end as int)));
    let cs = latin1_chars(bytes);
    let (b, e) = trim_bounds(cs.as_slice());
    if b == e {
        return 0;
    }
    let r = match radix8(cs.as_slice(), b, e) {
        Some(v) => v,
        None => 0,
    };
    proof {
        let t = cs@.subrange(b as int, e as int);
        if len <= 12 && r != 0 {
            let digits = if t.len() > 0 && t[0] == '+' { t.drop_first() } else { t };
            lemma_oct_val_bound(digits);
            lemma_pow8_mono(digits.len(), 12);
            reveal_with_fuel(pow8, 13);
            lemma_nul_pos_bounds(data@.subrange(start as int, end as int));
        }
    }
    r
}

/// The entry type's name.
pub open spec fn typeflag_name_s(flag: u8) -> Seq<char> {
    if flag == 48 || flag == 0 {
        "Regular file"@
    } else if flag == 49 {
        "Hard link"@
    } else if flag == 50 {
        "Symbolic link"@
    } else if flag == 51 {
        "Character device"@
    } else if flag == 52 {
        "Block device"@
    } else if flag == 53 {
        "Directory"@
    } else if flag == 54 {
        "FIFO"@
    } else if flag == 103 {
        "PAX global extended header"@
    } else if flag == 120 {
        "PAX extended header"@
    } else {
        "unknown ('"@ + seq![flag as char] + "')"@
    }
}

pub fn typeflag_name(flag: u8) -> (r: String)
    ensures
        r@ == typeflag_name_s(flag),
{
    if flag == 48 || flag == 0 {
        lit("Regular file")
    } else if flag == 49 {
        lit("Hard link")
    } else if flag == 50 {
        lit("Symbolic link")
    } else if flag == 51 {
        lit("Character device")
    } else if flag == 52 {
        lit("Block device")
    } else if flag == 53 {
        lit("Directory")
    } else if flag == 54 {
        lit("FIFO")
    } else if flag == 103 {
        lit("PAX global extended header")
    } else if flag == 120 {
        lit("PAX extended header")
    } else {
        let mut s = lit("unknown ('");
        push_char_pub(&mut s, flag as char);
        push_str(&mut s, "')");
        assert(s@ =~= "unknown ('"@ + seq![flag as char] + "')"@);
        s
    }
}

/// A file entry whose 512-byte header starts at `o`, covering the header,
/// the declared data (clamped to `d`) and its padding to a whole block.
#[verifier::opaque]
pub open spec fn file_entry_s(d: Seq<u8>, o: int) -> Option<BlockModel> {
    if !fits(d, o, 512) {
        None
    } else {
        let name = ascii_field_s(d, o, 100);
        let mode = ascii_field_s(d, o + 100, 8);
        let size = octal_field_s(d, o + 124, 12) as int;
        let linkname = ascii_field_s(d, o + 157, 100);
        let uname = ascii_field_s(d, o + 265, 32);
        let gname = ascii_field_s(d, o + 297, 32);
        let prefix = ascii_field_s(d, o + 345, 155);
        let header_end = o + 512;
        let data_start = header_end;
        let data_end = imin(data_start + size, d.len() as int);
        let padded = ((size + 511) / 512) * 512;
        let entry_end = imax(imin(header_end + padded, d.len() as int), header_end);
        let display_name = if prefix.len() == 0 { name } else { prefix + seq!['/'] + name };
        let c0 = Seq::empty()
            .push(leaf_m("Name: "@ + name, rng(o, o + 100)))
            .push(leaf_m("Mode: "@ + mode, rng(o + 100, o + 108)))
            .push(leaf_m("UID: "@ + dec(octal_field_s(d, o + 108, 8) as nat), rng(o + 108, o + 116)))
            .push(leaf_m("GID: "@ + dec(octal_field_s(d, o + 116, 8) as nat), rng(o + 116, o + 124)))
            .push(leaf_m("Size: "@ + dec(size as nat), rng(o + 124, o + 136)))
            .push(leaf_m("Mtime: "@ + dec(octal_field_s(d, o + 136, 12) as nat), rng(o + 136, o + 148)))
            .push(leaf_m("Type: "@ + typeflag_name_s(d[o + 156]), rng(o + 156, o + 157)))
            .push(leaf_m("Link name: "@ + linkname, rng(o + 157, o + 257)))
            .push(leaf_m("Owner user name: "@ + uname, rng(o + 265, o + 297)))
            .push(leaf_m("Owner group name: "@ + gname, rng(o + 297, o + 329)));
        let c1 = if prefix.len() != 0 { c0.push(leaf_m("Prefix: "@ + prefix, rng(o + 345, o + 500))) } else { c0 };
        let c2 = if data_end > data_start { c1.push(leaf_m("File data"@, rng(data_start, data_end))) } else { c1 };
        Some(node_m("File: "@ + display_name, rng(o, entry_end), c2))
    }
}

fn file_entry_block(data: &[u8], offset: u64) -> (r: Option<Block>)
    requires
        input_ok(data@),
    ensures
        r matches Some(b) ==> file_entry_s(data@, offset as int) == Some(b@) && offset < b@.range.end
            <= data@.len(),
        r is None ==> file_entry_s(data@, offset as int) is None,
{
    reveal(file_entry_s);
    if !avail(data, offset, 512) {
        return None;
    }
    let o = offset;
    let name = ascii_field(data, o, 100);
    let mode = ascii_field(data, o + 100, 8);
    let uid = octal_field(data, o + 108, 8);
    let gid = octal_field(data, o + 116, 8);
    let size = octal_field(data, o + 124, 12);
    let mtime = octal_field(data, o + 136, 12);
    let typeflag = data[(o + 156) as usize];
    let linkname = ascii_field(data, o + 157, 100);
    let uname = ascii_field(data, o + 265, 32);
    let gname = ascii_field(data, o + 297, 32);
    let prefix = ascii_field(data, o + 345, 155);

    let data_len = data.len() as u64;
    let header_end = o + 512;
    let data_start = header_end;
    let data_end = min_u64(data_start + size, data_len);
    let padded_size = (size + 511) / 512 * 512;
    let entry_end = max_u64(min_u64(header_end + padded_size, data_len), header_end);

    let prefix_empty = prefix.unicode_len() == 0;
    let display_name = if prefix_empty {
        let mut s = String::new();
        push_str(&mut s, name.as_str());
        s
    } else {
        let mut s = String::new();
        push_str(&mut s, prefix.as_str());
        push_str(&mut s, "/");
        push_str(&mut s, name.as_str());
        s
    };

    let mut ch = no_blocks();
    push_block(&mut ch, Block::leaf(label_str("Name: ", name.as_str()), ByteRange::new(o, o + 100)));
    push_block(&mut ch, Block::leaf(label_str("Mode: ", mode.as_str()), ByteRange::new(o + 100, o + 108)));
    push_block(&mut ch, Block::leaf(label_u64("UID: ", uid), ByteRange::new(o + 108, o + 116)));
    push_block(&mut ch, Block::leaf(label_u64("GID: ", gid), ByteRange::new(o + 116, o + 124)));
    push_block(&mut ch, Block::leaf(label_u64("Size: ", size), ByteRange::new(o + 124, o + 136)));
    push_block(&mut ch, Block::leaf(label_u64("Mtime: ", mtime), ByteRange::new(o + 136, o + 148)));
    let tn = typeflag_name(typeflag);
    push_block(&mut ch, Block::leaf(label_str("Type: ", tn.as_str()), ByteRange::new(o + 156, o + 157)));
    push_block(&mut ch, Block::leaf(label_str("Link name: ", linkname.as_str()), ByteRange::new(o + 157, o + 257)));
    push_block(&mut ch, Block::leaf(label_str("Owner user name: ", uname.as_str()), ByteRange::new(o + 265, o + 297)));
    push_block(&mut ch, Block::leaf(label_str("Owner group name: ", gname.as_str()), ByteRange::new(o + 297, o + 329)));
    if !prefix_empty {
        push_block(&mut ch, Block::leaf(label_str("Prefix: ", prefix.as_str()), ByteRange::new(o + 345, o + 500)));
    }
    if data_end > data_start {
        push_block(&mut ch, Block::leaf(lit("File data"), ByteRange::new(data_start, data_end)));
    }
    assert(display_name@ == (if prefix@.len() == 0 { name@ } else { prefix@ + seq!['/'] + name@ })) by {
        reveal_strlit("/");
    }
    Some(Block::node(label_str("File: ", display_name.as_str()), ByteRange::new(offset, entry_end), ch))
}

/// Whether the 512 bytes at `o` are all zero.
pub open spec fn zero_block(d: Seq<u8>, o: int) -> bool {
    forall|i: int| o <= i < o + 512 ==> d[i] == 0
}

fn is_zero_block(data: &[u8], o: usize) -> (r: bool)
    requires
        o + 512 <= data@.len(),
    ensures
        r == zero_block(data@, o as int),
{
    let n = data.len();
    let mut i: usize = 0;
    while i < 512
        invariant
            n == data@.len(),
            o + 512 <= data@.len(),
            i <= 512,
            forall|j: int| o <= j < o + i ==> data@[j] == 0,
        decreases 512 - i,
    {
        if data[o + i] != 0 {
            return false;
        }
        i = i + 1;
    }
    true
}

/// The archive walk from `o`, having seen `entries` headers so far: stops
/// when a whole header no longer fits, after 100000 headers, or at an
/// all-zero end-of-archive block; otherwise takes one file entry.
pub open spec fn tar_walk(d: Seq<u8>, o: int, entries: int, acc: Seq<BlockModel>) -> Seq<BlockModel>
    decreases d.len() - o,
{
    if o + 512 > d.len() || entries + 1 > MAX_ENTRIES {
        acc
    } else if zero_block(d, o) {
        acc.push(leaf_m("End of archive"@, rng(o, o + 512)))
    } else {
        match file_entry_s(d, o) {
            Some(b) => if o < b.range.end <= d.len() {
                tar_walk(d, b.range.end as int, entries + 1, acc.push(b))
            } else {
                acc
            },
            None => acc,
        }
    }
}

proof fn lemma_walk_nests(d: Seq<u8>, o: int, entries: int, acc: Seq<BlockModel>)
    requires
        input_ok(d),
        0 <= o,
        all_nest(d, acc),
    ensures
        all_nest(d, tar_walk(d, o, entries, acc)),
    decreases d.len() - o,
{
    if o + 512 <= d.len() && entries + 1 <= MAX_ENTRIES {
        if zero_block(d, o) {
            let next = acc.push(leaf_m("End of archive"@, rng(o, o + 512)));
            assert forall|i: int| 0 <= i < next.len() implies (#[trigger] next[i]).range.start
                <= next[i].range.end <= d.len() && nests(next[i]) by {
                if i < acc.len() {
                    assert(next[i] == acc[i]);
                }
            }
        } else if let Some(b) = file_entry_s(d, o) {
            reveal(file_entry_s);
            let size = octal_field_s(d, o + 124, 12) as int;
            let padded = ((size + 511) / 512) * 512;
            assert(padded >= size) by (nonlinear_arith)
                requires
                    size >= 0,
                    padded == ((size + 511) / 512) * 512,
            ;
            assert forall|i: int| 0 <= i < b.children.len() implies within(#[trigger] b.children[i], b)
                && nests(b.children[i]) by {
                assert(b.children[i].children.len() == 0);
            }
            let next = acc.push(b);
            assert forall|i: int| 0 <= i < next.len() implies (#[trigger] next[i]).range.start
                <= next[i].range.end <= d.len() && nests(next[i]) by {
                if i < acc.len() {
                    assert(next[i] == acc[i]);
                }
            }
            if o < b.range.end <= d.len() {
                lemma_walk_nests(d, b.range.end as int, entries + 1, next);
            }
        }
    }
}

/// Each block of a tar archive lies within the data, and the fields and
/// data of each entry cover sub-ranges of the entry.
pub proof fn lemma_tar_blocks_nest(d: Seq<u8>)
    requires
        input_ok(d),
    ensures
        all_nest(d, TarDissector.spec_dissect(d)),
{
    lemma_walk_nests(d, 0, 0, Seq::empty());
}

/// A file entry at `o` spans its 512-byte header and its data rounded up to
/// whole 512-byte blocks, cut at the end of the data (but never shorter
/// than its header): its end is a whole number of blocks past `o` unless it
/// is the end of the data, and the blocks hold all of the data.
pub proof fn lemma_file_entry_span(d: Seq<u8>, o: int)
    requires
        input_ok(d),
        0 <= o,
    ensures
        file_entry_s(d, o) matches Some(b) ==> {
            let size = octal_field_s(d, o + 124, 12) as int;
            &&& b.range.start == o
            &&& o + 512 <= b.range.end <= d.len()
            &&& b.range.end == d.len() || (b.range.end - o) % 512 == 0
            &&& b.range.end < d.len() ==> o + 512 + size <= b.range.end < o + 512 + size + 512
        },
{
    reveal(file_entry_s);
    if file_entry_s(d, o) is Some {
        let size = octal_field_s(d, o + 124, 12) as int;
        let padded = ((size + 511) / 512) * 512;
        assert(size <= padded < size + 512 && padded % 512 == 0) by (nonlinear_arith)
            requires
                size >= 0,
                padded == ((size + 511) / 512) * 512,
        ;
        assert((512 + padded) % 512 == 0) by (nonlinear_arith)
            requires
                padded % 512 == 0,
        ;
    }
}

proof fn lemma_walk_boundaries(d: Seq<u8>, o: int, entries: int, acc: Seq<BlockModel>)
    requires
        input_ok(d),
        0 <= o,
        o % 512 == 0,
        acc.len() > 0 ==> acc.last().range.end == o,
        acc.len() == 0 ==> o == 0,
        acc.len() > 0 ==> acc[0].range.start == 0,
        forall|k: int| 0 <= k < acc.len() ==> (#[trigger] acc[k]).range.start % 512 == 0,
        forall|k: int| 0 < k < acc.len() ==> #[trigger] acc[k].range.start == acc[k - 1].range.end,
    ensures
        forall|k: int| 0 <= k < tar_walk(d, o, entries, acc).len()
            ==> (#[trigger] tar_walk(d, o, entries, acc)[k]).range.start % 512 == 0,
        forall|k: int| 0 < k < tar_walk(d, o, entries, acc).len()
            ==> #[trigger] tar_walk(d, o, entries, acc)[k].range.start == tar_walk(d, o, entries, acc)[k - 1].range.end,
        tar_walk(d, o, entries, acc).len() > 0 ==> tar_walk(d, o, entries, acc)[0].range.start == 0,
    decreases d.len() - o,
{
    if o + 512 <= d.len() && entries + 1 <= MAX_ENTRIES {
        if zero_block(d, o) {
            let next = acc.push(leaf_m("End of archive"@, rng(o, o + 512)));
            assert forall|k: int| 0 <= k < next.len() implies (#[trigger] next[k]).range.start % 512 == 0 by {
                if k < acc.len() {
                    assert(next[k] == acc[k]);
                }
            }
            assert forall|k: int| 0 < k < next.len() implies #[trigger] next[k].range.start == next[k - 1].range.end by {
                if k < acc.len() {
                    assert(next[k] == acc[k] && next[k - 1] == acc[k - 1]);
                }
            }
        } else if let Some(b) = file_entry_s(d, o) {
            lemma_file_entry_span(d, o);
            let next = acc.push(b);
            assert forall|k: int| 0 <= k < next.len() implies (#[trigger] next[k]).range.start % 512 == 0 by {
                if k < acc.len() {
                    assert(next[k] == acc[k]);
                }
            }
            assert forall|k: int| 0 < k < next.len() implies #[trigger] next[k].range.start == next[k - 1].range.end by {
                if k < acc.len() {
                    assert(next[k] == acc[k] && next[k - 1] == acc[k - 1]);
                }
            }
            if o < b.range.end <= d.len() {
                let e = b.range.end as int;
                if e % 512 != 0 {
                    assert(e == d.len());
                    assert(tar_walk(d, e, entries + 1, next) == next);
                } else {
                    lemma_walk_boundaries(d, e, entries + 1, next);
                }
            }
        }
    }
}

/// Every header of an archive, and its end-of-archive block, is read at a
/// multiple of 512 bytes, the first at offset 0 and each next one right
/// where the previous entry ends.
pub proof fn lemma_tar_headers_on_block_boundaries(d: Seq<u8>)
    requires
        input_ok(d),
    ensures
        forall|k: int| 0 <= k < TarDissector.spec_dissect(d).len()
            ==> (#[trigger] TarDissector.spec_dissect(d)[k]).range.start % 512 == 0,
        forall|k: int| 0 < k < TarDissector.spec_dissect(d).len()
            ==> #[trigger] TarDissector.spec_dissect(d)[k].range.start == TarDissector.spec_dissect(d)[k - 1].range.end,
        TarDissector.spec_dissect(d).len() > 0 ==> TarDissector.spec_dissect(d)[0].range.start == 0,
{
    lemma_walk_boundaries(d, 0, 0, Seq::empty());
}

impl Dissector for TarDissector {
    open spec fn spec_name(&self) -> Seq<char> {
        "TAR"@
    }

    /// At least one block long, with `ustar` at offset 257.
    open spec fn spec_matches(&self, data: Seq<u8>) -> bool {
        data.len() >= 512 && has_at(data, 257, seq![0x75u8, 0x73u8, 0x74u8, 0x61u8, 0x72u8])
    }

    open spec fn spec_dissect(&self, data: Seq<u8>) -> Seq<BlockModel> {
        tar_walk(data, 0, 0, Seq::empty())
    }

    fn name(&self) -> (r: &'static str) {
        "TAR"
    }

    fn matches(&self, data: &[u8]) -> (r: bool) {
        if data.len() < 512 {
            return false;
        }
        let magic: [u8; 5] = [0x75, 0x73, 0x74, 0x61, 0x72];
        let r = bytes_at(data, 257, &magic);
        assert(magic@ =~= seq![0x75u8, 0x73u8, 0x74u8, 0x61u8, 0x72u8]);
        r
    }

    fn dissect(&self, data: &[u8]) -> (r: Vec<Block>) {
        let mut blocks = no_blocks();
        let mut offset: u64 = 0;
        let data_len = data.len() as u64;
        let mut entries: u64 = 0;
        let ghost d = data@;
        loop
            invariant_except_break
                entries <= MAX_ENTRIES,
                tar_walk(d, 0, 0, Seq::empty()) == tar_walk(d, offset as int, entries as int, models(blocks@)),
            invariant
                d == data@,
                input_ok(d),
                data_len == d.len(),
                offset <= d.len(),
            ensures
                tar_walk(d, 0, 0, Seq::empty()) == models(blocks@),
            decreases d.len() - offset,
        {
            if offset + BLOCK_SIZE > data_len {
                break;
            }
            let ghost seen = entries as int;
            let ghost acc = models(blocks@);
            entries = entries + 1;
            if entries > MAX_ENTRIES {
                break;
            }
            if is_zero_block(data, idx(data, offset)) {
                push_block(&mut blocks, Block::leaf(lit("End of archive"), ByteRange::new(offset, offset + BLOCK_SIZE)));
                break;
            }
            let r = file_entry_block(data, offset);
            assert(r is None ==> tar_walk(d, offset as int, seen, acc) == acc);
            match r {
                Some(b) => {
                    let next_offset = b.range.end;
                    if next_offset <= offset {
                        break;
                    }
                    offset = next_offset;
                    push_block(&mut blocks, b);
                },
                None => break,
            }
        }
        blocks
    }
}

} // verus!
