//! Gzip members: the header with its optional fields, the compressed data and the trailer.

use vstd::prelude::*;
use super::{
    Block, BlockModel, ByteRange, Dissector, all_nest, input_ok, leaves_in, lemma_push_leaf,
    lemma_push_record, leaf_m, models, no_blocks, node_m, push_block, push_if, rng, within,
};
use crate::bytes::{
    avail, bytes_at, find_nul, fits, has_at, idx, imin, lemma_nul_pos_bounds, min_u64, nul_pos,
    read_u16, read_u32, u16at, u32at,
};
use crate::text::{
    alt_hex, dec, label_hex16, label_hex32, label_hex8, label_str, label_u32, label_u64,
    label_u64_wrap, lit, lossy_string, utf8_lossy,
};
verus! {

pub struct GzipDissector;

pub const FHCRC: u8 = 0x02;
pub const FEXTRA: u8 = 0x04;
pub const FNAME: u8 = 0x08;
pub const FCOMMENT: u8 = 0x10;

pub open spec fn compression_method_name_s(v: u8) -> Seq<char> {
    if v == 8 {
        "Deflate"@
    } else {
        "unknown ("@ + dec(v as nat) + ")"@
    }
}

pub fn compression_method_name(value: u8) -> (r: String)
    ensures
        r@ == compression_method_name_s(value),
{
    if value == 8 {
        lit("Deflate")
    } else {
        label_u64_wrap("unknown (", value as u64, ")")
    }
}

/// The operating system named by the header's OS byte.
pub open spec fn os_name_s(v: u8) -> Seq<char> {
    if v == 0 {
        "FAT"@
    } else if v == 1 {
        "Amiga"@
    } else if v == 2 {
        "VMS"@
    } else if v == 3 {
        "Unix"@
    } else if v == 4 {
        "VM/CMS"@
    } else if v == 5 {
        "Atari TOS"@
    } else if v == 6 {
        "HPFS"@
    } else if v == 7 {
        "Macintosh"@
    } else if v == 8 {
        "Z-System"@
    } else if v == 9 {
        "CP/M"@
    } else if v == 10 {
        "TOPS-20"@
    } else if v == 11 {
        "NTFS"@
    } else if v == 12 {
        "QDOS"@
    } else if v == 13 {
        "Acorn RISCOS"@
    } else if v == 255 {
        "unknown"@
    } else {
        "unknown ("@ + dec(v as nat) + ")"@
    }
}

pub fn os_name(value: u8) -> (r: String)
    ensures
        r@ == os_name_s(value),
{
    if value == 0 {
        lit("FAT")
    } else if value == 1 {
        lit("Amiga")
    } else if value == 2 {
        lit("VMS")
    } else if value == 3 {
        lit("Unix")
    } else if value == 4 {
        lit("VM/CMS")
    } else if value == 5 {
        lit("Atari TOS")
    } else if value == 6 {
        lit("HPFS")
    } else if value == 7 {
        lit("Macintosh")
    } else if value == 8 {
        lit("Z-System")
    } else if value == 9 {
        lit("CP/M")
    } else if value == 10 {
        lit("TOPS-20")
    } else if value == 11 {
        lit("NTFS")
    } else if value == 12 {
        lit("QDOS")
    } else if value == 13 {
        lit("Acorn RISCOS")
    } else if value == 255 {
        lit("unknown")
    } else {
        label_u64_wrap("unknown (", value as u64, ")")
    }
}

/// The offset just past the first zero byte at or after `o`, if there is one.
pub open spec fn nul_end_s(d: Seq<u8>, o: int) -> Option<int> {
    if 0 <= o <= d.len() && o + nul_pos(d.subrange(o, d.len() as int)) < d.len() {
        Some(o + nul_pos(d.subrange(o, d.len() as int)) + 1)
    } else {
        None
    }
}

pub fn find_null_terminated_end(data: &[u8], offset: u64) -> (r: Option<u64>)
    ensures
        r matches Some(e) ==> nul_end_s(data@, offset as int) == Some(e as int) && offset < e <= data@.len(),
        r is None ==> nul_end_s(data@, offset as int) is None,
{
    let len = data.len();
    if offset > len as u64 {
        return None;
    }
    let start = offset as usize;
    let p = find_nul(data, start, len);
    proof { lemma_nul_pos_bounds(data@.subrange(start as int, len as int)); }
    if start + p < len {
        Some((start + p + 1) as u64)
    } else {
        None
    }
}

/// A NUL-terminated text field at `o`: its leaf and the offset after the terminator.
pub open spec fn text_field_s(d: Seq<u8>, o: int, prefix: Seq<char>) -> Option<(BlockModel, int)> {
    match nul_end_s(d, o) {
        Some(e) => Some((leaf_m(prefix + utf8_lossy(d.subrange(o, e - 1)), rng(o, e)), e)),
        None => None,
    }
}

fn text_field(data: &[u8], offset: u64, prefix: &str) -> (r: Option<(Block, u64)>)
    requires
        offset <= data@.len(),
    ensures
        r matches Some((b, e)) ==> text_field_s(data@, offset as int, prefix@) == Some((b@, e as int))
            && offset < e <= data@.len(),
        r is None ==> text_field_s(data@, offset as int, prefix@) is None,
{
    match find_null_terminated_end(data, offset) {
        Some(end) => {
            let bytes = vstd::slice::slice_subrange(data, idx(data, offset), idx(data, end - 1));
            let text = lossy_string(bytes);
            Some((Block::leaf(label_str(prefix, text.as_str()), ByteRange::new(offset, end)), end))
        },
        None => None,
    }
}

/// The optional text field selected by `present`, appended to `c`.
pub open spec fn opt_text_s(d: Seq<u8>, present: bool, o: int, c: Seq<BlockModel>, prefix: Seq<char>)
    -> Option<(Seq<BlockModel>, int)>
{
    if present {
        match text_field_s(d, o, prefix) {
            Some((b, e)) => Some((c.push(b), e)),
            None => None,
        }
    } else {
        Some((c, o))
    }
}

/// The header from the file name field on, given the fields before `o`.
pub open spec fn header_rest_s(d: Seq<u8>, flg: u8, o: int, c: Seq<BlockModel>) -> Option<BlockModel> {
    match opt_text_s(d, flg & FNAME != 0, o, c, "Original file name: "@) {
        None => None,
        Some((c1, o1)) => match opt_text_s(d, flg & FCOMMENT != 0, o1, c1, "Comment: "@) {
            None => None,
            Some((c2, o2)) => if flg & FHCRC != 0 {
                if o2 + 2 > d.len() {
                    Some(node_m("Gzip header"@, rng(0, o2), c2))
                } else {
                    let crc = leaf_m("Header CRC16: "@ + alt_hex(u16at(d, o2, true) as nat, 6), rng(o2, o2 + 2));
                    Some(node_m("Gzip header"@, rng(0, o2 + 2), c2.push(crc)).expand())
                }
            } else {
                Some(node_m("Gzip header"@, rng(0, o2), c2).expand())
            },
        },
    }
}

/// The member header: absent below 10 bytes or when an optional field it
/// announces cannot be read; a truncated extra field or header CRC ends it early.
#[verifier::opaque]
pub open spec fn header_s(d: Seq<u8>) -> Option<BlockModel> {
    if d.len() < 10 {
        None
    } else {
        let flg = d[3];
        let c0 = Seq::empty()
            .push(leaf_m("ID1: 0x1f"@, rng(0, 1)))
            .push(leaf_m("ID2: 0x8b"@, rng(1, 2)))
            .push(leaf_m("Compression method: "@ + compression_method_name_s(d[2]), rng(2, 3)))
            .push(leaf_m("Flags: "@ + alt_hex(flg as nat, 4), rng(3, 4)))
            .push(leaf_m("Modification time: "@ + dec(u32at(d, 4, true) as nat), rng(4, 8)))
            .push(leaf_m("Extra flags: "@ + alt_hex(d[8] as nat, 4), rng(8, 9)))
            .push(leaf_m("OS: "@ + os_name_s(d[9]), rng(9, 10)));
        if flg & FEXTRA != 0 {
            if !fits(d, 10, 2) {
                None
            } else {
                let xlen = u16at(d, 10, true) as int;
                let c1 = c0.push(leaf_m("Extra field length: "@ + dec(xlen as nat), rng(10, 12)));
                let extra_end = imin(12 + xlen, d.len() as int);
                let c2 = push_if(c1, extra_end > 12, leaf_m("Extra field"@, rng(12, extra_end)));
                if extra_end < 12 + xlen {
                    Some(node_m("Gzip header"@, rng(0, extra_end), c2))
                } else {
                    header_rest_s(d, flg, extra_end, c2)
                }
            }
        } else {
            header_rest_s(d, flg, 10, c0)
        }
    }
}

fn header_block(data: &[u8]) -> (r: Option<Block>)
    requires
        input_ok(data@),
    ensures
        r matches Some(b) ==> header_s(data@) == Some(b@) && b@.range.end <= data@.len(),
        r is None ==> header_s(data@) is None,
{
    reveal(header_s);
    if data.len() < 10 {
        return None;
    }
    let cm = data[2];
    let flg = data[3];
    let mtime = read_u32(data, 4, true).unwrap();
    let xfl = data[8];
    let os = data[9];
    let mut ch = no_blocks();
    push_block(&mut ch, Block::leaf(lit("ID1: 0x1f"), ByteRange::new(0, 1)));
    push_block(&mut ch, Block::leaf(lit("ID2: 0x8b"), ByteRange::new(1, 2)));
    let cmn = compression_method_name(cm);
    push_block(&mut ch, Block::leaf(label_str("Compression method: ", cmn.as_str()), ByteRange::new(2, 3)));
    push_block(&mut ch, Block::leaf(label_hex8("Flags: ", flg, 4), ByteRange::new(3, 4)));
    push_block(&mut ch, Block::leaf(label_u32("Modification time: ", mtime), ByteRange::new(4, 8)));
    push_block(&mut ch, Block::leaf(label_hex8("Extra flags: ", xfl, 4), ByteRange::new(8, 9)));
    let osn = os_name(os);
    push_block(&mut ch, Block::leaf(label_str("OS: ", osn.as_str()), ByteRange::new(9, 10)));
    let ghost d = data@;
    let mut offset: u64 = 10;
    if flg & FEXTRA != 0 {
        let xlen = match read_u16(data, offset, true) {
            Some(v) => v as u64,
            None => return None,
        };
        push_block(&mut ch, Block::leaf(label_u64("Extra field length: ", xlen), ByteRange::new(offset, offset + 2)));
        offset = offset + 2;
        let extra_end = min_u64(offset + xlen, data.len() as u64);
        if extra_end > offset {
            push_block(&mut ch, Block::leaf(lit("Extra field"), ByteRange::new(offset, extra_end)));
        }
        if extra_end < offset + xlen {
            return Some(Block::node(lit("Gzip header"), ByteRange::new(0, extra_end), ch));
        }
        offset = extra_end;
    }
    let ghost c_mid = models(ch@);
    let ghost o_mid = offset as int;
    assert(header_s(d) == header_rest_s(d, flg, o_mid, c_mid));
    if flg & FNAME != 0 {
        match text_field(data, offset, "Original file name: ") {
            Some((b, e)) => {
                push_block(&mut ch, b);
                offset = e;
            },
            None => return None,
        }
    }
    let ghost c_name = models(ch@);
    let ghost o_name = offset as int;
    assert(opt_text_s(d, flg & FNAME != 0, o_mid, c_mid, "Original file name: "@) == Some((c_name, o_name)));
    if flg & FCOMMENT != 0 {
        match text_field(data, offset, "Comment: ") {
            Some((b, e)) => {
                push_block(&mut ch, b);
                offset = e;
            },
            None => return None,
        }
    }
    assert(opt_text_s(d, flg & FCOMMENT != 0, o_name, c_name, "Comment: "@) == Some((models(ch@), offset as int)));
    if flg & FHCRC != 0 {
        if offset + 2 > data.len() as u64 {
            return Some(Block::node(lit("Gzip header"), ByteRange::new(0, offset), ch));
        }
        let crc16 = read_u16(data, offset, true).unwrap();
        push_block(&mut ch, Block::leaf(label_hex16("Header CRC16: ", crc16, 6), ByteRange::new(offset, offset + 2)));
        offset = offset + 2;
    }
    Some(Block::node(lit("Gzip header"), ByteRange::new(0, offset), ch).expanded())
}

/// The 8-byte member trailer at `o`.
pub open spec fn trailer_s(d: Seq<u8>, o: int) -> BlockModel {
    node_m(
        "Trailer"@,
        rng(o, o + 8),
        Seq::empty()
            .push(leaf_m("CRC-32: "@ + alt_hex(u32at(d, o, true) as nat, 10), rng(o, o + 4)))
            .push(leaf_m("Input size (mod 2^32): "@ + dec(u32at(d, o + 4, true) as nat), rng(o + 4, o + 8))),
    )
}

fn trailer_block(data: &[u8], offset: u64) -> (r: Option<Block>)
    ensures
        r matches Some(b) ==> fits(data@, offset as int, 8) && b@ == trailer_s(data@, offset as int),
        r is None ==> !fits(data@, offset as int, 8),
{
    if !avail(data, offset, 8) {
        return None;
    }
    let crc32 = read_u32(data, offset, true).unwrap();
    let isize = read_u32(data, offset + 4, true).unwrap();
    let mut ch = no_blocks();
    push_block(&mut ch, Block::leaf(label_hex32("CRC-32: ", crc32, 10), ByteRange::new(offset, offset + 4)));
    push_block(&mut ch, Block::leaf(label_u32("Input size (mod 2^32): ", isize), ByteRange::new(offset + 4, offset + 8)));
    Some(Block::node(lit("Trailer"), ByteRange::new(offset, offset + 8), ch))
}

/// A gzip member: nothing without a readable header; otherwise the header,
/// the compressed data, and the trailer in the last eight bytes when they
/// follow the header.
pub open spec fn gzip_s(d: Seq<u8>) -> Seq<BlockModel> {
    match header_s(d) {
        None => Seq::empty(),
        Some(h) => {
            let he = h.range.end as int;
            let ts = if d.len() >= he + 8 { d.len() - 8 } else { d.len() as int };
            let s1 = push_if(seq![h], ts > he, leaf_m("Compressed data"@, rng(he, ts)));
            push_if(s1, fits(d, ts, 8), trailer_s(d, ts))
        },
    }
}

proof fn lemma_opt_text_leaves(d: Seq<u8>, present: bool, o: int, c: Seq<BlockModel>, prefix: Seq<char>)
    requires
        input_ok(d),
        0 <= o <= d.len(),
        leaves_in(c, o),
    ensures
        opt_text_s(d, present, o, c, prefix) matches Some((c2, o2)) ==> o <= o2 <= d.len() && leaves_in(c2, o2),
{
    if present {
        if let Some((b, e)) = text_field_s(d, o, prefix) {
            lemma_nul_pos_bounds(d.subrange(o, d.len() as int));
            assert(leaves_in(c, e));
            lemma_push_leaf(c, true, b, e);
        }
    }
}

proof fn lemma_header_rest_leaves(d: Seq<u8>, flg: u8, o: int, c: Seq<BlockModel>)
    requires
        input_ok(d),
        0 <= o <= d.len(),
        leaves_in(c, o),
    ensures
        header_rest_s(d, flg, o, c) matches Some(h) ==> h.range.start == 0 && h.range.end <= d.len()
            && leaves_in(h.children, h.range.end as int),
{
    lemma_opt_text_leaves(d, flg & FNAME != 0, o, c, "Original file name: "@);
    if let Some((c1, o1)) = opt_text_s(d, flg & FNAME != 0, o, c, "Original file name: "@) {
        lemma_opt_text_leaves(d, flg & FCOMMENT != 0, o1, c1, "Comment: "@);
        if let Some((c2, o2)) = opt_text_s(d, flg & FCOMMENT != 0, o1, c1, "Comment: "@) {
            if flg & FHCRC != 0 && o2 + 2 <= d.len() {
                let crc = leaf_m("Header CRC16: "@ + alt_hex(u16at(d, o2, true) as nat, 6), rng(o2, o2 + 2));
                assert(leaves_in(c2, o2 + 2));
                lemma_push_leaf(c2, true, crc, o2 + 2);
            }
        }
    }
}

/// Each block of a gzip member lies within the data, and the fields of the
/// header and trailer cover sub-ranges of them.
pub proof fn lemma_gzip_blocks_nest(d: Seq<u8>)
    requires
        input_ok(d),
    ensures
        all_nest(d, GzipDissector.spec_dissect(d)),
{
    reveal(header_s);
    if let Some(h) = header_s(d) {
        let flg = d[3];
        let c0 = Seq::empty()
            .push(leaf_m("ID1: 0x1f"@, rng(0, 1)))
            .push(leaf_m("ID2: 0x8b"@, rng(1, 2)))
            .push(leaf_m("Compression method: "@ + compression_method_name_s(d[2]), rng(2, 3)))
            .push(leaf_m("Flags: "@ + alt_hex(flg as nat, 4), rng(3, 4)))
            .push(leaf_m("Modification time: "@ + dec(u32at(d, 4, true) as nat), rng(4, 8)))
            .push(leaf_m("Extra flags: "@ + alt_hex(d[8] as nat, 4), rng(8, 9)))
            .push(leaf_m("OS: "@ + os_name_s(d[9]), rng(9, 10)));
        assert(leaves_in(c0, 10));
        if flg & FEXTRA != 0 {
            let xlen = u16at(d, 10, true) as int;
            let c1 = c0.push(leaf_m("Extra field length: "@ + dec(xlen as nat), rng(10, 12)));
            lemma_push_leaf(c0, true, leaf_m("Extra field length: "@ + dec(xlen as nat), rng(10, 12)), 12);
            let extra_end = imin(12 + xlen, d.len() as int);
            lemma_push_leaf(c1, extra_end > 12, leaf_m("Extra field"@, rng(12, extra_end)), extra_end);
            let c2 = push_if(c1, extra_end > 12, leaf_m("Extra field"@, rng(12, extra_end)));
            if extra_end >= 12 + xlen {
                lemma_header_rest_leaves(d, flg, extra_end, c2);
            }
        } else {
            lemma_header_rest_leaves(d, flg, 10, c0);
        }
        assert forall|i: int| 0 <= i < h.children.len() implies within(#[trigger] h.children[i], h)
            && h.children[i].children.len() == 0 by {}
        lemma_push_record(d, Seq::empty(), h);
        let s0 = seq![h];
        assert(Seq::<BlockModel>::empty().push(h) == s0);
        let he = h.range.end as int;
        let ts = if d.len() >= he + 8 { d.len() - 8 } else { d.len() as int };
        lemma_push_record(d, s0, leaf_m("Compressed data"@, rng(he, ts)));
        let s1 = push_if(s0, ts > he, leaf_m("Compressed data"@, rng(he, ts)));
        if fits(d, ts, 8) {
            lemma_push_record(d, s1, trailer_s(d, ts));
        }
    }
}

impl Dissector for GzipDissector {
    open spec fn spec_name(&self) -> Seq<char> {
        "Gzip"@
    }

    open spec fn spec_matches(&self, data: Seq<u8>) -> bool {
        has_at(data, 0, seq![0x1fu8, 0x8bu8])
    }

    open spec fn spec_dissect(&self, data: Seq<u8>) -> Seq<BlockModel> {
        gzip_s(data)
    }

    fn name(&self) -> (r: &'static str) {
        "Gzip"
    }

    fn matches(&self, data: &[u8]) -> (r: bool) {
        let magic: [u8; 2] = [0x1f, 0x8b];
        let r = bytes_at(data, 0, &magic);
        assert(magic@ =~= seq![0x1fu8, 0x8bu8]);
        r
    }

    fn dissect(&self, data: &[u8]) -> (r: Vec<Block>) {
        let mut blocks = no_blocks();
        let header = match header_block(data) {
            Some(h) => h,
            None => return blocks,
        };
        let header_end = header.range.end;
        push_block(&mut blocks, header);
        let data_len = data.len() as u64;
        let trailer_start = if data_len >= header_end + 8 { data_len - 8 } else { data_len };
        if trailer_start > header_end {
            push_block(&mut blocks, Block::leaf(lit("Compressed data"), ByteRange::new(header_end, trailer_start)));
        }
        match trailer_block(data, trailer_start) {
            Some(t) => push_block(&mut blocks, t),
            None => {},
        }
        blocks
    }
}

} // verus!
