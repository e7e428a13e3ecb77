//! PNG images: the signature and a sequence of chunks, with the IHDR fields decoded.

use vstd::prelude::*;
use super::{
    Block, BlockModel, ByteRange, Dissector, all_tree_ok, append_blocks, input_ok, leaves_in, lemma_flat_tree_ok, lemma_push_leaf, lemma_push_tree, leaf_m, models, no_blocks,
    node_m, push_block, push_if, rng, tree_ok,
};
use crate::bytes::{avail, bytes_at, fits, has_at, idx, imin, min_u64, read_u32, read_u8, u32at};
use crate::text::{dec, label_str, label_u32, label_u64, label_u8, lit, lossy_string, utf8_lossy};
verus! {

pub struct PngDissector;

pub open spec fn png_signature() -> Seq<u8> {
    seq![0x89u8, 0x50u8, 0x4eu8, 0x47u8, 0x0du8, 0x0au8, 0x1au8, 0x0au8]
}

pub open spec fn color_type_name_s(v: u8) -> Seq<char> {
    if v == 0 {
        "grayscale"@
    } else if v == 2 {
        "truecolor"@
    } else if v == 3 {
        "indexed"@
    } else if v == 4 {
        "grayscale + alpha"@
    } else if v == 6 {
        "truecolor + alpha"@
    } else {
        "unknown"@
    }
}

pub fn color_type_name(value: u8) -> (r: &'static str)
    ensures
        r@ == color_type_name_s(value),
{
    if value == 0 {
        "grayscale"
    } else if value == 2 {
        "truecolor"
    } else if value == 3 {
        "indexed"
    } else if value == 4 {
        "grayscale + alpha"
    } else if value == 6 {
        "truecolor + alpha"
    } else {
        "unknown"
    }
}

/// A one-byte IHDR field at `off`, when present.
pub open spec fn byte_field(acc: Seq<BlockModel>, d: Seq<u8>, off: int, name: Seq<char>) -> Seq<BlockModel> {
    push_if(acc, fits(d, off, 1), leaf_m(name + dec(d[off] as nat), rng(off, off + 1)))
}

/// The IHDR fields at `o` that lie within `d`.
pub open spec fn ihdr_fields_s(d: Seq<u8>, o: int) -> Seq<BlockModel> {
    let c0 = push_if(Seq::empty(), fits(d, o, 4), leaf_m("Width: "@ + dec(u32at(d, o, false) as nat), rng(o, o + 4)));
    let c1 = push_if(c0, fits(d, o + 4, 4), leaf_m("Height: "@ + dec(u32at(d, o + 4, false) as nat), rng(o + 4, o + 8)));
    let c2 = byte_field(c1, d, o + 8, "Bit depth: "@);
    let c3 = push_if(c2, fits(d, o + 9, 1), leaf_m("Color type: "@ + color_type_name_s(d[o + 9]), rng(o + 9, o + 10)));
    let c4 = byte_field(c3, d, o + 10, "Compression method: "@);
    let c5 = byte_field(c4, d, o + 11, "Filter method: "@);
    byte_field(c5, d, o + 12, "Interlace method: "@)
}

fn push_byte_field(data: &[u8], fields: &mut Vec<Block>, off: u64, name: &str)
    requires
        off < 0xffff_ffff_ffff_ffff,
    ensures
        models(final(fields)@) == byte_field(models(old(fields)@), data@, off as int, name@),
{
    match read_u8(data, off) {
        Some(v) => push_block(fields, Block::leaf(label_u8(name, v), ByteRange::new(off, off + 1))),
        None => {},
    }
}

pub fn ihdr_fields(data: &[u8], offset: u64) -> (r: Vec<Block>)
    requires
        offset <= 0x7fff_ffff_ffff_ffff,
    ensures
        models(r@) == ihdr_fields_s(data@, offset as int),
{
    let o = offset;
    let mut f = no_blocks();
    match read_u32(data, o, false) {
        Some(v) => push_block(&mut f, Block::leaf(label_u32("Width: ", v), ByteRange::new(o, o + 4))),
        None => {},
    }
    match read_u32(data, o + 4, false) {
        Some(v) => push_block(&mut f, Block::leaf(label_u32("Height: ", v), ByteRange::new(o + 4, o + 8))),
        None => {},
    }
    push_byte_field(data, &mut f, o + 8, "Bit depth: ");
    match read_u8(data, o + 9) {
        Some(v) => push_block(&mut f, Block::leaf(label_str("Color type: ", color_type_name(v)), ByteRange::new(o + 9, o + 10))),
        None => {},
    }
    push_byte_field(data, &mut f, o + 10, "Compression method: ");
    push_byte_field(data, &mut f, o + 11, "Filter method: ");
    push_byte_field(data, &mut f, o + 12, "Interlace method: ");
    f
}

/// The chunk at `o` whose type reads as `t`; its data and CRC are cut at
/// the end of `d`.
pub open spec fn chunk_with_type_s(d: Seq<u8>, o: int, t: Seq<char>) -> BlockModel {
    let length = u32at(d, o, false) as int;
    let ds = o + 8;
    let de = ds + imin(length, d.len() - ds);
    let ce = imin(de + 4, d.len() as int);
    let c0 = Seq::empty()
        .push(leaf_m("Length: "@ + dec(length as nat), rng(o, o + 4)))
        .push(leaf_m("Type: "@ + t, rng(o + 4, o + 8)));
    let c1 = if t == "IHDR"@ {
        c0 + ihdr_fields_s(d, ds)
    } else {
        push_if(c0, de > ds, leaf_m("Data"@, rng(ds, de)))
    };
    let c2 = push_if(c1, ce > de, leaf_m("CRC"@, rng(de, ce)));
    node_m("Chunk: "@ + t, rng(o, ce), c2).expand_if(t == "IHDR"@ || t == "IEND"@)
}

/// The chunk at `o`, if its length and type lie within `d`; its type is
/// decoded as UTF-8 with replacement.
#[verifier::opaque]
pub open spec fn chunk_s(d: Seq<u8>, o: int) -> Option<BlockModel> {
    if !fits(d, o, 8) {
        None
    } else {
        Some(chunk_with_type_s(d, o, utf8_lossy(d.subrange(o + 4, o + 8))))
    }
}

/// The chunk at `offset`, its type already decoded into `chunk_type`.
pub fn chunk_with_type(data: &[u8], offset: u64, chunk_type: &String) -> (b: Block)
    requires
        input_ok(data@),
        fits(data@, offset as int, 8),
    ensures
        b@ == chunk_with_type_s(data@, offset as int, chunk_type@),
        offset < b@.range.end <= data@.len(),
{
    let length = read_u32(data, offset, false).unwrap() as u64;
    let data_len = data.len() as u64;
    let ds = offset + 8;
    let de = ds + min_u64(length, data_len - ds);
    let ce = min_u64(de + 4, data_len);
    let mut ch = no_blocks();
    push_block(&mut ch, Block::leaf(label_u64("Length: ", length), ByteRange::new(offset, offset + 4)));
    push_block(&mut ch, Block::leaf(label_str("Type: ", chunk_type.as_str()), ByteRange::new(offset + 4, offset + 8)));
    let ihdr = lit("IHDR");
    let iend = lit("IEND");
    let is_ihdr = *chunk_type == ihdr;
    if is_ihdr {
        append_blocks(&mut ch, ihdr_fields(data, ds));
    } else if de > ds {
        push_block(&mut ch, Block::leaf(lit("Data"), ByteRange::new(ds, de)));
    }
    if ce > de {
        push_block(&mut ch, Block::leaf(lit("CRC"), ByteRange::new(de, ce)));
    }
    let expand = is_ihdr || *chunk_type == iend;
    let title = label_str("Chunk: ", chunk_type.as_str());
    Block::node(title, ByteRange::new(offset, ce), ch).expanded_if(expand)
}

fn chunk_block(data: &[u8], offset: u64) -> (r: Option<Block>)
    requires
        input_ok(data@),
    ensures
        r matches Some(b) ==> chunk_s(data@, offset as int) == Some(b@) && offset < b@.range.end <= data@.len(),
        r is None ==> chunk_s(data@, offset as int) is None,
{
    reveal(chunk_s);
    if !avail(data, offset, 8) {
        return None;
    }
    let type_bytes = vstd::slice::slice_subrange(data, idx(data, offset + 4), idx(data, offset + 8));
    let chunk_type = lossy_string(type_bytes);
    Some(chunk_with_type(data, offset, &chunk_type))
}

/// Chunks from `o` on, appended to `acc`, while one parses.
pub open spec fn png_walk(d: Seq<u8>, o: int, acc: Seq<BlockModel>) -> Seq<BlockModel>
    decreases d.len() - o,
{
    match chunk_s(d, o) {
        Some(b) => if o < b.range.end <= d.len() {
            png_walk(d, b.range.end as int, acc.push(b))
        } else {
            acc.push(b)
        },
        None => acc,
    }
}

/// A PNG file: nothing below eight bytes; otherwise the signature and the chunks after it.
pub open spec fn png_s(d: Seq<u8>) -> Seq<BlockModel> {
    if d.len() < 8 {
        Seq::empty()
    } else {
        png_walk(d, 8, seq![leaf_m("Signature"@, rng(0, 8))])
    }
}

proof fn lemma_ihdr_leaves(d: Seq<u8>, o: int)
    requires
        input_ok(d),
        0 <= o,
    ensures
        leaves_in(ihdr_fields_s(d, o), d.len() as int),
{
    let hi = d.len() as int;
    assert forall|acc: Seq<BlockModel>, off: int, name: Seq<char>|
        leaves_in(acc, hi) && 0 <= off implies #[trigger] leaves_in(byte_field(acc, d, off, name), hi) by {
        lemma_push_leaf(acc, fits(d, off, 1), leaf_m(name + dec(d[off] as nat), rng(off, off + 1)), hi);
    }
    let b0 = leaf_m("Width: "@ + dec(u32at(d, o, false) as nat), rng(o, o + 4));
    lemma_push_leaf(Seq::empty(), fits(d, o, 4), b0, hi);
    let c0 = push_if(Seq::empty(), fits(d, o, 4), b0);
    let b1 = leaf_m("Height: "@ + dec(u32at(d, o + 4, false) as nat), rng(o + 4, o + 8));
    lemma_push_leaf(c0, fits(d, o + 4, 4), b1, hi);
    let c1 = push_if(c0, fits(d, o + 4, 4), b1);
    let c2 = byte_field(c1, d, o + 8, "Bit depth: "@);
    let b3 = leaf_m("Color type: "@ + color_type_name_s(d[o + 9]), rng(o + 9, o + 10));
    lemma_push_leaf(c2, fits(d, o + 9, 1), b3, hi);
}

/// Each chunk is a block running forwards whose fields are leaves.
proof fn lemma_chunk_tree(d: Seq<u8>, o: int, t: Seq<char>)
    requires
        input_ok(d),
        fits(d, o, 8),
    ensures
        tree_ok(chunk_with_type_s(d, o, t)),
{
    let length = u32at(d, o, false) as int;
    let ds = o + 8;
    let de = ds + imin(length, d.len() - ds);
    let ce = imin(de + 4, d.len() as int);
    let hi = d.len() as int;
    let c0 = Seq::empty()
        .push(leaf_m("Length: "@ + dec(length as nat), rng(o, o + 4)))
        .push(leaf_m("Type: "@ + t, rng(o + 4, o + 8)));
    assert(leaves_in(c0, hi));
    let c1 = if t == "IHDR"@ {
        c0 + ihdr_fields_s(d, ds)
    } else {
        push_if(c0, de > ds, leaf_m("Data"@, rng(ds, de)))
    };
    if t == "IHDR"@ {
        lemma_ihdr_leaves(d, ds);
        let f = ihdr_fields_s(d, ds);
        assert forall|i: int| 0 <= i < c1.len() implies 0 <= (#[trigger] c1[i]).range.start <= c1[i].range.end <= hi
            && c1[i].children.len() == 0 by {
            if i < c0.len() {
                assert(c1[i] == c0[i]);
            } else {
                assert(c1[i] == f[i - c0.len()]);
            }
        }
    } else {
        lemma_push_leaf(c0, de > ds, leaf_m("Data"@, rng(ds, de)), hi);
    }
    lemma_push_leaf(c1, ce > de, leaf_m("CRC"@, rng(de, ce)), hi);
    lemma_flat_tree_ok(chunk_with_type_s(d, o, t));
}

proof fn lemma_walk_tree(d: Seq<u8>, o: int, acc: Seq<BlockModel>)
    requires
        input_ok(d),
        all_tree_ok(acc),
    ensures
        all_tree_ok(png_walk(d, o, acc)),
    decreases d.len() - o,
{
    reveal(chunk_s);
    if let Some(b) = chunk_s(d, o) {
        lemma_chunk_tree(d, o, utf8_lossy(d.subrange(o + 4, o + 8)));
        lemma_push_tree(acc, b);
        if o < b.range.end <= d.len() {
            lemma_walk_tree(d, b.range.end as int, acc.push(b));
        }
    }
}

/// Every block of a PNG file runs forwards, and every leaf has no children.
pub proof fn lemma_png_trees(d: Seq<u8>)
    requires
        input_ok(d),
    ensures
        all_tree_ok(PngDissector.spec_dissect(d)),
{
    if d.len() >= 8 {
        let s0 = seq![leaf_m("Signature"@, rng(0, 8))];
        assert(all_tree_ok(s0));
        lemma_walk_tree(d, 8, s0);
    }
}

impl Dissector for PngDissector {
    open spec fn spec_name(&self) -> Seq<char> {
        "PNG"@
    }

    open spec fn spec_matches(&self, data: Seq<u8>) -> bool {
        has_at(data, 0, png_signature())
    }

    open spec fn spec_dissect(&self, data: Seq<u8>) -> Seq<BlockModel> {
        png_s(data)
    }

    fn name(&self) -> (r: &'static str) {
        "PNG"
    }

    fn matches(&self, data: &[u8]) -> (r: bool) {
        let magic: [u8; 8] = [0x89, 0x50, 0x4e, 0x47, 0x0d, 0x0a, 0x1a, 0x0a];
        assert(magic@ =~= png_signature());
        bytes_at(data, 0, &magic)
    }

    fn dissect(&self, data: &[u8]) -> (r: Vec<Block>) {
        let mut blocks = no_blocks();
        if data.len() < 8 {
            return blocks;
        }
        push_block(&mut blocks, Block::leaf(lit("Signature"), ByteRange::new(0, 8)));
        let mut offset: u64 = 8;
        let ghost d = data@;
        loop
            invariant
                d == data@,
                input_ok(d),
                offset <= d.len(),
                png_s(d) == png_walk(d, offset as int, models(blocks@)),
            ensures
                png_s(d) == models(blocks@),
            decreases d.len() - offset,
        {
            match chunk_block(data, offset) {
                Some(c) => {
                    let end = c.range.end;
                    push_block(&mut blocks, c);
                    offset = end;
                },
                None => break,
            }
        }
        blocks
    }
}

} // verus!
