//! WebP images: the RIFF header and its chunks, with the VP8X chunk decoded.

use vstd::prelude::*;
use super::{
    Block, BlockModel, ByteRange, Dissector, all_tree_ok, append_blocks, input_ok, leaves_in,
    lemma_flat_tree_ok, lemma_push_leaf, lemma_push_tree, leaf_m, models, no_blocks, node_m, push_block,
    push_if, rng, tree_ok,
};
use crate::bytes::{
    avail, bytes_at, fits, has_at, idx, imin, min_u64, opt_u32, or0_u32, read_u24, read_u32,
    read_u8, u24at, u32at,
};
use crate::text::{
    add_part, dec, label_str, label_u32, label_u64, label_wrap, lit, lossy_chars, push_part,
    string_from, trim_end_s, trim_end_string, utf8_lossy,
};
verus! {

pub struct WebpDissector;

/// The RIFF header: chunk ID, declared size and form type.
pub open spec fn riff_header_s(d: Seq<u8>) -> BlockModel {
    node_m(
        "RIFF header"@,
        rng(0, 12),
        Seq::empty()
            .push(leaf_m("Chunk ID: RIFF"@, rng(0, 4)))
            .push(leaf_m("Chunk size: "@ + dec(or0_u32(opt_u32(d, 4, true)) as nat), rng(4, 8)))
            .push(leaf_m("Format: WEBP"@, rng(8, 12))),
    ).expand()
}

fn riff_header_block(data: &[u8]) -> (b: Block)
    ensures
        b@ == riff_header_s(data@),
{
    let chunk_size = match read_u32(data, 4, true) { Some(v) => v, None => 0 };
    let mut ch = no_blocks();
    push_block(&mut ch, Block::leaf(lit("Chunk ID: RIFF"), ByteRange::new(0, 4)));
    push_block(&mut ch, Block::leaf(label_u32("Chunk size: ", chunk_size), ByteRange::new(4, 8)));
    push_block(&mut ch, Block::leaf(lit("Format: WEBP"), ByteRange::new(8, 12)));
    Block::node(lit("RIFF header"), ByteRange::new(0, 12), ch).expanded()
}

/// The set VP8X feature flags in words.
pub open spec fn feature_flags_s(flags: u8) -> Seq<char> {
    let a = if flags & 0x20u8 != 0 { "ICC profile"@ } else { Seq::empty() };
    let b = if flags & 0x10u8 != 0 { add_part(a, "alpha"@) } else { a };
    let c = if flags & 0x08u8 != 0 { add_part(b, "EXIF"@) } else { b };
    let e = if flags & 0x04u8 != 0 { add_part(c, "XMP"@) } else { c };
    let f = if flags & 0x02u8 != 0 { add_part(e, "animation"@) } else { e };
    if f.len() == 0 {
        "Feature flags: none"@
    } else {
        "Feature flags: "@ + f
    }
}

pub fn feature_flags(flags: u8) -> (r: String)
    ensures
        r@ == feature_flags_s(flags),
{
    proof {
        reveal_strlit("ICC profile");
        reveal_strlit("alpha");
        reveal_strlit("EXIF");
        reveal_strlit("XMP");
        reveal_strlit("animation");
    }
    let mut s = String::new();
    if flags & 0x20u8 != 0 {
        push_part(&mut s, "ICC profile");
    }
    if flags & 0x10u8 != 0 {
        push_part(&mut s, "alpha");
    }
    if flags & 0x08u8 != 0 {
        push_part(&mut s, "EXIF");
    }
    if flags & 0x04u8 != 0 {
        push_part(&mut s, "XMP");
    }
    if flags & 0x02u8 != 0 {
        push_part(&mut s, "animation");
    }
    if s.as_str().unicode_len() == 0 {
        lit("Feature flags: none")
    } else {
        label_str("Feature flags: ", s.as_str())
    }
}

/// The VP8X fields at `o` that lie within `d`; the canvas dimensions are
/// stored minus one.
pub open spec fn vp8x_fields_s(d: Seq<u8>, o: int) -> Seq<BlockModel> {
    let c0 = push_if(Seq::empty(), fits(d, o, 1), leaf_m(feature_flags_s(d[o]), rng(o, o + 1)));
    let c1 = push_if(c0, fits(d, o + 4, 3),
        leaf_m("Canvas width: "@ + dec((u24at(d, o + 4, true) + 1) as nat), rng(o + 4, o + 7)));
    push_if(c1, fits(d, o + 7, 3),
        leaf_m("Canvas height: "@ + dec((u24at(d, o + 7, true) + 1) as nat), rng(o + 7, o + 10)))
}

pub fn vp8x_fields(data: &[u8], offset: u64) -> (r: Vec<Block>)
    requires
        offset <= 0x7fff_ffff_ffff_ffff,
    ensures
        models(r@) == vp8x_fields_s(data@, offset as int),
{
    let o = offset;
    let mut f = no_blocks();
    match read_u8(data, o) {
        Some(flags) => push_block(&mut f, Block::leaf(feature_flags(flags), ByteRange::new(o, o + 1))),
        None => {},
    }
    match read_u24(data, o + 4, true) {
        Some(v) => push_block(&mut f, Block::leaf(label_u32("Canvas width: ", v + 1), ByteRange::new(o + 4, o + 7))),
        None => {},
    }
    match read_u24(data, o + 7, true) {
        Some(v) => push_block(&mut f, Block::leaf(label_u32("Canvas height: ", v + 1), ByteRange::new(o + 7, o + 10))),
        None => {},
    }
    f
}

/// The label of a chunk's data span, naming the known chunk kinds.
pub open spec fn data_label_s(id: Seq<char>) -> Seq<char> {
    if id == "VP8 "@ {
        "VP8 bitstream data"@
    } else if id == "VP8L"@ {
        "VP8L bitstream data"@
    } else if id == "ICCP"@ {
        "ICC profile data"@
    } else if id == "EXIF"@ {
        "EXIF data"@
    } else if id == "XMP "@ {
        "XMP data"@
    } else {
        "Data ("@ + id + ")"@
    }
}

pub fn data_label(id: &String) -> (r: String)
    ensures
        r@ == data_label_s(id@),
{
    if *id == lit("VP8 ") {
        lit("VP8 bitstream data")
    } else if *id == lit("VP8L") {
        lit("VP8L bitstream data")
    } else if *id == lit("ICCP") {
        lit("ICC profile data")
    } else if *id == lit("EXIF") {
        lit("EXIF data")
    } else if *id == lit("XMP ") {
        lit("XMP data")
    } else {
        label_wrap("Data (", id.as_str(), ")")
    }
}

/// The chunk at `o` whose ID reads as `id`. Its span runs to the end of
/// its data plus a pad byte after odd sizes, cut at the end of `d`.
pub open spec fn chunk_with_id_s(d: Seq<u8>, o: int, id: Seq<char>) -> BlockModel {
    let size = u32at(d, o + 4, true) as int;
    let ds = o + 8;
    let de = ds + imin(size, d.len() - ds);
    let pe = imin(de + size % 2, d.len() as int);
    let header = Seq::empty()
        .push(leaf_m("Chunk ID: "@ + id, rng(o, o + 4)))
        .push(leaf_m("Chunk size: "@ + dec(size as nat), rng(o + 4, o + 8)));
    if id == "VP8X"@ {
        node_m("Chunk: "@ + id, rng(o, pe), header + vp8x_fields_s(d, ds)).expand()
    } else {
        node_m("Chunk: "@ + trim_end_s(id), rng(o, pe), push_if(header, de > ds, leaf_m(data_label_s(id), rng(ds, de))))
    }
}

/// The chunk at `o`, if its ID and size lie within `d`; its ID is decoded
/// as UTF-8 with replacement.
#[verifier::opaque]
pub open spec fn chunk_s(d: Seq<u8>, o: int) -> Option<BlockModel> {
    if !fits(d, o, 8) {
        None
    } else {
        Some(chunk_with_id_s(d, o, utf8_lossy(d.subrange(o, o + 4))))
    }
}

/// The chunk at `offset`, its ID already decoded into `id`.
pub fn chunk_with_id(data: &[u8], offset: u64, id: &[char]) -> (b: Block)
    requires
        input_ok(data@),
        fits(data@, offset as int, 8),
    ensures
        b@ == chunk_with_id_s(data@, offset as int, id@),
        offset < b@.range.end <= data@.len(),
{
    let id_text = string_from(id);
    let size = read_u32(data, offset + 4, true).unwrap() as u64;
    let data_len = data.len() as u64;
    let ds = offset + 8;
    let de = ds + min_u64(size, data_len - ds);
    let pe = min_u64(de + size % 2, data_len);
    let mut ch = no_blocks();
    push_block(&mut ch, Block::leaf(label_str("Chunk ID: ", id_text.as_str()), ByteRange::new(offset, offset + 4)));
    push_block(&mut ch, Block::leaf(label_u64("Chunk size: ", size), ByteRange::new(offset + 4, offset + 8)));
    if id_text == lit("VP8X") {
        append_blocks(&mut ch, vp8x_fields(data, ds));
        let title = label_str("Chunk: ", id_text.as_str());
        return Block::node(title, ByteRange::new(offset, pe), ch).expanded();
    }
    if de > ds {
        push_block(&mut ch, Block::leaf(data_label(&id_text), ByteRange::new(ds, de)));
    }
    let trimmed = trim_end_string(id);
    let title = label_str("Chunk: ", trimmed.as_str());
    Block::node(title, ByteRange::new(offset, pe), ch)
}

fn chunk_block(data: &[u8], offset: u64) -> (r: Option<Block>)
    requires
        input_ok(data@),
    ensures
        r matches Some(b) ==> chunk_s(data@, offset as int) == Some(b@) && offset < b@.range.end <= data@.len(),
        r is None ==> chunk_s(data@, offset as int) is None,
{
    reveal(chunk_s);
    if !avail(data, offset, 8) {
        return None;
    }
    let id_bytes = vstd::slice::slice_subrange(data, idx(data, offset), idx(data, offset + 4));
    let id = lossy_chars(id_bytes);
    Some(chunk_with_id(data, offset, id.as_slice()))
}

/// Chunks from `o` on, appended to `acc`, while one parses.
pub open spec fn chunk_walk(d: Seq<u8>, o: int, acc: Seq<BlockModel>) -> Seq<BlockModel>
    decreases d.len() - o,
{
    match chunk_s(d, o) {
        Some(b) => if o < b.range.end <= d.len() {
            chunk_walk(d, b.range.end as int, acc.push(b))
        } else {
            acc.push(b)
        },
        None => acc,
    }
}

/// A WebP file: nothing below twelve bytes; otherwise the RIFF header and the chunks after it.
pub open spec fn webp_s(d: Seq<u8>) -> Seq<BlockModel> {
    if d.len() < 12 {
        Seq::empty()
    } else {
        chunk_walk(d, 12, seq![riff_header_s(d)])
    }
}

proof fn lemma_vp8x_leaves(d: Seq<u8>, o: int)
    requires
        input_ok(d),
        0 <= o,
    ensures
        leaves_in(vp8x_fields_s(d, o), d.len() as int),
{
    let hi = d.len() as int;
    let b0 = leaf_m(feature_flags_s(d[o]), rng(o, o + 1));
    lemma_push_leaf(Seq::empty(), fits(d, o, 1), b0, hi);
    let c0 = push_if(Seq::empty(), fits(d, o, 1), b0);
    let b1 = leaf_m("Canvas width: "@ + dec((u24at(d, o + 4, true) + 1) as nat), rng(o + 4, o + 7));
    lemma_push_leaf(c0, fits(d, o + 4, 3), b1, hi);
    let c1 = push_if(c0, fits(d, o + 4, 3), b1);
    let b2 = leaf_m("Canvas height: "@ + dec((u24at(d, o + 7, true) + 1) as nat), rng(o + 7, o + 10));
    lemma_push_leaf(c1, fits(d, o + 7, 3), b2, hi);
}

proof fn lemma_chunk_tree(d: Seq<u8>, o: int, id: Seq<char>)
    requires
        input_ok(d),
        fits(d, o, 8),
    ensures
        tree_ok(chunk_with_id_s(d, o, id)),
{
    let size = u32at(d, o + 4, true) as int;
    let ds = o + 8;
    let de = ds + imin(size, d.len() - ds);
    let hi = d.len() as int;
    let header = Seq::empty()
        .push(leaf_m("Chunk ID: "@ + id, rng(o, o + 4)))
        .push(leaf_m("Chunk size: "@ + dec(size as nat), rng(o + 4, o + 8)));
    assert(leaves_in(header, hi));
    if id == "VP8X"@ {
        lemma_vp8x_leaves(d, ds);
        let f = vp8x_fields_s(d, ds);
        let c = header + f;
        assert forall|i: int| 0 <= i < c.len() implies 0 <= (#[trigger] c[i]).range.start <= c[i].range.end <= hi
            && c[i].children.len() == 0 by {
            if i < header.len() {
                assert(c[i] == header[i]);
            } else {
                assert(c[i] == f[i - header.len()]);
            }
        }
    } else {
        lemma_push_leaf(header, de > ds, leaf_m(data_label_s(id), rng(ds, de)), hi);
    }
    lemma_flat_tree_ok(chunk_with_id_s(d, o, id));
}

proof fn lemma_walk_tree(d: Seq<u8>, o: int, acc: Seq<BlockModel>)
    requires
        input_ok(d),
        all_tree_ok(acc),
    ensures
        all_tree_ok(chunk_walk(d, o, acc)),
    decreases d.len() - o,
{
    reveal(chunk_s);
    if let Some(b) = chunk_s(d, o) {
        lemma_chunk_tree(d, o, utf8_lossy(d.subrange(o, o + 4)));
        lemma_push_tree(acc, b);
        if o < b.range.end <= d.len() {
            lemma_walk_tree(d, b.range.end as int, acc.push(b));
        }
    }
}

/// Every block of a WebP file runs forwards, and every leaf has no children.
pub proof fn lemma_webp_trees(d: Seq<u8>)
    requires
        input_ok(d),
    ensures
        all_tree_ok(WebpDissector.spec_dissect(d)),
{
    if d.len() >= 12 {
        let h = riff_header_s(d);
        lemma_flat_tree_ok(h);
        let s0 = seq![h];
        assert(all_tree_ok(s0));
        lemma_walk_tree(d, 12, s0);
    }
}

impl Dissector for WebpDissector {
    open spec fn spec_name(&self) -> Seq<char> {
        "WebP"@
    }

    open spec fn spec_matches(&self, data: Seq<u8>) -> bool {
        has_at(data, 0, seq![0x52u8, 0x49u8, 0x46u8, 0x46u8]) && has_at(data, 8, seq![0x57u8, 0x45u8, 0x42u8, 0x50u8])
    }

    open spec fn spec_dissect(&self, data: Seq<u8>) -> Seq<BlockModel> {
        webp_s(data)
    }

    fn name(&self) -> (r: &'static str) {
        "WebP"
    }

    fn matches(&self, data: &[u8]) -> (r: bool) {
        let riff: [u8; 4] = [0x52, 0x49, 0x46, 0x46];
        let webp: [u8; 4] = [0x57, 0x45, 0x42, 0x50];
        assert(riff@ =~= seq![0x52u8, 0x49u8, 0x46u8, 0x46u8]);
        assert(webp@ =~= seq![0x57u8, 0x45u8, 0x42u8, 0x50u8]);
        bytes_at(data, 0, &riff) && bytes_at(data, 8, &webp)
    }

    fn dissect(&self, data: &[u8]) -> (r: Vec<Block>) {
        let mut blocks = no_blocks();
        if data.len() < 12 {
            return blocks;
        }
        push_block(&mut blocks, riff_header_block(data));
        let mut offset: u64 = 12;
        let ghost d = data@;
        loop
            invariant
                d == data@,
                input_ok(d),
                offset <= d.len(),
                webp_s(d) == chunk_walk(d, offset as int, models(blocks@)),
            ensures
                webp_s(d) == models(blocks@),
            decreases d.len() - offset,
        {
            match chunk_block(data, offset) {
                Some(c) => {
                    let end = c.range.end;
                    push_block(&mut blocks, c);
                    offset = end;
                },
                None => break,
            }
        }
        blocks
    }
}

} // verus!
