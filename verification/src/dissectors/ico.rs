//! ICO and CUR files: the ICONDIR header, its entries and the images they point to.

use vstd::prelude::*;
use super::png::png_signature;
use super::{
    Block, BlockModel, ByteRange, Dissector, all_tree_ok, input_ok, lemma_flat_tree_ok, lemma_push_tree,
    leaf_m, models, no_blocks, node_m, push_block, rng, tree_ok,
};
use crate::bytes::{
    as_i32, avail, bytes_at, fits, has_at, idx, imin, min_u64, read_u16, read_u32, u16at, u32at,
};
use crate::text::{
    dec, label_i32, label_str, label_u16, label_u32, label_u64, label_u64_wrap, label_u8, lit,
    push_str, push_u16, sdec,
};
verus! {

pub struct IcoDissector;

pub open spec fn image_type_name_s(v: u16) -> Seq<char> {
    if v == 1 {
        "ICO"@
    } else if v == 2 {
        "CUR"@
    } else {
        "unknown"@
    }
}

pub fn image_type_name(value: u16) -> (r: &'static str)
    ensures
        r@ == image_type_name_s(value),
{
    if value == 1 {
        "ICO"
    } else if value == 2 {
        "CUR"
    } else {
        "unknown"
    }
}

/// The six-byte ICONDIR header.
pub open spec fn icondir_s(image_type: u16, count: u16) -> BlockModel {
    node_m(
        "ICONDIR header"@,
        rng(0, 6),
        Seq::empty()
            .push(leaf_m("Reserved"@, rng(0, 2)))
            .push(leaf_m("Type: "@ + dec(image_type as nat) + " ("@ + image_type_name_s(image_type) + ")"@, rng(2, 4)))
            .push(leaf_m("Image count: "@ + dec(count as nat), rng(4, 6))),
    ).expand()
}

fn icondir_block(image_type: u16, count: u16) -> (b: Block)
    ensures
        b@ == icondir_s(image_type, count),
{
    let mut ch = no_blocks();
    push_block(&mut ch, Block::leaf(lit("Reserved"), ByteRange::new(0, 2)));
    let mut t = label_u16("Type: ", image_type);
    push_str(&mut t, " (");
    push_str(&mut t, image_type_name(image_type));
    push_str(&mut t, ")");
    push_block(&mut ch, Block::leaf(t, ByteRange::new(2, 4)));
    push_block(&mut ch, Block::leaf(label_u16("Image count: ", count), ByteRange::new(4, 6)));
    Block::node(lit("ICONDIR header"), ByteRange::new(0, 6), ch).expanded()
}

/// The BITMAPINFOHEADER of an embedded DIB image at `o`, if it declares
/// 40 bytes and they lie within `d`; its span is cut at `data_end`.
pub open spec fn dib_header_s(d: Seq<u8>, o: int, data_end: int) -> Option<BlockModel> {
    if !fits(d, o, 4) || u32at(d, o, true) != 40 || d.len() < o + 40 {
        None
    } else {
        Some(node_m(
            "DIB header"@,
            rng(o, imin(o + 40, data_end)),
            Seq::empty()
                .push(leaf_m("Header size: 40"@, rng(o, o + 4)))
                .push(leaf_m("Width: "@ + sdec(as_i32(u32at(d, o + 4, true))), rng(o + 4, o + 8)))
                .push(leaf_m("Height (combined XOR+AND masks): "@ + sdec(as_i32(u32at(d, o + 8, true))), rng(o + 8, o + 12)))
                .push(leaf_m("Planes: "@ + dec(u16at(d, o + 12, true) as nat), rng(o + 12, o + 14)))
                .push(leaf_m("Bits per pixel: "@ + dec(u16at(d, o + 14, true) as nat), rng(o + 14, o + 16)))
                .push(leaf_m("Compression: "@ + dec(u32at(d, o + 16, true) as nat), rng(o + 16, o + 20)))
                .push(leaf_m("Image size: "@ + dec(u32at(d, o + 20, true) as nat), rng(o + 20, o + 24))),
        ))
    }
}

fn dib_header_block(data: &[u8], offset: u64, data_end: u64) -> (r: Option<Block>)
    requires
        offset <= 0xffff_ffff,
    ensures
        r matches Some(b) ==> dib_header_s(data@, offset as int, data_end as int) == Some(b@),
        r is None ==> dib_header_s(data@, offset as int, data_end as int) is None,
{
    let header_size = match read_u32(data, offset, true) {
        Some(v) => v,
        None => return None,
    };
    if header_size != 40 || !avail(data, offset, 40) {
        return None;
    }
    let o = offset;
    let end = min_u64(o + 40, data_end);
    let width = read_u32(data, o + 4, true).unwrap();
    let height = read_u32(data, o + 8, true).unwrap();
    let planes = read_u16(data, o + 12, true).unwrap();
    let bpp = read_u16(data, o + 14, true).unwrap();
    let compression = read_u32(data, o + 16, true).unwrap();
    let image_size = read_u32(data, o + 20, true).unwrap();
    let mut ch = no_blocks();
    push_block(&mut ch, Block::leaf(lit("Header size: 40"), ByteRange::new(o, o + 4)));
    push_block(&mut ch, Block::leaf(label_i32("Width: ", width), ByteRange::new(o + 4, o + 8)));
    push_block(&mut ch, Block::leaf(label_i32("Height (combined XOR+AND masks): ", height), ByteRange::new(o + 8, o + 12)));
    push_block(&mut ch, Block::leaf(label_u16("Planes: ", planes), ByteRange::new(o + 12, o + 14)));
    push_block(&mut ch, Block::leaf(label_u16("Bits per pixel: ", bpp), ByteRange::new(o + 14, o + 16)));
    push_block(&mut ch, Block::leaf(label_u32("Compression: ", compression), ByteRange::new(o + 16, o + 20)));
    push_block(&mut ch, Block::leaf(label_u32("Image size: ", image_size), ByteRange::new(o + 20, o + 24)));
    Some(Block::node(lit("DIB header"), ByteRange::new(o, end), ch))
}

/// The image an entry points to: none when it is empty or starts past the
/// end of `d`; otherwise a PNG image, a DIB image with its header, or raw data.
pub open spec fn image_data_s(d: Seq<u8>, o: int, size: int) -> Option<BlockModel> {
    if size == 0 || o >= d.len() {
        None
    } else {
        let end = imin(o + size, d.len() as int);
        if has_at(d, o, png_signature()) {
            Some(leaf_m("Image data: PNG image ("@ + dec(size as nat) + " bytes)"@, rng(o, end)))
        } else {
            match dib_header_s(d, o, end) {
                Some(b) => Some(node_m("Image data: DIB image ("@ + dec(size as nat) + " bytes)"@, rng(o, end), seq![b])),
                None => Some(leaf_m("Image data ("@ + dec(size as nat) + " bytes)"@, rng(o, end))),
            }
        }
    }
}

fn image_data_block(data: &[u8], offset: u64, size: u64) -> (r: Option<Block>)
    requires
        offset <= 0xffff_ffff,
        size <= 0xffff_ffff,
    ensures
        r matches Some(b) ==> image_data_s(data@, offset as int, size as int) == Some(b@),
        r is None ==> image_data_s(data@, offset as int, size as int) is None,
{
    let data_len = data.len() as u64;
    if size == 0 || offset >= data_len {
        return None;
    }
    let end = min_u64(offset + size, data_len);
    let magic: [u8; 8] = [0x89, 0x50, 0x4e, 0x47, 0x0d, 0x0a, 0x1a, 0x0a];
    assert(magic@ =~= png_signature());
    if bytes_at(data, offset, &magic) {
        return Some(Block::leaf(label_u64_wrap("Image data: PNG image (", size, " bytes)"), ByteRange::new(offset, end)));
    }
    match dib_header_block(data, offset, end) {
        Some(dib) => {
            let mut ch = no_blocks();
            push_block(&mut ch, dib);
            Some(Block::node(label_u64_wrap("Image data: DIB image (", size, " bytes)"), ByteRange::new(offset, end), ch))
        },
        None => Some(Block::leaf(label_u64_wrap("Image data (", size, " bytes)"), ByteRange::new(offset, end))),
    }
}

/// A width or height byte as displayed: zero stands for 256.
pub open spec fn dimension_s(v: u8) -> nat {
    if v == 0 { 256 } else { v as nat }
}

/// Directory entry number `index` at `o`; fields 3 and 4 are the hotspot
/// of a cursor (type 2) and planes and bit count otherwise.
#[verifier::opaque]
pub open spec fn entry_s(d: Seq<u8>, o: int, index: nat, image_type: u16) -> BlockModel {
    let f3 = if image_type == 2 { "Hotspot X"@ } else { "Planes"@ };
    let f4 = if image_type == 2 { "Hotspot Y"@ } else { "Bit count"@ };
    let size = u32at(d, o + 8, true);
    let image_offset = u32at(d, o + 12, true);
    let c = Seq::empty()
        .push(leaf_m("Width: "@ + dec(dimension_s(d[o])), rng(o, o + 1)))
        .push(leaf_m("Height: "@ + dec(dimension_s(d[o + 1])), rng(o + 1, o + 2)))
        .push(leaf_m("Color count: "@ + dec(d[o + 2] as nat), rng(o + 2, o + 3)))
        .push(leaf_m("Reserved"@, rng(o + 3, o + 4)))
        .push(leaf_m(f3 + ": "@ + dec(u16at(d, o + 4, true) as nat), rng(o + 4, o + 6)))
        .push(leaf_m(f4 + ": "@ + dec(u16at(d, o + 6, true) as nat), rng(o + 6, o + 8)))
        .push(leaf_m("Bytes in resource: "@ + dec(size as nat), rng(o + 8, o + 12)))
        .push(leaf_m("Image offset: "@ + dec(image_offset as nat), rng(o + 12, o + 16)));
    let c2 = match image_data_s(d, image_offset as int, size as int) {
        Some(b) => c.push(b),
        None => c,
    };
    node_m("ICONDIRENTRY["@ + dec(index) + "]"@, rng(o, o + 16), c2).expand_if(index == 0)
}

fn icondirentry_block(data: &[u8], offset: u64, index: u64, image_type: u16) -> (b: Block)
    requires
        fits(data@, offset as int, 16),
    ensures
        b@ == entry_s(data@, offset as int, index as nat, image_type),
{
    reveal(entry_s);
    let o = offset;
    let width = data[idx(data, o)];
    let height = data[idx(data, o + 1)];
    let color_count = data[idx(data, o + 2)];
    let field3 = read_u16(data, o + 4, true).unwrap();
    let field4 = read_u16(data, o + 6, true).unwrap();
    let size = read_u32(data, o + 8, true).unwrap();
    let image_offset = read_u32(data, o + 12, true).unwrap();
    let wd: u64 = if width == 0 { 256 } else { width as u64 };
    let hd: u64 = if height == 0 { 256 } else { height as u64 };
    let (f3, f4) = if image_type == 2 { ("Hotspot X", "Hotspot Y") } else { ("Planes", "Bit count") };
    let mut ch = no_blocks();
    push_block(&mut ch, Block::leaf(label_u64("Width: ", wd), ByteRange::new(o, o + 1)));
    push_block(&mut ch, Block::leaf(label_u64("Height: ", hd), ByteRange::new(o + 1, o + 2)));
    push_block(&mut ch, Block::leaf(label_u8("Color count: ", color_count), ByteRange::new(o + 2, o + 3)));
    push_block(&mut ch, Block::leaf(lit("Reserved"), ByteRange::new(o + 3, o + 4)));
    let mut l3 = label_str(f3, ": ");
    push_u16(&mut l3, field3);
    push_block(&mut ch, Block::leaf(l3, ByteRange::new(o + 4, o + 6)));
    let mut l4 = label_str(f4, ": ");
    push_u16(&mut l4, field4);
    push_block(&mut ch, Block::leaf(l4, ByteRange::new(o + 6, o + 8)));
    push_block(&mut ch, Block::leaf(label_u32("Bytes in resource: ", size), ByteRange::new(o + 8, o + 12)));
    push_block(&mut ch, Block::leaf(label_u32("Image offset: ", image_offset), ByteRange::new(o + 12, o + 16)));
    match image_data_block(data, image_offset as u64, size as u64) {
        Some(b) => push_block(&mut ch, b),
        None => {},
    }
    let title = label_u64_wrap("ICONDIRENTRY[", index, "]");
    Block::node(title, ByteRange::new(o, o + 16), ch).expanded_if(index == 0)
}

/// Directory entries `i..n`, appended to `acc`, up to the first that does not fit.
pub open spec fn entries_s(d: Seq<u8>, image_type: u16, n: nat, i: nat, acc: Seq<BlockModel>) -> Seq<BlockModel>
    decreases n - i,
{
    if i >= n || d.len() < 6 + 16 * i + 16 {
        acc
    } else {
        entries_s(d, image_type, n, i + 1, acc.push(entry_s(d, (6 + 16 * i) as int, i, image_type)))
    }
}

/// An ICO or CUR file: nothing below six bytes; otherwise the ICONDIR header and its entries.
pub open spec fn ico_s(d: Seq<u8>) -> Seq<BlockModel> {
    if d.len() < 6 {
        Seq::empty()
    } else {
        let image_type = u16at(d, 2, true);
        let count = u16at(d, 4, true);
        entries_s(d, image_type, count as nat, 0, seq![icondir_s(image_type, count)])
    }
}

proof fn lemma_image_tree(d: Seq<u8>, o: int, size: int)
    requires
        input_ok(d),
        0 <= o,
        0 <= size,
    ensures
        image_data_s(d, o, size) matches Some(b) ==> tree_ok(b),
{
    if size != 0 && o < d.len() {
        let end = imin(o + size, d.len() as int);
        if !has_at(d, o, png_signature()) {
            if let Some(h) = dib_header_s(d, o, end) {
                lemma_flat_tree_ok(h);
                let b = node_m("Image data: DIB image ("@ + dec(size as nat) + " bytes)"@, rng(o, end), seq![h]);
                assert(b.children[0] == h);
                assert(tree_ok(b));
            }
        }
    }
}

proof fn lemma_entries_tree(d: Seq<u8>, image_type: u16, n: nat, i: nat, acc: Seq<BlockModel>)
    requires
        input_ok(d),
        all_tree_ok(acc),
    ensures
        all_tree_ok(entries_s(d, image_type, n, i, acc)),
    decreases n - i,
{
    if !(i >= n || d.len() < 6 + 16 * i + 16) {
        reveal(entry_s);
        let o = (6 + 16 * i) as int;
        let b = entry_s(d, o, i, image_type);
        let size = u32at(d, o + 8, true);
        let image_offset = u32at(d, o + 12, true);
        lemma_image_tree(d, image_offset as int, size as int);
        assert forall|j: int| 0 <= j < b.children.len() implies tree_ok(#[trigger] b.children[j]) by {
            if j < 8 {
                assert(b.children[j].children.len() == 0);
            }
        }
        assert(tree_ok(b));
        lemma_push_tree(acc, b);
        lemma_entries_tree(d, image_type, n, i + 1, acc.push(b));
    }
}

/// Every block of an icon file runs forwards, and every leaf has no
/// children. (Blocks need not nest: each entry holds the image it points
/// to, which lies elsewhere in the file.)
pub proof fn lemma_ico_trees(d: Seq<u8>)
    requires
        input_ok(d),
    ensures
        all_tree_ok(IcoDissector.spec_dissect(d)),
{
    if d.len() >= 6 {
        let image_type = u16at(d, 2, true);
        let count = u16at(d, 4, true);
        let h = icondir_s(image_type, count);
        lemma_flat_tree_ok(h);
        let s0 = seq![h];
        assert(all_tree_ok(s0));
        lemma_entries_tree(d, image_type, count as nat, 0, s0);
    }
}

impl Dissector for IcoDissector {
    open spec fn spec_name(&self) -> Seq<char> {
        "ICO"@
    }

    open spec fn spec_matches(&self, data: Seq<u8>) -> bool {
        data.len() >= 6 && data[0] == 0 && data[1] == 0 && ((data[2] == 1 || data[2] == 2) && data[3] == 0)
    }

    open spec fn spec_dissect(&self, data: Seq<u8>) -> Seq<BlockModel> {
        ico_s(data)
    }

    fn name(&self) -> (r: &'static str) {
        "ICO"
    }

    fn matches(&self, data: &[u8]) -> (r: bool) {
        data.len() >= 6 && data[0] == 0 && data[1] == 0 && ((data[2] == 1 || data[2] == 2) && data[3] == 0)
    }

    fn dissect(&self, data: &[u8]) -> (r: Vec<Block>) {
        let mut blocks = no_blocks();
        if data.len() < 6 {
            return blocks;
        }
        let image_type = read_u16(data, 2, true).unwrap();
        let count = read_u16(data, 4, true).unwrap();
        push_block(&mut blocks, icondir_block(image_type, count));
        let ghost d = data@;
        let ghost s0 = models(blocks@);
        let data_len = data.len() as u64;
        let mut i: u16 = 0;
        while i < count
            invariant_except_break
                entries_s(d, image_type, count as nat, 0, s0) == entries_s(d, image_type, count as nat, i as nat, models(blocks@)),
            invariant
                d == data@,
                data_len == d.len(),
                i <= count,
            ensures
                entries_s(d, image_type, count as nat, 0, s0) == models(blocks@),
            decreases count - i,
        {
            let offset = 6 + 16 * i as u64;
            if data_len < offset + 16 {
                break;
            }
            push_block(&mut blocks, icondirentry_block(data, offset, i as u64, image_type));
            i = i + 1;
        }
        blocks
    }
}

} // verus!
