//! GIF images: header, logical screen descriptor, color tables, extensions and image descriptors.

use vstd::prelude::*;
use vstd::arithmetic::power2::{lemma2_to64, lemma_pow2_strictly_increases, lemma_pow2_unfold, pow2};
use super::{
    Block, BlockModel, ByteRange, Dissector, all_nest, append_blocks, input_ok, leaf_m, models,
    nests, no_blocks, node_m, push_block, push_if, rng, within,
};
use crate::bytes::{avail, bytes_at, fits, has_at, idx, read_u16, read_u8, u16at};
use crate::text::{
    alt_hex, bool_text, dec, label_bool, label_hex8, label_str, label_u16, label_u64,
    label_u64_wrap, label_u8, lit,
};
verus! {

pub struct GifDissector;

pub const EXTENSION_INTRODUCER: u8 = 0x21;
pub const IMAGE_DESCRIPTOR_INTRODUCER: u8 = 0x2c;
pub const TRAILER: u8 = 0x3b;

/// The number of entries of a color table whose size field is `k`: `2 << k`.
pub fn color_table_entries(k: u8) -> (r: u64)
    requires
        k < 32,
    ensures
        r == pow2(k as nat + 1),
        r <= 0x1_0000_0000,
{
    proof { lemma2_to64(); }
    let mut r: u64 = 2;
    let mut i: u8 = 0;
    while i < k
        invariant
            i <= k < 32,
            r == pow2(i as nat + 1),
            pow2(32) == 0x1_0000_0000,
        decreases k - i,
    {
        proof {
            lemma_pow2_unfold(i as nat + 2);
            lemma_pow2_strictly_increases(i as nat + 1, 32);
        }
        r = r * 2;
        i = i + 1;
    }
    proof {
        if k < 31 {
            lemma_pow2_strictly_increases(k as nat + 1, 32);
        }
    }
    r
}

/// The logical screen descriptor at `o`, if its seven bytes lie within `d`.
pub open spec fn lsd_s(d: Seq<u8>, o: int) -> Option<BlockModel> {
    if !fits(d, o, 7) {
        None
    } else {
        let packed = d[o + 4];
        Some(node_m(
            "Logical screen descriptor"@,
            rng(o, o + 7),
            Seq::empty()
                .push(leaf_m("Canvas width: "@ + dec(u16at(d, o, true) as nat), rng(o, o + 2)))
                .push(leaf_m("Canvas height: "@ + dec(u16at(d, o + 2, true) as nat), rng(o + 2, o + 4)))
                .push(leaf_m("Global color table flag: "@ + bool_text(packed & 0x80u8 != 0), rng(o + 4, o + 5)))
                .push(leaf_m("Color resolution: "@ + dec(((packed >> 4u8) & 7u8) as nat), rng(o + 4, o + 5)))
                .push(leaf_m("Sort flag: "@ + bool_text(packed & 0x08u8 != 0), rng(o + 4, o + 5)))
                .push(leaf_m("Size of global color table: "@ + dec(pow2((packed & 7u8) as nat + 1)), rng(o + 4, o + 5)))
                .push(leaf_m("Background color index: "@ + dec(d[o + 5] as nat), rng(o + 5, o + 6)))
                .push(leaf_m("Pixel aspect ratio: "@ + dec(d[o + 6] as nat), rng(o + 6, o + 7))),
        ).expand())
    }
}

fn logical_screen_descriptor_block(data: &[u8], offset: u64) -> (r: Option<Block>)
    requires
        offset <= 6,
    ensures
        r matches Some(b) ==> lsd_s(data@, offset as int) == Some(b@),
        r is None ==> lsd_s(data@, offset as int) is None,
{
    if !avail(data, offset, 7) {
        return None;
    }
    let o = offset;
    let width = read_u16(data, o, true).unwrap();
    let height = read_u16(data, o + 2, true).unwrap();
    let packed = data[idx(data, o + 4)];
    let background = data[idx(data, o + 5)];
    let aspect = data[idx(data, o + 6)];
    assert(packed & 7u8 < 32u8) by (bit_vector);
    let entries = color_table_entries(packed & 7u8);
    let mut ch = no_blocks();
    push_block(&mut ch, Block::leaf(label_u16("Canvas width: ", width), ByteRange::new(o, o + 2)));
    push_block(&mut ch, Block::leaf(label_u16("Canvas height: ", height), ByteRange::new(o + 2, o + 4)));
    push_block(&mut ch, Block::leaf(label_bool("Global color table flag: ", packed & 0x80u8 != 0), ByteRange::new(o + 4, o + 5)));
    push_block(&mut ch, Block::leaf(label_u8("Color resolution: ", (packed >> 4u8) & 7u8), ByteRange::new(o + 4, o + 5)));
    push_block(&mut ch, Block::leaf(label_bool("Sort flag: ", packed & 0x08u8 != 0), ByteRange::new(o + 4, o + 5)));
    push_block(&mut ch, Block::leaf(label_u64("Size of global color table: ", entries), ByteRange::new(o + 4, o + 5)));
    push_block(&mut ch, Block::leaf(label_u8("Background color index: ", background), ByteRange::new(o + 5, o + 6)));
    push_block(&mut ch, Block::leaf(label_u8("Pixel aspect ratio: ", aspect), ByteRange::new(o + 6, o + 7)));
    Some(Block::node(lit("Logical screen descriptor"), ByteRange::new(o, o + 7), ch).expanded())
}

pub open spec fn extension_label_name_s(label: u8) -> Seq<char> {
    if label == 0xf9 {
        "Graphic Control Extension"@
    } else if label == 0xfe {
        "Comment Extension"@
    } else if label == 0x01 {
        "Plain Text Extension"@
    } else if label == 0xff {
        "Application Extension"@
    } else {
        "Unknown Extension"@
    }
}

pub fn extension_label_name(label: u8) -> (r: &'static str)
    ensures
        r@ == extension_label_name_s(label),
{
    if label == 0xf9 {
        "Graphic Control Extension"
    } else if label == 0xfe {
        "Comment Extension"
    } else if label == 0x01 {
        "Plain Text Extension"
    } else if label == 0xff {
        "Application Extension"
    } else {
        "Unknown Extension"
    }
}

/// The size-prefixed sub-blocks from `pos` on, appended to `acc`, and the
/// offset after the terminating zero size; none when the data ends first.
pub open spec fn sub_blocks_s(d: Seq<u8>, pos: int, acc: Seq<BlockModel>) -> Option<(Seq<BlockModel>, int)>
    decreases d.len() - pos,
{
    if !(0 <= pos < d.len()) {
        None
    } else if d[pos] == 0 {
        Some((acc, pos + 1))
    } else {
        let de = pos + 1 + d[pos];
        if de > d.len() {
            None
        } else {
            sub_blocks_s(d, de, acc.push(leaf_m("Sub-block ("@ + dec(d[pos] as nat) + " bytes)"@, rng(pos, de))))
        }
    }
}

pub fn sub_blocks(data: &[u8], offset: u64) -> (r: Option<(Vec<Block>, u64)>)
    requires
        input_ok(data@),
    ensures
        r matches Some((v, e)) ==> sub_blocks_s(data@, offset as int, Seq::empty()) == Some((models(v@), e as int))
            && offset < e <= data@.len(),
        r is None ==> sub_blocks_s(data@, offset as int, Seq::empty()) is None,
{
    let mut children = no_blocks();
    let mut pos = offset;
    let ghost d = data@;
    let data_len = data.len() as u64;
    loop
        invariant
            d == data@,
            input_ok(d),
            data_len == d.len(),
            offset <= pos,
            pos == offset || pos <= d.len(),
            sub_blocks_s(d, offset as int, Seq::empty()) == sub_blocks_s(d, pos as int, models(children@)),
        decreases data_len - pos,
    {
        if pos >= data_len {
            return None;
        }
        let size = data[idx(data, pos)];
        if size == 0 {
            return Some((children, pos + 1));
        }
        let data_end = pos + 1 + size as u64;
        if data_end > data_len {
            return None;
        }
        push_block(&mut children, Block::leaf(label_u64_wrap("Sub-block (", size as u64, " bytes)"), ByteRange::new(pos, data_end)));
        pos = data_end;
    }
}

/// An extension at `o`: introducer, label and sub-blocks.
pub open spec fn extension_s(d: Seq<u8>, o: int) -> Option<BlockModel> {
    if !fits(d, o + 1, 1) {
        None
    } else {
        let label = d[o + 1];
        let c = Seq::empty()
            .push(leaf_m("Introducer"@, rng(o, o + 1)))
            .push(leaf_m("Label: "@ + alt_hex(label as nat, 4), rng(o + 1, o + 2)));
        match sub_blocks_s(d, o + 2, Seq::empty()) {
            Some((subs, end)) => Some(node_m("Extension: "@ + extension_label_name_s(label), rng(o, end), c + subs)),
            None => None,
        }
    }
}

fn extension_block(data: &[u8], offset: u64) -> (r: Option<Block>)
    requires
        input_ok(data@),
        offset < data@.len(),
    ensures
        r matches Some(b) ==> extension_s(data@, offset as int) == Some(b@) && offset < b@.range.end <= data@.len(),
        r is None ==> extension_s(data@, offset as int) is None,
{
    let label = match read_u8(data, offset + 1) {
        Some(v) => v,
        None => return None,
    };
    let mut ch = no_blocks();
    push_block(&mut ch, Block::leaf(lit("Introducer"), ByteRange::new(offset, offset + 1)));
    push_block(&mut ch, Block::leaf(label_hex8("Label: ", label, 4), ByteRange::new(offset + 1, offset + 2)));
    match sub_blocks(data, offset + 2) {
        Some((subs, end)) => {
            append_blocks(&mut ch, subs);
            let title = label_str("Extension: ", extension_label_name(label));
            Some(Block::node(title, ByteRange::new(offset, end), ch))
        },
        None => None,
    }
}

/// An image descriptor at `o`: its ten fixed bytes, the local color table
/// when flagged, the LZW minimum code size and the image data sub-blocks.
#[verifier::opaque]
pub open spec fn image_s(d: Seq<u8>, o: int) -> Option<BlockModel> {
    if !fits(d, o, 10) {
        None
    } else {
        let packed = d[o + 9];
        let local_flag = packed & 0x80u8 != 0;
        let entries = pow2((packed & 0x1fu8) as nat + 1);
        let c0 = Seq::empty()
            .push(leaf_m("Introducer"@, rng(o, o + 1)))
            .push(leaf_m("Image left: "@ + dec(u16at(d, o + 1, true) as nat), rng(o + 1, o + 3)))
            .push(leaf_m("Image top: "@ + dec(u16at(d, o + 3, true) as nat), rng(o + 3, o + 5)))
            .push(leaf_m("Image width: "@ + dec(u16at(d, o + 5, true) as nat), rng(o + 5, o + 7)))
            .push(leaf_m("Image height: "@ + dec(u16at(d, o + 7, true) as nat), rng(o + 7, o + 9)))
            .push(leaf_m("Local color table flag: "@ + bool_text(local_flag), rng(o + 9, o + 10)))
            .push(leaf_m("Interlace flag: "@ + bool_text(packed & 0x40u8 != 0), rng(o + 9, o + 10)));
        let table_end = o + 10 + entries * 3;
        if local_flag && table_end > d.len() {
            None
        } else {
            let c1 = push_if(c0, local_flag,
                leaf_m("Local color table ("@ + dec(entries) + " entries)"@, rng(o + 10, table_end)));
            let pos = if local_flag { table_end } else { o + 10 };
            if !fits(d, pos, 1) {
                None
            } else {
                let c2 = c1.push(leaf_m("LZW minimum code size: "@ + dec(d[pos] as nat), rng(pos, pos + 1)));
                match sub_blocks_s(d, pos + 1, Seq::empty()) {
                    Some((subs, end)) => Some(node_m(
                        "Image descriptor"@,
                        rng(o, end),
                        c2.push(node_m("Image data"@, rng(pos + 1, end), subs)),
                    )),
                    None => None,
                }
            }
        }
    }
}

fn image_descriptor_block(data: &[u8], offset: u64) -> (r: Option<Block>)
    requires
        input_ok(data@),
    ensures
        r matches Some(b) ==> image_s(data@, offset as int) == Some(b@) && offset < b@.range.end <= data@.len(),
        r is None ==> image_s(data@, offset as int) is None,
{
    reveal(image_s);
    if !avail(data, offset, 10) {
        return None;
    }
    let o = offset;
    let left = read_u16(data, o + 1, true).unwrap();
    let top = read_u16(data, o + 3, true).unwrap();
    let width = read_u16(data, o + 5, true).unwrap();
    let height = read_u16(data, o + 7, true).unwrap();
    let packed = data[idx(data, o + 9)];
    let local_flag = packed & 0x80u8 != 0;
    assert(packed & 0x1fu8 < 32u8) by (bit_vector);
    let entries = color_table_entries(packed & 0x1fu8);
    let mut ch = no_blocks();
    push_block(&mut ch, Block::leaf(lit("Introducer"), ByteRange::new(o, o + 1)));
    push_block(&mut ch, Block::leaf(label_u16("Image left: ", left), ByteRange::new(o + 1, o + 3)));
    push_block(&mut ch, Block::leaf(label_u16("Image top: ", top), ByteRange::new(o + 3, o + 5)));
    push_block(&mut ch, Block::leaf(label_u16("Image width: ", width), ByteRange::new(o + 5, o + 7)));
    push_block(&mut ch, Block::leaf(label_u16("Image height: ", height), ByteRange::new(o + 7, o + 9)));
    push_block(&mut ch, Block::leaf(label_bool("Local color table flag: ", local_flag), ByteRange::new(o + 9, o + 10)));
    push_block(&mut ch, Block::leaf(label_bool("Interlace flag: ", packed & 0x40u8 != 0), ByteRange::new(o + 9, o + 10)));
    let mut pos = o + 10;
    if local_flag {
        let table_end = pos + entries * 3;
        if table_end > data.len() as u64 {
            return None;
        }
        push_block(&mut ch, Block::leaf(label_u64_wrap("Local color table (", entries, " entries)"), ByteRange::new(pos, table_end)));
        pos = table_end;
    }
    let lzw = match read_u8(data, pos) {
        Some(v) => v,
        None => return None,
    };
    push_block(&mut ch, Block::leaf(label_u8("LZW minimum code size: ", lzw), ByteRange::new(pos, pos + 1)));
    pos = pos + 1;
    match sub_blocks(data, pos) {
        Some((subs, end)) => {
            push_block(&mut ch, Block::node(lit("Image data"), ByteRange::new(pos, end), subs));
            Some(Block::node(lit("Image descriptor"), ByteRange::new(offset, end), ch))
        },
        None => None,
    }
}

/// Extensions and image descriptors from `o` on, appended to `acc`, up to
/// the trailer (included) or the first byte that starts neither.
pub open spec fn gif_walk(d: Seq<u8>, o: int, acc: Seq<BlockModel>) -> Seq<BlockModel>
    decreases d.len() - o,
{
    if !(0 <= o < d.len()) {
        acc
    } else if d[o] == EXTENSION_INTRODUCER {
        match extension_s(d, o) {
            Some(b) => if o < b.range.end <= d.len() { gif_walk(d, b.range.end as int, acc.push(b)) } else { acc.push(b) },
            None => acc,
        }
    } else if d[o] == IMAGE_DESCRIPTOR_INTRODUCER {
        match image_s(d, o) {
            Some(b) => if o < b.range.end <= d.len() { gif_walk(d, b.range.end as int, acc.push(b)) } else { acc.push(b) },
            None => acc,
        }
    } else if d[o] == TRAILER {
        acc.push(leaf_m("Trailer"@, rng(o, o + 1)))
    } else {
        acc
    }
}

/// A GIF file: nothing below six bytes; the header; then, when the logical
/// screen descriptor is complete, it, the global color table when flagged
/// (the dissection stops when the table is cut short), and the block walk.
pub open spec fn gif_s(d: Seq<u8>) -> Seq<BlockModel> {
    if d.len() < 6 {
        Seq::empty()
    } else {
        let s0 = seq![leaf_m("Header"@, rng(0, 6))];
        match lsd_s(d, 6) {
            None => s0,
            Some(l) => {
                let s1 = s0.push(l);
                let packed = d[10];
                let entries = pow2((packed & 7u8) as nat + 1);
                if packed & 0x80u8 != 0 {
                    let table_end = 13 + (entries * 3) as int;
                    if table_end > d.len() {
                        s1
                    } else {
                        gif_walk(d, table_end, s1.push(
                            leaf_m("Global color table ("@ + dec(entries) + " entries)"@, rng(13, table_end)),
                        ))
                    }
                } else {
                    gif_walk(d, 13, s1)
                }
            },
        }
    }
}

/// The sub-blocks found from `pos` on are leaves between `pos` and the
/// offset after the terminator, which lies within `d`.
proof fn lemma_sub_blocks_within(d: Seq<u8>, pos: int, acc: Seq<BlockModel>)
    requires
        input_ok(d),
        0 <= pos,
    ensures
        sub_blocks_s(d, pos, acc) matches Some((subs, end)) ==> {
            &&& pos < end <= d.len()
            &&& acc.len() <= subs.len()
            &&& forall|i: int| 0 <= i < acc.len() ==> subs[i] == acc[i]
            &&& forall|i: int| acc.len() <= i < subs.len() ==> pos <= (#[trigger] subs[i]).range.start
                <= subs[i].range.end <= end && subs[i].children.len() == 0
        },
    decreases d.len() - pos,
{
    if 0 <= pos < d.len() && d[pos] != 0 {
        let de = pos + 1 + d[pos];
        if de <= d.len() {
            let next = acc.push(leaf_m("Sub-block ("@ + dec(d[pos] as nat) + " bytes)"@, rng(pos, de)));
            lemma_sub_blocks_within(d, de, next);
            if let Some((subs, end)) = sub_blocks_s(d, de, next) {
                assert forall|i: int| acc.len() <= i < subs.len() implies pos <= (#[trigger] subs[i]).range.start
                    <= subs[i].range.end <= end && subs[i].children.len() == 0 by {
                    if i == acc.len() {
                        assert(subs[i] == next[i]);
                    }
                }
                assert forall|i: int| 0 <= i < acc.len() implies subs[i] == acc[i] by {
                    assert(subs[i] == next[i]);
                }
            }
        }
    }
}

/// Blocks from the walk at `o` on lie within `d` and nest.
proof fn lemma_walk_nests(d: Seq<u8>, o: int, acc: Seq<BlockModel>)
    requires
        input_ok(d),
        0 <= o,
        all_nest(d, acc),
    ensures
        all_nest(d, gif_walk(d, o, acc)),
    decreases d.len() - o,
{
    if 0 <= o < d.len() {
        let b = if d[o] == EXTENSION_INTRODUCER {
            extension_s(d, o)
        } else if d[o] == IMAGE_DESCRIPTOR_INTRODUCER {
            image_s(d, o)
        } else if d[o] == TRAILER {
            Some(leaf_m("Trailer"@, rng(o, o + 1)))
        } else {
            None
        };
        if let Some(b) = b {
            if d[o] == EXTENSION_INTRODUCER {
                lemma_sub_blocks_within(d, o + 2, Seq::empty());
                assert forall|i: int| 0 <= i < b.children.len() implies within(#[trigger] b.children[i], b)
                    && nests(b.children[i]) by {
                    assert(b.children[i].children.len() == 0);
                }
            } else if d[o] == IMAGE_DESCRIPTOR_INTRODUCER {
                reveal(image_s);
                let packed = d[o + 9];
                let local_flag = packed & 0x80u8 != 0;
                let entries = pow2((packed & 0x1fu8) as nat + 1);
                let pos = if local_flag { o + 10 + entries * 3 } else { o + 10 };
                lemma_sub_blocks_within(d, pos + 1, Seq::empty());
                let data_node = b.children.last();
                assert forall|i: int| 0 <= i < data_node.children.len() implies within(
                    #[trigger] data_node.children[i],
                    data_node,
                ) && nests(data_node.children[i]) by {
                    assert(data_node.children[i].children.len() == 0);
                }
                assert forall|i: int| 0 <= i < b.children.len() implies within(#[trigger] b.children[i], b)
                    && nests(b.children[i]) by {
                    if i < b.children.len() - 1 {
                        assert(b.children[i].children.len() == 0);
                    }
                }
            }
            let next = acc.push(b);
            assert forall|i: int| 0 <= i < next.len() implies (#[trigger] next[i]).range.start <= next[i].range.end
                <= d.len() && nests(next[i]) by {
                if i < acc.len() {
                    assert(next[i] == acc[i]);
                }
            }
            if d[o] != TRAILER && o < b.range.end <= d.len() {
                lemma_walk_nests(d, b.range.end as int, next);
            }
        }
    }
}

/// Each block of a GIF file lies within the data, and every block covers a
/// sub-range of the block that holds it.
pub proof fn lemma_gif_blocks_nest(d: Seq<u8>)
    requires
        input_ok(d),
    ensures
        all_nest(d, GifDissector.spec_dissect(d)),
{
    if d.len() >= 6 {
        let s0 = seq![leaf_m("Header"@, rng(0, 6))];
        if let Some(l) = lsd_s(d, 6) {
            assert forall|i: int| 0 <= i < l.children.len() implies within(#[trigger] l.children[i], l)
                && nests(l.children[i]) by {
                assert(l.children[i].children.len() == 0);
            }
            let s1 = s0.push(l);
            assert(all_nest(d, s1));
            let packed = d[10];
            let entries = pow2((packed & 7u8) as nat + 1);
            if packed & 0x80u8 != 0 {
                let table_end = 13 + (entries * 3) as int;
                if table_end <= d.len() {
                    let s2 = s1.push(leaf_m("Global color table ("@ + dec(entries) + " entries)"@, rng(13, table_end)));
                    assert(all_nest(d, s2));
                    lemma_walk_nests(d, table_end, s2);
                }
            } else {
                lemma_walk_nests(d, 13, s1);
            }
        }
    }
}

/// With the global color table flag set in the packed byte at offset 10,
/// the global color table holds `2^(packed % 8 + 1)` three-byte entries
/// from offset 13, and the walk over the blocks after it starts right where
/// it ends.
pub proof fn lemma_global_color_table(d: Seq<u8>)
    requires
        input_ok(d),
    ensures
        d.len() >= 13 && d[10] >= 0x80 ==> {
            let entries = pow2((d[10] % 8) as nat + 1);
            let end = 13 + 3 * (entries as int);
            let s = GifDissector.spec_dissect(d);
            &&& end <= d.len() ==> {
                &&& s.len() >= 3
                &&& s[2] == leaf_m("Global color table ("@ + dec(entries) + " entries)"@, rng(13, end))
                &&& s.len() > 3 ==> s[3].range.start == end
            }
            &&& end > d.len() ==> s.len() == 2
        },
{
    if d.len() >= 13 && d[10] >= 0x80 {
        let packed = d[10];
        assert(packed & 7u8 == packed % 8 && (packed & 0x80u8 != 0) == (packed >= 0x80)) by (bit_vector);
        let entries = pow2((packed % 8) as nat + 1);
        let end = 13 + 3 * (entries as int);
        let l = lsd_s(d, 6).unwrap();
        let s2 = seq![leaf_m("Header"@, rng(0, 6))].push(l)
            .push(leaf_m("Global color table ("@ + dec(entries) + " entries)"@, rng(13, end)));
        if end <= d.len() {
            lemma_walk_prefix(d, end, s2);
        }
    }
}

/// The walk keeps what it was given, and its first new block starts where it starts.
proof fn lemma_walk_prefix(d: Seq<u8>, o: int, acc: Seq<BlockModel>)
    requires
        input_ok(d),
        0 <= o,
    ensures
        gif_walk(d, o, acc).len() >= acc.len(),
        forall|k: int| 0 <= k < acc.len() ==> #[trigger] gif_walk(d, o, acc)[k] == acc[k],
        gif_walk(d, o, acc).len() > acc.len() ==> gif_walk(d, o, acc)[acc.len() as int].range.start == o,
    decreases d.len() - o,
{
    if 0 <= o < d.len() {
        if d[o] == EXTENSION_INTRODUCER {
            if let Some(b) = extension_s(d, o) {
                if o < b.range.end <= d.len() {
                    lemma_walk_prefix(d, b.range.end as int, acc.push(b));
                    assert forall|k: int| 0 <= k < acc.len() implies #[trigger] gif_walk(d, o, acc)[k] == acc[k] by {
                        assert(acc.push(b)[k] == acc[k]);
                    }
                }
            }
        } else if d[o] == IMAGE_DESCRIPTOR_INTRODUCER {
            reveal(image_s);
            if let Some(b) = image_s(d, o) {
                if o < b.range.end <= d.len() {
                    lemma_walk_prefix(d, b.range.end as int, acc.push(b));
                    assert forall|k: int| 0 <= k < acc.len() implies #[trigger] gif_walk(d, o, acc)[k] == acc[k] by {
                        assert(acc.push(b)[k] == acc[k]);
                    }
                }
            }
        }
    }
}

impl Dissector for GifDissector {
    open spec fn spec_name(&self) -> Seq<char> {
        "GIF"@
    }

    open spec fn spec_matches(&self, data: Seq<u8>) -> bool {
        has_at(data, 0, seq![0x47u8, 0x49u8, 0x46u8, 0x38u8, 0x37u8, 0x61u8])
            || has_at(data, 0, seq![0x47u8, 0x49u8, 0x46u8, 0x38u8, 0x39u8, 0x61u8])
    }

    open spec fn spec_dissect(&self, data: Seq<u8>) -> Seq<BlockModel> {
        gif_s(data)
    }

    fn name(&self) -> (r: &'static str) {
        "GIF"
    }

    fn matches(&self, data: &[u8]) -> (r: bool) {
        let gif87a: [u8; 6] = [0x47, 0x49, 0x46, 0x38, 0x37, 0x61];
        let gif89a: [u8; 6] = [0x47, 0x49, 0x46, 0x38, 0x39, 0x61];
        assert(gif87a@ =~= seq![0x47u8, 0x49u8, 0x46u8, 0x38u8, 0x37u8, 0x61u8]);
        assert(gif89a@ =~= seq![0x47u8, 0x49u8, 0x46u8, 0x38u8, 0x39u8, 0x61u8]);
        bytes_at(data, 0, &gif87a) || bytes_at(data, 0, &gif89a)
    }

    fn dissect(&self, data: &[u8]) -> (r: Vec<Block>) {
        let mut blocks = no_blocks();
        if data.len() < 6 {
            return blocks;
        }
        push_block(&mut blocks, Block::leaf(lit("Header"), ByteRange::new(0, 6)));
        let lsd = match logical_screen_descriptor_block(data, 6) {
            Some(b) => b,
            None => return blocks,
        };
        push_block(&mut blocks, lsd);
        let mut offset: u64 = 13;
        let packed = data[10];
        assert(packed & 7u8 < 32u8) by (bit_vector);
        let entries = color_table_entries(packed & 7u8);
        if packed & 0x80u8 != 0 {
            let table_end = offset + entries * 3;
            if table_end > data.len() as u64 {
                return blocks;
            }
            push_block(&mut blocks, Block::leaf(label_u64_wrap("Global color table (", entries, " entries)"), ByteRange::new(offset, table_end)));
            offset = table_end;
        }
        let ghost d = data@;
        let data_len = data.len() as u64;
        loop
            invariant_except_break
                gif_s(d) == gif_walk(d, offset as int, models(blocks@)),
            invariant
                d == data@,
                input_ok(d),
                data_len == d.len(),
                offset <= d.len(),
            ensures
                gif_s(d) == models(blocks@),
            decreases data_len - offset,
        {
            if offset >= data_len {
                break;
            }
            let b = data[idx(data, offset)];
            if b == EXTENSION_INTRODUCER {
                match extension_block(data, offset) {
                    Some(e) => {
                        let end = e.range.end;
                        push_block(&mut blocks, e);
                        offset = end;
                    },
                    None => break,
                }
            } else if b == IMAGE_DESCRIPTOR_INTRODUCER {
                match image_descriptor_block(data, offset) {
                    Some(e) => {
                        let end = e.range.end;
                        push_block(&mut blocks, e);
                        offset = end;
                    },
                    None => break,
                }
            } else if b == TRAILER {
                push_block(&mut blocks, Block::leaf(lit("Trailer"), ByteRange::new(offset, offset + 1)));
                break;
            } else {
                break;
            }
        }
        blocks
    }
}

} // verus!
