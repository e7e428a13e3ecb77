//! Windows bitmap (BMP): file header, DIB header and pixel data.

use vstd::prelude::*;
use super::{
    Block, BlockModel, ByteRange, Dissector, all_nest, input_ok, lemma_push_record, leaf_m, no_blocks, node_m,
    push_block, rng,
};
use crate::bytes::{
    as_i32, avail, bytes_at, has_at, imin, min_u64, opt_u32, or0_u32, read_u16, read_u32, u16at,
    u32at,
};
use crate::text::{
    dec, label_i32, label_str, label_u16, label_u32, label_u64, label_u64_wrap, lit, sdec,
};

verus! {

pub struct BmpDissector;

/// The compression method's name, or `unknown (n)`.
pub open spec fn compression_name_s(v: u32) -> Seq<char> {
    if v == 0 {
        "BI_RGB"@
    } else if v == 1 {
        "BI_RLE8"@
    } else if v == 2 {
        "BI_RLE4"@
    } else if v == 3 {
        "BI_BITFIELDS"@
    } else {
        "unknown ("@ + dec(v as nat) + ")"@
    }
}

pub fn compression_name(value: u32) -> (r: String)
    ensures
        r@ == compression_name_s(value),
{
    if value == 0 {
        lit("BI_RGB")
    } else if value == 1 {
        lit("BI_RLE8")
    } else if value == 2 {
        lit("BI_RLE4")
    } else if value == 3 {
        lit("BI_BITFIELDS")
    } else {
        label_u64_wrap("unknown (", value as u64, ")")
    }
}

pub open spec fn file_header_s(d: Seq<u8>) -> BlockModel {
    node_m(
        "BMP file header"@,
        rng(0, 14),
        Seq::empty()
        .push(leaf_m("Signature: BM"@, rng(0, 2)))
        .push(leaf_m("File size: "@ + dec(or0_u32(opt_u32(d, 2, true)) as nat), rng(2, 6)))
        .push(leaf_m("Reserved"@, rng(6, 10)))
        .push(leaf_m("Pixel data offset: "@ + dec(or0_u32(opt_u32(d, 10, true)) as nat), rng(10, 14)))
    ,
    ).expand()
}

fn file_header_block(data: &[u8]) -> (b: Block)
    ensures
        b@ == file_header_s(data@),
{
    let file_size = match read_u32(data, 2, true) { Some(v) => v, None => 0 };
    let pixel_data_offset = match read_u32(data, 10, true) { Some(v) => v, None => 0 };
    let mut ch = no_blocks();
    push_block(&mut ch, Block::leaf(lit("Signature: BM"), ByteRange::new(0, 2)));
    push_block(&mut ch, Block::leaf(label_u32("File size: ", file_size), ByteRange::new(2, 6)));
    push_block(&mut ch, Block::leaf(lit("Reserved"), ByteRange::new(6, 10)));
    push_block(&mut ch, Block::leaf(label_u32("Pixel data offset: ", pixel_data_offset), ByteRange::new(10, 14)));
    Block::node(lit("BMP file header"), ByteRange::new(0, 14), ch).expanded()
}

/// The fields of a 40-byte BITMAPINFOHEADER at `o`.
pub open spec fn dib_fields_s(d: Seq<u8>, o: int, size: u64) -> Seq<BlockModel> {
    Seq::empty()
        .push(leaf_m("Header size: "@ + dec(size as nat), rng(o, o + 4)))
        .push(leaf_m("Width: "@ + sdec(as_i32(u32at(d, o + 4, true))), rng(o + 4, o + 8)))
        .push(leaf_m("Height: "@ + sdec(as_i32(u32at(d, o + 8, true))), rng(o + 8, o + 12)))
        .push(leaf_m("Planes: "@ + dec(u16at(d, o + 12, true) as nat), rng(o + 12, o + 14)))
        .push(leaf_m("Bits per pixel: "@ + dec(u16at(d, o + 14, true) as nat), rng(o + 14, o + 16)))
        .push(leaf_m("Compression: "@ + compression_name_s(u32at(d, o + 16, true)), rng(o + 16, o + 20)))
        .push(leaf_m("Image size: "@ + dec(u32at(d, o + 20, true) as nat), rng(o + 20, o + 24)))
        .push(leaf_m("Horizontal resolution: "@ + sdec(as_i32(u32at(d, o + 24, true))), rng(o + 24, o + 28)))
        .push(leaf_m("Vertical resolution: "@ + sdec(as_i32(u32at(d, o + 28, true))), rng(o + 28, o + 32)))
        .push(leaf_m("Colors used: "@ + dec(u32at(d, o + 32, true) as nat), rng(o + 32, o + 36)))
        .push(leaf_m("Important colors: "@ + dec(u32at(d, o + 36, true) as nat), rng(o + 36, o + 40)))
    
}

/// The DIB header of `size` bytes at `o`: decoded when it is a complete
/// 40-byte BITMAPINFOHEADER, otherwise a single span; none when `size` is zero.
pub open spec fn dib_header_s(d: Seq<u8>, o: int, size: u64) -> Option<BlockModel> {
    let end = imin(o + size, d.len() as int);
    if size == 0 {
        None
    } else if size == 40 && d.len() >= o + 40 {
        Some(node_m("DIB header"@, rng(o, end), dib_fields_s(d, o, size)).expand())
    } else {
        Some(leaf_m("DIB header ("@ + dec(size as nat) + " bytes)"@, rng(o, end)))
    }
}

fn dib_header_block(data: &[u8], offset: u64, size: u64) -> (r: Option<Block>)
    requires
        input_ok(data@),
        offset <= data@.len(),
    ensures
        r matches Some(b) ==> dib_header_s(data@, offset as int, size) == Some(b@),
        r is None ==> dib_header_s(data@, offset as int, size) is None,
{
    if size == 0 {
        return None;
    }
    let data_len = data.len() as u64;
    let end = if size > data_len - offset { data_len } else { offset + size };
    if size == 40 && avail(data, offset, 40) {
        let o = offset;
        let mut ch = no_blocks();
        push_block(&mut ch, Block::leaf(label_u64("Header size: ", size), ByteRange::new(o, o + 4)));
        push_block(&mut ch, Block::leaf(label_i32("Width: ", read_u32(data, o + 4, true).unwrap()), ByteRange::new(o + 4, o + 8)));
        push_block(&mut ch, Block::leaf(label_i32("Height: ", read_u32(data, o + 8, true).unwrap()), ByteRange::new(o + 8, o + 12)));
        push_block(&mut ch, Block::leaf(label_u16("Planes: ", read_u16(data, o + 12, true).unwrap()), ByteRange::new(o + 12, o + 14)));
        push_block(&mut ch, Block::leaf(label_u16("Bits per pixel: ", read_u16(data, o + 14, true).unwrap()), ByteRange::new(o + 14, o + 16)));
        let cn = compression_name(read_u32(data, o + 16, true).unwrap());
        push_block(&mut ch, Block::leaf(label_str("Compression: ", cn.as_str()), ByteRange::new(o + 16, o + 20)));
        push_block(&mut ch, Block::leaf(label_u32("Image size: ", read_u32(data, o + 20, true).unwrap()), ByteRange::new(o + 20, o + 24)));
        push_block(&mut ch, Block::leaf(label_i32("Horizontal resolution: ", read_u32(data, o + 24, true).unwrap()), ByteRange::new(o + 24, o + 28)));
        push_block(&mut ch, Block::leaf(label_i32("Vertical resolution: ", read_u32(data, o + 28, true).unwrap()), ByteRange::new(o + 28, o + 32)));
        push_block(&mut ch, Block::leaf(label_u32("Colors used: ", read_u32(data, o + 32, true).unwrap()), ByteRange::new(o + 32, o + 36)));
        push_block(&mut ch, Block::leaf(label_u32("Important colors: ", read_u32(data, o + 36, true).unwrap()), ByteRange::new(o + 36, o + 40)));
        return Some(Block::node(lit("DIB header"), ByteRange::new(offset, end), ch).expanded());
    }
    Some(Block::leaf(label_u64_wrap("DIB header (", size, " bytes)"), ByteRange::new(offset, end)))
}

/// The blocks of a BMP file: nothing below 14 bytes; otherwise the file
/// header, the DIB header when one is declared, and the pixel data span.
pub open spec fn bmp_s(d: Seq<u8>) -> Seq<BlockModel> {
    if d.len() < 14 {
        Seq::empty()
    } else {
        let file_size = u32at(d, 2, true);
        let offset = u32at(d, 10, true);
        let s1 = seq![file_header_s(d)];
        let s2 = match opt_u32(d, 14, true) {
            Some(dib_size) => match dib_header_s(d, 14, dib_size as u64) {
                Some(b) => s1.push(b),
                None => s1,
            },
            None => s1,
        };
        let declared_end = imin(file_size as int, d.len() as int);
        let end = if declared_end > offset { declared_end } else { d.len() as int };
        if offset < d.len() && end > offset {
            s2.push(leaf_m("Pixel data"@, rng(offset as int, end)))
        } else {
            s2
        }
    }
}

/// Each block of a BMP file lies within the data, and the fields of each
/// header cover sub-ranges of the header.
pub proof fn lemma_bmp_blocks_nest(d: Seq<u8>)
    requires
        input_ok(d),
    ensures
        all_nest(d, BmpDissector.spec_dissect(d)),
{
    if d.len() >= 14 {
        let s1 = seq![file_header_s(d)];
        lemma_push_record(d, Seq::empty(), file_header_s(d));
        assert(Seq::<BlockModel>::empty().push(file_header_s(d)) == s1);
        let s2 = match opt_u32(d, 14, true) {
            Some(dib_size) => match dib_header_s(d, 14, dib_size as u64) {
                Some(b) => {
                    lemma_push_record(d, s1, b);
                    s1.push(b)
                },
                None => s1,
            },
            None => s1,
        };
        let file_size = u32at(d, 2, true);
        let offset = u32at(d, 10, true);
        let declared_end = imin(file_size as int, d.len() as int);
        let end = if declared_end > offset { declared_end } else { d.len() as int };
        if offset < d.len() && end > offset {
            lemma_push_record(d, s2, leaf_m("Pixel data"@, rng(offset as int, end)));
        }
    }
}

impl Dissector for BmpDissector {
    open spec fn spec_name(&self) -> Seq<char> {
        "BMP"@
    }

    open spec fn spec_matches(&self, data: Seq<u8>) -> bool {
        has_at(data, 0, seq![0x42u8, 0x4du8])
    }

    open spec fn spec_dissect(&self, data: Seq<u8>) -> Seq<BlockModel> {
        bmp_s(data)
    }

    fn name(&self) -> (r: &'static str) {
        "BMP"
    }

    fn matches(&self, data: &[u8]) -> (r: bool) {
        let magic: [u8; 2] = [0x42, 0x4d];
        let r = bytes_at(data, 0, &magic);
        assert(magic@ =~= seq![0x42u8, 0x4du8]);
        r
    }

    fn dissect(&self, data: &[u8]) -> (r: Vec<Block>) {
        let mut blocks = no_blocks();
        if data.len() < 14 {
            return blocks;
        }
        let file_size = read_u32(data, 2, true).unwrap();
        let pixel_data_offset = read_u32(data, 10, true).unwrap();
        push_block(&mut blocks, file_header_block(data));
        match read_u32(data, 14, true) {
            Some(dib_size) => match dib_header_block(data, 14, dib_size as u64) {
                Some(b) => push_block(&mut blocks, b),
                None => {},
            },
            None => {},
        }
        let offset = pixel_data_offset as u64;
        let data_len = data.len() as u64;
        let declared_end = min_u64(file_size as u64, data_len);
        let end = if declared_end > offset { declared_end } else { data_len };
        if offset < data_len && end > offset {
            push_block(&mut blocks, Block::leaf(lit("Pixel data"), ByteRange::new(offset, end)));
        }
        blocks
    }
}



} // verus!
