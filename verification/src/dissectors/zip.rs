//! ZIP archives: local file headers, central directory and its end record.

use vstd::prelude::*;
use super::{
    Block, BlockModel, ByteRange, Dissector, all_nest, input_ok, lemma_push_record, leaf_m, models, no_blocks, node_m,
    push_block, rng,
};
use crate::bytes::{
    avail, bytes_at, fits, has_at, imin, min_u64, opt_u32, read_u16, read_u32, u16at, u32at,
};
use crate::text::{
    alt_hex, dec, label_hex16, label_hex32, label_str, label_u16, label_u32, label_u64,
    label_u64_wrap, lit, lossy_string, utf8_lossy,
};

verus! {

pub struct ZipDissector;

pub const LOCAL_FILE_SIGNATURE: u32 = 0x04034b50;
pub const CENTRAL_DIRECTORY_SIGNATURE: u32 = 0x02014b50;
pub const EOCD_SIGNATURE: u32 = 0x06054b50;

/// The compression method's name, or `unknown (n)`.
pub open spec fn compression_name_s(v: u16) -> Seq<char> {
    if v == 0 {
        "Stored"@
    } else if v == 8 {
        "Deflated"@
    } else {
        "unknown ("@ + dec(v as nat) + ")"@
    }
}

pub fn compression_name(value: u16) -> (r: String)
    ensures
        r@ == compression_name_s(value),
{
    if value == 0 {
        lit("Stored")
    } else if value == 8 {
        lit("Deflated")
    } else {
        label_u64_wrap("unknown (", value as u64, ")")
    }
}

/// The `len` bytes at `start` decoded as text, or nothing when they run past the end.
pub open spec fn read_name_s(d: Seq<u8>, start: int, len: int) -> Seq<char> {
    if fits(d, start, len) {
        utf8_lossy(d.subrange(start, start + len))
    } else {
        Seq::empty()
    }
}

pub fn read_name(data: &[u8], offset: u64, len: u64) -> (r: String)
    ensures
        r@ == read_name_s(data@, offset as int, len as int),
{
    if avail(data, offset, len) {
        let bytes = vstd::slice::slice_subrange(data, offset as usize, (offset + len) as usize);
        lossy_string(bytes)
    } else {
        String::new()
    }
}

/// A local file header at `o` with its name, extra field and data, if the
/// fixed header and the name and extra field lie within `d`.
#[verifier::opaque]
pub open spec fn local_file_s(d: Seq<u8>, o: int) -> Option<BlockModel> {
    if !fits(d, o, 30) {
        None
    } else {
        let name_len = u16at(d, o + 26, true) as int;
        let extra_len = u16at(d, o + 28, true) as int;
        let name_start = o + 30;
        let name_end = name_start + name_len;
        let extra_end = name_end + extra_len;
        let data_start = extra_end;
        let data_end = imin(data_start + u32at(d, o + 18, true), d.len() as int);
        if name_end > d.len() || extra_end > d.len() {
            None
        } else {
            let name = read_name_s(d, name_start, name_len);
            let c0 = Seq::empty()
                .push(leaf_m("Signature: PK\\x03\\x04"@, rng(o, o + 4)))
                .push(leaf_m("Version needed: "@ + dec(u16at(d, o + 4, true) as nat), rng(o + 4, o + 6)))
                .push(leaf_m("General purpose flags: "@ + alt_hex(u16at(d, o + 6, true) as nat, 6), rng(o + 6, o + 8)))
                .push(leaf_m("Compression method: "@ + compression_name_s(u16at(d, o + 8, true)), rng(o + 8, o + 10)))
                .push(leaf_m("Last mod time: "@ + dec(u16at(d, o + 10, true) as nat), rng(o + 10, o + 12)))
                .push(leaf_m("Last mod date: "@ + dec(u16at(d, o + 12, true) as nat), rng(o + 12, o + 14)))
                .push(leaf_m("CRC-32: "@ + alt_hex(u32at(d, o + 14, true) as nat, 10), rng(o + 14, o + 18)))
                .push(leaf_m("Compressed size: "@ + dec(u32at(d, o + 18, true) as nat), rng(o + 18, o + 22)))
                .push(leaf_m("Uncompressed size: "@ + dec(u32at(d, o + 22, true) as nat), rng(o + 22, o + 26)))
                .push(leaf_m("File name length: "@ + dec(name_len as nat), rng(o + 26, o + 28)))
                .push(leaf_m("Extra field length: "@ + dec(extra_len as nat), rng(o + 28, o + 30)))
                .push(leaf_m("File name: "@ + name, rng(name_start, name_end)));
            let c1 = if extra_len > 0 { c0.push(leaf_m("Extra field"@, rng(name_end, extra_end))) } else { c0 };
            let c2 = if data_end > data_start {
                c1.push(leaf_m("File data"@, rng(data_start, data_end)))
            } else {
                c1
            };
            Some(node_m("Local file header: "@ + name, rng(o, data_end), c2))
        }
    }
}

fn local_file_block(data: &[u8], offset: u64) -> (r: Option<Block>)
    requires
        input_ok(data@),
    ensures
        r matches Some(b) ==> local_file_s(data@, offset as int) == Some(b@) && offset < b@.range.end <= data@.len(),
        r is None ==> local_file_s(data@, offset as int) is None,
{
    reveal(local_file_s);
    if !avail(data, offset, 30) {
        return None;
    }
    let o = offset;
    let version_needed = read_u16(data, o + 4, true).unwrap();
    let flags = read_u16(data, o + 6, true).unwrap();
    let compression_method = read_u16(data, o + 8, true).unwrap();
    let last_mod_time = read_u16(data, o + 10, true).unwrap();
    let last_mod_date = read_u16(data, o + 12, true).unwrap();
    let crc32 = read_u32(data, o + 14, true).unwrap();
    let compressed_size = read_u32(data, o + 18, true).unwrap() as u64;
    let uncompressed_size = read_u32(data, o + 22, true).unwrap();
    let name_len = read_u16(data, o + 26, true).unwrap() as u64;
    let extra_len = read_u16(data, o + 28, true).unwrap() as u64;

    let name_start = o + 30;
    let name_end = name_start + name_len;
    let extra_end = name_end + extra_len;
    let data_start = extra_end;
    let data_len = data.len() as u64;
    let data_end = min_u64(data_start + compressed_size, data_len);

    if name_end > data_len || extra_end > data_len {
        return None;
    }
    let name = read_name(data, name_start, name_len);

    let mut ch = no_blocks();
    push_block(&mut ch, Block::leaf(lit("Signature: PK\\x03\\x04"), ByteRange::new(o, o + 4)));
    push_block(&mut ch, Block::leaf(label_u16("Version needed: ", version_needed), ByteRange::new(o + 4, o + 6)));
    push_block(&mut ch, Block::leaf(label_hex16("General purpose flags: ", flags, 6), ByteRange::new(o + 6, o + 8)));
    let cn = compression_name(compression_method);
    push_block(&mut ch, Block::leaf(label_str("Compression method: ", cn.as_str()), ByteRange::new(o + 8, o + 10)));
    push_block(&mut ch, Block::leaf(label_u16("Last mod time: ", last_mod_time), ByteRange::new(o + 10, o + 12)));
    push_block(&mut ch, Block::leaf(label_u16("Last mod date: ", last_mod_date), ByteRange::new(o + 12, o + 14)));
    push_block(&mut ch, Block::leaf(label_hex32("CRC-32: ", crc32, 10), ByteRange::new(o + 14, o + 18)));
    push_block(&mut ch, Block::leaf(label_u64("Compressed size: ", compressed_size), ByteRange::new(o + 18, o + 22)));
    push_block(&mut ch, Block::leaf(label_u32("Uncompressed size: ", uncompressed_size), ByteRange::new(o + 22, o + 26)));
    push_block(&mut ch, Block::leaf(label_u64("File name length: ", name_len), ByteRange::new(o + 26, o + 28)));
    push_block(&mut ch, Block::leaf(label_u64("Extra field length: ", extra_len), ByteRange::new(o + 28, o + 30)));
    push_block(&mut ch, Block::leaf(label_str("File name: ", name.as_str()), ByteRange::new(name_start, name_end)));
    if extra_len > 0 {
        push_block(&mut ch, Block::leaf(lit("Extra field"), ByteRange::new(name_end, extra_end)));
    }
    if data_end > data_start {
        push_block(&mut ch, Block::leaf(lit("File data"), ByteRange::new(data_start, data_end)));
    }
    Some(Block::node(label_str("Local file header: ", name.as_str()), ByteRange::new(offset, data_end), ch))
}

/// A central directory entry at `o`, if its fixed part, name, extra field
/// and comment lie within `d`.
#[verifier::opaque]
pub open spec fn central_directory_s(d: Seq<u8>, o: int) -> Option<BlockModel> {
    if !fits(d, o, 46) {
        None
    } else {
        let name_len = u16at(d, o + 28, true) as int;
        let extra_len = u16at(d, o + 30, true) as int;
        let comment_len = u16at(d, o + 32, true) as int;
        let name_start = o + 46;
        let name_end = name_start + name_len;
        let extra_end = name_end + extra_len;
        let comment_end = extra_end + comment_len;
        if comment_end > d.len() {
            None
        } else {
            let name = read_name_s(d, name_start, name_len);
            let c0 = Seq::empty()
                .push(leaf_m("Signature: PK\\x01\\x02"@, rng(o, o + 4)))
                .push(leaf_m("Version made by: "@ + dec(u16at(d, o + 4, true) as nat), rng(o + 4, o + 6)))
                .push(leaf_m("Version needed: "@ + dec(u16at(d, o + 6, true) as nat), rng(o + 6, o + 8)))
                .push(leaf_m("General purpose flags: "@ + alt_hex(u16at(d, o + 8, true) as nat, 6), rng(o + 8, o + 10)))
                .push(leaf_m("Compression method: "@ + compression_name_s(u16at(d, o + 10, true)), rng(o + 10, o + 12)))
                .push(leaf_m("Last mod time: "@ + dec(u16at(d, o + 12, true) as nat), rng(o + 12, o + 14)))
                .push(leaf_m("Last mod date: "@ + dec(u16at(d, o + 14, true) as nat), rng(o + 14, o + 16)))
                .push(leaf_m("CRC-32: "@ + alt_hex(u32at(d, o + 16, true) as nat, 10), rng(o + 16, o + 20)))
                .push(leaf_m("Compressed size: "@ + dec(u32at(d, o + 20, true) as nat), rng(o + 20, o + 24)))
                .push(leaf_m("Uncompressed size: "@ + dec(u32at(d, o + 24, true) as nat), rng(o + 24, o + 28)))
                .push(leaf_m("File name length: "@ + dec(name_len as nat), rng(o + 28, o + 30)))
                .push(leaf_m("Extra field length: "@ + dec(extra_len as nat), rng(o + 30, o + 32)))
                .push(leaf_m("File comment length: "@ + dec(comment_len as nat), rng(o + 32, o + 34)))
                .push(leaf_m("Disk number start: "@ + dec(u16at(d, o + 34, true) as nat), rng(o + 34, o + 36)))
                .push(leaf_m("Internal attributes: "@ + dec(u16at(d, o + 36, true) as nat), rng(o + 36, o + 38)))
                .push(leaf_m("External attributes: "@ + dec(u32at(d, o + 38, true) as nat), rng(o + 38, o + 42)))
                .push(leaf_m("Local header offset: "@ + dec(u32at(d, o + 42, true) as nat), rng(o + 42, o + 46)))
                .push(leaf_m("File name: "@ + name, rng(name_start, name_end)));
            let c1 = if extra_len > 0 { c0.push(leaf_m("Extra field"@, rng(name_end, extra_end))) } else { c0 };
            let c2 = if comment_len > 0 {
                c1.push(leaf_m("File comment"@, rng(extra_end, comment_end)))
            } else {
                c1
            };
            Some(node_m("Central directory entry: "@ + name, rng(o, comment_end), c2))
        }
    }
}

fn central_directory_block(data: &[u8], offset: u64) -> (r: Option<Block>)
    requires
        input_ok(data@),
    ensures
        r matches Some(b) ==> central_directory_s(data@, offset as int) == Some(b@) && offset < b@.range.end <= data@.len(),
        r is None ==> central_directory_s(data@, offset as int) is None,
{
    reveal(central_directory_s);
    if !avail(data, offset, 46) {
        return None;
    }
    let o = offset;
    let version_made_by = read_u16(data, o + 4, true).unwrap();
    let version_needed = read_u16(data, o + 6, true).unwrap();
    let flags = read_u16(data, o + 8, true).unwrap();
    let compression_method = read_u16(data, o + 10, true).unwrap();
    let last_mod_time = read_u16(data, o + 12, true).unwrap();
    let last_mod_date = read_u16(data, o + 14, true).unwrap();
    let crc32 = read_u32(data, o + 16, true).unwrap();
    let compressed_size = read_u32(data, o + 20, true).unwrap();
    let uncompressed_size = read_u32(data, o + 24, true).unwrap();
    let name_len = read_u16(data, o + 28, true).unwrap() as u64;
    let extra_len = read_u16(data, o + 30, true).unwrap() as u64;
    let comment_len = read_u16(data, o + 32, true).unwrap() as u64;
    let disk_number_start = read_u16(data, o + 34, true).unwrap();
    let internal_attrs = read_u16(data, o + 36, true).unwrap();
    let external_attrs = read_u32(data, o + 38, true).unwrap();
    let local_header_offset = read_u32(data, o + 42, true).unwrap();

    let name_start = o + 46;
    let name_end = name_start + name_len;
    let extra_end = name_end + extra_len;
    let comment_end = extra_end + comment_len;
    let data_len = data.len() as u64;
    if comment_end > data_len {
        return None;
    }
    let name = read_name(data, name_start, name_len);

    let mut ch = no_blocks();
    push_block(&mut ch, Block::leaf(lit("Signature: PK\\x01\\x02"), ByteRange::new(o, o + 4)));
    push_block(&mut ch, Block::leaf(label_u16("Version made by: ", version_made_by), ByteRange::new(o + 4, o + 6)));
    push_block(&mut ch, Block::leaf(label_u16("Version needed: ", version_needed), ByteRange::new(o + 6, o + 8)));
    push_block(&mut ch, Block::leaf(label_hex16("General purpose flags: ", flags, 6), ByteRange::new(o + 8, o + 10)));
    let cn = compression_name(compression_method);
    push_block(&mut ch, Block::leaf(label_str("Compression method: ", cn.as_str()), ByteRange::new(o + 10, o + 12)));
    push_block(&mut ch, Block::leaf(label_u16("Last mod time: ", last_mod_time), ByteRange::new(o + 12, o + 14)));
    push_block(&mut ch, Block::leaf(label_u16("Last mod date: ", last_mod_date), ByteRange::new(o + 14, o + 16)));
    push_block(&mut ch, Block::leaf(label_hex32("CRC-32: ", crc32, 10), ByteRange::new(o + 16, o + 20)));
    push_block(&mut ch, Block::leaf(label_u32("Compressed size: ", compressed_size), ByteRange::new(o + 20, o + 24)));
    push_block(&mut ch, Block::leaf(label_u32("Uncompressed size: ", uncompressed_size), ByteRange::new(o + 24, o + 28)));
    push_block(&mut ch, Block::leaf(label_u64("File name length: ", name_len), ByteRange::new(o + 28, o + 30)));
    push_block(&mut ch, Block::leaf(label_u64("Extra field length: ", extra_len), ByteRange::new(o + 30, o + 32)));
    push_block(&mut ch, Block::leaf(label_u64("File comment length: ", comment_len), ByteRange::new(o + 32, o + 34)));
    push_block(&mut ch, Block::leaf(label_u16("Disk number start: ", disk_number_start), ByteRange::new(o + 34, o + 36)));
    push_block(&mut ch, Block::leaf(label_u16("Internal attributes: ", internal_attrs), ByteRange::new(o + 36, o + 38)));
    push_block(&mut ch, Block::leaf(label_u32("External attributes: ", external_attrs), ByteRange::new(o + 38, o + 42)));
    push_block(&mut ch, Block::leaf(label_u32("Local header offset: ", local_header_offset), ByteRange::new(o + 42, o + 46)));
    push_block(&mut ch, Block::leaf(label_str("File name: ", name.as_str()), ByteRange::new(name_start, name_end)));
    if extra_len > 0 {
        push_block(&mut ch, Block::leaf(lit("Extra field"), ByteRange::new(name_end, extra_end)));
    }
    if comment_len > 0 {
        push_block(&mut ch, Block::leaf(lit("File comment"), ByteRange::new(extra_end, comment_end)));
    }
    Some(Block::node(label_str("Central directory entry: ", name.as_str()), ByteRange::new(offset, comment_end), ch))
}

/// The end-of-central-directory record at `o`, if its fixed part lies within `d`.
#[verifier::opaque]
pub open spec fn eocd_s(d: Seq<u8>, o: int) -> Option<BlockModel> {
    if !fits(d, o, 22) {
        None
    } else {
        let comment_len = u16at(d, o + 20, true) as int;
        let comment_start = o + 22;
        let comment_end = imin(comment_start + comment_len, d.len() as int);
        let c0 = Seq::empty()
            .push(leaf_m("Signature: PK\\x05\\x06"@, rng(o, o + 4)))
            .push(leaf_m("Disk number: "@ + dec(u16at(d, o + 4, true) as nat), rng(o + 4, o + 6)))
            .push(leaf_m("Disk with central directory start: "@ + dec(u16at(d, o + 6, true) as nat), rng(o + 6, o + 8)))
            .push(leaf_m("Central directory records on this disk: "@ + dec(u16at(d, o + 8, true) as nat), rng(o + 8, o + 10)))
            .push(leaf_m("Total central directory records: "@ + dec(u16at(d, o + 10, true) as nat), rng(o + 10, o + 12)))
            .push(leaf_m("Central directory size: "@ + dec(u32at(d, o + 12, true) as nat), rng(o + 12, o + 16)))
            .push(leaf_m("Central directory offset: "@ + dec(u32at(d, o + 16, true) as nat), rng(o + 16, o + 20)))
            .push(leaf_m("Comment length: "@ + dec(comment_len as nat), rng(o + 20, o + 22)));
        let c1 = if comment_end > comment_start {
            c0.push(leaf_m("Comment"@, rng(comment_start, comment_end)))
        } else {
            c0
        };
        Some(node_m("End of central directory"@, rng(o, comment_end), c1).expand())
    }
}

fn eocd_block(data: &[u8], offset: u64) -> (r: Option<Block>)
    requires
        input_ok(data@),
    ensures
        r matches Some(b) ==> eocd_s(data@, offset as int) == Some(b@),
        r is None ==> eocd_s(data@, offset as int) is None,
{
    reveal(eocd_s);
    if !avail(data, offset, 22) {
        return None;
    }
    let o = offset;
    let disk_number = read_u16(data, o + 4, true).unwrap();
    let cd_start_disk = read_u16(data, o + 6, true).unwrap();
    let cd_records_this_disk = read_u16(data, o + 8, true).unwrap();
    let cd_records_total = read_u16(data, o + 10, true).unwrap();
    let cd_size = read_u32(data, o + 12, true).unwrap();
    let cd_offset = read_u32(data, o + 16, true).unwrap();
    let comment_len = read_u16(data, o + 20, true).unwrap() as u64;
    let comment_start = o + 22;
    let comment_end = min_u64(comment_start + comment_len, data.len() as u64);

    let mut ch = no_blocks();
    push_block(&mut ch, Block::leaf(lit("Signature: PK\\x05\\x06"), ByteRange::new(o, o + 4)));
    push_block(&mut ch, Block::leaf(label_u16("Disk number: ", disk_number), ByteRange::new(o + 4, o + 6)));
    push_block(&mut ch, Block::leaf(label_u16("Disk with central directory start: ", cd_start_disk), ByteRange::new(o + 6, o + 8)));
    push_block(&mut ch, Block::leaf(label_u16("Central directory records on this disk: ", cd_records_this_disk), ByteRange::new(o + 8, o + 10)));
    push_block(&mut ch, Block::leaf(label_u16("Total central directory records: ", cd_records_total), ByteRange::new(o + 10, o + 12)));
    push_block(&mut ch, Block::leaf(label_u32("Central directory size: ", cd_size), ByteRange::new(o + 12, o + 16)));
    push_block(&mut ch, Block::leaf(label_u32("Central directory offset: ", cd_offset), ByteRange::new(o + 16, o + 20)));
    push_block(&mut ch, Block::leaf(label_u64("Comment length: ", comment_len), ByteRange::new(o + 20, o + 22)));
    if comment_end > comment_start {
        push_block(&mut ch, Block::leaf(lit("Comment"), ByteRange::new(comment_start, comment_end)));
    }
    Some(Block::node(lit("End of central directory"), ByteRange::new(offset, comment_end), ch).expanded())
}

/// Local file headers from `o` on, appended to `acc`, while the signature
/// at the current offset is that of a local file header and one parses.
/// Returns the blocks and the offset where the run stopped.
pub open spec fn locals_s(d: Seq<u8>, o: int, acc: Seq<BlockModel>) -> (Seq<BlockModel>, int)
    decreases d.len() - o,
{
    if opt_u32(d, o, true) == Some(LOCAL_FILE_SIGNATURE) {
        match local_file_s(d, o) {
            Some(b) => if o < b.range.end <= d.len() {
                locals_s(d, b.range.end as int, acc.push(b))
            } else {
                (acc.push(b), b.range.end as int)
            },
            None => (acc, o),
        }
    } else {
        (acc, o)
    }
}

/// Central directory entries from `o` on, appended to `acc`, likewise.
pub open spec fn centrals_s(d: Seq<u8>, o: int, acc: Seq<BlockModel>) -> (Seq<BlockModel>, int)
    decreases d.len() - o,
{
    if opt_u32(d, o, true) == Some(CENTRAL_DIRECTORY_SIGNATURE) {
        match central_directory_s(d, o) {
            Some(b) => if o < b.range.end <= d.len() {
                centrals_s(d, b.range.end as int, acc.push(b))
            } else {
                (acc.push(b), b.range.end as int)
            },
            None => (acc, o),
        }
    } else {
        (acc, o)
    }
}

/// A ZIP archive: the run of local file headers from the start, then the
/// run of central directory entries, then the end-of-central-directory
/// record if one follows.
pub open spec fn zip_s(d: Seq<u8>) -> Seq<BlockModel> {
    let (s1, o1) = locals_s(d, 0, Seq::empty());
    let (s2, o2) = centrals_s(d, o1, s1);
    if opt_u32(d, o2, true) == Some(EOCD_SIGNATURE) {
        match eocd_s(d, o2) {
            Some(b) => s2.push(b),
            None => s2,
        }
    } else {
        s2
    }
}

proof fn lemma_locals_nest(d: Seq<u8>, o: int, acc: Seq<BlockModel>)
    requires
        input_ok(d),
        0 <= o,
        all_nest(d, acc),
    ensures
        all_nest(d, locals_s(d, o, acc).0),
        0 <= locals_s(d, o, acc).1,
    decreases d.len() - o,
{
    if opt_u32(d, o, true) == Some(LOCAL_FILE_SIGNATURE) {
        if let Some(b) = local_file_s(d, o) {
            reveal(local_file_s);
            lemma_push_record(d, acc, b);
            if o < b.range.end <= d.len() {
                lemma_locals_nest(d, b.range.end as int, acc.push(b));
            }
        }
    }
}

proof fn lemma_centrals_nest(d: Seq<u8>, o: int, acc: Seq<BlockModel>)
    requires
        input_ok(d),
        0 <= o,
        all_nest(d, acc),
    ensures
        all_nest(d, centrals_s(d, o, acc).0),
        0 <= centrals_s(d, o, acc).1,
    decreases d.len() - o,
{
    if opt_u32(d, o, true) == Some(CENTRAL_DIRECTORY_SIGNATURE) {
        if let Some(b) = central_directory_s(d, o) {
            reveal(central_directory_s);
            lemma_push_record(d, acc, b);
            if o < b.range.end <= d.len() {
                lemma_centrals_nest(d, b.range.end as int, acc.push(b));
            }
        }
    }
}

/// Each record of a ZIP archive lies within the data, and its fields,
/// name, extra field, comment and data cover sub-ranges of the record.
pub proof fn lemma_zip_blocks_nest(d: Seq<u8>)
    requires
        input_ok(d),
    ensures
        all_nest(d, ZipDissector.spec_dissect(d)),
{
    lemma_locals_nest(d, 0, Seq::empty());
    let (s1, o1) = locals_s(d, 0, Seq::empty());
    lemma_centrals_nest(d, o1, s1);
    let (s2, o2) = centrals_s(d, o1, s1);
    if opt_u32(d, o2, true) == Some(EOCD_SIGNATURE) {
        if let Some(b) = eocd_s(d, o2) {
            reveal(eocd_s);
            lemma_push_record(d, s2, b);
        }
    }
}

/// A local file entry at `o` spans its 30-byte header, the file name and
/// extra field whose lengths the little-endian words at `o + 26` and
/// `o + 28` give, and as many bytes of file data as the compressed size,
/// the little-endian 32-bit word at `o + 18`, gives; the span is cut at the
/// end of the data, and its last child is the file data, when there is any.
pub proof fn lemma_local_file_span(d: Seq<u8>, o: int)
    requires
        input_ok(d),
        0 <= o,
    ensures
        local_file_s(d, o) matches Some(b) ==> {
            let name_len = d[o + 26] + 0x100 * d[o + 27];
            let extra_len = d[o + 28] + 0x100 * d[o + 29];
            let csize = d[o + 18] + 0x100 * d[o + 19] + 0x10000 * d[o + 20] + 0x100_0000 * d[o + 21];
            let ds = o + 30 + name_len + extra_len;
            let de = if ds + csize <= d.len() { ds + csize } else { d.len() as int };
            &&& o + 30 <= ds <= d.len()
            &&& b.range.start == o && b.range.end == de
            &&& de > ds ==> b.children.last() == leaf_m("File data"@, rng(ds, de))
            &&& de == ds ==> forall|i: int| 0 <= i < b.children.len() ==> (#[trigger] b.children[i]).range.end <= ds
        },
{
    reveal(local_file_s);
    if let Some(b) = local_file_s(d, o) {
        let name_len = u16at(d, o + 26, true) as int;
        let extra_len = u16at(d, o + 28, true) as int;
        let name_start = o + 30;
        let name_end = name_start + name_len;
        let extra_end = name_end + extra_len;
        let name = read_name_s(d, name_start, name_len);
        let c0 = Seq::empty()
            .push(leaf_m("Signature: PK\\x03\\x04"@, rng(o, o + 4)))
            .push(leaf_m("Version needed: "@ + dec(u16at(d, o + 4, true) as nat), rng(o + 4, o + 6)))
            .push(leaf_m("General purpose flags: "@ + alt_hex(u16at(d, o + 6, true) as nat, 6), rng(o + 6, o + 8)))
            .push(leaf_m("Compression method: "@ + compression_name_s(u16at(d, o + 8, true)), rng(o + 8, o + 10)))
            .push(leaf_m("Last mod time: "@ + dec(u16at(d, o + 10, true) as nat), rng(o + 10, o + 12)))
            .push(leaf_m("Last mod date: "@ + dec(u16at(d, o + 12, true) as nat), rng(o + 12, o + 14)))
            .push(leaf_m("CRC-32: "@ + alt_hex(u32at(d, o + 14, true) as nat, 10), rng(o + 14, o + 18)))
            .push(leaf_m("Compressed size: "@ + dec(u32at(d, o + 18, true) as nat), rng(o + 18, o + 22)))
            .push(leaf_m("Uncompressed size: "@ + dec(u32at(d, o + 22, true) as nat), rng(o + 22, o + 26)))
            .push(leaf_m("File name length: "@ + dec(name_len as nat), rng(o + 26, o + 28)))
            .push(leaf_m("Extra field length: "@ + dec(extra_len as nat), rng(o + 28, o + 30)))
            .push(leaf_m("File name: "@ + name, rng(name_start, name_end)));
        let c1 = if extra_len > 0 { c0.push(leaf_m("Extra field"@, rng(name_end, extra_end))) } else { c0 };
        assert forall|i: int| 0 <= i < c1.len() implies (#[trigger] c1[i]).range.end <= extra_end by {}
    }
}

/// The local file entries of an archive follow one another: the first
/// starts at offset 0 and each next one right where the previous one ends,
/// and each is the entry its own offset gives.
pub proof fn lemma_locals_follow(d: Seq<u8>)
    requires
        input_ok(d),
    ensures
        ({
            let s = locals_s(d, 0, Seq::empty()).0;
            &&& s.len() > 0 ==> s[0].range.start == 0
            &&& forall|k: int| 0 < k < s.len() ==> #[trigger] s[k].range.start == s[k - 1].range.end
            &&& forall|k: int| 0 <= k < s.len() ==> local_file_s(d, #[trigger] s[k].range.start as int) == Some(s[k])
        }),
{
    lemma_locals_follow_from(d, 0, Seq::empty());
}

proof fn lemma_locals_follow_from(d: Seq<u8>, o: int, acc: Seq<BlockModel>)
    requires
        input_ok(d),
        0 <= o <= d.len(),
        acc.len() > 0 ==> acc.last().range.end == o,
        acc.len() == 0 ==> o == 0,
        forall|k: int| 0 < k < acc.len() ==> #[trigger] acc[k].range.start == acc[k - 1].range.end,
        acc.len() > 0 ==> acc[0].range.start == 0,
        forall|k: int| 0 <= k < acc.len() ==> local_file_s(d, #[trigger] acc[k].range.start as int) == Some(acc[k]),
    ensures
        ({
            let s = locals_s(d, o, acc).0;
            &&& s.len() > 0 ==> s[0].range.start == 0
            &&& forall|k: int| 0 < k < s.len() ==> #[trigger] s[k].range.start == s[k - 1].range.end
            &&& forall|k: int| 0 <= k < s.len() ==> local_file_s(d, #[trigger] s[k].range.start as int) == Some(s[k])
        }),
    decreases d.len() - o,
{
    if opt_u32(d, o, true) == Some(LOCAL_FILE_SIGNATURE) {
        if let Some(b) = local_file_s(d, o) {
            lemma_local_file_span(d, o);
            let next = acc.push(b);
            assert forall|k: int| 0 < k < next.len() implies #[trigger] next[k].range.start == next[k - 1].range.end by {
                if k < acc.len() {
                    assert(next[k] == acc[k] && next[k - 1] == acc[k - 1]);
                }
            }
            assert forall|k: int| 0 <= k < next.len() implies local_file_s(d, #[trigger] next[k].range.start as int)
                == Some(next[k]) by {
                if k < acc.len() {
                    assert(next[k] == acc[k]);
                }
            }
            if o < b.range.end <= d.len() {
                lemma_locals_follow_from(d, b.range.end as int, next);
            }
        }
    }
}

impl Dissector for ZipDissector {
    open spec fn spec_name(&self) -> Seq<char> {
        "ZIP"@
    }

    open spec fn spec_matches(&self, data: Seq<u8>) -> bool {
        has_at(data, 0, seq![0x50u8, 0x4bu8, 0x03u8, 0x04u8])
    }

    open spec fn spec_dissect(&self, data: Seq<u8>) -> Seq<BlockModel> {
        zip_s(data)
    }

    fn name(&self) -> (r: &'static str) {
        "ZIP"
    }

    fn matches(&self, data: &[u8]) -> (r: bool) {
        let magic: [u8; 4] = [0x50, 0x4b, 0x03, 0x04];
        let r = bytes_at(data, 0, &magic);
        assert(magic@ =~= seq![0x50u8, 0x4bu8, 0x03u8, 0x04u8]);
        r
    }

    fn dissect(&self, data: &[u8]) -> (r: Vec<Block>) {
        let mut blocks = no_blocks();
        let mut offset: u64 = 0;
        let ghost d = data@;
        loop
            invariant
                d == data@,
                input_ok(d),
                offset <= d.len(),
                locals_s(d, 0, Seq::empty()) == locals_s(d, offset as int, models(blocks@)),
            ensures
                offset <= d.len(),
                locals_s(d, 0, Seq::empty()) == (models(blocks@), offset as int),
            decreases d.len() - offset,
        {
            match read_u32(data, offset, true) {
                Some(sig) => {
                    if sig != LOCAL_FILE_SIGNATURE {
                        break;
                    }
                    match local_file_block(data, offset) {
                        Some(b) => {
                            let end = b.range.end;
                            push_block(&mut blocks, b);
                            offset = end;
                        },
                        None => break,
                    }
                },
                None => break,
            }
        }
        let ghost s1 = models(blocks@);
        let ghost o1 = offset as int;
        assert(locals_s(d, 0, Seq::empty()) == (s1, o1));
        loop
            invariant
                d == data@,
                input_ok(d),
                offset <= d.len(),
                locals_s(d, 0, Seq::empty()) == (s1, o1),
                centrals_s(d, o1, s1) == centrals_s(d, offset as int, models(blocks@)),
            ensures
                offset <= d.len(),
                centrals_s(d, o1, s1) == (models(blocks@), offset as int),
            decreases d.len() - offset,
        {
            match read_u32(data, offset, true) {
                Some(sig) => {
                    if sig != CENTRAL_DIRECTORY_SIGNATURE {
                        break;
                    }
                    match central_directory_block(data, offset) {
                        Some(b) => {
                            let end = b.range.end;
                            push_block(&mut blocks, b);
                            offset = end;
                        },
                        None => break,
                    }
                },
                None => break,
            }
        }
        match read_u32(data, offset, true) {
            Some(sig) => {
                if sig == EOCD_SIGNATURE {
                    match eocd_block(data, offset) {
                        Some(b) => push_block(&mut blocks, b),
                        None => {},
                    }
                }
            },
            None => {},
        }
        blocks
    }
}

} // verus!
