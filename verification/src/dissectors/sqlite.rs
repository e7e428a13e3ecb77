//! SQLite database files: the 100-byte database header and the pages after it.

use vstd::prelude::*;
use super::{
    Block, BlockModel, ByteRange, Dissector, all_nest, input_ok, leaves_in, lemma_push_leaf, lemma_push_record, leaf_m, models,
    no_blocks, node_m, push_block, push_if, rng,
};
use crate::bytes::{
    bytes_at, fits, has_at, imin, min_u64, read_u16, read_u32, read_u8, u16at, u32at,
};
use crate::text::{dec, label_str, label_u32, label_u8, lit, push_str, push_u32};
verus! {

pub struct SqliteDissector;

pub const HEADER_SIZE: u64 = 100;

pub open spec fn text_encoding_name_s(v: u32) -> Seq<char> {
    if v == 1 {
        "UTF-8"@
    } else if v == 2 {
        "UTF-16le"@
    } else if v == 3 {
        "UTF-16be"@
    } else {
        "unknown"@
    }
}

pub fn text_encoding_name(value: u32) -> (r: &'static str)
    ensures
        r@ == text_encoding_name_s(value),
{
    if value == 1 {
        "UTF-8"
    } else if value == 2 {
        "UTF-16le"
    } else if value == 3 {
        "UTF-16be"
    } else {
        "unknown"
    }
}

/// The page size a header value stands for: 1 means 65536.
pub open spec fn page_size_display_s(v: u16) -> u32 {
    if v == 1 { 65536 } else { v as u32 }
}

pub fn page_size_display(value: u16) -> (r: u32)
    ensures
        r == page_size_display_s(value),
{
    if value == 1 { 65536 } else { value as u32 }
}

/// A big-endian 32-bit header field at `off`, when present.
pub open spec fn u32_field(acc: Seq<BlockModel>, d: Seq<u8>, off: int, name: Seq<char>) -> Seq<BlockModel> {
    push_if(acc, fits(d, off, 4), leaf_m(name + dec(u32at(d, off, false) as nat), rng(off, off + 4)))
}

/// A one-byte header field at `off`, when present.
pub open spec fn u8_field(acc: Seq<BlockModel>, d: Seq<u8>, off: int, name: Seq<char>) -> Seq<BlockModel> {
    push_if(acc, fits(d, off, 1), leaf_m(name + dec(d[off] as nat), rng(off, off + 1)))
}

/// The database header: every field that lies within `d`.
#[verifier::opaque]
pub open spec fn header_s(d: Seq<u8>) -> BlockModel {
    let end = imin(d.len() as int, 100);
    let c0 = seq![leaf_m("magic: SQLite format 3"@, rng(0, imin(d.len() as int, 16)))];
    let c1 = push_if(c0, fits(d, 16, 2),
        leaf_m("page_size: "@ + dec(page_size_display_s(u16at(d, 16, false)) as nat), rng(16, 18)));
    let c2 = u8_field(c1, d, 18, "file_format_write_version: "@);
    let c3 = u8_field(c2, d, 19, "file_format_read_version: "@);
    let c4 = u8_field(c3, d, 20, "reserved_space: "@);
    let c5 = u8_field(c4, d, 21, "max_embedded_payload_fraction: "@);
    let c6 = u8_field(c5, d, 22, "min_embedded_payload_fraction: "@);
    let c7 = u8_field(c6, d, 23, "leaf_payload_fraction: "@);
    let c8 = u32_field(c7, d, 24, "file_change_counter: "@);
    let c9 = u32_field(c8, d, 28, "database_size_pages: "@);
    let c10 = u32_field(c9, d, 32, "first_freelist_trunk_page: "@);
    let c11 = u32_field(c10, d, 36, "total_freelist_pages: "@);
    let c12 = u32_field(c11, d, 40, "schema_cookie: "@);
    let c13 = u32_field(c12, d, 44, "schema_format_number: "@);
    let c14 = u32_field(c13, d, 48, "default_page_cache_size: "@);
    let c15 = u32_field(c14, d, 52, "largest_root_btree_page: "@);
    let c16 = push_if(c15, fits(d, 56, 4), leaf_m(
        "text_encoding: "@ + text_encoding_name_s(u32at(d, 56, false)) + " ("@ + dec(u32at(d, 56, false) as nat) + ")"@,
        rng(56, 60),
    ));
    let c17 = u32_field(c16, d, 60, "user_version: "@);
    let c18 = u32_field(c17, d, 64, "incremental_vacuum_mode: "@);
    let c19 = u32_field(c18, d, 68, "application_id: "@);
    let c20 = push_if(c19, d.len() >= 92, leaf_m("reserved_for_expansion"@, rng(72, 92)));
    let c21 = u32_field(c20, d, 92, "version_valid_for: "@);
    let c22 = u32_field(c21, d, 96, "sqlite_version_number: "@);
    node_m("Database header"@, rng(0, end), c22).expand()
}

fn push_u32_field(data: &[u8], fields: &mut Vec<Block>, off: u64, name: &str)
    requires
        off <= 96,
    ensures
        models(final(fields)@) == u32_field(models(old(fields)@), data@, off as int, name@),
{
    match read_u32(data, off, false) {
        Some(v) => push_block(fields, Block::leaf(label_u32(name, v), ByteRange::new(off, off + 4))),
        None => {},
    }
}

fn push_u8_field(data: &[u8], fields: &mut Vec<Block>, off: u64, name: &str)
    requires
        off <= 96,
    ensures
        models(final(fields)@) == u8_field(models(old(fields)@), data@, off as int, name@),
{
    match read_u8(data, off) {
        Some(v) => push_block(fields, Block::leaf(label_u8(name, v), ByteRange::new(off, off + 1))),
        None => {},
    }
}

fn header_block(data: &[u8]) -> (b: Block)
    ensures
        b@ == header_s(data@),
{
    reveal(header_s);
    let len = data.len() as u64;
    let end = min_u64(len, HEADER_SIZE);
    let mut f = no_blocks();
    push_block(&mut f, Block::leaf(lit("magic: SQLite format 3"), ByteRange::new(0, min_u64(len, 16))));
    match read_u16(data, 16, false) {
        Some(page_size) => {
            let l = label_u32("page_size: ", page_size_display(page_size));
            push_block(&mut f, Block::leaf(l, ByteRange::new(16, 18)));
        },
        None => {},
    }
    push_u8_field(data, &mut f, 18, "file_format_write_version: ");
    push_u8_field(data, &mut f, 19, "file_format_read_version: ");
    push_u8_field(data, &mut f, 20, "reserved_space: ");
    push_u8_field(data, &mut f, 21, "max_embedded_payload_fraction: ");
    push_u8_field(data, &mut f, 22, "min_embedded_payload_fraction: ");
    push_u8_field(data, &mut f, 23, "leaf_payload_fraction: ");
    push_u32_field(data, &mut f, 24, "file_change_counter: ");
    push_u32_field(data, &mut f, 28, "database_size_pages: ");
    push_u32_field(data, &mut f, 32, "first_freelist_trunk_page: ");
    push_u32_field(data, &mut f, 36, "total_freelist_pages: ");
    push_u32_field(data, &mut f, 40, "schema_cookie: ");
    push_u32_field(data, &mut f, 44, "schema_format_number: ");
    push_u32_field(data, &mut f, 48, "default_page_cache_size: ");
    push_u32_field(data, &mut f, 52, "largest_root_btree_page: ");
    match read_u32(data, 56, false) {
        Some(v) => {
            let mut l = label_str("text_encoding: ", text_encoding_name(v));
            push_str(&mut l, " (");
            push_u32(&mut l, v);
            push_str(&mut l, ")");
            push_block(&mut f, Block::leaf(l, ByteRange::new(56, 60)));
        },
        None => {},
    }
    push_u32_field(data, &mut f, 60, "user_version: ");
    push_u32_field(data, &mut f, 64, "incremental_vacuum_mode: ");
    push_u32_field(data, &mut f, 68, "application_id: ");
    if data.len() >= 92 {
        push_block(&mut f, Block::leaf(lit("reserved_for_expansion"), ByteRange::new(72, 92)));
    }
    push_u32_field(data, &mut f, 92, "version_valid_for: ");
    push_u32_field(data, &mut f, 96, "sqlite_version_number: ");
    Block::node(lit("Database header"), ByteRange::new(0, end), f).expanded()
}

/// A database file: nothing when empty; otherwise the header and, past
/// 100 bytes, the span of database pages.
pub open spec fn sqlite_s(d: Seq<u8>) -> Seq<BlockModel> {
    if d.len() == 0 {
        Seq::empty()
    } else {
        push_if(seq![header_s(d)], d.len() > 100, leaf_m("Database pages"@, rng(100, d.len() as int)))
    }
}

/// Each block of a database file lies within the data, and every header
/// field covers a sub-range of the header.
pub proof fn lemma_sqlite_blocks_nest(d: Seq<u8>)
    requires
        input_ok(d),
    ensures
        all_nest(d, SqliteDissector.spec_dissect(d)),
{
    if d.len() > 0 {
        let hi = imin(d.len() as int, 100);
        assert forall|acc: Seq<BlockModel>, off: int, name: Seq<char>|
            leaves_in(acc, hi) && 0 <= off && off + 4 <= 100 implies #[trigger] leaves_in(
            u32_field(acc, d, off, name),
            hi,
        ) by {
            lemma_push_leaf(acc, fits(d, off, 4), leaf_m(name + dec(u32at(d, off, false) as nat), rng(off, off + 4)), hi);
        }
        assert forall|acc: Seq<BlockModel>, off: int, name: Seq<char>|
            leaves_in(acc, hi) && 0 <= off && off + 1 <= 100 implies #[trigger] leaves_in(
            u8_field(acc, d, off, name),
            hi,
        ) by {
            lemma_push_leaf(acc, fits(d, off, 1), leaf_m(name + dec(d[off] as nat), rng(off, off + 1)), hi);
        }
        reveal(header_s);
        let c0 = seq![leaf_m("magic: SQLite format 3"@, rng(0, imin(d.len() as int, 16)))];
        let c1 = push_if(c0, fits(d, 16, 2),
            leaf_m("page_size: "@ + dec(page_size_display_s(u16at(d, 16, false)) as nat), rng(16, 18)));
        lemma_push_leaf(c0, fits(d, 16, 2),
            leaf_m("page_size: "@ + dec(page_size_display_s(u16at(d, 16, false)) as nat), rng(16, 18)), hi);
        let c2 = u8_field(c1, d, 18, "file_format_write_version: "@);
        let c3 = u8_field(c2, d, 19, "file_format_read_version: "@);
        let c4 = u8_field(c3, d, 20, "reserved_space: "@);
        let c5 = u8_field(c4, d, 21, "max_embedded_payload_fraction: "@);
        let c6 = u8_field(c5, d, 22, "min_embedded_payload_fraction: "@);
        let c7 = u8_field(c6, d, 23, "leaf_payload_fraction: "@);
        let c8 = u32_field(c7, d, 24, "file_change_counter: "@);
        let c9 = u32_field(c8, d, 28, "database_size_pages: "@);
        let c10 = u32_field(c9, d, 32, "first_freelist_trunk_page: "@);
        let c11 = u32_field(c10, d, 36, "total_freelist_pages: "@);
        let c12 = u32_field(c11, d, 40, "schema_cookie: "@);
        let c13 = u32_field(c12, d, 44, "schema_format_number: "@);
        let c14 = u32_field(c13, d, 48, "default_page_cache_size: "@);
        let c15 = u32_field(c14, d, 52, "largest_root_btree_page: "@);
        let t = leaf_m(
            "text_encoding: "@ + text_encoding_name_s(u32at(d, 56, false)) + " ("@ + dec(u32at(d, 56, false) as nat) + ")"@,
            rng(56, 60),
        );
        lemma_push_leaf(c15, fits(d, 56, 4), t, hi);
        let c16 = push_if(c15, fits(d, 56, 4), t);
        let c17 = u32_field(c16, d, 60, "user_version: "@);
        let c18 = u32_field(c17, d, 64, "incremental_vacuum_mode: "@);
        let c19 = u32_field(c18, d, 68, "application_id: "@);
        lemma_push_leaf(c19, d.len() >= 92, leaf_m("reserved_for_expansion"@, rng(72, 92)), hi);
        let c20 = push_if(c19, d.len() >= 92, leaf_m("reserved_for_expansion"@, rng(72, 92)));
        let c21 = u32_field(c20, d, 92, "version_valid_for: "@);
        let c22 = u32_field(c21, d, 96, "sqlite_version_number: "@);
        assert(leaves_in(c22, hi));
        assert(header_s(d).children == c22);
        lemma_push_record(d, Seq::empty(), header_s(d));
        let s1 = seq![header_s(d)];
        assert(Seq::<BlockModel>::empty().push(header_s(d)) == s1);
        if d.len() > 100 {
            lemma_push_record(d, s1, leaf_m("Database pages"@, rng(100, d.len() as int)));
        }
    }
}

impl Dissector for SqliteDissector {
    open spec fn spec_name(&self) -> Seq<char> {
        "SQLite"@
    }

    open spec fn spec_matches(&self, data: Seq<u8>) -> bool {
        has_at(data, 0, "SQLite format 3\0"@.map_values(|c: char| c as u8))
    }

    open spec fn spec_dissect(&self, data: Seq<u8>) -> Seq<BlockModel> {
        sqlite_s(data)
    }

    fn name(&self) -> (r: &'static str) {
        "SQLite"
    }

    fn matches(&self, data: &[u8]) -> (r: bool) {
        let magic: [u8; 16] = [
            0x53, 0x51, 0x4c, 0x69, 0x74, 0x65, 0x20, 0x66, 0x6f, 0x72, 0x6d, 0x61, 0x74, 0x20, 0x33, 0x00,
        ];
        let r = bytes_at(data, 0, &magic);
        proof {
            reveal_strlit("SQLite format 3\0");
            assert(magic@ =~= "SQLite format 3\0"@.map_values(|c: char| c as u8));
        }
        r
    }

    fn dissect(&self, data: &[u8]) -> (r: Vec<Block>) {
        let mut blocks = no_blocks();
        if data.len() == 0 {
            return blocks;
        }
        push_block(&mut blocks, header_block(data));
        if data.len() as u64 > HEADER_SIZE {
            push_block(&mut blocks, Block::leaf(lit("Database pages"), ByteRange::new(HEADER_SIZE, data.len() as u64)));
        }
        blocks
    }
}

} // verus!
