//! ELF objects: identification, header, and the extents of the program and section header tables.

use vstd::prelude::*;
use super::{
    Block, BlockModel, ByteRange, Dissector, input_ok, leaf_m, models, nests, no_blocks, node_m, push_block,
    rng, within,
};
use crate::bytes::{bytes_at, fits, has_at, read_u16, read_u32, read_u64, u16at, u32at, u64at};
use crate::text::{
    alt_hex, dec, label_hex, label_hex32, label_str, label_u16, label_u32, label_u64, label_u8,
    lit,
};
verus! {

pub struct ElfDissector;

pub open spec fn class_name_s(b: u8) -> Seq<char> {
    if b == 1 {
        "32-bit"@
    } else if b == 2 {
        "64-bit"@
    } else {
        "unknown"@
    }
}

pub fn class_name(b: u8) -> (r: &'static str)
    ensures
        r@ == class_name_s(b),
{
    if b == 1 {
        "32-bit"
    } else if b == 2 {
        "64-bit"
    } else {
        "unknown"
    }
}

pub open spec fn endianness_name_s(b: u8) -> Seq<char> {
    if b == 1 {
        "little"@
    } else if b == 2 {
        "big"@
    } else {
        "unknown"@
    }
}

pub fn endianness_name(b: u8) -> (r: &'static str)
    ensures
        r@ == endianness_name_s(b),
{
    if b == 1 {
        "little"
    } else if b == 2 {
        "big"
    } else {
        "unknown"
    }
}

pub open spec fn osabi_name_s(b: u8) -> Seq<char> {
    if b == 0 {
        "Unix - System V"@
    } else if b == 3 {
        "Linux"@
    } else if b == 6 {
        "Solaris"@
    } else {
        "unknown"@
    }
}

pub fn osabi_name(b: u8) -> (r: &'static str)
    ensures
        r@ == osabi_name_s(b),
{
    if b == 0 {
        "Unix - System V"
    } else if b == 3 {
        "Linux"
    } else if b == 6 {
        "Solaris"
    } else {
        "unknown"
    }
}

pub open spec fn file_type_name_s(v: u16) -> Seq<char> {
    if v == 1 {
        "relocatable"@
    } else if v == 2 {
        "executable"@
    } else if v == 3 {
        "shared object"@
    } else if v == 4 {
        "core"@
    } else {
        "unknown"@
    }
}

pub fn file_type_name(v: u16) -> (r: &'static str)
    ensures
        r@ == file_type_name_s(v),
{
    if v == 1 {
        "relocatable"
    } else if v == 2 {
        "executable"
    } else if v == 3 {
        "shared object"
    } else if v == 4 {
        "core"
    } else {
        "unknown"
    }
}

pub open spec fn machine_name_s(v: u16) -> Seq<char> {
    if v == 0x03 {
        "x86"@
    } else if v == 0x28 {
        "ARM"@
    } else if v == 0x3e {
        "x86_64"@
    } else if v == 0xb7 {
        "AArch64"@
    } else {
        "unknown"@
    }
}

pub fn machine_name(v: u16) -> (r: &'static str)
    ensures
        r@ == machine_name_s(v),
{
    if v == 0x03 {
        "x86"
    } else if v == 0x28 {
        "ARM"
    } else if v == 0x3e {
        "x86_64"
    } else if v == 0xb7 {
        "AArch64"
    } else {
        "unknown"
    }
}

/// The 16-byte identification block (collapsed).
pub open spec fn identification_s(d: Seq<u8>) -> BlockModel {
    node_m(
        "Identification"@,
        rng(0, 16),
        Seq::empty()
            .push(leaf_m("Magic number: ELF"@, rng(0, 4)))
            .push(leaf_m("Class: "@ + class_name_s(d[4]), rng(4, 5)))
            .push(leaf_m("Endianness: "@ + endianness_name_s(d[5]), rng(5, 6)))
            .push(leaf_m("Version: "@ + dec(d[6] as nat), rng(6, 7)))
            .push(leaf_m("OS/ABI: "@ + osabi_name_s(d[7]), rng(7, 8)))
            .push(leaf_m("Padding"@, rng(8, 16))),
    )
}

fn identification_block(data: &[u8]) -> (b: Block)
    requires
        data@.len() >= 16,
    ensures
        b@ == identification_s(data@),
{
    let mut ch = no_blocks();
    push_block(&mut ch, Block::leaf(lit("Magic number: ELF"), ByteRange::new(0, 4)));
    push_block(&mut ch, Block::leaf(label_str("Class: ", class_name(data[4])), ByteRange::new(4, 5)));
    push_block(&mut ch, Block::leaf(label_str("Endianness: ", endianness_name(data[5])), ByteRange::new(5, 6)));
    push_block(&mut ch, Block::leaf(label_u8("Version: ", data[6]), ByteRange::new(6, 7)));
    push_block(&mut ch, Block::leaf(label_str("OS/ABI: ", osabi_name(data[7])), ByteRange::new(7, 8)));
    push_block(&mut ch, Block::leaf(lit("Padding"), ByteRange::new(8, 16)));
    Block::node(lit("Identification"), ByteRange::new(0, 16), ch)
}

/// `e_version` in words: `current` for 1, else the number.
pub open spec fn version_text_s(v: u32) -> Seq<char> {
    if v == 1 { "current"@ } else { dec(v as nat) }
}

/// The header fields after `e_version`, for the 64-bit layout (offsets from
/// 24 to 64, 8-byte addresses) or the 32-bit one (offsets from 24 to 52).
pub open spec fn tail_fields_s(d: Seq<u8>, is_64: bool, le: bool) -> Seq<BlockModel> {
    let w: int = if is_64 { 8 } else { 4 };
    let a1 = 24 + w;
    let a2 = a1 + w;
    let f = a2 + w;
    let addr = |o: int| if is_64 { u64at(d, o, le) as nat } else { u32at(d, o, le) as nat };
    Seq::empty()
        .push(leaf_m("Entry: "@ + alt_hex(addr(24), 0), rng(24, a1)))
        .push(leaf_m("Program header offset: "@ + alt_hex(addr(a1), 0), rng(a1, a2)))
        .push(leaf_m("Section header offset: "@ + alt_hex(addr(a2), 0), rng(a2, f)))
        .push(leaf_m("Flags: "@ + alt_hex(u32at(d, f, le) as nat, 0), rng(f, f + 4)))
        .push(leaf_m("Header size: "@ + dec(u16at(d, f + 4, le) as nat), rng(f + 4, f + 6)))
        .push(leaf_m("Program header size: "@ + dec(u16at(d, f + 6, le) as nat), rng(f + 6, f + 8)))
        .push(leaf_m("Program header count: "@ + dec(u16at(d, f + 8, le) as nat), rng(f + 8, f + 10)))
        .push(leaf_m("Section header size: "@ + dec(u16at(d, f + 10, le) as nat), rng(f + 10, f + 12)))
        .push(leaf_m("Section header count: "@ + dec(u16at(d, f + 12, le) as nat), rng(f + 12, f + 14)))
        .push(leaf_m("Section header string index: "@ + dec(u16at(d, f + 14, le) as nat), rng(f + 14, f + 16)))
}

/// The size of the ELF header in the given class.
pub open spec fn header_end_s(is_64: bool) -> int {
    if is_64 { 64 } else { 52 }
}

/// The ELF header after the identification, if all of it lies within `d`.
pub open spec fn header_s(d: Seq<u8>, is_64: bool, le: bool) -> Option<BlockModel> {
    let end = header_end_s(is_64);
    if d.len() < end {
        None
    } else {
        let c = Seq::empty()
            .push(leaf_m("Type: "@ + file_type_name_s(u16at(d, 16, le)), rng(16, 18)))
            .push(leaf_m("Machine: "@ + machine_name_s(u16at(d, 18, le)), rng(18, 20)))
            .push(leaf_m("Version: "@ + version_text_s(u32at(d, 20, le)), rng(20, 24)));
        Some(node_m("Header: "@ + class_name_s(d[4]), rng(16, end), c + tail_fields_s(d, is_64, le)))
    }
}

/// An address-sized header field at `o`.
fn read_addr(data: &[u8], o: u64, is_64: bool, le: bool) -> (r: u64)
    requires
        fits(data@, o as int, if is_64 { 8int } else { 4int }),
    ensures
        r == if is_64 { u64at(data@, o as int, le) as nat } else { u32at(data@, o as int, le) as nat },
{
    if is_64 {
        read_u64(data, o, le).unwrap()
    } else {
        read_u32(data, o, le).unwrap() as u64
    }
}

fn header_block(data: &[u8], is_64: bool, le: bool) -> (r: Option<Block>)
    requires
        data@.len() >= 16,
    ensures
        r matches Some(b) ==> header_s(data@, is_64, le) == Some(b@),
        r is None ==> header_s(data@, is_64, le) is None,
{
    let end: u64 = if is_64 { 64 } else { 52 };
    if (data.len() as u64) < end {
        return None;
    }
    let w: u64 = if is_64 { 8 } else { 4 };
    let a1 = 24 + w;
    let a2 = a1 + w;
    let f = a2 + w;
    let mut ch = no_blocks();
    push_block(&mut ch, Block::leaf(label_str("Type: ", file_type_name(read_u16(data, 16, le).unwrap())), ByteRange::new(16, 18)));
    push_block(&mut ch, Block::leaf(label_str("Machine: ", machine_name(read_u16(data, 18, le).unwrap())), ByteRange::new(18, 20)));
    let version = read_u32(data, 20, le).unwrap();
    let vl = if version == 1 { label_str("Version: ", "current") } else { label_u32("Version: ", version) };
    push_block(&mut ch, Block::leaf(vl, ByteRange::new(20, 24)));
    let ghost c0 = models(ch@);
    push_block(&mut ch, Block::leaf(label_hex("Entry: ", read_addr(data, 24, is_64, le), 0), ByteRange::new(24, a1)));
    push_block(&mut ch, Block::leaf(label_hex("Program header offset: ", read_addr(data, a1, is_64, le), 0), ByteRange::new(a1, a2)));
    push_block(&mut ch, Block::leaf(label_hex("Section header offset: ", read_addr(data, a2, is_64, le), 0), ByteRange::new(a2, f)));
    push_block(&mut ch, Block::leaf(label_hex32("Flags: ", read_u32(data, f, le).unwrap(), 0), ByteRange::new(f, f + 4)));
    push_block(&mut ch, Block::leaf(label_u16("Header size: ", read_u16(data, f + 4, le).unwrap()), ByteRange::new(f + 4, f + 6)));
    push_block(&mut ch, Block::leaf(label_u16("Program header size: ", read_u16(data, f + 6, le).unwrap()), ByteRange::new(f + 6, f + 8)));
    push_block(&mut ch, Block::leaf(label_u16("Program header count: ", read_u16(data, f + 8, le).unwrap()), ByteRange::new(f + 8, f + 10)));
    push_block(&mut ch, Block::leaf(label_u16("Section header size: ", read_u16(data, f + 10, le).unwrap()), ByteRange::new(f + 10, f + 12)));
    push_block(&mut ch, Block::leaf(label_u16("Section header count: ", read_u16(data, f + 12, le).unwrap()), ByteRange::new(f + 12, f + 14)));
    push_block(&mut ch, Block::leaf(label_u16("Section header string index: ", read_u16(data, f + 14, le).unwrap()), ByteRange::new(f + 14, f + 16)));
    assert(models(ch@) =~= c0 + tail_fields_s(data@, is_64, le));
    Some(Block::node(label_str("Header: ", class_name(data[4])), ByteRange::new(16, end), ch))
}

/// An offset held to the largest 64-bit value.
pub open spec fn sat(x: int) -> u64 {
    if x > u64::MAX { u64::MAX } else { x as u64 }
}

/// `a + b`, saturating at the largest 64-bit value.
fn sat_add(a: u64, b: u64) -> (r: u64)
    ensures
        r == sat(a + b),
{
    if a > u64::MAX - b { u64::MAX } else { a + b }
}

/// A table of `n` entries of `size` bytes at `off`: one leaf per entry,
/// labelled with `prefix` and its index (collapsed). Offsets past the
/// largest 64-bit value are held at it, so every span runs forwards.
pub open spec fn table_s(title: Seq<char>, prefix: Seq<char>, off: u64, size: u64, n: u64) -> BlockModel {
    node_m(
        title,
        ByteRange { start: off, end: sat(off + size * n) },
        Seq::new(n as nat, |i: int| leaf_m(
            prefix + dec(i as nat),
            ByteRange { start: sat(off + i * size), end: sat(off + i * size + size) },
        )),
    )
}

pub fn table_block(title: &str, prefix: &str, offset: u64, size: u64, count: u64) -> (b: Block)
    requires
        size <= 0xffff,
        count <= 0xffff,
    ensures
        b@ == table_s(title@, prefix@, offset, size, count),
        b@.range.start <= b@.range.end,
        forall|i: int| 0 <= i < b@.children.len() ==> (#[trigger] b@.children[i]).range.start <= b@.children[i].range.end,
{
    let mut entries = no_blocks();
    let mut i: u64 = 0;
    while i < count
        invariant
            i <= count <= 0xffff,
            size <= 0xffff,
            models(entries@) =~= Seq::new(i as nat, |j: int| leaf_m(
                prefix@ + dec(j as nat),
                ByteRange { start: sat(offset + j * size), end: sat(offset + j * size + size) },
            )),
        decreases count - i,
    {
        assert(i * size <= 0xffff * 0xffff) by (nonlinear_arith)
            requires
                i <= 0xffff,
                size <= 0xffff,
        ;
        let start = sat_add(offset, i * size);
        let end = sat_add(offset, i * size + size);
        push_block(&mut entries, Block::leaf(label_u64(prefix, i), ByteRange::new(start, end)));
        i = i + 1;
    }
    assert(size * count <= 0xffff * 0xffff) by (nonlinear_arith)
        requires
            count <= 0xffff,
            size <= 0xffff,
    ;
    let b = Block::node(lit(title), ByteRange::new(offset, sat_add(offset, size * count)), entries);
    proof { lemma_table_nests(title@, prefix@, offset, size, count); }
    b
}

/// Offset, entry size and count of the program header table.
pub open spec fn program_header_info_s(d: Seq<u8>, is_64: bool, le: bool) -> (u64, u64, u64) {
    if is_64 {
        (u64at(d, 32, le), u16at(d, 54, le) as u64, u16at(d, 56, le) as u64)
    } else {
        (u32at(d, 28, le) as u64, u16at(d, 42, le) as u64, u16at(d, 44, le) as u64)
    }
}

/// Offset, entry size and count of the section header table.
pub open spec fn section_header_info_s(d: Seq<u8>, is_64: bool, le: bool) -> (u64, u64, u64) {
    if is_64 {
        (u64at(d, 40, le), u16at(d, 58, le) as u64, u16at(d, 60, le) as u64)
    } else {
        (u32at(d, 32, le) as u64, u16at(d, 46, le) as u64, u16at(d, 48, le) as u64)
    }
}

/// An ELF file: nothing below 16 bytes; the identification; when the whole
/// header lies within `d`, the header and the program and section header tables.
pub open spec fn elf_s(d: Seq<u8>) -> Seq<BlockModel> {
    if d.len() < 16 {
        Seq::empty()
    } else {
        let is_64 = d[4] == 2;
        let le = d[5] != 2;
        let s0 = seq![identification_s(d)];
        match header_s(d, is_64, le) {
            None => s0,
            Some(h) => {
                let (po, ps, pn) = program_header_info_s(d, is_64, le);
                let (so, ss, sn) = section_header_info_s(d, is_64, le);
                s0.push(h)
                    .push(table_s("Program headers"@, "Program header "@, po, ps, pn))
                    .push(table_s("Section headers"@, "Section header "@, so, ss, sn))
            },
        }
    }
}

proof fn lemma_table_nests(title: Seq<char>, prefix: Seq<char>, off: u64, size: u64, n: u64)
    requires
        size <= 0xffff,
        n <= 0xffff,
    ensures
        nests(table_s(title, prefix, off, size, n)),
        table_s(title, prefix, off, size, n).range.start <= table_s(title, prefix, off, size, n).range.end,
{
    let t = table_s(title, prefix, off, size, n);
    assert(size * n <= 0xffff * 0xffff) by (nonlinear_arith)
        requires
            size <= 0xffff,
            n <= 0xffff,
    ;
    assert forall|i: int| 0 <= i < t.children.len() implies within(#[trigger] t.children[i], t)
        && nests(t.children[i]) by {
        assert(i * size + size <= size * n) by (nonlinear_arith)
            requires
                0 <= i < n,
                size >= 0,
        ;
        assert(0 <= i * size) by (nonlinear_arith)
            requires
                0 <= i,
                size >= 0,
        ;
        assert(t.children[i].children.len() == 0);
    }
}

/// Every block of an ELF file runs forwards and covers a sub-range of the
/// block that holds it.
pub proof fn lemma_elf_blocks_nest(d: Seq<u8>)
    requires
        input_ok(d),
    ensures
        forall|i: int| 0 <= i < ElfDissector.spec_dissect(d).len() ==> nests(#[trigger] ElfDissector.spec_dissect(d)[i])
            && ElfDissector.spec_dissect(d)[i].range.start <= ElfDissector.spec_dissect(d)[i].range.end,
{
    if d.len() >= 16 {
        let is_64 = d[4] == 2;
        let le = d[5] != 2;
        let id = identification_s(d);
        assert forall|i: int| 0 <= i < id.children.len() implies within(#[trigger] id.children[i], id)
            && nests(id.children[i]) by {
            assert(id.children[i].children.len() == 0);
        }
        if let Some(h) = header_s(d, is_64, le) {
            assert forall|i: int| 0 <= i < h.children.len() implies within(#[trigger] h.children[i], h)
                && nests(h.children[i]) by {
                assert(h.children[i].children.len() == 0);
            }
            let (po, ps, pn) = program_header_info_s(d, is_64, le);
            let (so, ss, sn) = section_header_info_s(d, is_64, le);
            lemma_table_nests("Program headers"@, "Program header "@, po, ps, pn);
            lemma_table_nests("Section headers"@, "Section header "@, so, ss, sn);
        }
    }
}

/// Whether `b` is a table of `n` entries of `size` bytes from `off`: it
/// starts at `off`, and entry `i` spans `off + i * size` to the next `size`
/// bytes, every offset held at the largest 64-bit value.
pub open spec fn laid_out(b: BlockModel, off: int, size: int, n: int) -> bool {
    &&& b.range.start == off
    &&& b.range.end == sat(off + size * n)
    &&& b.children.len() == n
    &&& forall|i: int| 0 <= i < n ==> (#[trigger] b.children[i]).range.start == sat(off + i * size)
        && b.children[i].range.end == sat(off + i * size + size)
}

/// The program and section header tables stand where the ELF header says:
/// in a 32-bit file at the 32-bit offsets at 28 and 32, with entry sizes
/// and counts at 42/44 and 46/48; in a 64-bit file at the 64-bit offsets at
/// 32 and 40, with sizes and counts at 54/56 and 58/60 (all in the file's
/// byte order).
pub proof fn lemma_elf_tables_at_header_offsets(d: Seq<u8>)
    requires
        input_ok(d),
    ensures
        d.len() >= 52 && d[4] != 2 ==> {
            let le = d[5] != 2;
            let s = ElfDissector.spec_dissect(d);
            &&& s.len() == 4
            &&& s[2].label == "Program headers"@
            &&& laid_out(s[2], u32at(d, 28, le) as int, u16at(d, 42, le) as int, u16at(d, 44, le) as int)
            &&& s[3].label == "Section headers"@
            &&& laid_out(s[3], u32at(d, 32, le) as int, u16at(d, 46, le) as int, u16at(d, 48, le) as int)
        },
        d.len() >= 64 && d[4] == 2 ==> {
            let le = d[5] != 2;
            let s = ElfDissector.spec_dissect(d);
            &&& s.len() == 4
            &&& s[2].label == "Program headers"@
            &&& laid_out(s[2], u64at(d, 32, le) as int, u16at(d, 54, le) as int, u16at(d, 56, le) as int)
            &&& s[3].label == "Section headers"@
            &&& laid_out(s[3], u64at(d, 40, le) as int, u16at(d, 58, le) as int, u16at(d, 60, le) as int)
        },
{
}

impl Dissector for ElfDissector {
    open spec fn spec_name(&self) -> Seq<char> {
        "ELF"@
    }

    open spec fn spec_matches(&self, data: Seq<u8>) -> bool {
        has_at(data, 0, seq![0x7fu8, 0x45u8, 0x4cu8, 0x46u8])
    }

    open spec fn spec_dissect(&self, data: Seq<u8>) -> Seq<BlockModel> {
        elf_s(data)
    }

    fn name(&self) -> (r: &'static str) {
        "ELF"
    }

    fn matches(&self, data: &[u8]) -> (r: bool) {
        let magic: [u8; 4] = [0x7f, 0x45, 0x4c, 0x46];
        assert(magic@ =~= seq![0x7fu8, 0x45u8, 0x4cu8, 0x46u8]);
        bytes_at(data, 0, &magic)
    }

    fn dissect(&self, data: &[u8]) -> (r: Vec<Block>) {
        let mut blocks = no_blocks();
        if data.len() < 16 {
            return blocks;
        }
        push_block(&mut blocks, identification_block(data));
        let is_64 = data[4] == 2;
        let le = data[5] != 2;
        match header_block(data, is_64, le) {
            Some(h) => {
                push_block(&mut blocks, h);
                let (po, pn_off) = if is_64 { (read_u64(data, 32, le).unwrap(), 54u64) } else { (read_u32(data, 28, le).unwrap() as u64, 42u64) };
                let ps = read_u16(data, pn_off, le).unwrap() as u64;
                let pn = read_u16(data, pn_off + 2, le).unwrap() as u64;
                push_block(&mut blocks, table_block("Program headers", "Program header ", po, ps, pn));
                let (so, sn_off) = if is_64 { (read_u64(data, 40, le).unwrap(), 58u64) } else { (read_u32(data, 32, le).unwrap() as u64, 46u64) };
                let ss = read_u16(data, sn_off, le).unwrap() as u64;
                let sn = read_u16(data, sn_off + 2, le).unwrap() as u64;
                push_block(&mut blocks, table_block("Section headers", "Section header ", so, ss, sn));
            },
            None => {},
        }
        blocks
    }
}

} // verus!
