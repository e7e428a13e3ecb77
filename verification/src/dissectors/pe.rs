//! Windows PE executables: DOS header, PE signature, COFF header, optional header and section table.

use vstd::prelude::*;
use super::{
    Block, BlockModel, ByteRange, Dissector, all_nest, input_ok, lemma_push_record, leaf_m, models, no_blocks, node_m, push_block,
    push_if, rng,
};
use crate::bytes::{
    avail, bytes_at, find_nul, fits, has_at, idx, imin, min_u64, opt_u32, or0_u32, read_u16,
    read_u32, u16at, u32at, until_nul,
};
use crate::text::{
    alt_hex, dec, label_hex16, label_hex32, label_str, label_u16, label_u32, lit, lossy_chars,
    push_str, trim_end_s, trim_end_string, utf8_lossy,
};
verus! {

pub struct PeDissector;

pub const E_LFANEW_OFFSET: u64 = 0x3c;

pub open spec fn pe_signature() -> Seq<u8> {
    seq![0x50u8, 0x45u8, 0x00u8, 0x00u8]
}

/// The PE header offset stored at 0x3c, if it and the four bytes it points to lie within `d`.
pub open spec fn pe_header_offset_s(d: Seq<u8>) -> Option<int> {
    if fits(d, 0x3c, 4) && u32at(d, 0x3c, true) + 4 <= d.len() {
        Some(u32at(d, 0x3c, true) as int)
    } else {
        None
    }
}

pub fn pe_header_offset(data: &[u8]) -> (r: Option<u64>)
    ensures
        r matches Some(p) ==> pe_header_offset_s(data@) == Some(p as int),
        r is None ==> pe_header_offset_s(data@) is None,
{
    match read_u32(data, E_LFANEW_OFFSET, true) {
        Some(v) => {
            let offset = v as u64;
            if offset + 4 > data.len() as u64 {
                None
            } else {
                Some(offset)
            }
        },
        None => None,
    }
}

/// The 64-byte DOS header.
pub open spec fn dos_header_s(d: Seq<u8>) -> BlockModel {
    node_m(
        "DOS header"@,
        rng(0, 64),
        Seq::empty()
            .push(leaf_m("Signature: MZ"@, rng(0, 2)))
            .push(leaf_m("DOS stub"@, rng(2, 0x3c)))
            .push(leaf_m("PE header offset: "@ + dec(or0_u32(opt_u32(d, 0x3c, true)) as nat), rng(0x3c, 0x40))),
    ).expand()
}

fn dos_header_block(data: &[u8]) -> (b: Block)
    ensures
        b@ == dos_header_s(data@),
{
    let e_lfanew = match read_u32(data, E_LFANEW_OFFSET, true) { Some(v) => v, None => 0 };
    let mut ch = no_blocks();
    push_block(&mut ch, Block::leaf(lit("Signature: MZ"), ByteRange::new(0, 2)));
    push_block(&mut ch, Block::leaf(lit("DOS stub"), ByteRange::new(2, E_LFANEW_OFFSET)));
    push_block(&mut ch, Block::leaf(label_u32("PE header offset: ", e_lfanew), ByteRange::new(E_LFANEW_OFFSET, E_LFANEW_OFFSET + 4)));
    Block::node(lit("DOS header"), ByteRange::new(0, 64), ch).expanded()
}

pub open spec fn machine_name_s(v: u16) -> Seq<char> {
    if v == 0x014c {
        "I386"@
    } else if v == 0x0200 {
        "IA64"@
    } else if v == 0x8664 {
        "AMD64"@
    } else if v == 0x01c4 {
        "ARMNT"@
    } else if v == 0xaa64 {
        "ARM64"@
    } else {
        "unknown ("@ + alt_hex(v as nat, 6) + ")"@
    }
}

pub fn machine_name(value: u16) -> (r: String)
    ensures
        r@ == machine_name_s(value),
{
    if value == 0x014c {
        lit("I386")
    } else if value == 0x0200 {
        lit("IA64")
    } else if value == 0x8664 {
        lit("AMD64")
    } else if value == 0x01c4 {
        lit("ARMNT")
    } else if value == 0xaa64 {
        lit("ARM64")
    } else {
        let mut s = label_hex16("unknown (", value, 6);
        push_str(&mut s, ")");
        s
    }
}

/// The 20-byte COFF file header at `o`.
pub open spec fn coff_s(d: Seq<u8>, o: int) -> BlockModel {
    node_m(
        "COFF file header"@,
        rng(o, o + 20),
        Seq::empty()
            .push(leaf_m("Machine: "@ + machine_name_s(u16at(d, o, true)), rng(o, o + 2)))
            .push(leaf_m("Number of sections: "@ + dec(u16at(d, o + 2, true) as nat), rng(o + 2, o + 4)))
            .push(leaf_m("Time/date stamp: "@ + dec(u32at(d, o + 4, true) as nat), rng(o + 4, o + 8)))
            .push(leaf_m("Pointer to symbol table: "@ + alt_hex(u32at(d, o + 8, true) as nat, 0), rng(o + 8, o + 12)))
            .push(leaf_m("Number of symbols: "@ + dec(u32at(d, o + 12, true) as nat), rng(o + 12, o + 16)))
            .push(leaf_m("Size of optional header: "@ + dec(u16at(d, o + 16, true) as nat), rng(o + 16, o + 18)))
            .push(leaf_m("Characteristics: "@ + alt_hex(u16at(d, o + 18, true) as nat, 6), rng(o + 18, o + 20))),
    ).expand()
}

fn coff_header_block(data: &[u8], offset: u64) -> (r: Option<(Block, u16, u16)>)
    requires
        offset <= 0x7fff_ffff_ffff_ffff,
    ensures
        r matches Some((b, n, s)) ==> fits(data@, offset as int, 20) && b@ == coff_s(data@, offset as int)
            && n == u16at(data@, offset + 2, true) && s == u16at(data@, offset + 16, true),
        r is None ==> !fits(data@, offset as int, 20),
{
    if !avail(data, offset, 20) {
        return None;
    }
    let o = offset;
    let machine = read_u16(data, o, true).unwrap();
    let number_of_sections = read_u16(data, o + 2, true).unwrap();
    let time_date_stamp = read_u32(data, o + 4, true).unwrap();
    let pointer_to_symbol_table = read_u32(data, o + 8, true).unwrap();
    let number_of_symbols = read_u32(data, o + 12, true).unwrap();
    let size_of_optional_header = read_u16(data, o + 16, true).unwrap();
    let characteristics = read_u16(data, o + 18, true).unwrap();
    let mut ch = no_blocks();
    let mn = machine_name(machine);
    push_block(&mut ch, Block::leaf(label_str("Machine: ", mn.as_str()), ByteRange::new(o, o + 2)));
    push_block(&mut ch, Block::leaf(label_u16("Number of sections: ", number_of_sections), ByteRange::new(o + 2, o + 4)));
    push_block(&mut ch, Block::leaf(label_u32("Time/date stamp: ", time_date_stamp), ByteRange::new(o + 4, o + 8)));
    push_block(&mut ch, Block::leaf(label_hex32("Pointer to symbol table: ", pointer_to_symbol_table, 0), ByteRange::new(o + 8, o + 12)));
    push_block(&mut ch, Block::leaf(label_u32("Number of symbols: ", number_of_symbols), ByteRange::new(o + 12, o + 16)));
    push_block(&mut ch, Block::leaf(label_u16("Size of optional header: ", size_of_optional_header), ByteRange::new(o + 16, o + 18)));
    push_block(&mut ch, Block::leaf(label_hex16("Characteristics: ", characteristics, 6), ByteRange::new(o + 18, o + 20)));
    let b = Block::node(lit("COFF file header"), ByteRange::new(o, o + 20), ch).expanded();
    Some((b, number_of_sections, size_of_optional_header))
}

/// The optional header's magic in words.
pub open spec fn magic_label_s(v: u16) -> Seq<char> {
    if v == 0x10b {
        "PE32"@
    } else if v == 0x20b {
        "PE32+ (64-bit)"@
    } else {
        "unknown ("@ + alt_hex(v as nat, 6) + ")"@
    }
}

fn magic_label(value: u16) -> (r: String)
    ensures
        r@ == magic_label_s(value),
{
    if value == 0x10b {
        lit("PE32")
    } else if value == 0x20b {
        lit("PE32+ (64-bit)")
    } else {
        let mut s = label_hex16("unknown (", value, 6);
        push_str(&mut s, ")");
        s
    }
}

/// The optional header of `size` bytes at `o`, cut at the end of `d`; none
/// when no byte of it lies within `d`.
pub open spec fn optional_s(d: Seq<u8>, o: int, size: int) -> Option<BlockModel> {
    let available = imin(d.len() - o, size);
    if d.len() < o || available == 0 {
        None
    } else {
        let end = o + available;
        let c = if available >= 2 {
            push_if(
                seq![leaf_m("Magic: "@ + magic_label_s(u16at(d, o, true)), rng(o, o + 2))],
                end > o + 2,
                leaf_m("Optional header data"@, rng(o + 2, end)),
            )
        } else {
            seq![leaf_m("Optional header data"@, rng(o, end))]
        };
        Some(node_m("Optional header"@, rng(o, end), c))
    }
}

fn optional_header_block(data: &[u8], offset: u64, size: u64) -> (r: Option<Block>)
    requires
        offset <= 0x7fff_ffff_ffff_ffff,
        size <= 0xffff,
    ensures
        r matches Some(b) ==> optional_s(data@, offset as int, size as int) == Some(b@),
        r is None ==> optional_s(data@, offset as int, size as int) is None,
{
    let data_len = data.len() as u64;
    if data_len < offset {
        return None;
    }
    let available = min_u64(data_len - offset, size);
    if available == 0 {
        return None;
    }
    let end = offset + available;
    let mut ch = no_blocks();
    if available >= 2 {
        let magic = read_u16(data, offset, true).unwrap();
        let ml = magic_label(magic);
        push_block(&mut ch, Block::leaf(label_str("Magic: ", ml.as_str()), ByteRange::new(offset, offset + 2)));
        if end > offset + 2 {
            push_block(&mut ch, Block::leaf(lit("Optional header data"), ByteRange::new(offset + 2, end)));
        }
    } else {
        push_block(&mut ch, Block::leaf(lit("Optional header data"), ByteRange::new(offset, end)));
    }
    Some(Block::node(lit("Optional header"), ByteRange::new(offset, end), ch))
}

/// The section name: the first eight bytes up to a NUL, decoded, without trailing white space.
pub open spec fn section_name_s(d: Seq<u8>, o: int) -> Seq<char> {
    trim_end_s(utf8_lossy(until_nul(d.subrange(o, o + 8))))
}

/// The 40-byte section header at `o`, if it lies within `d`.
#[verifier::opaque]
pub open spec fn section_s(d: Seq<u8>, o: int) -> Option<BlockModel> {
    if !fits(d, o, 40) {
        None
    } else {
        let name = section_name_s(d, o);
        Some(node_m(
            "Section: "@ + name,
            rng(o, o + 40),
            Seq::empty()
                .push(leaf_m("Name: "@ + name, rng(o, o + 8)))
                .push(leaf_m("Virtual size: "@ + alt_hex(u32at(d, o + 8, true) as nat, 0), rng(o + 8, o + 12)))
                .push(leaf_m("Virtual address: "@ + alt_hex(u32at(d, o + 12, true) as nat, 0), rng(o + 12, o + 16)))
                .push(leaf_m("Size of raw data: "@ + alt_hex(u32at(d, o + 16, true) as nat, 0), rng(o + 16, o + 20)))
                .push(leaf_m("Pointer to raw data: "@ + alt_hex(u32at(d, o + 20, true) as nat, 0), rng(o + 20, o + 24)))
                .push(leaf_m("Pointer to relocations: "@ + alt_hex(u32at(d, o + 24, true) as nat, 0), rng(o + 24, o + 28)))
                .push(leaf_m("Pointer to line numbers: "@ + alt_hex(u32at(d, o + 28, true) as nat, 0), rng(o + 28, o + 32)))
                .push(leaf_m("Number of relocations: "@ + dec(u16at(d, o + 32, true) as nat), rng(o + 32, o + 34)))
                .push(leaf_m("Number of line numbers: "@ + dec(u16at(d, o + 34, true) as nat), rng(o + 34, o + 36)))
                .push(leaf_m("Characteristics: "@ + alt_hex(u32at(d, o + 36, true) as nat, 10), rng(o + 36, o + 40))),
        ))
    }
}

fn section_block(data: &[u8], offset: u64) -> (r: Option<Block>)
    requires
        offset <= 0xffff_ffff_ffff,
    ensures
        r matches Some(b) ==> section_s(data@, offset as int) == Some(b@),
        r is None ==> section_s(data@, offset as int) is None,
{
    reveal(section_s);
    if !avail(data, offset, 40) {
        return None;
    }
    let o = offset;
    let start = idx(data, o);
    let n = find_nul(data, start, start + 8);
    let name_bytes = vstd::slice::slice_subrange(data, start, start + n);
    assert(name_bytes@ =~= until_nul(data@.subrange(o as int, o + 8)));
    let name_chars = lossy_chars(name_bytes);
    let name = trim_end_string(name_chars.as_slice());
    let virtual_size = read_u32(data, o + 8, true).unwrap();
    let virtual_address = read_u32(data, o + 12, true).unwrap();
    let size_of_raw_data = read_u32(data, o + 16, true).unwrap();
    let pointer_to_raw_data = read_u32(data, o + 20, true).unwrap();
    let pointer_to_relocations = read_u32(data, o + 24, true).unwrap();
    let pointer_to_linenumbers = read_u32(data, o + 28, true).unwrap();
    let number_of_relocations = read_u16(data, o + 32, true).unwrap();
    let number_of_linenumbers = read_u16(data, o + 34, true).unwrap();
    let characteristics = read_u32(data, o + 36, true).unwrap();
    let mut ch = no_blocks();
    push_block(&mut ch, Block::leaf(label_str("Name: ", name.as_str()), ByteRange::new(o, o + 8)));
    push_block(&mut ch, Block::leaf(label_hex32("Virtual size: ", virtual_size, 0), ByteRange::new(o + 8, o + 12)));
    push_block(&mut ch, Block::leaf(label_hex32("Virtual address: ", virtual_address, 0), ByteRange::new(o + 12, o + 16)));
    push_block(&mut ch, Block::leaf(label_hex32("Size of raw data: ", size_of_raw_data, 0), ByteRange::new(o + 16, o + 20)));
    push_block(&mut ch, Block::leaf(label_hex32("Pointer to raw data: ", pointer_to_raw_data, 0), ByteRange::new(o + 20, o + 24)));
    push_block(&mut ch, Block::leaf(label_hex32("Pointer to relocations: ", pointer_to_relocations, 0), ByteRange::new(o + 24, o + 28)));
    push_block(&mut ch, Block::leaf(label_hex32("Pointer to line numbers: ", pointer_to_linenumbers, 0), ByteRange::new(o + 28, o + 32)));
    push_block(&mut ch, Block::leaf(label_u16("Number of relocations: ", number_of_relocations), ByteRange::new(o + 32, o + 34)));
    push_block(&mut ch, Block::leaf(label_u16("Number of line numbers: ", number_of_linenumbers), ByteRange::new(o + 34, o + 36)));
    push_block(&mut ch, Block::leaf(label_hex32("Characteristics: ", characteristics, 10), ByteRange::new(o + 36, o + 40)));
    let title = label_str("Section: ", name.as_str());
    Some(Block::node(title, ByteRange::new(o, o + 40), ch))
}

/// Section headers `i..n` of the table at `t`, appended to `acc`, up to the first that does not fit.
pub open spec fn sections_s(d: Seq<u8>, t: int, n: nat, i: nat, acc: Seq<BlockModel>) -> Seq<BlockModel>
    decreases n - i,
{
    if i >= n {
        acc
    } else {
        match section_s(d, t + i * 40) {
            Some(b) => sections_s(d, t, n, i + 1, acc.push(b)),
            None => acc,
        }
    }
}

/// A PE file: nothing below 64 bytes; the DOS header; then, when the PE
/// signature is where the DOS header points, it, the COFF header, the
/// optional header and the section table.
pub open spec fn pe_s(d: Seq<u8>) -> Seq<BlockModel> {
    if d.len() < 64 {
        Seq::empty()
    } else {
        let s0 = seq![dos_header_s(d)];
        match pe_header_offset_s(d) {
            None => s0,
            Some(p) => if !has_at(d, p, pe_signature()) {
                s0
            } else {
                let s1 = s0.push(leaf_m("PE signature: PE\\0\\0"@, rng(p, p + 4)));
                let c = p + 4;
                if !fits(d, c, 20) {
                    s1
                } else {
                    let s2 = s1.push(coff_s(d, c));
                    let nsec = u16at(d, c + 2, true);
                    let sopt = u16at(d, c + 16, true) as int;
                    let oh = c + 20;
                    let s3 = if sopt > 0 {
                        match optional_s(d, oh, sopt) {
                            Some(b) => s2.push(b),
                            None => s2,
                        }
                    } else {
                        s2
                    };
                    sections_s(d, oh + sopt, nsec as nat, 0, s3)
                }
            },
        }
    }
}

/// The optional header's first child names its magic from its first two
/// bytes read little-endian: `0b 01` is PE32 and `0b 02` is PE32+.
pub proof fn lemma_optional_magic(d: Seq<u8>, o: int, size: int)
    requires
        0 <= o,
        o + 2 <= d.len(),
        size >= 2,
    ensures
        optional_s(d, o, size) matches Some(b) ==> {
            &&& b.children.len() >= 1
            &&& b.children[0].range == rng(o, o + 2)
            &&& d[o] == 0x0b && d[o + 1] == 0x01 ==> b.children[0].label == "Magic: "@ + "PE32"@
            &&& d[o] == 0x0b && d[o + 1] == 0x02 ==> b.children[0].label == "Magic: "@ + "PE32+ (64-bit)"@
            &&& b.children[0].label == "Magic: "@ + magic_label_s((d[o] + 0x100 * d[o + 1]) as u16)
        },
{
}

proof fn lemma_sections_nest(d: Seq<u8>, t: int, n: nat, i: nat, acc: Seq<BlockModel>)
    requires
        input_ok(d),
        all_nest(d, acc),
    ensures
        all_nest(d, sections_s(d, t, n, i, acc)),
    decreases n - i,
{
    if i < n {
        if let Some(b) = section_s(d, t + i * 40) {
            reveal(section_s);
            lemma_push_record(d, acc, b);
            lemma_sections_nest(d, t, n, i + 1, acc.push(b));
        }
    }
}

/// Each block of a PE file lies within the data, and the fields of each
/// header and section header cover sub-ranges of it.
pub proof fn lemma_pe_blocks_nest(d: Seq<u8>)
    requires
        input_ok(d),
    ensures
        all_nest(d, PeDissector.spec_dissect(d)),
{
    if d.len() >= 64 {
        let s0 = seq![dos_header_s(d)];
        lemma_push_record(d, Seq::empty(), dos_header_s(d));
        assert(Seq::<BlockModel>::empty().push(dos_header_s(d)) == s0);
        if let Some(p) = pe_header_offset_s(d) {
            if has_at(d, p, pe_signature()) {
                let s1 = s0.push(leaf_m("PE signature: PE\\0\\0"@, rng(p, p + 4)));
                lemma_push_record(d, s0, leaf_m("PE signature: PE\\0\\0"@, rng(p, p + 4)));
                let c = p + 4;
                if fits(d, c, 20) {
                    let s2 = s1.push(coff_s(d, c));
                    lemma_push_record(d, s1, coff_s(d, c));
                    let nsec = u16at(d, c + 2, true);
                    let sopt = u16at(d, c + 16, true) as int;
                    let oh = c + 20;
                    let s3 = if sopt > 0 {
                        match optional_s(d, oh, sopt) {
                            Some(b) => {
                                lemma_push_record(d, s2, b);
                                s2.push(b)
                            },
                            None => s2,
                        }
                    } else {
                        s2
                    };
                    lemma_sections_nest(d, oh + sopt, nsec as nat, 0, s3);
                }
            }
        }
    }
}

impl Dissector for PeDissector {
    open spec fn spec_name(&self) -> Seq<char> {
        "PE"@
    }

    open spec fn spec_matches(&self, data: Seq<u8>) -> bool {
        has_at(data, 0, seq![0x4du8, 0x5au8]) && match pe_header_offset_s(data) {
            Some(p) => has_at(data, p, pe_signature()),
            None => false,
        }
    }

    open spec fn spec_dissect(&self, data: Seq<u8>) -> Seq<BlockModel> {
        pe_s(data)
    }

    fn name(&self) -> (r: &'static str) {
        "PE"
    }

    fn matches(&self, data: &[u8]) -> (r: bool) {
        let mz: [u8; 2] = [0x4d, 0x5a];
        let sig: [u8; 4] = [0x50, 0x45, 0x00, 0x00];
        assert(mz@ =~= seq![0x4du8, 0x5au8]);
        assert(sig@ =~= pe_signature());
        if !bytes_at(data, 0, &mz) {
            return false;
        }
        match pe_header_offset(data) {
            Some(p) => bytes_at(data, p, &sig),
            None => false,
        }
    }

    fn dissect(&self, data: &[u8]) -> (r: Vec<Block>) {
        let mut blocks = no_blocks();
        if data.len() < 64 {
            return blocks;
        }
        push_block(&mut blocks, dos_header_block(data));
        let p = match pe_header_offset(data) {
            Some(p) => p,
            None => return blocks,
        };
        let sig: [u8; 4] = [0x50, 0x45, 0x00, 0x00];
        assert(sig@ =~= pe_signature());
        if !bytes_at(data, p, &sig) {
            return blocks;
        }
        push_block(&mut blocks, Block::leaf(lit("PE signature: PE\\0\\0"), ByteRange::new(p, p + 4)));
        let c = p + 4;
        let (coff, nsec, sopt) = match coff_header_block(data, c) {
            Some(t) => t,
            None => return blocks,
        };
        push_block(&mut blocks, coff);
        let oh = c + 20;
        if sopt > 0 {
            match optional_header_block(data, oh, sopt as u64) {
                Some(b) => push_block(&mut blocks, b),
                None => {},
            }
        }
        let t = oh + sopt as u64;
        let ghost d = data@;
        let ghost s3 = models(blocks@);
        let mut i: u16 = 0;
        while i < nsec
            invariant_except_break
                sections_s(d, t as int, nsec as nat, 0, s3) == sections_s(d, t as int, nsec as nat, i as nat, models(blocks@)),
            invariant
                d == data@,
                i <= nsec,
                t <= 0x2_0000_0000,
            ensures
                sections_s(d, t as int, nsec as nat, 0, s3) == models(blocks@),
            decreases nsec - i,
        {
            match section_block(data, t + i as u64 * 40) {
                Some(b) => push_block(&mut blocks, b),
                None => break,
            }
            i = i + 1;
        }
        blocks
    }
}

} // verus!
