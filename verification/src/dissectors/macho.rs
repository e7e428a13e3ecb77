//! Mach-O binaries: the Mach header and its load commands.

use vstd::prelude::*;
use super::{
    Block, BlockModel, ByteRange, Dissector, all_tree_ok, input_ok, lemma_flat_tree_ok, lemma_push_tree,
    leaf_m, models, no_blocks, node_m, push_block, rng,
};
use crate::bytes::{as_i32, avail, find_nul, fits, idx, opt_u32, read_u32, u32at, until_nul};
use crate::text::{
    alt_hex, bool_text, dec, label_bool, label_hex32, label_i32, label_str, label_u32, label_u64,
    label_u64_wrap, lit, lossy_string, push_str, sdec, utf8_lossy,
};
verus! {

pub struct MachoDissector;

pub const MAGIC_32: u32 = 0xfeedface;
pub const MAGIC_64: u32 = 0xfeedfacf;

/// The CPU type in words; unknown values as signed decimals.
pub open spec fn cpu_type_name_s(v: u32) -> Seq<char> {
    if v == 7 {
        "x86"@
    } else if v == 0x01000007 {
        "x86_64"@
    } else if v == 12 {
        "ARM"@
    } else if v == 0x0100000c {
        "ARM64"@
    } else {
        "unknown ("@ + sdec(as_i32(v)) + ")"@
    }
}

pub fn cpu_type_name(value: u32) -> (r: String)
    ensures
        r@ == cpu_type_name_s(value),
{
    if value == 7 {
        lit("x86")
    } else if value == 0x01000007 {
        lit("x86_64")
    } else if value == 12 {
        lit("ARM")
    } else if value == 0x0100000c {
        lit("ARM64")
    } else {
        let mut s = label_i32("unknown (", value);
        push_str(&mut s, ")");
        s
    }
}

pub open spec fn file_type_name_s(v: u32) -> Seq<char> {
    if v == 1 {
        "MH_OBJECT"@
    } else if v == 2 {
        "MH_EXECUTE"@
    } else if v == 6 {
        "MH_DYLIB"@
    } else if v == 9 {
        "MH_DYSYM"@
    } else {
        "unknown ("@ + dec(v as nat) + ")"@
    }
}

pub fn file_type_name(value: u32) -> (r: String)
    ensures
        r@ == file_type_name_s(value),
{
    if value == 1 {
        lit("MH_OBJECT")
    } else if value == 2 {
        lit("MH_EXECUTE")
    } else if value == 6 {
        lit("MH_DYLIB")
    } else if value == 9 {
        lit("MH_DYSYM")
    } else {
        label_u64_wrap("unknown (", value as u64, ")")
    }
}

/// The Mach header: 28 bytes, or 32 with the reserved word of the 64-bit form.
pub open spec fn header_s(d: Seq<u8>, is_64: bool) -> BlockModel {
    let c = Seq::empty()
        .push(leaf_m("Magic: "@ + alt_hex(u32at(d, 0, true) as nat, 10), rng(0, 4)))
        .push(leaf_m("64-bit: "@ + bool_text(is_64), rng(0, 4)))
        .push(leaf_m("CPU type: "@ + cpu_type_name_s(u32at(d, 4, true)), rng(4, 8)))
        .push(leaf_m("CPU subtype: "@ + sdec(as_i32(u32at(d, 8, true))), rng(8, 12)))
        .push(leaf_m("File type: "@ + file_type_name_s(u32at(d, 12, true)), rng(12, 16)))
        .push(leaf_m("Number of load commands: "@ + dec(u32at(d, 16, true) as nat), rng(16, 20)))
        .push(leaf_m("Size of load commands: "@ + dec(u32at(d, 20, true) as nat), rng(20, 24)))
        .push(leaf_m("Flags: "@ + alt_hex(u32at(d, 24, true) as nat, 10), rng(24, 28)));
    if is_64 {
        node_m("Mach header"@, rng(0, 32), c.push(leaf_m("Reserved: "@ + alt_hex(u32at(d, 28, true) as nat, 10), rng(28, 32)))).expand()
    } else {
        node_m("Mach header"@, rng(0, 28), c).expand()
    }
}

fn header_block(data: &[u8], is_64: bool) -> (b: Block)
    requires
        data@.len() >= if is_64 { 32int } else { 28int },
    ensures
        b@ == header_s(data@, is_64),
{
    let magic = read_u32(data, 0, true).unwrap();
    let cputype = read_u32(data, 4, true).unwrap();
    let cpusubtype = read_u32(data, 8, true).unwrap();
    let filetype = read_u32(data, 12, true).unwrap();
    let ncmds = read_u32(data, 16, true).unwrap();
    let sizeofcmds = read_u32(data, 20, true).unwrap();
    let flags = read_u32(data, 24, true).unwrap();
    let mut ch = no_blocks();
    push_block(&mut ch, Block::leaf(label_hex32("Magic: ", magic, 10), ByteRange::new(0, 4)));
    push_block(&mut ch, Block::leaf(label_bool("64-bit: ", is_64), ByteRange::new(0, 4)));
    let cn = cpu_type_name(cputype);
    push_block(&mut ch, Block::leaf(label_str("CPU type: ", cn.as_str()), ByteRange::new(4, 8)));
    push_block(&mut ch, Block::leaf(label_i32("CPU subtype: ", cpusubtype), ByteRange::new(8, 12)));
    let fnm = file_type_name(filetype);
    push_block(&mut ch, Block::leaf(label_str("File type: ", fnm.as_str()), ByteRange::new(12, 16)));
    push_block(&mut ch, Block::leaf(label_u32("Number of load commands: ", ncmds), ByteRange::new(16, 20)));
    push_block(&mut ch, Block::leaf(label_u32("Size of load commands: ", sizeofcmds), ByteRange::new(20, 24)));
    push_block(&mut ch, Block::leaf(label_hex32("Flags: ", flags, 10), ByteRange::new(24, 28)));
    if is_64 {
        let reserved = read_u32(data, 28, true).unwrap();
        push_block(&mut ch, Block::leaf(label_hex32("Reserved: ", reserved, 10), ByteRange::new(28, 32)));
        Block::node(lit("Mach header"), ByteRange::new(0, 32), ch).expanded()
    } else {
        Block::node(lit("Mach header"), ByteRange::new(0, 28), ch).expanded()
    }
}

pub open spec fn load_command_name_s(cmd: u32) -> Seq<char> {
    if cmd == 0x1 {
        "LC_SEGMENT"@
    } else if cmd == 0x19 {
        "LC_SEGMENT_64"@
    } else if cmd == 0x2 {
        "LC_SYMTAB"@
    } else if cmd == 0xc {
        "LC_LOAD_DYLIB"@
    } else if cmd == 0xd {
        "LC_ID_DYLIB"@
    } else if cmd == 0xe {
        "LC_LOAD_DYLINKER"@
    } else if cmd == 0x80000028 {
        "LC_MAIN"@
    } else {
        "LC_UNKNOWN ("@ + alt_hex(cmd as nat, 10) + ")"@
    }
}

pub fn load_command_name(cmd: u32) -> (r: String)
    ensures
        r@ == load_command_name_s(cmd),
{
    if cmd == 0x1 {
        lit("LC_SEGMENT")
    } else if cmd == 0x19 {
        lit("LC_SEGMENT_64")
    } else if cmd == 0x2 {
        lit("LC_SYMTAB")
    } else if cmd == 0xc {
        lit("LC_LOAD_DYLIB")
    } else if cmd == 0xd {
        lit("LC_ID_DYLIB")
    } else if cmd == 0xe {
        lit("LC_LOAD_DYLINKER")
    } else if cmd == 0x80000028 {
        lit("LC_MAIN")
    } else {
        let mut s = label_hex32("LC_UNKNOWN (", cmd, 10);
        push_str(&mut s, ")");
        s
    }
}

/// The load command at `o`, if its eight-byte head lies within `d`, its size
/// is at least eight and it ends within `d`; a 64-bit segment command also
/// shows its segment name.
#[verifier::opaque]
pub open spec fn load_command_s(d: Seq<u8>, o: int) -> Option<BlockModel> {
    if !fits(d, o, 8) {
        None
    } else {
        let cmd = u32at(d, o, true);
        let size = u32at(d, o + 4, true) as int;
        if size < 8 || o + size > d.len() {
            None
        } else {
            let name = load_command_name_s(cmd);
            let c = Seq::empty()
                .push(leaf_m("Command: "@ + name, rng(o, o + 4)))
                .push(leaf_m("Command size: "@ + dec(size as nat), rng(o + 4, o + 8)));
            if cmd == 0x19 && d.len() >= o + 24 {
                let seg = utf8_lossy(until_nul(d.subrange(o + 8, o + 24)));
                Some(node_m(
                    "Load command: "@ + name + " ("@ + seg + ")"@,
                    rng(o, o + size),
                    c.push(leaf_m("Segment name: "@ + seg, rng(o + 8, o + 24))),
                ))
            } else {
                Some(node_m("Load command: "@ + name, rng(o, o + size), c))
            }
        }
    }
}

fn load_command_block(data: &[u8], offset: u64) -> (r: Option<Block>)
    requires
        input_ok(data@),
    ensures
        r matches Some(b) ==> load_command_s(data@, offset as int) == Some(b@) && offset + 8 <= b@.range.end <= data@.len(),
        r is None ==> load_command_s(data@, offset as int) is None,
{
    reveal(load_command_s);
    if !avail(data, offset, 8) {
        return None;
    }
    let cmd = read_u32(data, offset, true).unwrap();
    let size = read_u32(data, offset + 4, true).unwrap() as u64;
    let data_len = data.len() as u64;
    if size < 8 || offset + size > data_len {
        return None;
    }
    let name = load_command_name(cmd);
    let mut ch = no_blocks();
    push_block(&mut ch, Block::leaf(label_str("Command: ", name.as_str()), ByteRange::new(offset, offset + 4)));
    push_block(&mut ch, Block::leaf(label_u64("Command size: ", size), ByteRange::new(offset + 4, offset + 8)));
    if cmd == 0x19 && data_len >= offset + 24 {
        let start = idx(data, offset + 8);
        let n = find_nul(data, start, start + 16);
        let seg_bytes = vstd::slice::slice_subrange(data, start, start + n);
        assert(seg_bytes@ =~= until_nul(data@.subrange(offset + 8, offset + 24)));
        let seg = lossy_string(seg_bytes);
        push_block(&mut ch, Block::leaf(label_str("Segment name: ", seg.as_str()), ByteRange::new(offset + 8, offset + 24)));
        let mut title = label_str("Load command: ", name.as_str());
        push_str(&mut title, " (");
        push_str(&mut title, seg.as_str());
        push_str(&mut title, ")");
        return Some(Block::node(title, ByteRange::new(offset, offset + size), ch));
    }
    let title = label_str("Load command: ", name.as_str());
    Some(Block::node(title, ByteRange::new(offset, offset + size), ch))
}

/// Load commands `i..n` from `o` on, appended to `acc`, while each one's
/// head lies within `d` and within the declared command area ending at `e`.
pub open spec fn commands_s(d: Seq<u8>, o: int, e: int, n: nat, i: nat, acc: Seq<BlockModel>) -> Seq<BlockModel>
    decreases n - i,
{
    if i >= n || o + 8 > d.len() || o + 8 > e {
        acc
    } else {
        match load_command_s(d, o) {
            Some(b) => commands_s(d, b.range.end as int, e, n, i + 1, acc.push(b)),
            None => acc,
        }
    }
}

/// A Mach-O file: nothing without the magic's four bytes or below the header
/// size its magic implies; otherwise the header and its load commands.
pub open spec fn macho_s(d: Seq<u8>) -> Seq<BlockModel> {
    if !fits(d, 0, 4) {
        Seq::empty()
    } else {
        let is_64 = u32at(d, 0, true) == MAGIC_64;
        let hs: int = if is_64 { 32 } else { 28 };
        if d.len() < hs {
            Seq::empty()
        } else {
            commands_s(d, hs, hs + u32at(d, 20, true), u32at(d, 16, true) as nat, 0, seq![header_s(d, is_64)])
        }
    }
}

proof fn lemma_commands_tree(d: Seq<u8>, o: int, e: int, n: nat, i: nat, acc: Seq<BlockModel>)
    requires
        input_ok(d),
        0 <= o,
        all_tree_ok(acc),
    ensures
        all_tree_ok(commands_s(d, o, e, n, i, acc)),
    decreases n - i,
{
    if !(i >= n || o + 8 > d.len() || o + 8 > e) {
        reveal(load_command_s);
        if let Some(b) = load_command_s(d, o) {
            lemma_flat_tree_ok(b);
            lemma_push_tree(acc, b);
            lemma_commands_tree(d, b.range.end as int, e, n, i + 1, acc.push(b));
        }
    }
}

/// Every block of a Mach-O file runs forwards, and every leaf has no
/// children. (Blocks need not nest: a segment command shorter than 24
/// bytes still shows the 16-byte segment name after its header.)
pub proof fn lemma_macho_trees(d: Seq<u8>)
    requires
        input_ok(d),
    ensures
        all_tree_ok(MachoDissector.spec_dissect(d)),
{
    if fits(d, 0, 4) {
        let is_64 = u32at(d, 0, true) == MAGIC_64;
        let hs: int = if is_64 { 32 } else { 28 };
        if d.len() >= hs {
            let h = header_s(d, is_64);
            lemma_flat_tree_ok(h);
            let s0 = seq![h];
            assert(all_tree_ok(s0));
            lemma_commands_tree(d, hs, hs + u32at(d, 20, true), u32at(d, 16, true) as nat, 0, s0);
        }
    }
}

impl Dissector for MachoDissector {
    open spec fn spec_name(&self) -> Seq<char> {
        "Mach-O"@
    }

    open spec fn spec_matches(&self, data: Seq<u8>) -> bool {
        opt_u32(data, 0, true) == Some(MAGIC_32) || opt_u32(data, 0, true) == Some(MAGIC_64)
    }

    open spec fn spec_dissect(&self, data: Seq<u8>) -> Seq<BlockModel> {
        macho_s(data)
    }

    fn name(&self) -> (r: &'static str) {
        "Mach-O"
    }

    fn matches(&self, data: &[u8]) -> (r: bool) {
        match read_u32(data, 0, true) {
            Some(magic) => magic == MAGIC_32 || magic == MAGIC_64,
            None => false,
        }
    }

    fn dissect(&self, data: &[u8]) -> (r: Vec<Block>) {
        let mut blocks = no_blocks();
        let magic = match read_u32(data, 0, true) {
            Some(m) => m,
            None => return blocks,
        };
        let is_64 = magic == MAGIC_64;
        let header_size: u64 = if is_64 { 32 } else { 28 };
        let data_len = data.len() as u64;
        if data_len < header_size {
            return blocks;
        }
        push_block(&mut blocks, header_block(data, is_64));
        let ncmds = read_u32(data, 16, true).unwrap();
        let sizeofcmds = read_u32(data, 20, true).unwrap() as u64;
        let cmds_end = header_size + sizeofcmds;
        let mut offset = header_size;
        let ghost d = data@;
        let ghost s0 = models(blocks@);
        let mut i: u32 = 0;
        while i < ncmds
            invariant_except_break
                commands_s(d, header_size as int, cmds_end as int, ncmds as nat, 0, s0)
                    == commands_s(d, offset as int, cmds_end as int, ncmds as nat, i as nat, models(blocks@)),
            invariant
                d == data@,
                input_ok(d),
                data_len == d.len(),
                offset <= d.len(),
                i <= ncmds,
            ensures
                commands_s(d, header_size as int, cmds_end as int, ncmds as nat, 0, s0) == models(blocks@),
            decreases ncmds - i,
        {
            if offset + 8 > data_len || offset + 8 > cmds_end {
                break;
            }
            match load_command_block(data, offset) {
                Some(b) => {
                    let end = b.range.end;
                    push_block(&mut blocks, b);
                    offset = end;
                },
                None => break,
            }
            i = i + 1;
        }
        blocks
    }
}

} // verus!
