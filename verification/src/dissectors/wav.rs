//! WAV audio: the RIFF header and its chunks, with the format chunk decoded.

use vstd::prelude::*;
use super::{
    Block, BlockModel, ByteRange, Dissector, all_tree_ok, append_blocks, input_ok, leaves_in,
    lemma_flat_tree_ok, lemma_push_leaf, lemma_push_tree, leaf_m, models, no_blocks, node_m, push_block,
    push_if, rng, tree_ok,
};
use crate::bytes::{
    avail, bytes_at, fits, has_at, idx, imin, min_u64, opt_u32, or0_u32, read_u16, read_u32, u16at,
    u32at,
};
use crate::text::{
    dec, label_str, label_u16, label_u32, label_u64, label_wrap, lit, lossy_chars, string_from,
    trim_end_s, trim_end_string, utf8_lossy,
};
verus! {

pub struct WavDissector;

pub open spec fn audio_format_name_s(v: u16) -> Seq<char> {
    if v == 1 {
        "PCM"@
    } else if v == 2 {
        "ADPCM"@
    } else if v == 3 {
        "IEEE float"@
    } else if v == 6 {
        "A-law"@
    } else if v == 7 {
        "mu-law"@
    } else if v == 17 {
        "IMA ADPCM"@
    } else if v == 0xfffe {
        "extensible"@
    } else {
        "unknown"@
    }
}

pub fn audio_format_name(value: u16) -> (r: &'static str)
    ensures
        r@ == audio_format_name_s(value),
{
    if value == 1 {
        "PCM"
    } else if value == 2 {
        "ADPCM"
    } else if value == 3 {
        "IEEE float"
    } else if value == 6 {
        "A-law"
    } else if value == 7 {
        "mu-law"
    } else if value == 17 {
        "IMA ADPCM"
    } else if value == 0xfffe {
        "extensible"
    } else {
        "unknown"
    }
}

/// The RIFF header: chunk ID, declared size and form type.
pub open spec fn riff_header_s(d: Seq<u8>) -> BlockModel {
    node_m(
        "RIFF header"@,
        rng(0, 12),
        Seq::empty()
            .push(leaf_m("Chunk ID: RIFF"@, rng(0, 4)))
            .push(leaf_m("Chunk size: "@ + dec(or0_u32(opt_u32(d, 4, true)) as nat), rng(4, 8)))
            .push(leaf_m("Format: WAVE"@, rng(8, 12))),
    ).expand()
}

fn riff_header_block(data: &[u8]) -> (b: Block)
    ensures
        b@ == riff_header_s(data@),
{
    let chunk_size = match read_u32(data, 4, true) { Some(v) => v, None => 0 };
    let mut ch = no_blocks();
    push_block(&mut ch, Block::leaf(lit("Chunk ID: RIFF"), ByteRange::new(0, 4)));
    push_block(&mut ch, Block::leaf(label_u32("Chunk size: ", chunk_size), ByteRange::new(4, 8)));
    push_block(&mut ch, Block::leaf(lit("Format: WAVE"), ByteRange::new(8, 12)));
    Block::node(lit("RIFF header"), ByteRange::new(0, 12), ch).expanded()
}

/// A little-endian 16-bit field at `off`, when present.
pub open spec fn u16_field(acc: Seq<BlockModel>, d: Seq<u8>, off: int, name: Seq<char>) -> Seq<BlockModel> {
    push_if(acc, fits(d, off, 2), leaf_m(name + dec(u16at(d, off, true) as nat), rng(off, off + 2)))
}

/// A little-endian 32-bit field at `off`, when present.
pub open spec fn u32_field(acc: Seq<BlockModel>, d: Seq<u8>, off: int, name: Seq<char>) -> Seq<BlockModel> {
    push_if(acc, fits(d, off, 4), leaf_m(name + dec(u32at(d, off, true) as nat), rng(off, off + 4)))
}

/// The format fields at `o` that lie within `d`.
pub open spec fn fmt_fields_s(d: Seq<u8>, o: int) -> Seq<BlockModel> {
    let c0 = push_if(Seq::empty(), fits(d, o, 2),
        leaf_m("Audio format: "@ + audio_format_name_s(u16at(d, o, true)), rng(o, o + 2)));
    let c1 = u16_field(c0, d, o + 2, "Channels: "@);
    let c2 = u32_field(c1, d, o + 4, "Sample rate: "@);
    let c3 = u32_field(c2, d, o + 8, "Byte rate: "@);
    let c4 = u16_field(c3, d, o + 12, "Block align: "@);
    u16_field(c4, d, o + 14, "Bits per sample: "@)
}

fn push_u16_field(data: &[u8], fields: &mut Vec<Block>, off: u64, name: &str)
    requires
        off < 0xffff_ffff_ffff_fff0,
    ensures
        models(final(fields)@) == u16_field(models(old(fields)@), data@, off as int, name@),
{
    match read_u16(data, off, true) {
        Some(v) => push_block(fields, Block::leaf(label_u16(name, v), ByteRange::new(off, off + 2))),
        None => {},
    }
}

fn push_u32_field(data: &[u8], fields: &mut Vec<Block>, off: u64, name: &str)
    requires
        off < 0xffff_ffff_ffff_fff0,
    ensures
        models(final(fields)@) == u32_field(models(old(fields)@), data@, off as int, name@),
{
    match read_u32(data, off, true) {
        Some(v) => push_block(fields, Block::leaf(label_u32(name, v), ByteRange::new(off, off + 4))),
        None => {},
    }
}

pub fn fmt_fields(data: &[u8], offset: u64) -> (r: Vec<Block>)
    requires
        offset <= 0x7fff_ffff_ffff_ffff,
    ensures
        models(r@) == fmt_fields_s(data@, offset as int),
{
    let o = offset;
    let mut f = no_blocks();
    match read_u16(data, o, true) {
        Some(v) => push_block(&mut f, Block::leaf(label_str("Audio format: ", audio_format_name(v)), ByteRange::new(o, o + 2))),
        None => {},
    }
    push_u16_field(data, &mut f, o + 2, "Channels: ");
    push_u32_field(data, &mut f, o + 4, "Sample rate: ");
    push_u32_field(data, &mut f, o + 8, "Byte rate: ");
    push_u16_field(data, &mut f, o + 12, "Block align: ");
    push_u16_field(data, &mut f, o + 14, "Bits per sample: ");
    f
}

/// The chunk at `o` whose ID reads as `id`. Its span runs to the end of
/// its data plus a pad byte after odd sizes, cut at the end of `d`.
pub open spec fn chunk_with_id_s(d: Seq<u8>, o: int, id: Seq<char>) -> BlockModel {
    let size = u32at(d, o + 4, true) as int;
    let ds = o + 8;
    let de = ds + imin(size, d.len() - ds);
    let pe = imin(de + size % 2, d.len() as int);
    let header = Seq::empty()
        .push(leaf_m("Chunk ID: "@ + id, rng(o, o + 4)))
        .push(leaf_m("Chunk size: "@ + dec(size as nat), rng(o + 4, o + 8)));
    if id == "fmt "@ {
        node_m("Chunk: "@ + id, rng(o, pe), header + fmt_fields_s(d, ds)).expand()
    } else {
        let label = if id == "data"@ { "Data"@ } else { "Data ("@ + id + ")"@ };
        node_m("Chunk: "@ + trim_end_s(id), rng(o, pe), push_if(header, de > ds, leaf_m(label, rng(ds, de))))
    }
}

/// The chunk at `o`, if its ID and size lie within `d`; its ID is decoded
/// as UTF-8 with replacement.
#[verifier::opaque]
pub open spec fn chunk_s(d: Seq<u8>, o: int) -> Option<BlockModel> {
    if !fits(d, o, 8) {
        None
    } else {
        Some(chunk_with_id_s(d, o, utf8_lossy(d.subrange(o, o + 4))))
    }
}

/// The chunk at `offset`, its ID already decoded into `id`.
pub fn chunk_with_id(data: &[u8], offset: u64, id: &[char]) -> (b: Block)
    requires
        input_ok(data@),
        fits(data@, offset as int, 8),
    ensures
        b@ == chunk_with_id_s(data@, offset as int, id@),
        offset < b@.range.end <= data@.len(),
{
    let id_text = string_from(id);
    let size = read_u32(data, offset + 4, true).unwrap() as u64;
    let data_len = data.len() as u64;
    let ds = offset + 8;
    let de = ds + min_u64(size, data_len - ds);
    let pe = min_u64(de + size % 2, data_len);
    let mut ch = no_blocks();
    push_block(&mut ch, Block::leaf(label_str("Chunk ID: ", id_text.as_str()), ByteRange::new(offset, offset + 4)));
    push_block(&mut ch, Block::leaf(label_u64("Chunk size: ", size), ByteRange::new(offset + 4, offset + 8)));
    if id_text == lit("fmt ") {
        append_blocks(&mut ch, fmt_fields(data, ds));
        let title = label_str("Chunk: ", id_text.as_str());
        return Block::node(title, ByteRange::new(offset, pe), ch).expanded();
    }
    if de > ds {
        let label = if id_text == lit("data") { lit("Data") } else { label_wrap("Data (", id_text.as_str(), ")") };
        push_block(&mut ch, Block::leaf(label, ByteRange::new(ds, de)));
    }
    let trimmed = trim_end_string(id);
    let title = label_str("Chunk: ", trimmed.as_str());
    Block::node(title, ByteRange::new(offset, pe), ch)
}

fn chunk_block(data: &[u8], offset: u64) -> (r: Option<Block>)
    requires
        input_ok(data@),
    ensures
        r matches Some(b) ==> chunk_s(data@, offset as int) == Some(b@) && offset < b@.range.end <= data@.len(),
        r is None ==> chunk_s(data@, offset as int) is None,
{
    reveal(chunk_s);
    if !avail(data, offset, 8) {
        return None;
    }
    let id_bytes = vstd::slice::slice_subrange(data, idx(data, offset), idx(data, offset + 4));
    let id = lossy_chars(id_bytes);
    Some(chunk_with_id(data, offset, id.as_slice()))
}

/// Chunks from `o` on, appended to `acc`, while one parses.
pub open spec fn chunk_walk(d: Seq<u8>, o: int, acc: Seq<BlockModel>) -> Seq<BlockModel>
    decreases d.len() - o,
{
    match chunk_s(d, o) {
        Some(b) => if o < b.range.end <= d.len() {
            chunk_walk(d, b.range.end as int, acc.push(b))
        } else {
            acc.push(b)
        },
        None => acc,
    }
}

/// A WAV file: nothing below twelve bytes; otherwise the RIFF header and the chunks after it.
pub open spec fn wav_s(d: Seq<u8>) -> Seq<BlockModel> {
    if d.len() < 12 {
        Seq::empty()
    } else {
        chunk_walk(d, 12, seq![riff_header_s(d)])
    }
}

proof fn lemma_fmt_leaves(d: Seq<u8>, o: int)
    requires
        input_ok(d),
        0 <= o,
    ensures
        leaves_in(fmt_fields_s(d, o), d.len() as int),
{
    let hi = d.len() as int;
    assert forall|acc: Seq<BlockModel>, off: int, name: Seq<char>|
        leaves_in(acc, hi) && 0 <= off implies #[trigger] leaves_in(u16_field(acc, d, off, name), hi) by {
        lemma_push_leaf(acc, fits(d, off, 2), leaf_m(name + dec(u16at(d, off, true) as nat), rng(off, off + 2)), hi);
    }
    assert forall|acc: Seq<BlockModel>, off: int, name: Seq<char>|
        leaves_in(acc, hi) && 0 <= off implies #[trigger] leaves_in(u32_field(acc, d, off, name), hi) by {
        lemma_push_leaf(acc, fits(d, off, 4), leaf_m(name + dec(u32at(d, off, true) as nat), rng(off, off + 4)), hi);
    }
    lemma_push_leaf(Seq::empty(), fits(d, o, 2),
        leaf_m("Audio format: "@ + audio_format_name_s(u16at(d, o, true)), rng(o, o + 2)), hi);
}

proof fn lemma_chunk_tree(d: Seq<u8>, o: int, id: Seq<char>)
    requires
        input_ok(d),
        fits(d, o, 8),
    ensures
        tree_ok(chunk_with_id_s(d, o, id)),
{
    let size = u32at(d, o + 4, true) as int;
    let ds = o + 8;
    let de = ds + imin(size, d.len() - ds);
    let hi = d.len() as int;
    let header = Seq::empty()
        .push(leaf_m("Chunk ID: "@ + id, rng(o, o + 4)))
        .push(leaf_m("Chunk size: "@ + dec(size as nat), rng(o + 4, o + 8)));
    assert(leaves_in(header, hi));
    if id == "fmt "@ {
        lemma_fmt_leaves(d, ds);
        let f = fmt_fields_s(d, ds);
        let c = header + f;
        assert forall|i: int| 0 <= i < c.len() implies 0 <= (#[trigger] c[i]).range.start <= c[i].range.end <= hi
            && c[i].children.len() == 0 by {
            if i < header.len() {
                assert(c[i] == header[i]);
            } else {
                assert(c[i] == f[i - header.len()]);
            }
        }
    } else {
        let label = if id == "data"@ { "Data"@ } else { "Data ("@ + id + ")"@ };
        lemma_push_leaf(header, de > ds, leaf_m(label, rng(ds, de)), hi);
    }
    lemma_flat_tree_ok(chunk_with_id_s(d, o, id));
}

proof fn lemma_walk_tree(d: Seq<u8>, o: int, acc: Seq<BlockModel>)
    requires
        input_ok(d),
        all_tree_ok(acc),
    ensures
        all_tree_ok(chunk_walk(d, o, acc)),
    decreases d.len() - o,
{
    reveal(chunk_s);
    if let Some(b) = chunk_s(d, o) {
        lemma_chunk_tree(d, o, utf8_lossy(d.subrange(o, o + 4)));
        lemma_push_tree(acc, b);
        if o < b.range.end <= d.len() {
            lemma_walk_tree(d, b.range.end as int, acc.push(b));
        }
    }
}

/// Every block of a WAV file runs forwards, and every leaf has no children.
pub proof fn lemma_wav_trees(d: Seq<u8>)
    requires
        input_ok(d),
    ensures
        all_tree_ok(WavDissector.spec_dissect(d)),
{
    if d.len() >= 12 {
        let h = riff_header_s(d);
        lemma_flat_tree_ok(h);
        let s0 = seq![h];
        assert(all_tree_ok(s0));
        lemma_walk_tree(d, 12, s0);
    }
}

impl Dissector for WavDissector {
    open spec fn spec_name(&self) -> Seq<char> {
        "WAV"@
    }

    open spec fn spec_matches(&self, data: Seq<u8>) -> bool {
        has_at(data, 0, seq![0x52u8, 0x49u8, 0x46u8, 0x46u8]) && has_at(data, 8, seq![0x57u8, 0x41u8, 0x56u8, 0x45u8])
    }

    open spec fn spec_dissect(&self, data: Seq<u8>) -> Seq<BlockModel> {
        wav_s(data)
    }

    fn name(&self) -> (r: &'static str) {
        "WAV"
    }

    fn matches(&self, data: &[u8]) -> (r: bool) {
        let riff: [u8; 4] = [0x52, 0x49, 0x46, 0x46];
        let wave: [u8; 4] = [0x57, 0x41, 0x56, 0x45];
        assert(riff@ =~= seq![0x52u8, 0x49u8, 0x46u8, 0x46u8]);
        assert(wave@ =~= seq![0x57u8, 0x41u8, 0x56u8, 0x45u8]);
        bytes_at(data, 0, &riff) && bytes_at(data, 8, &wave)
    }

    fn dissect(&self, data: &[u8]) -> (r: Vec<Block>) {
        let mut blocks = no_blocks();
        if data.len() < 12 {
            return blocks;
        }
        push_block(&mut blocks, riff_header_block(data));
        let mut offset: u64 = 12;
        let ghost d = data@;
        loop
            invariant
                d == data@,
                input_ok(d),
                offset <= d.len(),
                wav_s(d) == chunk_walk(d, offset as int, models(blocks@)),
            ensures
                wav_s(d) == models(blocks@),
            decreases d.len() - offset,
        {
            match chunk_block(data, offset) {
                Some(c) => {
                    let end = c.range.end;
                    push_block(&mut blocks, c);
                    offset = end;
                },
                None => break,
            }
        }
        blocks
    }
}

} // verus!
