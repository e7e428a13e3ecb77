//! FLAC streams: the marker, the metadata blocks with STREAMINFO decoded, and the audio frames.

use vstd::prelude::*;
use super::{
    Block, BlockModel, ByteRange, Dissector, all_nest, append_blocks, input_ok, lemma_push_record, leaf_m, models, no_blocks,
    node_m, push_block, push_if, rng,
};
use crate::bytes::{
    avail, bytes_at, fits, has_at, idx, imin, min_u64, read_u16, read_u24, u16at, u24at,
};
use crate::text::{
    bool_text, dec, label_bool, label_str, label_u16, label_u32, label_u64, lit, push_dec,
    push_str, push_u8,
};
verus! {

pub struct FlacDissector;

pub open spec fn block_type_name_s(t: u8) -> Seq<char> {
    if t == 0 {
        "STREAMINFO"@
    } else if t == 1 {
        "PADDING"@
    } else if t == 2 {
        "APPLICATION"@
    } else if t == 3 {
        "SEEKTABLE"@
    } else if t == 4 {
        "VORBIS_COMMENT"@
    } else if t == 5 {
        "CUESHEET"@
    } else if t == 6 {
        "PICTURE"@
    } else if t == 127 {
        "INVALID"@
    } else {
        "RESERVED"@
    }
}

pub fn block_type_name(t: u8) -> (r: &'static str)
    ensures
        r@ == block_type_name_s(t),
{
    if t == 0 {
        "STREAMINFO"
    } else if t == 1 {
        "PADDING"
    } else if t == 2 {
        "APPLICATION"
    } else if t == 3 {
        "SEEKTABLE"
    } else if t == 4 {
        "VORBIS_COMMENT"
    } else if t == 5 {
        "CUESHEET"
    } else if t == 6 {
        "PICTURE"
    } else if t == 127 {
        "INVALID"
    } else {
        "RESERVED"
    }
}

/// The 20-bit sample rate packed at `o`.
pub open spec fn sample_rate_s(d: Seq<u8>, o: int) -> nat {
    (d[o] * 4096 + d[o + 1] * 16 + d[o + 2] / 16) as nat
}

/// The channel count: three bits, stored minus one.
pub open spec fn channels_s(d: Seq<u8>, o: int) -> nat {
    ((d[o + 2] / 2) % 8 + 1) as nat
}

/// The bits per sample: five bits, stored minus one.
pub open spec fn bits_per_sample_s(d: Seq<u8>, o: int) -> nat {
    ((d[o + 2] % 2) * 16 + d[o + 3] / 16 + 1) as nat
}

/// The 36-bit total sample count.
pub open spec fn total_samples_s(d: Seq<u8>, o: int) -> nat {
    ((d[o + 3] % 16) * 0x1_0000_0000 + d[o + 4] * 0x100_0000 + d[o + 5] * 0x1_0000 + d[o + 6] * 0x100 + d[o + 7]) as nat
}

/// The STREAMINFO fields of the block data `s..e`: a single span when it
/// holds fewer than 34 bytes.
pub open spec fn streaminfo_s(d: Seq<u8>, s: int, e: int) -> Seq<BlockModel> {
    if e < s + 34 {
        push_if(Seq::empty(), e > s, leaf_m("STREAMINFO data"@, rng(s, e)))
    } else {
        Seq::empty()
            .push(leaf_m("Minimum block size: "@ + dec(u16at(d, s, false) as nat), rng(s, s + 2)))
            .push(leaf_m("Maximum block size: "@ + dec(u16at(d, s + 2, false) as nat), rng(s + 2, s + 4)))
            .push(leaf_m("Minimum frame size: "@ + dec(u24at(d, s + 4, false) as nat), rng(s + 4, s + 7)))
            .push(leaf_m("Maximum frame size: "@ + dec(u24at(d, s + 7, false) as nat), rng(s + 7, s + 10)))
            .push(leaf_m(
                "Sample rate: "@ + dec(sample_rate_s(d, s + 10)) + " Hz, Channels: "@ + dec(channels_s(d, s + 10))
                    + ", Bits per sample: "@ + dec(bits_per_sample_s(d, s + 10)) + ", Total samples: "@
                    + dec(total_samples_s(d, s + 10)),
                rng(s + 10, s + 18),
            ))
            .push(leaf_m("MD5 signature"@, rng(s + 18, s + 34)))
    }
}

pub fn streaminfo_fields(data: &[u8], start: u64, end: u64) -> (r: Vec<Block>)
    requires
        start <= end <= data@.len(),
        input_ok(data@),
    ensures
        models(r@) == streaminfo_s(data@, start as int, end as int),
{
    let mut f = no_blocks();
    if end < start + 34 {
        if end > start {
            push_block(&mut f, Block::leaf(lit("STREAMINFO data"), ByteRange::new(start, end)));
        }
        return f;
    }
    let s = start;
    push_block(&mut f, Block::leaf(label_u16("Minimum block size: ", read_u16(data, s, false).unwrap()), ByteRange::new(s, s + 2)));
    push_block(&mut f, Block::leaf(label_u16("Maximum block size: ", read_u16(data, s + 2, false).unwrap()), ByteRange::new(s + 2, s + 4)));
    push_block(&mut f, Block::leaf(label_u32("Minimum frame size: ", read_u24(data, s + 4, false).unwrap()), ByteRange::new(s + 4, s + 7)));
    push_block(&mut f, Block::leaf(label_u32("Maximum frame size: ", read_u24(data, s + 7, false).unwrap()), ByteRange::new(s + 7, s + 10)));
    let p = idx(data, s + 10);
    let b0 = data[p] as u64;
    let b1 = data[p + 1] as u64;
    let b2 = data[p + 2] as u64;
    let b3 = data[p + 3] as u64;
    let b4 = data[p + 4] as u64;
    let b5 = data[p + 5] as u64;
    let b6 = data[p + 6] as u64;
    let b7 = data[p + 7] as u64;
    let sample_rate = b0 * 4096 + b1 * 16 + b2 / 16;
    let channels = (b2 / 2) % 8 + 1;
    let bits_per_sample = (b2 % 2) * 16 + b3 / 16 + 1;
    let total_samples = (b3 % 16) * 0x1_0000_0000 + b4 * 0x100_0000 + b5 * 0x1_0000 + b6 * 0x100 + b7;
    let mut l = label_u64("Sample rate: ", sample_rate);
    push_str(&mut l, " Hz, Channels: ");
    push_dec(&mut l, channels);
    push_str(&mut l, ", Bits per sample: ");
    push_dec(&mut l, bits_per_sample);
    push_str(&mut l, ", Total samples: ");
    push_dec(&mut l, total_samples);
    push_block(&mut f, Block::leaf(l, ByteRange::new(s + 10, s + 18)));
    push_block(&mut f, Block::leaf(lit("MD5 signature"), ByteRange::new(s + 18, s + 34)));
    f
}

/// The metadata block at `o`, if its four-byte header lies within `d`:
/// the block, its last-block flag, and the end of its data (cut at the end of `d`).
#[verifier::opaque]
pub open spec fn metadata_s(d: Seq<u8>, o: int) -> Option<(BlockModel, bool, int)> {
    if !fits(d, o, 4) {
        None
    } else {
        let is_last = d[o] & 0x80u8 != 0;
        let t = d[o] & 0x7fu8;
        let length = u24at(d, o + 1, false) as int;
        let ds = o + 4;
        let de = ds + imin(length, d.len() - ds);
        let name = block_type_name_s(t);
        let c0 = Seq::empty()
            .push(leaf_m("Last-metadata-block flag: "@ + bool_text(is_last), rng(o, o + 1)))
            .push(leaf_m("Block type: "@ + name + " ("@ + dec(t as nat) + ")"@, rng(o, o + 1)))
            .push(leaf_m("Length: "@ + dec(length as nat), rng(o + 1, o + 4)));
        let c1 = if t == 0 {
            c0 + streaminfo_s(d, ds, de)
        } else {
            push_if(c0, de > ds, leaf_m(name + " data"@, rng(ds, de)))
        };
        Some((node_m("Metadata block: "@ + name, rng(o, de), c1).expand_if(t == 0), is_last, de))
    }
}

fn metadata_block(data: &[u8], offset: u64) -> (r: Option<(Block, bool, u64)>)
    requires
        input_ok(data@),
    ensures
        r matches Some((b, last, e)) ==> metadata_s(data@, offset as int) == Some((b@, last, e as int))
            && offset < e <= data@.len(),
        r is None ==> metadata_s(data@, offset as int) is None,
{
    reveal(metadata_s);
    if !avail(data, offset, 4) {
        return None;
    }
    let h = data[idx(data, offset)];
    let is_last = h & 0x80u8 != 0;
    let t = h & 0x7fu8;
    let length = read_u24(data, offset + 1, false).unwrap() as u64;
    let data_len = data.len() as u64;
    let ds = offset + 4;
    let de = ds + min_u64(length, data_len - ds);
    let name = block_type_name(t);
    let mut ch = no_blocks();
    push_block(&mut ch, Block::leaf(label_bool("Last-metadata-block flag: ", is_last), ByteRange::new(offset, offset + 1)));
    let mut bt = label_str("Block type: ", name);
    push_str(&mut bt, " (");
    push_u8(&mut bt, t);
    push_str(&mut bt, ")");
    push_block(&mut ch, Block::leaf(bt, ByteRange::new(offset, offset + 1)));
    push_block(&mut ch, Block::leaf(label_u64("Length: ", length), ByteRange::new(offset + 1, offset + 4)));
    if t == 0 {
        append_blocks(&mut ch, streaminfo_fields(data, ds, de));
    } else if de > ds {
        push_block(&mut ch, Block::leaf(label_str(name, " data"), ByteRange::new(ds, de)));
    }
    let title = label_str("Metadata block: ", name);
    Some((Block::node(title, ByteRange::new(offset, de), ch).expanded_if(t == 0), is_last, de))
}

/// Metadata blocks from `o` on, appended to `acc`, through the one flagged
/// last; with the offset after it, or none when a header is cut short first.
pub open spec fn metadata_walk(d: Seq<u8>, o: int, acc: Seq<BlockModel>) -> (Seq<BlockModel>, Option<int>)
    decreases d.len() - o,
{
    match metadata_s(d, o) {
        None => (acc, None),
        Some((b, last, end)) => if last {
            (acc.push(b), Some(end))
        } else if o < end <= d.len() {
            metadata_walk(d, end, acc.push(b))
        } else {
            (acc.push(b), None)
        },
    }
}

/// A FLAC stream: nothing below four bytes; the marker and the metadata
/// blocks; after the last one, the audio frames up to the end of `d`.
pub open spec fn flac_s(d: Seq<u8>) -> Seq<BlockModel> {
    if d.len() < 4 {
        Seq::empty()
    } else {
        let (s, end) = metadata_walk(d, 4, seq![leaf_m("Marker: fLaC"@, rng(0, 4))]);
        match end {
            Some(e) => push_if(s, e < d.len(), leaf_m("Audio frames"@, rng(e, d.len() as int))),
            None => s,
        }
    }
}

proof fn lemma_walk_nests(d: Seq<u8>, o: int, acc: Seq<BlockModel>)
    requires
        input_ok(d),
        0 <= o,
        all_nest(d, acc),
    ensures
        all_nest(d, metadata_walk(d, o, acc).0),
        metadata_walk(d, o, acc).1 matches Some(e) ==> 0 <= e <= d.len(),
    decreases d.len() - o,
{
    if let Some((b, last, end)) = metadata_s(d, o) {
        reveal(metadata_s);
        lemma_push_record(d, acc, b);
        if !last && o < end <= d.len() {
            lemma_walk_nests(d, end, acc.push(b));
        }
    }
}

/// Each block of a FLAC stream lies within the data, and the fields of each
/// metadata block cover sub-ranges of the block.
pub proof fn lemma_flac_blocks_nest(d: Seq<u8>)
    requires
        input_ok(d),
    ensures
        all_nest(d, FlacDissector.spec_dissect(d)),
{
    if d.len() >= 4 {
        let s0 = seq![leaf_m("Marker: fLaC"@, rng(0, 4))];
        lemma_push_record(d, Seq::empty(), leaf_m("Marker: fLaC"@, rng(0, 4)));
        assert(Seq::<BlockModel>::empty().push(leaf_m("Marker: fLaC"@, rng(0, 4))) == s0);
        lemma_walk_nests(d, 4, s0);
        let (s, end) = metadata_walk(d, 4, s0);
        if let Some(e) = end {
            if e < d.len() {
                lemma_push_record(d, s, leaf_m("Audio frames"@, rng(e, d.len() as int)));
            }
        }
    }
}

impl Dissector for FlacDissector {
    open spec fn spec_name(&self) -> Seq<char> {
        "FLAC"@
    }

    open spec fn spec_matches(&self, data: Seq<u8>) -> bool {
        has_at(data, 0, seq![0x66u8, 0x4cu8, 0x61u8, 0x43u8])
    }

    open spec fn spec_dissect(&self, data: Seq<u8>) -> Seq<BlockModel> {
        flac_s(data)
    }

    fn name(&self) -> (r: &'static str) {
        "FLAC"
    }

    fn matches(&self, data: &[u8]) -> (r: bool) {
        let magic: [u8; 4] = [0x66, 0x4c, 0x61, 0x43];
        assert(magic@ =~= seq![0x66u8, 0x4cu8, 0x61u8, 0x43u8]);
        bytes_at(data, 0, &magic)
    }

    fn dissect(&self, data: &[u8]) -> (r: Vec<Block>) {
        let mut blocks = no_blocks();
        if data.len() < 4 {
            return blocks;
        }
        push_block(&mut blocks, Block::leaf(lit("Marker: fLaC"), ByteRange::new(0, 4)));
        let mut offset: u64 = 4;
        let ghost d = data@;
        let ghost s0 = models(blocks@);
        assert(s0 =~= seq![leaf_m("Marker: fLaC"@, rng(0, 4))]);
        loop
            invariant_except_break
                metadata_walk(d, 4, s0) == metadata_walk(d, offset as int, models(blocks@)),
            invariant
                d == data@,
                input_ok(d),
                4 <= offset <= d.len(),
                s0 == seq![leaf_m("Marker: fLaC"@, rng(0, 4))],
            ensures
                metadata_walk(d, 4, s0) == (models(blocks@), Some(offset as int)),
            decreases d.len() - offset,
        {
            match metadata_block(data, offset) {
                Some((b, last, end)) => {
                    push_block(&mut blocks, b);
                    offset = end;
                    if last {
                        break;
                    }
                },
                None => {
                    return blocks;
                },
            }
        }
        let data_len = data.len() as u64;
        if offset < data_len {
            push_block(&mut blocks, Block::leaf(lit("Audio frames"), ByteRange::new(offset, data_len)));
        }
        blocks
    }
}

} // verus!
