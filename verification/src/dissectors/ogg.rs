//! Ogg bitstreams: a sequence of pages, each with its header, segment table and payload.

use vstd::prelude::*;
use super::{
    Block, BlockModel, ByteRange, Dissector, all_nest, input_ok, leaf_m, models, nests, no_blocks, node_m,
    push_block, push_if, rng, within,
};
use crate::bytes::{
    as_i64, avail, bytes_at, fits, has_at, idx, imin, min_u64, read_u32, read_u64, u32at, u64at,
};
use crate::text::{
    add_part, dec, hex, label_i64, label_u32, label_u64, label_u8, label_wrap, lit,
    push_hex_padded, push_part, push_str, sdec, zpad,
};
verus! {

pub struct OggDissector;

pub const PAGE_HEADER_LEN: u64 = 27;

/// The header type flags in words, or `none` when no flag is set.
pub open spec fn header_type_description_s(flags: u8) -> Seq<char> {
    let a = if flags & 1 != 0 { "continued packet"@ } else { Seq::empty() };
    let b = if flags & 2 != 0 { add_part(a, "first page (bos)"@) } else { a };
    let c = if flags & 4 != 0 { add_part(b, "last page (eos)"@) } else { b };
    if c.len() == 0 {
        "none"@
    } else {
        c
    }
}

pub fn header_type_description(flags: u8) -> (r: String)
    ensures
        r@ == header_type_description_s(flags),
{
    proof {
        reveal_strlit("continued packet");
        reveal_strlit("first page (bos)");
        reveal_strlit("last page (eos)");
    }
    let mut s = String::new();
    if flags & 1 != 0 {
        push_part(&mut s, "continued packet");
    }
    if flags & 2 != 0 {
        push_part(&mut s, "first page (bos)");
    }
    if flags & 4 != 0 {
        push_part(&mut s, "last page (eos)");
    }
    if s.as_str().unicode_len() == 0 {
        lit("none")
    } else {
        s
    }
}

/// The codec whose header starts the payload, if it is recognized.
pub open spec fn codec_label_s(p: Seq<u8>) -> Option<Seq<char>> {
    if has_at(p, 0, seq![0x01u8, 0x76u8, 0x6fu8, 0x72u8, 0x62u8, 0x69u8, 0x73u8]) {
        Some("Vorbis identification header"@)
    } else if has_at(p, 0, seq![0x4fu8, 0x70u8, 0x75u8, 0x73u8, 0x48u8, 0x65u8, 0x61u8, 0x64u8]) {
        Some("Opus header"@)
    } else {
        None
    }
}

pub fn codec_label(data: &[u8]) -> (r: Option<&'static str>)
    ensures
        r matches Some(c) ==> codec_label_s(data@) == Some(c@),
        r is None ==> codec_label_s(data@) is None,
{
    let vorbis: [u8; 7] = [0x01, 0x76, 0x6f, 0x72, 0x62, 0x69, 0x73];
    let opus: [u8; 8] = [0x4f, 0x70, 0x75, 0x73, 0x48, 0x65, 0x61, 0x64];
    assert(vorbis@ =~= seq![0x01u8, 0x76u8, 0x6fu8, 0x72u8, 0x62u8, 0x69u8, 0x73u8]);
    assert(opus@ =~= seq![0x4fu8, 0x70u8, 0x75u8, 0x73u8, 0x48u8, 0x65u8, 0x61u8, 0x64u8]);
    if bytes_at(data, 0, &vorbis) {
        Some("Vorbis identification header")
    } else if bytes_at(data, 0, &opus) {
        Some("Opus header")
    } else {
        None
    }
}

/// The sum of the lacing values of a segment table.
pub open spec fn seg_sum(s: Seq<u8>) -> nat
    decreases s.len(),
{
    if s.len() == 0 {
        0
    } else {
        seg_sum(s.drop_last()) + s.last() as nat
    }
}

proof fn lemma_seg_sum_bound(s: Seq<u8>)
    ensures
        seg_sum(s) <= 255 * s.len(),
    decreases s.len(),
{
    if s.len() > 0 {
        lemma_seg_sum_bound(s.drop_last());
    }
}

fn segment_sum(data: &[u8], start: usize, n: usize) -> (r: u64)
    requires
        start + n <= data@.len(),
        n <= 255,
    ensures
        r == seg_sum(data@.subrange(start as int, start + n)),
{
    let len = data.len();
    let mut sum: u64 = 0;
    let mut i: usize = 0;
    while i < n
        invariant
            len == data@.len(),
            i <= n <= 255,
            start + n <= data@.len(),
            sum == seg_sum(data@.subrange(start as int, start + i)),
        decreases n - i,
    {
        proof {
            lemma_seg_sum_bound(data@.subrange(start as int, start + i));
            assert(sum <= 255 * 255) by (nonlinear_arith)
                requires
                    sum <= 255 * i,
                    i <= 255,
            ;
        }
        assert(data@.subrange(start as int, start + i + 1).drop_last() =~= data@.subrange(start as int, start + i));
        sum = sum + data[start + i] as u64;
        i = i + 1;
    }
    sum
}

/// The payload's label, naming its codec when recognized.
pub open spec fn payload_label_s(p: Seq<u8>) -> Seq<char> {
    match codec_label_s(p) {
        Some(c) => "Payload data ("@ + c + ")"@,
        None => "Payload data"@,
    }
}

/// Page number `index` at `o`, if its 27-byte header with the capture
/// pattern and its segment table lie within `d`; the payload is cut at the end of `d`.
#[verifier::opaque]
pub open spec fn page_s(d: Seq<u8>, o: int, index: nat) -> Option<BlockModel> {
    if !fits(d, o, 27) || !has_at(d, o, seq![0x4fu8, 0x67u8, 0x67u8, 0x53u8]) {
        None
    } else {
        let flags = d[o + 5];
        let n = d[o + 26] as int;
        let st = o + 27;
        if st + n > d.len() {
            None
        } else {
            let ps = st + n;
            let pe = ps + imin(seg_sum(d.subrange(st, ps)) as int, d.len() - ps);
            let c = Seq::empty()
                .push(leaf_m("Capture pattern: OggS"@, rng(o, o + 4)))
                .push(leaf_m("Stream structure version: "@ + dec(d[o + 4] as nat), rng(o + 4, o + 5)))
                .push(leaf_m(
                    "Header type flag: 0x"@ + zpad(hex(flags as nat), 2) + " ("@ + header_type_description_s(flags) + ")"@,
                    rng(o + 5, o + 6),
                ))
                .push(leaf_m("Granule position: "@ + sdec(as_i64(u64at(d, o + 6, true))), rng(o + 6, o + 14)))
                .push(leaf_m("Bitstream serial number: "@ + dec(u32at(d, o + 14, true) as nat), rng(o + 14, o + 18)))
                .push(leaf_m("Page sequence number: "@ + dec(u32at(d, o + 18, true) as nat), rng(o + 18, o + 22)))
                .push(leaf_m("CRC checksum"@, rng(o + 22, o + 26)))
                .push(leaf_m("Page segments: "@ + dec(n as nat), rng(o + 26, o + 27)))
                .push(leaf_m("Segment table"@, rng(st, ps)));
            let c2 = push_if(c, pe > ps, leaf_m(payload_label_s(d.subrange(ps, pe)), rng(ps, pe)));
            Some(node_m("Page "@ + dec(index), rng(o, pe), c2).expand_if(index == 0))
        }
    }
}

fn page_block(data: &[u8], offset: u64, index: u64) -> (r: Option<Block>)
    requires
        input_ok(data@),
    ensures
        r matches Some(b) ==> page_s(data@, offset as int, index as nat) == Some(b@)
            && offset < b@.range.end <= data@.len(),
        r is None ==> page_s(data@, offset as int, index as nat) is None,
{
    reveal(page_s);
    let ogg: [u8; 4] = [0x4f, 0x67, 0x67, 0x53];
    assert(ogg@ =~= seq![0x4fu8, 0x67u8, 0x67u8, 0x53u8]);
    if !avail(data, offset, PAGE_HEADER_LEN) || !bytes_at(data, offset, &ogg) {
        return None;
    }
    let o = offset;
    let version = data[idx(data, o + 4)];
    let flags = data[idx(data, o + 5)];
    let granule = read_u64(data, o + 6, true).unwrap();
    let serial = read_u32(data, o + 14, true).unwrap();
    let sequence = read_u32(data, o + 18, true).unwrap();
    let n = data[idx(data, o + 26)] as u64;
    let st = o + PAGE_HEADER_LEN;
    let data_len = data.len() as u64;
    if st + n > data_len {
        return None;
    }
    let ps = st + n;
    let sum = segment_sum(data, idx(data, st), n as usize);
    let pe = ps + min_u64(sum, data_len - ps);

    let mut ch = no_blocks();
    push_block(&mut ch, Block::leaf(lit("Capture pattern: OggS"), ByteRange::new(o, o + 4)));
    push_block(&mut ch, Block::leaf(label_u8("Stream structure version: ", version), ByteRange::new(o + 4, o + 5)));
    let mut l = lit("Header type flag: 0x");
    push_hex_padded(&mut l, flags as u64, 2);
    push_str(&mut l, " (");
    let desc = header_type_description(flags);
    push_str(&mut l, desc.as_str());
    push_str(&mut l, ")");
    push_block(&mut ch, Block::leaf(l, ByteRange::new(o + 5, o + 6)));
    push_block(&mut ch, Block::leaf(label_i64("Granule position: ", granule), ByteRange::new(o + 6, o + 14)));
    push_block(&mut ch, Block::leaf(label_u32("Bitstream serial number: ", serial), ByteRange::new(o + 14, o + 18)));
    push_block(&mut ch, Block::leaf(label_u32("Page sequence number: ", sequence), ByteRange::new(o + 18, o + 22)));
    push_block(&mut ch, Block::leaf(lit("CRC checksum"), ByteRange::new(o + 22, o + 26)));
    push_block(&mut ch, Block::leaf(label_u64("Page segments: ", n), ByteRange::new(o + 26, o + 27)));
    push_block(&mut ch, Block::leaf(lit("Segment table"), ByteRange::new(st, ps)));
    if pe > ps {
        let payload = vstd::slice::slice_subrange(data, idx(data, ps), idx(data, pe));
        let label = match codec_label(payload) {
            Some(codec) => label_wrap("Payload data (", codec, ")"),
            None => lit("Payload data"),
        };
        push_block(&mut ch, Block::leaf(label, ByteRange::new(ps, pe)));
    }
    let title = label_u64("Page ", index);
    Some(Block::node(title, ByteRange::new(offset, pe), ch).expanded_if(index == 0))
}

/// Pages from `o` on, numbered from `index`, appended to `acc`, while one parses.
pub open spec fn ogg_walk(d: Seq<u8>, o: int, index: nat, acc: Seq<BlockModel>) -> Seq<BlockModel>
    decreases d.len() - o,
{
    match page_s(d, o, index) {
        Some(b) => if o < b.range.end <= d.len() {
            ogg_walk(d, b.range.end as int, index + 1, acc.push(b))
        } else {
            acc.push(b)
        },
        None => acc,
    }
}

/// Pages numbered from zero, the first at offset zero, each starting where the previous one ends.
pub open spec fn pages_in_sequence(s: Seq<BlockModel>) -> bool {
    &&& forall|i: int| 0 <= i < s.len() ==> #[trigger] s[i].label == "Page "@ + dec(i as nat)
    &&& s.len() > 0 ==> s[0].range.start == 0
    &&& forall|i: int| 0 < i < s.len() ==> #[trigger] s[i].range.start == s[i - 1].range.end
}

proof fn lemma_walk_in_sequence(d: Seq<u8>, o: int, index: nat, acc: Seq<BlockModel>)
    requires
        input_ok(d),
        0 <= o <= d.len(),
        acc.len() == index,
        pages_in_sequence(acc),
        acc.len() > 0 ==> acc.last().range.end == o,
        acc.len() == 0 ==> o == 0,
    ensures
        pages_in_sequence(ogg_walk(d, o, index, acc)),
    decreases d.len() - o,
{
    reveal(page_s);
    match page_s(d, o, index) {
        Some(b) => {
            let next = acc.push(b);
            assert(b.range.start == o);
            assert(b.label == "Page "@ + dec(index));
            assert forall|i: int| 0 < i < next.len() implies #[trigger] next[i].range.start == next[i - 1].range.end by {
                if i < acc.len() {
                    assert(next[i] == acc[i] && next[i - 1] == acc[i - 1]);
                }
            }
            assert(pages_in_sequence(next));
            if o < b.range.end <= d.len() {
                lemma_walk_in_sequence(d, b.range.end as int, index + 1, next);
            }
        },
        None => {},
    }
}

/// The pages of a stream are numbered from zero and follow one another
/// without gaps: the first starts at offset zero and each next one where
/// the previous one ends.
pub proof fn lemma_pages_in_sequence(d: Seq<u8>)
    requires
        input_ok(d),
    ensures
        pages_in_sequence(OggDissector.spec_dissect(d)),
{
    lemma_walk_in_sequence(d, 0, 0, Seq::empty());
}

proof fn lemma_walk_nests(d: Seq<u8>, o: int, index: nat, acc: Seq<BlockModel>)
    requires
        input_ok(d),
        0 <= o <= d.len(),
        all_nest(d, acc),
    ensures
        all_nest(d, ogg_walk(d, o, index, acc)),
    decreases d.len() - o,
{
    reveal(page_s);
    match page_s(d, o, index) {
        Some(b) => {
            assert forall|i: int| 0 <= i < b.children.len() implies within(#[trigger] b.children[i], b)
                && nests(b.children[i]) by {
                assert(b.children[i].children.len() == 0);
            }
            let next = acc.push(b);
            assert forall|i: int| 0 <= i < next.len() implies (#[trigger] next[i]).range.start <= next[i].range.end
                <= d.len() && nests(next[i]) by {
                if i < acc.len() {
                    assert(next[i] == acc[i]);
                }
            }
            if o < b.range.end <= d.len() {
                lemma_walk_nests(d, b.range.end as int, index + 1, next);
            }
        },
        None => {},
    }
}

/// Each page of a stream lies within the data, and each of its fields
/// covers a sub-range of the page.
pub proof fn lemma_pages_nest(d: Seq<u8>)
    requires
        input_ok(d),
    ensures
        all_nest(d, OggDissector.spec_dissect(d)),
{
    lemma_walk_nests(d, 0, 0, Seq::empty());
}

impl Dissector for OggDissector {
    open spec fn spec_name(&self) -> Seq<char> {
        "OGG"@
    }

    open spec fn spec_matches(&self, data: Seq<u8>) -> bool {
        has_at(data, 0, seq![0x4fu8, 0x67u8, 0x67u8, 0x53u8])
    }

    open spec fn spec_dissect(&self, data: Seq<u8>) -> Seq<BlockModel> {
        ogg_walk(data, 0, 0, Seq::empty())
    }

    fn name(&self) -> (r: &'static str) {
        "OGG"
    }

    fn matches(&self, data: &[u8]) -> (r: bool) {
        let magic: [u8; 4] = [0x4f, 0x67, 0x67, 0x53];
        let r = bytes_at(data, 0, &magic);
        assert(magic@ =~= seq![0x4fu8, 0x67u8, 0x67u8, 0x53u8]);
        r
    }

    fn dissect(&self, data: &[u8]) -> (r: Vec<Block>) {
        let mut blocks = no_blocks();
        let mut offset: u64 = 0;
        let mut index: u64 = 0;
        let ghost d = data@;
        loop
            invariant
                d == data@,
                input_ok(d),
                offset <= d.len(),
                index <= offset,
                ogg_walk(d, 0, 0, Seq::empty()) == ogg_walk(d, offset as int, index as nat, models(blocks@)),
            ensures
                ogg_walk(d, 0, 0, Seq::empty()) == models(blocks@),
            decreases d.len() - offset,
        {
            match page_block(data, offset, index) {
                Some(page) => {
                    let end = page.range.end;
                    push_block(&mut blocks, page);
                    offset = end;
                    index = index + 1;
                },
                None => break,
            }
        }
        blocks
    }
}

} // verus!
