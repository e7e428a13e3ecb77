//! MP4 and other ISO base media files: nested boxes, with the headers of
//! the common boxes decoded.

use vstd::prelude::*;
use crate::decimal::{lemma_pow10_values, plain_s, push_plain};
use crate::timefmt::{duration_s, format_duration, format_mp4_epoch, mp4_unix_s, unix_timestamp_s};
use super::{
    Block, BlockModel, ByteRange, Dissector, all_nest, all_tree_ok, append_blocks, blocks_between, input_ok,
    lemma_push_tree, leaf_m, leaves_between, models, nests, no_blocks, node_m, push_block, push_if, rng,
    tree_ok, within,
};
use crate::bytes::{
    as_i16, avail, find_nul, fits, idx, imin, min_u64, read_u16, read_u32, read_u64, u16at, u32at,
    u64at, until_nul,
};
use crate::text::{
    dec, label_i16, label_str, label_u32, label_u64, label_u64_wrap, label_u8, label_wrap, lit,
    lossy_string, push_char_pub, push_dec, push_str, sdec, utf8_lossy,
};
verus! {

pub struct Mp4Dissector;

/// A four-character code as text: printable ASCII and space kept, other bytes shown as `.`.
pub open spec fn fourcc_s(b: Seq<u8>) -> Seq<char> {
    b.map_values(|x: u8| if 0x20 <= x <= 0x7e { x as char } else { '.' })
}

pub fn fourcc_string(data: &[u8], o: u64) -> (r: String)
    requires
        fits(data@, o as int, 4),
    ensures
        r@ == fourcc_s(data@.subrange(o as int, o + 4)),
{
    let ghost b = data@.subrange(o as int, o + 4);
    let mut s = String::new();
    let len = data.len();
    let base = idx(data, o);
    let mut i: usize = 0;
    while i < 4
        invariant
            len == data@.len(),
            i <= 4,
            fits(data@, o as int, 4),
            base == o,
            b == data@.subrange(o as int, o + 4),
            s@ == fourcc_s(b.subrange(0, i as int)),
        decreases 4 - i,
    {
        let x = data[base + i];
        let c = if 0x20 <= x && x <= 0x7e { x as char } else { '.' };
        push_char_pub(&mut s, c);
        i = i + 1;
        assert(s@ =~= fourcc_s(b.subrange(0, i as int)));
    }
    assert(b.subrange(0, 4) =~= b);
    s
}

/// The header of the box at `o`: its type, the length of its header
/// (with an extended size or a UUID), and where the box ends, cut at the end
/// of `d`; none when the header does not lie within `d` or the declared
/// size is smaller than the header.
#[verifier::opaque]
pub open spec fn box_header_s(d: Seq<u8>, o: int) -> Option<(Seq<char>, int, int)> {
    if !fits(d, o, 8) {
        None
    } else {
        let size32 = u32at(d, o, false);
        let t = fourcc_s(d.subrange(o + 4, o + 8));
        if size32 == 1 && !fits(d, o, 16) {
            None
        } else {
            let hl: int = if size32 == 1 { 16 } else { 8 };
            let size: int = if size32 == 1 {
                u64at(d, o + 8, false) as int
            } else if size32 == 0 {
                d.len() - o
            } else {
                size32 as int
            };
            let is_uuid = t == "uuid"@;
            if is_uuid && d.len() < o + hl + 16 {
                None
            } else {
                let hl2 = if is_uuid { hl + 16 } else { hl };
                if size < hl2 {
                    None
                } else {
                    Some((t, hl2, imin(o + size, d.len() as int)))
                }
            }
        }
    }
}

pub fn parse_box_header(data: &[u8], offset: u64) -> (r: Option<(String, u64, u64)>)
    ensures
        r matches Some((t, hl, e)) ==> box_header_s(data@, offset as int) == Some((t@, hl as int, e as int))
            && offset + 8 <= offset + hl <= e <= data@.len() && hl <= 32,
        r is None ==> box_header_s(data@, offset as int) is None,
{
    reveal(box_header_s);
    if !avail(data, offset, 8) {
        return None;
    }
    let size32 = read_u32(data, offset, false).unwrap();
    let t = fourcc_string(data, offset + 4);
    if size32 == 1 && !avail(data, offset, 16) {
        return None;
    }
    let data_len = data.len() as u64;
    let hl: u64 = if size32 == 1 { 16 } else { 8 };
    let size: u64 = if size32 == 1 {
        read_u64(data, offset + 8, false).unwrap()
    } else if size32 == 0 {
        data_len - offset
    } else {
        size32 as u64
    };
    let is_uuid = t == lit("uuid");
    if is_uuid && data_len - offset < hl + 16 {
        return None;
    }
    let hl2 = if is_uuid { hl + 16 } else { hl };
    if size < hl2 {
        return None;
    }
    let end = if size > data_len - offset { data_len } else { offset + size };
    Some((t, hl2, end))
}

/// Whether a box type holds only child boxes.
pub open spec fn is_container_s(t: Seq<char>) -> bool {
    t == "moov"@ || t == "trak"@ || t == "mdia"@ || t == "minf"@ || t == "stbl"@ || t == "udta"@ || t == "edts"@
        || t == "dinf"@ || t == "mvex"@ || t == "moof"@ || t == "traf"@ || t == "mfra"@ || t == "meco"@ || t == "sinf"@
        || t == "schi"@ || t == "ipro"@ || t == "strk"@ || t == "strd"@
}

fn is_container(t: &String) -> (r: bool)
    ensures
        r == is_container_s(t@),
{
    *t == lit("moov") || *t == lit("trak") || *t == lit("mdia") || *t == lit("minf") || *t == lit("stbl")
        || *t == lit("udta") || *t == lit("edts") || *t == lit("dinf") || *t == lit("mvex") || *t == lit("moof")
        || *t == lit("traf") || *t == lit("mfra") || *t == lit("meco") || *t == lit("sinf") || *t == lit("schi")
        || *t == lit("ipro") || *t == lit("strk") || *t == lit("strd")
}
/// The descriptive name of a known box type.
pub open spec fn friendly_name_s(t: Seq<char>) -> Option<Seq<char>> {
    if t == "ftyp"@ {
        Some("File Type"@)
    } else if t == "moov"@ {
        Some("Movie"@)
    } else if t == "mdat"@ {
        Some("Media Data"@)
    } else if t == "free"@ || t == "skip"@ {
        Some("Free Space"@)
    } else if t == "wide"@ {
        Some("Reserved Space"@)
    } else if t == "trak"@ {
        Some("Track"@)
    } else if t == "mdia"@ {
        Some("Media"@)
    } else if t == "minf"@ {
        Some("Media Information"@)
    } else if t == "stbl"@ {
        Some("Sample Table"@)
    } else if t == "udta"@ {
        Some("User Data"@)
    } else if t == "edts"@ {
        Some("Edit"@)
    } else if t == "elst"@ {
        Some("Edit List"@)
    } else if t == "dinf"@ {
        Some("Data Information"@)
    } else if t == "dref"@ {
        Some("Data Reference"@)
    } else if t == "mvex"@ {
        Some("Movie Extends"@)
    } else if t == "moof"@ {
        Some("Movie Fragment"@)
    } else if t == "traf"@ {
        Some("Track Fragment"@)
    } else if t == "mfra"@ {
        Some("Movie Fragment Random Access"@)
    } else if t == "meta"@ {
        Some("Metadata"@)
    } else if t == "hdlr"@ {
        Some("Handler Reference"@)
    } else if t == "mvhd"@ {
        Some("Movie Header"@)
    } else if t == "tkhd"@ {
        Some("Track Header"@)
    } else if t == "mdhd"@ {
        Some("Media Header"@)
    } else if t == "stsd"@ {
        Some("Sample Description"@)
    } else if t == "stts"@ {
        Some("Decoding Time to Sample"@)
    } else if t == "ctts"@ {
        Some("Composition Time to Sample"@)
    } else if t == "stsc"@ {
        Some("Sample to Chunk"@)
    } else if t == "stsz"@ {
        Some("Sample Sizes"@)
    } else if t == "stz2"@ {
        Some("Compact Sample Sizes"@)
    } else if t == "stco"@ {
        Some("Chunk Offset (32-bit)"@)
    } else if t == "co64"@ {
        Some("Chunk Offset (64-bit)"@)
    } else if t == "stss"@ {
        Some("Sync Sample"@)
    } else if t == "smhd"@ {
        Some("Sound Media Header"@)
    } else if t == "vmhd"@ {
        Some("Video Media Header"@)
    } else if t == "nmhd"@ {
        Some("Null Media Header"@)
    } else if t == "gmhd"@ {
        Some("Generic Media Header"@)
    } else if t == "pnot"@ {
        Some("Preview"@)
    } else {
        None
    }
}

pub fn friendly_name(t: &String) -> (r: Option<&'static str>)
    ensures
        r matches Some(n) ==> friendly_name_s(t@) == Some(n@),
        r is None ==> friendly_name_s(t@) is None,
{
    if *t == lit("ftyp") {
        Some("File Type")
    } else if *t == lit("moov") {
        Some("Movie")
    } else if *t == lit("mdat") {
        Some("Media Data")
    } else if *t == lit("free") || *t == lit("skip") {
        Some("Free Space")
    } else if *t == lit("wide") {
        Some("Reserved Space")
    } else if *t == lit("trak") {
        Some("Track")
    } else if *t == lit("mdia") {
        Some("Media")
    } else if *t == lit("minf") {
        Some("Media Information")
    } else if *t == lit("stbl") {
        Some("Sample Table")
    } else if *t == lit("udta") {
        Some("User Data")
    } else if *t == lit("edts") {
        Some("Edit")
    } else if *t == lit("elst") {
        Some("Edit List")
    } else if *t == lit("dinf") {
        Some("Data Information")
    } else if *t == lit("dref") {
        Some("Data Reference")
    } else if *t == lit("mvex") {
        Some("Movie Extends")
    } else if *t == lit("moof") {
        Some("Movie Fragment")
    } else if *t == lit("traf") {
        Some("Track Fragment")
    } else if *t == lit("mfra") {
        Some("Movie Fragment Random Access")
    } else if *t == lit("meta") {
        Some("Metadata")
    } else if *t == lit("hdlr") {
        Some("Handler Reference")
    } else if *t == lit("mvhd") {
        Some("Movie Header")
    } else if *t == lit("tkhd") {
        Some("Track Header")
    } else if *t == lit("mdhd") {
        Some("Media Header")
    } else if *t == lit("stsd") {
        Some("Sample Description")
    } else if *t == lit("stts") {
        Some("Decoding Time to Sample")
    } else if *t == lit("ctts") {
        Some("Composition Time to Sample")
    } else if *t == lit("stsc") {
        Some("Sample to Chunk")
    } else if *t == lit("stsz") {
        Some("Sample Sizes")
    } else if *t == lit("stz2") {
        Some("Compact Sample Sizes")
    } else if *t == lit("stco") {
        Some("Chunk Offset (32-bit)")
    } else if *t == lit("co64") {
        Some("Chunk Offset (64-bit)")
    } else if *t == lit("stss") {
        Some("Sync Sample")
    } else if *t == lit("smhd") {
        Some("Sound Media Header")
    } else if *t == lit("vmhd") {
        Some("Video Media Header")
    } else if *t == lit("nmhd") {
        Some("Null Media Header")
    } else if *t == lit("gmhd") {
        Some("Generic Media Header")
    } else if *t == lit("pnot") {
        Some("Preview")
    } else {
        None
    }
}

/// A box's label: its type, with its descriptive name when known.
pub open spec fn box_label_s(t: Seq<char>) -> Seq<char> {
    match friendly_name_s(t) {
        Some(n) => t + " ("@ + n + ")"@,
        None => t,
    }
}

fn box_label(t: &String) -> (r: String)
    ensures
        r@ == box_label_s(t@),
{
    match friendly_name(t) {
        Some(n) => {
            let mut s = label_wrap(t.as_str(), " (", n);
            push_str(&mut s, ")");
            s
        },
        None => lit(t.as_str()),
    }
}

/// The header fields of the box at `o` with type `t` and header length `hl`.
pub open spec fn header_fields_s(d: Seq<u8>, o: int, t: Seq<char>, hl: int) -> Seq<BlockModel> {
    let size32 = u32at(d, o, false);
    let c = if size32 == 1 {
        Seq::empty()
            .push(leaf_m("Size: 1 (extended size follows)"@, rng(o, o + 4)))
            .push(leaf_m("Type: "@ + t, rng(o + 4, o + 8)))
            .push(leaf_m("Extended size: "@ + dec(u64at(d, o + 8, false) as nat), rng(o + 8, o + 16)))
    } else {
        let size_label = if size32 == 0 { "Size: 0 (extends to end of file)"@ } else { "Size: "@ + dec(size32 as nat) };
        Seq::empty()
            .push(leaf_m(size_label, rng(o, o + 4)))
            .push(leaf_m("Type: "@ + t, rng(o + 4, o + 8)))
    };
    push_if(c, t == "uuid"@, leaf_m("Extended type (UUID)"@, rng(o + hl - 16, o + hl)))
}

fn header_field_blocks(data: &[u8], o: u64, t: &String, hl: u64) -> (r: Vec<Block>)
    requires
        input_ok(data@),
        box_header_s(data@, o as int) == Some((t@, hl as int, box_header_s(data@, o as int).unwrap().2)),
    ensures
        models(r@) == header_fields_s(data@, o as int, t@, hl as int),
{
    reveal(box_header_s);
    let size32 = read_u32(data, o, false).unwrap();
    let mut c = no_blocks();
    if size32 == 1 {
        push_block(&mut c, Block::leaf(lit("Size: 1 (extended size follows)"), ByteRange::new(o, o + 4)));
        push_block(&mut c, Block::leaf(label_str("Type: ", t.as_str()), ByteRange::new(o + 4, o + 8)));
        push_block(&mut c, Block::leaf(label_u64("Extended size: ", read_u64(data, o + 8, false).unwrap()), ByteRange::new(o + 8, o + 16)));
    } else {
        let size_label = if size32 == 0 { lit("Size: 0 (extends to end of file)") } else { label_u32("Size: ", size32) };
        push_block(&mut c, Block::leaf(size_label, ByteRange::new(o, o + 4)));
        push_block(&mut c, Block::leaf(label_str("Type: ", t.as_str()), ByteRange::new(o + 4, o + 8)));
    }
    if *t == lit("uuid") {
        push_block(&mut c, Block::leaf(lit("Extended type (UUID)"), ByteRange::new(o + hl - 16, o + hl)));
    }
    c
}

/// `acc` with the `n`-byte field `b` at `o` appended, and the offset after
/// it, when the field ends within `e`; else `acc` and `o` unchanged.
pub open spec fn field_s(acc: Seq<BlockModel>, o: int, e: int, n: int, b: BlockModel) -> (Seq<BlockModel>, int) {
    if o + n <= e {
        (acc.push(b), o + n)
    } else {
        (acc, o)
    }
}

/// A 32- or 64-bit big-endian value at `o`.
pub open spec fn wide_s(d: Seq<u8>, o: int, w: int) -> u64 {
    if w == 8 { u64at(d, o, false) } else { u32at(d, o, false) as u64 }
}

fn read_wide(data: &[u8], o: u64, w: u64) -> (r: u64)
    requires
        input_ok(data@),
        fits(data@, o as int, w as int),
        w == 4 || w == 8,
    ensures
        r == wide_s(data@, o as int, w as int),
{
    if w == 8 { read_u64(data, o, false).unwrap() } else { read_u32(data, o, false).unwrap() as u64 }
}

/// An absolute time field: its value and the UTC date and time it stands for.
#[verifier::opaque]
pub open spec fn time_field_s(d: Seq<u8>, label: Seq<char>, o: int, w: int) -> BlockModel {
    let v = wide_s(d, o, w);
    leaf_m(label + ": "@ + dec(v as nat) + " ("@ + unix_timestamp_s(mp4_unix_s(v)) + ")"@, rng(o, o + w))
}

fn time_field(data: &[u8], label: &str, o: u64, w: u64) -> (b: Block)
    requires
        input_ok(data@),
        fits(data@, o as int, w as int),
        w == 4 || w == 8,
    ensures
        b@ == time_field_s(data@, label@, o as int, w as int),
{
    reveal(time_field_s);
    let v = read_wide(data, o, w);
    let mut s = label_str(label, ": ");
    push_dec(&mut s, v);
    push_str(&mut s, " (");
    let t = format_mp4_epoch(v);
    push_str(&mut s, t.as_str());
    push_str(&mut s, ")");
    Block::leaf(s, ByteRange::new(o, o + w))
}

/// A duration field: its value, and the time it amounts to when the timescale is known and not zero.
#[verifier::opaque]
pub open spec fn duration_field_s(d: Seq<u8>, label: Seq<char>, o: int, w: int, ts: Option<u32>) -> BlockModel {
    let v = wide_s(d, o, w);
    let text = match ts {
        Some(t) => if t > 0 {
            label + ": "@ + dec(v as nat) + " ("@ + duration_s(v as nat, t as nat) + ")"@
        } else {
            label + ": "@ + dec(v as nat)
        },
        None => label + ": "@ + dec(v as nat),
    };
    leaf_m(text, rng(o, o + w))
}

fn duration_field(data: &[u8], label: &str, o: u64, w: u64, ts: Option<u32>) -> (b: Block)
    requires
        input_ok(data@),
        fits(data@, o as int, w as int),
        w == 4 || w == 8,
    ensures
        b@ == duration_field_s(data@, label@, o as int, w as int, ts),
{
    reveal(duration_field_s);
    let v = read_wide(data, o, w);
    let mut s = label_str(label, ": ");
    push_dec(&mut s, v);
    match ts {
        Some(t) => {
            if t > 0 {
                push_str(&mut s, " (");
                let text = format_duration(v, t);
                push_str(&mut s, text.as_str());
                push_str(&mut s, ")");
            }
        },
        None => {},
    }
    Block::leaf(s, ByteRange::new(o, o + w))
}

/// The version byte and flags that start a full box at `s`.
pub open spec fn version_flags_s(d: Seq<u8>, s: int) -> Seq<BlockModel> {
    Seq::empty()
        .push(leaf_m("Version: "@ + dec(d[s] as nat), rng(s, s + 1)))
        .push(leaf_m("Flags"@, rng(s + 1, s + 4)))
}

fn version_flags(data: &[u8], s: u64) -> (r: Vec<Block>)
    requires
        fits(data@, s as int, 4),
    ensures
        models(r@) == version_flags_s(data@, s as int),
{
    let mut c = no_blocks();
    push_block(&mut c, Block::leaf(label_u8("Version: ", data[idx(data, s)]), ByteRange::new(s, s + 1)));
    push_block(&mut c, Block::leaf(lit("Flags"), ByteRange::new(s + 1, s + 4)));
    c
}

/// A 16.16 fixed-point value as its exact decimal expansion (up to sixteen
/// fractional digits; `{}` on the equal `f64` shortens those past about
/// fifteen significant digits, for example `65535.0000152587890625` here and
/// `65535.00001525879` there).
pub open spec fn fixed16_16_s(v: u32) -> Seq<char> {
    plain_s(v as nat, 65536, 16)
}

/// An 8.8 fixed-point value as its exact decimal expansion, which has at
/// most eight fractional digits and so reads as `{}` on the equal `f64` does.
pub open spec fn fixed8_8_s(v: u16) -> Seq<char> {
    plain_s(v as nat, 256, 8)
}

fn push_fixed16_16(s: &mut String, v: u32)
    ensures
        final(s)@ == old(s)@ + fixed16_16_s(v),
{
    proof {
        lemma_pow10_values();
        assert((v as u128 / 65536 + 1) * 10_000_000_000_000_000 <= u128::MAX) by (nonlinear_arith)
            requires
                v < 0x1_0000_0000,
        ;
    }
    push_plain(s, v as u128, 65536, 16);
}

fn push_fixed8_8(s: &mut String, v: u16)
    ensures
        final(s)@ == old(s)@ + fixed8_8_s(v),
{
    proof {
        lemma_pow10_values();
    }
    push_plain(s, v as u128, 256, 8);
}

/// The children of an `ftyp` box with content `s..e`: major brand, minor
/// version and compatible brands; none when shorter than eight bytes.
pub open spec fn ftyp_s(d: Seq<u8>, s: int, e: int) -> Option<Seq<BlockModel>> {
    if e < s + 8 {
        None
    } else {
        let c = Seq::empty()
            .push(leaf_m("Major brand: "@ + fourcc_s(d.subrange(s, s + 4)), rng(s, s + 4)))
            .push(leaf_m("Minor version: "@ + dec(u32at(d, s + 4, false) as nat), rng(s + 4, s + 8)));
        Some(brands_s(d, s + 8, e, c))
    }
}

/// Compatible brands from `o` on, appended to `acc`, while four bytes remain before `e`.
pub open spec fn brands_s(d: Seq<u8>, o: int, e: int, acc: Seq<BlockModel>) -> Seq<BlockModel>
    decreases e - o,
{
    if o + 4 <= e {
        brands_s(d, o + 4, e, acc.push(leaf_m("Compatible brand: "@ + fourcc_s(d.subrange(o, o + 4)), rng(o, o + 4))))
    } else {
        acc
    }
}

fn ftyp_children(data: &[u8], s: u64, e: u64) -> (r: Option<Vec<Block>>)
    requires
        s <= e <= data@.len(),
        input_ok(data@),
    ensures
        r matches Some(v) ==> ftyp_s(data@, s as int, e as int) == Some(models(v@)),
        r is None ==> ftyp_s(data@, s as int, e as int) is None,
{
    if e < s + 8 {
        return None;
    }
    let mut c = no_blocks();
    push_block(&mut c, Block::leaf(label_str("Major brand: ", fourcc_string(data, s).as_str()), ByteRange::new(s, s + 4)));
    push_block(&mut c, Block::leaf(label_u32("Minor version: ", read_u32(data, s + 4, false).unwrap()), ByteRange::new(s + 4, s + 8)));
    let ghost c0 = models(c@);
    let mut o = s + 8;
    while o + 4 <= e
        invariant
            s + 8 <= o <= e <= data@.len(),
            input_ok(data@),
            brands_s(data@, s + 8, e as int, c0) == brands_s(data@, o as int, e as int, models(c@)),
        decreases e - o,
    {
        push_block(&mut c, Block::leaf(label_str("Compatible brand: ", fourcc_string(data, o).as_str()), ByteRange::new(o, o + 4)));
        o = o + 4;
    }
    Some(c)
}

/// The children of an `mvhd` box with content `s..e`: version and flags;
/// when the times, timescale and duration fit, those, then each later field
/// that still ends within `e`. None below four bytes.
#[verifier::opaque]
pub open spec fn mvhd_s(d: Seq<u8>, s: int, e: int) -> Option<Seq<BlockModel>> {
    if e < s + 4 {
        None
    } else {
        let c0 = version_flags_s(d, s);
        let w: int = if d[s] == 1 { 8 } else { 4 };
        let o = s + 4;
        if e < o + w * 3 + 4 {
            Some(c0)
        } else {
            let ts = u32at(d, o + 2 * w, false);
            let c1 = c0
                .push(time_field_s(d, "Creation time"@, o, w))
                .push(time_field_s(d, "Modification time"@, o + w, w))
                .push(leaf_m("Timescale: "@ + dec(ts as nat), rng(o + 2 * w, o + 2 * w + 4)))
                .push(duration_field_s(d, "Duration"@, o + 2 * w + 4, w, Some(ts)));
            let o1 = o + 3 * w + 4;
            let (c2, o2) = field_s(c1, o1, e, 4, leaf_m("Rate: "@ + fixed16_16_s(u32at(d, o1, false)), rng(o1, o1 + 4)));
            let (c3, o3) = field_s(c2, o2, e, 2, leaf_m("Volume: "@ + fixed8_8_s(u16at(d, o2, false)), rng(o2, o2 + 2)));
            let (c4, o4) = field_s(c3, o3, e, 10, leaf_m("Reserved"@, rng(o3, o3 + 10)));
            let (c5, o5) = field_s(c4, o4, e, 36, leaf_m("Transformation matrix"@, rng(o4, o4 + 36)));
            let (c6, o6) = field_s(c5, o5, e, 24, leaf_m("Pre-defined"@, rng(o5, o5 + 24)));
            let (c7, _o7) = field_s(c6, o6, e, 4, leaf_m("Next track ID: "@ + dec(u32at(d, o6, false) as nat), rng(o6, o6 + 4)));
            Some(c7)
        }
    }
}

fn mvhd_children(data: &[u8], s: u64, e: u64) -> (r: Option<Vec<Block>>)
    requires
        s <= e <= data@.len(),
        input_ok(data@),
    ensures
        r matches Some(v) ==> mvhd_s(data@, s as int, e as int) == Some(models(v@)),
        r is None ==> mvhd_s(data@, s as int, e as int) is None,
{
    reveal(mvhd_s);
    if e < s + 4 {
        return None;
    }
    let mut c = version_flags(data, s);
    let w: u64 = if data[idx(data, s)] == 1 { 8 } else { 4 };
    let mut o = s + 4;
    if e < o + w * 3 + 4 {
        return Some(c);
    }
    let ts = read_u32(data, o + 2 * w, false).unwrap();
    push_block(&mut c, time_field(data, "Creation time", o, w));
    push_block(&mut c, time_field(data, "Modification time", o + w, w));
    push_block(&mut c, Block::leaf(label_u32("Timescale: ", ts), ByteRange::new(o + 2 * w, o + 2 * w + 4)));
    push_block(&mut c, duration_field(data, "Duration", o + 2 * w + 4, w, Some(ts)));
    o = o + 3 * w + 4;
    if o + 4 <= e {
        let mut l = lit("Rate: ");
        push_fixed16_16(&mut l, read_u32(data, o, false).unwrap());
        push_block(&mut c, Block::leaf(l, ByteRange::new(o, o + 4)));
        o = o + 4;
    }
    if o + 2 <= e {
        let mut l = lit("Volume: ");
        push_fixed8_8(&mut l, read_u16(data, o, false).unwrap());
        push_block(&mut c, Block::leaf(l, ByteRange::new(o, o + 2)));
        o = o + 2;
    }
    if o + 10 <= e {
        push_block(&mut c, Block::leaf(lit("Reserved"), ByteRange::new(o, o + 10)));
        o = o + 10;
    }
    if o + 36 <= e {
        push_block(&mut c, Block::leaf(lit("Transformation matrix"), ByteRange::new(o, o + 36)));
        o = o + 36;
    }
    if o + 24 <= e {
        push_block(&mut c, Block::leaf(lit("Pre-defined"), ByteRange::new(o, o + 24)));
        o = o + 24;
    }
    if o + 4 <= e {
        push_block(&mut c, Block::leaf(label_u32("Next track ID: ", read_u32(data, o, false).unwrap()), ByteRange::new(o, o + 4)));
    }
    Some(c)
}

/// The children of a `tkhd` box with content `s..e`, laid out like `mvhd_s`.
#[verifier::opaque]
pub open spec fn tkhd_s(d: Seq<u8>, s: int, e: int) -> Option<Seq<BlockModel>> {
    if e < s + 4 {
        None
    } else {
        let c0 = version_flags_s(d, s);
        let w: int = if d[s] == 1 { 8 } else { 4 };
        let o = s + 4;
        if e < o + w * 2 + 8 + w {
            Some(c0)
        } else {
            let c1 = c0
                .push(time_field_s(d, "Creation time"@, o, w))
                .push(time_field_s(d, "Modification time"@, o + w, w))
                .push(leaf_m("Track ID: "@ + dec(u32at(d, o + 2 * w, false) as nat), rng(o + 2 * w, o + 2 * w + 4)))
                .push(leaf_m("Reserved"@, rng(o + 2 * w + 4, o + 2 * w + 8)))
                .push(duration_field_s(d, "Duration"@, o + 2 * w + 8, w, None));
            let o1 = o + 3 * w + 8;
            let (c2, o2) = field_s(c1, o1, e, 8, leaf_m("Reserved"@, rng(o1, o1 + 8)));
            let (c3, o3) = field_s(c2, o2, e, 2, leaf_m("Layer: "@ + sdec(as_i16(u16at(d, o2, false))), rng(o2, o2 + 2)));
            let (c4, o4) = field_s(c3, o3, e, 2, leaf_m("Alternate group: "@ + sdec(as_i16(u16at(d, o3, false))), rng(o3, o3 + 2)));
            let (c5, o5) = field_s(c4, o4, e, 2, leaf_m("Volume: "@ + fixed8_8_s(u16at(d, o4, false)), rng(o4, o4 + 2)));
            let (c6, o6) = field_s(c5, o5, e, 2, leaf_m("Reserved"@, rng(o5, o5 + 2)));
            let (c7, o7) = field_s(c6, o6, e, 36, leaf_m("Transformation matrix"@, rng(o6, o6 + 36)));
            let (c8, o8) = field_s(c7, o7, e, 4, leaf_m("Width: "@ + fixed16_16_s(u32at(d, o7, false)), rng(o7, o7 + 4)));
            let (c9, _o9) = field_s(c8, o8, e, 4, leaf_m("Height: "@ + fixed16_16_s(u32at(d, o8, false)), rng(o8, o8 + 4)));
            Some(c9)
        }
    }
}

fn tkhd_children(data: &[u8], s: u64, e: u64) -> (r: Option<Vec<Block>>)
    requires
        s <= e <= data@.len(),
        input_ok(data@),
    ensures
        r matches Some(v) ==> tkhd_s(data@, s as int, e as int) == Some(models(v@)),
        r is None ==> tkhd_s(data@, s as int, e as int) is None,
{
    reveal(tkhd_s);
    if e < s + 4 {
        return None;
    }
    let mut c = version_flags(data, s);
    let w: u64 = if data[idx(data, s)] == 1 { 8 } else { 4 };
    let mut o = s + 4;
    if e < o + w * 2 + 8 + w {
        return Some(c);
    }
    push_block(&mut c, time_field(data, "Creation time", o, w));
    push_block(&mut c, time_field(data, "Modification time", o + w, w));
    push_block(&mut c, Block::leaf(label_u32("Track ID: ", read_u32(data, o + 2 * w, false).unwrap()), ByteRange::new(o + 2 * w, o + 2 * w + 4)));
    push_block(&mut c, Block::leaf(lit("Reserved"), ByteRange::new(o + 2 * w + 4, o + 2 * w + 8)));
    push_block(&mut c, duration_field(data, "Duration", o + 2 * w + 8, w, None));
    o = o + 3 * w + 8;
    if o + 8 <= e {
        push_block(&mut c, Block::leaf(lit("Reserved"), ByteRange::new(o, o + 8)));
        o = o + 8;
    }
    if o + 2 <= e {
        push_block(&mut c, Block::leaf(label_i16("Layer: ", read_u16(data, o, false).unwrap()), ByteRange::new(o, o + 2)));
        o = o + 2;
    }
    if o + 2 <= e {
        push_block(&mut c, Block::leaf(label_i16("Alternate group: ", read_u16(data, o, false).unwrap()), ByteRange::new(o, o + 2)));
        o = o + 2;
    }
    if o + 2 <= e {
        let mut l = lit("Volume: ");
        push_fixed8_8(&mut l, read_u16(data, o, false).unwrap());
        push_block(&mut c, Block::leaf(l, ByteRange::new(o, o + 2)));
        o = o + 2;
    }
    if o + 2 <= e {
        push_block(&mut c, Block::leaf(lit("Reserved"), ByteRange::new(o, o + 2)));
        o = o + 2;
    }
    if o + 36 <= e {
        push_block(&mut c, Block::leaf(lit("Transformation matrix"), ByteRange::new(o, o + 36)));
        o = o + 36;
    }
    if o + 4 <= e {
        let mut l = lit("Width: ");
        push_fixed16_16(&mut l, read_u32(data, o, false).unwrap());
        push_block(&mut c, Block::leaf(l, ByteRange::new(o, o + 4)));
        o = o + 4;
    }
    if o + 4 <= e {
        let mut l = lit("Height: ");
        push_fixed16_16(&mut l, read_u32(data, o, false).unwrap());
        push_block(&mut c, Block::leaf(l, ByteRange::new(o, o + 4)));
    }
    Some(c)
}

/// An ISO 639-2 language code packed as three 5-bit letters offset from 0x60.
pub open spec fn language_s(code: u16) -> Seq<char> {
    seq![
        ((code / 1024) % 32 + 0x60) as char,
        ((code / 32) % 32 + 0x60) as char,
        (code % 32 + 0x60) as char,
    ]
}

pub fn parse_language(code: u16) -> (r: String)
    ensures
        r@ == language_s(code),
{
    let c1 = ((code / 1024) % 32 + 0x60) as u8;
    let c2 = ((code / 32) % 32 + 0x60) as u8;
    let c3 = (code % 32 + 0x60) as u8;
    let mut s = String::new();
    push_char_pub(&mut s, c1 as char);
    push_char_pub(&mut s, c2 as char);
    push_char_pub(&mut s, c3 as char);
    assert(s@ =~= language_s(code));
    s
}

/// The children of an `mdhd` box with content `s..e`: version, flags, the
/// times, timescale and duration, language and pre-defined field.
#[verifier::opaque]
pub open spec fn mdhd_s(d: Seq<u8>, s: int, e: int) -> Option<Seq<BlockModel>> {
    if e < s + 4 {
        None
    } else {
        let c0 = version_flags_s(d, s);
        let w: int = if d[s] == 1 { 8 } else { 4 };
        let o = s + 4;
        if e < o + w * 3 + w {
            Some(c0)
        } else {
            let ts = u32at(d, o + 2 * w, false);
            let c1 = c0
                .push(time_field_s(d, "Creation time"@, o, w))
                .push(time_field_s(d, "Modification time"@, o + w, w))
                .push(leaf_m("Timescale: "@ + dec(ts as nat), rng(o + 2 * w, o + 2 * w + 4)))
                .push(duration_field_s(d, "Duration"@, o + 2 * w + 4, w, Some(ts)));
            let o1 = o + 3 * w + 4;
            let (c2, o2) = field_s(c1, o1, e, 2, leaf_m("Language: "@ + language_s(u16at(d, o1, false)), rng(o1, o1 + 2)));
            let (c3, _o3) = field_s(c2, o2, e, 2, leaf_m("Pre-defined"@, rng(o2, o2 + 2)));
            Some(c3)
        }
    }
}

fn mdhd_children(data: &[u8], s: u64, e: u64) -> (r: Option<Vec<Block>>)
    requires
        s <= e <= data@.len(),
        input_ok(data@),
    ensures
        r matches Some(v) ==> mdhd_s(data@, s as int, e as int) == Some(models(v@)),
        r is None ==> mdhd_s(data@, s as int, e as int) is None,
{
    reveal(mdhd_s);
    if e < s + 4 {
        return None;
    }
    let mut c = version_flags(data, s);
    let w: u64 = if data[idx(data, s)] == 1 { 8 } else { 4 };
    let mut o = s + 4;
    if e < o + w * 3 + w {
        return Some(c);
    }
    let ts = read_u32(data, o + 2 * w, false).unwrap();
    push_block(&mut c, time_field(data, "Creation time", o, w));
    push_block(&mut c, time_field(data, "Modification time", o + w, w));
    push_block(&mut c, Block::leaf(label_u32("Timescale: ", ts), ByteRange::new(o + 2 * w, o + 2 * w + 4)));
    push_block(&mut c, duration_field(data, "Duration", o + 2 * w + 4, w, Some(ts)));
    o = o + 3 * w + 4;
    if o + 2 <= e {
        let lang = parse_language(read_u16(data, o, false).unwrap());
        push_block(&mut c, Block::leaf(label_str("Language: ", lang.as_str()), ByteRange::new(o, o + 2)));
        o = o + 2;
    }
    if o + 2 <= e {
        push_block(&mut c, Block::leaf(lit("Pre-defined"), ByteRange::new(o, o + 2)));
    }
    Some(c)
}

/// The children of an `hdlr` box with content `s..e`: version, flags,
/// handler type and the name up to its first NUL.
pub open spec fn hdlr_s(d: Seq<u8>, s: int, e: int) -> Option<Seq<BlockModel>> {
    if e < s + 4 {
        None
    } else {
        let c0 = version_flags_s(d, s);
        let o = s + 4;
        if e < o + 20 {
            Some(c0)
        } else {
            let c1 = c0
                .push(leaf_m("Pre-defined"@, rng(o, o + 4)))
                .push(leaf_m("Handler type: "@ + fourcc_s(d.subrange(o + 4, o + 8)), rng(o + 4, o + 8)))
                .push(leaf_m("Reserved"@, rng(o + 8, o + 20)));
            let o1 = o + 20;
            Some(push_if(c1, o1 < e, leaf_m("Name: "@ + utf8_lossy(until_nul(d.subrange(o1, e))), rng(o1, e))))
        }
    }
}

fn hdlr_children(data: &[u8], s: u64, e: u64) -> (r: Option<Vec<Block>>)
    requires
        s <= e <= data@.len(),
        input_ok(data@),
    ensures
        r matches Some(v) ==> hdlr_s(data@, s as int, e as int) == Some(models(v@)),
        r is None ==> hdlr_s(data@, s as int, e as int) is None,
{
    if e < s + 4 {
        return None;
    }
    let mut c = version_flags(data, s);
    let o = s + 4;
    if e < o + 20 {
        return Some(c);
    }
    push_block(&mut c, Block::leaf(lit("Pre-defined"), ByteRange::new(o, o + 4)));
    push_block(&mut c, Block::leaf(label_str("Handler type: ", fourcc_string(data, o + 4).as_str()), ByteRange::new(o + 4, o + 8)));
    push_block(&mut c, Block::leaf(lit("Reserved"), ByteRange::new(o + 8, o + 20)));
    let o1 = o + 20;
    if o1 < e {
        let start = idx(data, o1);
        let end = idx(data, e);
        let n = find_nul(data, start, end);
        let name_bytes = vstd::slice::slice_subrange(data, start, start + n);
        assert(name_bytes@ =~= until_nul(data@.subrange(o1 as int, e as int)));
        let name = lossy_string(name_bytes);
        push_block(&mut c, Block::leaf(label_str("Name: ", name.as_str()), ByteRange::new(o1, e)));
    }
    Some(c)
}

/// The children of an `stsd` box with content `s..e`: version, flags,
/// entry count and the span of the sample entries.
pub open spec fn stsd_s(d: Seq<u8>, s: int, e: int) -> Option<Seq<BlockModel>> {
    if e < s + 4 {
        None
    } else {
        let c0 = version_flags_s(d, s);
        let o = s + 4;
        if e < o + 4 {
            Some(c0)
        } else {
            let c1 = c0.push(leaf_m("Entry count: "@ + dec(u32at(d, o, false) as nat), rng(o, o + 4)));
            let es = o + 4;
            Some(push_if(c1, es < e, leaf_m("Sample entries ("@ + dec((e - es) as nat) + " bytes)"@, rng(es, e))))
        }
    }
}

fn stsd_children(data: &[u8], s: u64, e: u64) -> (r: Option<Vec<Block>>)
    requires
        s <= e <= data@.len(),
        input_ok(data@),
    ensures
        r matches Some(v) ==> stsd_s(data@, s as int, e as int) == Some(models(v@)),
        r is None ==> stsd_s(data@, s as int, e as int) is None,
{
    if e < s + 4 {
        return None;
    }
    let mut c = version_flags(data, s);
    let o = s + 4;
    if e < o + 4 {
        return Some(c);
    }
    push_block(&mut c, Block::leaf(label_u32("Entry count: ", read_u32(data, o, false).unwrap()), ByteRange::new(o, o + 4)));
    let es = o + 4;
    if es < e {
        push_block(&mut c, Block::leaf(label_u64_wrap("Sample entries (", e - es, " bytes)"), ByteRange::new(es, e)));
    }
    Some(c)
}

/// The decoded children of the box types with a known layout.
pub open spec fn specific_s(d: Seq<u8>, t: Seq<char>, s: int, e: int) -> Option<Seq<BlockModel>> {
    if t == "ftyp"@ {
        ftyp_s(d, s, e)
    } else if t == "mvhd"@ {
        mvhd_s(d, s, e)
    } else if t == "tkhd"@ {
        tkhd_s(d, s, e)
    } else if t == "mdhd"@ {
        mdhd_s(d, s, e)
    } else if t == "hdlr"@ {
        hdlr_s(d, s, e)
    } else if t == "stsd"@ {
        stsd_s(d, s, e)
    } else {
        None
    }
}

fn specific_box_children(data: &[u8], t: &String, s: u64, e: u64) -> (r: Option<Vec<Block>>)
    requires
        s <= e <= data@.len(),
        input_ok(data@),
    ensures
        r matches Some(v) ==> specific_s(data@, t@, s as int, e as int) == Some(models(v@)),
        r is None ==> specific_s(data@, t@, s as int, e as int) is None,
{
    if *t == lit("ftyp") {
        ftyp_children(data, s, e)
    } else if *t == lit("mvhd") {
        mvhd_children(data, s, e)
    } else if *t == lit("tkhd") {
        tkhd_children(data, s, e)
    } else if *t == lit("mdhd") {
        mdhd_children(data, s, e)
    } else if *t == lit("hdlr") {
        hdlr_children(data, s, e)
    } else if *t == lit("stsd") {
        stsd_children(data, s, e)
    } else {
        None
    }
}

/// The boxes from `o` on, appended to `acc`, while a header fits before
/// `end` and parses to a box ending after `o`; each is cut at `end`.
pub open spec fn boxes_s(d: Seq<u8>, o: int, end: int, acc: Seq<BlockModel>) -> Seq<BlockModel>
    decreases end - o, 1int,
{
    if o + 8 > end {
        acc
    } else {
        match box_header_s(d, o) {
            None => acc,
            Some((t, hl, be0)) => {
                let be = imin(be0, end);
                if be <= o {
                    acc
                } else {
                    boxes_s(d, be, end, acc.push(box_s(d, o, t, hl, be)))
                }
            },
        }
    }
}

/// The box at `o` of type `t` with header length `hl`, ending at `be`: its
/// header fields, then its content as child boxes (containers, and `meta`
/// after its version and flags), media data, decoded fields, or one span.
pub open spec fn box_s(d: Seq<u8>, o: int, t: Seq<char>, hl: int, be: int) -> BlockModel
    decreases be - o, 0int,
{
    let cs = o + hl;
    let content = if o < cs < be {
        if is_container_s(t) {
            boxes_s(d, cs, be, Seq::empty())
        } else if t == "meta"@ {
            if cs + 4 <= be {
                version_flags_s(d, cs) + boxes_s(d, cs + 4, be, Seq::empty())
            } else {
                Seq::empty()
            }
        } else if t == "mdat"@ {
            seq![leaf_m("Media data ("@ + dec((be - cs) as nat) + " bytes)"@, rng(cs, be))]
        } else {
            match specific_s(d, t, cs, be) {
                Some(c) => c,
                None => seq![leaf_m("Data ("@ + dec((be - cs) as nat) + " bytes)"@, rng(cs, be))],
            }
        }
    } else {
        Seq::empty()
    };
    node_m(box_label_s(t), rng(o, be), header_fields_s(d, o, t, hl) + content).expand_if(t == "ftyp"@)
}

pub fn boxes_in_range(data: &[u8], start: u64, end: u64) -> (r: Vec<Block>)
    requires
        input_ok(data@),
        start <= end <= data@.len(),
    ensures
        models(r@) == boxes_s(data@, start as int, end as int, Seq::empty()),
    decreases end - start, 1int,
{
    let mut blocks = no_blocks();
    let mut offset = start;
    let ghost d = data@;
    loop
        invariant_except_break
            boxes_s(d, start as int, end as int, Seq::empty()) == boxes_s(d, offset as int, end as int, models(blocks@)),
        invariant
            d == data@,
            input_ok(d),
            start <= offset <= end <= d.len(),
        ensures
            boxes_s(d, start as int, end as int, Seq::empty()) == models(blocks@),
        decreases end - offset,
    {
        if offset + 8 > end {
            break;
        }
        let (t, hl, be0) = match parse_box_header(data, offset) {
            Some(h) => h,
            None => break,
        };
        let be = min_u64(be0, end);
        if be <= offset {
            break;
        }
        let b = box_block(data, offset, t, hl, be);
        push_block(&mut blocks, b);
        offset = be;
    }
    blocks
}

fn box_block(data: &[u8], o: u64, t: String, hl: u64, be: u64) -> (b: Block)
    requires
        input_ok(data@),
        box_header_s(data@, o as int) == Some((t@, hl as int, box_header_s(data@, o as int).unwrap().2)),
        o + 8 <= o + hl,
        hl <= 32,
        o < be <= data@.len(),
    ensures
        b@ == box_s(data@, o as int, t@, hl as int, be as int),
    decreases be - o, 0int,
{
    let cs = o + hl;
    let label = box_label(&t);
    let mut children = header_field_blocks(data, o, &t, hl);
    let ghost h = models(children@);
    if cs < be {
        if is_container(&t) {
            append_blocks(&mut children, boxes_in_range(data, cs, be));
        } else if t == lit("meta") {
            if cs + 4 <= be {
                let vf = version_flags(data, cs);
                let ghost v = models(vf@);
                append_blocks(&mut children, vf);
                let inner = boxes_in_range(data, cs + 4, be);
                let ghost w = models(inner@);
                append_blocks(&mut children, inner);
                assert(h + v + w =~= h + (v + w));
            } else {
                assert(h + Seq::empty() =~= h);
            }
        } else if t == lit("mdat") {
            let m = Block::leaf(label_u64_wrap("Media data (", be - cs, " bytes)"), ByteRange::new(cs, be));
            assert(h.push(m@) =~= h + seq![m@]);
            push_block(&mut children, m);
        } else {
            match specific_box_children(data, &t, cs, be) {
                Some(c) => append_blocks(&mut children, c),
                None => {
                    let m = Block::leaf(label_u64_wrap("Data (", be - cs, " bytes)"), ByteRange::new(cs, be));
                    assert(h.push(m@) =~= h + seq![m@]);
                    push_block(&mut children, m);
                },
            }
        }
    } else {
        assert(h + Seq::empty() =~= h);
    }
    let is_ftyp = t == lit("ftyp");
    Block::node(label, ByteRange::new(o, be), children).expanded_if(is_ftyp)
}

/// Whether every box read from `o` up to `end`, and every box inside
/// those, has its header within its own span.
pub open spec fn boxes_fit(d: Seq<u8>, o: int, end: int) -> bool
    decreases end - o, 1int,
{
    if o + 8 > end {
        true
    } else {
        match box_header_s(d, o) {
            None => true,
            Some((t, hl, be0)) => {
                let be = imin(be0, end);
                if be <= o {
                    true
                } else {
                    o + hl <= be && box_fits(d, o, t, hl, be) && boxes_fit(d, be, end)
                }
            },
        }
    }
}

/// Whether the boxes inside the box at `o` of type `t` have their headers
/// within their spans.
pub open spec fn box_fits(d: Seq<u8>, o: int, t: Seq<char>, hl: int, be: int) -> bool
    decreases be - o, 0int,
{
    let cs = o + hl;
    if o < cs < be {
        if is_container_s(t) {
            boxes_fit(d, cs, be)
        } else if t == "meta"@ {
            cs + 4 <= be ==> boxes_fit(d, cs + 4, be)
        } else {
            true
        }
    } else {
        true
    }
}

proof fn lemma_leaves_nest(cs: Seq<BlockModel>, lo: int, hi: int)
    requires
        leaves_between(cs, lo, hi),
    ensures
        blocks_between(cs, lo, hi),
{
    assert forall|i: int| 0 <= i < cs.len() implies lo <= (#[trigger] cs[i]).range.start <= cs[i].range.end <= hi
        && nests(cs[i]) by {
        assert(cs[i].children.len() == 0);
    }
}

/// Appending the leaf `b` over `lo..hi`.
proof fn lemma_push_leaf_between(cs: Seq<BlockModel>, lo: int, hi: int, b: BlockModel)
    requires
        leaves_between(cs, lo, hi),
        lo <= b.range.start <= b.range.end <= hi,
        b.children.len() == 0,
    ensures
        leaves_between(cs.push(b), lo, hi),
{
    assert forall|i: int| 0 <= i < cs.len() + 1 implies lo <= (#[trigger] cs.push(b)[i]).range.start
        <= cs.push(b)[i].range.end <= hi && cs.push(b)[i].children.len() == 0 by {
        if i < cs.len() {
            assert(cs.push(b)[i] == cs[i]);
        }
    }
}

proof fn lemma_brands_within(d: Seq<u8>, o: int, e: int, acc: Seq<BlockModel>, lo: int)
    requires
        input_ok(d),
        0 <= lo <= o,
        e <= d.len(),
        leaves_between(acc, lo, e),
    ensures
        leaves_between(brands_s(d, o, e, acc), lo, e),
    decreases e - o,
{
    if o + 4 <= e {
        let b = leaf_m("Compatible brand: "@ + fourcc_s(d.subrange(o, o + 4)), rng(o, o + 4));
        lemma_push_leaf_between(acc, lo, e, b);
        lemma_brands_within(d, o + 4, e, acc.push(b), lo);
    }
}

/// One optional field keeps the leaves within `lo..e`.
proof fn lemma_field_within(acc: Seq<BlockModel>, o: int, e: int, n: int, b: BlockModel, lo: int)
    requires
        leaves_between(acc, lo, e),
        0 <= lo <= o,
        0 <= n,
        e <= 0x7fff_ffff_ffff_ffff,
        b.range == rng(o, o + n),
        b.children.len() == 0,
    ensures
        leaves_between(field_s(acc, o, e, n, b).0, lo, e),
        o <= field_s(acc, o, e, n, b).1,
{
    if o + n <= e {
        lemma_push_leaf_between(acc, lo, e, b);
    }
}

/// Time and duration fields are leaves over their `w` bytes.
proof fn lemma_wide_fields(d: Seq<u8>, label: Seq<char>, o: int, w: int, ts: Option<u32>)
    ensures
        time_field_s(d, label, o, w).range == rng(o, o + w),
        time_field_s(d, label, o, w).children.len() == 0,
        duration_field_s(d, label, o, w, ts).range == rng(o, o + w),
        duration_field_s(d, label, o, w, ts).children.len() == 0,
{
    reveal(time_field_s);
    reveal(duration_field_s);
}

/// The version, flags and the four fields after them, of `w` bytes each but
/// the 4-byte third, lie within `s..e`.
proof fn lemma_head4_within(d: Seq<u8>, s: int, e: int, l0: BlockModel, l1: BlockModel, l2: BlockModel, l3: BlockModel)
    requires
        input_ok(d),
        0 <= s,
        e <= d.len(),
        leaves_between(version_flags_s(d, s), s, e),
        s <= l0.range.start <= l0.range.end <= e && l0.children.len() == 0,
        s <= l1.range.start <= l1.range.end <= e && l1.children.len() == 0,
        s <= l2.range.start <= l2.range.end <= e && l2.children.len() == 0,
        s <= l3.range.start <= l3.range.end <= e && l3.children.len() == 0,
    ensures
        leaves_between(version_flags_s(d, s).push(l0).push(l1).push(l2).push(l3), s, e),
{
    let c0 = version_flags_s(d, s);
    lemma_push_leaf_between(c0, s, e, l0);
    lemma_push_leaf_between(c0.push(l0), s, e, l1);
    lemma_push_leaf_between(c0.push(l0).push(l1), s, e, l2);
    lemma_push_leaf_between(c0.push(l0).push(l1).push(l2), s, e, l3);
}

proof fn lemma_mvhd_within(d: Seq<u8>, s: int, e: int)
    requires
        input_ok(d),
        0 <= s < e <= d.len(),
    ensures
        mvhd_s(d, s, e) matches Some(c) ==> leaves_between(c, s, e),
{
    reveal(mvhd_s);
    if e >= s + 4 {
        let c0 = version_flags_s(d, s);
        assert(leaves_between(c0, s, e));
        let w: int = if d[s] == 1 { 8 } else { 4 };
        let o = s + 4;
        if e >= o + w * 3 + 4 {
            let ts = u32at(d, o + 2 * w, false);
            let l0 = time_field_s(d, "Creation time"@, o, w);
            let l1 = time_field_s(d, "Modification time"@, o + w, w);
            let l2 = leaf_m("Timescale: "@ + dec(ts as nat), rng(o + 2 * w, o + 2 * w + 4));
            let l3 = duration_field_s(d, "Duration"@, o + 2 * w + 4, w, Some(ts));
            lemma_wide_fields(d, "Creation time"@, o, w, None);
            lemma_wide_fields(d, "Modification time"@, o + w, w, None);
            lemma_wide_fields(d, "Duration"@, o + 2 * w + 4, w, Some(ts));
            lemma_head4_within(d, s, e, l0, l1, l2, l3);
            let c1 = c0.push(l0).push(l1).push(l2).push(l3);
            let o1 = o + 3 * w + 4;
            let b2 = leaf_m("Rate: "@ + fixed16_16_s(u32at(d, o1, false)), rng(o1, o1 + 4));
            lemma_field_within(c1, o1, e, 4, b2, s);
            let (c2, o2) = field_s(c1, o1, e, 4, b2);
            let b3 = leaf_m("Volume: "@ + fixed8_8_s(u16at(d, o2, false)), rng(o2, o2 + 2));
            lemma_field_within(c2, o2, e, 2, b3, s);
            let (c3, o3) = field_s(c2, o2, e, 2, b3);
            let b4 = leaf_m("Reserved"@, rng(o3, o3 + 10));
            lemma_field_within(c3, o3, e, 10, b4, s);
            let (c4, o4) = field_s(c3, o3, e, 10, b4);
            let b5 = leaf_m("Transformation matrix"@, rng(o4, o4 + 36));
            lemma_field_within(c4, o4, e, 36, b5, s);
            let (c5, o5) = field_s(c4, o4, e, 36, b5);
            let b6 = leaf_m("Pre-defined"@, rng(o5, o5 + 24));
            lemma_field_within(c5, o5, e, 24, b6, s);
            let (c6, o6) = field_s(c5, o5, e, 24, b6);
            let b7 = leaf_m("Next track ID: "@ + dec(u32at(d, o6, false) as nat), rng(o6, o6 + 4));
            lemma_field_within(c6, o6, e, 4, b7, s);
            assert(mvhd_s(d, s, e) == Some(field_s(c6, o6, e, 4, b7).0));
        }
    }
}

proof fn lemma_tkhd_within(d: Seq<u8>, s: int, e: int)
    requires
        input_ok(d),
        0 <= s < e <= d.len(),
    ensures
        tkhd_s(d, s, e) matches Some(c) ==> leaves_between(c, s, e),
{
    reveal(tkhd_s);
    if e >= s + 4 {
        let c0 = version_flags_s(d, s);
        assert(leaves_between(c0, s, e));
        let w: int = if d[s] == 1 { 8 } else { 4 };
        let o = s + 4;
        if e >= o + w * 2 + 8 + w {
            let l0 = time_field_s(d, "Creation time"@, o, w);
            let l1 = time_field_s(d, "Modification time"@, o + w, w);
            let l2 = leaf_m("Track ID: "@ + dec(u32at(d, o + 2 * w, false) as nat), rng(o + 2 * w, o + 2 * w + 4));
            let l3 = leaf_m("Reserved"@, rng(o + 2 * w + 4, o + 2 * w + 8));
            let l4 = duration_field_s(d, "Duration"@, o + 2 * w + 8, w, None);
            lemma_wide_fields(d, "Creation time"@, o, w, None);
            lemma_wide_fields(d, "Modification time"@, o + w, w, None);
            lemma_wide_fields(d, "Duration"@, o + 2 * w + 8, w, None);
            lemma_head4_within(d, s, e, l0, l1, l2, l3);
            lemma_push_leaf_between(c0.push(l0).push(l1).push(l2).push(l3), s, e, l4);
            let c1 = c0.push(l0).push(l1).push(l2).push(l3).push(l4);
            let o1 = o + 3 * w + 8;
            let b2 = leaf_m("Reserved"@, rng(o1, o1 + 8));
            lemma_field_within(c1, o1, e, 8, b2, s);
            let (c2, o2) = field_s(c1, o1, e, 8, b2);
            let b3 = leaf_m("Layer: "@ + sdec(as_i16(u16at(d, o2, false))), rng(o2, o2 + 2));
            lemma_field_within(c2, o2, e, 2, b3, s);
            let (c3, o3) = field_s(c2, o2, e, 2, b3);
            let b4 = leaf_m("Alternate group: "@ + sdec(as_i16(u16at(d, o3, false))), rng(o3, o3 + 2));
            lemma_field_within(c3, o3, e, 2, b4, s);
            let (c4, o4) = field_s(c3, o3, e, 2, b4);
            let b5 = leaf_m("Volume: "@ + fixed8_8_s(u16at(d, o4, false)), rng(o4, o4 + 2));
            lemma_field_within(c4, o4, e, 2, b5, s);
            let (c5, o5) = field_s(c4, o4, e, 2, b5);
            let b6 = leaf_m("Reserved"@, rng(o5, o5 + 2));
            lemma_field_within(c5, o5, e, 2, b6, s);
            let (c6, o6) = field_s(c5, o5, e, 2, b6);
            let b7 = leaf_m("Transformation matrix"@, rng(o6, o6 + 36));
            lemma_field_within(c6, o6, e, 36, b7, s);
            let (c7, o7) = field_s(c6, o6, e, 36, b7);
            let b8 = leaf_m("Width: "@ + fixed16_16_s(u32at(d, o7, false)), rng(o7, o7 + 4));
            lemma_field_within(c7, o7, e, 4, b8, s);
            let (c8, o8) = field_s(c7, o7, e, 4, b8);
            let b9 = leaf_m("Height: "@ + fixed16_16_s(u32at(d, o8, false)), rng(o8, o8 + 4));
            lemma_field_within(c8, o8, e, 4, b9, s);
            assert(tkhd_s(d, s, e) == Some(field_s(c8, o8, e, 4, b9).0));
        }
    }
}

proof fn lemma_mdhd_within(d: Seq<u8>, s: int, e: int)
    requires
        input_ok(d),
        0 <= s < e <= d.len(),
    ensures
        mdhd_s(d, s, e) matches Some(c) ==> leaves_between(c, s, e),
{
    reveal(mdhd_s);
    if e >= s + 4 {
        let c0 = version_flags_s(d, s);
        assert(leaves_between(c0, s, e));
        let w: int = if d[s] == 1 { 8 } else { 4 };
        let o = s + 4;
        if e >= o + w * 3 + w {
            let ts = u32at(d, o + 2 * w, false);
            let l0 = time_field_s(d, "Creation time"@, o, w);
            let l1 = time_field_s(d, "Modification time"@, o + w, w);
            let l2 = leaf_m("Timescale: "@ + dec(ts as nat), rng(o + 2 * w, o + 2 * w + 4));
            let l3 = duration_field_s(d, "Duration"@, o + 2 * w + 4, w, Some(ts));
            lemma_wide_fields(d, "Creation time"@, o, w, None);
            lemma_wide_fields(d, "Modification time"@, o + w, w, None);
            lemma_wide_fields(d, "Duration"@, o + 2 * w + 4, w, Some(ts));
            lemma_head4_within(d, s, e, l0, l1, l2, l3);
            let c1 = c0.push(l0).push(l1).push(l2).push(l3);
            let o1 = o + 3 * w + 4;
            let b2 = leaf_m("Language: "@ + language_s(u16at(d, o1, false)), rng(o1, o1 + 2));
            lemma_field_within(c1, o1, e, 2, b2, s);
            let (c2, o2) = field_s(c1, o1, e, 2, b2);
            let b3 = leaf_m("Pre-defined"@, rng(o2, o2 + 2));
            lemma_field_within(c2, o2, e, 2, b3, s);
            assert(mdhd_s(d, s, e) == Some(field_s(c2, o2, e, 2, b3).0));
        }
    }
}

/// The decoded fields of a box with content `s..e` are leaves within it.
proof fn lemma_specific_within(d: Seq<u8>, t: Seq<char>, s: int, e: int)
    requires
        input_ok(d),
        0 <= s < e <= d.len(),
    ensures
        specific_s(d, t, s, e) matches Some(c) ==> leaves_between(c, s, e),
{
    if t == "ftyp"@ {
        if e >= s + 8 {
            let c = Seq::empty()
                .push(leaf_m("Major brand: "@ + fourcc_s(d.subrange(s, s + 4)), rng(s, s + 4)))
                .push(leaf_m("Minor version: "@ + dec(u32at(d, s + 4, false) as nat), rng(s + 4, s + 8)));
            assert(leaves_between(c, s, e));
            lemma_brands_within(d, s + 8, e, c, s);
        }
    } else if t == "mvhd"@ {
        lemma_mvhd_within(d, s, e);
    } else if t == "tkhd"@ {
        lemma_tkhd_within(d, s, e);
    } else if t == "mdhd"@ {
        lemma_mdhd_within(d, s, e);
    } else if t == "hdlr"@ || t == "stsd"@ {
        if e >= s + 4 {
            assert(leaves_between(version_flags_s(d, s), s, e));
        }
    }
}

proof fn lemma_boxes_within(d: Seq<u8>, o: int, end: int, acc: Seq<BlockModel>, lo: int)
    requires
        input_ok(d),
        0 <= lo <= o,
        end <= d.len(),
        blocks_between(acc, lo, end),
        boxes_fit(d, o, end),
    ensures
        blocks_between(boxes_s(d, o, end, acc), lo, end),
    decreases end - o, 1int,
{
    if o + 8 <= end {
        if let Some((t, hl, be0)) = box_header_s(d, o) {
            let be = imin(be0, end);
            if be > o {
                reveal(box_header_s);
                lemma_box_nests(d, o, t, hl, be);
                let b = box_s(d, o, t, hl, be);
                let next = acc.push(b);
                assert forall|i: int| 0 <= i < next.len() implies lo <= (#[trigger] next[i]).range.start
                    <= next[i].range.end <= end && nests(next[i]) by {
                    if i < acc.len() {
                        assert(next[i] == acc[i]);
                    }
                }
                lemma_boxes_within(d, be, end, next, lo);
            }
        }
    }
}

proof fn lemma_box_nests(d: Seq<u8>, o: int, t: Seq<char>, hl: int, be: int)
    requires
        input_ok(d),
        0 <= o,
        8 <= hl,
        o + hl <= be <= d.len(),
        u32at(d, o, false) == 1 ==> hl >= 16,
        t == "uuid"@ ==> hl >= 24,
        box_fits(d, o, t, hl, be),
    ensures
        box_s(d, o, t, hl, be).range == rng(o, be),
        nests(box_s(d, o, t, hl, be)),
    decreases be - o, 0int,
{
    let cs = o + hl;
    let h = header_fields_s(d, o, t, hl);
    assert(leaves_between(h, o, cs));
    let content = if o < cs < be {
        if is_container_s(t) {
            boxes_s(d, cs, be, Seq::empty())
        } else if t == "meta"@ {
            if cs + 4 <= be {
                version_flags_s(d, cs) + boxes_s(d, cs + 4, be, Seq::empty())
            } else {
                Seq::empty()
            }
        } else if t == "mdat"@ {
            seq![leaf_m("Media data ("@ + dec((be - cs) as nat) + " bytes)"@, rng(cs, be))]
        } else {
            match specific_s(d, t, cs, be) {
                Some(c) => c,
                None => seq![leaf_m("Data ("@ + dec((be - cs) as nat) + " bytes)"@, rng(cs, be))],
            }
        }
    } else {
        Seq::empty()
    };
    if o < cs < be {
        if is_container_s(t) {
            lemma_boxes_within(d, cs, be, Seq::empty(), cs);
        } else if t == "meta"@ {
            if cs + 4 <= be {
                let vf = version_flags_s(d, cs);
                assert(leaves_between(vf, cs, be));
                lemma_leaves_nest(vf, cs, be);
                lemma_boxes_within(d, cs + 4, be, Seq::empty(), cs + 4);
                let bs = boxes_s(d, cs + 4, be, Seq::empty());
                assert forall|i: int| 0 <= i < content.len() implies cs <= (#[trigger] content[i]).range.start
                    <= content[i].range.end <= be && nests(content[i]) by {
                    if i < vf.len() {
                        assert(content[i] == vf[i]);
                    } else {
                        assert(content[i] == bs[i - vf.len()]);
                    }
                }
            }
        } else if t == "mdat"@ {
            lemma_leaves_nest(content, cs, be);
        } else {
            lemma_specific_within(d, t, cs, be);
            lemma_leaves_nest(content, cs, be);
        }
    }
    assert(blocks_between(content, o, be));
    lemma_leaves_nest(h, o, be);
    let all = h + content;
    let b = box_s(d, o, t, hl, be);
    assert(b.children == all);
    assert forall|i: int| 0 <= i < b.children.len() implies within(#[trigger] b.children[i], b)
        && nests(b.children[i]) by {
        if i < h.len() {
            assert(all[i] == h[i]);
        } else {
            assert(all[i] == content[i - h.len()]);
        }
    }
}

proof fn lemma_boxes_tree(d: Seq<u8>, o: int, end: int, acc: Seq<BlockModel>)
    requires
        input_ok(d),
        0 <= o,
        end <= d.len(),
        all_tree_ok(acc),
    ensures
        all_tree_ok(boxes_s(d, o, end, acc)),
    decreases end - o, 1int,
{
    if o + 8 <= end {
        if let Some((t, hl, be0)) = box_header_s(d, o) {
            let be = imin(be0, end);
            if be > o {
                reveal(box_header_s);
                lemma_box_tree(d, o, t, hl, be);
                lemma_push_tree(acc, box_s(d, o, t, hl, be));
                lemma_boxes_tree(d, be, end, acc.push(box_s(d, o, t, hl, be)));
            }
        }
    }
}

proof fn lemma_box_tree(d: Seq<u8>, o: int, t: Seq<char>, hl: int, be: int)
    requires
        input_ok(d),
        0 <= o < be <= d.len(),
        8 <= hl,
        o + hl <= d.len(),
        u32at(d, o, false) == 1 ==> hl >= 16,
        t == "uuid"@ ==> hl >= 24,
    ensures
        tree_ok(box_s(d, o, t, hl, be)),
    decreases be - o, 0int,
{
    let cs = o + hl;
    let h = header_fields_s(d, o, t, hl);
    assert(leaves_between(h, o, cs));
    let content = if o < cs < be {
        if is_container_s(t) {
            boxes_s(d, cs, be, Seq::empty())
        } else if t == "meta"@ {
            if cs + 4 <= be {
                version_flags_s(d, cs) + boxes_s(d, cs + 4, be, Seq::empty())
            } else {
                Seq::empty()
            }
        } else if t == "mdat"@ {
            seq![leaf_m("Media data ("@ + dec((be - cs) as nat) + " bytes)"@, rng(cs, be))]
        } else {
            match specific_s(d, t, cs, be) {
                Some(c) => c,
                None => seq![leaf_m("Data ("@ + dec((be - cs) as nat) + " bytes)"@, rng(cs, be))],
            }
        }
    } else {
        Seq::empty()
    };
    if o < cs < be {
        if is_container_s(t) {
            lemma_boxes_tree(d, cs, be, Seq::empty());
        } else if t == "meta"@ {
            if cs + 4 <= be {
                let vf = version_flags_s(d, cs);
                assert(all_tree_ok(vf)) by {
                    assert(vf[0].children.len() == 0 && vf[1].children.len() == 0);
                }
                lemma_boxes_tree(d, cs + 4, be, Seq::empty());
                let bs = boxes_s(d, cs + 4, be, Seq::empty());
                assert forall|i: int| 0 <= i < content.len() implies tree_ok(#[trigger] content[i]) by {
                    if i < vf.len() {
                        assert(content[i] == vf[i]);
                    } else {
                        assert(content[i] == bs[i - vf.len()]);
                    }
                }
            }
        } else if t == "mdat"@ {
            assert(tree_ok(content[0]));
        } else {
            lemma_specific_within(d, t, cs, be);
            assert forall|i: int| 0 <= i < content.len() implies tree_ok(#[trigger] content[i]) by {
                assert(content[i].children.len() == 0);
            }
        }
    }
    assert(all_tree_ok(content));
    let all = h + content;
    let b = box_s(d, o, t, hl, be);
    assert(b.children == all);
    assert forall|i: int| 0 <= i < b.children.len() implies tree_ok(#[trigger] b.children[i]) by {
        if i < h.len() {
            assert(all[i] == h[i]);
            assert(h[i].children.len() == 0);
        } else {
            assert(all[i] == content[i - h.len()]);
        }
    }
}

/// Every block of an MP4 file runs forwards, and every leaf has no children.
pub proof fn lemma_mp4_trees(d: Seq<u8>)
    requires
        input_ok(d),
    ensures
        all_tree_ok(Mp4Dissector.spec_dissect(d)),
{
    lemma_boxes_tree(d, 0, d.len() as int, Seq::empty());
}

/// When every box header lies within its box's span, every block of an MP4
/// file lies within the data and covers a sub-range of the block holding
/// it. (A box whose header runs past the end of the box holding it breaks
/// this: its header fields are shown in full, its span is cut at that end.)
pub proof fn lemma_mp4_blocks_nest(d: Seq<u8>)
    requires
        input_ok(d),
        boxes_fit(d, 0, d.len() as int),
    ensures
        all_nest(d, Mp4Dissector.spec_dissect(d)),
{
    lemma_boxes_within(d, 0, d.len() as int, Seq::empty(), 0);
}

impl Dissector for Mp4Dissector {
    open spec fn spec_name(&self) -> Seq<char> {
        "MP4"@
    }

    open spec fn spec_matches(&self, data: Seq<u8>) -> bool {
        match box_header_s(data, 0) {
            Some((t, _hl, _e)) => t == "ftyp"@,
            None => false,
        }
    }

    open spec fn spec_dissect(&self, data: Seq<u8>) -> Seq<BlockModel> {
        boxes_s(data, 0, data.len() as int, Seq::empty())
    }

    fn name(&self) -> (r: &'static str) {
        "MP4"
    }

    fn matches(&self, data: &[u8]) -> (r: bool) {
        match parse_box_header(data, 0) {
            Some((t, _hl, _e)) => t == lit("ftyp"),
            None => false,
        }
    }

    fn dissect(&self, data: &[u8]) -> (r: Vec<Block>) {
        boxes_in_range(data, 0, data.len() as u64)
    }
}

} // verus!
