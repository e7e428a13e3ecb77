//! JPEG images: markers and their segments, with frame and scan headers,
//! JFIF and Exif payloads decoded, and the entropy-coded scan data.

use vstd::prelude::*;
use crate::decimal::push_dec_padded;
use super::exif::{
    exif_children, exif_children_s, generic_data_children, generic_data_children_labeled, generic_data_s,
    lemma_exif_children_tree,
};
pub use super::exif::{exif_enum_value, exif_tag_name, gps_enum_value, gps_tag_name};
use super::{
    Block, BlockModel, ByteRange, Dissector, all_tree_ok, input_ok, lemma_flat_tree_ok, lemma_push_tree,
    leaf_m, models, no_blocks, node_m, push_block, push_if, rng, tree_ok,
};
use crate::bytes::{
    avail, bytes_at, fits, has_at, idx, imax, imin, max_u64, min_u64, read_u16, read_u8, u16at,
};
use crate::text::{
    alt_hex, dec, label_hex8, label_str, label_u16, label_u64_wrap, label_u8, lit, push_str,
    push_u8, zpad,
};
verus! {

pub struct JpegDissector;

pub const SOI: u8 = 0xd8;
pub const EOI: u8 = 0xd9;
pub const SOS: u8 = 0xda;
pub const DQT: u8 = 0xdb;
pub const DHT: u8 = 0xc4;
pub const APP0: u8 = 0xe0;
pub const APP1: u8 = 0xe1;

/// The payload of the marker segment at `o`: from after its length field to
/// the end the length declares, cut at the end of `d`; none when the length
/// field lies outside `d` or declares less than itself.
pub open spec fn marker_payload_s(d: Seq<u8>, o: int) -> Option<(int, int)> {
    if !fits(d, o + 2, 2) || u16at(d, o + 2, false) < 2 {
        None
    } else {
        let ds = o + 4;
        Some((ds, ds + imin(u16at(d, o + 2, false) - 2, d.len() - ds)))
    }
}

fn marker_payload(data: &[u8], offset: u64) -> (r: Option<(u64, u64)>)
    requires
        input_ok(data@),
    ensures
        r matches Some((s, e)) ==> marker_payload_s(data@, offset as int) == Some((s as int, e as int))
            && offset + 4 == s <= e <= data@.len(),
        r is None ==> marker_payload_s(data@, offset as int) is None,
{
    if offset > 0x7fff_ffff_ffff_ffff {
        return None;
    }
    let length = match read_u16(data, offset + 2, false) {
        Some(v) => v as u64,
        None => return None,
    };
    if length < 2 {
        return None;
    }
    let ds = offset + 4;
    Some((ds, ds + min_u64(length - 2, data.len() as u64 - ds)))
}

/// One frame component of three bytes at `p`.
pub open spec fn sof_component_s(d: Seq<u8>, p: int) -> BlockModel {
    node_m(
        "Component "@ + dec(d[p] as nat),
        rng(p, p + 3),
        Seq::empty()
            .push(leaf_m("Component id: "@ + dec(d[p] as nat), rng(p, p + 1)))
            .push(leaf_m("Sampling factors: "@ + alt_hex(d[p + 1] as nat, 4), rng(p + 1, p + 2)))
            .push(leaf_m("Quantization table selector: "@ + dec(d[p + 2] as nat), rng(p + 2, p + 3))),
    )
}

/// Components `i..n` of `size` bytes each from `p` on, appended to `acc`,
/// up to the first that does not lie within `d`; and the offset after the last.
pub open spec fn components_s(d: Seq<u8>, size: int, n: nat, i: nat, p: int, acc: Seq<BlockModel>) -> (Seq<BlockModel>, int)
    decreases n - i,
{
    if i >= n || d.len() < p + size {
        (acc, p)
    } else {
        let c = if size == 3 { sof_component_s(d, p) } else { sos_component_s(d, p) };
        components_s(d, size, n, i + 1, p + size, acc.push(c))
    }
}

/// The frame header fields at `o`, if its six fixed bytes lie within `d`.
pub open spec fn sof_fields_s(d: Seq<u8>, o: int) -> Option<Seq<BlockModel>> {
    if d.len() < o + 6 {
        None
    } else {
        let c = Seq::empty()
            .push(leaf_m("Precision: "@ + dec(d[o] as nat), rng(o, o + 1)))
            .push(leaf_m("Height: "@ + dec(u16at(d, o + 1, false) as nat), rng(o + 1, o + 3)))
            .push(leaf_m("Width: "@ + dec(u16at(d, o + 3, false) as nat), rng(o + 3, o + 5)))
            .push(leaf_m("Number of components: "@ + dec(d[o + 5] as nat), rng(o + 5, o + 6)));
        Some(components_s(d, 3, d[o + 5] as nat, 0, o + 6, c).0)
    }
}

/// One scan component of two bytes at `p`.
pub open spec fn sos_component_s(d: Seq<u8>, p: int) -> BlockModel {
    node_m(
        "Component "@ + dec(d[p] as nat),
        rng(p, p + 2),
        Seq::empty()
            .push(leaf_m("Component selector: "@ + dec(d[p] as nat), rng(p, p + 1)))
            .push(leaf_m("Huffman table selectors: "@ + alt_hex(d[p + 1] as nat, 4), rng(p + 1, p + 2))),
    )
}

fn component_block(data: &[u8], p: u64, size: u64) -> (b: Block)
    requires
        fits(data@, p as int, size as int),
        size == 2 || size == 3,
    ensures
        b@ == if size == 3 { sof_component_s(data@, p as int) } else { sos_component_s(data@, p as int) },
{
    let i = idx(data, p);
    let id = data[i];
    let mut ch = no_blocks();
    if size == 3 {
        push_block(&mut ch, Block::leaf(label_u8("Component id: ", id), ByteRange::new(p, p + 1)));
        push_block(&mut ch, Block::leaf(label_hex8("Sampling factors: ", data[i + 1], 4), ByteRange::new(p + 1, p + 2)));
        push_block(&mut ch, Block::leaf(label_u8("Quantization table selector: ", data[i + 2]), ByteRange::new(p + 2, p + 3)));
    } else {
        push_block(&mut ch, Block::leaf(label_u8("Component selector: ", id), ByteRange::new(p, p + 1)));
        push_block(&mut ch, Block::leaf(label_hex8("Huffman table selectors: ", data[i + 1], 4), ByteRange::new(p + 1, p + 2)));
    }
    Block::node(label_u8("Component ", id), ByteRange::new(p, p + size), ch)
}

/// Appends the components of `size` bytes from `p` on, as `components_s`
/// lists them, and returns the offset after the last.
fn push_components(data: &[u8], v: &mut Vec<Block>, size: u64, n: u8, p: u64) -> (e: u64)
    requires
        input_ok(data@),
        size == 2 || size == 3,
        p <= 0x7fff_ffff_ffff_ffff,
    ensures
        (models(final(v)@), e as int) == components_s(data@, size as int, n as nat, 0, p as int, models(old(v)@)),
        p <= e <= imax(p as int, data@.len() as int),
{
    let ghost d = data@;
    let ghost acc0 = models(v@);
    let data_len = data.len() as u64;
    let mut pos = p;
    let mut i: u8 = 0;
    while i < n
        invariant_except_break
            components_s(d, size as int, n as nat, 0, p as int, acc0)
                == components_s(d, size as int, n as nat, i as nat, pos as int, models(v@)),
        invariant
            d == data@,
            input_ok(d),
            data_len == d.len(),
            size == 2 || size == 3,
            i <= n,
            p <= pos <= imax(p as int, d.len() as int),
            pos <= 0x7fff_ffff_ffff_ffff,
        ensures
            components_s(d, size as int, n as nat, 0, p as int, acc0) == (models(v@), pos as int),
            p <= pos <= imax(p as int, d.len() as int),
        decreases n - i,
    {
        if data_len < pos + size {
            break;
        }
        push_block(v, component_block(data, pos, size));
        pos = pos + size;
        i = i + 1;
    }
    pos
}

fn sof_fields(data: &[u8], offset: u64) -> (r: Option<Vec<Block>>)
    requires
        input_ok(data@),
        offset <= data@.len(),
    ensures
        r matches Some(v) ==> sof_fields_s(data@, offset as int) == Some(models(v@)),
        r is None ==> sof_fields_s(data@, offset as int) is None,
{
    if !avail(data, offset, 6) {
        return None;
    }
    let o = offset;
    let n = data[idx(data, o + 5)];
    let mut f = no_blocks();
    push_block(&mut f, Block::leaf(label_u8("Precision: ", data[idx(data, o)]), ByteRange::new(o, o + 1)));
    push_block(&mut f, Block::leaf(label_u16("Height: ", read_u16(data, o + 1, false).unwrap()), ByteRange::new(o + 1, o + 3)));
    push_block(&mut f, Block::leaf(label_u16("Width: ", read_u16(data, o + 3, false).unwrap()), ByteRange::new(o + 3, o + 5)));
    push_block(&mut f, Block::leaf(label_u8("Number of components: ", n), ByteRange::new(o + 5, o + 6)));
    let _ = push_components(data, &mut f, 3, n, o + 6);
    Some(f)
}

/// Whether a marker starts a frame: 0xc0 to 0xcf except DHT (0xc4), JPG (0xc8) and DAC (0xcc).
pub open spec fn is_sof_s(m: u8) -> bool {
    0xc0 <= m <= 0xcf && m != 0xc4 && m != 0xc8 && m != 0xcc
}

pub fn is_sof(marker: u8) -> (r: bool)
    ensures
        r == is_sof_s(marker),
{
    0xc0 <= marker && marker <= 0xcf && marker != 0xc4 && marker != 0xc8 && marker != 0xcc
}

/// A marker's name: `APPn marker`, `DQT marker`, `DHT marker`, `SOFn marker` for
/// n up to 3, else `Marker 0x..`.
pub open spec fn marker_label_s(m: u8) -> Seq<char> {
    if 0xe0 <= m <= 0xef {
        "APP"@ + dec((m - 0xe0) as nat) + " marker"@
    } else if m == DQT {
        "DQT marker"@
    } else if m == DHT {
        "DHT marker"@
    } else if 0xc0 <= m <= 0xc3 {
        "SOF"@ + dec((m - 0xc0) as nat) + " marker"@
    } else {
        "Marker "@ + alt_hex(m as nat, 4)
    }
}

pub fn marker_label(marker: u8) -> (r: String)
    ensures
        r@ == marker_label_s(marker),
{
    if 0xe0 <= marker && marker <= 0xef {
        label_u64_wrap("APP", (marker - 0xe0) as u64, " marker")
    } else if marker == DQT {
        lit("DQT marker")
    } else if marker == DHT {
        lit("DHT marker")
    } else if 0xc0 <= marker && marker <= 0xc3 {
        label_u64_wrap("SOF", (marker - 0xc0) as u64, " marker")
    } else {
        label_hex8("Marker ", marker, 4)
    }
}

pub open spec fn jfif_density_units_name_s(v: u8) -> Seq<char> {
    if v == 0 {
        "No units (aspect ratio)"@
    } else if v == 1 {
        "Pixels per inch"@
    } else if v == 2 {
        "Pixels per centimeter"@
    } else {
        "Unknown"@
    }
}

pub fn jfif_density_units_name(v: u8) -> (r: &'static str)
    ensures
        r@ == jfif_density_units_name_s(v),
{
    if v == 0 {
        "No units (aspect ratio)"
    } else if v == 1 {
        "Pixels per inch"
    } else if v == 2 {
        "Pixels per centimeter"
    } else {
        "Unknown"
    }
}

/// The JFIF APP0 payload at `s..e`: identifier, version, density and
/// thumbnail fields, and the RGB thumbnail as far as the payload holds it;
/// the payload as one span when the fixed fields do not lie within `d`.
pub open spec fn jfif_children_s(d: Seq<u8>, s: int, e: int) -> Seq<BlockModel> {
    let o = s + 5;
    if d.len() < o + 9 {
        generic_data_s(s, e, "JFIF data"@)
    } else {
        let tw = d[o + 7] as int;
        let th = d[o + 8] as int;
        let ts = o + 9;
        let te = imin(ts + 3 * tw * th, e);
        let c = Seq::empty()
            .push(leaf_m("Identifier: JFIF"@, rng(s, s + 5)))
            .push(leaf_m("Version: "@ + dec(d[o] as nat) + "."@ + zpad(dec(d[o + 1] as nat), 2), rng(o, o + 2)))
            .push(leaf_m("Density units: "@ + jfif_density_units_name_s(d[o + 2]) + " ("@ + dec(d[o + 2] as nat) + ")"@, rng(o + 2, o + 3)))
            .push(leaf_m("X density: "@ + dec(u16at(d, o + 3, false) as nat), rng(o + 3, o + 5)))
            .push(leaf_m("Y density: "@ + dec(u16at(d, o + 5, false) as nat), rng(o + 5, o + 7)))
            .push(leaf_m("Thumbnail width: "@ + dec(tw as nat), rng(o + 7, o + 8)))
            .push(leaf_m("Thumbnail height: "@ + dec(th as nat), rng(o + 8, o + 9)));
        push_if(c, te > ts, leaf_m("Thumbnail data (RGB)"@, rng(ts, te)))
    }
}

fn jfif_children(data: &[u8], data_start: u64, data_end: u64) -> (r: Vec<Block>)
    requires
        input_ok(data@),
        data_start <= data@.len(),
    ensures
        models(r@) == jfif_children_s(data@, data_start as int, data_end as int),
{
    let o = data_start + 5;
    if !avail(data, o, 9) {
        return generic_data_children_labeled(data_start, data_end, "JFIF data");
    }
    let major = data[idx(data, o)];
    let minor = data[idx(data, o + 1)];
    let units = data[idx(data, o + 2)];
    let tw = data[idx(data, o + 7)];
    let th = data[idx(data, o + 8)];
    let ts = o + 9;
    assert(3 * tw * th <= 3 * 255 * 255) by (nonlinear_arith)
        requires
            tw <= 255,
            th <= 255,
    ;
    let te = min_u64(ts + 3 * tw as u64 * th as u64, data_end);
    let mut c = no_blocks();
    push_block(&mut c, Block::leaf(lit("Identifier: JFIF"), ByteRange::new(data_start, data_start + 5)));
    let mut v = label_u8("Version: ", major);
    push_str(&mut v, ".");
    push_hex_free_dec2(&mut v, minor);
    push_block(&mut c, Block::leaf(v, ByteRange::new(o, o + 2)));
    let mut u = label_str("Density units: ", jfif_density_units_name(units));
    push_str(&mut u, " (");
    push_u8(&mut u, units);
    push_str(&mut u, ")");
    push_block(&mut c, Block::leaf(u, ByteRange::new(o + 2, o + 3)));
    push_block(&mut c, Block::leaf(label_u16("X density: ", read_u16(data, o + 3, false).unwrap()), ByteRange::new(o + 3, o + 5)));
    push_block(&mut c, Block::leaf(label_u16("Y density: ", read_u16(data, o + 5, false).unwrap()), ByteRange::new(o + 5, o + 7)));
    push_block(&mut c, Block::leaf(label_u8("Thumbnail width: ", tw), ByteRange::new(o + 7, o + 8)));
    push_block(&mut c, Block::leaf(label_u8("Thumbnail height: ", th), ByteRange::new(o + 8, o + 9)));
    if te > ts {
        push_block(&mut c, Block::leaf(lit("Thumbnail data (RGB)"), ByteRange::new(ts, te)));
    }
    c
}

/// Appends a byte's decimal digits zero-padded to two characters.
fn push_hex_free_dec2(s: &mut String, v: u8)
    ensures
        final(s)@ == old(s)@ + zpad(dec(v as nat), 2),
{
    push_dec_padded(s, v as u128, 2);
}

pub open spec fn exif_id() -> Seq<u8> {
    seq![0x45u8, 0x78u8, 0x69u8, 0x66u8, 0x00u8, 0x00u8]
}

pub open spec fn jfif_id() -> Seq<u8> {
    seq![0x4au8, 0x46u8, 0x49u8, 0x46u8, 0x00u8]
}

/// The segment of marker `m` at `o`, if its payload length parses. Frame
/// headers, JFIF and Exif payloads are decoded (and shown expanded); DQT
/// and DHT payloads and others are one span.
#[verifier::opaque]
pub open spec fn marker_block_s(d: Seq<u8>, o: int, m: u8) -> Option<BlockModel> {
    match marker_payload_s(d, o) {
        None => None,
        Some((s, e)) => {
            let is_exif = m == APP1 && has_at(d, s, exif_id());
            let is_jfif = m == APP0 && has_at(d, s, jfif_id());
            let sof = is_sof_s(m);
            let children = if sof {
                match sof_fields_s(d, s) {
                    Some(f) => f,
                    None => generic_data_s(s, e, "Data"@),
                }
            } else if m == DQT {
                generic_data_s(s, e, "Quantization table data"@)
            } else if m == DHT {
                generic_data_s(s, e, "Huffman table data"@)
            } else if is_exif {
                exif_children_s(d, s, e)
            } else if is_jfif {
                jfif_children_s(d, s, e)
            } else {
                generic_data_s(s, e, "Data"@)
            };
            let label = if is_exif {
                "APP1 marker (Exif)"@
            } else if is_jfif {
                "APP0 marker (JFIF)"@
            } else {
                marker_label_s(m)
            };
            Some(node_m(label, rng(o, e), children).expand_if(sof || is_exif || is_jfif))
        },
    }
}

fn marker_block(data: &[u8], offset: u64, marker: u8) -> (r: Option<Block>)
    requires
        input_ok(data@),
    ensures
        r matches Some(b) ==> marker_block_s(data@, offset as int, marker) == Some(b@)
            && offset < b@.range.end <= data@.len(),
        r is None ==> marker_block_s(data@, offset as int, marker) is None,
{
    reveal(marker_block_s);
    let (s, e) = match marker_payload(data, offset) {
        Some(p) => p,
        None => return None,
    };
    let exif: [u8; 6] = [0x45, 0x78, 0x69, 0x66, 0x00, 0x00];
    let jfif: [u8; 5] = [0x4a, 0x46, 0x49, 0x46, 0x00];
    assert(exif@ =~= exif_id());
    assert(jfif@ =~= jfif_id());
    let is_exif = marker == APP1 && bytes_at(data, s, &exif);
    let is_jfif = marker == APP0 && bytes_at(data, s, &jfif);
    let sof = is_sof(marker);
    let children = if sof {
        match sof_fields(data, s) {
            Some(f) => f,
            None => generic_data_children(s, e),
        }
    } else if marker == DQT {
        generic_data_children_labeled(s, e, "Quantization table data")
    } else if marker == DHT {
        generic_data_children_labeled(s, e, "Huffman table data")
    } else if is_exif {
        exif_children(data, s, e)
    } else if is_jfif {
        jfif_children(data, s, e)
    } else {
        generic_data_children(s, e)
    };
    let label = if is_exif {
        lit("APP1 marker (Exif)")
    } else if is_jfif {
        lit("APP0 marker (JFIF)")
    } else {
        marker_label(marker)
    };
    Some(Block::node(label, ByteRange::new(offset, e), children).expanded_if(sof || is_exif || is_jfif))
}

/// The end of entropy-coded data from `p` on: the next 0xff that is neither
/// byte stuffing (0xff 0x00) nor a restart marker (0xff 0xd0 to 0xd7), or the end of `d`.
pub open spec fn scan_end_s(d: Seq<u8>, p: int) -> int
    decreases d.len() - p,
{
    if p < 0 || p >= d.len() {
        d.len() as int
    } else if d[p] == 0xff {
        if p + 1 < d.len() && (d[p + 1] == 0 || (0xd0 <= d[p + 1] <= 0xd7)) {
            scan_end_s(d, p + 2)
        } else {
            p
        }
    } else {
        scan_end_s(d, p + 1)
    }
}

pub fn scan_data_end(data: &[u8], offset: u64) -> (r: u64)
    requires
        offset <= data@.len(),
    ensures
        r == scan_end_s(data@, offset as int),
        offset <= r <= data@.len(),
{
    let len = data.len();
    let mut pos = idx(data, offset);
    while pos < len
        invariant
            len == data@.len(),
            offset <= pos <= len,
            scan_end_s(data@, offset as int) == scan_end_s(data@, pos as int),
        decreases len - pos,
    {
        if data[pos] == 0xff {
            if pos + 1 < len && (data[pos + 1] == 0 || (0xd0 <= data[pos + 1] && data[pos + 1] <= 0xd7)) {
                pos = pos + 2;
            } else {
                return pos as u64;
            }
        } else {
            pos = pos + 1;
        }
    }
    len as u64
}

/// The start-of-scan segment at `o`, if its payload length parses and its
/// component count lies within `d`: the header fields, then the
/// entropy-coded data up to the next marker.
#[verifier::opaque]
pub open spec fn sos_s(d: Seq<u8>, o: int) -> Option<BlockModel> {
    match marker_payload_s(d, o) {
        None => None,
        Some((s, e)) => if !fits(d, s, 1) {
            None
        } else {
            let c0 = seq![leaf_m("Number of components: "@ + dec(d[s] as nat), rng(s, s + 1))];
            let (c1, p1) = components_s(d, 2, d[s] as nat, 0, s + 1, c0);
            let c2 = push_if(c1, d.len() >= p1 + 3, leaf_m("Spectral selection / approximation"@, rng(p1, p1 + 3)));
            let p2 = if d.len() >= p1 + 3 { p1 + 3 } else { p1 };
            let scan_start = imax(e, p2);
            let scan_end = scan_end_s(d, scan_start);
            let c3 = push_if(c2, scan_end > scan_start, leaf_m("Entropy-coded scan data"@, rng(scan_start, scan_end)));
            Some(node_m("SOS"@, rng(o, scan_end), c3))
        },
    }
}

fn sos_block(data: &[u8], offset: u64) -> (r: Option<Block>)
    requires
        input_ok(data@),
    ensures
        r matches Some(b) ==> sos_s(data@, offset as int) == Some(b@) && offset < b@.range.end <= data@.len(),
        r is None ==> sos_s(data@, offset as int) is None,
{
    reveal(sos_s);
    let (s, e) = match marker_payload(data, offset) {
        Some(p) => p,
        None => return None,
    };
    let n = match read_u8(data, s) {
        Some(v) => v,
        None => return None,
    };
    let mut c = no_blocks();
    push_block(&mut c, Block::leaf(label_u8("Number of components: ", n), ByteRange::new(s, s + 1)));
    proof {
        assert(models(c@) =~= seq![leaf_m("Number of components: "@ + dec(n as nat), rng(s as int, s + 1))]);
    }
    let mut pos = push_components(data, &mut c, 2, n, s + 1);
    if data.len() as u64 >= pos + 3 {
        push_block(&mut c, Block::leaf(lit("Spectral selection / approximation"), ByteRange::new(pos, pos + 3)));
        pos = pos + 3;
    }
    let scan_start = max_u64(e, pos);
    let scan_end = scan_data_end(data, scan_start);
    if scan_end > scan_start {
        push_block(&mut c, Block::leaf(lit("Entropy-coded scan data"), ByteRange::new(scan_start, scan_end)));
    }
    Some(Block::node(lit("SOS"), ByteRange::new(offset, scan_end), c))
}

/// Segments from `o` on, appended to `acc`, while each starts with 0xff and
/// parses; EOI ends the walk (included).
pub open spec fn jpeg_walk(d: Seq<u8>, o: int, acc: Seq<BlockModel>) -> Seq<BlockModel>
    decreases d.len() - o,
{
    if !fits(d, o, 2) || d[o] != 0xff {
        acc
    } else {
        let m = d[o + 1];
        if m == EOI {
            acc.push(leaf_m("EOI"@, rng(o, o + 2)))
        } else {
            let r = if m == SOS { sos_s(d, o) } else { marker_block_s(d, o, m) };
            match r {
                Some(b) => if o < b.range.end <= d.len() {
                    jpeg_walk(d, b.range.end as int, acc.push(b))
                } else {
                    acc.push(b)
                },
                None => acc,
            }
        }
    }
}

/// A JPEG file: nothing unless it starts with SOI; then SOI and its segments.
pub open spec fn jpeg_s(d: Seq<u8>) -> Seq<BlockModel> {
    if d.len() < 2 || d[0] != 0xff || d[1] != SOI {
        Seq::empty()
    } else {
        jpeg_walk(d, 2, seq![leaf_m("SOI"@, rng(0, 2))])
    }
}

proof fn lemma_components_tree(d: Seq<u8>, size: int, n: nat, i: nat, p: int, acc: Seq<BlockModel>)
    requires
        input_ok(d),
        0 <= p,
        size == 2 || size == 3,
        all_tree_ok(acc),
    ensures
        all_tree_ok(components_s(d, size, n, i, p, acc).0),
        p <= components_s(d, size, n, i, p, acc).1,
    decreases n - i,
{
    if !(i >= n || d.len() < p + size) {
        let c = if size == 3 { sof_component_s(d, p) } else { sos_component_s(d, p) };
        lemma_flat_tree_ok(c);
        lemma_push_tree(acc, c);
        lemma_components_tree(d, size, n, i + 1, p + size, acc.push(c));
    }
}

proof fn lemma_scan_end(d: Seq<u8>, p: int)
    requires
        0 <= p <= d.len(),
    ensures
        p <= scan_end_s(d, p) <= d.len(),
    decreases d.len() - p,
{
    if p < d.len() {
        if d[p] == 0xff {
            if p + 1 < d.len() && (d[p + 1] == 0 || (0xd0 <= d[p + 1] <= 0xd7)) {
                lemma_scan_end(d, p + 2);
            }
        } else {
            lemma_scan_end(d, p + 1);
        }
    }
}

proof fn lemma_segment_tree(d: Seq<u8>, o: int, m: u8)
    requires
        input_ok(d),
        0 <= o,
    ensures
        (if m == SOS { sos_s(d, o) } else { marker_block_s(d, o, m) }) matches Some(b) ==> tree_ok(b),
{
    reveal(sos_s);
    reveal(marker_block_s);
    if let Some((s, e)) = marker_payload_s(d, o) {
        if m == SOS {
            if fits(d, s, 1) {
                let c0 = seq![leaf_m("Number of components: "@ + dec(d[s] as nat), rng(s, s + 1))];
                assert(all_tree_ok(c0)) by {
                    assert(c0[0].children.len() == 0);
                }
                lemma_components_tree(d, 2, d[s] as nat, 0, s + 1, c0);
                let (c1, p1) = components_s(d, 2, d[s] as nat, 0, s + 1, c0);
                let b2 = leaf_m("Spectral selection / approximation"@, rng(p1, p1 + 3));
                if d.len() >= p1 + 3 {
                    lemma_push_tree(c1, b2);
                }
                let c2 = push_if(c1, d.len() >= p1 + 3, b2);
                let p2 = if d.len() >= p1 + 3 { p1 + 3 } else { p1 };
                let scan_start = imax(e, p2);
                if scan_start <= d.len() {
                    lemma_scan_end(d, scan_start);
                } else {
                    assert(scan_end_s(d, scan_start) == d.len());
                }
                let scan_end = scan_end_s(d, scan_start);
                let b3 = leaf_m("Entropy-coded scan data"@, rng(scan_start, scan_end));
                if scan_end > scan_start {
                    lemma_push_tree(c2, b3);
                }
            }
        } else {
            let is_exif = m == APP1 && has_at(d, s, exif_id());
            let is_jfif = m == APP0 && has_at(d, s, jfif_id());
            assert(all_tree_ok(generic_data_s(s, e, "Data"@)));
            assert(all_tree_ok(generic_data_s(s, e, "Quantization table data"@)));
            assert(all_tree_ok(generic_data_s(s, e, "Huffman table data"@)));
            if is_sof_s(m) {
                if d.len() >= s + 6 {
                    let c = Seq::empty()
                        .push(leaf_m("Precision: "@ + dec(d[s] as nat), rng(s, s + 1)))
                        .push(leaf_m("Height: "@ + dec(u16at(d, s + 1, false) as nat), rng(s + 1, s + 3)))
                        .push(leaf_m("Width: "@ + dec(u16at(d, s + 3, false) as nat), rng(s + 3, s + 5)))
                        .push(leaf_m("Number of components: "@ + dec(d[s + 5] as nat), rng(s + 5, s + 6)));
                    assert(all_tree_ok(c)) by {
                        assert(c[0].children.len() == 0 && c[1].children.len() == 0);
                        assert(c[2].children.len() == 0 && c[3].children.len() == 0);
                    }
                    lemma_components_tree(d, 3, d[s + 5] as nat, 0, s + 6, c);
                }
            } else if is_exif {
                lemma_exif_children_tree(d, s, e);
            } else if is_jfif {
                let oo = s + 5;
                if d.len() >= oo + 9 {
                    let tw = d[oo + 7] as int;
                    let th = d[oo + 8] as int;
                    let ts = oo + 9;
                    let te = imin(ts + 3 * tw * th, e);
                    let c = jfif_children_s(d, s, e);
                    assert forall|i: int| 0 <= i < c.len() implies tree_ok(#[trigger] c[i]) by {
                        assert(c[i].children.len() == 0);
                    }
                } else {
                    assert(all_tree_ok(generic_data_s(s, e, "JFIF data"@)));
                }
            }
        }
    }
}

proof fn lemma_walk_tree(d: Seq<u8>, o: int, acc: Seq<BlockModel>)
    requires
        input_ok(d),
        0 <= o,
        all_tree_ok(acc),
    ensures
        all_tree_ok(jpeg_walk(d, o, acc)),
    decreases d.len() - o,
{
    if fits(d, o, 2) && d[o] == 0xff {
        let m = d[o + 1];
        if m == EOI {
            lemma_push_tree(acc, leaf_m("EOI"@, rng(o, o + 2)));
        } else {
            lemma_segment_tree(d, o, m);
            let r = if m == SOS { sos_s(d, o) } else { marker_block_s(d, o, m) };
            if let Some(b) = r {
                lemma_push_tree(acc, b);
                if o < b.range.end <= d.len() {
                    lemma_walk_tree(d, b.range.end as int, acc.push(b));
                }
            }
        }
    }
}

/// Every block of a JPEG file runs forwards, and every leaf has no
/// children. (Blocks need not nest: frame header fields are read past a
/// segment whose declared length is too short for them.)
pub proof fn lemma_jpeg_trees(d: Seq<u8>)
    requires
        input_ok(d),
    ensures
        all_tree_ok(JpegDissector.spec_dissect(d)),
{
    if !(d.len() < 2 || d[0] != 0xff || d[1] != SOI) {
        let s0 = seq![leaf_m("SOI"@, rng(0, 2))];
        assert(all_tree_ok(s0)) by {
            assert(s0[0].children.len() == 0);
        }
        lemma_walk_tree(d, 2, s0);
    }
}

impl Dissector for JpegDissector {
    open spec fn spec_name(&self) -> Seq<char> {
        "JPEG"@
    }

    open spec fn spec_matches(&self, data: Seq<u8>) -> bool {
        has_at(data, 0, seq![0xffu8, SOI])
    }

    open spec fn spec_dissect(&self, data: Seq<u8>) -> Seq<BlockModel> {
        jpeg_s(data)
    }

    fn name(&self) -> (r: &'static str) {
        "JPEG"
    }

    fn matches(&self, data: &[u8]) -> (r: bool) {
        let magic: [u8; 2] = [0xff, SOI];
        assert(magic@ =~= seq![0xffu8, SOI]);
        bytes_at(data, 0, &magic)
    }

    fn dissect(&self, data: &[u8]) -> (r: Vec<Block>) {
        let mut blocks = no_blocks();
        if data.len() < 2 || data[0] != 0xff || data[1] != SOI {
            return blocks;
        }
        push_block(&mut blocks, Block::leaf(lit("SOI"), ByteRange::new(0, 2)));
        let ghost d = data@;
        let mut offset: u64 = 2;
        loop
            invariant_except_break
                jpeg_s(d) == jpeg_walk(d, offset as int, models(blocks@)),
            invariant
                d == data@,
                input_ok(d),
                offset <= d.len(),
            ensures
                jpeg_s(d) == models(blocks@),
            decreases d.len() - offset,
        {
            if !avail(data, offset, 2) || data[idx(data, offset)] != 0xff {
                break;
            }
            let marker = data[idx(data, offset + 1)];
            if marker == EOI {
                push_block(&mut blocks, Block::leaf(lit("EOI"), ByteRange::new(offset, offset + 2)));
                break;
            }
            let r = if marker == SOS { sos_block(data, offset) } else { marker_block(data, offset, marker) };
            match r {
                Some(b) => {
                    let end = b.range.end;
                    push_block(&mut blocks, b);
                    offset = end;
                },
                None => break,
            }
        }
        blocks
    }
}

} // verus!
