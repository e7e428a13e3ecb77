//! Dissectors turn a file's raw bytes into a tree of labeled `Block`s.

use vstd::prelude::*;

pub mod bmp;
pub mod elf;
pub mod exif;
pub mod flac;
pub mod generic;
pub mod gif;
pub mod gzip;
pub mod ico;
pub mod jpeg;
pub mod macho;
pub mod mp4;
pub mod ogg;
pub mod pe;
pub mod png;
pub mod sqlite;
pub mod tar;
pub mod wav;
pub mod webp;
pub mod zip;

use elf::ElfDissector;
use pe::PeDissector;
use macho::MachoDissector;
use wav::WavDissector;
use ogg::OggDissector;
use webp::WebpDissector;
use png::PngDissector;
use bmp::BmpDissector;
use flac::FlacDissector;
use gzip::GzipDissector;
use mp4::Mp4Dissector;
use sqlite::SqliteDissector;
use ico::IcoDissector;
use zip::ZipDissector;
use tar::TarDissector;
use gif::GifDissector;
use jpeg::JpegDissector;
use generic::GenericDissector;
use bmp::lemma_bmp_blocks_nest;
use elf::lemma_elf_blocks_nest;
use flac::lemma_flac_blocks_nest;
use generic::lemma_generic_blocks_nest;
use gif::lemma_gif_blocks_nest;
use gzip::lemma_gzip_blocks_nest;
use ico::lemma_ico_trees;
use jpeg::lemma_jpeg_trees;
use macho::lemma_macho_trees;
use mp4::lemma_mp4_trees;
use ogg::lemma_pages_nest;
use pe::lemma_pe_blocks_nest;
use png::lemma_png_trees;
use sqlite::lemma_sqlite_blocks_nest;
use tar::lemma_tar_blocks_nest;
use wav::lemma_wav_trees;
use webp::lemma_webp_trees;
use zip::lemma_zip_blocks_nest;

verus! {

/// A half-open byte span `start..end` within the dissected data.
#[derive(Clone, Copy, Debug, PartialEq, Eq, Structural)]
pub struct ByteRange {
    pub start: u64,
    pub end: u64,
}

impl ByteRange {
    pub fn new(start: u64, end: u64) -> (r: Self)
        ensures
            r == rng(start as int, end as int),
            r == (ByteRange { start, end }),
    {
        ByteRange { start, end }
    }
}

/// A labeled byte span with optional nested blocks.
pub struct Block {
    pub label: String,
    pub range: ByteRange,
    pub expandable: bool,
    pub default_expanded: bool,
    pub children: Vec<Block>,
}

/// The mathematical content of a `Block`.
pub struct BlockModel {
    pub label: Seq<char>,
    pub range: ByteRange,
    pub expandable: bool,
    pub expanded: bool,
    pub children: Seq<BlockModel>,
}

pub open spec fn block_model(b: Block) -> BlockModel
    decreases b,
{
    BlockModel {
        label: b.label@,
        range: b.range,
        expandable: b.expandable,
        expanded: b.default_expanded,
        children: models(b.children@),
    }
}

pub open spec fn models(s: Seq<Block>) -> Seq<BlockModel>
    decreases s,
{
    if s.len() == 0 {
        Seq::empty()
    } else {
        models(s.drop_last()).push(block_model(s.last()))
    }
}

/// Whether block `c` covers a sub-range of block `b`.
pub open spec fn within(c: BlockModel, b: BlockModel) -> bool {
    b.range.start <= c.range.start <= c.range.end <= b.range.end
}

/// Whether every block of the tree `b` covers a sub-range of its parent,
/// and every block that is not expandable (a leaf) has no children.
pub open spec fn nests(b: BlockModel) -> bool
    decreases b,
{
    &&& (!b.expandable ==> b.children.len() == 0)
    &&& forall|i: int| 0 <= i < b.children.len() ==> within(#[trigger] b.children[i], b) && nests(b.children[i])
}

/// Whether every block of the tree `b` runs forwards (its start at most its
/// end) and every block that is not expandable (a leaf) has no children.
pub open spec fn tree_ok(b: BlockModel) -> bool
    decreases b,
{
    &&& b.range.start <= b.range.end
    &&& (!b.expandable ==> b.children.len() == 0)
    &&& forall|i: int| 0 <= i < b.children.len() ==> tree_ok(#[trigger] b.children[i])
}

/// Whether every tree of `s` satisfies `tree_ok`.
pub open spec fn all_tree_ok(s: Seq<BlockModel>) -> bool {
    forall|i: int| 0 <= i < s.len() ==> tree_ok(#[trigger] s[i])
}

/// A tree that nests, with its root running forwards, is well formed.
pub proof fn lemma_nests_tree_ok(b: BlockModel)
    requires
        nests(b),
        b.range.start <= b.range.end,
    ensures
        tree_ok(b),
    decreases b,
{
    assert forall|i: int| 0 <= i < b.children.len() implies tree_ok(#[trigger] b.children[i]) by {
        lemma_nests_tree_ok(b.children[i]);
    }
}

pub proof fn lemma_all_nest_tree_ok(d: Seq<u8>, s: Seq<BlockModel>)
    requires
        all_nest(d, s),
    ensures
        all_tree_ok(s),
{
    assert forall|i: int| 0 <= i < s.len() implies tree_ok(#[trigger] s[i]) by {
        lemma_nests_tree_ok(s[i]);
    }
}

/// Appending a well-formed tree.
pub proof fn lemma_push_tree(acc: Seq<BlockModel>, b: BlockModel)
    requires
        all_tree_ok(acc),
        tree_ok(b),
    ensures
        all_tree_ok(acc.push(b)),
{
    assert forall|i: int| 0 <= i < acc.len() + 1 implies tree_ok(#[trigger] acc.push(b)[i]) by {
        if i < acc.len() {
            assert(acc.push(b)[i] == acc[i]);
        }
    }
}

/// A block running forwards whose children are all leaves running forwards.
pub proof fn lemma_flat_tree_ok(b: BlockModel)
    requires
        b.range.start <= b.range.end,
        !b.expandable ==> b.children.len() == 0,
        forall|i: int| 0 <= i < b.children.len() ==> (#[trigger] b.children[i]).range.start <= b.children[i].range.end
            && b.children[i].children.len() == 0,
    ensures
        tree_ok(b),
{
    assert forall|i: int| 0 <= i < b.children.len() implies tree_ok(#[trigger] b.children[i]) by {
        assert(b.children[i].children.len() == 0);
    }
}

/// Whether each block of `cs` is a leaf within `lo..hi`.
pub open spec fn leaves_between(cs: Seq<BlockModel>, lo: int, hi: int) -> bool {
    forall|i: int| 0 <= i < cs.len() ==> lo <= (#[trigger] cs[i]).range.start <= cs[i].range.end <= hi
        && cs[i].children.len() == 0
}

/// Whether each block of `cs` lies within `lo..hi` and nests.
pub open spec fn blocks_between(cs: Seq<BlockModel>, lo: int, hi: int) -> bool {
    forall|i: int| 0 <= i < cs.len() ==> lo <= (#[trigger] cs[i]).range.start <= cs[i].range.end <= hi
        && nests(cs[i])
}

/// Whether the tree `b` has at most `h` levels below its root.
pub open spec fn height_le(b: BlockModel, h: nat) -> bool
    decreases b,
{
    forall|i: int| 0 <= i < b.children.len() ==> h > 0 && height_le(#[trigger] b.children[i], (h - 1) as nat)
}

/// Whether every block of `s` lies within data `d` and nests.
pub open spec fn all_nest(d: Seq<u8>, s: Seq<BlockModel>) -> bool {
    forall|i: int| 0 <= i < s.len() ==> (#[trigger] s[i]).range.start <= s[i].range.end <= d.len() && nests(s[i])
}

/// A record whose fields are leaves within it, lying within `d`, keeps
/// `acc` nesting when appended.
pub proof fn lemma_push_record(d: Seq<u8>, acc: Seq<BlockModel>, b: BlockModel)
    requires
        all_nest(d, acc),
        b.range.start <= b.range.end <= d.len(),
        !b.expandable ==> b.children.len() == 0,
        forall|i: int| 0 <= i < b.children.len() ==> within(#[trigger] b.children[i], b)
            && b.children[i].children.len() == 0,
    ensures
        all_nest(d, acc.push(b)),
{
    assert forall|i: int| 0 <= i < b.children.len() implies within(#[trigger] b.children[i], b)
        && nests(b.children[i]) by {
        assert(b.children[i].children.len() == 0);
    }
    let next = acc.push(b);
    assert forall|i: int| 0 <= i < next.len() implies (#[trigger] next[i]).range.start <= next[i].range.end
        <= d.len() && nests(next[i]) by {
        if i < acc.len() {
            assert(next[i] == acc[i]);
        }
    }
}

/// Whether each block of `cs` is a leaf within `0..hi`.
pub open spec fn leaves_in(cs: Seq<BlockModel>, hi: int) -> bool {
    forall|i: int| 0 <= i < cs.len() ==> 0 <= (#[trigger] cs[i]).range.start <= cs[i].range.end <= hi
        && cs[i].children.len() == 0
}

pub proof fn lemma_push_leaf(acc: Seq<BlockModel>, c: bool, b: BlockModel, hi: int)
    requires
        leaves_in(acc, hi),
        c ==> 0 <= b.range.start <= b.range.end <= hi && b.children.len() == 0,
    ensures
        leaves_in(push_if(acc, c, b), hi),
{
    if c {
        assert forall|i: int| 0 <= i < acc.len() + 1 implies 0 <= (#[trigger] acc.push(b)[i]).range.start
            <= acc.push(b)[i].range.end <= hi && acc.push(b)[i].children.len() == 0 by {
            if i < acc.len() {
                assert(acc.push(b)[i] == acc[i]);
            }
        }
    }
}

impl View for Block {
    type V = BlockModel;

    open spec fn view(&self) -> BlockModel {
        block_model(*self)
    }
}

/// Inputs a slice can hold: Rust allocations never exceed `isize::MAX` bytes.
pub open spec fn input_ok(d: Seq<u8>) -> bool {
    d.len() <= 0x7fff_ffff_ffff_ffff
}

/// A range from two offsets (each given as a mathematical integer).
pub open spec fn rng(start: int, end: int) -> ByteRange {
    ByteRange { start: start as u64, end: end as u64 }
}

/// `acc` with `b` appended when `c` holds.
pub open spec fn push_if(acc: Seq<BlockModel>, c: bool, b: BlockModel) -> Seq<BlockModel> {
    if c { acc.push(b) } else { acc }
}

/// A leaf block: not expandable, collapsed, no children.
pub open spec fn leaf_m(label: Seq<char>, range: ByteRange) -> BlockModel {
    BlockModel { label, range, expandable: false, expanded: false, children: Seq::empty() }
}

/// A container block: expandable, collapsed by default.
pub open spec fn node_m(label: Seq<char>, range: ByteRange, children: Seq<BlockModel>) -> BlockModel {
    BlockModel { label, range, expandable: true, expanded: false, children }
}

impl BlockModel {
    /// The same block, shown expanded by default.
    pub open spec fn expand(self) -> BlockModel {
        BlockModel { expanded: true, ..self }
    }

    /// The same block, shown expanded by default exactly when `c` holds.
    pub open spec fn expand_if(self, c: bool) -> BlockModel {
        BlockModel { expanded: c, ..self }
    }
}

impl Block {
    /// A leaf block with the given label and range.
    pub fn leaf(label: String, range: ByteRange) -> (b: Block)
        ensures
            b@ == leaf_m(label@, range),
    {
        let b = Block {
            label,
            range,
            expandable: false,
            default_expanded: false,
            children: Vec::new(),
        };
        assert(models(b.children@) =~= Seq::empty());
        b
    }

    /// A container block holding `children`.
    pub fn node(label: String, range: ByteRange, children: Vec<Block>) -> (b: Block)
        ensures
            b@ == node_m(label@, range, models(children@)),
    {
        Block { label, range, expandable: true, default_expanded: false, children }
    }

    /// The same block, shown expanded by default.
    pub fn expanded(self) -> (b: Block)
        ensures
            b@ == self@.expand(),
    {
        let mut b = self;
        b.default_expanded = true;
        b
    }

    /// The same block, shown expanded by default exactly when `condition` holds.
    pub fn expanded_if(self, condition: bool) -> (b: Block)
        ensures
            b@ == self@.expand_if(condition),
    {
        let mut b = self;
        b.default_expanded = condition;
        b
    }
}

pub proof fn lemma_models_push(s: Seq<Block>, b: Block)
    ensures
        models(s.push(b)) == models(s).push(b@),
{
    assert(s.push(b).drop_last() =~= s);
}

pub proof fn lemma_models_concat(a: Seq<Block>, b: Seq<Block>)
    ensures
        models(a + b) == models(a) + models(b),
    decreases b.len(),
{
    if b.len() == 0 {
        assert(a + b =~= a);
        assert(models(a) + models(b) =~= models(a));
    } else {
        lemma_models_concat(a, b.drop_last());
        assert((a + b).drop_last() =~= a + b.drop_last());
        assert((a + b).last() == b.last());
        assert(models(a + b) =~= models(a) + models(b));
    }
}

/// An empty list of blocks.
pub fn no_blocks() -> (v: Vec<Block>)
    ensures
        models(v@) === Seq::<BlockModel>::empty(),
{
    let v: Vec<Block> = Vec::new();
    assert(models(v@) =~= Seq::<BlockModel>::empty());
    v
}

/// Appends one block.
pub fn push_block(v: &mut Vec<Block>, b: Block)
    ensures
        models(final(v)@) === models(old(v)@).push(b@),
{
    proof { lemma_models_push(v@, b); }
    v.push(b);
}

/// Appends all blocks of `w`, in order.
pub fn append_blocks(v: &mut Vec<Block>, w: Vec<Block>)
    ensures
        models(final(v)@) === models(old(v)@) + models(w@),
{
    let mut w = w;
    proof { lemma_models_concat(v@, w@); }
    v.append(&mut w);
}

/// A file-format dissector: recognizes its format by a cheap check and
/// parses raw bytes into top-level blocks.
pub trait Dissector {
    /// The format's short, human-readable name.
    spec fn spec_name(&self) -> Seq<char>;

    /// Whether the format's check accepts `data`.
    spec fn spec_matches(&self, data: Seq<u8>) -> bool;

    /// The top-level blocks describing `data`.
    spec fn spec_dissect(&self, data: Seq<u8>) -> Seq<BlockModel>;

    fn name(&self) -> (r: &'static str)
        ensures
            r@ == self.spec_name(),
    ;

    fn matches(&self, data: &[u8]) -> (r: bool)
        ensures
            r == self.spec_matches(data@),
    ;

    fn dissect(&self, data: &[u8]) -> (r: Vec<Block>)
        requires
            input_ok(data@),
        ensures
            models(r@) == self.spec_dissect(data@),
    ;
}


/// A recognized file format, or the generic fallback for data no format accepts.
#[derive(Clone, Copy, Debug, PartialEq, Eq, Structural)]
pub enum Format {
    Elf,
    Pe,
    Macho,
    Wav,
    Ogg,
    Webp,
    Png,
    Bmp,
    Flac,
    Gzip,
    Mp4,
    Sqlite,
    Ico,
    Zip,
    Tar,
    Gif,
    Jpeg,
    Generic,
}

impl Dissector for Format {
    open spec fn spec_name(&self) -> Seq<char> {
        match *self {
            Format::Elf => ElfDissector.spec_name(),
            Format::Pe => PeDissector.spec_name(),
            Format::Macho => MachoDissector.spec_name(),
            Format::Wav => WavDissector.spec_name(),
            Format::Ogg => OggDissector.spec_name(),
            Format::Webp => WebpDissector.spec_name(),
            Format::Png => PngDissector.spec_name(),
            Format::Bmp => BmpDissector.spec_name(),
            Format::Flac => FlacDissector.spec_name(),
            Format::Gzip => GzipDissector.spec_name(),
            Format::Mp4 => Mp4Dissector.spec_name(),
            Format::Sqlite => SqliteDissector.spec_name(),
            Format::Ico => IcoDissector.spec_name(),
            Format::Zip => ZipDissector.spec_name(),
            Format::Tar => TarDissector.spec_name(),
            Format::Gif => GifDissector.spec_name(),
            Format::Jpeg => JpegDissector.spec_name(),
            Format::Generic => GenericDissector.spec_name(),
        }
    }

    open spec fn spec_matches(&self, data: Seq<u8>) -> bool {
        match *self {
            Format::Elf => ElfDissector.spec_matches(data),
            Format::Pe => PeDissector.spec_matches(data),
            Format::Macho => MachoDissector.spec_matches(data),
            Format::Wav => WavDissector.spec_matches(data),
            Format::Ogg => OggDissector.spec_matches(data),
            Format::Webp => WebpDissector.spec_matches(data),
            Format::Png => PngDissector.spec_matches(data),
            Format::Bmp => BmpDissector.spec_matches(data),
            Format::Flac => FlacDissector.spec_matches(data),
            Format::Gzip => GzipDissector.spec_matches(data),
            Format::Mp4 => Mp4Dissector.spec_matches(data),
            Format::Sqlite => SqliteDissector.spec_matches(data),
            Format::Ico => IcoDissector.spec_matches(data),
            Format::Zip => ZipDissector.spec_matches(data),
            Format::Tar => TarDissector.spec_matches(data),
            Format::Gif => GifDissector.spec_matches(data),
            Format::Jpeg => JpegDissector.spec_matches(data),
            Format::Generic => GenericDissector.spec_matches(data),
        }
    }

    open spec fn spec_dissect(&self, data: Seq<u8>) -> Seq<BlockModel> {
        match *self {
            Format::Elf => ElfDissector.spec_dissect(data),
            Format::Pe => PeDissector.spec_dissect(data),
            Format::Macho => MachoDissector.spec_dissect(data),
            Format::Wav => WavDissector.spec_dissect(data),
            Format::Ogg => OggDissector.spec_dissect(data),
            Format::Webp => WebpDissector.spec_dissect(data),
            Format::Png => PngDissector.spec_dissect(data),
            Format::Bmp => BmpDissector.spec_dissect(data),
            Format::Flac => FlacDissector.spec_dissect(data),
            Format::Gzip => GzipDissector.spec_dissect(data),
            Format::Mp4 => Mp4Dissector.spec_dissect(data),
            Format::Sqlite => SqliteDissector.spec_dissect(data),
            Format::Ico => IcoDissector.spec_dissect(data),
            Format::Zip => ZipDissector.spec_dissect(data),
            Format::Tar => TarDissector.spec_dissect(data),
            Format::Gif => GifDissector.spec_dissect(data),
            Format::Jpeg => JpegDissector.spec_dissect(data),
            Format::Generic => GenericDissector.spec_dissect(data),
        }
    }

    fn name(&self) -> (r: &'static str) {
        match *self {
            Format::Elf => ElfDissector.name(),
            Format::Pe => PeDissector.name(),
            Format::Macho => MachoDissector.name(),
            Format::Wav => WavDissector.name(),
            Format::Ogg => OggDissector.name(),
            Format::Webp => WebpDissector.name(),
            Format::Png => PngDissector.name(),
            Format::Bmp => BmpDissector.name(),
            Format::Flac => FlacDissector.name(),
            Format::Gzip => GzipDissector.name(),
            Format::Mp4 => Mp4Dissector.name(),
            Format::Sqlite => SqliteDissector.name(),
            Format::Ico => IcoDissector.name(),
            Format::Zip => ZipDissector.name(),
            Format::Tar => TarDissector.name(),
            Format::Gif => GifDissector.name(),
            Format::Jpeg => JpegDissector.name(),
            Format::Generic => GenericDissector.name(),
        }
    }

    fn matches(&self, data: &[u8]) -> (r: bool) {
        match *self {
            Format::Elf => ElfDissector.matches(data),
            Format::Pe => PeDissector.matches(data),
            Format::Macho => MachoDissector.matches(data),
            Format::Wav => WavDissector.matches(data),
            Format::Ogg => OggDissector.matches(data),
            Format::Webp => WebpDissector.matches(data),
            Format::Png => PngDissector.matches(data),
            Format::Bmp => BmpDissector.matches(data),
            Format::Flac => FlacDissector.matches(data),
            Format::Gzip => GzipDissector.matches(data),
            Format::Mp4 => Mp4Dissector.matches(data),
            Format::Sqlite => SqliteDissector.matches(data),
            Format::Ico => IcoDissector.matches(data),
            Format::Zip => ZipDissector.matches(data),
            Format::Tar => TarDissector.matches(data),
            Format::Gif => GifDissector.matches(data),
            Format::Jpeg => JpegDissector.matches(data),
            Format::Generic => GenericDissector.matches(data),
        }
    }

    fn dissect(&self, data: &[u8]) -> (r: Vec<Block>) {
        match *self {
            Format::Elf => ElfDissector.dissect(data),
            Format::Pe => PeDissector.dissect(data),
            Format::Macho => MachoDissector.dissect(data),
            Format::Wav => WavDissector.dissect(data),
            Format::Ogg => OggDissector.dissect(data),
            Format::Webp => WebpDissector.dissect(data),
            Format::Png => PngDissector.dissect(data),
            Format::Bmp => BmpDissector.dissect(data),
            Format::Flac => FlacDissector.dissect(data),
            Format::Gzip => GzipDissector.dissect(data),
            Format::Mp4 => Mp4Dissector.dissect(data),
            Format::Sqlite => SqliteDissector.dissect(data),
            Format::Ico => IcoDissector.dissect(data),
            Format::Zip => ZipDissector.dissect(data),
            Format::Tar => TarDissector.dissect(data),
            Format::Gif => GifDissector.dissect(data),
            Format::Jpeg => JpegDissector.dissect(data),
            Format::Generic => GenericDissector.dissect(data),
        }
    }
}

/// The registered formats, in the order they are tried.
pub open spec fn registry() -> Seq<Format> {
    seq![
        Format::Elf,
        Format::Pe,
        Format::Macho,
        Format::Wav,
        Format::Ogg,
        Format::Webp,
        Format::Png,
        Format::Bmp,
        Format::Flac,
        Format::Gzip,
        Format::Mp4,
        Format::Sqlite,
        Format::Ico,
        Format::Zip,
        Format::Tar,
        Format::Gif,
        Format::Jpeg,
    ]
}

/// The registered formats, in the order they are tried.
pub fn dissectors() -> (v: Vec<Format>)
    ensures
        v@ == registry(),
{
    let v = vec![
        Format::Elf,
        Format::Pe,
        Format::Macho,
        Format::Wav,
        Format::Ogg,
        Format::Webp,
        Format::Png,
        Format::Bmp,
        Format::Flac,
        Format::Gzip,
        Format::Mp4,
        Format::Sqlite,
        Format::Ico,
        Format::Zip,
        Format::Tar,
        Format::Gif,
        Format::Jpeg,
    ];
    assert(v@ =~= registry());
    v
}

/// The first registered format, from position `i` on, that accepts `d`;
/// the generic fallback when none does.
pub open spec fn first_match(d: Seq<u8>, i: int) -> Format
    decreases registry().len() - i,
{
    if i < 0 || i >= registry().len() {
        Format::Generic
    } else if registry()[i].spec_matches(d) {
        registry()[i]
    } else {
        first_match(d, i + 1)
    }
}

/// The format used for `d`: the first registered one that accepts it, else the fallback.
pub open spec fn chosen(d: Seq<u8>) -> Format {
    first_match(d, 0)
}

/// The format whose dissector handles `data`.
pub fn matched_dissector(data: &[u8]) -> (f: Format)
    ensures
        f == chosen(data@),
{
    let all = dissectors();
    let mut i: usize = 0;
    while i < all.len()
        invariant
            all@ == registry(),
            i <= all@.len(),
            first_match(data@, 0) == first_match(data@, i as int),
        decreases all.len() - i,
    {
        let f = all[i];
        if f.matches(data) {
            return f;
        }
        i = i + 1;
    }
    Format::Generic
}

/// The name of the format of `data`.
pub fn identify(data: &[u8]) -> (r: &'static str)
    ensures
        r@ == chosen(data@).spec_name(),
{
    matched_dissector(data).name()
}

/// The blocks describing `data`, as the dissector of its format produces them.
pub fn dissect(data: &[u8]) -> (r: Vec<Block>)
    requires
        input_ok(data@),
    ensures
        models(r@) == chosen(data@).spec_dissect(data@),
{
    matched_dissector(data).dissect(data)
}

proof fn lemma_first_match(d: Seq<u8>, i: int)
    requires
        0 <= i <= registry().len(),
    ensures
        first_match(d, i).spec_matches(d),
        first_match(d, i) == Format::Generic <==> (forall|j: int| i <= j < registry().len() ==> !#[trigger] registry()[j].spec_matches(d)),
        first_match(d, i) != Format::Generic ==> exists|j: int| i <= j < registry().len() && registry()[j] == first_match(d, i)
            && registry()[j].spec_matches(d) && forall|k: int| i <= k < j ==> !#[trigger] registry()[k].spec_matches(d),
    decreases registry().len() - i,
{
    if i < registry().len() {
        lemma_first_match(d, i + 1);
        if registry()[i].spec_matches(d) {
            assert(registry()[i] != Format::Generic);
        } else if first_match(d, i + 1) != Format::Generic {
            let j = choose|j: int| i + 1 <= j < registry().len() && registry()[j] == first_match(d, i + 1)
                && registry()[j].spec_matches(d) && forall|k: int| i + 1 <= k < j ==> !#[trigger] registry()[k].spec_matches(d);
            assert(forall|k: int| i <= k < j ==> !#[trigger] registry()[k].spec_matches(d));
        }
    }
}

/// Format selection: the chosen format accepts the data, and so does no
/// format registered before it; the generic fallback is chosen exactly
/// when no registered format accepts the data, and then describes the data
/// as one block spanning all of it.
pub proof fn lemma_format_selection(d: Seq<u8>)
    ensures
        chosen(d).spec_matches(d),
        chosen(d) == Format::Generic <==> (forall|j: int| 0 <= j < registry().len() ==> !#[trigger] registry()[j].spec_matches(d)),
        chosen(d) != Format::Generic ==> exists|j: int| 0 <= j < registry().len() && registry()[j] == chosen(d)
            && forall|k: int| 0 <= k < j ==> !#[trigger] registry()[k].spec_matches(d),
        chosen(d) == Format::Generic ==> chosen(d).spec_dissect(d) == seq![leaf_m("Data"@, rng(0, d.len() as int))],
{
    lemma_first_match(d, 0);
}

/// Every format's blocks run forwards, and its leaves have no children.
pub proof fn lemma_format_trees(f: Format, d: Seq<u8>)
    requires
        input_ok(d),
    ensures
        all_tree_ok(f.spec_dissect(d)),
{
    match f {
        Format::Elf => {
            lemma_elf_blocks_nest(d);
            let s = ElfDissector.spec_dissect(d);
            assert forall|i: int| 0 <= i < s.len() implies tree_ok(#[trigger] s[i]) by {
                lemma_nests_tree_ok(s[i]);
            }
        },
        Format::Pe => {
            lemma_pe_blocks_nest(d);
            lemma_all_nest_tree_ok(d, PeDissector.spec_dissect(d));
        },
        Format::Macho => lemma_macho_trees(d),
        Format::Wav => lemma_wav_trees(d),
        Format::Ogg => {
            lemma_pages_nest(d);
            lemma_all_nest_tree_ok(d, OggDissector.spec_dissect(d));
        },
        Format::Webp => lemma_webp_trees(d),
        Format::Png => lemma_png_trees(d),
        Format::Bmp => {
            lemma_bmp_blocks_nest(d);
            lemma_all_nest_tree_ok(d, BmpDissector.spec_dissect(d));
        },
        Format::Flac => {
            lemma_flac_blocks_nest(d);
            lemma_all_nest_tree_ok(d, FlacDissector.spec_dissect(d));
        },
        Format::Gzip => {
            lemma_gzip_blocks_nest(d);
            lemma_all_nest_tree_ok(d, GzipDissector.spec_dissect(d));
        },
        Format::Mp4 => lemma_mp4_trees(d),
        Format::Sqlite => {
            lemma_sqlite_blocks_nest(d);
            lemma_all_nest_tree_ok(d, SqliteDissector.spec_dissect(d));
        },
        Format::Ico => lemma_ico_trees(d),
        Format::Zip => {
            lemma_zip_blocks_nest(d);
            lemma_all_nest_tree_ok(d, ZipDissector.spec_dissect(d));
        },
        Format::Tar => {
            lemma_tar_blocks_nest(d);
            lemma_all_nest_tree_ok(d, TarDissector.spec_dissect(d));
        },
        Format::Gif => {
            lemma_gif_blocks_nest(d);
            lemma_all_nest_tree_ok(d, GifDissector.spec_dissect(d));
        },
        Format::Jpeg => lemma_jpeg_trees(d),
        Format::Generic => {
            lemma_generic_blocks_nest(d);
            lemma_all_nest_tree_ok(d, GenericDissector.spec_dissect(d));
        },
    }
}

/// The block-tree law: every block that `dissect` gives, at any depth,
/// covers a span that runs forwards (its start at most its end), and every
/// block that is not expandable (a leaf) has no children.
pub proof fn lemma_dissect_trees(d: Seq<u8>)
    requires
        input_ok(d),
    ensures
        all_tree_ok(chosen(d).spec_dissect(d)),
{
    lemma_format_trees(chosen(d), d);
}

} // verus!
