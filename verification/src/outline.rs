//! Block trees listed as outlines: every block once, parents before their
//! children, each with its nesting depth.

use vstd::prelude::*;
use crate::dissectors::{models, Block, BlockModel, ByteRange};

verus! {

/// One block of an outline.
pub struct OutlineEntry {
    pub label: String,
    pub range: ByteRange,
    pub depth: u64,
    pub expandable: bool,
    pub default_expanded: bool,
}

/// The mathematical content of an `OutlineEntry`.
pub struct EntryModel {
    pub label: Seq<char>,
    pub range: ByteRange,
    pub depth: u64,
    pub expandable: bool,
    pub expanded: bool,
}

impl View for OutlineEntry {
    type V = EntryModel;

    open spec fn view(&self) -> EntryModel {
        EntryModel {
            label: self.label@,
            range: self.range,
            depth: self.depth,
            expandable: self.expandable,
            expanded: self.default_expanded,
        }
    }
}

/// The views of a list of entries.
pub open spec fn entry_views(s: Seq<OutlineEntry>) -> Seq<EntryModel> {
    s.map_values(|e: OutlineEntry| e@)
}

/// The depth one level below `depth` (staying at the largest depth).
pub open spec fn deeper(depth: u64) -> u64 {
    if depth < u64::MAX { (depth + 1) as u64 } else { depth }
}

/// The outline of the blocks `s` at nesting depth `depth`.
pub open spec fn outline_seq(s: Seq<BlockModel>, depth: u64) -> Seq<EntryModel>
    decreases s,
{
    if s.len() == 0 {
        Seq::empty()
    } else {
        outline_seq(s.drop_last(), depth) + outline_block(s.last(), depth)
    }
}

/// The outline of one block: the block itself, then its children one level deeper.
pub open spec fn outline_block(b: BlockModel, depth: u64) -> Seq<EntryModel>
    decreases b,
{
    seq![EntryModel { label: b.label, range: b.range, depth, expandable: b.expandable, expanded: b.expanded }]
        + outline_seq(b.children, deeper(depth))
}

fn outline_into(out: &mut Vec<OutlineEntry>, blocks: &Vec<Block>, depth: u64)
    ensures
        entry_views(final(out)@) == entry_views(old(out)@) + outline_seq(models(blocks@), depth),
    decreases blocks@,
{
    let ghost start = entry_views(out@);
    let mut i: usize = 0;
    while i < blocks.len()
        invariant
            i <= blocks@.len(),
            entry_views(out@) == start + outline_seq(models(blocks@.subrange(0, i as int)), depth),
        decreases blocks.len() - i,
    {
        let b = &blocks[i];
        let ghost before = entry_views(out@);
        out.push(OutlineEntry {
            label: b.label.clone(),
            range: b.range,
            depth,
            expandable: b.expandable,
            default_expanded: b.default_expanded,
        });
        let next = if depth < u64::MAX { depth + 1 } else { depth };
        assert(decreases_to!(blocks@ => b.children@));
        outline_into(out, &b.children, next);
        proof {
            let pre = blocks@.subrange(0, i as int);
            let post = blocks@.subrange(0, i + 1);
            assert(post.drop_last() =~= pre);
            assert(post.last() == *b);
            lemma_models_last(post);
            assert(entry_views(out@) =~= before + outline_block(b@, depth));
        }
        i = i + 1;
    }
    assert(blocks@.subrange(0, blocks@.len() as int) =~= blocks@);
}

proof fn lemma_models_last(s: Seq<Block>)
    requires
        s.len() > 0,
    ensures
        models(s).drop_last() == models(s.drop_last()),
        models(s).last() == s.last()@,
{
}

/// The outline of a block tree.
pub fn outline(blocks: &Vec<Block>) -> (r: Vec<OutlineEntry>)
    ensures
        entry_views(r@) == outline_seq(models(blocks@), 0),
{
    let mut out: Vec<OutlineEntry> = Vec::new();
    assert(entry_views(out@) =~= Seq::empty());
    outline_into(&mut out, blocks, 0);
    assert(entry_views(out@) =~= outline_seq(models(blocks@), 0));
    out
}

} // verus!
