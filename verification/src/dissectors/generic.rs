//! The fallback dissector: one block spanning the whole input.

use vstd::prelude::*;
use super::{
    Block, BlockModel, ByteRange, Dissector, all_nest, input_ok, lemma_push_record, leaf_m, no_blocks,
    push_block, rng,
};
use crate::text::{lit};

verus! {

pub struct GenericDissector;

/// The fallback's one block spans exactly the data.
pub proof fn lemma_generic_blocks_nest(d: Seq<u8>)
    requires
        input_ok(d),
    ensures
        all_nest(d, GenericDissector.spec_dissect(d)),
{
    lemma_push_record(d, Seq::empty(), leaf_m("Data"@, rng(0, d.len() as int)));
    assert(Seq::<BlockModel>::empty().push(leaf_m("Data"@, rng(0, d.len() as int))) == GenericDissector.spec_dissect(d));
}

impl Dissector for GenericDissector {
    open spec fn spec_name(&self) -> Seq<char> {
        "Data"@
    }

    open spec fn spec_matches(&self, data: Seq<u8>) -> bool {
        true
    }

    open spec fn spec_dissect(&self, data: Seq<u8>) -> Seq<BlockModel> {
        seq![leaf_m("Data"@, rng(0, data.len() as int))]
    }

    fn name(&self) -> (r: &'static str) {
        "Data"
    }

    fn matches(&self, data: &[u8]) -> (r: bool) {
        true
    }

    fn dissect(&self, data: &[u8]) -> (r: Vec<Block>) {
        let mut blocks = no_blocks();
        push_block(&mut blocks, Block::leaf(lit("Data"), ByteRange::new(0, data.len() as u64)));
        blocks
    }
}

} // verus!
