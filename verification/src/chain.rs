//! Blocks, transactions and the choice between chains.
use crate::hash::Hash256;
use crate::work::{add_work, be_nat, target_work, work_from_target, work_less, work_sum};
use vstd::prelude::*;

verus! {

/// How many headers or block ids one request may ask for.
pub const MAX_GETBLOCKS_ITEMS: usize = 64;

/// A block header, with the id that hashing it gives.
///
/// The id is worked out once, where the header is decoded.
#[derive(Clone, Copy, Debug)]
pub struct BlockHeader {
    pub version: u32,
    pub height: u64,
    pub prev_block_id: Hash256,
    pub timestamp: u64,
    pub difficulty_target: Hash256,
    pub nonce: u64,
    pub tx_root: Hash256,
    pub state_root: Hash256,
    pub id: Hash256,
}

impl BlockHeader {
    #[verifier::when_used_as_spec(spec_block_id)]
    pub fn block_id(&self) -> (r: Hash256)
        ensures
            r == self.id,
    {
        self.id
    }

    pub open spec fn spec_block_id(&self) -> Hash256 {
        self.id
    }
}

/// A transaction output by position.
#[derive(Clone, Copy, Debug, Eq, Hash)]
pub struct OutPoint {
    pub tx_id: Hash256,
    pub output_index: u32,
}

impl PartialEq for OutPoint {
    fn eq(&self, other: &Self) -> (r: bool) {
        self.tx_id == other.tx_id && self.output_index == other.output_index
    }
}

impl vstd::std_specs::cmp::PartialEqSpecImpl for OutPoint {
    open spec fn obeys_eq_spec() -> bool {
        true
    }

    open spec fn eq_spec(&self, other: &Self) -> bool {
        *self == *other
    }
}

impl OutPoint {
    pub fn new(tx_id: Hash256, output_index: u32) -> (r: OutPoint)
        ensures
            r == (OutPoint { tx_id, output_index }),
    {
        OutPoint { tx_id, output_index }
    }
}

/// An amount locked by a script.
#[derive(Debug)]
pub struct TxOutput {
    pub value: u64,
    pub script: Vec<u8>,
}

/// What a `TxOutput` holds.
pub ghost struct OutputView {
    pub value: u64,
    pub script: Seq<u8>,
}

impl View for TxOutput {
    type V = OutputView;

    open spec fn view(&self) -> OutputView {
        OutputView { value: self.value, script: self.script@ }
    }
}

/// A transaction, with the id that hashing it gives.
#[derive(Debug)]
pub struct Transaction {
    pub tx_id: Hash256,
    pub is_coinbase: bool,
    pub inputs: Vec<OutPoint>,
    pub outputs: Vec<TxOutput>,
}

/// A block.
#[derive(Debug)]
pub struct Block {
    pub header: BlockHeader,
    pub transactions: Vec<Transaction>,
}

/// The end of a chain.
#[derive(Clone, Copy, Debug)]
pub struct ChainTip {
    pub block_id: Hash256,
    pub height: u64,
    pub cumulative_work: [u8; 32],
}

/// The block that a release vouches for.
#[derive(Clone, Copy, Debug)]
pub struct Checkpoint {
    pub height: u64,
    pub hash: Hash256,
    pub cumulative_work: [u8; 32],
}

/// Whether `a` is the chain to follow rather than `b`: more work, or as much
/// work and a greater height.
pub open spec fn better_chain(a: ChainTip, b: ChainTip) -> bool {
    let (x, y) = (be_nat(a.cumulative_work@), be_nat(b.cumulative_work@));
    x > y || (x == y && a.height > b.height)
}

pub fn is_better_chain(a: &ChainTip, b: &ChainTip) -> (r: bool)
    ensures
        r == better_chain(*a, *b),
{
    if work_less(&b.cumulative_work, &a.cumulative_work) {
        true
    } else if work_less(&a.cumulative_work, &b.cumulative_work) {
        false
    } else {
        a.height > b.height
    }
}

/// A chain is not better than itself, and of two chains at most one is better
/// than the other.
pub proof fn law_better_chain_is_an_order(a: ChainTip, b: ChainTip, c: ChainTip)
    ensures
        !better_chain(a, a),
        !(better_chain(a, b) && better_chain(b, a)),
        better_chain(a, b) && better_chain(b, c) ==> better_chain(a, c),
{
}

/// The cumulative work of a block, given that of its parent.
pub fn chain_work(parent_work: &[u8; 32], target: &Hash256) -> (r: [u8; 32])
    ensures
        be_nat(r@) == work_sum(be_nat(parent_work@), target_work(be_nat(target.0@))),
{
    add_work(parent_work, &work_from_target(target))
}

} // verus!
