//! Calls that take several steps: the submission of a transaction, and the
//! search for one.
use crate::chain::Block;
use crate::hash::Hash256;
use crate::rpc::{
    check_consumed, check_tip_unchanged, fault_of, find_transaction, trouble, BlockPlace, RpcError,
    RpcFault, Trouble, INTERNAL_ERROR, INVALID_PARAMS,
};
use crate::text::decimal;
use vstd::prelude::*;
use vstd::string::*;

verus! {

// ---------------------------------------------------------------------------
// Submission
// ---------------------------------------------------------------------------
/// What a submission waits for.
#[derive(Debug)]
pub enum SubmitStep {
    /// The transaction is to be read from its bytes.
    Deserialize,
    /// Its id is to be computed.
    Identify,
    /// The mempool is to be asked for duplicates and conflicts.
    PreCheck,
    /// The transaction is to be validated at the tip.
    Validate,
    /// The tip is to be read again.
    Recheck { validated_at: Hash256 },
    /// The transaction is to be added to the mempool.
    Add,
    /// The transaction was added; the peers are to be told.
    Relay { tx_id: Hash256 },
    /// The submission is refused.
    Refuse(RpcError),
}

/// What came of a step.
#[derive(Debug)]
pub enum SubmitReply {
    /// How many bytes the transaction took.
    Deserialized(Result<usize, String>),
    Identified(Result<(), String>),
    PreChecked(Result<(), String>),
    /// The tip at which the transaction was validated, and the verdict.
    Validated { tip: Hash256, verdict: Result<(), String> },
    Tip(Hash256),
    Added(Result<Hash256, String>),
}

/// What a `SubmitStep` says.
pub ghost enum SubmitView {
    Deserialize,
    Identify,
    PreCheck,
    Validate,
    Recheck { validated_at: Hash256 },
    Add,
    Relay { tx_id: Hash256 },
    Refuse(RpcFault),
}

impl View for SubmitStep {
    type V = SubmitView;

    open spec fn view(&self) -> SubmitView {
        match *self {
            SubmitStep::Deserialize => SubmitView::Deserialize,
            SubmitStep::Identify => SubmitView::Identify,
            SubmitStep::PreCheck => SubmitView::PreCheck,
            SubmitStep::Validate => SubmitView::Validate,
            SubmitStep::Recheck { validated_at } => SubmitView::Recheck { validated_at },
            SubmitStep::Add => SubmitView::Add,
            SubmitStep::Relay { tx_id } => SubmitView::Relay { tx_id },
            SubmitStep::Refuse(e) => SubmitView::Refuse(e@),
        }
    }
}

/// The step after a reply, for a submission of `total` bytes. A reply that was
/// not waited for changes nothing.
pub open spec fn submit_after(step: SubmitView, reply: SubmitReply, total: usize) -> SubmitView {
    match (step, reply) {
        (SubmitView::Deserialize, SubmitReply::Deserialized(Ok(n))) => if n == total {
            SubmitView::Identify
        } else {
            SubmitView::Refuse(
                RpcFault {
                    code: INVALID_PARAMS,
                    message: "Trailing bytes after transaction: consumed "@ + decimal(n as nat)
                        + " of "@ + decimal(total as nat),
                },
            )
        },
        (SubmitView::Deserialize, SubmitReply::Deserialized(Err(m))) => SubmitView::Refuse(
            fault_of(Trouble::Deserialization, m@),
        ),
        (SubmitView::Identify, SubmitReply::Identified(Ok(_))) => SubmitView::PreCheck,
        (SubmitView::Identify, SubmitReply::Identified(Err(m))) => SubmitView::Refuse(
            fault_of(Trouble::TxId, m@),
        ),
        (SubmitView::PreCheck, SubmitReply::PreChecked(Ok(_))) => SubmitView::Validate,
        (SubmitView::PreCheck, SubmitReply::PreChecked(Err(m))) => SubmitView::Refuse(
            fault_of(Trouble::PreCheck, m@),
        ),
        (
            SubmitView::Validate,
            SubmitReply::Validated { tip, verdict: Ok(_) },
        ) => SubmitView::Recheck { validated_at: tip },
        (
            SubmitView::Validate,
            SubmitReply::Validated { tip, verdict: Err(m) },
        ) => SubmitView::Refuse(fault_of(Trouble::Validation, m@)),
        (SubmitView::Recheck { validated_at }, SubmitReply::Tip(now)) => if validated_at == now {
            SubmitView::Add
        } else {
            SubmitView::Refuse(
                RpcFault {
                    code: INTERNAL_ERROR,
                    message: "Tip changed during validation, try again"@,
                },
            )
        },
        (SubmitView::Add, SubmitReply::Added(Ok(tx_id))) => SubmitView::Relay { tx_id },
        (SubmitView::Add, SubmitReply::Added(Err(m))) => SubmitView::Refuse(
            fault_of(Trouble::Mempool, m@),
        ),
        _ => step,
    }
}

/// The submission of a transaction.
#[derive(Debug)]
pub struct Submission {
    pub total: usize,
    pub step: SubmitStep,
}

impl Submission {
    /// A submission of `total` bytes.
    pub fn new(total: usize) -> (r: Self)
        ensures
            r.total == total,
            r.step@ == SubmitView::Deserialize,
    {
        Submission { total, step: SubmitStep::Deserialize }
    }

    /// Takes the reply to the step that the submission waits for.
    pub fn advance(&mut self, reply: SubmitReply)
        ensures
            final(self).total == old(self).total,
            final(self).step@ == submit_after(old(self).step@, reply, old(self).total),
    {
        let next = match (&self.step, reply) {
            (SubmitStep::Deserialize, SubmitReply::Deserialized(r)) => match r {
                Ok(n) => match check_consumed(n, self.total) {
                    None => SubmitStep::Identify,
                    Some(e) => SubmitStep::Refuse(e),
                },
                Err(m) => SubmitStep::Refuse(trouble(Trouble::Deserialization, m.as_str())),
            },
            (SubmitStep::Identify, SubmitReply::Identified(r)) => match r {
                Ok(_) => SubmitStep::PreCheck,
                Err(m) => SubmitStep::Refuse(trouble(Trouble::TxId, m.as_str())),
            },
            (SubmitStep::PreCheck, SubmitReply::PreChecked(r)) => match r {
                Ok(_) => SubmitStep::Validate,
                Err(m) => SubmitStep::Refuse(trouble(Trouble::PreCheck, m.as_str())),
            },
            (SubmitStep::Validate, SubmitReply::Validated { tip, verdict }) => match verdict {
                Ok(_) => SubmitStep::Recheck { validated_at: tip },
                Err(m) => SubmitStep::Refuse(trouble(Trouble::Validation, m.as_str())),
            },
            (SubmitStep::Recheck { validated_at }, SubmitReply::Tip(now)) => {
                match check_tip_unchanged(validated_at, &now) {
                    None => SubmitStep::Add,
                    Some(e) => SubmitStep::Refuse(e),
                }
            },
            (SubmitStep::Add, SubmitReply::Added(r)) => match r {
                Ok(tx_id) => SubmitStep::Relay { tx_id },
                Err(m) => SubmitStep::Refuse(trouble(Trouble::Mempool, m.as_str())),
            },
            _ => {
                return ;
            },
        };
        self.step = next;
    }
}

/// The step after a run of replies.
pub open spec fn submit_run(replies: Seq<SubmitReply>, total: usize) -> SubmitView
    decreases replies.len(),
{
    if replies.len() == 0 {
        SubmitView::Deserialize
    } else {
        submit_after(submit_run(replies.drop_last(), total), replies.last(), total)
    }
}

/// The replies vouch for everything that precedes a step.
pub open spec fn vouched(step: SubmitView, replies: Seq<SubmitReply>, total: usize) -> bool {
    &&& !(step is Deserialize || step is Refuse) ==> replies.contains(
        SubmitReply::Deserialized(Ok(total)),
    )
    &&& (step is PreCheck || step is Validate || step is Recheck || step is Add || step is Relay)
        ==> replies.contains(SubmitReply::Identified(Ok(())))
    &&& (step is Validate || step is Recheck || step is Add || step is Relay) ==> replies.contains(
        SubmitReply::PreChecked(Ok(())),
    )
    &&& step matches SubmitView::Recheck { validated_at } ==> replies.contains(
        SubmitReply::Validated { tip: validated_at, verdict: Ok(()) },
    )
    &&& (step is Add || step is Relay) ==> exists|tip: Hash256|
        #[trigger] replies.contains(SubmitReply::Tip(tip)) && replies.contains(
            SubmitReply::Validated { tip, verdict: Ok(()) },
        )
    &&& step matches SubmitView::Relay { tx_id } ==> replies.contains(
        SubmitReply::Added(Ok(tx_id)),
    )
}

/// A transaction is relayed only if its bytes were read to the last one, the
/// mempool had nothing against it, it was found valid at a tip that was still
/// the tip afterwards, and the mempool took it.
pub proof fn law_only_checked_transactions_are_relayed(replies: Seq<SubmitReply>, total: usize)
    ensures
        vouched(submit_run(replies, total), replies, total),
    decreases replies.len(),
{
    if replies.len() > 0 {
        let init = replies.drop_last();
        let before = submit_run(init, total);
        let step = submit_run(replies, total);
        law_only_checked_transactions_are_relayed(init, total);
        assert forall|x: SubmitReply| init.contains(x) implies replies.contains(x) by {
            let i = choose|i: int| 0 <= i < init.len() && init[i] == x;
            assert(replies[i] == x);
        }
        assert(replies[replies.len() - 1] == replies.last());
        assert(replies.contains(replies.last()));
        match (before, replies.last()) {
            (SubmitView::Recheck { validated_at }, SubmitReply::Tip(now)) if validated_at == now => {
                assert(replies.contains(SubmitReply::Tip(now)));
            },
            (SubmitView::Identify, SubmitReply::Identified(Ok(u))) => {
                assert(u == ());
                assert(replies.last() == SubmitReply::Identified(Ok(())));
            },
            (SubmitView::PreCheck, SubmitReply::PreChecked(Ok(u))) => {
                assert(u == ());
                assert(replies.last() == SubmitReply::PreChecked(Ok(())));
            },
            (SubmitView::Validate, SubmitReply::Validated { tip, verdict: Ok(u) }) => {
                assert(u == ());
                assert(replies.last() == SubmitReply::Validated { tip, verdict: Ok(()) });
            },
            _ => {
                if before is Add || before is Relay {
                    let tip = choose|tip: Hash256|
                        #[trigger] init.contains(SubmitReply::Tip(tip)) && init.contains(
                            SubmitReply::Validated { tip, verdict: Ok(()) },
                        );
                    assert(replies.contains(SubmitReply::Tip(tip)));
                }
            },
        }
    }
}

/// A submission that was refused stays refused.
pub proof fn law_refusal_is_final(e: RpcFault, reply: SubmitReply, total: usize)
    ensures
        submit_after(SubmitView::Refuse(e), reply, total) == SubmitView::Refuse(e),
{
}

// ---------------------------------------------------------------------------
// Search
// ---------------------------------------------------------------------------
/// What the search for a transaction waits for.
#[derive(Clone, Copy, Debug)]
pub enum LookupStep {
    /// Whether the transaction is in the mempool.
    Mempool,
    /// The height of its block, by the index.
    Height,
    /// The id of the block at a height.
    BlockId { height: u64 },
    /// A block.
    Block(BlockPlace),
    /// The transaction is in the mempool.
    Waiting,
    /// The transaction is in a block, at a position.
    InBlock { place: BlockPlace, index: usize },
    /// The transaction was not found.
    Missing,
}

/// What came of a step. `None` stands for a failure of storage as well.
pub enum LookupReply {
    Mempool(bool),
    Height(Option<u64>),
    BlockId(Option<Hash256>),
    Block(Option<Block>),
}

/// The position of a transaction in a block.
pub open spec fn position_of(block: Block, id: Hash256) -> Option<int> {
    if exists|i: int|
        0 <= i < block.transactions@.len() && (#[trigger] block.transactions@[i]).tx_id == id {
        Some(first_position(block, id, 0))
    } else {
        None
    }
}

/// The first position, from `from` on, of a transaction.
pub open spec fn first_position(block: Block, id: Hash256, from: int) -> int
    decreases block.transactions@.len() - from,
{
    if from < 0 || from >= block.transactions@.len() || block.transactions@[from].tx_id == id {
        from
    } else {
        first_position(block, id, from + 1)
    }
}

proof fn lemma_first_position(block: Block, id: Hash256, from: int, at: int)
    requires
        0 <= from <= at < block.transactions@.len(),
        block.transactions@[at].tx_id == id,
        forall|j: int| from <= j < at ==> (#[trigger] block.transactions@[j]).tx_id != id,
    ensures
        first_position(block, id, from) == at,
    decreases at - from,
{
    if from < at {
        lemma_first_position(block, id, from + 1, at);
    }
}

/// The step after a reply, in the search for `id`. A reply that was not waited
/// for changes nothing.
pub open spec fn lookup_after(step: LookupStep, reply: LookupReply, id: Hash256) -> LookupStep {
    match (step, reply) {
        (LookupStep::Mempool, LookupReply::Mempool(found)) => if found {
            LookupStep::Waiting
        } else {
            LookupStep::Height
        },
        (LookupStep::Height, LookupReply::Height(Some(height))) => LookupStep::BlockId { height },
        (LookupStep::Height, LookupReply::Height(None)) => LookupStep::Missing,
        (LookupStep::BlockId { height }, LookupReply::BlockId(Some(block_id))) => LookupStep::Block(
            BlockPlace { block_id, height },
        ),
        (LookupStep::BlockId { height }, LookupReply::BlockId(None)) => LookupStep::Missing,
        (LookupStep::Block(place), LookupReply::Block(Some(b))) => match position_of(b, id) {
            Some(i) => LookupStep::InBlock { place, index: i as usize },
            None => LookupStep::Missing,
        },
        (LookupStep::Block(place), LookupReply::Block(None)) => LookupStep::Missing,
        _ => step,
    }
}

/// The search for a transaction: in the mempool first, and then where the
/// index says.
#[derive(Clone, Copy, Debug)]
pub struct TransactionLookup {
    pub id: Hash256,
    pub step: LookupStep,
}

impl TransactionLookup {
    pub fn new(id: Hash256) -> (r: Self)
        ensures
            r.id == id,
            r.step == LookupStep::Mempool,
    {
        TransactionLookup { id, step: LookupStep::Mempool }
    }

    /// Takes the reply to the step that the search waits for.
    pub fn advance(&mut self, reply: LookupReply)
        ensures
            final(self).id == old(self).id,
            final(self).step == lookup_after(old(self).step, reply, old(self).id),
    {
        let next = match (self.step, reply) {
            (LookupStep::Mempool, LookupReply::Mempool(found)) => if found {
                LookupStep::Waiting
            } else {
                LookupStep::Height
            },
            (LookupStep::Height, LookupReply::Height(h)) => match h {
                Some(height) => LookupStep::BlockId { height },
                None => LookupStep::Missing,
            },
            (LookupStep::BlockId { height }, LookupReply::BlockId(b)) => match b {
                Some(block_id) => LookupStep::Block(BlockPlace { block_id, height }),
                None => LookupStep::Missing,
            },
            (LookupStep::Block(place), LookupReply::Block(b)) => match b {
                Some(block) => match find_transaction(&block, &self.id) {
                    Some(index) => {
                        proof {
                            lemma_first_position(block, self.id, 0, index as int);
                        }
                        LookupStep::InBlock { place, index }
                    },
                    None => LookupStep::Missing,
                },
                None => LookupStep::Missing,
            },
            (step, _) => step,
        };
        self.step = next;
    }
}

/// What is found in a block is the transaction that was asked for.
pub proof fn law_found_transaction_is_the_one(place: BlockPlace, block: Block, id: Hash256)
    requires
        block.transactions@.len() <= usize::MAX,
    ensures
        match lookup_after(LookupStep::Block(place), LookupReply::Block(Some(block)), id) {
            LookupStep::InBlock { place: p, index } => p == place && index
                < block.transactions@.len() && block.transactions@[index as int].tx_id == id,
            LookupStep::Missing => forall|i: int|
                0 <= i < block.transactions@.len() ==> (#[trigger] block.transactions@[i]).tx_id
                    != id,
            _ => false,
        },
{
    if position_of(block, id) is Some {
        lemma_finds(block, id, 0);
    }
}

proof fn lemma_finds(block: Block, id: Hash256, from: int)
    requires
        0 <= from,
        exists|i: int|
            from <= i < block.transactions@.len() && (#[trigger] block.transactions@[i]).tx_id
                == id,
    ensures
        from <= first_position(block, id, from) < block.transactions@.len(),
        block.transactions@[first_position(block, id, from)].tx_id == id,
    decreases block.transactions@.len() - from,
{
    if block.transactions@[from].tx_id != id {
        lemma_finds(block, id, from + 1);
    }
}

} // verus!
