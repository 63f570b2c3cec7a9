//! What the handling of a block comes to.
use crate::chain::{better_chain, ChainTip};
use crate::errors::{FaultView, ProcessBlockOutcome};
use crate::hash::Hash256;
use crate::pipeline::{
    asks, in_new_chain, is_check, is_choice, is_extend, is_reorg, is_walk, new_block_fault,
    next_choice, next_walk, orphans, orphans_in, pipeline_inv, promoted_work, steps_to, untouched, Action, ApplyReply, DifficultyReply, Event,
    HeaderReply, NewBlockReply, PipelineView, Stage, UndoReply,
};
use crate::work::{be_nat, target_work, work_sum};
use vstd::prelude::*;

verus! {

/// A bad answer to a check that needs no state ends the handling of a block with
/// an error: nothing that was found to be wrong is passed over. A good one leads
/// to the next check.
pub proof fn law_bad_checks_refuse(v: PipelineView, ev: Event, w: PipelineView)
    requires
        pipeline_inv(v),
        is_check(v.stage),
        steps_to(v, ev, w),
    ensures
        ({
            let h = v.block.header;
            let refused = w.result matches Some(Err(FaultView::Recoverable(_)));
            &&& asks(v) == Action::HasBlock(h.id) ==> match ev {
                Event::Known(Err(_)) => refused,
                Event::Known(Ok(true)) => w.result == Some(
                    Ok::<ProcessBlockOutcome, FaultView>(ProcessBlockOutcome::Stored),
                ),
                Event::Known(Ok(false)) => if h.height == 0 {
                    refused
                } else {
                    asks(w) == Action::GetHeader(h.prev_block_id)
                },
                _ => w == v,
            }
            &&& asks(v) == Action::GetHeader(h.prev_block_id) ==> match ev {
                Event::Found(Ok(true)) => asks(w) == Action::GetAncestorTimestamps(h.prev_block_id),
                Event::Found(_) => refused,
                _ => w == v,
            }
            &&& asks(v) == Action::GetAncestorTimestamps(h.prev_block_id) ==> match ev {
                Event::Checked(Ok(_)) => asks(w) == Action::ExpectedDifficulty(
                    h.prev_block_id,
                    h.height,
                ),
                Event::Checked(Err(_)) => refused,
                _ => w == v,
            }
            &&& asks(v) == Action::ExpectedDifficulty(h.prev_block_id, h.height) ==> match ev {
                Event::Difficulty(DifficultyReply::Known) => asks(w) == (Action::ValidateHeader {
                    skip_pow: v.skip_pow,
                }),
                Event::Difficulty(DifficultyReply::AncestorNotFound(id)) => w.result == Some(
                    Err::<ProcessBlockOutcome, _>(FaultView::MissingReorgAncestor(id)),
                ),
                Event::Difficulty(DifficultyReply::Failed(_)) => refused,
                _ => w == v,
            }
            &&& asks(v) == (Action::ValidateHeader { skip_pow: v.skip_pow }) ==> match ev {
                Event::HeaderChecked(HeaderReply::Invalid(_)) => refused,
                Event::HeaderChecked(HeaderReply::TimestampTooFarAhead) => asks(w)
                    is BufferFutureBlock,
                Event::HeaderChecked(HeaderReply::Valid) => if v.assume_valid && h.height
                    == v.checkpoint.height && h.id != v.checkpoint.hash {
                    refused
                } else {
                    asks(w) == Action::GetWork(h.prev_block_id) && w.checkpoint_verified == (
                    v.checkpoint_verified || v.assume_valid && h.height == v.checkpoint.height)
                },
                _ => w == v,
            }
            &&& asks(v) is BufferFutureBlock && ev is Done ==> w.result == Some(
                Ok::<ProcessBlockOutcome, FaultView>(ProcessBlockOutcome::BufferedFuture),
            )
            &&& asks(v) == Action::GetWork(h.prev_block_id) && ev is Work ==> w.stage
                == Stage::ParentWork && (w.work_distrusted <==> v.work_distrusted || (ev matches
                Event::Work(Ok(Some(x))) && work_sum(
                be_nat(x@),
                target_work(be_nat(h.difficulty_target.0@)),
            ) != be_nat(v.checkpoint.cumulative_work@)))
            &&& asks(v) is HasBlock || asks(v) is GetHeader || asks(v) is GetAncestorTimestamps
                || asks(v) is ExpectedDifficulty || asks(v) is ValidateHeader || asks(v)
                is BufferFutureBlock || asks(v) is GetWork
        }),
{
}

/// Fork choice: a block whose chain is better than the tip, then and again under
/// the lock, goes on to the state; any other is kept on a fork if its
/// transactions are the ones that its header names and are well-formed, and is
/// then reported as stored. Any bad answer ends in an error.
pub proof fn law_fork_choice_is_fair(v: PipelineView, ev: Event, w: PipelineView)
    requires
        pipeline_inv(v),
        is_choice(v.stage),
        steps_to(v, ev, w),
    ensures
        ({
            let h = v.block.header;
            let refused = w.result matches Some(Err(FaultView::Recoverable(_)));
            &&& asks(v) == Action::GetWork(h.prev_block_id) ==> match ev {
                Event::Work(Ok(Some(x))) => {
                    &&& asks(w) is ReadTip
                    &&& w.new_tip.block_id == h.id
                    &&& w.new_tip.height == h.height
                    &&& be_nat(w.new_tip.cumulative_work@) == work_sum(
                        be_nat(x@),
                        target_work(be_nat(h.difficulty_target.0@)),
                    )
                },
                Event::Work(_) => refused,
                _ => w == v,
            }
            &&& asks(v) is ReadTip ==> (ev matches Event::Tip(t) ==> if better_chain(v.new_tip, t) {
                asks(w) is LockStateAndReadTip
            } else {
                asks(w) is ComputeTxRoot
            })
            &&& asks(v) is LockStateAndReadTip ==> (ev matches Event::Tip(t) ==> {
                &&& !better_chain(v.new_tip, t) <==> asks(w) is ComputeTxRoot
                &&& better_chain(v.new_tip, t) ==> w.tip == t && (asks(w) is ApplyBlock
                    <==> h.prev_block_id == t.block_id)
            })
            &&& asks(v) is ComputeTxRoot ==> match ev {
                Event::Root(Ok(root)) => if root == h.tx_root {
                    asks(w) is ValidateStructure
                } else {
                    refused
                },
                Event::Root(Err(_)) => refused,
                _ => w == v,
            }
            &&& asks(v) is ValidateStructure ==> match ev {
                Event::Checked(Ok(_)) => asks(w) == (Action::StoreForkBlock {
                    work: v.new_tip.cumulative_work,
                }),
                Event::Checked(Err(_)) => refused,
                _ => w == v,
            }
            &&& asks(v) is StoreForkBlock ==> match ev {
                Event::Checked(Ok(_)) => w.result == Some(
                    Ok::<ProcessBlockOutcome, FaultView>(ProcessBlockOutcome::Stored),
                ),
                Event::Checked(Err(_)) => refused,
                _ => w == v,
            }
            &&& asks(v) is GetWork || asks(v) is ReadTip || asks(v) is LockStateAndReadTip
                || asks(v) is ComputeTxRoot || asks(v) is ValidateStructure || asks(v)
                is StoreForkBlock
            &&& !(asks(v) is StoreForkBlock) ==> !(w.result matches Some(Ok(_)))
        }),
{
}

/// A block on top of the tip: it is applied, its state root is compared, it is
/// committed, and only then does the tip move to it. A block whose transactions
/// are invalid is refused with an error, never reported as good. Whatever fails
/// after it was applied is undone first.
pub proof fn law_bad_block_on_the_tip_is_refused(v: PipelineView, ev: Event, w: PipelineView)
    requires
        pipeline_inv(v),
        is_extend(v.stage),
        steps_to(v, ev, w),
    ensures
        ({
            let refused = w.result matches Some(Err(FaultView::Recoverable(_)));
            let halted = w.result matches Some(Err(FaultView::Fatal(_)));
            &&& asks(v) is ApplyBlock ==> match ev {
                Event::Applied(ApplyReply::Applied) => asks(w) is ComputeStateRoot,
                Event::Applied(ApplyReply::StateCorrupted(_)) => halted,
                Event::Applied(ApplyReply::Invalid(_)) => refused && untouched(w),
                _ => w == v,
            }
            &&& asks(v) is ComputeStateRoot ==> match ev {
                Event::StateRoot(root) => if root == v.block.header.state_root {
                    asks(w) == (Action::CommitBlock { work: v.new_tip.cumulative_work })
                } else {
                    asks(w) is UndoBlock
                },
                _ => w == v,
            }
            &&& asks(v) is CommitBlock ==> match ev {
                Event::Checked(Ok(_)) => asks(w) == Action::SetTip(v.new_tip),
                Event::Checked(Err(_)) => asks(w) is UndoBlock,
                _ => w == v,
            }
            &&& asks(v) is UndoBlock ==> match ev {
                Event::Checked(Ok(_)) => refused && untouched(w),
                Event::Checked(Err(_)) => halted,
                _ => w == v,
            }
            &&& asks(v) is ApplyBlock || asks(v) is ComputeStateRoot || asks(v) is CommitBlock
                || asks(v) is UndoBlock
            &&& !(w.result matches Some(Ok(_)))
        }),
{
}

/// The way to the common ancestor: the block under the higher of the two walks
/// is fetched, and both where they are level. A missing block of the new chain
/// is named, one of our own chain is fatal. Where the walks meet, the old chain
/// is undone.
pub proof fn law_walk_leads_to_the_common_ancestor(v: PipelineView, ev: Event, w: PipelineView)
    requires
        pipeline_inv(v),
        is_walk(v.stage),
        steps_to(v, ev, w),
    ensures
        ({
            let old = v.stage == Stage::WalkOld || v.stage == Stage::WalkPairOld;
            &&& asks(v) == Action::GetBlock(
                if old {
                    v.old_id
                } else {
                    v.new_id
                },
            )
            &&& match ev {
                Event::Fetched(Ok(Some(b))) => {
                    &&& w.result is None
                    &&& old ==> w.old_chain == v.old_chain.push(b) && w.ancestors == v.ancestors
                        && w.old_id == b.header.prev_block_id
                    &&& !old ==> w.ancestors == v.ancestors.push(b) && w.old_chain == v.old_chain
                        && w.new_id == b.header.prev_block_id
                    &&& !is_walk(w.stage) ==> w.old_id == w.new_id
                    &&& is_walk(w.stage) && w.stage != Stage::WalkPairNew ==> w.old_height
                        != w.new_height || w.old_id != w.new_id
                },
                Event::Fetched(Ok(None)) => if old {
                    w.result matches Some(Err(FaultView::Fatal(_)))
                } else {
                    w.result == Some(
                        Err::<ProcessBlockOutcome, _>(FaultView::MissingReorgAncestor(v.new_id)),
                    )
                },
                Event::Fetched(Err(_)) => w.result matches Some(Err(FaultView::Recoverable(_))),
                _ => w == v,
            }
        }),
{
}

/// The change of chains: blocks of the old chain are undone one by one, newest
/// first, then those of the new chain are applied one by one, oldest first, each
/// with the state root that its header names; then the change is committed, and
/// only then does the tip move. Any failure on the way leads back to the old
/// chain or stops the node.
pub proof fn law_change_of_chains_goes_all_the_way_or_back(
    v: PipelineView,
    ev: Event,
    w: PipelineView,
)
    requires
        pipeline_inv(v),
        is_reorg(v.stage),
        steps_to(v, ev, w),
        v.old_chain.len() <= usize::MAX,
        v.ancestors.len() < usize::MAX,
    ensures
        ({
            let halted = w.result matches Some(Err(FaultView::Fatal(_)));
            let rolls_back = w.result is None && asks(w) is UndoNewBlocks && w.fault is Some;
            &&& asks(v) matches Action::UndoOldBlock(i) ==> i == v.undone && match ev {
                Event::Undone(UndoReply::Undone) => if i + 1 < v.old_chain.len() {
                    asks(w) == Action::UndoOldBlock((i + 1) as usize)
                } else {
                    asks(w) == Action::ApplyNewBlock(0)
                },
                Event::Undone(_) => asks(w) == (Action::RedoOldBlocks { count: i }),
                _ => w == v,
            }
            &&& asks(v) matches Action::ApplyNewBlock(i) ==> i == v.applied && match ev {
                Event::NewBlock(NewBlockReply::Applied { state_root }) => if state_root
                    != v.new_block(i as int).header.state_root {
                    asks(w) == Action::UndoNewBlock(i)
                } else if i < v.ancestors.len() {
                    asks(w) == Action::ApplyNewBlock((i + 1) as usize)
                } else {
                    asks(w) == Action::GetWork(v.old_id)
                },
                Event::NewBlock(_) => rolls_back,
                _ => w == v,
            }
            &&& asks(v) is UndoNewBlock ==> match ev {
                Event::Checked(_) => rolls_back,
                _ => w == v,
            }
            &&& asks(v) is GetWork ==> match ev {
                Event::Work(Ok(Some(x))) => asks(w) == (Action::CommitReorg {
                    work: v.new_tip.cumulative_work,
                    fork_point_work: x,
                }),
                Event::Work(Ok(None)) => halted,
                Event::Work(Err(_)) => rolls_back,
                _ => w == v,
            }
            &&& asks(v) is CommitReorg ==> match ev {
                Event::Checked(Ok(_)) => asks(w) is DemoteOldBlocks,
                Event::Checked(Err(_)) => rolls_back,
                _ => w == v,
            }
            &&& asks(v) matches Action::UndoNewBlocks { ancestors, block } ==> ancestors + (
            if block {
                1int
            } else {
                0
            }) == v.applied && match ev {
                Event::Checked(Ok(_)) => asks(w) == (Action::RedoOldBlocks {
                    count: v.old_chain.len() as usize,
                }),
                Event::Checked(Err(_)) => halted,
                _ => w == v,
            }
            &&& asks(v) matches Action::RedoOldBlocks { count } ==> count == v.undone && match ev {
                Event::Checked(Err(_)) => halted,
                Event::Checked(Ok(_)) => if v.stage == Stage::RedoOld {
                    w.result == Some(Err::<ProcessBlockOutcome, _>(v.fault->0))
                } else {
                    halted
                },
                _ => w == v,
            }
            &&& asks(v) is DemoteOldBlocks && ev is Done ==> asks(w) == Action::SetTip(v.new_tip)
            &&& asks(v) is SetTip && ev is Done ==> asks(w) is RefreshMempool
            &&& asks(v) is RefreshMempool && ev is Done ==> w.result == Some(
                Ok::<ProcessBlockOutcome, FaultView>(ProcessBlockOutcome::Accepted),
            )
            &&& w.result matches Some(Ok(_)) ==> asks(v) is RefreshMempool
            &&& !(asks(v) is Nothing)
        }),
{
}

/// A block is reported as stored only if storage says that it has it, or was
/// asked to keep it on a fork and did; as buffered only if it was put aside; and
/// as accepted only once the tip has moved to it and the mempool knows.
pub proof fn law_good_outcomes_are_earned(v: PipelineView, ev: Event, w: PipelineView)
    requires
        pipeline_inv(v),
        v.result is None,
        steps_to(v, ev, w),
        w.result matches Some(Ok(_)),
    ensures
        match w.result->0->Ok_0 {
            ProcessBlockOutcome::Stored => asks(v) == Action::HasBlock(v.block.header.id) && ev
                == Event::Known(Ok(true)) || asks(v) == (Action::StoreForkBlock {
                work: v.new_tip.cumulative_work,
            }) && (ev matches Event::Checked(Ok(_))),
            ProcessBlockOutcome::BufferedFuture => asks(v) is BufferFutureBlock && ev is Done,
            ProcessBlockOutcome::Accepted => asks(v) is RefreshMempool && ev is Done,
        },
{
    if is_check(v.stage) {
        law_bad_checks_refuse(v, ev, w);
    } else if is_choice(v.stage) {
        law_fork_choice_is_fair(v, ev, w);
    } else if is_extend(v.stage) {
        law_bad_block_on_the_tip_is_refused(v, ev, w);
    } else if is_walk(v.stage) {
        law_walk_leads_to_the_common_ancestor(v, ev, w);
    }
}

// ---------------------------------------------------------------------------
// What a change of chains writes
// ---------------------------------------------------------------------------
/// Whether some block of the new chain holds a transaction.
pub open spec fn confirmed_by_new_chain(v: PipelineView, id: Hash256) -> bool {
    (exists|j: int|
        0 <= j < v.block.transactions@.len() && (#[trigger] v.block.transactions@[j]).tx_id == id)
        || (exists|a: int, j: int|
        0 <= a < v.ancestors.len() && 0 <= j < v.ancestors[a].transactions@.len() && (
        #[trigger] v.ancestors[a].transactions@[j]).tx_id == id)
}

proof fn lemma_confirmed(v: PipelineView, id: Hash256)
    ensures
        in_new_chain(v, id) <==> confirmed_by_new_chain(v, id),
{
    let n = v.ancestors.len() as int;
    if in_new_chain(v, id) {
        let (i, j) = choose|i: int, j: int|
            0 <= i < v.new_len() && 0 <= j < v.new_block(i).transactions@.len() && (
            #[trigger] v.new_block(i).transactions@[j]).tx_id == id;
        if i < n {
            assert(v.ancestors[n - 1 - i].transactions@[j].tx_id == id);
        } else {
            assert(v.block.transactions@[j].tx_id == id);
        }
    }
    if exists|j: int|
        0 <= j < v.block.transactions@.len() && (#[trigger] v.block.transactions@[j]).tx_id == id {
        let j = choose|j: int|
            0 <= j < v.block.transactions@.len() && (#[trigger] v.block.transactions@[j]).tx_id
                == id;
        assert(v.new_block(n).transactions@[j].tx_id == id);
    }
    if exists|a: int, j: int|
        0 <= a < v.ancestors.len() && 0 <= j < v.ancestors[a].transactions@.len() && (
        #[trigger] v.ancestors[a].transactions@[j]).tx_id == id {
        let (a, j) = choose|a: int, j: int|
            0 <= a < v.ancestors.len() && 0 <= j < v.ancestors[a].transactions@.len() && (
            #[trigger] v.ancestors[a].transactions@[j]).tx_id == id;
        assert(v.new_block(n - 1 - a) == v.ancestors[a]);
        assert(v.new_block(n - 1 - a).transactions@[j].tx_id == id);
    }
}

proof fn lemma_orphans_in(v: PipelineView, b: int, n: int)
    requires
        0 <= n <= usize::MAX,
        0 <= b <= usize::MAX,
    ensures
        forall|x: usize, y: usize| #[trigger]
            orphans_in(v, b, n).contains((x, y)) <==> x == b && y < n && !v.old_chain[b].transactions@[y as int].is_coinbase
                && !confirmed_by_new_chain(v, v.old_chain[b].transactions@[y as int].tx_id),
        orphans_in(v, b, n).no_duplicates(),
    decreases n,
{
    if n > 0 {
        lemma_orphans_in(v, b, n - 1);
        let t = orphans_in(v, b, n - 1);
        let u = orphans_in(v, b, n);
        lemma_confirmed(v, v.old_chain[b].transactions@[n - 1].tx_id);
        let last = (b as usize, (n - 1) as usize);
        assert forall|x: usize, y: usize| #[trigger] u.contains((x, y)) <==> x == b && y < n
            && !v.old_chain[b].transactions@[y as int].is_coinbase && !confirmed_by_new_chain(
            v,
            v.old_chain[b].transactions@[y as int].tx_id,
        ) by {
            assert(t.contains((x, y)) <==> x == b && y < n - 1
                && !v.old_chain[b].transactions@[y as int].is_coinbase && !confirmed_by_new_chain(
                v,
                v.old_chain[b].transactions@[y as int].tx_id,
            ));
            if u != t {
                assert(u =~= t.push(last));
                if t.contains((x, y)) {
                    let i = choose|i: int| 0 <= i < t.len() && t[i] == (x, y);
                    assert(u[i] == (x, y));
                }
                if (x, y) == last {
                    assert(u[t.len() as int] == (x, y));
                }
                if u.contains((x, y)) {
                    let i = choose|i: int| 0 <= i < u.len() && u[i] == (x, y);
                    if i < t.len() {
                        assert(t[i] == (x, y));
                    }
                }
            }
        }
        if u != t {
            assert(!t.contains(last));
            assert forall|i: int, j: int| 0 <= i < j < u.len() implies u[i] != u[j] by {
                if j == t.len() {
                    assert(t.contains(t[i]));
                }
            }
        }
    }
}

proof fn lemma_orphans(v: PipelineView, n: int)
    requires
        0 <= n <= v.old_chain.len() <= usize::MAX,
    ensures
        forall|x: usize, y: usize| #[trigger]
            orphans(v, n).contains((x, y)) <==> x < n && y < v.old_chain[x as int].transactions@.len()
                && !v.old_chain[x as int].transactions@[y as int].is_coinbase
                && !confirmed_by_new_chain(v, v.old_chain[x as int].transactions@[y as int].tx_id),
        orphans(v, n).no_duplicates(),
    decreases n,
{
    if n > 0 {
        lemma_orphans(v, n - 1);
        let len = v.old_chain[n - 1].transactions.len();
        let k = v.old_chain[n - 1].transactions@.len() as int;
        assert(k == len && len <= usize::MAX);
        lemma_orphans_in(v, n - 1, k);
        let t = orphans(v, n - 1);
        let o = orphans_in(v, n - 1, k);
        let u = orphans(v, n);
        assert(u == t + o);
        assert forall|x: usize, y: usize| #[trigger] u.contains((x, y)) <==> t.contains((x, y))
            || o.contains((x, y)) by {
            if t.contains((x, y)) {
                let i = choose|i: int| 0 <= i < t.len() && t[i] == (x, y);
                assert(u[i] == (x, y));
            }
            if o.contains((x, y)) {
                let i = choose|i: int| 0 <= i < o.len() && o[i] == (x, y);
                assert(u[t.len() + i] == (x, y));
            }
            if u.contains((x, y)) {
                let i = choose|i: int| 0 <= i < u.len() && u[i] == (x, y);
                if i < t.len() {
                    assert(t[i] == (x, y));
                } else {
                    assert(o[i - t.len()] == (x, y));
                }
            }
        }
        assert forall|i: int, j: int| 0 <= i < j < u.len() implies u[i] != u[j] by {
            if j >= t.len() && i < t.len() {
                let (p, q) = (t[i], o[j - t.len()]);
                assert(t.contains((p.0, p.1)));
                assert(o.contains((q.0, q.1)));
            }
        }
    }
}

/// The transactions that go back to the mempool after a change of chains are
/// those of the old chain that no block of the new chain holds, the coinbases
/// left out: each of them, once, and no other. So nothing that the new chain
/// confirms goes back, and nothing that it leaves out is lost.
pub proof fn law_abandoned_transactions_go_back(v: PipelineView, b: usize, t: usize)
    requires
        v.old_chain.len() <= usize::MAX,
        b < v.old_chain.len(),
        t < v.old_chain[b as int].transactions@.len(),
    ensures
        ({
            let back = orphans(v, v.old_chain.len() as int);
            let tx = v.old_chain[b as int].transactions@[t as int];
            let in_new = (exists|j: int|
                0 <= j < v.block.transactions@.len() && (#[trigger] v.block.transactions@[j]).tx_id
                    == tx.tx_id) || (exists|a: int, j: int|
                0 <= a < v.ancestors.len() && 0 <= j < v.ancestors[a].transactions@.len() && (
                #[trigger] v.ancestors[a].transactions@[j]).tx_id == tx.tx_id);
            &&& back.contains((b, t)) <==> !tx.is_coinbase && !in_new
            &&& back.no_duplicates()
        }),
{
    lemma_orphans(v, v.old_chain.len() as int);
}

/// Only transactions of the old chain go back.
pub proof fn law_only_old_transactions_go_back(v: PipelineView, i: int)
    requires
        v.old_chain.len() <= usize::MAX,
        0 <= i < orphans(v, v.old_chain.len() as int).len(),
    ensures
        ({
            let (b, t) = orphans(v, v.old_chain.len() as int)[i];
            b < v.old_chain.len() && t < v.old_chain[b as int].transactions@.len()
        }),
{
    lemma_orphans(v, v.old_chain.len() as int);
    let u = orphans(v, v.old_chain.len() as int);
    assert(u.contains((u[i].0, u[i].1)));
}

/// The work of a block of the new chain is that of the common ancestor with the
/// work of each block up to it on top: each block adds its own to that of the one
/// before.
pub proof fn law_new_chain_adds_up_its_work(v: PipelineView, fork_point_work: nat, i: int)
    requires
        0 <= i < v.new_len(),
    ensures
        i == 0 ==> promoted_work(v, fork_point_work, i) == work_sum(
            fork_point_work,
            target_work(be_nat(v.new_block(0).header.difficulty_target.0@)),
        ),
        i > 0 ==> promoted_work(v, fork_point_work, i) == work_sum(
            promoted_work(v, fork_point_work, i - 1),
            target_work(be_nat(v.new_block(i).header.difficulty_target.0@)),
        ),
        i < v.ancestors.len() ==> v.new_block(i) == v.ancestors[v.ancestors.len() - 1 - i],
        i == v.ancestors.len() ==> v.new_block(i) == v.block,
{
}

/// What is wrong with a block of the new chain is held against it only if it is
/// its own fault: an invalid header or invalid transactions. A missing ancestor
/// is named. What our own side could not do, or may have corrupted, is fatal.
pub proof fn law_faults_of_the_new_chain(height: u64, r: NewBlockReply)
    ensures
        r is HeaderInvalid || r is TxInvalid ==> new_block_fault(height, r) is Recoverable,
        r matches NewBlockReply::AncestorNotFound(id) ==> new_block_fault(height, r)
            == FaultView::MissingReorgAncestor(id),
        r is ParentMissing || r is ParentError || r is TimestampsError || r is DifficultyError
            || r is StateCorrupted ==> new_block_fault(height, r) is Fatal,
{
}

/// A block with a better chain that does not stand on the tip makes the two chains
/// be followed down: from the tip under the lock, and from the parent of the
/// block.
pub proof fn law_change_of_chains_starts_at_both_ends(v: PipelineView, t: ChainTip, w: PipelineView)
    requires
        pipeline_inv(v),
        v.stage == Stage::LockState,
        w == next_choice(v, v.new_tip, Event::Tip(t)),
        better_chain(v.new_tip, t),
        v.block.header.prev_block_id != t.block_id,
    ensures
        w.tip == t,
        w.old_id == t.block_id,
        w.new_id == v.block.header.prev_block_id,
        w.old_height == t.height,
        w.new_height == v.block.header.height - 1,
        w.old_chain.len() == 0 && w.ancestors.len() == 0,
        w.old_height > w.new_height ==> asks(w) == Action::GetBlock(t.block_id),
        w.old_height < w.new_height ==> asks(w) == Action::GetBlock(v.block.header.prev_block_id),
        w.old_height == w.new_height ==> asks(w) == Action::GetBlock(t.block_id),
{
}

/// Where the walks meet, the old chain is undone from its newest block on; where
/// there is nothing to undo, the new chain is applied from its oldest block on.
pub proof fn law_meeting_walks_begin_the_change(v: PipelineView, ev: Event)
    requires
        pipeline_inv(v),
        is_walk(v.stage),
        next_walk(v, ev).result is None,
        !is_walk(next_walk(v, ev).stage),
    ensures
        next_walk(v, ev).old_chain.len() > 0 ==> asks(next_walk(v, ev)) == Action::UndoOldBlock(0),
        next_walk(v, ev).old_chain.len() == 0 ==> asks(next_walk(v, ev)) == Action::ApplyNewBlock(
            0,
        ),
        next_walk(v, ev).old_height == next_walk(v, ev).new_height,
{
}

} // verus!
