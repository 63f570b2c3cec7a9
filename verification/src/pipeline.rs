//! Taking in a block, one step at a time.
//!
//! A `BlockPipeline` decides what becomes of a block. It asks for one thing after
//! another (`action`): a lookup in storage, a check, a change of the unspent
//! outputs. It is told how that went (`step`). It holds no locks and does no
//! input or output of its own.
use crate::chain::{better_chain, chain_work, is_better_chain, Block, ChainTip, Checkpoint};
use crate::errors::{FaultView, ProcessBlockError, ProcessBlockOutcome};
use crate::hash::{same_bytes, Hash256};
use crate::hexcodec::{hex_encode, hex_text};
use crate::text::{cat2, cat3, cat_num, decimal, push_decimal};
use crate::work::{be_nat, lemma_be_nat_injective, target_work, work_sum};
use vstd::prelude::*;
use vstd::string::*;

verus! {

/// What a pipeline is waiting for.
#[derive(Clone, Copy, Debug, PartialEq, Eq, Structural)]
pub enum Stage {
    /// Whether the block is already in storage.
    Known,
    /// Whether the parent's header is in storage.
    ParentHeader,
    /// The timestamps of the ancestors.
    Timestamps,
    /// The difficulty that the block has to meet.
    Difficulty,
    /// The verdict on the header.
    HeaderCheck,
    /// That the block has been put aside for later.
    BufferFuture,
    /// The parent's work, to check the checkpoint's.
    CheckpointWork,
    /// The parent's work.
    ParentWork,
    /// The tip, read without a lock.
    ReadTip,
    /// The transaction root of a block that stays on a fork.
    ForkTxRoot,
    /// The verdict on the structure of a block that stays on a fork.
    ForkStructure,
    /// That a block has been stored on its fork.
    ForkStore,
    /// The lock on the state, and the tip under it.
    LockState,
    /// That a block on top of the tip has been applied.
    ExtendApply,
    /// The state root after it.
    ExtendRoot,
    /// That it has been undone for its state root.
    ExtendUndoRoot,
    /// That it has been committed.
    ExtendCommit,
    /// That it has been undone because it was not committed.
    ExtendUndoCommit,
    /// A block of the old chain, above the height of the new one.
    WalkOld,
    /// A block of the new chain, above the height of the old one.
    WalkNew,
    /// A block of the old chain, at the height of one of the new chain.
    WalkPairOld,
    /// A block of the new chain, at the height of one of the old chain.
    WalkPairNew,
    /// That the next block of the old chain has been undone.
    UndoOld,
    /// That the old chain has been applied again after a broken undo.
    RedoBroken,
    /// That the old chain has been applied again for want of metadata.
    RedoUndone,
    /// That the next block of the new chain has been applied.
    ApplyNew,
    /// That a block of the new chain has been undone for its state root.
    UndoMismatch,
    /// That the applied part of the new chain has been undone.
    UndoNew,
    /// That the old chain has been applied again.
    RedoOld,
    /// The work at the common ancestor.
    ForkPointWork,
    /// That the reorganisation has been committed.
    CommitReorg,
    /// That the old chain has been moved to fork storage.
    DemoteOld,
    /// That the tip has been moved.
    UpdateTip,
    /// That the mempool has been brought up to date.
    Mempool,
    /// Nothing: the outcome is there.
    Finished,
}

/// What a pipeline asks for.
#[derive(Clone, Copy, Debug)]
pub enum Action {
    HasBlock(Hash256),
    GetHeader(Hash256),
    GetAncestorTimestamps(Hash256),
    ExpectedDifficulty(Hash256, u64),
    ValidateHeader { skip_pow: bool },
    BufferFutureBlock,
    GetWork(Hash256),
    ReadTip,
    ComputeTxRoot,
    ValidateStructure,
    StoreForkBlock { work: [u8; 32] },
    LockStateAndReadTip,
    ApplyBlock,
    ComputeStateRoot,
    UndoBlock,
    CommitBlock { work: [u8; 32] },
    GetBlock(Hash256),
    UndoOldBlock(usize),
    RedoOldBlocks { count: usize },
    ApplyNewBlock(usize),
    UndoNewBlock(usize),
    /// Some of the oldest ancestors, and the block itself if it was applied.
    UndoNewBlocks { ancestors: usize, block: bool },
    CommitReorg { work: [u8; 32], fork_point_work: [u8; 32] },
    DemoteOldBlocks,
    SetTip(ChainTip),
    RefreshMempool,
    Nothing,
}

/// The answer to a difficulty computation.
#[derive(Debug)]
pub enum DifficultyReply {
    Known,
    AncestorNotFound(Hash256),
    Failed(String),
}

/// The verdict on a header.
#[derive(Debug)]
pub enum HeaderReply {
    Valid,
    TimestampTooFarAhead,
    Invalid(String),
}

/// How applying the block went.
#[derive(Debug)]
pub enum ApplyReply {
    Applied,
    StateCorrupted(String),
    Invalid(String),
}

/// How undoing a block of the old chain went.
#[derive(Debug)]
pub enum UndoReply {
    Undone,
    MissingMetadata,
    MetadataError(String),
    Broken(String),
}

/// How applying a block of the new chain went.
#[derive(Debug)]
pub enum NewBlockReply {
    Applied { state_root: Hash256 },
    ParentMissing,
    ParentError(String),
    TimestampsError(String),
    AncestorNotFound(Hash256),
    DifficultyError(String),
    HeaderInvalid(String),
    StateCorrupted(String),
    TxInvalid(String),
}

/// What a pipeline is told.
#[derive(Debug)]
pub enum Event {
    Known(Result<bool, String>),
    Found(Result<bool, String>),
    Checked(Result<(), String>),
    Difficulty(DifficultyReply),
    HeaderChecked(HeaderReply),
    Work(Result<Option<[u8; 32]>, String>),
    Tip(ChainTip),
    Root(Result<Hash256, String>),
    Applied(ApplyReply),
    StateRoot(Hash256),
    Fetched(Result<Option<Block>, String>),
    Undone(UndoReply),
    NewBlock(NewBlockReply),
    Done,
}

/// What a `BlockPipeline` holds.
pub ghost struct PipelineView {
    pub block: Block,
    pub skip_pow: bool,
    pub assume_valid: bool,
    pub checkpoint: Checkpoint,
    pub stage: Stage,
    /// Whether the block was found to be the checkpoint.
    pub checkpoint_verified: bool,
    /// Whether the checkpoint's work was found to be wrong.
    pub work_distrusted: bool,
    /// The tip that the block makes.
    pub new_tip: ChainTip,
    /// The tip under the lock.
    pub tip: ChainTip,
    /// The old chain above the common ancestor, newest first.
    pub old_chain: Seq<Block>,
    /// The ancestors of the block above the common ancestor, newest first.
    pub ancestors: Seq<Block>,
    pub old_id: Hash256,
    pub new_id: Hash256,
    pub old_height: u64,
    pub new_height: u64,
    /// Whether the block has been applied on top of the tip.
    pub extended: bool,
    /// How many blocks of the old chain are undone.
    pub undone: nat,
    /// How many blocks of the new chain are applied.
    pub applied: nat,
    pub fork_point_work: [u8; 32],
    /// Why a reorganisation is being rolled back.
    pub fault: Option<FaultView>,
    /// How a failed rollback names the reason.
    pub reason: Seq<char>,
    pub result: Option<Result<ProcessBlockOutcome, FaultView>>,
}

impl PipelineView {
    /// How many blocks the new chain has, the block itself among them.
    pub open spec fn new_len(self) -> nat {
        self.ancestors.len() + 1
    }

    /// The `i`-th block of the new chain, oldest first.
    pub open spec fn new_block(self, i: int) -> Block {
        if i < self.ancestors.len() {
            self.ancestors[self.ancestors.len() - 1 - i]
        } else {
            self.block
        }
    }
}

// ---------------------------------------------------------------------------
// Transitions
// ---------------------------------------------------------------------------
pub open spec fn at(v: PipelineView, stage: Stage) -> PipelineView {
    PipelineView { stage, ..v }
}

pub open spec fn finish(
    v: PipelineView,
    r: Result<ProcessBlockOutcome, FaultView>,
) -> PipelineView {
    PipelineView { stage: Stage::Finished, result: Some(r), ..v }
}

pub open spec fn reject(v: PipelineView, text: Seq<char>) -> PipelineView {
    finish(v, Err(FaultView::Recoverable(text)))
}

pub open spec fn halt(v: PipelineView, text: Seq<char>) -> PipelineView {
    finish(v, Err(FaultView::Fatal(text)))
}

/// The checks that need no state: storage, parent, difficulty, header.
pub open spec fn next_check(v: PipelineView, ev: Event) -> PipelineView {
    let h = v.block.header;
    match (v.stage, ev) {
        (Stage::Known, Event::Known(r)) => match r {
            Err(e) => reject(v, e@),
            Ok(true) => finish(v, Ok(ProcessBlockOutcome::Stored)),
            Ok(false) => if h.height == 0 {
                reject(v, "height-0 blocks are not accepted via process_block"@)
            } else {
                at(v, Stage::ParentHeader)
            },
        },
        (Stage::ParentHeader, Event::Found(r)) => match r {
            Err(e) => reject(v, e@),
            Ok(false) => reject(v, "parent block not found"@),
            Ok(true) => at(v, Stage::Timestamps),
        },
        (Stage::Timestamps, Event::Checked(r)) => match r {
            Err(e) => reject(v, e@),
            Ok(_) => at(v, Stage::Difficulty),
        },
        (Stage::Difficulty, Event::Difficulty(r)) => match r {
            DifficultyReply::Known => at(v, Stage::HeaderCheck),
            DifficultyReply::AncestorNotFound(id) => finish(
                v,
                Err(FaultView::MissingReorgAncestor(id)),
            ),
            DifficultyReply::Failed(e) => reject(v, e@),
        },
        (Stage::HeaderCheck, Event::HeaderChecked(r)) => match r {
            HeaderReply::TimestampTooFarAhead => at(v, Stage::BufferFuture),
            HeaderReply::Invalid(e) => reject(v, "block header validation failed: "@ + e@),
            HeaderReply::Valid => if v.assume_valid && h.height == v.checkpoint.height {
                if h.id == v.checkpoint.hash {
                    PipelineView { stage: Stage::CheckpointWork, checkpoint_verified: true, ..v }
                } else {
                    reject(
                        v,
                        "assume-valid checkpoint FAILED at height "@ + decimal(
                            v.checkpoint.height as nat,
                        ) + ": expected "@ + hex_text(v.checkpoint.hash.0@) + ", got "@
                            + hex_text(h.id.0@),
                    )
                }
            } else {
                at(v, Stage::ParentWork)
            },
        },
        (Stage::BufferFuture, Event::Done) => finish(v, Ok(ProcessBlockOutcome::BufferedFuture)),
        (Stage::CheckpointWork, Event::Work(r)) => match r {
            Ok(Some(w)) => PipelineView {
                stage: Stage::ParentWork,
                work_distrusted: v.work_distrusted || work_sum(
                    be_nat(w@),
                    target_work(be_nat(h.difficulty_target.0@)),
                ) != be_nat(v.checkpoint.cumulative_work@),
                ..v
            },
            _ => at(v, Stage::ParentWork),
        },
        _ => v,
    }
}

/// Fork choice, and what becomes of a block that is not on the best chain.
pub open spec fn next_choice(v: PipelineView, new_tip: ChainTip, ev: Event) -> PipelineView {
    let h = v.block.header;
    match (v.stage, ev) {
        (Stage::ParentWork, Event::Work(r)) => match r {
            Err(e) => reject(v, e@),
            Ok(None) => reject(v, "parent cumulative work not found"@),
            Ok(Some(_)) => PipelineView { stage: Stage::ReadTip, new_tip, ..v },
        },
        (Stage::ReadTip, Event::Tip(t)) => if better_chain(v.new_tip, t) {
            at(v, Stage::LockState)
        } else {
            at(v, Stage::ForkTxRoot)
        },
        (Stage::ForkTxRoot, Event::Root(r)) => match r {
            Err(e) => reject(v, "fork block tx_root computation failed: "@ + e@),
            Ok(root) => if h.tx_root == root {
                at(v, Stage::ForkStructure)
            } else {
                reject(v, "fork block tx_root mismatch"@)
            },
        },
        (Stage::ForkStructure, Event::Checked(r)) => match r {
            Err(e) => reject(v, "fork block structure invalid: "@ + e@),
            Ok(_) => at(v, Stage::ForkStore),
        },
        (Stage::ForkStore, Event::Checked(r)) => match r {
            Err(e) => reject(v, e@),
            Ok(_) => finish(v, Ok(ProcessBlockOutcome::Stored)),
        },
        (Stage::LockState, Event::Tip(t)) => if !better_chain(v.new_tip, t) {
            at(v, Stage::ForkTxRoot)
        } else if h.prev_block_id == t.block_id {
            PipelineView { stage: Stage::ExtendApply, tip: t, ..v }
        } else {
            walk(
                PipelineView {
                    tip: t,
                    old_id: t.block_id,
                    new_id: h.prev_block_id,
                    old_height: t.height,
                    new_height: (h.height - 1) as u64,
                    ..v
                },
            )
        },
        _ => v,
    }
}

/// A block on top of the tip.
pub open spec fn next_extend(v: PipelineView, ev: Event) -> PipelineView {
    match (v.stage, ev) {
        (Stage::ExtendApply, Event::Applied(r)) => match r {
            ApplyReply::Applied => PipelineView { stage: Stage::ExtendRoot, extended: true, ..v },
            ApplyReply::StateCorrupted(e) => halt(v, "block tx apply corrupted state: "@ + e@),
            ApplyReply::Invalid(e) => reject(v, "block tx validation failed: "@ + e@),
        },
        (Stage::ExtendRoot, Event::StateRoot(root)) => if v.block.header.state_root == root {
            at(v, Stage::ExtendCommit)
        } else {
            at(v, Stage::ExtendUndoRoot)
        },
        (Stage::ExtendUndoRoot, Event::Checked(r)) => match r {
            Err(e) => halt(v, "state root mismatch rollback failed: "@ + e@),
            Ok(_) => reject(PipelineView { extended: false, ..v }, "state root mismatch"@),
        },
        (Stage::ExtendCommit, Event::Checked(r)) => match r {
            Err(e) => PipelineView { stage: Stage::ExtendUndoCommit, reason: e@, ..v },
            Ok(_) => at(v, Stage::UpdateTip),
        },
        (Stage::ExtendUndoCommit, Event::Checked(r)) => match r {
            Err(e) => halt(v, "storage failed: "@ + v.reason + ": rollback also failed: "@ + e@),
            Ok(_) => reject(PipelineView { extended: false, ..v }, v.reason),
        },
        _ => v,
    }
}

/// Where the walk to the common ancestor goes on.
pub open spec fn walk(v: PipelineView) -> PipelineView {
    if v.old_height > v.new_height {
        at(v, Stage::WalkOld)
    } else if v.new_height > v.old_height {
        at(v, Stage::WalkNew)
    } else if v.old_id != v.new_id {
        at(v, Stage::WalkPairOld)
    } else {
        undo(v)
    }
}

/// Where undoing the old chain goes on.
pub open spec fn undo(v: PipelineView) -> PipelineView {
    if v.undone < v.old_chain.len() {
        at(v, Stage::UndoOld)
    } else {
        at(v, Stage::ApplyNew)
    }
}

/// The walk from the two tips to the common ancestor.
pub open spec fn next_walk(v: PipelineView, ev: Event) -> PipelineView {
    match (v.stage, ev) {
        (Stage::WalkOld, Event::Fetched(r)) => match r {
            Err(e) => reject(v, e@),
            Ok(None) => halt(
                v,
                "canonical block "@ + hex_text(v.old_id.0@)
                    + " missing during reorg (old chain)"@,
            ),
            Ok(Some(b)) => walk(
                PipelineView {
                    old_id: b.header.prev_block_id,
                    old_chain: v.old_chain.push(b),
                    old_height: (v.old_height - 1) as u64,
                    ..v
                },
            ),
        },
        (Stage::WalkNew, Event::Fetched(r)) => match r {
            Err(e) => reject(v, e@),
            Ok(None) => finish(v, Err(FaultView::MissingReorgAncestor(v.new_id))),
            Ok(Some(b)) => walk(
                PipelineView {
                    new_id: b.header.prev_block_id,
                    ancestors: v.ancestors.push(b),
                    new_height: (v.new_height - 1) as u64,
                    ..v
                },
            ),
        },
        (Stage::WalkPairOld, Event::Fetched(r)) => match r {
            Err(e) => reject(v, e@),
            Ok(None) => halt(
                v,
                "canonical block "@ + hex_text(v.old_id.0@) + " missing during reorg (old walk)"@,
            ),
            Ok(Some(b)) => PipelineView {
                stage: Stage::WalkPairNew,
                old_id: b.header.prev_block_id,
                old_chain: v.old_chain.push(b),
                ..v
            },
        },
        (Stage::WalkPairNew, Event::Fetched(r)) => match r {
            Err(e) => reject(v, e@),
            Ok(None) => finish(v, Err(FaultView::MissingReorgAncestor(v.new_id))),
            Ok(Some(b)) => walk(
                PipelineView {
                    new_id: b.header.prev_block_id,
                    ancestors: v.ancestors.push(b),
                    ..v
                },
            ),
        },
        _ => v,
    }
}

/// The start of a rollback.
pub open spec fn roll_back(v: PipelineView, fault: FaultView, reason: Seq<char>) -> PipelineView {
    PipelineView { stage: Stage::UndoNew, fault: Some(fault), reason, ..v }
}

/// The start of a rollback that a failed rollback names by its message.
pub open spec fn abort_reorg(v: PipelineView, fault: FaultView) -> PipelineView {
    roll_back(v, fault, fault.text())
}

/// What the reply to a block of the new chain says is wrong with it.
pub open spec fn new_block_fault(height: u64, r: NewBlockReply) -> FaultView {
    let n = decimal(height as nat);
    match r {
        NewBlockReply::ParentMissing => FaultView::Fatal(
            "reorg: parent header missing for block at height "@ + n + ""@,
        ),
        NewBlockReply::ParentError(e) => FaultView::Fatal(
            "reorg: storage error reading parent header: "@ + e@,
        ),
        NewBlockReply::TimestampsError(e) => FaultView::Fatal(
            "reorg: ancestor timestamps error: "@ + e@,
        ),
        NewBlockReply::AncestorNotFound(id) => FaultView::MissingReorgAncestor(id),
        NewBlockReply::DifficultyError(e) => FaultView::Fatal(
            "reorg: difficulty computation error: "@ + e@,
        ),
        NewBlockReply::HeaderInvalid(e) => FaultView::Recoverable(
            "reorg: header re-validation failed at height "@ + n + ": "@ + e@,
        ),
        NewBlockReply::StateCorrupted(e) => FaultView::Fatal(
            "reorg block apply corrupted state: "@ + e@,
        ),
        NewBlockReply::TxInvalid(e) => FaultView::Recoverable(
            "reorg block tx validation failed: "@ + e@,
        ),
        NewBlockReply::Applied { .. } => FaultView::Recoverable(
            "state root mismatch during reorg at height "@ + n + ""@,
        ),
    }
}

/// The change from the old chain to the new one.
pub open spec fn next_reorg(v: PipelineView, ev: Event) -> PipelineView {
    match (v.stage, ev) {
        (Stage::UndoOld, Event::Undone(r)) => {
            let b = v.old_chain[v.undone as int];
            match r {
                UndoReply::Undone => undo(PipelineView { undone: v.undone + 1, ..v }),
                UndoReply::MissingMetadata => PipelineView {
                    stage: Stage::RedoUndone,
                    reason: "missing spent-UTXO metadata for block "@ + hex_text(b.header.id.0@)
                        + " at height "@ + decimal(b.header.height as nat) + " during reorg undo"@,
                    ..v
                },
                UndoReply::MetadataError(e) => PipelineView {
                    stage: Stage::RedoUndone,
                    reason: e@,
                    ..v
                },
                UndoReply::Broken(e) => PipelineView {
                    stage: Stage::RedoBroken,
                    reason: e@,
                    ..v
                },
            }
        },
        (Stage::RedoBroken, Event::Checked(_)) => halt(
            v,
            "reorg undo_transaction failed: "@ + v.reason,
        ),
        (Stage::RedoUndone, Event::Checked(r)) => match r {
            Err(e) => halt(v, v.reason + ": redo also failed: "@ + e@),
            Ok(_) => halt(PipelineView { undone: 0, ..v }, v.reason),
        },
        (Stage::ApplyNew, Event::NewBlock(r)) => {
            let b = v.new_block(v.applied as int);
            match r {
                NewBlockReply::Applied { state_root } => if b.header.state_root != state_root {
                    at(v, Stage::UndoMismatch)
                } else if v.applied + 1 < v.new_len() {
                    PipelineView { applied: v.applied + 1, ..v }
                } else {
                    PipelineView { stage: Stage::ForkPointWork, applied: v.applied + 1, ..v }
                },
                _ => abort_reorg(v, new_block_fault(b.header.height, r)),
            }
        },
        (Stage::UndoMismatch, Event::Checked(r)) => {
            let n = decimal(v.new_block(v.applied as int).header.height as nat);
            match r {
                Err(e) => abort_reorg(
                    v,
                    FaultView::Fatal(
                        "state root mismatch at height "@ + n + ": rollback failed: "@ + e@,
                    ),
                ),
                Ok(_) => abort_reorg(
                    v,
                    FaultView::Recoverable(
                        "state root mismatch during reorg at height "@ + n + ""@,
                    ),
                ),
            }
        },
        (Stage::UndoNew, Event::Checked(r)) => match r {
            Err(e) => halt(v, v.reason + ": new-chain undo failed: "@ + e@),
            Ok(_) => PipelineView { stage: Stage::RedoOld, applied: 0, ..v },
        },
        (Stage::RedoOld, Event::Checked(r)) => match r {
            Err(e) => halt(v, v.reason + ": old-chain redo failed: "@ + e@),
            Ok(_) => finish(PipelineView { undone: 0, fault: None, ..v }, Err(v.fault->0)),
        },
        (Stage::ForkPointWork, Event::Work(r)) => match r {
            Err(e) => abort_reorg(v, FaultView::Recoverable(e@)),
            Ok(None) => halt(
                v,
                "fork point "@ + hex_text(v.old_id.0@) + " cumulative work missing during reorg"@,
            ),
            Ok(Some(w)) => PipelineView { stage: Stage::CommitReorg, fork_point_work: w, ..v },
        },
        (Stage::CommitReorg, Event::Checked(r)) => match r {
            Err(e) => roll_back(v, FaultView::Recoverable(e@), "storage failed: "@ + e@),
            Ok(_) => at(v, Stage::DemoteOld),
        },
        (Stage::DemoteOld, Event::Done) => at(v, Stage::UpdateTip),
        (Stage::UpdateTip, Event::Done) => at(v, Stage::Mempool),
        (Stage::Mempool, Event::Done) => finish(v, Ok(ProcessBlockOutcome::Accepted)),
        _ => v,
    }
}

/// The tip that the block makes on top of a parent with the given work.
pub open spec fn makes_tip(v: PipelineView, parent_work: [u8; 32], t: ChainTip) -> bool {
    &&& t.block_id == v.block.header.id
    &&& t.height == v.block.header.height
    &&& be_nat(t.cumulative_work@) == work_sum(
        be_nat(parent_work@),
        target_work(be_nat(v.block.header.difficulty_target.0@)),
    )
}

/// The stages of the checks that need no state.
pub open spec fn is_check(stage: Stage) -> bool {
    match stage {
        Stage::Known | Stage::ParentHeader | Stage::Timestamps | Stage::Difficulty
        | Stage::HeaderCheck | Stage::BufferFuture | Stage::CheckpointWork => true,
        _ => false,
    }
}

/// The stages of fork choice.
pub open spec fn is_choice(stage: Stage) -> bool {
    match stage {
        Stage::ParentWork | Stage::ReadTip | Stage::ForkTxRoot | Stage::ForkStructure
        | Stage::ForkStore | Stage::LockState => true,
        _ => false,
    }
}

/// The stages of a block on top of the tip.
pub open spec fn is_extend(stage: Stage) -> bool {
    match stage {
        Stage::ExtendApply | Stage::ExtendRoot | Stage::ExtendUndoRoot | Stage::ExtendCommit
        | Stage::ExtendUndoCommit => true,
        _ => false,
    }
}

/// The stages of the walk to the common ancestor.
pub open spec fn is_walk(stage: Stage) -> bool {
    match stage {
        Stage::WalkOld | Stage::WalkNew | Stage::WalkPairOld | Stage::WalkPairNew => true,
        _ => false,
    }
}

/// The stages of the change of chains, and of what follows any change.
pub open spec fn is_reorg(stage: Stage) -> bool {
    !is_check(stage) && !is_choice(stage) && !is_extend(stage) && !is_walk(stage) && stage
        != Stage::Finished
}

/// A step of fork choice.
pub open spec fn chooses(v: PipelineView, ev: Event, w: PipelineView) -> bool {
    &&& w == next_choice(v, w.new_tip, ev)
    &&& if v.stage == Stage::ParentWork && ev is Work && ev->Work_0 matches Ok(Some(_)) {
        makes_tip(v, ev->Work_0->Ok_0->0, w.new_tip)
    } else {
        w.new_tip == v.new_tip
    }
}

/// One step of a pipeline. An event that does not answer what it waits for
/// changes nothing.
pub open spec fn steps_to(v: PipelineView, ev: Event, w: PipelineView) -> bool {
    if is_check(v.stage) {
        w == next_check(v, ev)
    } else if is_choice(v.stage) {
        chooses(v, ev, w)
    } else if is_extend(v.stage) {
        w == next_extend(v, ev)
    } else if is_walk(v.stage) {
        w == next_walk(v, ev)
    } else if is_reorg(v.stage) {
        w == next_reorg(v, ev)
    } else {
        w == v
    }
}

/// What a pipeline asks for at each stage.
pub open spec fn asks(v: PipelineView) -> Action {
    let h = v.block.header;
    match v.stage {
        Stage::Known => Action::HasBlock(h.id),
        Stage::ParentHeader => Action::GetHeader(h.prev_block_id),
        Stage::Timestamps => Action::GetAncestorTimestamps(h.prev_block_id),
        Stage::Difficulty => Action::ExpectedDifficulty(h.prev_block_id, h.height),
        Stage::HeaderCheck => Action::ValidateHeader { skip_pow: v.skip_pow },
        Stage::BufferFuture => Action::BufferFutureBlock,
        Stage::CheckpointWork | Stage::ParentWork => Action::GetWork(h.prev_block_id),
        Stage::ReadTip => Action::ReadTip,
        Stage::ForkTxRoot => Action::ComputeTxRoot,
        Stage::ForkStructure => Action::ValidateStructure,
        Stage::ForkStore => Action::StoreForkBlock { work: v.new_tip.cumulative_work },
        Stage::LockState => Action::LockStateAndReadTip,
        Stage::ExtendApply => Action::ApplyBlock,
        Stage::ExtendRoot => Action::ComputeStateRoot,
        Stage::ExtendUndoRoot | Stage::ExtendUndoCommit => Action::UndoBlock,
        Stage::ExtendCommit => Action::CommitBlock { work: v.new_tip.cumulative_work },
        Stage::WalkOld | Stage::WalkPairOld => Action::GetBlock(v.old_id),
        Stage::WalkNew | Stage::WalkPairNew => Action::GetBlock(v.new_id),
        Stage::UndoOld => Action::UndoOldBlock(v.undone as usize),
        Stage::RedoBroken | Stage::RedoUndone => Action::RedoOldBlocks {
            count: v.undone as usize,
        },
        Stage::RedoOld => Action::RedoOldBlocks { count: v.old_chain.len() as usize },
        Stage::ApplyNew => Action::ApplyNewBlock(v.applied as usize),
        Stage::UndoMismatch => Action::UndoNewBlock(v.applied as usize),
        Stage::UndoNew => if v.applied == v.new_len() {
            Action::UndoNewBlocks { ancestors: v.ancestors.len() as usize, block: true }
        } else {
            Action::UndoNewBlocks { ancestors: v.applied as usize, block: false }
        },
        Stage::ForkPointWork => Action::GetWork(v.old_id),
        Stage::CommitReorg => Action::CommitReorg {
            work: v.new_tip.cumulative_work,
            fork_point_work: v.fork_point_work,
        },
        Stage::DemoteOld => Action::DemoteOldBlocks,
        Stage::UpdateTip => Action::SetTip(v.new_tip),
        Stage::Mempool => Action::RefreshMempool,
        Stage::Finished => Action::Nothing,
    }
}

// ---------------------------------------------------------------------------
// Invariant
// ---------------------------------------------------------------------------
/// Nothing of the state is changed.
pub open spec fn untouched(v: PipelineView) -> bool {
    !v.extended && v.undone == 0 && v.applied == 0
}

/// The whole change is made.
pub open spec fn completed(v: PipelineView) -> bool {
    &&& better_chain(v.new_tip, v.tip)
    &&& if v.extended {
        v.undone == 0 && v.applied == 0 && v.block.header.prev_block_id == v.tip.block_id
    } else {
        v.undone == v.old_chain.len() && v.applied == v.new_len() && met(v)
    }
}

/// Each block that a walk collected is the parent of the one before, and the two
/// walks keep level.
pub open spec fn walk_inv(v: PipelineView) -> bool {
    &&& v.block.header.height > 0
    &&& better_chain(v.new_tip, v.tip)
    &&& v.old_id == (if v.old_chain.len() == 0 {
        v.tip.block_id
    } else {
        v.old_chain.last().header.prev_block_id
    })
    &&& v.new_id == (if v.ancestors.len() == 0 {
        v.block.header.prev_block_id
    } else {
        v.ancestors.last().header.prev_block_id
    })
    &&& v.old_height <= v.tip.height
    &&& v.new_height <= v.block.header.height - 1
    &&& v.old_height - v.tip.height + v.old_chain.len() + (if v.stage == Stage::WalkPairNew {
        0int
    } else {
        1
    }) == v.new_height - v.block.header.height + 1 + v.ancestors.len() + 1
}

/// The two walks have met.
pub open spec fn met(v: PipelineView) -> bool {
    &&& walk_inv(v)
    &&& v.old_id == v.new_id
    &&& v.old_height == v.new_height
    &&& v.tip.height - v.old_chain.len() == v.block.header.height - v.new_len()
}

/// What holds at every stage.
pub open spec fn pipeline_inv(v: PipelineView) -> bool {
    &&& (v.result is Some) == (v.stage == Stage::Finished)
    &&& match v.stage {
        Stage::Known => untouched(v) && v.old_chain.len() == 0 && v.ancestors.len() == 0,
        Stage::ParentHeader | Stage::Timestamps | Stage::Difficulty | Stage::HeaderCheck
        | Stage::BufferFuture | Stage::CheckpointWork | Stage::ParentWork | Stage::ReadTip
        | Stage::ForkTxRoot | Stage::ForkStructure | Stage::ForkStore | Stage::LockState => {
            untouched(v) && v.block.header.height > 0 && v.old_chain.len() == 0
                && v.ancestors.len() == 0
        },
        Stage::ExtendApply => untouched(v) && v.block.header.prev_block_id == v.tip.block_id
            && better_chain(v.new_tip, v.tip),
        Stage::ExtendRoot | Stage::ExtendUndoRoot | Stage::ExtendCommit
        | Stage::ExtendUndoCommit => {
            v.extended && v.undone == 0 && v.applied == 0 && v.block.header.prev_block_id
                == v.tip.block_id && better_chain(v.new_tip, v.tip)
        },
        Stage::WalkOld => untouched(v) && walk_inv(v) && v.old_height > v.new_height,
        Stage::WalkNew => untouched(v) && walk_inv(v) && v.new_height > v.old_height,
        Stage::WalkPairOld | Stage::WalkPairNew => untouched(v) && walk_inv(v) && v.old_height
            == v.new_height,
        Stage::UndoOld => !v.extended && v.applied == 0 && v.undone < v.old_chain.len() && met(v),
        Stage::RedoBroken | Stage::RedoUndone => !v.extended && v.applied == 0 && v.undone
            < v.old_chain.len() && met(v),
        Stage::ApplyNew | Stage::UndoMismatch => !v.extended && v.undone == v.old_chain.len()
            && v.applied < v.new_len() && met(v),
        Stage::UndoNew => !v.extended && v.undone == v.old_chain.len() && v.applied <= v.new_len()
            && v.fault is Some && met(v),
        Stage::RedoOld => !v.extended && v.undone == v.old_chain.len() && v.applied == 0
            && v.fault is Some && met(v),
        Stage::ForkPointWork | Stage::CommitReorg | Stage::DemoteOld => !v.extended && v.undone
            == v.old_chain.len() && v.applied == v.new_len() && met(v),
        Stage::UpdateTip | Stage::Mempool => completed(v),
        Stage::Finished => match v.result {
            Some(Ok(ProcessBlockOutcome::Accepted)) => completed(v),
            Some(Ok(_)) => untouched(v),
            Some(Err(FaultView::Fatal(_))) => true,
            Some(Err(_)) => untouched(v),
            None => false,
        },
    }
}

proof fn lemma_check_inv(v: PipelineView, ev: Event)
    requires
        pipeline_inv(v),
        is_check(v.stage),
    ensures
        pipeline_inv(next_check(v, ev)),
        next_check(v, ev).ancestors == v.ancestors,
        next_check(v, ev).applied == v.applied,
{
}

proof fn lemma_choice_inv(v: PipelineView, new_tip: ChainTip, ev: Event)
    requires
        pipeline_inv(v),
        is_choice(v.stage),
    ensures
        pipeline_inv(next_choice(v, new_tip, ev)),
{
}

proof fn lemma_extend_inv(v: PipelineView, ev: Event)
    requires
        pipeline_inv(v),
        is_extend(v.stage),
    ensures
        pipeline_inv(next_extend(v, ev)),
{
}

proof fn lemma_walk_inv(v: PipelineView, ev: Event)
    requires
        pipeline_inv(v),
        is_walk(v.stage),
    ensures
        pipeline_inv(next_walk(v, ev)),
{
}

proof fn lemma_reorg_inv(v: PipelineView, ev: Event)
    requires
        pipeline_inv(v),
        is_reorg(v.stage),
    ensures
        pipeline_inv(next_reorg(v, ev)),
{
}

// ---------------------------------------------------------------------------
// The pipeline
// ---------------------------------------------------------------------------
/// The handling of one block.
pub struct BlockPipeline {
    block: Block,
    skip_pow: bool,
    assume_valid: bool,
    checkpoint: Checkpoint,
    stage: Stage,
    checkpoint_verified: bool,
    work_distrusted: bool,
    new_tip: ChainTip,
    tip: ChainTip,
    old_chain: Vec<Block>,
    ancestors: Vec<Block>,
    old_id: Hash256,
    new_id: Hash256,
    old_height: u64,
    new_height: u64,
    extended: bool,
    undone: usize,
    applied_ancestors: usize,
    applied_block: bool,
    fork_point_work: [u8; 32],
    fault: Option<ProcessBlockError>,
    reason: String,
    result: Option<Result<ProcessBlockOutcome, ProcessBlockError>>,
}

/// What an outcome says.
pub open spec fn outcome_view(r: Result<ProcessBlockOutcome, ProcessBlockError>) -> Result<
    ProcessBlockOutcome,
    FaultView,
> {
    match r {
        Ok(o) => Ok(o),
        Err(e) => Err(e@),
    }
}

impl View for BlockPipeline {
    type V = PipelineView;

    closed spec fn view(&self) -> PipelineView {
        PipelineView {
            block: self.block,
            skip_pow: self.skip_pow,
            assume_valid: self.assume_valid,
            checkpoint: self.checkpoint,
            stage: self.stage,
            checkpoint_verified: self.checkpoint_verified,
            work_distrusted: self.work_distrusted,
            new_tip: self.new_tip,
            tip: self.tip,
            old_chain: self.old_chain@,
            ancestors: self.ancestors@,
            old_id: self.old_id,
            new_id: self.new_id,
            old_height: self.old_height,
            new_height: self.new_height,
            extended: self.extended,
            undone: self.undone as nat,
            applied: self.applied_ancestors as nat + if self.applied_block {
                1nat
            } else {
                0nat
            },
            fork_point_work: self.fork_point_work,
            fault: match self.fault {
                Some(e) => Some(e@),
                None => None,
            },
            reason: self.reason@,
            result: match self.result {
                Some(r) => Some(outcome_view(r)),
                None => None,
            },
        }
    }
}

spec fn same_progress(a: BlockPipeline, b: BlockPipeline) -> bool {
    a.applied_ancestors == b.applied_ancestors && a.applied_block == b.applied_block
}

impl BlockPipeline {
    /// What holds at every stage.
    pub closed spec fn wf(&self) -> bool {
        &&& pipeline_inv(self@)
        &&& self.applied_ancestors <= self.ancestors@.len()
        &&& self.applied_block ==> self.applied_ancestors == self.ancestors@.len()
    }

    pub proof fn lemma_inv(&self)
        requires
            self.wf(),
        ensures
            pipeline_inv(self@),
    {
    }

    /// Starts the handling of a block. With `skip_pow` its proof of work counts
    /// as checked.
    pub fn new(block: Block, skip_pow: bool, assume_valid: bool, checkpoint: Checkpoint) -> (r: Self)
        ensures
            r.wf(),
            r@.stage == Stage::Known,
            r@.block == block,
            r@.skip_pow == skip_pow,
            r@.assume_valid == assume_valid,
            r@.checkpoint == checkpoint,
            !r@.checkpoint_verified,
            !r@.work_distrusted,
    {
        let tip = ChainTip {
            block_id: block.header.block_id(),
            height: block.header.height,
            cumulative_work: [0u8; 32],
        };
        let zero = Hash256::zero();
        BlockPipeline {
            block,
            skip_pow,
            assume_valid,
            checkpoint,
            stage: Stage::Known,
            checkpoint_verified: false,
            work_distrusted: false,
            new_tip: tip,
            tip,
            old_chain: Vec::new(),
            ancestors: Vec::new(),
            old_id: zero,
            new_id: zero,
            old_height: 0,
            new_height: 0,
            extended: false,
            undone: 0,
            applied_ancestors: 0,
            applied_block: false,
            fork_point_work: [0u8; 32],
            fault: None,
            reason: String::new(),
            result: None,
        }
    }

    fn finish(&mut self, r: Result<ProcessBlockOutcome, ProcessBlockError>)
        ensures
            final(self)@ == finish(old(self)@, outcome_view(r)),
            same_progress(*old(self), *final(self)),
    {
        self.stage = Stage::Finished;
        self.result = Some(r);
    }

    fn reject(&mut self, text: String)
        ensures
            final(self)@ == reject(old(self)@, text@),
            same_progress(*old(self), *final(self)),
    {
        self.finish(Err(ProcessBlockError::Recoverable(text)));
    }

    fn halt(&mut self, text: String)
        ensures
            final(self)@ == halt(old(self)@, text@),
            same_progress(*old(self), *final(self)),
    {
        self.finish(Err(ProcessBlockError::Fatal(text)));
    }

    fn on_check(&mut self, ev: Event)
        requires
            old(self).wf(),
            is_check(old(self)@.stage),
        ensures
            final(self).wf(),
            final(self)@ == next_check(old(self)@, ev),
    {
        proof {
            lemma_check_inv(self@, ev);
        }
        match (self.stage, ev) {
            (Stage::Known, Event::Known(r)) => match r {
                Err(e) => self.reject(e),
                Ok(known) => if known {
                    self.finish(Ok(ProcessBlockOutcome::Stored));
                } else if self.block.header.height == 0 {
                    self.reject(
                        String::from_str("height-0 blocks are not accepted via process_block"),
                    );
                } else {
                    self.stage = Stage::ParentHeader;
                },
            },
            (Stage::ParentHeader, Event::Found(r)) => match r {
                Err(e) => self.reject(e),
                Ok(found) => if found {
                    self.stage = Stage::Timestamps;
                } else {
                    self.reject(String::from_str("parent block not found"));
                },
            },
            (Stage::Timestamps, Event::Checked(r)) => match r {
                Err(e) => self.reject(e),
                Ok(_) => {
                    self.stage = Stage::Difficulty;
                },
            },
            (Stage::Difficulty, Event::Difficulty(r)) => match r {
                DifficultyReply::Known => {
                    self.stage = Stage::HeaderCheck;
                },
                DifficultyReply::AncestorNotFound(id) => self.finish(
                    Err(ProcessBlockError::MissingReorgAncestor(id)),
                ),
                DifficultyReply::Failed(e) => self.reject(e),
            },
            (Stage::HeaderCheck, Event::HeaderChecked(r)) => match r {
                HeaderReply::TimestampTooFarAhead => {
                    self.stage = Stage::BufferFuture;
                },
                HeaderReply::Invalid(e) => self.reject(
                    cat2("block header validation failed: ", e.as_str()),
                ),
                HeaderReply::Valid => if self.assume_valid && self.block.header.height
                    == self.checkpoint.height {
                    if self.block.header.block_id() == self.checkpoint.hash {
                        self.stage = Stage::CheckpointWork;
                        self.checkpoint_verified = true;
                    } else {
                        let mut s = String::from_str("assume-valid checkpoint FAILED at height ");
                        push_decimal(&mut s, self.checkpoint.height);
                        s.append(": expected ");
                        let want = hex_encode(self.checkpoint.hash.0.as_slice());
                        s.append(want.as_str());
                        s.append(", got ");
                        let got = hex_encode(self.block.header.id.0.as_slice());
                        s.append(got.as_str());
                        self.reject(s);
                    }
                } else {
                    self.stage = Stage::ParentWork;
                },
            },
            (Stage::BufferFuture, Event::Done) => self.finish(
                Ok(ProcessBlockOutcome::BufferedFuture),
            ),
            (Stage::CheckpointWork, Event::Work(r)) => {
                if let Ok(Some(w)) = r {
                    let sum = chain_work(&w, &self.block.header.difficulty_target);
                    if !same_bytes(&sum, &self.checkpoint.cumulative_work) {
                        proof {
                            let other = self.checkpoint.cumulative_work;
                            if be_nat(sum@) == be_nat(other@) {
                                lemma_be_nat_injective(sum@, other@);
                                assert forall|i: int| 0 <= i < 32 implies sum[i] == other[i] by {
                                    assert(sum@[i] == other@[i]);
                                }
                                assert(sum =~= other);
                            }
                        }
                        self.work_distrusted = true;
                    }
                }
                self.stage = Stage::ParentWork;
            },
            _ => {},
        }
    }

    fn on_choice(&mut self, ev: Event)
        requires
            old(self).wf(),
            is_choice(old(self)@.stage),
        ensures
            final(self).wf(),
            chooses(old(self)@, ev, final(self)@),
    {
        let ghost v = self@;
        match (self.stage, ev) {
            (Stage::ParentWork, Event::Work(r)) => match r {
                Err(e) => self.reject(e),
                Ok(None) => self.reject(String::from_str("parent cumulative work not found")),
                Ok(Some(w)) => {
                    let work = chain_work(&w, &self.block.header.difficulty_target);
                    self.new_tip = ChainTip {
                        block_id: self.block.header.block_id(),
                        height: self.block.header.height,
                        cumulative_work: work,
                    };
                    self.stage = Stage::ReadTip;
                },
            },
            (Stage::ReadTip, Event::Tip(t)) => {
                if is_better_chain(&self.new_tip, &t) {
                    self.stage = Stage::LockState;
                } else {
                    self.stage = Stage::ForkTxRoot;
                }
            },
            (Stage::ForkTxRoot, Event::Root(r)) => match r {
                Err(e) => self.reject(cat2("fork block tx_root computation failed: ", e.as_str())),
                Ok(root) => if self.block.header.tx_root == root {
                    self.stage = Stage::ForkStructure;
                } else {
                    self.reject(String::from_str("fork block tx_root mismatch"));
                },
            },
            (Stage::ForkStructure, Event::Checked(r)) => match r {
                Err(e) => self.reject(cat2("fork block structure invalid: ", e.as_str())),
                Ok(_) => {
                    self.stage = Stage::ForkStore;
                },
            },
            (Stage::ForkStore, Event::Checked(r)) => match r {
                Err(e) => self.reject(e),
                Ok(_) => self.finish(Ok(ProcessBlockOutcome::Stored)),
            },
            (Stage::LockState, Event::Tip(t)) => {
                if !is_better_chain(&self.new_tip, &t) {
                    self.stage = Stage::ForkTxRoot;
                } else if self.block.header.prev_block_id == t.block_id {
                    self.tip = t;
                    self.stage = Stage::ExtendApply;
                } else {
                    self.tip = t;
                    self.old_id = t.block_id;
                    self.new_id = self.block.header.prev_block_id;
                    self.old_height = t.height;
                    self.new_height = self.block.header.height - 1;
                    self.walk();
                }
            },
            _ => {},
        }
        proof {
            lemma_choice_inv(v, self@.new_tip, ev);
        }
    }

    fn walk(&mut self)
        ensures
            final(self)@ == walk(old(self)@),
            same_progress(*old(self), *final(self)),
    {
        if self.old_height > self.new_height {
            self.stage = Stage::WalkOld;
        } else if self.new_height > self.old_height {
            self.stage = Stage::WalkNew;
        } else if self.old_id != self.new_id {
            self.stage = Stage::WalkPairOld;
        } else {
            self.undo();
        }
    }

    fn undo(&mut self)
        ensures
            final(self)@ == undo(old(self)@),
            same_progress(*old(self), *final(self)),
    {
        if self.undone < self.old_chain.len() {
            self.stage = Stage::UndoOld;
        } else {
            self.stage = Stage::ApplyNew;
        }
    }

    fn on_extend(&mut self, ev: Event)
        requires
            old(self).wf(),
            is_extend(old(self)@.stage),
        ensures
            final(self).wf(),
            final(self)@ == next_extend(old(self)@, ev),
    {
        proof {
            lemma_extend_inv(self@, ev);
        }
        match (self.stage, ev) {
            (Stage::ExtendApply, Event::Applied(r)) => match r {
                ApplyReply::Applied => {
                    self.stage = Stage::ExtendRoot;
                    self.extended = true;
                },
                ApplyReply::StateCorrupted(e) => self.halt(
                    cat2("block tx apply corrupted state: ", e.as_str()),
                ),
                ApplyReply::Invalid(e) => self.reject(
                    cat2("block tx validation failed: ", e.as_str()),
                ),
            },
            (Stage::ExtendRoot, Event::StateRoot(root)) => {
                if self.block.header.state_root == root {
                    self.stage = Stage::ExtendCommit;
                } else {
                    self.stage = Stage::ExtendUndoRoot;
                }
            },
            (Stage::ExtendUndoRoot, Event::Checked(r)) => match r {
                Err(e) => self.halt(cat2("state root mismatch rollback failed: ", e.as_str())),
                Ok(_) => {
                    self.extended = false;
                    self.reject(String::from_str("state root mismatch"));
                },
            },
            (Stage::ExtendCommit, Event::Checked(r)) => match r {
                Err(e) => {
                    self.reason = e;
                    self.stage = Stage::ExtendUndoCommit;
                },
                Ok(_) => {
                    self.stage = Stage::UpdateTip;
                },
            },
            (Stage::ExtendUndoCommit, Event::Checked(r)) => match r {
                Err(e) => {
                    let mut s = cat3(
                        "storage failed: ",
                        self.reason.as_str(),
                        ": rollback also failed: ",
                    );
                    s.append(e.as_str());
                    self.halt(s);
                },
                Ok(_) => {
                    self.extended = false;
                    let text = self.reason.clone();
                    self.reject(text);
                },
            },
            _ => {},
        }
    }

    fn on_walk(&mut self, ev: Event)
        requires
            old(self).wf(),
            is_walk(old(self)@.stage),
        ensures
            final(self).wf(),
            final(self)@ == next_walk(old(self)@, ev),
    {
        proof {
            lemma_walk_inv(self@, ev);
        }
        match (self.stage, ev) {
            (Stage::WalkOld, Event::Fetched(r)) => match r {
                Err(e) => self.reject(e),
                Ok(None) => {
                    let id = hex_encode(self.old_id.0.as_slice());
                    self.halt(
                        cat3(
                            "canonical block ",
                            id.as_str(),
                            " missing during reorg (old chain)",
                        ),
                    );
                },
                Ok(Some(b)) => {
                    self.old_id = b.header.prev_block_id;
                    self.old_chain.push(b);
                    self.old_height = self.old_height - 1;
                    self.walk();
                },
            },
            (Stage::WalkNew, Event::Fetched(r)) => match r {
                Err(e) => self.reject(e),
                Ok(None) => self.finish(Err(ProcessBlockError::MissingReorgAncestor(self.new_id))),
                Ok(Some(b)) => {
                    self.new_id = b.header.prev_block_id;
                    self.ancestors.push(b);
                    self.new_height = self.new_height - 1;
                    self.walk();
                },
            },
            (Stage::WalkPairOld, Event::Fetched(r)) => match r {
                Err(e) => self.reject(e),
                Ok(None) => {
                    let id = hex_encode(self.old_id.0.as_slice());
                    self.halt(
                        cat3("canonical block ", id.as_str(), " missing during reorg (old walk)"),
                    );
                },
                Ok(Some(b)) => {
                    self.old_id = b.header.prev_block_id;
                    self.old_chain.push(b);
                    self.stage = Stage::WalkPairNew;
                },
            },
            (Stage::WalkPairNew, Event::Fetched(r)) => match r {
                Err(e) => self.reject(e),
                Ok(None) => self.finish(Err(ProcessBlockError::MissingReorgAncestor(self.new_id))),
                Ok(Some(b)) => {
                    self.new_id = b.header.prev_block_id;
                    self.ancestors.push(b);
                    self.walk();
                },
            },
            _ => {},
        }
    }

    fn roll_back(&mut self, fault: ProcessBlockError, reason: String)
        ensures
            final(self)@ == roll_back(old(self)@, fault@, reason@),
            same_progress(*old(self), *final(self)),
    {
        self.stage = Stage::UndoNew;
        self.fault = Some(fault);
        self.reason = reason;
    }

    fn abort_reorg(&mut self, fault: ProcessBlockError)
        ensures
            final(self)@ == abort_reorg(old(self)@, fault@),
            same_progress(*old(self), *final(self)),
    {
        let reason = fault.message();
        self.roll_back(fault, reason);
    }

    /// The `i`-th block of the new chain, oldest first.
    pub fn new_block(&self, i: usize) -> (r: &Block)
        requires
            i < self@.new_len(),
        ensures
            *r == self@.new_block(i as int),
    {
        if i < self.ancestors.len() {
            &self.ancestors[self.ancestors.len() - 1 - i]
        } else {
            &self.block
        }
    }

    fn on_reorg(&mut self, ev: Event)
        requires
            old(self).wf(),
            is_reorg(old(self)@.stage),
        ensures
            final(self).wf(),
            final(self)@ == next_reorg(old(self)@, ev),
    {
        proof {
            lemma_reorg_inv(self@, ev);
        }
        match (self.stage, ev) {
            (Stage::UndoOld, Event::Undone(r)) => match r {
                UndoReply::Undone => {
                    let n: usize = self.old_chain.len();
                    assert(self.undone < n);
                    self.undone = self.undone + 1;
                    self.undo();
                },
                UndoReply::MissingMetadata => {
                    let header = self.old_chain[self.undone].header;
                    let id = hex_encode(header.id.0.as_slice());
                    let mut s = cat3(
                        "missing spent-UTXO metadata for block ",
                        id.as_str(),
                        " at height ",
                    );
                    push_decimal(&mut s, header.height);
                    s.append(" during reorg undo");
                    self.reason = s;
                    self.stage = Stage::RedoUndone;
                },
                UndoReply::MetadataError(e) => {
                    self.reason = e;
                    self.stage = Stage::RedoUndone;
                },
                UndoReply::Broken(e) => {
                    self.reason = e;
                    self.stage = Stage::RedoBroken;
                },
            },
            (Stage::RedoBroken, Event::Checked(_)) => {
                let s = cat2("reorg undo_transaction failed: ", self.reason.as_str());
                self.halt(s);
            },
            (Stage::RedoUndone, Event::Checked(r)) => match r {
                Err(e) => {
                    let s = cat3(self.reason.as_str(), ": redo also failed: ", e.as_str());
                    self.halt(s);
                },
                Ok(_) => {
                    self.undone = 0;
                    let text = self.reason.clone();
                    self.halt(text);
                },
            },
            (Stage::ApplyNew, Event::NewBlock(r)) => self.on_new_block(r),
            (Stage::UndoMismatch, Event::Checked(r)) => {
                let height: u64 = self.new_block(self.applied_ancestors).header.height;
                match r {
                    Err(e) => {
                        let mut s = cat_num(
                            "state root mismatch at height ",
                            height,
                            ": rollback failed: ",
                        );
                        s.append(e.as_str());
                        self.abort_reorg(ProcessBlockError::Fatal(s));
                    },
                    Ok(_) => {
                        let s = cat_num("state root mismatch during reorg at height ", height, "");
                        self.abort_reorg(ProcessBlockError::Recoverable(s));
                    },
                }
            },
            (Stage::UndoNew, Event::Checked(r)) => match r {
                Err(e) => {
                    let s = cat3(self.reason.as_str(), ": new-chain undo failed: ", e.as_str());
                    self.halt(s);
                },
                Ok(_) => {
                    self.applied_ancestors = 0;
                    self.applied_block = false;
                    self.stage = Stage::RedoOld;
                },
            },
            (Stage::RedoOld, Event::Checked(r)) => match r {
                Err(e) => {
                    let s = cat3(self.reason.as_str(), ": old-chain redo failed: ", e.as_str());
                    self.halt(s);
                },
                Ok(_) => {
                    self.undone = 0;
                    if let Some(f) = self.fault.take() {
                        self.finish(Err(f));
                    }
                },
            },
            (Stage::ForkPointWork, Event::Work(r)) => match r {
                Err(e) => self.abort_reorg(ProcessBlockError::Recoverable(e)),
                Ok(None) => {
                    let id = hex_encode(self.old_id.0.as_slice());
                    let s = cat3(
                        "fork point ",
                        id.as_str(),
                        " cumulative work missing during reorg",
                    );
                    self.halt(s);
                },
                Ok(Some(w)) => {
                    self.fork_point_work = w;
                    self.stage = Stage::CommitReorg;
                },
            },
            (Stage::CommitReorg, Event::Checked(r)) => match r {
                Err(e) => {
                    let reason = cat2("storage failed: ", e.as_str());
                    self.roll_back(ProcessBlockError::Recoverable(e), reason);
                },
                Ok(_) => {
                    self.stage = Stage::DemoteOld;
                },
            },
            (Stage::DemoteOld, Event::Done) => {
                self.stage = Stage::UpdateTip;
            },
            (Stage::UpdateTip, Event::Done) => {
                self.stage = Stage::Mempool;
            },
            (Stage::Mempool, Event::Done) => self.finish(Ok(ProcessBlockOutcome::Accepted)),
            _ => {},
        }
    }

    fn on_new_block(&mut self, r: NewBlockReply)
        requires
            old(self).wf(),
            old(self)@.stage == Stage::ApplyNew,
        ensures
            final(self).wf(),
            final(self)@ == next_reorg(old(self)@, Event::NewBlock(r)),
    {
        proof {
            lemma_reorg_inv(self@, Event::NewBlock(r));
        }
        let header = self.new_block(self.applied_ancestors).header;
        let height: u64 = header.height;
        let fault = match r {
            NewBlockReply::Applied { state_root } => {
                if header.state_root != state_root {
                    self.stage = Stage::UndoMismatch;
                } else {
                    if self.applied_ancestors >= self.ancestors.len() {
                        self.stage = Stage::ForkPointWork;
                        self.applied_block = true;
                    } else {
                        self.applied_ancestors = self.applied_ancestors + 1;
                    }
                }
                return ;
            },
            NewBlockReply::ParentMissing => ProcessBlockError::Fatal(
                cat_num("reorg: parent header missing for block at height ", height, ""),
            ),
            NewBlockReply::ParentError(e) => ProcessBlockError::Fatal(
                cat2("reorg: storage error reading parent header: ", e.as_str()),
            ),
            NewBlockReply::TimestampsError(e) => ProcessBlockError::Fatal(
                cat2("reorg: ancestor timestamps error: ", e.as_str()),
            ),
            NewBlockReply::AncestorNotFound(id) => ProcessBlockError::MissingReorgAncestor(id),
            NewBlockReply::DifficultyError(e) => ProcessBlockError::Fatal(
                cat2("reorg: difficulty computation error: ", e.as_str()),
            ),
            NewBlockReply::HeaderInvalid(e) => {
                let mut s = cat_num("reorg: header re-validation failed at height ", height, ": ");
                s.append(e.as_str());
                ProcessBlockError::Recoverable(s)
            },
            NewBlockReply::StateCorrupted(e) => ProcessBlockError::Fatal(
                cat2("reorg block apply corrupted state: ", e.as_str()),
            ),
            NewBlockReply::TxInvalid(e) => ProcessBlockError::Recoverable(
                cat2("reorg block tx validation failed: ", e.as_str()),
            ),
        };
        self.abort_reorg(fault);
    }

    /// Takes the answer to what the pipeline asked for.
    pub fn step(&mut self, ev: Event)
        requires
            old(self).wf(),
        ensures
            final(self).wf(),
            steps_to(old(self)@, ev, final(self)@),
    {
        match self.stage {
            Stage::Known | Stage::ParentHeader | Stage::Timestamps | Stage::Difficulty
            | Stage::HeaderCheck | Stage::BufferFuture | Stage::CheckpointWork => self.on_check(ev),
            Stage::ParentWork | Stage::ReadTip | Stage::ForkTxRoot | Stage::ForkStructure
            | Stage::ForkStore | Stage::LockState => self.on_choice(ev),
            Stage::ExtendApply | Stage::ExtendRoot | Stage::ExtendUndoRoot | Stage::ExtendCommit
            | Stage::ExtendUndoCommit => self.on_extend(ev),
            Stage::WalkOld | Stage::WalkNew | Stage::WalkPairOld | Stage::WalkPairNew => self.on_walk(
                ev,
            ),
            Stage::Finished => {},
            _ => self.on_reorg(ev),
        }
    }

    /// What the pipeline asks for.
    pub fn action(&self) -> (r: Action)
        requires
            self.wf(),
        ensures
            r == asks(self@),
    {
        let h = self.block.header;
        match self.stage {
            Stage::Known => Action::HasBlock(h.block_id()),
            Stage::ParentHeader => Action::GetHeader(h.prev_block_id),
            Stage::Timestamps => Action::GetAncestorTimestamps(h.prev_block_id),
            Stage::Difficulty => Action::ExpectedDifficulty(h.prev_block_id, h.height),
            Stage::HeaderCheck => Action::ValidateHeader { skip_pow: self.skip_pow },
            Stage::BufferFuture => Action::BufferFutureBlock,
            Stage::CheckpointWork | Stage::ParentWork => Action::GetWork(h.prev_block_id),
            Stage::ReadTip => Action::ReadTip,
            Stage::ForkTxRoot => Action::ComputeTxRoot,
            Stage::ForkStructure => Action::ValidateStructure,
            Stage::ForkStore => Action::StoreForkBlock { work: self.new_tip.cumulative_work },
            Stage::LockState => Action::LockStateAndReadTip,
            Stage::ExtendApply => Action::ApplyBlock,
            Stage::ExtendRoot => Action::ComputeStateRoot,
            Stage::ExtendUndoRoot | Stage::ExtendUndoCommit => Action::UndoBlock,
            Stage::ExtendCommit => Action::CommitBlock { work: self.new_tip.cumulative_work },
            Stage::WalkOld | Stage::WalkPairOld => Action::GetBlock(self.old_id),
            Stage::WalkNew | Stage::WalkPairNew => Action::GetBlock(self.new_id),
            Stage::UndoOld => Action::UndoOldBlock(self.undone),
            Stage::RedoBroken | Stage::RedoUndone => Action::RedoOldBlocks { count: self.undone },
            Stage::RedoOld => Action::RedoOldBlocks { count: self.old_chain.len() },
            Stage::ApplyNew => Action::ApplyNewBlock(self.applied_ancestors),
            Stage::UndoMismatch => Action::UndoNewBlock(self.applied_ancestors),
            Stage::UndoNew => Action::UndoNewBlocks {
                ancestors: self.applied_ancestors,
                block: self.applied_block,
            },
            Stage::ForkPointWork => Action::GetWork(self.old_id),
            Stage::CommitReorg => Action::CommitReorg {
                work: self.new_tip.cumulative_work,
                fork_point_work: self.fork_point_work,
            },
            Stage::DemoteOld => Action::DemoteOldBlocks,
            Stage::UpdateTip => Action::SetTip(self.new_tip),
            Stage::Mempool => Action::RefreshMempool,
            Stage::Finished => Action::Nothing,
        }
    }

    pub fn block(&self) -> (r: &Block)
        ensures
            *r == self@.block,
    {
        &self.block
    }

    /// The old chain above the common ancestor, newest first.
    pub fn old_chain(&self) -> (r: &Vec<Block>)
        ensures
            r@ == self@.old_chain,
    {
        &self.old_chain
    }

    /// How many blocks of the new chain come before the block itself.
    pub fn ancestor_count(&self) -> (r: usize)
        ensures
            r + 1 == self@.new_len(),
    {
        self.ancestors.len()
    }

    /// Whether the block was found to be the checkpoint, and whether the
    /// checkpoint's work was found to be wrong.
    pub fn checkpoint_findings(&self) -> (r: (bool, bool))
        ensures
            r == (self@.checkpoint_verified, self@.work_distrusted),
    {
        (self.checkpoint_verified, self.work_distrusted)
    }

    /// The outcome, once there is one.
    pub fn into_result(self) -> (r: Option<Result<ProcessBlockOutcome, ProcessBlockError>>)
        ensures
            match r {
                Some(x) => self@.result == Some(outcome_view(x)),
                None => self@.result is None,
            },
    {
        self.result
    }
}

// ---------------------------------------------------------------------------
// What a reorganisation writes
// ---------------------------------------------------------------------------
/// The cumulative work of the `i`-th block of the new chain.
pub open spec fn promoted_work(v: PipelineView, fork_point_work: nat, i: int) -> nat
    decreases i,
{
    let own = target_work(be_nat(v.new_block(i).header.difficulty_target.0@));
    work_sum(
        if i <= 0 {
            fork_point_work
        } else {
            promoted_work(v, fork_point_work, i - 1)
        },
        own,
    )
}

/// Whether a transaction is among those of the new chain.
pub open spec fn in_new_chain(v: PipelineView, id: Hash256) -> bool {
    exists|i: int, j: int|
        0 <= i < v.new_len() && 0 <= j < v.new_block(i).transactions@.len() && (
        #[trigger] v.new_block(i).transactions@[j]).tx_id == id
}

/// Whether a transaction of the old chain is to go back to the mempool.
pub open spec fn is_orphaned(v: PipelineView, b: int, t: int) -> bool {
    let tx = v.old_chain[b].transactions@[t];
    !tx.is_coinbase && !in_new_chain(v, tx.tx_id)
}

/// The transactions of one block that go back to the mempool, among the first `n`.
pub open spec fn orphans_in(v: PipelineView, b: int, n: int) -> Seq<(usize, usize)>
    decreases n,
{
    if n <= 0 {
        Seq::empty()
    } else if is_orphaned(v, b, n - 1) {
        orphans_in(v, b, n - 1).push((b as usize, (n - 1) as usize))
    } else {
        orphans_in(v, b, n - 1)
    }
}

/// The transactions of the first `n` blocks of the old chain that go back to the
/// mempool, as pairs of a block and a transaction.
pub open spec fn orphans(v: PipelineView, n: int) -> Seq<(usize, usize)>
    decreases n,
{
    if n <= 0 {
        Seq::empty()
    } else {
        orphans(v, n - 1) + orphans_in(
            v,
            n - 1,
            v.old_chain[n - 1].transactions@.len() as int,
        )
    }
}

impl BlockPipeline {
    /// The heights, ids and cumulative work of the new chain, oldest first.
    pub fn promoted(&self) -> (r: Vec<(u64, Hash256, [u8; 32])>)
        ensures
            r@.len() == self@.new_len(),
            forall|i: int|
                #![trigger r@[i]]
                0 <= i < r@.len() ==> r@[i].0 == self@.new_block(i).header.height && r@[i].1
                    == self@.new_block(i).header.id && be_nat(r@[i].2@) == promoted_work(
                    self@,
                    be_nat(self@.fork_point_work@),
                    i,
                ),
    {
        let ghost v = self@;
        let mut out: Vec<(u64, Hash256, [u8; 32])> = Vec::new();
        let mut prev: [u8; 32] = self.fork_point_work;
        let n: usize = self.ancestors.len();
        let mut i: usize = 0;
        while i < n
            invariant
                v == self@,
                n == self.ancestors@.len(),
                n == v.ancestors.len(),
                i <= n,
                out@.len() == i,
                be_nat(prev@) == (if i == 0 {
                    be_nat(v.fork_point_work@)
                } else {
                    promoted_work(v, be_nat(v.fork_point_work@), i - 1)
                }),
                forall|j: int|
                    #![trigger out@[j]]
                    0 <= j < i ==> out@[j].0 == v.new_block(j).header.height && out@[j].1
                        == v.new_block(j).header.id && be_nat(out@[j].2@) == promoted_work(
                        v,
                        be_nat(v.fork_point_work@),
                        j,
                    ),
            decreases n - i,
        {
            let header = self.ancestors[n - 1 - i].header;
            assert(header == v.new_block(i as int).header);
            prev = chain_work(&prev, &header.difficulty_target);
            out.push((header.height, header.block_id(), prev));
            i = i + 1;
        }
        let header = self.block.header;
        assert(header == v.new_block(n as int).header);
        prev = chain_work(&prev, &header.difficulty_target);
        out.push((header.height, header.block_id(), prev));
        out
    }

    /// The heights above the new tip that the old chain leaves behind.
    pub fn stale_heights(&self) -> (r: Option<(u64, u64)>)
        ensures
            r == (if self@.tip.height > self@.block.header.height {
                Some(((self@.block.header.height + 1) as u64, self@.tip.height))
            } else {
                None
            }),
    {
        if self.tip.height > self.block.header.height {
            Some((self.block.header.height + 1, self.tip.height))
        } else {
            None
        }
    }

    fn confirms(&self, id: &Hash256) -> (r: bool)
        ensures
            r == in_new_chain(self@, *id),
    {
        let ghost v = self@;
        let n: usize = self.ancestors.len();
        let mut k: usize = 0;
        while k < n
            invariant
                v == self@,
                n == self.ancestors@.len(),
                n == v.ancestors.len(),
                self.ancestors@ == v.ancestors,
                k <= n,
                forall|i: int, j: int|
                    0 <= i < k && 0 <= j < v.new_block(i).transactions@.len() ==> (
                    #[trigger] v.new_block(i).transactions@[j]).tx_id != *id,
            decreases n - k,
        {
            let b = &self.ancestors[n - 1 - k];
            assert(*b == v.new_block(k as int));
            if block_has_tx(b, id) {
                proof {
                    let j = choose|j: int|
                        0 <= j < b.transactions@.len() && (#[trigger] b.transactions@[j]).tx_id
                            == *id;
                    assert(v.new_block(k as int).transactions@[j].tx_id == *id);
                }
                return true;
            }
            k = k + 1;
        }
        assert(v.new_block(n as int) == self.block);
        if block_has_tx(&self.block, id) {
            proof {
                let b = self.block;
                let j = choose|j: int|
                    0 <= j < b.transactions@.len() && (#[trigger] b.transactions@[j]).tx_id == *id;
                assert(v.new_block(n as int).transactions@[j].tx_id == *id);
            }
            return true;
        }
        proof {
            assert forall|i: int, j: int|
                0 <= i < v.new_len() && 0 <= j < v.new_block(i).transactions@.len() implies (
            #[trigger] v.new_block(i).transactions@[j]).tx_id != *id by {
                if i == n {
                    assert(self.block.transactions@[j].tx_id != *id);
                }
            }
        }
        false
    }

    /// The transactions of the old chain that go back to the mempool: those that
    /// are no coinbase and are not in the new chain.
    pub fn orphaned_transactions(&self) -> (r: Vec<(usize, usize)>)
        ensures
            r@ == orphans(self@, self@.old_chain.len() as int),
    {
        let ghost v = self@;
        let mut out: Vec<(usize, usize)> = Vec::new();
        let mut b: usize = 0;
        while b < self.old_chain.len()
            invariant
                v == self@,
                v.old_chain == self.old_chain@,
                b <= self.old_chain@.len(),
                out@ == orphans(v, b as int),
            decreases self.old_chain@.len() - b,
        {
            let ghost before = out@;
            let mut t: usize = 0;
            assert(before + orphans_in(v, b as int, 0) =~= before);
            while t < self.old_chain[b].transactions.len()
                invariant
                    v == self@,
                    v.old_chain == self.old_chain@,
                    b < self.old_chain@.len(),
                    t <= self.old_chain@[b as int].transactions@.len(),
                    out@ == before + orphans_in(v, b as int, t as int),
                decreases self.old_chain@[b as int].transactions@.len() - t,
            {
                let tx = &self.old_chain[b].transactions[t];
                if !tx.is_coinbase && !self.confirms(&tx.tx_id) {
                    out.push((b, t));
                    assert(out@ =~= before + orphans_in(v, b as int, t + 1));
                }
                t = t + 1;
            }
            b = b + 1;
        }
        out
    }
}

/// Whether a block holds a transaction.
fn block_has_tx(b: &Block, id: &Hash256) -> (r: bool)
    ensures
        r == exists|j: int|
            0 <= j < b.transactions@.len() && (#[trigger] b.transactions@[j]).tx_id == *id,
{
    let mut j: usize = 0;
    while j < b.transactions.len()
        invariant
            j <= b.transactions@.len(),
            forall|k: int| 0 <= k < j ==> (#[trigger] b.transactions@[k]).tx_id != *id,
        decreases b.transactions@.len() - j,
    {
        if b.transactions[j].tx_id == *id {
            assert(b.transactions@[j as int].tx_id == *id);
            return true;
        }
        j = j + 1;
    }
    false
}

// ---------------------------------------------------------------------------
// Laws
// ---------------------------------------------------------------------------
/// A block that is turned away without a fatal error leaves the state as it was:
/// nothing of it is applied, and nothing of the old chain is undone. The same
/// holds of a block that is stored on a fork or put aside for later.
pub proof fn law_unaccepted_block_leaves_state(v: PipelineView)
    requires
        pipeline_inv(v),
        v.stage == Stage::Finished,
        v.result != Some(Ok::<ProcessBlockOutcome, FaultView>(ProcessBlockOutcome::Accepted)),
        !(v.result matches Some(Err(FaultView::Fatal(_)))),
    ensures
        untouched(v),
{
}

/// A block is accepted only when its chain is better than the one it replaces,
/// and then the change is complete: either it stands on the old tip, or the
/// whole old chain down to the common ancestor is undone and the whole new chain
/// is applied.
pub proof fn law_accepted_block_is_better(v: PipelineView)
    requires
        pipeline_inv(v),
        v.stage == Stage::Finished,
        v.result == Some(Ok::<ProcessBlockOutcome, FaultView>(ProcessBlockOutcome::Accepted)),
    ensures
        better_chain(v.new_tip, v.tip),
        v.extended ==> v.block.header.prev_block_id == v.tip.block_id,
        !v.extended ==> v.undone == v.old_chain.len() && v.applied == v.new_len(),
{
}

/// Before anything is undone, the two chains have been followed down to one and
/// the same block, at one height.
pub proof fn law_reorg_starts_at_common_ancestor(v: PipelineView)
    requires
        pipeline_inv(v),
        v.stage == Stage::UndoOld || v.stage == Stage::ApplyNew,
    ensures
        ({
            let below_old = if v.old_chain.len() == 0 {
                v.tip.block_id
            } else {
                v.old_chain.last().header.prev_block_id
            };
            let below_new = if v.ancestors.len() == 0 {
                v.block.header.prev_block_id
            } else {
                v.ancestors.last().header.prev_block_id
            };
            &&& below_old == below_new
            &&& v.tip.height - v.old_chain.len() == v.block.header.height - v.new_len()
        }),
{
}

/// Once there is an outcome, nothing changes it.
pub proof fn law_outcome_is_final(v: PipelineView, ev: Event, w: PipelineView)
    requires
        v.stage == Stage::Finished,
        steps_to(v, ev, w),
    ensures
        w == v,
{
}

/// A height-0 block is never taken in: it is known already, or it is rejected.
pub proof fn law_genesis_is_not_processed(v: PipelineView, ev: Event, w: PipelineView)
    requires
        v.stage == Stage::Known,
        v.block.header.height == 0,
        steps_to(v, ev, w),
    ensures
        w == v || (w.stage == Stage::Finished && (w.result == Some(
            Ok::<ProcessBlockOutcome, FaultView>(ProcessBlockOutcome::Stored),
        ) || w.result matches Some(Err(FaultView::Recoverable(_))))),
{
}

} // verus!
