//! From the arrival of a block to what follows from handling it.
use crate::chain::{Block, BlockHeader};
use crate::errors::{FaultView, ProcessBlockError, ProcessBlockOutcome};
use crate::future::{with_again, with_age, FutureBlocks};
use crate::hash::Hash256;
use crate::orphans::{taken_from, Orphan, OrphanPool};
use crate::triggers::ReorgTriggerState;
use vstd::prelude::*;

verus! {

// ---------------------------------------------------------------------------
// Checks on arrival
// ---------------------------------------------------------------------------
/// What is to be done next with a block that a peer sent.
#[derive(Clone, Copy, Debug, PartialEq, Eq, Structural)]
pub enum IntakeStep {
    /// Look up the header of its parent.
    FindParent,
    /// Work out the difficulty target that it has to have.
    FindTarget,
    /// Take one unit of the budget for blocks.
    TakeSlot,
    /// Check its proof of work.
    CheckPow,
    /// Handle it; the proof of work counts as checked where `pre_validated`.
    Process { pre_validated: bool },
    /// Keep it until its parent comes.
    CacheOrphan,
    /// Let it go.
    Drop,
    /// Let it go, and hold it against the sender.
    Strike,
}

/// What came of the last step.
#[derive(Clone, Copy, Debug)]
pub enum IntakeReply {
    /// The height of the parent, if the parent is known.
    Parent(Option<u64>),
    /// The target that the block has to have.
    Target(Hash256),
    /// The target cannot be worked out, as ancestors are missing.
    AncestryMissing,
    /// Whether there was budget left.
    Slot(bool),
    /// Whether the proof of work holds.
    Pow(bool),
    /// The step could not be done.
    Failed,
}

/// A block on its way in.
#[derive(Clone, Copy, Debug)]
pub struct BlockIntake {
    pub height: u64,
    pub target: Hash256,
    /// Whether the proof of work was checked before the block came in.
    pub pre_validated: bool,
    pub step: IntakeStep,
    /// The height of the parent, once it has been found.
    pub parent_height: Option<u64>,
    /// The target that the block has to have, once it has been worked out.
    pub expected: Option<Hash256>,
    /// Whether the target could not be worked out for want of ancestors.
    pub ancestry_missing: bool,
    /// Whether a unit of the budget was taken.
    pub slot_taken: bool,
    /// Whether the proof of work was found to hold.
    pub pow_checked: bool,
}

/// Whether a reply can follow a step.
pub open spec fn answers(step: IntakeStep, reply: IntakeReply) -> bool {
    match step {
        IntakeStep::FindParent => reply is Parent || reply is Failed,
        IntakeStep::FindTarget => reply is Target || reply is AncestryMissing || reply is Failed,
        IntakeStep::TakeSlot => reply is Slot,
        IntakeStep::CheckPow => reply is Pow || reply is Failed,
        _ => false,
    }
}

impl BlockIntake {
    /// How the block is handled once the budget allows it: its proof of work
    /// is checked first, unless it was checked before or the target that it
    /// has to meet is not known.
    pub open spec fn after_slot(self) -> IntakeStep {
        if !self.ancestry_missing && !self.pre_validated {
            IntakeStep::CheckPow
        } else {
            IntakeStep::Process { pre_validated: !self.ancestry_missing }
        }
    }

    /// The state after a reply.
    pub open spec fn next(self, reply: IntakeReply) -> BlockIntake {
        match reply {
            IntakeReply::Parent(None) => BlockIntake { step: IntakeStep::CacheOrphan, ..self },
            IntakeReply::Parent(Some(h)) => BlockIntake {
                parent_height: Some(h),
                step: if h + 1 == self.height {
                    IntakeStep::FindTarget
                } else {
                    IntakeStep::Strike
                },
                ..self
            },
            IntakeReply::Target(t) => BlockIntake {
                expected: Some(t),
                step: if t == self.target {
                    IntakeStep::TakeSlot
                } else {
                    IntakeStep::Strike
                },
                ..self
            },
            IntakeReply::AncestryMissing => BlockIntake {
                ancestry_missing: true,
                step: IntakeStep::TakeSlot,
                ..self
            },
            IntakeReply::Slot(granted) => BlockIntake {
                slot_taken: granted,
                step: if granted {
                    self.after_slot()
                } else {
                    IntakeStep::Drop
                },
                ..self
            },
            IntakeReply::Pow(valid) => BlockIntake {
                pow_checked: valid,
                step: if valid {
                    IntakeStep::Process { pre_validated: true }
                } else {
                    IntakeStep::Strike
                },
                ..self
            },
            IntakeReply::Failed => BlockIntake { step: IntakeStep::Drop, ..self },
        }
    }

    /// What has been found out about the block fits the step that it is at.
    pub open spec fn inv(self) -> bool {
        let parent_ok = self.parent_height matches Some(h) && h + 1 == self.height;
        let target_ok = self.ancestry_missing || self.expected == Some(self.target);
        match self.step {
            IntakeStep::FindParent => !self.ancestry_missing,
            IntakeStep::FindTarget => parent_ok && !self.ancestry_missing,
            IntakeStep::TakeSlot => parent_ok && target_ok,
            IntakeStep::CheckPow => parent_ok && target_ok && self.slot_taken
                && !self.ancestry_missing,
            IntakeStep::Process { pre_validated } => {
                &&& parent_ok
                &&& target_ok
                &&& self.slot_taken
                &&& pre_validated == !self.ancestry_missing
                &&& pre_validated ==> self.pre_validated || self.pow_checked
            },
            _ => true,
        }
    }

    /// A block that has just come in.
    pub fn new(header: &BlockHeader, pre_validated: bool) -> (r: Self)
        ensures
            r == (BlockIntake {
                height: header.height,
                target: header.difficulty_target,
                pre_validated,
                step: IntakeStep::FindParent,
                parent_height: None,
                expected: None,
                ancestry_missing: false,
                slot_taken: false,
                pow_checked: false,
            }),
            r.inv(),
    {
        BlockIntake {
            height: header.height,
            target: header.difficulty_target,
            pre_validated,
            step: IntakeStep::FindParent,
            parent_height: None,
            expected: None,
            ancestry_missing: false,
            slot_taken: false,
            pow_checked: false,
        }
    }

    /// Takes the reply to the last step.
    pub fn advance(&mut self, reply: IntakeReply)
        requires
            old(self).inv(),
            answers(old(self).step, reply),
        ensures
            *final(self) == old(self).next(reply),
            final(self).inv(),
    {
        match reply {
            IntakeReply::Parent(None) => {
                self.step = IntakeStep::CacheOrphan;
            },
            IntakeReply::Parent(Some(h)) => {
                self.parent_height = Some(h);
                self.step = if h < self.height && self.height - h == 1 {
                    IntakeStep::FindTarget
                } else {
                    IntakeStep::Strike
                };
            },
            IntakeReply::Target(t) => {
                self.expected = Some(t);
                self.step = if t == self.target {
                    IntakeStep::TakeSlot
                } else {
                    IntakeStep::Strike
                };
            },
            IntakeReply::AncestryMissing => {
                self.ancestry_missing = true;
                self.step = IntakeStep::TakeSlot;
            },
            IntakeReply::Slot(granted) => {
                self.slot_taken = granted;
                self.step = if !granted {
                    IntakeStep::Drop
                } else if !self.ancestry_missing && !self.pre_validated {
                    IntakeStep::CheckPow
                } else {
                    IntakeStep::Process { pre_validated: !self.ancestry_missing }
                };
            },
            IntakeReply::Pow(valid) => {
                self.pow_checked = valid;
                self.step = if valid {
                    IntakeStep::Process { pre_validated: true }
                } else {
                    IntakeStep::Strike
                };
            },
            IntakeReply::Failed => {
                self.step = IntakeStep::Drop;
            },
        }
    }
}

/// A block is handled only if it is right above a known block, has the target
/// that it has to have (where that can be told) and the budget allows it; and
/// its proof of work counts as checked only where it was.
pub proof fn law_only_checked_blocks_are_handled(m: BlockIntake, pre_validated: bool)
    requires
        m.inv(),
        m.step == (IntakeStep::Process { pre_validated }),
    ensures
        m.parent_height matches Some(h) && h + 1 == m.height,
        m.ancestry_missing || m.expected == Some(m.target),
        m.slot_taken,
        pre_validated ==> m.pre_validated || m.pow_checked,
{
}

/// A block that fails a cheap check takes nothing out of the budget.
pub proof fn law_cheap_rejection_is_free(m: BlockIntake, reply: IntakeReply)
    requires
        m.inv(),
        !m.slot_taken,
        answers(m.step, reply),
        !(m.step is TakeSlot),
    ensures
        !m.next(reply).slot_taken,
{
}

// ---------------------------------------------------------------------------
// What follows
// ---------------------------------------------------------------------------
/// Where a block that was handled came from.
#[derive(Clone, Copy, Debug, PartialEq, Eq, Structural)]
pub enum Origin {
    /// A peer sent it.
    Peer,
    /// It waited for the clock.
    Future,
    /// It waited for a missing ancestor.
    Trigger,
    /// It waited for its parent.
    Orphan,
}

/// What is to be done after a block was handled.
#[derive(Clone, Copy, Debug)]
pub struct FollowUp {
    /// Give the sender credit.
    pub credit: bool,
    /// Pass the block on.
    pub relay: bool,
    /// Handle the blocks that wait for this one as their parent.
    pub adopt_children: bool,
    /// Put back the time since which the block waits for the clock.
    pub restore_age: bool,
    /// Let the block wait for the clock again.
    pub rebuffer: bool,
    /// Let the block wait for this ancestor, and ask for the ancestor.
    pub recover: Option<Hash256>,
    /// Hold the block against the sender.
    pub strike: bool,
    /// Stop the node.
    pub halt: bool,
    /// Try the blocks again that wait for this one as an ancestor.
    pub retry_triggers: bool,
}

/// Nothing is to be done.
pub open spec fn nothing_follows() -> FollowUp {
    FollowUp {
        credit: false,
        relay: false,
        adopt_children: false,
        restore_age: false,
        rebuffer: false,
        recover: None,
        strike: false,
        halt: false,
        retry_triggers: false,
    }
}

/// How a block was handled.
pub open spec fn result_view(r: Result<ProcessBlockOutcome, ProcessBlockError>) -> Result<
    ProcessBlockOutcome,
    FaultView,
> {
    match r {
        Ok(o) => Ok(o),
        Err(e) => Err(e@),
    }
}

/// What is to be done after a block was handled.
pub open spec fn follow_up_of(
    origin: Origin,
    result: Result<ProcessBlockOutcome, FaultView>,
) -> FollowUp {
    let base = FollowUp { retry_triggers: origin is Peer, ..nothing_follows() };
    match result {
        Ok(ProcessBlockOutcome::Accepted) => FollowUp {
            credit: origin is Peer,
            relay: origin is Peer || origin is Future,
            adopt_children: true,
            ..base
        },
        Ok(ProcessBlockOutcome::Stored) => FollowUp {
            credit: origin is Peer,
            adopt_children: true,
            ..base
        },
        Ok(ProcessBlockOutcome::BufferedFuture) => FollowUp {
            restore_age: origin is Future,
            ..base
        },
        Err(FaultView::MissingReorgAncestor(id)) => if origin is Orphan {
            base
        } else {
            FollowUp { recover: Some(id), ..base }
        },
        Err(FaultView::Fatal(_)) => FollowUp { halt: true, ..nothing_follows() },
        Err(FaultView::Recoverable(_)) => FollowUp {
            strike: origin is Peer,
            rebuffer: origin is Future,
            ..base
        },
    }
}

/// What is to be done after a block was handled.
pub fn follow_up(origin: Origin, result: &Result<ProcessBlockOutcome, ProcessBlockError>) -> (r:
    FollowUp)
    ensures
        r == follow_up_of(origin, result_view(*result)),
{
    let from_peer = origin == Origin::Peer;
    let from_clock = origin == Origin::Future;
    let mut f = FollowUp {
        credit: false,
        relay: false,
        adopt_children: false,
        restore_age: false,
        rebuffer: false,
        recover: None,
        strike: false,
        halt: false,
        retry_triggers: from_peer,
    };
    match result {
        Ok(ProcessBlockOutcome::Accepted) => {
            f.credit = from_peer;
            f.relay = from_peer || from_clock;
            f.adopt_children = true;
        },
        Ok(ProcessBlockOutcome::Stored) => {
            f.credit = from_peer;
            f.adopt_children = true;
        },
        Ok(ProcessBlockOutcome::BufferedFuture) => {
            f.restore_age = from_clock;
        },
        Err(ProcessBlockError::MissingReorgAncestor(id)) => {
            if origin != Origin::Orphan {
                f.recover = Some(*id);
            }
        },
        Err(ProcessBlockError::Fatal(_)) => {
            f.halt = true;
            f.retry_triggers = false;
        },
        Err(ProcessBlockError::Recoverable(_)) => {
            f.strike = from_peer;
            f.rebuffer = from_clock;
        },
    }
    f
}

/// A sender gets credit exactly for blocks that were found good, never for a
/// block that was refused, and a missing ancestor or a block ahead of the
/// clock is never held against anybody.
pub proof fn law_credit_and_blame(origin: Origin, result: Result<ProcessBlockOutcome, FaultView>)
    ensures
        follow_up_of(origin, result).credit <==> origin is Peer && (result
            == Ok::<_, FaultView>(ProcessBlockOutcome::Accepted) || result
            == Ok::<_, FaultView>(ProcessBlockOutcome::Stored)),
        follow_up_of(origin, result).strike <==> origin is Peer && (result matches Err(
            FaultView::Recoverable(_),
        )),
        follow_up_of(origin, result).relay ==> result == Ok::<_, FaultView>(
            ProcessBlockOutcome::Accepted,
        ),
{
}

/// Corrupted state stops the node whatever the block's origin, and nothing
/// else follows.
pub proof fn law_fatal_always_halts(origin: Origin, result: Result<ProcessBlockOutcome, FaultView>)
    ensures
        follow_up_of(origin, result).halt <==> (result matches Err(FaultView::Fatal(_))),
        follow_up_of(origin, result).halt ==> follow_up_of(origin, result) == (FollowUp {
            halt: true,
            ..nothing_follows()
        }),
{
}

/// The children of a block that waits for the clock wait on.
pub proof fn law_children_of_future_blocks_wait(origin: Origin)
    ensures
        !follow_up_of(origin, Ok(ProcessBlockOutcome::BufferedFuture)).adopt_children,
{
}

/// Lets a block that was handled wait again, where that follows: for the
/// ancestor that it lacks, or for the clock since the time at which it first
/// came.
pub fn settle_waiting(
    f: &FollowUp,
    block: Block,
    first_came: u64,
    future: &mut FutureBlocks,
    triggers: &mut ReorgTriggerState,
)
    requires
        old(future).wf(),
        old(triggers).wf(),
    ensures
        final(future).wf(),
        final(triggers).wf(),
        final(triggers)@ == (match f.recover {
            Some(ancestor) => old(triggers)@.inserted(ancestor, block),
            None => old(triggers)@,
        }),
        final(future)@ == (if f.recover is Some {
            old(future)@
        } else if f.restore_age {
            with_age(old(future)@, block.header.id, first_came)
        } else if f.rebuffer {
            with_again(old(future)@, block, first_came)
        } else {
            old(future)@
        }),
{
    match f.recover {
        Some(ancestor) => {
            let kept = triggers.insert(ancestor, block);
        },
        None => {
            if f.restore_age {
                future.restore_age(&block.header.id, first_came);
            } else if f.rebuffer {
                let kept = future.rebuffer(block, first_came);
            }
        },
    }
}

// ---------------------------------------------------------------------------
// Orphans that have found their parent
// ---------------------------------------------------------------------------
/// A walk over the orphans that descend from a block: all children of one
/// block, then, child by child, theirs.
pub struct OrphanSweep {
    /// Blocks whose children are still to be handled; the next one is last.
    pub parents: Vec<Hash256>,
    /// The children at hand; the next one is first.
    pub children: Vec<Block>,
    /// The children at hand that were stored.
    pub stored: Vec<Hash256>,
}

/// What an `OrphanSweep` holds.
#[verifier::ext_equal]
pub ghost struct SweepView {
    pub parents: Seq<Hash256>,
    pub children: Seq<Block>,
    pub stored: Seq<Hash256>,
}

impl View for OrphanSweep {
    type V = SweepView;

    open spec fn view(&self) -> SweepView {
        SweepView {
            parents: self.parents@,
            children: self.children@,
            stored: self.stored@,
        }
    }
}

/// The sweep and the orphans once the next child is at hand, or all are done.
pub open spec fn refilled(v: SweepView, pool: Seq<Orphan>) -> (SweepView, Seq<Orphan>)
    decreases v.parents.len() + v.stored.len(), v.stored.len(),
{
    if v.children.len() > 0 {
        (v, pool)
    } else if v.stored.len() > 0 {
        refilled(
            SweepView {
                parents: v.parents + v.stored.reverse(),
                children: v.children,
                stored: Seq::empty(),
            },
            pool,
        )
    } else if v.parents.len() == 0 {
        (v, pool)
    } else {
        let (rest, got) = taken_from(pool, v.parents.last(), 0, Seq::empty());
        refilled(
            SweepView { parents: v.parents.drop_last(), children: got, stored: Seq::empty() },
            rest,
        )
    }
}

impl OrphanSweep {
    /// A walk over the descendants of a block.
    pub fn from_parent(parent: Hash256) -> (r: Self)
        ensures
            r@ == (SweepView {
                parents: seq![parent],
                children: Seq::empty(),
                stored: Seq::empty(),
            }),
    {
        let mut parents: Vec<Hash256> = Vec::new();
        parents.push(parent);
        let r = OrphanSweep { parents, children: Vec::new(), stored: Vec::new() };
        assert(r@ =~= (SweepView {
            parents: seq![parent],
            children: Seq::empty(),
            stored: Seq::empty(),
        }));
        r
    }

    /// The next block to handle, taken out of the orphans.
    pub fn next(&mut self, pool: &mut OrphanPool) -> (r: Option<Block>)
        ensures
            ({
                let (v, rest) = refilled(old(self)@, old(pool)@);
                &&& final(pool)@ == rest
                &&& match r {
                    Some(b) => v.children.len() > 0 && b == v.children[0] && final(self)@
                        == (SweepView { children: v.children.drop_first(), ..v }),
                    None => v.children.len() == 0 && final(self)@ == v,
                }
            }),
    {
        loop
            invariant
                refilled(self@, pool@) == refilled(old(self)@, old(pool)@),
            decreases self.parents@.len() + self.stored@.len(), self.stored@.len(),
        {
            if self.children.len() > 0 {
                let ghost v = self@;
                let b = self.children.remove(0);
                assert(self@.children =~= v.children.drop_first());
                return Some(b);
            }
            if self.stored.len() > 0 {
                let ghost v = self@;
                while self.stored.len() > 0
                    invariant
                        self.children@ == v.children,
                        v.children.len() == 0,
                        v.stored.len() > 0,
                        self.stored@.len() <= v.stored.len(),
                        self.stored@ == v.stored.take(self.stored@.len() as int),
                        self.parents@ == v.parents + v.stored.skip(
                            self.stored@.len() as int,
                        ).reverse(),
                    decreases self.stored@.len(),
                {
                    let ghost n = self.stored@.len() as int;
                    assert(v.stored.skip(n - 1).reverse() =~= v.stored.skip(n).reverse().push(
                        v.stored[n - 1],
                    ));
                    if let Some(id) = self.stored.pop() {
                        self.parents.push(id);
                    }
                }
                assert(v.stored.skip(0) =~= v.stored);
                assert(self@ =~= (SweepView {
                    parents: v.parents + v.stored.reverse(),
                    children: v.children,
                    stored: Seq::empty(),
                }));
            } else {
                let ghost v = self@;
                match self.parents.pop() {
                    None => {
                        return None;
                    },
                    Some(p) => {
                        self.children = pool.take_children(&p);
                        assert(self@ =~= (SweepView {
                            parents: v.parents.drop_last(),
                            children: self.children@,
                            stored: Seq::empty(),
                        }));
                    },
                }
            }
        }
    }

    /// Takes note of what became of a child. Where the node has to stop, the
    /// children at hand are given up.
    pub fn settle(&mut self, id: Hash256, f: &FollowUp)
        ensures
            final(self)@ == (if f.halt {
                SweepView { children: Seq::empty(), stored: Seq::empty(), ..old(self)@ }
            } else if f.adopt_children {
                SweepView { stored: old(self)@.stored.push(id), ..old(self)@ }
            } else {
                old(self)@
            }),
    {
        if f.halt {
            self.children = Vec::new();
            self.stored = Vec::new();
        } else if f.adopt_children {
            self.stored.push(id);
        }
    }
}

} // verus!
