//! Checking the chain tip that a peer claims: one attempt, step by step.
//!
//! The claim is tied to an anchor: the last block that the peer shares with
//! our own chain, or, for a node without a chain, the checkpoint. From there
//! on every header up to the claimed tip is fetched and checked in full, and
//! the work is summed up. The work that the peer claims plays no part.
use crate::ancestor::{
    interpret_ancestor_probe_response, probe_meaning, AncestorSearch, SearchPhase,
};
use crate::chain::{BlockHeader, Checkpoint, MAX_GETBLOCKS_ITEMS};
use crate::clock::{after_secs, age, later, within_secs, SECOND};
use crate::hash::Hash256;
use crate::hexcodec::hex_text;
use crate::stages::linked;
use crate::text::{cat2, cat_num, decimal, push_decimal};
use crate::tip_validation::{
    anchor_work, anchor_work_of, authenticate_prechckpt_headers, check_link, check_pow,
    check_target, compute_deadline, deadline_secs, descent_fault, forward_work, leads_down,
    link_fault, pow_fault, push_hash, reports, sum_forward_work, target_fault, text_result,
    TipFault, TipValidationError, ValidationInputs, ValidationRegime, VerifiedTip,
};
use crate::work::be_nat;
use vstd::prelude::*;
use vstd::string::*;

verus! {

/// How many blocks share a difficulty target.
pub const RETARGET_WINDOW: u64 = 4_320;

/// What an attempt has to know about the network and the machine.
#[derive(Clone, Copy, Debug)]
pub struct TipCheckConfig {
    pub checkpoint: Checkpoint,
    /// How long a node without a chain may make no headway, in seconds.
    pub stall_secs: u64,
    /// How many cores the machine has.
    pub cores: u32,
}

/// The block that a claim is tied to.
#[derive(Clone, Copy, Debug)]
pub struct Anchor {
    pub height: u64,
    pub header: BlockHeader,
    /// Whether it is the checkpoint, rather than a block of our own chain.
    pub is_checkpoint: bool,
}

/// How far an attempt has come.
#[derive(Clone, Copy, Debug, PartialEq, Eq, Structural)]
pub enum TipPhase {
    /// A slot is to be taken.
    Slot,
    /// The checkpoint's header is to be fetched.
    Checkpoint,
    /// The peer's header at some height is to be compared with our own.
    Probe,
    /// The id of our own block at the anchor's height is to be looked up.
    AnchorId,
    /// The header of the anchor is to be looked up.
    AnchorHead,
    /// Headers below the checkpoint are to be fetched.
    Lookback,
    /// Headers above the anchor are to be fetched.
    Forward,
    /// The target of the next header is to be worked out.
    Target,
    /// The proof of work of the next header is to be checked.
    Pow,
    /// The work up to the anchor is to be looked up.
    Work,
    /// The anchor is to be looked up again.
    Recheck,
    /// The attempt is over.
    Done,
}

/// What an attempt asks for.
#[derive(Clone, Copy, Debug)]
pub enum TipAction {
    TakeSlot,
    /// Ask the peer for headers.
    FetchHeaders { start_height: u64, max_count: u32 },
    /// Ask the peer for the header at a height, and look up our own block
    /// there.
    FetchProbe { height: u64 },
    /// Look up the id of our own block at a height.
    FindBlockAt { height: u64 },
    /// Look up a header.
    FindHeader { id: Hash256 },
    /// Work out the target of a header.
    FindTarget { header: BlockHeader },
    /// Check the proof of work of a header.
    CheckPow { header: BlockHeader },
    /// Look up the work of the chain up to a block, and whether the work of
    /// the checkpoint is still trusted.
    FindWork { id: Hash256 },
    Finished,
}

/// What came of it.
pub enum TipReply {
    Slot(bool),
    Headers(Vec<BlockHeader>),
    Probe { headers: Vec<BlockHeader>, ours: Option<Hash256> },
    /// The request could not be sent, or the session ended.
    Disconnected,
    /// No answer came in time.
    TimedOut,
    BlockAt(Result<Option<Hash256>, String>),
    Header(Result<Option<BlockHeader>, String>),
    Target(Result<Hash256, String>),
    Pow(Result<bool, String>),
    Work { stored: Result<Option<[u8; 32]>, String>, trusted: bool },
}

/// What a `TipReply` says.
pub ghost enum TipNews {
    Slot(bool),
    Headers(Seq<BlockHeader>),
    Probe { headers: Seq<BlockHeader>, ours: Option<Hash256> },
    Disconnected,
    TimedOut,
    BlockAt(Result<Option<Hash256>, Seq<char>>),
    Header(Result<Option<BlockHeader>, Seq<char>>),
    Target(Result<Hash256, Seq<char>>),
    Pow(Result<bool, Seq<char>>),
    Work { stored: Result<Option<[u8; 32]>, Seq<char>>, trusted: bool },
}

impl View for TipReply {
    type V = TipNews;

    open spec fn view(&self) -> TipNews {
        match self {
            TipReply::Slot(b) => TipNews::Slot(*b),
            TipReply::Headers(h) => TipNews::Headers(h@),
            TipReply::Probe { headers, ours } => TipNews::Probe { headers: headers@, ours: *ours },
            TipReply::Disconnected => TipNews::Disconnected,
            TipReply::TimedOut => TipNews::TimedOut,
            TipReply::BlockAt(r) => TipNews::BlockAt(text_result(*r)),
            TipReply::Header(r) => TipNews::Header(text_result(*r)),
            TipReply::Target(r) => TipNews::Target(text_result(*r)),
            TipReply::Pow(r) => TipNews::Pow(text_result(*r)),
            TipReply::Work { stored, trusted } => TipNews::Work {
                stored: text_result(*stored),
                trusted: *trusted,
            },
        }
    }
}

/// A confirmed tip, with its work as a number.
pub ghost struct VerifiedView {
    pub height: u64,
    pub block_id: Hash256,
    pub work: nat,
    pub anchor_height: u64,
    pub anchor_block_id: Hash256,
    pub headers_validated: nat,
}

impl View for VerifiedTip {
    type V = VerifiedView;

    open spec fn view(&self) -> VerifiedView {
        VerifiedView {
            height: self.height,
            block_id: self.block_id,
            work: be_nat(self.verified_cumulative_work@),
            anchor_height: self.anchor_height,
            anchor_block_id: self.anchor_block_id,
            headers_validated: self.headers_validated as nat,
        }
    }
}

/// An outcome as the model has it.
pub open spec fn outcome_view(o: Result<VerifiedTip, TipValidationError>) -> Result<
    VerifiedView,
    TipFault,
> {
    match o {
        Ok(t) => Ok(t@),
        Err(e) => Err(e@),
    }
}

/// An attempt to confirm a claimed tip.
pub struct TipCheck {
    pub inputs: ValidationInputs,
    pub config: TipCheckConfig,
    pub phase: TipPhase,
    /// When the attempt has to be over.
    pub deadline: u64,
    pub search: AncestorSearch,
    /// The id of the anchor, once it has been looked up.
    pub anchor_id: Option<Hash256>,
    pub anchor: Option<Anchor>,
    /// Headers below the checkpoint, oldest first.
    pub lookback: Vec<BlockHeader>,
    /// Headers that have come and are still to be checked.
    pub pending: Vec<BlockHeader>,
    /// Headers above the anchor that have been checked.
    pub validated: Vec<BlockHeader>,
    /// How many headers above the anchor are still missing.
    pub left: u64,
    /// When a header was last found good.
    pub last_progress: u64,
    /// The work up to the anchor.
    pub work: Option<[u8; 32]>,
    pub outcome: Option<Result<VerifiedTip, TipValidationError>>,
}

/// What a `TipCheck` holds.
pub ghost struct TipView {
    pub inputs: ValidationInputs,
    pub config: TipCheckConfig,
    pub phase: TipPhase,
    pub deadline: u64,
    pub search: AncestorSearch,
    pub anchor_id: Option<Hash256>,
    pub anchor: Option<Anchor>,
    pub lookback: Seq<BlockHeader>,
    pub pending: Seq<BlockHeader>,
    pub validated: Seq<BlockHeader>,
    pub left: u64,
    pub last_progress: u64,
    pub work: Option<[u8; 32]>,
    pub outcome: Option<Result<VerifiedView, TipFault>>,
}

impl View for TipCheck {
    type V = TipView;

    open spec fn view(&self) -> TipView {
        TipView {
            inputs: self.inputs,
            config: self.config,
            phase: self.phase,
            deadline: self.deadline,
            search: self.search,
            anchor_id: self.anchor_id,
            anchor: self.anchor,
            lookback: self.lookback@,
            pending: self.pending@,
            validated: self.validated@,
            left: self.left,
            last_progress: self.last_progress,
            work: self.work,
            outcome: match self.outcome {
                Some(o) => Some(outcome_view(o)),
                None => None,
            },
        }
    }
}

// ---------------------------------------------------------------------------
// Model
// ---------------------------------------------------------------------------
/// What is wrong with the answer to the request for the checkpoint's header.
pub open spec fn checkpoint_fault(h: Seq<BlockHeader>, c: Checkpoint) -> Option<TipFault> {
    if h.len() == 0 {
        Some(TipFault::PeerNoForwardData("empty response to checkpoint-header request"@))
    } else if h.len() != 1 {
        Some(
            TipFault::DeliveredInvalidHeader(
                "checkpoint fetch returned "@ + decimal(h.len()) + " headers, expected 1"@,
            ),
        )
    } else if h[0].height != c.height {
        Some(
            TipFault::DeliveredInvalidHeader(
                "peer returned height "@ + decimal(h[0].height as nat)
                    + " for checkpoint request at "@ + decimal(c.height as nat),
            ),
        )
    } else if h[0].id != c.hash {
        Some(
            TipFault::DeliveredInvalidHeader(
                "peer served header at checkpoint height "@ + decimal(c.height as nat)
                    + " with block_id "@ + hex_text(h[0].id.0@) + " != ASSUME_VALID_HASH"@,
            ),
        )
    } else {
        None
    }
}

/// Where the headers below the checkpoint start that a target above it may
/// depend on.
pub open spec fn lookback_start(c: Checkpoint) -> int {
    if c.height >= RETARGET_WINDOW - 1 {
        c.height - (RETARGET_WINDOW - 1)
    } else {
        0
    }
}

/// Whether the chain up to a height depends on headers below the checkpoint:
/// it does when the target changes above the checkpoint.
pub open spec fn needs_lookback(c: Checkpoint, claim: u64) -> bool {
    claim >= (c.height as int / RETARGET_WINDOW as int + 1) * RETARGET_WINDOW
}

/// The lesser of a count and the most that a request may ask for.
pub open spec fn batch_count(n: int) -> u32 {
    if n < MAX_GETBLOCKS_ITEMS {
        n as u32
    } else {
        MAX_GETBLOCKS_ITEMS as u32
    }
}

impl TipView {
    /// The height that a batch of headers below the checkpoint starts with.
    pub open spec fn lookback_next(self) -> int {
        lookback_start(self.config.checkpoint) + self.lookback.len()
    }

    /// The height of the next header above the anchor.
    pub open spec fn next_height(self) -> int {
        self.inputs.claim_height - self.left + 1
    }

    /// The headers that the target of the next one is worked out over.
    pub open spec fn overlaid(self) -> Seq<BlockHeader> {
        self.lookback + seq![self.anchor->0.header] + self.validated
    }

    /// How many headers the next request asks for: all that are missing, or as
    /// many as fit.
    pub open spec fn forward_count(self) -> u32 {
        batch_count(self.left as int)
    }

    /// The id of the last block that was found good.
    pub open spec fn last_id(self) -> Hash256 {
        if self.validated.len() > 0 {
            self.validated.last().id
        } else {
            self.anchor->0.header.id
        }
    }

    /// The attempt fails.
    pub open spec fn failed(self, f: TipFault) -> TipView {
        TipView { phase: TipPhase::Done, outcome: Some(Err(f)), ..self }
    }

    /// The attempt succeeds.
    pub open spec fn confirmed(self, work: nat) -> TipView {
        TipView {
            phase: TipPhase::Done,
            outcome: Some(
                Ok(
                    VerifiedView {
                        height: self.inputs.claim_height,
                        block_id: self.inputs.claim_block_id,
                        work,
                        anchor_height: self.anchor->0.height,
                        anchor_block_id: self.anchor->0.header.id,
                        headers_validated: self.validated.len(),
                    },
                ),
            ),
            ..self
        }
    }

    /// The way to an anchor is chosen.
    pub open spec fn with_slot(self, now: u64) -> TipView {
        let i = self.inputs;
        let regime = ValidationRegime::at_height(i.our_tip_height_at_start);
        let expected = if i.claim_height > i.our_tip_height_at_start {
            (i.claim_height - i.our_tip_height_at_start) as u64
        } else {
            0
        };
        let v = TipView {
            deadline: later(
                now,
                deadline_secs(expected, regime, self.config.cores) as u64,
            ) as u64,
            ..self
        };
        if regime is SteadyState {
            TipView {
                phase: TipPhase::Probe,
                search: AncestorSearch::start(i.our_tip_height_at_start, i.claim_height),
                ..v
            }
        } else if i.assume_valid && i.assume_valid_cumulative_work_trusted {
            TipView { phase: TipPhase::Checkpoint, ..v }
        } else {
            v.failed(
                TipFault::Internal(
                    "bootstrap regime without trusted checkpoint constant; legacy path handles this"@,
                ),
            )
        }
    }

    /// The anchor is found.
    pub open spec fn with_anchor(self, a: Anchor, now: u64) -> TipView {
        let v = TipView { anchor: Some(a), ..self };
        if self.inputs.claim_height <= a.height {
            TipView { phase: TipPhase::Work, ..v }
        } else {
            let w = TipView {
                left: (self.inputs.claim_height - a.height) as u64,
                last_progress: now,
                ..v
            };
            if a.is_checkpoint && needs_lookback(self.config.checkpoint, self.inputs.claim_height) {
                if self.config.checkpoint.height == 0 {
                    w.with_lookback(now)
                } else {
                    TipView { phase: TipPhase::Lookback, ..w }
                }
            } else {
                TipView { phase: TipPhase::Forward, ..w }
            }
        }
    }

    /// All headers below the checkpoint have come.
    pub open spec fn with_lookback(self, now: u64) -> TipView {
        if self.lookback.len() != RETARGET_WINDOW - 1 {
            self.failed(
                TipFault::DeliveredInvalidHeader(
                    "pre-checkpoint fetch incomplete: got "@ + decimal(self.lookback.len())
                        + ", expected "@ + decimal((RETARGET_WINDOW - 1) as nat),
                ),
            )
        } else if !leads_down(self.anchor->0.header, self.lookback.reverse()) {
            self.failed(descent_fault(self.anchor->0.header, self.lookback.reverse()))
        } else {
            TipView { phase: TipPhase::Forward, last_progress: now, ..self }
        }
    }

    /// A batch of headers below the checkpoint comes.
    pub open spec fn with_lookback_batch(self, b: Seq<BlockHeader>, now: u64) -> TipView {
        let next = self.lookback_next();
        let h = self.config.checkpoint.height;
        match lookback_fault(b, next, batch_count(h - next)) {
            Some(f) => self.failed(f),
            None => self.with_more_lookback(b, now),
        }
    }

    /// Headers below the checkpoint are kept.
    pub open spec fn with_more_lookback(self, b: Seq<BlockHeader>, now: u64) -> TipView {
        let v = TipView { lookback: self.lookback + b, ..self };
        if v.lookback_next() >= v.config.checkpoint.height {
            v.with_lookback(now)
        } else {
            v
        }
    }

    /// The next header is looked at, or, where there is none, the next batch
    /// is fetched, or the chain is complete.
    pub open spec fn at_next_header(self) -> TipView {
        if self.pending.len() > 0 {
            match link_fault(self.last_id(), self.next_height() as u64, self.pending[0]) {
                Some(f) => self.failed(f),
                None => TipView { phase: TipPhase::Target, ..self },
            }
        } else if self.left > 0 {
            TipView { phase: TipPhase::Forward, ..self }
        } else if self.last_id() != self.inputs.claim_block_id {
            self.failed(
                TipFault::DeliveredInvalidHeader(
                    "forward chain terminates at block_id "@ + hex_text(self.last_id().0@)
                        + " but peer claimed "@ + hex_text(self.inputs.claim_block_id.0@),
                ),
            )
        } else {
            TipView { phase: TipPhase::Work, ..self }
        }
    }

    /// A batch of headers above the anchor comes.
    pub open spec fn with_forward_batch(self, b: Seq<BlockHeader>) -> TipView {
        let next = self.next_height();
        let count = self.forward_count();
        if b.len() == 0 {
            self.failed(
                TipFault::PeerNoForwardData(
                    "empty forward batch starting at height "@ + decimal(next as nat) + ""@,
                ),
            )
        } else if b[0].height != next || b.len() > count {
            self.failed(
                TipFault::DeliveredInvalidHeader(
                    "malformed batch: start height "@ + decimal(next as nat) + ", got "@ + decimal(
                        b[0].height as nat,
                    ) + "; batch len "@ + decimal(b.len()) + ", max "@ + decimal(count as nat),
                ),
            )
        } else {
            TipView { pending: b, ..self }.at_next_header()
        }
    }

    /// The peer's header at a height is compared with our own block.
    pub open spec fn with_probe(self, h: Seq<BlockHeader>, ours: Option<Hash256>) -> TipView {
        let at = self.search.probing()->0;
        match probe_meaning(h, at, ours) {
            Err(m) => self.failed(TipFault::DeliveredInvalidHeader(m)),
            Ok(None) => self.failed(
                TipFault::PeerNoForwardData(
                    if self.search.phase is Top {
                        "empty response to ancestor probe at clamped height "@ + decimal(at as nat)
                            + " (our_height_start="@ + decimal(
                            self.inputs.our_tip_height_at_start as nat,
                        ) + ", claim_height="@ + decimal(self.inputs.claim_height as nat) + ")"@
                    } else {
                        "empty / no-data response to ancestor midpoint probe at height "@ + decimal(
                            at as nat,
                        ) + ""@
                    },
                ),
            ),
            Ok(Some(b)) => {
                let search = self.search.next(Some(b));
                TipView {
                    search,
                    phase: if search.phase is Found {
                        TipPhase::AnchorId
                    } else {
                        TipPhase::Probe
                    },
                    ..self
                }
            },
        }
    }

    /// The work up to the anchor is known, or not.
    pub open spec fn with_work(
        self,
        stored: Result<Option<[u8; 32]>, Seq<char>>,
        trusted: bool,
    ) -> TipView {
        let a = self.anchor->0;
        match anchor_work_of(
            stored,
            a.header.id,
            a.is_checkpoint,
            trusted,
            self.config.checkpoint,
        ) {
            Err(f) => self.failed(f),
            Ok(w) => {
                let v = TipView { work: Some(w), ..self };
                if self.inputs.claim_height <= a.height || a.is_checkpoint {
                    v.confirmed(forward_work(be_nat(w@), self.validated))
                } else {
                    TipView { phase: TipPhase::Recheck, ..v }
                }
            },
        }
    }

    /// The state after a reply.
    pub open spec fn next(self, reply: TipNews, now: u64) -> TipView {
        match (self.phase, reply) {
            (_, TipNews::Disconnected) => self.failed(TipFault::PeerDisconnected),
            (_, TipNews::TimedOut) => self.failed(TipFault::FetchTimeout),
            (TipPhase::Slot, TipNews::Slot(granted)) => if granted {
                self.with_slot(now)
            } else {
                self.failed(TipFault::NoSlotAvailable)
            },
            (TipPhase::Checkpoint, TipNews::Headers(h)) => match checkpoint_fault(
                h,
                self.config.checkpoint,
            ) {
                Some(f) => self.failed(f),
                None => self.with_anchor(
                    Anchor {
                        height: self.config.checkpoint.height,
                        header: h[0],
                        is_checkpoint: true,
                    },
                    now,
                ),
            },
            (TipPhase::Probe, TipNews::Probe { headers, ours }) => self.with_probe(headers, ours),
            (TipPhase::AnchorId, TipNews::BlockAt(r)) => match r {
                Err(m) => self.failed(TipFault::Internal("storage: "@ + m)),
                Ok(None) => self.failed(
                    TipFault::Internal(
                        "no block at anchor_height "@ + decimal(self.search.phase->Found_0 as nat)
                            + " in storage"@,
                    ),
                ),
                Ok(Some(id)) => TipView {
                    anchor_id: Some(id),
                    phase: TipPhase::AnchorHead,
                    ..self
                },
            },
            (TipPhase::AnchorHead, TipNews::Header(r)) => match r {
                Err(m) => self.failed(TipFault::Internal("get_header: "@ + m)),
                Ok(None) => self.failed(
                    TipFault::Internal("no header at anchor "@ + hex_text((self.anchor_id->0).0@)),
                ),
                Ok(Some(header)) => self.with_anchor(
                    Anchor {
                        height: self.search.phase->Found_0,
                        header: BlockHeader { id: self.anchor_id->0, ..header },
                        is_checkpoint: false,
                    },
                    now,
                ),
            },
            (TipPhase::Lookback, TipNews::Headers(b)) => self.with_lookback_batch(b, now),
            (TipPhase::Forward, TipNews::Headers(b)) => self.with_forward_batch(b),
            (TipPhase::Target, TipNews::Target(r)) => match target_fault(self.pending[0], r) {
                Some(f) => self.failed(f),
                None => TipView { phase: TipPhase::Pow, ..self },
            },
            (TipPhase::Pow, TipNews::Pow(r)) => match pow_fault(self.pending[0], r) {
                Some(f) => self.failed(f),
                None => TipView {
                    validated: self.validated.push(self.pending[0]),
                    pending: self.pending.drop_first(),
                    left: (self.left - 1) as u64,
                    last_progress: now,
                    ..self
                }.at_next_header(),
            },
            (TipPhase::Work, TipNews::Work { stored, trusted }) => self.with_work(stored, trusted),
            (TipPhase::Recheck, TipNews::BlockAt(r)) => match r {
                Err(m) => self.failed(TipFault::Internal("get_block_id_by_height: "@ + m)),
                Ok(c) => if c == Some(self.anchor->0.header.id) {
                    self.confirmed(forward_work(be_nat(self.work->0@), self.validated))
                } else {
                    self.failed(TipFault::AnchorOrphaned)
                },
            },
            _ => self,
        }
    }

    /// The state once the time has been looked at.
    pub open spec fn polled(self, now: u64) -> TipView {
        let timed = self.phase is Lookback || self.phase is Forward || (self.phase is Probe
            && !(self.search.phase is Top));
        if timed && now >= self.deadline {
            self.failed(TipFault::DeadlineExceeded)
        } else if self.phase is Forward && self.inputs.our_tip_height_at_start == 0 && age(
            now,
            self.last_progress,
        ) >= self.config.stall_secs * SECOND {
            self.failed(TipFault::BootstrapStalled)
        } else {
            self
        }
    }

    /// What is asked for.
    pub open spec fn action(self) -> TipAction {
        match self.phase {
            TipPhase::Slot => TipAction::TakeSlot,
            TipPhase::Checkpoint => TipAction::FetchHeaders {
                start_height: self.config.checkpoint.height,
                max_count: 1,
            },
            TipPhase::Probe => TipAction::FetchProbe { height: self.search.probing()->0 },
            TipPhase::AnchorId => TipAction::FindBlockAt { height: self.search.phase->Found_0 },
            TipPhase::AnchorHead => TipAction::FindHeader { id: self.anchor_id->0 },
            TipPhase::Lookback => TipAction::FetchHeaders {
                start_height: self.lookback_next() as u64,
                max_count: batch_count(self.config.checkpoint.height - self.lookback_next()),
            },
            TipPhase::Forward => TipAction::FetchHeaders {
                start_height: self.next_height() as u64,
                max_count: self.forward_count(),
            },
            TipPhase::Target => TipAction::FindTarget { header: self.pending[0] },
            TipPhase::Pow => TipAction::CheckPow { header: self.pending[0] },
            TipPhase::Work => TipAction::FindWork { id: self.anchor->0.header.id },
            TipPhase::Recheck => TipAction::FindBlockAt { height: self.anchor->0.height },
            TipPhase::Done => TipAction::Finished,
        }
    }

    /// Whether a reply answers what was asked for.
    pub open spec fn answered_by(self, reply: TipNews) -> bool {
        let fetched = reply is Disconnected || reply is TimedOut;
        match self.phase {
            TipPhase::Slot => reply is Slot,
            TipPhase::Checkpoint | TipPhase::Lookback | TipPhase::Forward => reply is Headers
                || fetched,
            TipPhase::Probe => reply is Probe || fetched,
            TipPhase::AnchorId | TipPhase::Recheck => reply is BlockAt,
            TipPhase::AnchorHead => reply is Header,
            TipPhase::Target => reply is Target,
            TipPhase::Pow => reply is Pow,
            TipPhase::Work => reply is Work,
            TipPhase::Done => false,
        }
    }

    /// The headers that were checked are a chain on top of the anchor.
    pub open spec fn chain_holds(self) -> bool {
        &&& linked(self.validated)
        &&& forall|i: int|
            0 <= i < self.validated.len() ==> (#[trigger] self.validated[i]).height
                == self.anchor->0.height + 1 + i
        &&& self.validated.len() > 0 ==> self.validated[0].prev_block_id
            == self.anchor->0.header.id
    }

    /// What is known at each phase.
    pub open spec fn inv(self) -> bool {
        let i = self.inputs;
        let anchored = self.anchor is Some && self.anchor->0.height < i.claim_height
            && self.chain_holds() && self.left + self.validated.len() == i.claim_height
            - self.anchor->0.height;
        &&& ValidationRegime::at_height(i.our_tip_height_at_start).rate(self.config.cores)
            <= u32::MAX
        &&& match self.phase {
            TipPhase::Slot => self.search.wf() && self.validated.len() == 0 && self.lookback.len()
                == 0 && self.pending.len() == 0,
            TipPhase::Checkpoint | TipPhase::AnchorHead => self.validated.len() == 0
                && self.lookback.len() == 0 && self.pending.len() == 0 && (self.phase
                is AnchorHead ==> self.anchor_id is Some && self.search.phase is Found),
            TipPhase::Probe => self.search.wf() && self.search.probing() is Some
                && self.validated.len() == 0 && self.lookback.len() == 0 && self.pending.len() == 0,
            TipPhase::AnchorId => self.search.phase is Found && self.validated.len() == 0
                && self.lookback.len() == 0 && self.pending.len() == 0,
            TipPhase::Lookback => anchored && self.validated.len() == 0 && self.pending.len() == 0
                && self.lookback_next() < self.config.checkpoint.height,
            TipPhase::Forward => anchored && self.left > 0 && self.pending.len() == 0,
            TipPhase::Target | TipPhase::Pow => {
                &&& anchored
                &&& 0 < self.pending.len() <= self.left
                &&& link_fault(self.last_id(), self.next_height() as u64, self.pending[0]) is None
            },
            TipPhase::Work | TipPhase::Recheck => {
                &&& self.anchor is Some
                &&& self.phase is Recheck ==> self.work is Some && !(self.anchor->0.is_checkpoint)
                &&& if i.claim_height <= self.anchor->0.height {
                    self.validated.len() == 0 && self.phase is Work
                } else {
                    anchored && self.left == 0 && self.last_id() == i.claim_block_id
                }
            },
            TipPhase::Done => {
                &&& self.outcome is Some
                &&& self.outcome->0 matches Ok(t) ==> self.supports(t)
            },
        }
    }

    /// What a confirmed tip rests on.
    pub open spec fn supports(self, t: VerifiedView) -> bool {
        let i = self.inputs;
        &&& self.anchor is Some
        &&& self.work is Some
        &&& t.height == i.claim_height
        &&& t.block_id == i.claim_block_id
        &&& t.anchor_height == self.anchor->0.height
        &&& t.anchor_block_id == self.anchor->0.header.id
        &&& t.headers_validated == self.validated.len()
        &&& t.work == forward_work(be_nat(self.work->0@), self.validated)
        &&& self.chain_holds()
        &&& i.claim_height <= self.anchor->0.height ==> self.validated.len() == 0
        &&& i.claim_height > self.anchor->0.height ==> self.validated.len() == i.claim_height
            - self.anchor->0.height && self.last_id() == i.claim_block_id
    }
}

/// A confirmed tip rests on a chain of headers: they are linked, from the
/// anchor up to the claimed block, one for each height, and the work is that
/// of the anchor with that of each header on top.
pub proof fn law_confirmed_tip_rests_on_a_chain(v: TipView, t: VerifiedView)
    requires
        v.inv(),
        v.phase is Done,
        v.outcome == Some(Ok::<VerifiedView, TipFault>(t)),
        v.inputs.claim_height > v.anchor->0.height,
    ensures
        t.height == v.inputs.claim_height,
        t.block_id == v.inputs.claim_block_id,
        linked(v.validated),
        v.validated.len() == t.height - t.anchor_height,
        v.validated[0].prev_block_id == t.anchor_block_id,
        v.validated.last().id == t.block_id,
        v.validated.last().height == t.height,
        t.work == forward_work(be_nat(v.work->0@), v.validated),
{
}

/// A header goes into the chain only if it names the last one as its parent,
/// is one above it, has exactly the target that it has to have, and its proof
/// of work holds.
pub proof fn law_only_good_headers_count(
    v: TipView,
    target: Result<Hash256, Seq<char>>,
    pow: Result<bool, Seq<char>>,
    now: u64,
    later_now: u64,
)
    requires
        v.inv(),
        v.phase is Target,
        v.next(TipNews::Target(target), now).phase is Pow,
        v.next(TipNews::Target(target), now).next(TipNews::Pow(pow), later_now).validated.len()
            > v.validated.len(),
    ensures
        v.pending[0].prev_block_id == v.last_id(),
        v.pending[0].height == v.next_height(),
        target == Ok::<_, Seq<char>>(v.pending[0].difficulty_target),
        pow == Ok::<_, Seq<char>>(true),
{
}

/// A tip above its anchor is confirmed only if the anchor is the checkpoint or
/// was found, once all headers had been checked, to be still part of our chain.
pub proof fn law_anchor_is_rechecked(v: TipView, reply: TipNews, now: u64, t: VerifiedView)
    requires
        v.inv(),
        !(v.phase is Done),
        v.next(reply, now).phase is Done,
        v.next(reply, now).outcome == Some(Ok::<VerifiedView, TipFault>(t)),
        t.height > t.anchor_height,
    ensures
        v.anchor->0.is_checkpoint || (v.phase is Recheck && reply == TipNews::BlockAt(
            Ok(Some(t.anchor_block_id)),
        )),
{
}

/// A header that a peer sends becomes the anchor only if it has the id that
/// the checkpoint names.
pub proof fn law_checkpoint_anchor_is_vouched_for(v: TipView, headers: Seq<BlockHeader>, now: u64)
    requires
        v.inv(),
        v.phase is Checkpoint,
        !(v.next(TipNews::Headers(headers), now).outcome matches Some(Err(_))),
    ensures
        v.next(TipNews::Headers(headers), now).anchor matches Some(a) && a.is_checkpoint
            && a.header.id == v.config.checkpoint.hash && a.height == v.config.checkpoint.height,
{
}

/// Headers below the checkpoint are built upon only once they lead, parent by
/// parent, down from the checkpoint, and there are as many as a target depends
/// on.
pub proof fn law_lookback_is_authenticated(v: TipView, headers: Seq<BlockHeader>, now: u64)
    requires
        v.inv(),
        v.phase is Lookback,
        v.next(TipNews::Headers(headers), now).phase is Forward,
    ensures
        leads_down(
            v.anchor->0.header,
            v.next(TipNews::Headers(headers), now).lookback.reverse(),
        ),
        v.next(TipNews::Headers(headers), now).lookback.len() == RETARGET_WINDOW - 1,
        v.next(TipNews::Headers(headers), now).overlaid().take(RETARGET_WINDOW - 1)
            == v.next(TipNews::Headers(headers), now).lookback,
{
    let w = v.next(TipNews::Headers(headers), now);
    assert(w.overlaid().take(RETARGET_WINDOW - 1) =~= w.lookback);
}

/// The peer is blamed only for headers that it sent: not for the end of a
/// session, for silence, for a lack of slots, or for what our own side could
/// not do.
pub proof fn law_silence_is_not_blamed(v: TipView, now: u64)
    requires
        v.inv(),
        !(v.phase is Done),
    ensures
        v.next(TipNews::Disconnected, now).outcome == Some(
            Err::<VerifiedView, _>(TipFault::PeerDisconnected),
        ),
        v.next(TipNews::TimedOut, now).outcome == Some(
            Err::<VerifiedView, _>(TipFault::FetchTimeout),
        ),
        v.phase is Slot ==> v.next(TipNews::Slot(false), now).outcome == Some(
            Err::<VerifiedView, _>(TipFault::NoSlotAvailable),
        ),
        v.phase is Forward ==> v.next(TipNews::Headers(Seq::empty()), now).outcome->0->Err_0
            is PeerNoForwardData,
        v.polled(now).phase is Done ==> !(v.polled(now).outcome->0->Err_0
            is DeliveredInvalidHeader),
{
}

// ---------------------------------------------------------------------------
// Code
// ---------------------------------------------------------------------------
fn check_checkpoint_answer(h: &Vec<BlockHeader>, c: &Checkpoint) -> (r: Result<
    (),
    TipValidationError,
>)
    ensures
        reports(r, checkpoint_fault(h@, *c)),
{
    if h.len() == 0 {
        return Err(
            TipValidationError::PeerNoForwardData(
                String::from_str("empty response to checkpoint-header request"),
            ),
        );
    }
    if h.len() != 1 {
        return Err(
            TipValidationError::DeliveredInvalidHeader(
                cat_num("checkpoint fetch returned ", h.len() as u64, " headers, expected 1"),
            ),
        );
    }
    if h[0].height != c.height {
        let mut s = cat_num("peer returned height ", h[0].height, " for checkpoint request at ");
        push_decimal(&mut s, c.height);
        return Err(TipValidationError::DeliveredInvalidHeader(s));
    }
    let computed = h[0].block_id();
    if computed != c.hash {
        let mut s = cat_num(
            "peer served header at checkpoint height ",
            c.height,
            " with block_id ",
        );
        push_hash(&mut s, &computed);
        s.append(" != ASSUME_VALID_HASH");
        return Err(TipValidationError::DeliveredInvalidHeader(s));
    }
    Ok(())
}

fn append_headers(out: &mut Vec<BlockHeader>, s: &Vec<BlockHeader>)
    ensures
        final(out)@ == old(out)@ + s@,
{
    let n: usize = s.len();
    let mut i: usize = 0;
    assert(old(out)@ + s@.take(0) =~= old(out)@);
    while i < n
        invariant
            n == s@.len(),
            i <= n,
            out@ == old(out)@ + s@.take(i as int),
        decreases n - i,
    {
        out.push(s[i]);
        assert(out@ =~= old(out)@ + s@.take(i + 1));
        i = i + 1;
    }
    assert(s@.take(n as int) =~= s@);
}

fn reversed(s: &Vec<BlockHeader>) -> (r: Vec<BlockHeader>)
    ensures
        r@ == s@.reverse(),
{
    let mut out: Vec<BlockHeader> = Vec::new();
    let n: usize = s.len();
    let mut i: usize = 0;
    while i < n
        invariant
            n == s@.len(),
            i <= n,
            out@ == s@.reverse().take(i as int),
        decreases n - i,
    {
        out.push(s[n - 1 - i]);
        assert(out@ =~= s@.reverse().take(i + 1));
        i = i + 1;
    }
    assert(s@.reverse().take(n as int) =~= s@.reverse());
    out
}

/// What is wrong with a batch of headers below the checkpoint.
pub open spec fn lookback_fault(b: Seq<BlockHeader>, next: int, count: u32) -> Option<TipFault> {
    if b.len() == 0 {
        Some(
            TipFault::PeerNoForwardData(
                "empty pre-checkpoint batch at start_height "@ + decimal(next as nat) + ""@,
            ),
        )
    } else if b[0].height != next || b.len() > count {
        Some(
            TipFault::DeliveredInvalidHeader(
                "malformed pre-checkpoint batch at start_height "@ + decimal(next as nat)
                    + ": len "@ + decimal(b.len()) + ", first height "@ + decimal(
                    b[0].height as nat,
                ) + " (expected start "@ + decimal(next as nat) + ", max "@ + decimal(
                    count as nat,
                ) + ")"@,
            ),
        )
    } else {
        None
    }
}

proof fn lemma_lookback_done(v: TipView, headers: Seq<BlockHeader>, now: u64)
    requires
        v.inv(),
        v.phase is Lookback,
    ensures
        (TipView {
            phase: TipPhase::Forward,
            last_progress: now,
            lookback: headers,
            ..v
        }).inv(),
{
    let w = TipView { phase: TipPhase::Forward, last_progress: now, lookback: headers, ..v };
    assert(w.chain_holds());
}

proof fn lemma_lookback_goes_on(v: TipView, headers: Seq<BlockHeader>)
    requires
        v.inv(),
        v.phase is Lookback,
        (TipView { lookback: headers, ..v }).lookback_next() < v.config.checkpoint.height,
    ensures
        (TipView { lookback: headers, ..v }).inv(),
{
    let w = TipView { lookback: headers, ..v };
    assert(w.chain_holds());
}

proof fn lemma_more_lookback(v: TipView, b: Seq<BlockHeader>, now: u64)
    requires
        v.inv(),
        v.phase is Lookback,
    ensures
        v.with_more_lookback(b, now).inv(),
{
    let w = TipView { lookback: v.lookback + b, ..v };
    if w.lookback_next() >= v.config.checkpoint.height {
        let r = w.with_lookback(now);
        if r.phase is Done {
            assert(r.inv());
        } else {
            lemma_lookback_done(v, w.lookback, now);
            assert(r == (TipView {
                phase: TipPhase::Forward,
                last_progress: now,
                lookback: w.lookback,
                ..v
            }));
        }
    } else {
        lemma_lookback_goes_on(v, w.lookback);
    }
}

fn check_lookback(b: &Vec<BlockHeader>, next: u64, count: u32) -> (r: Result<
    (),
    TipValidationError,
>)
    ensures
        reports(r, lookback_fault(b@, next as int, count)),
{
    if b.len() == 0 {
        return Err(
            TipValidationError::PeerNoForwardData(
                cat_num("empty pre-checkpoint batch at start_height ", next, ""),
            ),
        );
    }
    if b[0].height != next || b.len() > count as usize {
        let s = lookback_message(next, b.len() as u64, b[0].height, count);
        return Err(TipValidationError::DeliveredInvalidHeader(s));
    }
    Ok(())
}

fn lookback_message(next: u64, len: u64, first: u64, count: u32) -> (s: String)
    ensures
        s@ == "malformed pre-checkpoint batch at start_height "@ + decimal(next as nat) + ": len "@
            + decimal(len as nat) + ", first height "@ + decimal(first as nat)
            + " (expected start "@ + decimal(next as nat) + ", max "@ + decimal(count as nat)
            + ")"@,
{
    let mut s = cat_num("malformed pre-checkpoint batch at start_height ", next, ": len ");
    push_decimal(&mut s, len);
    s.append(", first height ");
    push_decimal(&mut s, first);
    s.append(" (expected start ");
    push_decimal(&mut s, next);
    s.append(", max ");
    push_decimal(&mut s, count as u64);
    s.append(")");
    s
}

fn capped_count(n: u64) -> (r: u32)
    ensures
        r == batch_count(n as int),
{
    if n < 64 {
        n as u32
    } else {
        64
    }
}

impl TipCheck {
    /// A new attempt.
    pub fn new(inputs: ValidationInputs, config: TipCheckConfig) -> (r: Self)
        requires
            ValidationRegime::at_height(inputs.our_tip_height_at_start).rate(config.cores)
                <= u32::MAX,
        ensures
            r@.inv(),
            r@.phase is Slot,
            r@.inputs == inputs,
            r@.config == config,
            r@.outcome is None,
    {
        TipCheck {
            inputs,
            config,
            phase: TipPhase::Slot,
            deadline: 0,
            search: AncestorSearch::new(inputs.our_tip_height_at_start, inputs.claim_height),
            anchor_id: None,
            anchor: None,
            lookback: Vec::new(),
            pending: Vec::new(),
            validated: Vec::new(),
            left: 0,
            last_progress: 0,
            work: None,
            outcome: None,
        }
    }

    /// The regime under which the attempt runs.
    pub fn regime(&self) -> (r: ValidationRegime)
        ensures
            r == ValidationRegime::at_height(self@.inputs.our_tip_height_at_start),
    {
        ValidationRegime::select(self.inputs.our_tip_height_at_start, self.inputs.assume_valid)
    }

    /// The headers that the target of the next one is worked out over, besides
    /// those of our own chain: the headers below the checkpoint, the anchor, and
    /// the headers above it that have been checked.
    pub fn overlay(&self) -> (r: Vec<BlockHeader>)
        requires
            self@.anchor is Some,
        ensures
            r@ == self@.overlaid(),
    {
        let mut out: Vec<BlockHeader> = Vec::new();
        append_headers(&mut out, &self.lookback);
        match &self.anchor {
            Some(a) => out.push(a.header),
            None => {},
        }
        append_headers(&mut out, &self.validated);
        assert(out@ =~= self@.overlaid());
        out
    }

    /// The headers whose proof of work need not be checked again: all that were
    /// checked if the tip is confirmed, and none if it is not or not yet.
    pub fn carried(&self) -> (r: Vec<BlockHeader>)
        requires
            self@.inv(),
        ensures
            r@ == (if self@.phase is Done && self@.outcome->0 is Ok {
                self@.validated
            } else {
                Seq::empty()
            }),
    {
        let mut out: Vec<BlockHeader> = Vec::new();
        if self.phase == TipPhase::Done {
            match &self.outcome {
                Some(Ok(_)) => {
                    append_headers(&mut out, &self.validated);
                    assert(out@ =~= self@.validated);
                },
                _ => {},
            }
        }
        out
    }

    fn fail(&mut self, e: TipValidationError)
        ensures
            final(self)@ == old(self)@.failed(e@),
    {
        self.phase = TipPhase::Done;
        self.outcome = Some(Err(e));
    }

    fn confirm(&mut self, work: [u8; 32])
        requires
            old(self)@.anchor is Some,
        ensures
            final(self)@ == old(self)@.confirmed(be_nat(work@)),
    {
        if let Some(a) = self.anchor {
            self.phase = TipPhase::Done;
            self.outcome = Some(
                Ok(
                    VerifiedTip {
                        height: self.inputs.claim_height,
                        block_id: self.inputs.claim_block_id,
                        verified_cumulative_work: work,
                        anchor_height: a.height,
                        anchor_block_id: a.header.block_id(),
                        headers_validated: self.validated.len(),
                    },
                ),
            );
        }
    }

    fn on_slot(&mut self, granted: bool, now: u64)
        requires
            old(self)@.inv(),
            old(self)@.phase is Slot,
        ensures
            final(self)@ == old(self)@.next(TipNews::Slot(granted), now),
            final(self)@.inv(),
    {
        if !granted {
            self.fail(TipValidationError::NoSlotAvailable);
            return;
        }
        let ours: u64 = self.inputs.our_tip_height_at_start;
        let claim: u64 = self.inputs.claim_height;
        let regime = self.regime();
        let secs: u64 = compute_deadline(claim.saturating_sub(ours), regime, self.config.cores);
        self.deadline = after_secs(now, secs);
        if regime == ValidationRegime::SteadyState {
            self.search = AncestorSearch::new(ours, claim);
            self.phase = TipPhase::Probe;
        } else if self.inputs.assume_valid && self.inputs.assume_valid_cumulative_work_trusted {
            self.phase = TipPhase::Checkpoint;
        } else {
            self.fail(
                TipValidationError::Internal(
                    String::from_str(
                        "bootstrap regime without trusted checkpoint constant; legacy path handles this",
                    ),
                ),
            );
        }
    }

    fn lookback_complete(&mut self, now: u64)
        requires
            old(self)@.anchor is Some,
        ensures
            final(self)@ == old(self)@.with_lookback(now),
    {
        if let Some(a) = self.anchor {
            if self.lookback.len() != 4319 {
                let mut s = cat_num(
                    "pre-checkpoint fetch incomplete: got ",
                    self.lookback.len() as u64,
                    ", expected ",
                );
                push_decimal(&mut s, 4319);
                self.fail(TipValidationError::DeliveredInvalidHeader(s));
                return;
            }
            let newest_first = reversed(&self.lookback);
            match authenticate_prechckpt_headers(&a.header, newest_first.as_slice()) {
                Err(e) => {
                    self.fail(e);
                },
                Ok(()) => {
                    self.phase = TipPhase::Forward;
                    self.last_progress = now;
                },
            }
        }
    }

    fn set_anchor(&mut self, a: Anchor, now: u64)
        requires
            old(self)@.inv(),
            old(self)@.phase is Checkpoint || old(self)@.phase is AnchorHead,
            a.is_checkpoint ==> a.height == old(self)@.config.checkpoint.height,
        ensures
            final(self)@ == old(self)@.with_anchor(a, now),
            final(self)@.inv(),
    {
        self.anchor = Some(a);
        let claim: u64 = self.inputs.claim_height;
        if claim <= a.height {
            self.phase = TipPhase::Work;
            return;
        }
        self.left = claim - a.height;
        self.last_progress = now;
        let h: u64 = self.config.checkpoint.height;
        let first: u128 = ((h / 4320) as u128 + 1u128) * 4320u128;
        if a.is_checkpoint && claim as u128 >= first {
            if h == 0 {
                self.lookback_complete(now);
            } else {
                self.phase = TipPhase::Lookback;
            }
        } else {
            self.phase = TipPhase::Forward;
        }
    }

    fn on_checkpoint(&mut self, h: Vec<BlockHeader>, now: u64)
        requires
            old(self)@.inv(),
            old(self)@.phase is Checkpoint,
        ensures
            final(self)@ == old(self)@.next(TipNews::Headers(h@), now),
            final(self)@.inv(),
    {
        match check_checkpoint_answer(&h, &self.config.checkpoint) {
            Err(e) => self.fail(e),
            Ok(()) => {
                let a = Anchor {
                    height: self.config.checkpoint.height,
                    header: h[0],
                    is_checkpoint: true,
                };
                self.set_anchor(a, now);
            },
        }
    }

    fn on_lookback_batch(&mut self, batch: Vec<BlockHeader>, now: u64)
        requires
            old(self)@.inv(),
            old(self)@.phase is Lookback,
        ensures
            final(self)@ == old(self)@.with_lookback_batch(batch@, now),
            final(self)@.inv(),
    {
        let h: u64 = self.config.checkpoint.height;
        let next: u64 = h.saturating_sub(4319) + self.lookback.len() as u64;
        let count: u32 = capped_count(h - next);
        proof {
            lemma_more_lookback(self@, batch@, now);
        }
        if let Err(e) = check_lookback(&batch, next, count) {
            self.fail(e);
            return;
        }
        self.keep_lookback(batch, now);
    }

    fn keep_lookback(&mut self, batch: Vec<BlockHeader>, now: u64)
        requires
            old(self)@.anchor is Some,
        ensures
            final(self)@ == old(self)@.with_more_lookback(batch@, now),
    {
        let ghost before = self@;
        let ghost more = batch@;
        let mut batch = batch;
        self.lookback.append(&mut batch);
        assert(self@ == (TipView { lookback: before.lookback + more, ..before }));
        let h: u64 = self.config.checkpoint.height;
        if (h.saturating_sub(4319) as u128) + self.lookback.len() as u128 >= h as u128 {
            self.lookback_complete(now);
        }
    }

    fn last_block_id(&self) -> (r: Hash256)
        requires
            self@.anchor is Some,
        ensures
            r == self@.last_id(),
    {
        if self.validated.len() > 0 {
            self.validated[self.validated.len() - 1].block_id()
        } else {
            match self.anchor {
                Some(a) => a.header.block_id(),
                None => Hash256::zero(),
            }
        }
    }

    fn look_at_next(&mut self)
        requires
            old(self)@.anchor is Some,
            old(self)@.chain_holds(),
            old(self)@.anchor->0.height < old(self)@.inputs.claim_height,
            old(self)@.left + old(self)@.validated.len() == old(self)@.inputs.claim_height - old(
                self,
            )@.anchor->0.height,
            old(self)@.pending.len() <= old(self)@.left,
            ValidationRegime::at_height(old(self)@.inputs.our_tip_height_at_start).rate(
                old(self)@.config.cores,
            ) <= u32::MAX,
        ensures
            final(self)@ == old(self)@.at_next_header(),
            final(self)@.inv(),
    {
        let last = self.last_block_id();
        let claim: u64 = self.inputs.claim_height;
        if self.pending.len() > 0 {
            let next: u64 = claim - (self.left - 1);
            match check_link(&last, next, &self.pending[0]) {
                Err(e) => {
                    self.fail(e);
                },
                Ok(()) => {
                    self.phase = TipPhase::Target;
                },
            }
        } else if self.left > 0 {
            self.phase = TipPhase::Forward;
        } else if last != self.inputs.claim_block_id {
            let mut s = String::from_str("forward chain terminates at block_id ");
            push_hash(&mut s, &last);
            s.append(" but peer claimed ");
            push_hash(&mut s, &self.inputs.claim_block_id);
            self.fail(TipValidationError::DeliveredInvalidHeader(s));
        } else {
            self.phase = TipPhase::Work;
        }
    }

    fn on_forward_batch(&mut self, batch: Vec<BlockHeader>)
        requires
            old(self)@.inv(),
            old(self)@.phase is Forward,
        ensures
            final(self)@ == old(self)@.with_forward_batch(batch@),
            final(self)@.inv(),
    {
        let next: u64 = self.inputs.claim_height - (self.left - 1);
        let count: u32 = self.request_count();
        if batch.len() == 0 {
            self.fail(
                TipValidationError::PeerNoForwardData(
                    cat_num("empty forward batch starting at height ", next, ""),
                ),
            );
            return;
        }
        if batch[0].height != next || batch.len() > count as usize {
            let mut s = cat_num("malformed batch: start height ", next, ", got ");
            push_decimal(&mut s, batch[0].height);
            s.append("; batch len ");
            push_decimal(&mut s, batch.len() as u64);
            s.append(", max ");
            push_decimal(&mut s, count as u64);
            self.fail(TipValidationError::DeliveredInvalidHeader(s));
            return;
        }
        self.pending = batch;
        self.look_at_next();
    }

    fn request_count(&self) -> (r: u32)
        ensures
            r == self@.forward_count(),
            r <= self@.left,
    {
        capped_count(self.left)
    }

    fn on_probe(&mut self, headers: &Vec<BlockHeader>, ours: Option<Hash256>)
        requires
            old(self)@.inv(),
            old(self)@.phase is Probe,
        ensures
            final(self)@ == old(self)@.with_probe(headers@, ours),
            final(self)@.inv(),
    {
        let at: u64 = match self.search.probe() {
            Some(h) => h,
            None => 0,
        };
        match interpret_ancestor_probe_response(headers.as_slice(), at, ours) {
            Err(m) => {
                self.fail(TipValidationError::DeliveredInvalidHeader(m));
            },
            Ok(None) => {
                let s = match self.search.phase {
                    SearchPhase::Top => {
                        let mut s = cat_num(
                            "empty response to ancestor probe at clamped height ",
                            at,
                            " (our_height_start=",
                        );
                        push_decimal(&mut s, self.inputs.our_tip_height_at_start);
                        s.append(", claim_height=");
                        push_decimal(&mut s, self.inputs.claim_height);
                        s.append(")");
                        s
                    },
                    _ => cat_num(
                        "empty / no-data response to ancestor midpoint probe at height ",
                        at,
                        "",
                    ),
                };
                self.fail(TipValidationError::PeerNoForwardData(s));
            },
            Ok(Some(b)) => {
                self.search.on_answer(Some(b));
                match self.search.phase {
                    SearchPhase::Found(_) => {
                        self.phase = TipPhase::AnchorId;
                    },
                    _ => {},
                }
            },
        }
    }

    fn on_anchor_id(&mut self, r: Result<Option<Hash256>, String>)
        requires
            old(self)@.inv(),
            old(self)@.phase is AnchorId,
        ensures
            final(self)@ == old(self)@.next(TipNews::BlockAt(text_result(r)), 0),
            final(self)@.inv(),
    {
        let at: u64 = match self.search.phase {
            SearchPhase::Found(h) => h,
            _ => 0,
        };
        match r {
            Err(m) => {
                self.fail(TipValidationError::Internal(cat2("storage: ", m.as_str())));
            },
            Ok(None) => {
                self.fail(
                    TipValidationError::Internal(
                        cat_num("no block at anchor_height ", at, " in storage"),
                    ),
                );
            },
            Ok(Some(id)) => {
                self.anchor_id = Some(id);
                self.phase = TipPhase::AnchorHead;
            },
        }
    }

    fn on_anchor_head(&mut self, r: Result<Option<BlockHeader>, String>, now: u64)
        requires
            old(self)@.inv(),
            old(self)@.phase is AnchorHead,
        ensures
            final(self)@ == old(self)@.next(TipNews::Header(text_result(r)), now),
            final(self)@.inv(),
    {
        let id = match self.anchor_id {
            Some(id) => id,
            None => Hash256::zero(),
        };
        let at: u64 = match self.search.phase {
            SearchPhase::Found(h) => h,
            _ => 0,
        };
        match r {
            Err(m) => {
                self.fail(TipValidationError::Internal(cat2("get_header: ", m.as_str())));
            },
            Ok(None) => {
                let mut s = String::from_str("no header at anchor ");
                push_hash(&mut s, &id);
                self.fail(TipValidationError::Internal(s));
            },
            Ok(Some(header)) => {
                let header = BlockHeader { id, ..header };
                self.set_anchor(Anchor { height: at, header, is_checkpoint: false }, now);
            },
        }
    }

    fn on_target(&mut self, r: Result<Hash256, String>)
        requires
            old(self)@.inv(),
            old(self)@.phase is Target,
        ensures
            final(self)@ == old(self)@.next(TipNews::Target(text_result(r)), 0),
            final(self)@.inv(),
    {
        match check_target(&self.pending[0], r) {
            Err(e) => {
                self.fail(e);
            },
            Ok(()) => {
                self.phase = TipPhase::Pow;
            },
        }
    }

    fn on_pow(&mut self, r: Result<bool, String>, now: u64)
        requires
            old(self)@.inv(),
            old(self)@.phase is Pow,
        ensures
            final(self)@ == old(self)@.next(TipNews::Pow(text_result(r)), now),
            final(self)@.inv(),
    {
        let ghost v = self@;
        match check_pow(&self.pending[0], r) {
            Err(e) => {
                self.fail(e);
            },
            Ok(()) => {
                let h = self.pending.remove(0);
                self.validated.push(h);
                self.left = self.left - 1;
                self.last_progress = now;
                assert(self.pending@ =~= v.pending.drop_first());
                assert(self@.chain_holds()) by {
                    let w = self@.validated;
                    assert forall|i: int| 0 < i < w.len() implies (#[trigger] w[i]).prev_block_id
                        == w[i - 1].id by {
                        if i < v.validated.len() {
                            assert(w[i] == v.validated[i] && w[i - 1] == v.validated[i - 1]);
                        }
                    }
                    assert forall|i: int| 0 <= i < w.len() implies (#[trigger] w[i]).height
                        == v.anchor->0.height + 1 + i by {
                        if i < v.validated.len() {
                            assert(w[i] == v.validated[i]);
                        }
                    }
                }
                self.look_at_next();
            },
        }
    }

    fn on_work(&mut self, stored: Result<Option<[u8; 32]>, String>, trusted: bool)
        requires
            old(self)@.inv(),
            old(self)@.phase is Work,
        ensures
            final(self)@ == old(self)@.with_work(text_result(stored), trusted),
            final(self)@.inv(),
    {
        if let Some(a) = self.anchor {
            let id = a.header.block_id();
            match anchor_work(stored, &id, a.is_checkpoint, trusted, &self.config.checkpoint) {
                Err(e) => {
                    self.fail(e);
                },
                Ok(w) => {
                    self.work = Some(w);
                    if self.inputs.claim_height <= a.height || a.is_checkpoint {
                        let total = sum_forward_work(w, self.validated.as_slice());
                        self.confirm(total);
                    } else {
                        self.phase = TipPhase::Recheck;
                    }
                },
            }
        }
    }

    fn on_recheck(&mut self, r: Result<Option<Hash256>, String>)
        requires
            old(self)@.inv(),
            old(self)@.phase is Recheck,
        ensures
            final(self)@ == old(self)@.next(TipNews::BlockAt(text_result(r)), 0),
            final(self)@.inv(),
    {
        match (self.anchor, self.work) {
            (Some(a), Some(w)) => {
                match r {
                    Err(m) => {
                        self.fail(
                            TipValidationError::Internal(
                                cat2("get_block_id_by_height: ", m.as_str()),
                            ),
                        );
                    },
                    Ok(c) => {
                        let id = a.header.block_id();
                        if crate::tip_validation::anchor_still_canonical(c, &id) {
                            let total = sum_forward_work(w, self.validated.as_slice());
                            self.confirm(total);
                        } else {
                            self.fail(TipValidationError::AnchorOrphaned);
                        }
                    },
                }
            },
            _ => {},
        }
    }

    /// Looks at the time, and tells what is asked for.
    pub fn poll(&mut self, now: u64) -> (r: TipAction)
        requires
            old(self)@.inv(),
        ensures
            final(self)@ == old(self)@.polled(now),
            final(self)@.inv(),
            r == final(self)@.action(),
    {
        let timed = match self.phase {
            TipPhase::Lookback => true,
            TipPhase::Forward => true,
            TipPhase::Probe => match self.search.phase {
                SearchPhase::Top => false,
                _ => true,
            },
            _ => false,
        };
        if timed && now >= self.deadline {
            self.fail(TipValidationError::DeadlineExceeded);
        } else if self.phase == TipPhase::Forward && self.inputs.our_tip_height_at_start == 0
            && !within_secs(now, self.last_progress, self.config.stall_secs) {
            self.fail(TipValidationError::BootstrapStalled);
        }
        match self.phase {
            TipPhase::Slot => TipAction::TakeSlot,
            TipPhase::Checkpoint => TipAction::FetchHeaders {
                start_height: self.config.checkpoint.height,
                max_count: 1,
            },
            TipPhase::Probe => TipAction::FetchProbe {
                height: match self.search.probe() {
                    Some(h) => h,
                    None => 0,
                },
            },
            TipPhase::AnchorId => TipAction::FindBlockAt {
                height: match self.search.phase {
                    SearchPhase::Found(h) => h,
                    _ => 0,
                },
            },
            TipPhase::AnchorHead => TipAction::FindHeader {
                id: match self.anchor_id {
                    Some(id) => id,
                    None => Hash256::zero(),
                },
            },
            TipPhase::Lookback => {
                let h: u64 = self.config.checkpoint.height;
                let next: u64 = h.saturating_sub(4319) + self.lookback.len() as u64;
                TipAction::FetchHeaders { start_height: next, max_count: capped_count(h - next) }
            },
            TipPhase::Forward => TipAction::FetchHeaders {
                start_height: self.inputs.claim_height - (self.left - 1),
                max_count: self.request_count(),
            },
            TipPhase::Target => TipAction::FindTarget { header: self.pending[0] },
            TipPhase::Pow => TipAction::CheckPow { header: self.pending[0] },
            TipPhase::Work => TipAction::FindWork {
                id: match self.anchor {
                    Some(a) => a.header.block_id(),
                    None => Hash256::zero(),
                },
            },
            TipPhase::Recheck => TipAction::FindBlockAt {
                height: match self.anchor {
                    Some(a) => a.height,
                    None => 0,
                },
            },
            TipPhase::Done => TipAction::Finished,
        }
    }

    /// Takes what came of the last action.
    #[verifier::rlimit(60)]
    pub fn advance(&mut self, reply: TipReply, now: u64)
        requires
            old(self)@.inv(),
            old(self)@.answered_by(reply@),
        ensures
            final(self)@ == old(self)@.next(reply@, now),
            final(self)@.inv(),
    {
        match reply {
            TipReply::Disconnected => self.fail(TipValidationError::PeerDisconnected),
            TipReply::TimedOut => self.fail(TipValidationError::FetchTimeout),
            TipReply::Slot(granted) => self.on_slot(granted, now),
            TipReply::Headers(h) => {
                if self.phase == TipPhase::Checkpoint {
                    self.on_checkpoint(h, now);
                } else if self.phase == TipPhase::Lookback {
                    self.on_lookback_batch(h, now);
                } else {
                    self.on_forward_batch(h);
                }
            },
            TipReply::Probe { headers, ours } => self.on_probe(&headers, ours),
            TipReply::BlockAt(r) => {
                if self.phase == TipPhase::AnchorId {
                    self.on_anchor_id(r);
                } else {
                    self.on_recheck(r);
                }
            },
            TipReply::Header(r) => self.on_anchor_head(r, now),
            TipReply::Target(r) => self.on_target(r),
            TipReply::Pow(r) => self.on_pow(r, now),
            TipReply::Work { stored, trusted } => self.on_work(stored, trusted),
        }
    }
}

} // verus!
