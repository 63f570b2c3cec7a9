//! What is noted of the tips that peers claim.
use crate::chain::BlockHeader;
use crate::events::PeerEvent;
use crate::hash::{Hash256, PeerId};
use crate::registry::{
    after_attach, after_detach, is_current, AttachRequest, PeerRegistry, PeerTip, PeerView,
    RegistryView,
};
use crate::stages::anchored;
use crate::tip_validation::{ValidationRegime, VerifiedTip};
use crate::work::{add_work, be_nat, target_work, work_from_target, work_sum};
use vstd::prelude::*;

verus! {

// ---------------------------------------------------------------------------
// Notes in the registry
// ---------------------------------------------------------------------------
/// The registry with one peer changed, if the session is its current one.
pub open spec fn with_peer(
    r: RegistryView,
    identity: PeerId,
    session_id: u64,
    p: PeerView,
) -> RegistryView {
    if is_current(r, identity, session_id) {
        RegistryView { peers: r.peers.insert(identity, p), ..r }
    } else {
        r
    }
}

/// A peer after it has claimed a tip. A tip that was confirmed stays until
/// another one is: a claim that is never confirmed costs a peer nothing.
pub open spec fn claimed(p: PeerView, claim: PeerTip) -> PeerView {
    if p.tip matches Some(t) && t.confirmed {
        p
    } else {
        PeerView { tip: Some(PeerTip { confirmed: false, ..claim }), ..p }
    }
}

/// A peer after its tip was confirmed.
pub open spec fn confirmed(p: PeerView, tip: PeerTip, now: u64) -> PeerView {
    PeerView {
        tip: Some(PeerTip { confirmed: true, ..tip }),
        last_useful_message_at: Some(now),
        ever_confirmed_for_ibd: true,
        ..p
    }
}

/// Notes a claim.
pub fn note_claim(registry: &mut PeerRegistry, identity: &PeerId, session_id: u64, claim: PeerTip)
    requires
        old(registry).wf(),
    ensures
        final(registry).wf(),
        final(registry)@ == with_peer(
            old(registry)@,
            *identity,
            session_id,
            claimed(old(registry)@.peers[*identity], claim),
        ),
{
    let ghost before = registry@;
    match registry.get_mut_by_identity(identity) {
        Some(p) => {
            if let Some(s) = p.session {
                if s.session_id == session_id {
                    let keep = match p.tip {
                        Some(t) => t.confirmed,
                        None => false,
                    };
                    if !keep {
                        p.tip = Some(
                            PeerTip {
                                height: claim.height,
                                cumulative_work: claim.cumulative_work,
                                block_id: claim.block_id,
                                confirmed: false,
                            },
                        );
                    }
                }
            }
        },
        None => {},
    }
    proof {
        if before.peers.contains_key(*identity) {
            assert(before.peers.insert(*identity, before.peers[*identity]) =~= before.peers);
        }
    }
}

/// Puts a claim in place of whatever was noted: a peer that is at the first
/// block has nothing to offer.
pub fn replace_claim(
    registry: &mut PeerRegistry,
    identity: &PeerId,
    session_id: u64,
    claim: PeerTip,
)
    requires
        old(registry).wf(),
    ensures
        final(registry).wf(),
        final(registry)@ == with_peer(
            old(registry)@,
            *identity,
            session_id,
            PeerView {
                tip: Some(PeerTip { confirmed: false, ..claim }),
                ..old(registry)@.peers[*identity]
            },
        ),
{
    let ghost before = registry@;
    match registry.get_mut_by_identity(identity) {
        Some(p) => {
            if let Some(s) = p.session {
                if s.session_id == session_id {
                    p.tip = Some(
                        PeerTip {
                            height: claim.height,
                            cumulative_work: claim.cumulative_work,
                            block_id: claim.block_id,
                            confirmed: false,
                        },
                    );
                }
            }
        },
        None => {},
    }
    proof {
        if before.peers.contains_key(*identity) {
            assert(before.peers.insert(*identity, before.peers[*identity]) =~= before.peers);
        }
    }
}

/// Notes that a tip was confirmed; whether the session was still the peer's.
pub fn confirm_tip(
    registry: &mut PeerRegistry,
    identity: &PeerId,
    session_id: u64,
    tip: PeerTip,
    now: u64,
) -> (r: bool)
    requires
        old(registry).wf(),
    ensures
        final(registry).wf(),
        r == is_current(old(registry)@, *identity, session_id),
        final(registry)@ == with_peer(
            old(registry)@,
            *identity,
            session_id,
            confirmed(old(registry)@.peers[*identity], tip, now),
        ),
{
    let ghost before = registry@;
    let mut noted = false;
    match registry.get_mut_by_identity(identity) {
        Some(p) => {
            if let Some(s) = p.session {
                if s.session_id == session_id {
                    p.tip = Some(
                        PeerTip {
                            height: tip.height,
                            cumulative_work: tip.cumulative_work,
                            block_id: tip.block_id,
                            confirmed: true,
                        },
                    );
                    p.last_useful_message_at = Some(now);
                    p.ever_confirmed_for_ibd = true;
                    noted = true;
                }
            }
        },
        None => {},
    }
    proof {
        if before.peers.contains_key(*identity) {
            assert(before.peers.insert(*identity, before.peers[*identity]) =~= before.peers);
        }
    }
    noted
}

/// The tip that an attempt has confirmed.
pub fn tip_of(v: &VerifiedTip) -> (r: PeerTip)
    ensures
        r == (PeerTip {
            height: v.height,
            cumulative_work: v.verified_cumulative_work,
            block_id: v.block_id,
            confirmed: true,
        }),
{
    PeerTip {
        height: v.height,
        cumulative_work: v.verified_cumulative_work,
        block_id: v.block_id,
        confirmed: true,
    }
}

/// Whether a claim that comes after a download is confirmed by it: it is that
/// of the peer that the chain was fetched from, and our chain has the claimed
/// block at the claimed height.
pub open spec fn download_confirms(
    from_download_peer: bool,
    stored: Option<Hash256>,
    claim: Hash256,
) -> bool {
    from_download_peer && stored == Some(claim)
}

/// The tip to note after a download. The work of a confirmed one is our own
/// reckoning, not the peer's.
pub open spec fn tip_after_download(
    claim: PeerTip,
    confirms: bool,
    stored_work: Option<[u8; 32]>,
    our_work: [u8; 32],
) -> PeerTip {
    PeerTip {
        cumulative_work: if !confirms {
            claim.cumulative_work
        } else {
            match stored_work {
                Some(w) => w,
                None => our_work,
            }
        },
        confirmed: confirms,
        ..claim
    }
}

/// A peer after a claim that comes after a download.
pub open spec fn after_download(
    p: PeerView,
    claim: PeerTip,
    from_download_peer: bool,
    stored: Option<Hash256>,
    stored_work: Option<[u8; 32]>,
    our_work: [u8; 32],
) -> PeerView {
    let yes = download_confirms(from_download_peer, stored, claim.block_id);
    PeerView {
        tip: Some(tip_after_download(claim, yes, stored_work, our_work)),
        ever_confirmed_for_ibd: p.ever_confirmed_for_ibd || yes,
        ..p
    }
}

/// Notes a claim that comes after a download; whether a tip was confirmed.
pub fn settle_download_tip(
    registry: &mut PeerRegistry,
    identity: &PeerId,
    session_id: u64,
    claim: PeerTip,
    from_download_peer: bool,
    stored: Option<Hash256>,
    stored_work: Option<[u8; 32]>,
    our_work: &[u8; 32],
) -> (r: bool)
    requires
        old(registry).wf(),
    ensures
        final(registry).wf(),
        r == (old(registry)@.peers.contains_key(*identity) && (
        old(registry)@.peers[*identity].session matches Some(s) && s.session_id == session_id)
            && download_confirms(from_download_peer, stored, claim.block_id)),
        ({
            final(registry)@ == with_peer(
                old(registry)@,
                *identity,
                session_id,
                after_download(
                    old(registry)@.peers[*identity],
                    claim,
                    from_download_peer,
                    stored,
                    stored_work,
                    *our_work,
                ),
            )
        }),
{
    let ghost before = registry@;
    let mut noted = false;
    let yes = from_download_peer && match stored {
        Some(id) => id == claim.block_id,
        None => false,
    };
    let work = if !yes {
        claim.cumulative_work
    } else {
        match stored_work {
            Some(w) => w,
            None => *our_work,
        }
    };
    match registry.get_mut_by_identity(identity) {
        Some(p) => {
            if let Some(s) = p.session {
                if s.session_id == session_id {
                    p.tip = Some(
                        PeerTip {
                            height: claim.height,
                            cumulative_work: work,
                            block_id: claim.block_id,
                            confirmed: yes,
                        },
                    );
                    if yes {
                        p.ever_confirmed_for_ibd = true;
                        noted = true;
                    }
                }
            }
        },
        None => {},
    }
    proof {
        if before.peers.contains_key(*identity) {
            assert(before.peers.insert(*identity, before.peers[*identity]) =~= before.peers);
        }
    }
    noted
}

/// Keeps a peer from being chosen for a download until the given time.
pub fn set_cooldown(registry: &mut PeerRegistry, identity: &PeerId, until: u64)
    requires
        old(registry).wf(),
    ensures
        final(registry).wf(),
        final(registry)@ == (if old(registry)@.peers.contains_key(*identity) {
            RegistryView {
                peers: old(registry)@.peers.insert(
                    *identity,
                    PeerView {
                        ibd_cooldown_until: Some(until),
                        ..old(registry)@.peers[*identity]
                    },
                ),
                ..old(registry)@
            }
        } else {
            old(registry)@
        }),
{
    match registry.get_mut_by_identity(identity) {
        Some(p) => {
            p.ibd_cooldown_until = Some(until);
        },
        None => {},
    }
}

/// A claim never undoes a confirmation, and never makes one.
pub proof fn law_claims_do_not_confirm(p: PeerView, claim: PeerTip)
    ensures
        claimed(p, claim).ever_confirmed_for_ibd == p.ever_confirmed_for_ibd,
        claimed(p, claim).last_useful_message_at == p.last_useful_message_at,
        (claimed(p, claim).tip matches Some(t) && t.confirmed) <==> (p.tip matches Some(t)
            && t.confirmed),
{
}

/// A peer whose tip is confirmed is marked as one that was confirmed.
pub open spec fn marked(p: PeerView) -> bool {
    (p.tip matches Some(t) && t.confirmed) ==> p.ever_confirmed_for_ibd
}

/// Every peer whose tip is confirmed is marked as one that was.
pub open spec fn all_marked(r: RegistryView) -> bool {
    forall|id: PeerId| #[trigger] r.peers.contains_key(id) ==> marked(r.peers[id])
}

/// Whatever confirms a tip marks the peer, and nothing that is noted of a peer
/// takes the mark away.
pub proof fn law_confirmation_leaves_its_mark(
    p: PeerView,
    claim: PeerTip,
    now: u64,
    from_download_peer: bool,
    stored: Option<Hash256>,
    stored_work: Option<[u8; 32]>,
    our_work: [u8; 32],
)
    requires
        marked(p),
    ensures
        marked(claimed(p, claim)),
        marked(confirmed(p, claim, now)),
        marked(anchored(p)),
        marked(
            after_download(p, claim, from_download_peer, stored, stored_work, our_work),
        ),
        p.ever_confirmed_for_ibd ==> claimed(p, claim).ever_confirmed_for_ibd,
        confirmed(p, claim, now).ever_confirmed_for_ibd,
        anchored(p).ever_confirmed_for_ibd,
        p.ever_confirmed_for_ibd ==> after_download(
            p,
            claim,
            from_download_peer,
            stored,
            stored_work,
            our_work,
        ).ever_confirmed_for_ibd,
{
}

/// The marks outlast sessions: attaching and detaching a session keeps them in
/// step with the confirmed tips, and takes none away.
pub proof fn law_marks_outlast_sessions(
    r: RegistryView,
    req: AttachRequest,
    identity: PeerId,
    session_id: u64,
)
    requires
        all_marked(r),
    ensures
        all_marked(after_attach(r, req)),
        all_marked(after_detach(r, identity, session_id)),
        forall|id: PeerId| #[trigger]
            r.peers.contains_key(id) && r.peers[id].ever_confirmed_for_ibd ==> after_attach(
                r,
                req,
            ).peers[id].ever_confirmed_for_ibd && after_detach(
                r,
                identity,
                session_id,
            ).peers[id].ever_confirmed_for_ibd,
{
    let a = after_attach(r, req);
    let d = after_detach(r, identity, session_id);
    assert forall|id: PeerId| #[trigger] a.peers.contains_key(id) implies marked(a.peers[id]) by {
        assert(id != req.identity ==> r.peers.contains_key(id));
    }
    assert forall|id: PeerId| #[trigger] d.peers.contains_key(id) implies marked(d.peers[id]) by {
        assert(r.peers.contains_key(id));
    }
}

/// The end of a session, a stale answer or an unknown peer changes nothing.
pub proof fn law_stale_session_changes_nothing(
    r: RegistryView,
    identity: PeerId,
    session_id: u64,
    p: PeerView,
)
    requires
        !is_current(r, identity, session_id),
    ensures
        with_peer(r, identity, session_id, p) == r,
{
}

// ---------------------------------------------------------------------------
// What to do about a claim
// ---------------------------------------------------------------------------
/// Whether a claim can be tied to an anchor: the node has a chain, or trusts
/// the checkpoint and its work.
pub open spec fn has_anchor(our_height: u64, assume_valid: bool, work_trusted: bool) -> bool {
    our_height > 0 || (assume_valid && work_trusted)
}

/// Whether a claim that comes in during a download is to be checked in full:
/// it is worth checking, the node has confirmed a peer before, no attempt is
/// under way on the session, and there is an anchor.
pub open spec fn dispatches(
    height: u64,
    ever_confirmed: bool,
    active: bool,
    our_height: u64,
    assume_valid: bool,
    work_trusted: bool,
) -> bool {
    height != 0 && ever_confirmed && !active && has_anchor(our_height, assume_valid, work_trusted)
}

/// Whether a claim that comes in during a download is to be checked in full.
pub fn should_dispatch(
    height: u64,
    ever_confirmed: bool,
    active: bool,
    our_height: u64,
    assume_valid: bool,
    work_trusted: bool,
) -> (r: bool)
    ensures
        r == dispatches(height, ever_confirmed, active, our_height, assume_valid, work_trusted),
{
    if height == 0 || !ever_confirmed || active {
        return false;
    }
    match ValidationRegime::select(our_height, assume_valid) {
        ValidationRegime::SteadyState => true,
        ValidationRegime::Bootstrap => assume_valid && work_trusted,
    }
}

/// What is to be done next about a claim.
#[derive(Clone, Copy, Debug, PartialEq, Eq, Structural)]
pub enum ClaimStep {
    /// Ask the peer for the header of the claimed block.
    AskHeader,
    /// Look up the parent of the claimed block.
    FindParent,
    /// Work out the target of the claimed block.
    FindTarget,
    /// Check its proof of work.
    CheckPow,
    /// The claim is good.
    Confirm,
    /// Check the claim in full, on the side.
    Dispatch,
    /// Leave it at that.
    Ignore,
    /// Hold the claim against the peer.
    Strike,
    /// Note the claim, which is worth nothing.
    Genesis,
}

/// What came of it.
pub enum ClaimReply {
    /// The request could not be sent.
    NotSent,
    /// The headers that came.
    Headers(Vec<BlockHeader>),
    /// No headers came in time.
    NoHeaders,
    /// Whether the parent is known.
    Parent(bool),
    /// The target that the header has to have, if it could be worked out.
    Target(Option<Hash256>),
    /// Whether the proof of work holds.
    Pow(bool),
}

/// What a `ClaimReply` says.
pub ghost enum ClaimNews {
    NotSent,
    Headers(Seq<BlockHeader>),
    NoHeaders,
    Parent(bool),
    Target(Option<Hash256>),
    Pow(bool),
}

impl View for ClaimReply {
    type V = ClaimNews;

    open spec fn view(&self) -> ClaimNews {
        match self {
            ClaimReply::NotSent => ClaimNews::NotSent,
            ClaimReply::Headers(h) => ClaimNews::Headers(h@),
            ClaimReply::NoHeaders => ClaimNews::NoHeaders,
            ClaimReply::Parent(b) => ClaimNews::Parent(*b),
            ClaimReply::Target(t) => ClaimNews::Target(*t),
            ClaimReply::Pow(b) => ClaimNews::Pow(*b),
        }
    }
}

/// A claim that is being looked at.
#[derive(Clone, Copy, Debug)]
pub struct ClaimCheck {
    pub height: u64,
    pub block_id: Hash256,
    /// Whether a claim can be tied to an anchor.
    pub anchored: bool,
    pub step: ClaimStep,
    /// The header of the claimed block, once it has come.
    pub header: Option<BlockHeader>,
    /// Whether its parent is known, once that has been looked up.
    pub parent_known: Option<bool>,
    /// The target that it has to have, once that has been worked out.
    pub expected: Option<Hash256>,
}

impl ClaimCheck {
    /// The state after a reply.
    pub open spec fn next(self, reply: ClaimNews) -> ClaimCheck {
        match (self.step, reply) {
            (ClaimStep::AskHeader, ClaimNews::NotSent) => ClaimCheck {
                step: ClaimStep::Ignore,
                ..self
            },
            (ClaimStep::AskHeader, ClaimNews::NoHeaders) => ClaimCheck {
                step: ClaimStep::Strike,
                ..self
            },
            (ClaimStep::AskHeader, ClaimNews::Headers(h)) => if h.len() == 0 {
                ClaimCheck { step: ClaimStep::Ignore, ..self }
            } else if h.len() == 1 && h[0].id == self.block_id && h[0].height == self.height {
                ClaimCheck { header: Some(h[0]), step: ClaimStep::FindParent, ..self }
            } else {
                ClaimCheck { step: ClaimStep::Strike, ..self }
            },
            (ClaimStep::FindParent, ClaimNews::Parent(known)) => ClaimCheck {
                parent_known: Some(known),
                step: if known {
                    ClaimStep::FindTarget
                } else if self.anchored {
                    ClaimStep::Dispatch
                } else {
                    ClaimStep::CheckPow
                },
                ..self
            },
            (ClaimStep::FindTarget, ClaimNews::Target(t)) => ClaimCheck {
                expected: t,
                step: if t == Some(self.header->0.difficulty_target) {
                    ClaimStep::CheckPow
                } else {
                    ClaimStep::Strike
                },
                ..self
            },
            (ClaimStep::CheckPow, ClaimNews::Pow(ok)) => ClaimCheck {
                step: if ok {
                    ClaimStep::Confirm
                } else {
                    ClaimStep::Strike
                },
                ..self
            },
            _ => self,
        }
    }

    /// Whether a reply answers the step.
    pub open spec fn answered_by(self, reply: ClaimNews) -> bool {
        match self.step {
            ClaimStep::AskHeader => reply is NotSent || reply is Headers || reply is NoHeaders,
            ClaimStep::FindParent => reply is Parent,
            ClaimStep::FindTarget => reply is Target,
            ClaimStep::CheckPow => reply is Pow,
            _ => false,
        }
    }

    /// The header that came is that of the claimed block.
    pub open spec fn header_fits(self) -> bool {
        self.header matches Some(h) && h.id == self.block_id && h.height == self.height
    }

    /// The target of the header is right; or it cannot be told, and there is
    /// no anchor from which the claim could be checked in full.
    pub open spec fn target_fits(self) -> bool {
        match self.parent_known {
            Some(true) => self.expected == Some(self.header->0.difficulty_target),
            Some(false) => !self.anchored,
            None => false,
        }
    }

    /// What has been found out about the claim fits the step that it is at.
    pub open spec fn inv(self) -> bool {
        match self.step {
            ClaimStep::FindParent => self.header_fits(),
            ClaimStep::FindTarget => self.header_fits() && self.parent_known == Some(true),
            ClaimStep::Dispatch => self.header_fits() && self.parent_known == Some(false)
                && self.anchored,
            ClaimStep::CheckPow | ClaimStep::Confirm => self.header_fits() && self.target_fits(),
            _ => true,
        }
    }

    /// A claim that has just come. While an attempt is under way on the
    /// session nothing may be asked on it.
    pub fn new(
        height: u64,
        block_id: Hash256,
        active: bool,
        our_height: u64,
        assume_valid: bool,
        work_trusted: bool,
    ) -> (r: Self)
        ensures
            r == (ClaimCheck {
                height,
                block_id,
                anchored: has_anchor(our_height, assume_valid, work_trusted),
                step: if active {
                    ClaimStep::Ignore
                } else if height > 0 {
                    ClaimStep::AskHeader
                } else {
                    ClaimStep::Genesis
                },
                header: None,
                parent_known: None,
                expected: None,
            }),
            r.inv(),
    {
        ClaimCheck {
            height,
            block_id,
            anchored: our_height > 0 || (assume_valid && work_trusted),
            step: if active {
                ClaimStep::Ignore
            } else if height > 0 {
                ClaimStep::AskHeader
            } else {
                ClaimStep::Genesis
            },
            header: None,
            parent_known: None,
            expected: None,
        }
    }

    /// Takes what came of the last step.
    pub fn advance(&mut self, reply: ClaimReply)
        requires
            old(self).inv(),
            old(self).answered_by(reply@),
        ensures
            *final(self) == old(self).next(reply@),
            final(self).inv(),
    {
        match reply {
            ClaimReply::NotSent => {
                self.step = ClaimStep::Ignore;
            },
            ClaimReply::NoHeaders => {
                self.step = ClaimStep::Strike;
            },
            ClaimReply::Headers(h) => {
                if h.len() == 0 {
                    self.step = ClaimStep::Ignore;
                } else if h.len() == 1 && h[0].id == self.block_id && h[0].height == self.height {
                    self.header = Some(h[0]);
                    self.step = ClaimStep::FindParent;
                } else {
                    self.step = ClaimStep::Strike;
                }
            },
            ClaimReply::Parent(known) => {
                self.parent_known = Some(known);
                self.step = if known {
                    ClaimStep::FindTarget
                } else if self.anchored {
                    ClaimStep::Dispatch
                } else {
                    ClaimStep::CheckPow
                };
            },
            ClaimReply::Target(t) => {
                let fits = match (t, self.header) {
                    (Some(want), Some(h)) => want == h.difficulty_target,
                    _ => false,
                };
                self.expected = t;
                self.step = if fits {
                    ClaimStep::CheckPow
                } else {
                    ClaimStep::Strike
                };
            },
            ClaimReply::Pow(ok) => {
                self.step = if ok {
                    ClaimStep::Confirm
                } else {
                    ClaimStep::Strike
                };
            },
        }
    }

    /// The tip that a good claim confirms. Its work is that of our own chain
    /// where we have the block, and else that of our tip and of the one block,
    /// which the peer's chain has at least; never what the peer says.
    pub fn confirmed_tip(&self, stored_work: Option<[u8; 32]>, our_work: &[u8; 32]) -> (r: PeerTip)
        requires
            self.inv(),
            self.step is Confirm,
        ensures
            r.height == self.height,
            r.block_id == self.block_id,
            r.confirmed,
            stored_work matches Some(w) ==> r.cumulative_work == w,
            stored_work is None ==> be_nat(r.cumulative_work@) == work_sum(
                be_nat(our_work@),
                target_work(be_nat(self.header->0.difficulty_target.0@)),
            ),
    {
        let target = match self.header {
            Some(h) => h.difficulty_target,
            None => Hash256::zero(),
        };
        let cumulative_work = match stored_work {
            Some(w) => w,
            None => add_work(our_work, &work_from_target(&target)),
        };
        PeerTip { height: self.height, cumulative_work, block_id: self.block_id, confirmed: true }
    }
}

/// A claim is confirmed on the spot only if its header came from the peer and
/// its proof of work holds, and, where its parent is known, its target is
/// right; where the parent is not known, only by a node that has no anchor.
pub proof fn law_claim_is_confirmed_by_its_header(c: ClaimCheck, reply: ClaimNews)
    requires
        c.inv(),
        c.answered_by(reply),
        c.next(reply).step is Confirm,
    ensures
        c.step is CheckPow,
        reply == ClaimNews::Pow(true),
        c.header matches Some(h) && h.id == c.block_id && h.height == c.height,
        c.parent_known == Some(true) ==> c.expected == Some(c.header->0.difficulty_target),
        c.parent_known != Some(true) ==> !c.anchored,
{
}

/// No headers at all are no offence: the peer may limit its answers.
pub proof fn law_empty_answer_is_no_offence(c: ClaimCheck)
    requires
        c.inv(),
        c.step is AskHeader,
    ensures
        c.next(ClaimNews::Headers(Seq::empty())).step is Ignore,
{
}

// ---------------------------------------------------------------------------
// Events that come in while something else is awaited
// ---------------------------------------------------------------------------
/// What is to be done with an event that nobody waits for.
#[derive(Clone, Copy, Debug, PartialEq, Eq, Structural)]
pub enum BackgroundStep {
    /// Ask the peer for its tip.
    PollTip,
    /// The session has ended.
    Detach,
    /// It is a block.
    Intake,
    /// It is of no use.
    Ignore,
    /// Note the claim, and, where that is possible, have it checked in full.
    NoteClaim,
}

/// What is to be done with an event that nobody waits for.
pub open spec fn background_step_of(event: PeerEvent) -> BackgroundStep {
    match event {
        PeerEvent::Connected { .. } => BackgroundStep::PollTip,
        PeerEvent::Disconnected { .. } => BackgroundStep::Detach,
        PeerEvent::NewBlock { .. } => BackgroundStep::Intake,
        PeerEvent::BlockResponse { .. } => BackgroundStep::Intake,
        PeerEvent::HeadersResponse { .. } => BackgroundStep::Ignore,
        PeerEvent::TipResponse { .. } => BackgroundStep::NoteClaim,
    }
}

/// What is to be done with an event that nobody waits for.
pub fn background_step(event: &PeerEvent) -> (r: BackgroundStep)
    ensures
        r == background_step_of(*event),
{
    match event {
        PeerEvent::Connected { .. } => BackgroundStep::PollTip,
        PeerEvent::Disconnected { .. } => BackgroundStep::Detach,
        PeerEvent::NewBlock { .. } => BackgroundStep::Intake,
        PeerEvent::BlockResponse { .. } => BackgroundStep::Intake,
        PeerEvent::HeadersResponse { .. } => BackgroundStep::Ignore,
        PeerEvent::TipResponse { .. } => BackgroundStep::NoteClaim,
    }
}

} // verus!
