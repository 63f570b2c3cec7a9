//! Whom a node believes, downloads from and answers.
use crate::chain::{BlockHeader, ChainTip, Checkpoint};
use crate::clock::age;
use crate::events::PeerEvent;
use crate::hash::{Hash256, PeerId};
use crate::limits::WindowLimiter;
use crate::pacing::{bytes_of, in_window};
use crate::reader::{
    counts_invalid, header_range_end, screen, strikes, BlockFacts, PeerFault, ReaderLimits,
    SessionMeter, TxOutcome,
};
use crate::registry::{LogicalPeer, PeerTip, PeerView};
use crate::schedule::{
    best_of, ibd_candidate, is_stuck, lives, most_confirmed, reaches_checkpoint, Survey,
    SyncProgress,
};
use crate::supervisor::{Keepalive, KeepaliveConfig, Tick};
use crate::tip_validation::{
    anchor_work_of, deadline_secs, forward_work, header_fault, leads_down, with_headers, TipFault,
    ValidationRegime,
};
use crate::tipcheck::{
    checkpoint_fault, lookback_fault, lookback_start, needs_lookback, TipAction, TipNews, TipView,
    VerifiedView,
};
use crate::tips::{
    after_download, background_step_of, claimed, confirmed, dispatches, ClaimCheck, ClaimNews,
};
use crate::work::{be_nat, target_work, work_sum};
use vstd::prelude::*;

verus! {

// ---------------------------------------------------------------------------
// Whom to download from
// ---------------------------------------------------------------------------
/// The chain of a peer is fetched only if it is connected, has been confirmed now
/// or before, does not have to wait, and its chain is better than ours.
pub proof fn law_download_needs_a_proven_peer(p: PeerView, ours: ChainTip, now: u64)
    ensures
        ibd_candidate(p, ours, now) <==> {
            &&& p.session is Some
            &&& p.tip matches Some(t) && (t.confirmed || p.ever_confirmed_for_ibd) && (be_nat(
                t.cumulative_work@,
            ) > be_nat(ours.cumulative_work@) || be_nat(t.cumulative_work@) == be_nat(
                ours.cumulative_work@,
            ) && t.height > ours.height)
            &&& !(p.ibd_cooldown_until matches Some(until) && now < until)
        },
{
}

/// Below the checkpoint a peer is asked if it is connected, claims to be at least
/// as high as the checkpoint, and does not have to wait.
pub proof fn law_checkpoint_peer_is_high_enough(p: PeerView, height: u64, now: u64)
    ensures
        reaches_checkpoint(p, height, now) <==> p.session is Some && p.tip is Some
            && p.tip->0.height >= height && (p.ibd_cooldown_until is None || now
            >= p.ibd_cooldown_until->0),
{
}

/// A node that catches up follows the chain once a peer is confirmed that is not
/// ahead, or our own tip moved within the last minute. One that follows falls back
/// exactly when a confirmed peer is ahead and our tip has not moved for a minute.
pub proof fn law_node_follows_when_it_has_caught_up(
    p: SyncProgress,
    confirmed_work: nat,
    our_work: nat,
    connected: nat,
    now: u64,
)
    requires
        p.last_tip_change <= now,
        p.start_time <= now,
    ensures
        ({
            let moved = now - p.last_tip_change < 60_000_000_000;
            let after = lives(p, confirmed_work, our_work, connected, now);
            &&& p.is_live ==> (!after <==> confirmed_work > our_work && !moved)
            &&& !p.is_live && confirmed_work > 0 && (confirmed_work <= our_work || moved) ==> after
            &&& !p.is_live && confirmed_work > our_work && !moved ==> (after <==> connected == 0
                && !p.ever_had_peer && now - p.start_time > 60_000_000_000)
            &&& !p.is_live && confirmed_work == 0 ==> (after <==> connected == 0
                && !p.ever_had_peer && now - p.start_time > 60_000_000_000)
        }),
{
}

// ---------------------------------------------------------------------------
// Claims
// ---------------------------------------------------------------------------
/// What a peer claims is noted as unconfirmed, and never takes the place of a tip
/// that was confirmed.
pub proof fn law_claim_is_only_a_claim(p: PeerView, claim: PeerTip)
    ensures
        ({
            let q = claimed(p, claim);
            &&& p.tip matches Some(t) ==> t.confirmed ==> q == p
            &&& !(p.tip matches Some(t) && t.confirmed) ==> {
                &&& q.tip matches Some(t) && !t.confirmed && t.height == claim.height && t.block_id
                    == claim.block_id && t.cumulative_work == claim.cumulative_work
                &&& q.ever_confirmed_for_ibd == p.ever_confirmed_for_ibd
                &&& q.session == p.session
                &&& q.last_useful_message_at == p.last_useful_message_at
            }
        }),
{
}

/// A tip that was confirmed is noted as such, earns the peer credit, and makes it
/// one to download from.
pub proof fn law_confirmed_tip_is_noted(p: PeerView, tip: PeerTip, now: u64)
    ensures
        ({
            let q = confirmed(p, tip, now);
            &&& q.tip matches Some(t) && t.confirmed && t.height == tip.height && t.block_id
                == tip.block_id && t.cumulative_work == tip.cumulative_work
            &&& q.ever_confirmed_for_ibd
            &&& q.last_useful_message_at == Some(now)
            &&& q.session == p.session && q.retry == p.retry
        }),
{
}

/// After a download a claim is confirmed exactly if it comes from the peer that
/// was downloaded from and names the block that we have at its height; its work
/// is then our own reckoning, never the peer's word.
pub proof fn law_download_confirms_what_we_have(
    p: PeerView,
    claim: PeerTip,
    from_peer: bool,
    stored: Option<Hash256>,
    stored_work: Option<[u8; 32]>,
    our_work: [u8; 32],
)
    ensures
        ({
            let q = after_download(p, claim, from_peer, stored, stored_work, our_work);
            let yes = from_peer && stored is Some && stored->0 == claim.block_id;
            &&& q.tip matches Some(t) && t.confirmed == yes && t.height == claim.height
                && t.block_id == claim.block_id
            &&& yes && stored_work is Some ==> q.tip->0.cumulative_work == stored_work->0
            &&& yes && stored_work is None ==> q.tip->0.cumulative_work == our_work
            &&& q.ever_confirmed_for_ibd == (p.ever_confirmed_for_ibd || yes)
        }),
{
}

/// A claim is checked in full only if it is above the first block, nothing is
/// under way on its session, a peer was confirmed before, and it can be tied to
/// something: our own chain, or a checkpoint that is trusted.
pub proof fn law_claims_are_checked_when_they_can_be(
    height: u64,
    ever: bool,
    active: bool,
    our_height: u64,
    assume_valid: bool,
    trusted: bool,
)
    ensures
        dispatches(height, ever, active, our_height, assume_valid, trusted) <==> height > 0 && ever
            && !active && (our_height > 0 || assume_valid && trusted),
{
}

/// A peer that names a tip has to show its header: exactly that one, with the
/// target that it has to have, and with work that holds. Anything else earns a
/// strike, but for an answer without headers.
pub proof fn law_claim_stands_on_its_header(c: ClaimCheck, reply: ClaimNews)
    requires
        c.inv(),
    ensures
        ({
            let d = c.next(reply);
            &&& c.step is AskHeader ==> match reply {
                ClaimNews::Headers(h) => if h.len() == 0 {
                    d.step is Ignore
                } else if h.len() == 1 && h[0].id == c.block_id && h[0].height == c.height {
                    d.step is FindParent && d.header == Some(h[0])
                } else {
                    d.step is Strike
                },
                ClaimNews::NotSent => d.step is Ignore,
                ClaimNews::NoHeaders => d.step is Strike,
                _ => d == c,
            }
            &&& c.step is FindParent ==> (reply matches ClaimNews::Parent(known) ==> {
                &&& known ==> d.step is FindTarget
                &&& !known && c.anchored ==> d.step is Dispatch
                &&& !known && !c.anchored ==> d.step is CheckPow
            })
            &&& c.step is FindTarget ==> (reply matches ClaimNews::Target(t) ==> (d.step is CheckPow
                <==> t is Some && t->0 == c.header->0.difficulty_target) && (d.step is CheckPow
                || d.step is Strike))
            &&& c.step is CheckPow ==> (reply matches ClaimNews::Pow(ok) ==> (ok <==> d.step
                is Confirm) && (!ok <==> d.step is Strike))
        }),
{
}

// ---------------------------------------------------------------------------
// Checking a tip in full
// ---------------------------------------------------------------------------
/// A header passes exactly if it names its parent, stands right above it, has the
/// target that it has to have, and its work holds. Only what the peer delivered
/// is held against it.
pub proof fn law_header_is_checked_in_full(
    parent: Hash256,
    height: u64,
    h: BlockHeader,
    expected: Result<Hash256, Seq<char>>,
    pow: Result<bool, Seq<char>>,
)
    ensures
        header_fault(parent, height, h, expected, pow) is None <==> h.prev_block_id == parent
            && h.height == height && expected == Ok::<_, Seq<char>>(h.difficulty_target) && pow
            == Ok::<_, Seq<char>>(true),
        h.prev_block_id != parent || h.height != height ==> header_fault(
            parent,
            height,
            h,
            expected,
            pow,
        )->0 is DeliveredInvalidHeader,
        h.prev_block_id == parent && h.height == height && expected is Err ==> header_fault(
            parent,
            height,
            h,
            expected,
            pow,
        )->0 is Internal,
{
}

/// The work of a chain of headers grows with each of them by the work of its
/// target, and not at all by what the peer claims.
pub proof fn law_work_of_headers_adds_up(work: nat, headers: Seq<BlockHeader>, h: BlockHeader)
    ensures
        forward_work(work, Seq::empty()) == work,
        forward_work(work, headers.push(h)) == work_sum(
            forward_work(work, headers),
            target_work(be_nat(h.difficulty_target.0@)),
        ),
{
    assert(headers.push(h).drop_last() =~= headers);
}

/// The work up to an anchor is what storage has for it, or, for the checkpoint,
/// what the release says while that is trusted; it is never made up.
pub proof fn law_anchor_work_is_known(
    stored: Result<Option<[u8; 32]>, Seq<char>>,
    anchor: Hash256,
    trusted: bool,
    c: Checkpoint,
)
    ensures
        anchor_work_of(stored, anchor, true, trusted, c) == Ok::<_, TipFault>(c.cumulative_work)
            <==> trusted,
        !trusted ==> anchor_work_of(stored, anchor, true, trusted, c) is Err,
        anchor_work_of(stored, anchor, false, trusted, c) is Ok <==> (stored matches Ok(Some(_))),
        stored matches Ok(Some(w)) ==> anchor_work_of(stored, anchor, false, trusted, c) == Ok::<
            _,
            TipFault,
        >(w),
{
}

/// An attempt gets at least five minutes on a node without a chain, two hours on
/// one with a chain, and half as much again as the work is expected to take.
pub proof fn law_attempts_get_their_time(n: u64, cores: u32)
    requires
        ValidationRegime::Bootstrap.rate(cores) <= u32::MAX,
    ensures
        deadline_secs(n, ValidationRegime::Bootstrap, cores) >= 300,
        deadline_secs(n, ValidationRegime::SteadyState, cores) >= 7_200,
        ValidationRegime::SteadyState.rate(cores) == 20,
        cores > 0 ==> ValidationRegime::Bootstrap.rate(cores) == cores * 10,
        ValidationRegime::at_height(0) is Bootstrap,
        n > 0 ==> ValidationRegime::at_height(n) is SteadyState,
        ValidationRegime::Bootstrap.slots() == 1,
        ValidationRegime::SteadyState.slots() == 4,
        2 * deadline_secs(n, ValidationRegime::SteadyState, cores) >= 3 * (n as int / 20)
            || deadline_secs(n, ValidationRegime::SteadyState, cores) == u64::MAX,
{
}

/// What an attempt asks for: the checkpoint's header by its height; the next
/// headers above the last good one, as many as are missing or as fit; the target
/// and then the work of the next header; the work of the anchor, and the anchor
/// again.
pub proof fn law_attempt_asks_for_what_it_needs(v: TipView)
    requires
        v.inv(),
    ensures
        v.phase is Checkpoint ==> v.action() == (TipAction::FetchHeaders {
            start_height: v.config.checkpoint.height,
            max_count: 1,
        }),
        v.phase is Forward ==> (v.action() matches TipAction::FetchHeaders {
            start_height,
            max_count,
        } && start_height == v.anchor->0.height + 1 + v.validated.len() && max_count <= 64
            && max_count <= v.left && (max_count < 64 ==> max_count == v.left)),
        v.phase is Target ==> v.action() == (TipAction::FindTarget { header: v.pending[0] }),
        v.phase is Pow ==> v.action() == (TipAction::CheckPow { header: v.pending[0] }),
        v.phase is Work ==> v.action() == (TipAction::FindWork { id: v.anchor->0.header.id }),
        v.phase is Recheck ==> v.action() == (TipAction::FindBlockAt {
            height: v.anchor->0.height,
        }),
        v.phase is Done <==> v.action() is Finished,
{
}

/// A batch of headers that is empty, starts elsewhere or is too long ends an
/// attempt; so does a header that does not fit, has another target or fails its
/// work. A good header is kept, and one fewer is missing.
pub proof fn law_attempt_takes_only_good_headers(
    v: TipView,
    b: Seq<BlockHeader>,
    pow: Result<bool, Seq<char>>,
    target: Result<Hash256, Seq<char>>,
    now: u64,
)
    requires
        v.inv(),
    ensures
        v.phase is Forward && (b.len() == 0 || b.len() > 64 || b[0].height != v.anchor->0.height + 1
            + v.validated.len()) ==> (v.next(TipNews::Headers(b), now).outcome matches Some(Err(_))),
        v.phase is Target ==> (v.next(TipNews::Target(target), now).phase is Pow <==> target
            == Ok::<_, Seq<char>>(v.pending[0].difficulty_target)),
        v.phase is Pow && pow == Ok::<_, Seq<char>>(true) ==> v.next(
            TipNews::Pow(pow),
            now,
        ).validated == v.validated.push(v.pending[0]) && v.next(TipNews::Pow(pow), now).left
            == v.left - 1,
        v.phase is Pow && pow != Ok::<_, Seq<char>>(true) ==> (v.next(TipNews::Pow(pow), now).outcome
            matches Some(Err(_))),
{
}

// ---------------------------------------------------------------------------
// Traffic
// ---------------------------------------------------------------------------
/// A block from a banned address, or one that is known, is ignored; one at height
/// zero or of another version is held against the peer; any other is looked at.
pub proof fn law_blocks_are_screened(f: BlockFacts, l: ReaderLimits)
    ensures
        screen(f, l) is Drop <==> f.ip_banned || f.already_known,
        screen(f, l) is Strike <==> !f.ip_banned && !f.already_known && (f.height == 0 || f.version
            != l.block_version),
        screen(f, l) is Forward ==> f.height > 0 && f.version == l.block_version && !f.ip_banned,
        !(screen(f, l) is Disconnect),
{
}

/// Only an invalid transaction, or one that spends what another spends, counts
/// against a peer.
pub proof fn law_invalid_transactions_count(o: TxOutcome)
    ensures
        o is Added || o is TipChanged ==> !counts_invalid(o),
        o is Invalid ==> counts_invalid(o),
        o matches TxOutcome::PreCheckFailed { double_spend } ==> counts_invalid(o) == double_spend,
        o matches TxOutcome::MempoolRejected { double_spend } ==> counts_invalid(o) == double_spend,
{
}

/// The end of a connection, a used-up quota and a ban under way earn no strike;
/// forged or malformed messages do.
pub proof fn law_strikes_are_for_offences()
    ensures
        !strikes(PeerFault::Io) && !strikes(PeerFault::TrafficQuotaExceeded) && !strikes(
            PeerFault::PeerAlreadyBanned,
        ) && !strikes(PeerFault::DisconnectAfterInlineStrike),
        strikes(PeerFault::HmacFailure) && strikes(PeerFault::ProtocolGarbage) && strikes(
            PeerFault::MalformedFrame,
        ) && strikes(PeerFault::AbuseThresholdExceeded),
{
}

/// A request for headers is answered from the height asked for, up to our tip, and
/// with no more than asked for or sixty-four.
pub proof fn law_headers_are_answered_up_to_the_tip(start: u64, max_count: u32, tip: u64, h: u64)
    requires
        tip < u64::MAX,
        start < u64::MAX - 64,
    ensures
        start <= h < header_range_end(start, max_count, tip) <==> start <= h <= tip && h < start
            + max_count && h < start + 64,
{
}

// ---------------------------------------------------------------------------
// Looking at all peers
// ---------------------------------------------------------------------------
/// The best tip is one that a connected peer claims, and none of them claims more
/// work, or as much and a greater height.
pub proof fn law_best_tip_is_the_best(
    s: Seq<(PeerId, LogicalPeer)>,
    best: Option<PeerTip>,
    work: nat,
    j: int,
)
    requires
        0 <= j < s.len(),
        s[j].1.session is Some,
        s[j].1.tip is Some,
        best_of(s, best),
        most_confirmed(s, work),
    ensures
        best matches Some(t) && (be_nat(t.cumulative_work@) > be_nat(
            s[j].1.tip->0.cumulative_work@,
        ) || be_nat(t.cumulative_work@) == be_nat(s[j].1.tip->0.cumulative_work@) && t.height
            >= s[j].1.tip->0.height),
        s[j].1.tip->0.confirmed ==> work >= be_nat(s[j].1.tip->0.cumulative_work@),
{
    assert(s[j].1@.tip == s[j].1.tip);
    assert(s[j].1@.session == s[j].1.session);
}

/// Without a connected peer that was confirmed, no work counts as confirmed.
pub proof fn law_no_peer_confirms_no_work(s: Seq<(PeerId, LogicalPeer)>, work: nat)
    requires
        most_confirmed(s, work),
        forall|j: int|
            0 <= j < s.len() ==> !((#[trigger] s[j]).1@.session is Some && s[j].1@.tip is Some
                && s[j].1@.tip->0.confirmed),
    ensures
        work == 0,
{
}

/// Nobody's news is lost: a new peer is asked for its tip, a claim is noted, a
/// block is taken in, and the end of a session is seen to.
pub proof fn law_news_is_seen_to(event: PeerEvent)
    ensures
        event is Connected <==> background_step_of(event) is PollTip,
        event is Disconnected <==> background_step_of(event) is Detach,
        event is NewBlock || event is BlockResponse <==> background_step_of(event) is Intake,
        event is TipResponse <==> background_step_of(event) is NoteClaim,
{
}

// ---------------------------------------------------------------------------
// The way to an anchor
// ---------------------------------------------------------------------------
/// A node with a chain looks for the last block that it shares with the peer. One
/// without a chain builds on the checkpoint if that is trusted, and else on
/// nothing.
pub proof fn law_attempt_begins_at_an_anchor(v: TipView, now: u64)
    requires
        v.inv(),
        v.phase is Slot,
    ensures
        ({
            let w = v.next(TipNews::Slot(true), now);
            let i = v.inputs;
            &&& i.our_tip_height_at_start > 0 ==> w.phase is Probe
            &&& i.our_tip_height_at_start == 0 && i.assume_valid
                && i.assume_valid_cumulative_work_trusted ==> w.phase is Checkpoint
            &&& i.our_tip_height_at_start == 0 && !(i.assume_valid
                && i.assume_valid_cumulative_work_trusted) ==> (w.outcome matches Some(
                Err(TipFault::Internal(_)),
            ))
            &&& v.next(TipNews::Slot(false), now).outcome == Some(
                Err::<VerifiedView, _>(TipFault::NoSlotAvailable),
            )
        }),
{
}

/// The checkpoint's header is taken exactly if it comes alone, at its height and
/// with its id. An empty answer is held against nobody, any other is.
pub proof fn law_checkpoint_header_is_the_one(h: Seq<BlockHeader>, c: Checkpoint)
    ensures
        checkpoint_fault(h, c) is None <==> h.len() == 1 && h[0].height == c.height && h[0].id
            == c.hash,
        h.len() == 0 ==> checkpoint_fault(h, c)->0 is PeerNoForwardData,
        h.len() > 0 && checkpoint_fault(h, c) is Some ==> checkpoint_fault(h, c)->0
            is DeliveredInvalidHeader,
{
}

/// Headers below the checkpoint are needed exactly if the target changes between
/// it and the claimed height, which it does every 4320 blocks.
pub proof fn law_lookback_is_for_a_change_of_target(c: Checkpoint, claim: u64, k: nat)
    ensures
        c.height < k * 4_320 <= claim ==> needs_lookback(c, claim),
        needs_lookback(c, claim) ==> c.height < (c.height as int / 4_320 + 1) * 4_320 <= claim,
        c.height >= 4_319 ==> lookback_start(c) == c.height - 4_319,
        c.height < 4_319 ==> lookback_start(c) == 0,
{
    let q = c.height as int / 4_320;
    if c.height < k * 4_320 <= claim {
        assert(q + 1 <= k) by (nonlinear_arith)
            requires
                c.height < k * 4_320,
                q == c.height as int / 4_320,
        ;
        assert((q + 1) * 4_320 <= k * 4_320) by (nonlinear_arith)
            requires
                q + 1 <= k,
        ;
    }
}

/// A batch of headers below the checkpoint is taken exactly if it begins where it
/// has to and is no longer than asked for.
pub proof fn law_lookback_batch_fits(b: Seq<BlockHeader>, next: int, count: u32)
    ensures
        lookback_fault(b, next, count) is None <==> 1 <= b.len() <= count && b[0].height == next,
        b.len() == 0 ==> lookback_fault(b, next, count)->0 is PeerNoForwardData,
{
}

// ---------------------------------------------------------------------------
// Budgets
// ---------------------------------------------------------------------------
/// A budget has room for what fits into what is left of its minute; a minute after
/// its first use it is whole again.
pub proof fn law_budget_is_per_minute(l: WindowLimiter, now: u64, amount: u64, cap: u64)
    requires
        l.window_start <= now,
        l.used + amount <= u64::MAX,
        cap < u64::MAX,
    ensures
        now - l.window_start < 60_000_000_000 ==> (l.has_room(now, amount, cap) <==> l.used + amount
            <= cap) && l.rolled(now) == l,
        now - l.window_start >= 60_000_000_000 ==> (l.has_room(now, amount, cap) <==> amount <= cap)
            && l.rolled(now).used == 0 && l.rolled(now).window_start == now,
{
}

/// An answer is sent while a node catches up; else only within the budget of the
/// node, and, but for the first answer of a minute, within that of the peer.
pub proof fn law_answers_are_within_budget(
    m: SessionMeter,
    catching_up: bool,
    len: u64,
    global: WindowLimiter,
    now: u64,
    l: ReaderLimits,
)
    requires
        m.response_bytes + len < u64::MAX,
    ensures
        catching_up ==> m.may_answer(catching_up, len, global, now, l),
        !catching_up ==> (m.may_answer(catching_up, len, global, now, l) <==> global.has_room(
            now,
            len,
            l.max_global_response_bytes_per_min,
        ) && (m.response_bytes == 0 || m.response_bytes + len <= l.max_response_bytes_per_min)),
{
}

/// A node reports that it is stuck only if it could fetch from nobody although a
/// connected peer claims a better chain.
pub proof fn law_stuck_node_has_a_better_peer(s: Survey, ours: ChainTip)
    ensures
        is_stuck(s, ours) <==> s.ibd is None && s.connected > 0 && s.best_tip is Some && (be_nat(
            s.best_tip->0.cumulative_work@,
        ) > be_nat(ours.cumulative_work@) || be_nat(s.best_tip->0.cumulative_work@) == be_nat(
            ours.cumulative_work@,
        ) && s.best_tip->0.height > ours.height),
{
}

/// Headers lead down from an anchor if the first is its parent and each further
/// one is the parent of the one before.
pub proof fn law_headers_lead_down_by_parents(anchor: BlockHeader, batch: Seq<BlockHeader>)
    ensures
        leads_down(anchor, batch) <==> (batch.len() > 0 ==> batch[0].id == anchor.prev_block_id) && (
        forall|i: int|
            0 < i < batch.len() ==> (#[trigger] batch[i]).id == batch[i - 1].prev_block_id),
{
    if batch.len() > 0 && leads_down(anchor, batch) {
        assert(batch[0].id == anchor.prev_block_id);
    }
}

/// Every header that is carried over is found under its id, and what was there
/// before and is not replaced stays.
pub proof fn law_carried_headers_are_found(
    m: Map<Hash256, BlockHeader>,
    s: Seq<BlockHeader>,
    k: int,
    id: Hash256,
)
    ensures
        0 <= k < s.len() ==> with_headers(m, s).contains_key(s[k].id),
        (forall|i: int| 0 <= i < s.len() ==> (#[trigger] s[i]).id != id) ==> with_headers(
            m,
            s,
        ).contains_key(id) == m.contains_key(id) && (m.contains_key(id) ==> with_headers(m, s)[id]
            == m[id]),
        s.len() > 0 ==> with_headers(m, s)[s.last().id] == s.last(),
    decreases s.len(),
{
    if s.len() > 0 {
        let t = s.drop_last();
        law_carried_headers_are_found(m, t, k, id);
        assert forall|i: int| 0 <= i < t.len() implies #[trigger] t[i] == s[i] by {}
        assert(s[s.len() - 1] == s.last());
        if forall|i: int| 0 <= i < s.len() ==> (#[trigger] s[i]).id != id {
            assert forall|i: int| 0 <= i < t.len() implies (#[trigger] t[i]).id != id by {
                assert(s[i].id != id);
            }
        }
    }
}

/// A silent session is asked for a sign of life, and ended if none comes in time;
/// a session of a banned or evicted peer, or of a node that stops, ends at once.
pub proof fn law_silent_sessions_are_asked(k: Keepalive, t: Tick, c: KeepaliveConfig)
    ensures
        t.node_shutdown ==> k.verdict(t, c) is EndShutdown,
        !t.node_shutdown && t.evicted ==> k.verdict(t, c) is EndEvicted,
        !t.node_shutdown && !t.evicted && t.banned ==> k.verdict(t, c) is EndBanned,
        !t.node_shutdown && !t.evicted && !t.banned && !k.awaiting_pong && !t.pong_received
            && t.bytes_read == k.bytes_seen && k.last_progress <= t.now ==> (k.verdict(t, c)
            is SendPing <==> t.now - k.last_progress >= c.ping_interval_secs * 1_000_000_000),
        k.verdict(t, c) is EndPongTimeout ==> k.awaiting_pong && !t.pong_received,
{
}

/// Requests within the window count in full, and those that are older not at all.
pub proof fn law_window_slides(s: Seq<(u64, usize)>, now: u64, window: u64)
    ensures
        bytes_of(Seq::empty()) == 0,
        s.len() > 0 ==> bytes_of(s) == bytes_of(s.drop_last()) + s.last().1,
        in_window(s, now, window).len() > 0 ==> age(now, in_window(s, now, window)[0].0) <= window,
        s.len() > 0 && age(now, s[0].0) <= window ==> in_window(s, now, window) == s,
    decreases s.len(),
{
    if s.len() > 0 && age(now, s[0].0) > window {
        law_window_slides(s.drop_first(), now, window);
    }
}

} // verus!
