//! What the synchroniser does next.
use crate::assoc::{count_entries, lemma_count_is_cardinality};
use crate::chain::{better_chain, is_better_chain, ChainTip};
use crate::clock::{age, elapsed, within_secs, SECOND};
use crate::events::SyncState;
use crate::hash::PeerId;
use crate::registry::{LogicalPeer, PeerRegistry, PeerSession, PeerTip, PeerView};
use crate::stages::StageAOutcome;
use crate::text::{contains_text, decimal, has_text, push_decimal};
use crate::work::{be_nat, work_less};
use vstd::prelude::*;
use vstd::string::*;

verus! {

/// A tip that moved within so many seconds is progress.
pub const RECENT_PROGRESS_SECS: u64 = 60;

/// How long a node without peers waits before it takes its chain for the
/// chain, in seconds.
pub const LONELY_SECS: u64 = 60;

/// How often blocks ahead of the clock are tried again, in seconds.
pub const FUTURE_RETRY_SECS: u64 = 10;

/// How often peers are asked for their tips, in seconds.
pub const TIP_POLL_SECS: u64 = 60;

/// How often a node that is stuck reports why, in seconds.
pub const NO_IBD_DIAG_PERIOD_SECS: u64 = 300;

/// How long a peer that lied is not chosen for a download, in seconds.
pub const LIAR_COOLDOWN_SECS: u64 = 300;

/// How long a peer that failed is not chosen for a download, in seconds.
pub const FAILURE_COOLDOWN_SECS: u64 = 60;

// ---------------------------------------------------------------------------
// Choosing a peer
// ---------------------------------------------------------------------------
/// Whether a peer's wait is over.
pub open spec fn cooled(p: PeerView, now: u64) -> bool {
    p.ibd_cooldown_until matches Some(until) ==> now >= until
}

/// Whether a peer can bring a node below the checkpoint up to it.
pub open spec fn reaches_checkpoint(p: PeerView, height: u64, now: u64) -> bool {
    p.session is Some && (p.tip matches Some(t) && t.height >= height) && cooled(p, now)
}

/// A session from which the chain up to the checkpoint can be fetched.
pub fn pick_pre_anchor(registry: &PeerRegistry, checkpoint_height: u64, now: u64) -> (r: Option<
    (PeerId, PeerSession),
>)
    requires
        registry.wf(),
    ensures
        match r {
            Some((id, s)) => registry@.peers.contains_key(id) && reaches_checkpoint(
                registry@.peers[id],
                checkpoint_height,
                now,
            ) && registry@.peers[id].session == Some(s),
            None => forall|id: PeerId| #[trigger]
                registry@.peers.contains_key(id) ==> !reaches_checkpoint(
                    registry@.peers[id],
                    checkpoint_height,
                    now,
                ),
        },
{
    let n: usize = registry.by_identity.len();
    let ghost s = registry.by_identity.seq();
    proof {
        registry.lemma_walk();
    }
    let mut i: usize = 0;
    while i < n
        invariant
            s == registry.by_identity.seq(),
            n == s.len(),
            i <= n,
            forall|j: int|
                0 <= j < i ==> !reaches_checkpoint((#[trigger] s[j]).1@, checkpoint_height, now),
            forall|j: int|
                0 <= j < s.len() ==> registry@.peers.contains_key(#[trigger] s[j].0)
                    && registry@.peers[s[j].0] == s[j].1@,
        decreases n - i,
    {
        let e = registry.by_identity.at(i);
        let ready = match e.1.ibd_cooldown_until {
            Some(until) => now >= until,
            None => true,
        };
        if let Some(session) = e.1.session {
            if let Some(t) = e.1.tip {
                if t.height >= checkpoint_height && ready {
                    assert(registry@.peers.contains_key(s[i as int].0));
                    return Some((e.0, session));
                }
            }
        }
        i = i + 1;
    }
    proof {
        registry.lemma_walk();
        assert forall|id: PeerId| #[trigger]
            registry@.peers.contains_key(id) implies !reaches_checkpoint(
            registry@.peers[id],
            checkpoint_height,
            now,
        ) by {
            let j = choose|j: int| 0 <= j < s.len() && #[trigger] s[j].0 == id;
            assert(!reaches_checkpoint(s[j].1@, checkpoint_height, now));
        }
    }
    None
}

/// A tip as the end of a chain.
pub open spec fn chain_of(t: PeerTip) -> ChainTip {
    ChainTip { block_id: t.block_id, height: t.height, cumulative_work: t.cumulative_work }
}

fn chain_tip(t: &PeerTip) -> (r: ChainTip)
    ensures
        r == chain_of(*t),
{
    ChainTip { block_id: t.block_id, height: t.height, cumulative_work: t.cumulative_work }
}

/// Whether a peer is connected and has named a tip.
pub open spec fn shows_tip(p: PeerView) -> bool {
    p.session is Some && p.tip is Some
}

/// Whether the tip of a connected peer is confirmed.
pub open spec fn shows_confirmed(p: PeerView) -> bool {
    shows_tip(p) && p.tip->0.confirmed
}

/// Whether the chain of a peer is to be fetched: it is connected, its tip is
/// confirmed or one of its tips was before, its wait is over, and its chain is
/// better than ours. A mere claim does not do: anybody can claim anything.
pub open spec fn ibd_candidate(p: PeerView, our_tip: ChainTip, now: u64) -> bool {
    &&& shows_tip(p)
    &&& p.tip->0.confirmed || p.ever_confirmed_for_ibd
    &&& cooled(p, now)
    &&& better_chain(chain_of(p.tip->0), our_tip)
}

/// What a look at all peers gives.
#[derive(Clone, Copy, Debug)]
pub struct Survey {
    /// The best tip that a connected peer claims.
    pub best_tip: Option<PeerTip>,
    /// The most work that a connected peer has been found to have.
    pub best_confirmed_work: [u8; 32],
    /// How many peers are connected.
    pub connected: usize,
    /// The peer whose chain is to be fetched, and its session.
    pub ibd: Option<(PeerId, u64)>,
}

/// Whether a tip is the best of a list of peers.
pub open spec fn best_of(s: Seq<(PeerId, LogicalPeer)>, best: Option<PeerTip>) -> bool {
    match best {
        None => forall|j: int| 0 <= j < s.len() ==> !shows_tip((#[trigger] s[j]).1@),
        Some(t) => {
            &&& exists|j: int|
                0 <= j < s.len() && shows_tip((#[trigger] s[j]).1@) && s[j].1.tip == Some(t)
            &&& forall|j: int|
                0 <= j < s.len() && shows_tip((#[trigger] s[j]).1@) ==> !better_chain(
                    chain_of(s[j].1.tip->0),
                    chain_of(t),
                )
        },
    }
}

/// Whether an amount of work is the most that is confirmed in a list of peers.
pub open spec fn most_confirmed(s: Seq<(PeerId, LogicalPeer)>, work: nat) -> bool {
    &&& forall|j: int|
        0 <= j < s.len() && shows_confirmed((#[trigger] s[j]).1@) ==> be_nat(
            s[j].1.tip->0.cumulative_work@,
        ) <= work
    &&& work == 0 || exists|j: int|
        0 <= j < s.len() && shows_confirmed((#[trigger] s[j]).1@) && be_nat(
            s[j].1.tip->0.cumulative_work@,
        ) == work
}

/// Whether a session is that of a candidate with the most work in a list.
pub open spec fn best_candidate(
    s: Seq<(PeerId, LogicalPeer)>,
    our_tip: ChainTip,
    now: u64,
    pick: Option<(PeerId, u64)>,
) -> bool {
    match pick {
        None => forall|j: int|
            0 <= j < s.len() ==> !ibd_candidate((#[trigger] s[j]).1@, our_tip, now),
        Some((id, sid)) => exists|k: int| #[trigger] heaviest(s, our_tip, now, k) && s[k].0 == id
            && s[k].1.session->0.session_id == sid,
    }
}

/// Whether the peer at `k` is a candidate with the most work in a list.
pub open spec fn heaviest(
    s: Seq<(PeerId, LogicalPeer)>,
    our_tip: ChainTip,
    now: u64,
    k: int,
) -> bool {
    &&& 0 <= k < s.len()
    &&& ibd_candidate(s[k].1@, our_tip, now)
    &&& forall|j: int|
        0 <= j < s.len() && ibd_candidate((#[trigger] s[j]).1@, our_tip, now) ==> be_nat(
            s[j].1.tip->0.cumulative_work@,
        ) <= be_nat(s[k].1.tip->0.cumulative_work@)
}

fn count_connected(registry: &PeerRegistry) -> (r: usize)
    requires
        registry.wf(),
    ensures
        r == registry@.peers.dom().filter(
            |k: PeerId| registry@.peers[k].session is Some,
        ).len(),
{
    let ghost p = |k: PeerId, v: LogicalPeer| v.session is Some;
    let n: usize = registry.by_identity.len();
    let mut count: usize = 0;
    let mut i: usize = 0;
    assert(registry.by_identity.seq().take(0) =~= Seq::<(PeerId, LogicalPeer)>::empty());
    while i < n
        invariant
            n == registry.by_identity.seq().len(),
            i <= n,
            count <= i,
            p == (|k: PeerId, v: LogicalPeer| v.session is Some),
            count == count_entries(registry.by_identity.seq().take(i as int), p),
        decreases n - i,
    {
        assert(registry.by_identity.seq().take(i + 1).drop_last()
            =~= registry.by_identity.seq().take(i as int));
        if registry.by_identity.at(i).1.session.is_some() {
            count = count + 1;
        }
        i = i + 1;
    }
    proof {
        assert(registry.by_identity.seq().take(i as int) =~= registry.by_identity.seq());
        registry.by_identity.lemma_seq();
        lemma_count_is_cardinality(registry.by_identity.seq(), p);
        let m = registry.by_identity@;
        assert(m.dom().filter(|k: PeerId| p(k, m[k])) =~= registry@.peers.dom().filter(
            |k: PeerId| registry@.peers[k].session is Some,
        ));
    }
    count
}

fn find_best_tip(registry: &PeerRegistry) -> (r: Option<PeerTip>)
    requires
        registry.wf(),
    ensures
        best_of(registry.by_identity.seq(), r),
{
    let n: usize = registry.by_identity.len();
    let ghost s = registry.by_identity.seq();
    let mut best: Option<PeerTip> = None;
    let mut i: usize = 0;
    while i < n
        invariant
            s == registry.by_identity.seq(),
            n == s.len(),
            i <= n,
            best_of(s.take(i as int), best),
        decreases n - i,
    {
        let e = registry.by_identity.at(i);
        let ghost before = best;
        let ghost t0 = s.take(i as int);
        let ghost t1 = s.take(i + 1);
        proof {
            assert(t1[i as int] == s[i as int]);
            assert forall|j: int| 0 <= j < t0.len() implies t1[j] == #[trigger] t0[j] by {}
        }
        if e.1.session.is_some() {
            if let Some(t) = e.1.tip {
                let better = match best {
                    Some(b) => is_better_chain(&chain_tip(&t), &chain_tip(&b)),
                    None => true,
                };
                if better {
                    best = Some(t);
                }
            }
        }
        proof {
            lemma_best_step(s, i as int, before, best);
        }
        i = i + 1;
    }
    assert(s.take(n as int) =~= s);
    best
}

proof fn lemma_best_step(
    s: Seq<(PeerId, LogicalPeer)>,
    i: int,
    before: Option<PeerTip>,
    after: Option<PeerTip>,
)
    requires
        0 <= i < s.len(),
        best_of(s.take(i), before),
        after == (if shows_tip(s[i].1@) && (before is None || better_chain(
            chain_of(s[i].1.tip->0),
            chain_of(before->0),
        )) {
            s[i].1.tip
        } else {
            before
        }),
    ensures
        best_of(s.take(i + 1), after),
{
    let t0 = s.take(i);
    let t1 = s.take(i + 1);
    assert(t1[i] == s[i]);
    assert forall|j: int| 0 <= j < i implies #[trigger] t1[j] == t0[j] by {}
    if after is Some {
        if after == before {
            let j = choose|j: int|
                0 <= j < t0.len() && shows_tip((#[trigger] t0[j]).1@) && t0[j].1.tip == before;
            assert(shows_tip(t1[j].1@) && t1[j].1.tip == after);
        } else {
            assert(shows_tip(t1[i].1@) && t1[i].1.tip == after);
        }
        assert forall|j: int| 0 <= j < t1.len() && shows_tip((#[trigger] t1[j]).1@) implies
            !better_chain(chain_of(t1[j].1.tip->0), chain_of(after->0)) by {
            if j < i {
                assert(t1[j] == t0[j]);
                if before is Some {
                    assert(!better_chain(chain_of(t0[j].1.tip->0), chain_of(before->0)));
                } else {
                    assert(!shows_tip(t0[j].1@));
                }
            }
        }
    } else {
        assert forall|j: int| 0 <= j < t1.len() implies !shows_tip((#[trigger] t1[j]).1@) by {
            if j < i {
                assert(t1[j] == t0[j]);
            }
        }
    }
}

fn find_confirmed_work(registry: &PeerRegistry) -> (r: [u8; 32])
    requires
        registry.wf(),
    ensures
        most_confirmed(registry.by_identity.seq(), be_nat(r@)),
{
    let n: usize = registry.by_identity.len();
    let ghost s = registry.by_identity.seq();
    let mut best: [u8; 32] = [0u8; 32];
    proof {
        lemma_zero_work(best@);
    }
    let ghost mut from: int = -1;
    let mut i: usize = 0;
    while i < n
        invariant
            s == registry.by_identity.seq(),
            n == s.len(),
            i <= n,
            forall|j: int|
                0 <= j < i && shows_confirmed((#[trigger] s[j]).1@) ==> be_nat(
                    s[j].1.tip->0.cumulative_work@,
                ) <= be_nat(best@),
            be_nat(best@) == 0 || (0 <= from < i && shows_confirmed(s[from].1@) && be_nat(
                s[from].1.tip->0.cumulative_work@,
            ) == be_nat(best@)),
        decreases n - i,
    {
        let e = registry.by_identity.at(i);
        if e.1.session.is_some() {
            if let Some(t) = e.1.tip {
                if t.confirmed && work_less(&best, &t.cumulative_work) {
                    best = t.cumulative_work;
                    proof {
                        from = i as int;
                    }
                }
            }
        }
        i = i + 1;
    }
    best
}

proof fn lemma_zero_work(b: Seq<u8>)
    requires
        forall|i: int| 0 <= i < b.len() ==> b[i] == 0,
    ensures
        be_nat(b) == 0,
    decreases b.len(),
{
    if b.len() > 0 {
        lemma_zero_work(b.drop_last());
    }
}

fn find_candidate(registry: &PeerRegistry, our_tip: &ChainTip, now: u64) -> (r: Option<
    (PeerId, u64),
>)
    requires
        registry.wf(),
    ensures
        best_candidate(registry.by_identity.seq(), *our_tip, now, r),
{
    let n: usize = registry.by_identity.len();
    let ghost s = registry.by_identity.seq();
    let mut best: Option<usize> = None;
    let mut i: usize = 0;
    while i < n
        invariant
            s == registry.by_identity.seq(),
            n == s.len(),
            i <= n,
            match best {
                None => forall|j: int|
                    0 <= j < i ==> !ibd_candidate((#[trigger] s[j]).1@, *our_tip, now),
                Some(k) => k < i && ibd_candidate(s[k as int].1@, *our_tip, now) && forall|j: int|
                    0 <= j < i && ibd_candidate((#[trigger] s[j]).1@, *our_tip, now) ==> be_nat(
                        s[j].1.tip->0.cumulative_work@,
                    ) <= be_nat(s[k as int].1.tip->0.cumulative_work@),
            },
        decreases n - i,
    {
        let e = registry.by_identity.at(i);
        let ready = match e.1.ibd_cooldown_until {
            Some(until) => now >= until,
            None => true,
        };
        if e.1.session.is_some() && ready {
            if let Some(t) = e.1.tip {
                if (t.confirmed || e.1.ever_confirmed_for_ibd) && is_better_chain(
                    &chain_tip(&t),
                    our_tip,
                ) {
                    let more = match best {
                        None => true,
                        Some(k) => match &registry.by_identity.at(k).1.tip {
                            Some(b) => work_less(&b.cumulative_work, &t.cumulative_work),
                            None => true,
                        },
                    };
                    if more {
                        best = Some(i);
                    }
                }
            }
        }
        i = i + 1;
    }
    match best {
        None => None,
        Some(k) => {
            let e = registry.by_identity.at(k);
            assert(heaviest(s, *our_tip, now, k as int));
            match &e.1.session {
                Some(x) => Some((e.0, x.session_id)),
                None => None,
            }
        },
    }
}

/// What a look at all peers has shown.
pub open spec fn surveyed(registry: PeerRegistry, our_tip: ChainTip, now: u64, v: Survey) -> bool {
    &&& best_of(registry.by_identity.seq(), v.best_tip)
    &&& most_confirmed(registry.by_identity.seq(), be_nat(v.best_confirmed_work@))
    &&& v.connected == registry@.peers.dom().filter(
        |k: PeerId| registry@.peers[k].session is Some,
    ).len()
    &&& best_candidate(registry.by_identity.seq(), our_tip, now, v.ibd)
}

/// Looks at all peers.
pub fn survey(registry: &PeerRegistry, our_tip: &ChainTip, now: u64) -> (r: Survey)
    requires
        registry.wf(),
    ensures
        surveyed(*registry, *our_tip, now, r),
{
    Survey {
        best_tip: find_best_tip(registry),
        best_confirmed_work: find_confirmed_work(registry),
        connected: count_connected(registry),
        ibd: find_candidate(registry, our_tip, now),
    }
}

/// Only a peer whose chain was found to be better than ours, now or before, is
/// ever chosen for a download; claims alone never choose one.
pub proof fn law_claims_alone_start_no_download(
    registry: &PeerRegistry,
    our_tip: ChainTip,
    now: u64,
    id: PeerId,
    sid: u64,
)
    requires
        registry.wf(),
        best_candidate(registry.by_identity.seq(), our_tip, now, Some((id, sid))),
    ensures
        registry@.peers.contains_key(id),
        registry@.peers[id].session matches Some(s) && s.session_id == sid,
        registry@.peers[id].tip->0.confirmed || registry@.peers[id].ever_confirmed_for_ibd,
        better_chain(chain_of(registry@.peers[id].tip->0), our_tip),
        cooled(registry@.peers[id], now),
{
    let s = registry.by_identity.seq();
    registry.lemma_walk();
    let k = choose|k: int| #[trigger]
        heaviest(s, our_tip, now, k) && s[k].0 == id && s[k].1.session->0.session_id == sid;
    assert(registry@.peers.contains_key(s[k].0));
}

/// A peer that may be chosen is chosen, or one with at least as much work.
pub proof fn law_download_takes_the_best(
    registry: &PeerRegistry,
    our_tip: ChainTip,
    now: u64,
    pick: Option<(PeerId, u64)>,
    other: PeerId,
)
    requires
        registry.wf(),
        best_candidate(registry.by_identity.seq(), our_tip, now, pick),
        registry@.peers.contains_key(other),
        ibd_candidate(registry@.peers[other], our_tip, now),
    ensures
        pick matches Some((id, _)) && be_nat(registry@.peers[id].tip->0.cumulative_work@) >= be_nat(
            registry@.peers[other].tip->0.cumulative_work@,
        ),
{
    let s = registry.by_identity.seq();
    registry.lemma_walk();
    let j = choose|j: int| 0 <= j < s.len() && #[trigger] s[j].0 == other;
    assert(ibd_candidate(s[j].1@, our_tip, now));
    if let Some((id, sid)) = pick {
        let k = choose|k: int| #[trigger]
            heaviest(s, our_tip, now, k) && s[k].0 == id && s[k].1.session->0.session_id == sid;
        assert(registry@.peers.contains_key(s[k].0));
    }
}

// ---------------------------------------------------------------------------
// Catching up and following
// ---------------------------------------------------------------------------
/// What the synchroniser remembers.
#[derive(Clone, Copy, Debug)]
pub struct SyncProgress {
    pub is_live: bool,
    pub last_tip_height: u64,
    pub last_tip_change: u64,
    pub last_future_retry: u64,
    pub last_tip_poll: u64,
    pub ever_had_peer: bool,
    pub start_time: u64,
    pub last_diagnosis: Option<u64>,
}

/// Whether the node follows the chain, after a look at its peers.
///
/// A node that catches up begins to follow once a peer is confirmed and is not
/// ahead, or our tip moves; or if it never had a peer for a while. A node that
/// follows falls back only if a confirmed peer is ahead and our tip does not
/// move.
pub open spec fn lives(
    p: SyncProgress,
    confirmed_work: nat,
    our_work: nat,
    connected: nat,
    now: u64,
) -> bool {
    let ahead = confirmed_work > our_work;
    let progress = age(now, p.last_tip_change) < RECENT_PROGRESS_SECS * SECOND;
    if !p.is_live {
        ||| confirmed_work != 0 && (!ahead || progress)
        ||| connected == 0 && !p.ever_had_peer && age(now, p.start_time) > LONELY_SECS * SECOND
    } else {
        !(ahead && !progress)
    }
}

impl SyncProgress {
    pub fn new(tip_height: u64, now: u64) -> (r: Self)
        ensures
            r == (SyncProgress {
                is_live: false,
                last_tip_height: tip_height,
                last_tip_change: now,
                last_future_retry: now,
                last_tip_poll: now,
                ever_had_peer: false,
                start_time: now,
                last_diagnosis: None,
            }),
    {
        SyncProgress {
            is_live: false,
            last_tip_height: tip_height,
            last_tip_change: now,
            last_future_retry: now,
            last_tip_poll: now,
            ever_had_peer: false,
            start_time: now,
            last_diagnosis: None,
        }
    }

    /// Takes note of the height of our tip.
    pub fn observe_tip(&mut self, height: u64, now: u64)
        ensures
            *final(self) == (if height != old(self).last_tip_height {
                SyncProgress { last_tip_height: height, last_tip_change: now, ..*old(self) }
            } else {
                *old(self)
            }),
    {
        if height != self.last_tip_height {
            self.last_tip_height = height;
            self.last_tip_change = now;
        }
    }

    /// Notes that a download begins.
    pub fn begin_download(&mut self)
        ensures
            *final(self) == (SyncProgress { is_live: false, ..*old(self) }),
    {
        self.is_live = false;
    }

    /// Notes that a download has come to a good end.
    pub fn download_done(&mut self, height: u64, now: u64)
        ensures
            *final(self) == (SyncProgress {
                last_tip_height: height,
                last_tip_change: now,
                ..*old(self)
            }),
    {
        self.last_tip_height = height;
        self.last_tip_change = now;
    }

    /// Notes that a peer has connected.
    pub fn on_connected(&mut self)
        ensures
            *final(self) == (SyncProgress { ever_had_peer: true, ..*old(self) }),
    {
        self.ever_had_peer = true;
    }

    /// Decides whether the node follows the chain.
    pub fn update(
        &mut self,
        confirmed_work: &[u8; 32],
        our_work: &[u8; 32],
        connected: usize,
        now: u64,
    ) -> (r: SyncState)
        ensures
            ({
                let live = lives(
                    *old(self),
                    be_nat(confirmed_work@),
                    be_nat(our_work@),
                    connected as nat,
                    now,
                );
                &&& *final(self) == (SyncProgress { is_live: live, ..*old(self) })
                &&& r == (if live {
                    SyncState::Live
                } else {
                    SyncState::CatchingUp
                })
            }),
    {
        let progress = within_secs(now, self.last_tip_change, RECENT_PROGRESS_SECS);
        let ahead = work_less(our_work, confirmed_work);
        if !self.is_live {
            let zero = [0u8; 32];
            proof {
                lemma_zero_work(zero@);
            }
            let has_confirmed = work_less(&zero, confirmed_work);
            if has_confirmed && (!ahead || progress) {
                self.is_live = true;
            } else if connected == 0 && !self.ever_had_peer && elapsed(now, self.start_time)
                > 60_000_000_000 {
                self.is_live = true;
            }
        } else if ahead && !progress {
            self.is_live = false;
        }
        if self.is_live {
            SyncState::Live
        } else {
            SyncState::CatchingUp
        }
    }

    /// Takes note of the job that was chosen. Whenever nothing is downloaded,
    /// this decides whether the node follows the chain, and says so.
    pub fn on_job(&mut self, job: &SyncJob, our_tip: &ChainTip, now: u64) -> (r: Option<SyncState>)
        ensures
            match job.idle() {
                Some(v) => {
                    let live = lives(
                        *old(self),
                        be_nat(v.best_confirmed_work@),
                        be_nat(our_tip.cumulative_work@),
                        v.connected as nat,
                        now,
                    );
                    &&& *final(self) == (SyncProgress {
                        is_live: live,
                        ever_had_peer: old(self).ever_had_peer || v.connected > 0,
                        ..*old(self)
                    })
                    &&& r == Some(
                        if live {
                            SyncState::Live
                        } else {
                            SyncState::CatchingUp
                        },
                    )
                },
                None => {
                    &&& *final(self) == (SyncProgress { ever_had_peer: true, ..*old(self) })
                    &&& r is None
                },
            },
    {
        let v = match job {
            SyncJob::WaitForPeer(v) => v,
            SyncJob::Follow(v) => v,
            _ => {
                self.ever_had_peer = true;
                return None;
            },
        };
        let state = self.update(
            &v.best_confirmed_work,
            &our_tip.cumulative_work,
            v.connected,
            now,
        );
        if v.connected > 0 {
            self.ever_had_peer = true;
        }
        Some(state)
    }

    /// Whether blocks ahead of the clock are to be tried again; if so, that is
    /// noted.
    pub fn future_retry_due(&mut self, now: u64) -> (r: bool)
        ensures
            r == (old(self).is_live && age(now, old(self).last_future_retry) >= FUTURE_RETRY_SECS
                * SECOND),
            *final(self) == (if r {
                SyncProgress { last_future_retry: now, ..*old(self) }
            } else {
                *old(self)
            }),
    {
        if self.is_live && !within_secs(now, self.last_future_retry, FUTURE_RETRY_SECS) {
            self.last_future_retry = now;
            true
        } else {
            false
        }
    }

    /// Whether peers are to be asked for their tips; if so, that is noted.
    pub fn tip_poll_due(&mut self, now: u64) -> (r: bool)
        ensures
            r == (age(now, old(self).last_tip_poll) >= TIP_POLL_SECS * SECOND),
            *final(self) == (if r {
                SyncProgress { last_tip_poll: now, ..*old(self) }
            } else {
                *old(self)
            }),
    {
        if !within_secs(now, self.last_tip_poll, TIP_POLL_SECS) {
            self.last_tip_poll = now;
            true
        } else {
            false
        }
    }

    /// Whether the node is to report why it fetches nothing. It does so at
    /// once when a peer that cannot be chosen claims a better chain, and from
    /// time to time as long as that lasts.
    pub fn diagnosis_due(&mut self, stuck: bool, now: u64) -> (r: bool)
        ensures
            r == (stuck && (old(self).last_diagnosis matches Some(t) ==> age(now, t)
                >= NO_IBD_DIAG_PERIOD_SECS * SECOND)),
            *final(self) == (SyncProgress {
                last_diagnosis: if !stuck {
                    None
                } else if r {
                    Some(now)
                } else {
                    old(self).last_diagnosis
                },
                ..*old(self)
            }),
    {
        if !stuck {
            self.last_diagnosis = None;
            return false;
        }
        let due = match self.last_diagnosis {
            Some(t) => !within_secs(now, t, NO_IBD_DIAG_PERIOD_SECS),
            None => true,
        };
        if due {
            self.last_diagnosis = Some(now);
        }
        due
    }
}

/// Whether some connected peer claims a better chain, but none can be chosen.
pub open spec fn is_stuck(s: Survey, our_tip: ChainTip) -> bool {
    s.ibd is None && s.connected > 0 && (s.best_tip matches Some(t) && better_chain(
        chain_of(t),
        our_tip,
    ))
}

/// Whether some connected peer claims a better chain, but none can be chosen.
pub fn stuck(s: &Survey, our_tip: &ChainTip) -> (r: bool)
    ensures
        r == is_stuck(*s, *our_tip),
{
    if s.ibd.is_some() || s.connected == 0 {
        return false;
    }
    match &s.best_tip {
        Some(t) => is_better_chain(&chain_tip(t), our_tip),
        None => false,
    }
}

/// A node that follows the chain goes on following when its peers leave, and
/// when a peer merely claims to be ahead.
pub proof fn law_live_outlasts_peers(p: SyncProgress, our_work: nat, now: u64)
    requires
        p.is_live,
    ensures
        lives(p, 0, our_work, 0, now),
{
}

/// A node falls back only when a confirmed peer is ahead and its own tip has
/// not moved for a while; and a node that has a peer does not begin to follow
/// before a peer is confirmed.
pub proof fn law_sync_state_has_hysteresis(
    p: SyncProgress,
    confirmed_work: nat,
    our_work: nat,
    connected: nat,
    now: u64,
)
    ensures
        p.is_live && !lives(p, confirmed_work, our_work, connected, now) ==> confirmed_work
            > our_work && age(now, p.last_tip_change) >= RECENT_PROGRESS_SECS * SECOND,
        !p.is_live && connected > 0 && lives(p, confirmed_work, our_work, connected, now)
            ==> confirmed_work > 0,
{
}

/// A node that never had a peer begins to follow once it has waited long
/// enough, whatever its tip: then it can mine the first blocks of a chain. One
/// that had a peer does not begin to follow for want of peers.
pub proof fn law_node_without_peers_begins_to_follow(
    p: SyncProgress,
    our_work: nat,
    now: u64,
)
    requires
        !p.is_live,
    ensures
        lives(p, 0, our_work, 0, now) <==> !p.ever_had_peer && age(now, p.start_time) > LONELY_SECS
            * SECOND,
{
}

/// What the synchroniser does next.
#[derive(Clone, Copy, Debug)]
pub enum SyncJob {
    /// Fetch the chain up to the checkpoint from a session, its headers first
    /// where they are not there yet.
    FetchToCheckpoint { peer: PeerId, session: PeerSession, need_headers: bool },
    /// Wait for a peer that has the chain up to the checkpoint.
    WaitForPeer(Survey),
    /// Fetch the chain of a peer.
    Download { peer: PeerId, session_id: u64 },
    /// Handle what comes in.
    Follow(Survey),
}

impl SyncJob {
    /// What was seen of the peers, if nothing is downloaded.
    pub open spec fn idle(self) -> Option<Survey> {
        match self {
            SyncJob::WaitForPeer(v) => Some(v),
            SyncJob::Follow(v) => Some(v),
            _ => None,
        }
    }
}

/// No peer is connected.
pub open spec fn nobody_connected(registry: PeerRegistry) -> bool {
    forall|id: PeerId| #[trigger]
        registry@.peers.contains_key(id) ==> registry@.peers[id].session is None
}

proof fn lemma_nobody_to_download_from(registry: &PeerRegistry, our_tip: ChainTip, now: u64)
    requires
        registry.wf(),
        nobody_connected(*registry),
    ensures
        registry@.peers.dom().filter(|k: PeerId| registry@.peers[k].session is Some).len() == 0,
        forall|pick: Option<(PeerId, u64)>| #[trigger]
            best_candidate(registry.by_identity.seq(), our_tip, now, pick) ==> pick is None,
{
    assert(registry@.peers.dom().filter(|k: PeerId| registry@.peers[k].session is Some)
        =~= Set::<PeerId>::empty());
    assert forall|pick: Option<(PeerId, u64)>| #[trigger]
        best_candidate(registry.by_identity.seq(), our_tip, now, pick) implies pick is None by {
        if let Some((id, sid)) = pick {
            law_claims_alone_start_no_download(registry, our_tip, now, id, sid);
        }
    }
}

/// Chooses what to do next. A node whose tip is not above the checkpoint has
/// to reach it first; after that it fetches a better chain if there is one,
/// and else follows.
pub fn next_job(
    registry: &PeerRegistry,
    our_tip: &ChainTip,
    checkpoint_height: u64,
    have_headers: bool,
    now: u64,
) -> (r: SyncJob)
    requires
        registry.wf(),
    ensures
        match r {
            SyncJob::FetchToCheckpoint { peer, session, need_headers } => {
                &&& our_tip.height <= checkpoint_height
                &&& registry@.peers.contains_key(peer)
                &&& reaches_checkpoint(registry@.peers[peer], checkpoint_height, now)
                &&& registry@.peers[peer].session == Some(session)
                &&& need_headers == !have_headers
            },
            SyncJob::WaitForPeer(v) => {
                &&& our_tip.height <= checkpoint_height
                &&& surveyed(*registry, *our_tip, now, v)
                &&& forall|id: PeerId| #[trigger]
                    registry@.peers.contains_key(id) ==> !reaches_checkpoint(
                        registry@.peers[id],
                        checkpoint_height,
                        now,
                    )
            },
            SyncJob::Download { peer, session_id } => {
                &&& our_tip.height > checkpoint_height
                &&& best_candidate(
                    registry.by_identity.seq(),
                    *our_tip,
                    now,
                    Some((peer, session_id)),
                )
            },
            SyncJob::Follow(v) => {
                &&& our_tip.height > checkpoint_height
                &&& v.ibd is None
                &&& surveyed(*registry, *our_tip, now, v)
            },
        },
        nobody_connected(*registry) ==> (r.idle() matches Some(v) && v.connected == 0),
{
    proof {
        if nobody_connected(*registry) {
            lemma_nobody_to_download_from(registry, *our_tip, now);
        }
    }

    if our_tip.height <= checkpoint_height {
        return match pick_pre_anchor(registry, checkpoint_height, now) {
            Some((peer, session)) => SyncJob::FetchToCheckpoint {
                peer,
                session,
                need_headers: !have_headers,
            },
            None => SyncJob::WaitForPeer(survey(registry, our_tip, now)),
        };
    }
    let v = survey(registry, our_tip, now);
    match v.ibd {
        Some((peer, session_id)) => SyncJob::Download { peer, session_id },
        None => SyncJob::Follow(v),
    }
}

// ---------------------------------------------------------------------------
// After a download
// ---------------------------------------------------------------------------
/// What follows from the end of the fetching of headers.
#[derive(Clone, Copy, Debug, PartialEq, Eq, Structural)]
pub enum StageAFollowUp {
    /// Fetch the blocks from the same peer.
    Proceed,
    /// Let the peer rest for so many seconds, and hold it against it where
    /// `strike`.
    Rest { secs: u64, strike: bool },
}

/// What follows from the end of the fetching of headers.
pub fn after_stage_a(o: StageAOutcome) -> (r: StageAFollowUp)
    ensures
        r == (if o is Success {
            StageAFollowUp::Proceed
        } else if o.is_lie() {
            StageAFollowUp::Rest { secs: LIAR_COOLDOWN_SECS, strike: true }
        } else {
            StageAFollowUp::Rest { secs: FAILURE_COOLDOWN_SECS, strike: false }
        }),
{
    match o {
        StageAOutcome::Success => StageAFollowUp::Proceed,
        _ => if o.earns_strike() {
            StageAFollowUp::Rest { secs: LIAR_COOLDOWN_SECS, strike: true }
        } else {
            StageAFollowUp::Rest { secs: FAILURE_COOLDOWN_SECS, strike: false }
        },
    }
}

/// Whether a failed download has shown that the chain leads past another block
/// than the checkpoint, so that the node has to stop.
pub fn is_checkpoint_failure(message: &str) -> (r: bool)
    ensures
        r == has_text(message@, "checkpoint FAILED"@),
{
    contains_text(message, "checkpoint FAILED")
}

// ---------------------------------------------------------------------------
// Reports
// ---------------------------------------------------------------------------
/// A truth value as text.
pub open spec fn bool_text(b: bool) -> Seq<char> {
    if b {
        "true"@
    } else {
        "false"@
    }
}

fn bool_str(b: bool) -> (r: &'static str)
    ensures
        r@ == bool_text(b),
{
    if b {
        "true"
    } else {
        "false"
    }
}

/// The first four bytes of an identity as a list.
pub open spec fn identity_text(id: PeerId) -> Seq<char> {
    let b = id@;
    "["@ + decimal(b[0] as nat) + ", "@ + decimal(b[1] as nat) + ", "@ + decimal(b[2] as nat)
        + ", "@ + decimal(b[3] as nat) + "]"@
}

/// How long a peer still has to rest.
pub open spec fn cooldown_text(p: PeerView, now: u64) -> Seq<char> {
    match p.ibd_cooldown_until {
        Some(until) if now < until => decimal(((until - now) / (SECOND as int)) as nat) + "s"@,
        _ => "ok"@,
    }
}

/// What a peer claims.
pub open spec fn claim_text(p: PeerView, our_tip: ChainTip) -> Seq<char> {
    match p.tip {
        None => " tip=none"@,
        Some(t) => " tip_h="@ + decimal(t.height as nat) + " conf="@ + bool_text(t.confirmed)
            + " ahead="@ + bool_text(better_chain(chain_of(t), our_tip)),
    }
}

/// Why a connected peer is, or is not, chosen for a download.
pub open spec fn eligibility_text(id: PeerId, p: PeerView, our_tip: ChainTip, now: u64) -> Seq<
    char,
> {
    identity_text(id) + " ever_ibd="@ + bool_text(p.ever_confirmed_for_ibd) + " cooldown="@
        + cooldown_text(p, now) + claim_text(p, our_tip)
}

fn identity_row(id: &PeerId) -> (s: String)
    ensures
        s@ == identity_text(*id),
{
    let mut s = String::from_str("[");
    push_decimal(&mut s, id[0] as u64);
    s.append(", ");
    push_decimal(&mut s, id[1] as u64);
    s.append(", ");
    push_decimal(&mut s, id[2] as u64);
    s.append(", ");
    push_decimal(&mut s, id[3] as u64);
    s.append("]");
    s
}

fn cooldown_row(p: &LogicalPeer, now: u64) -> (s: String)
    ensures
        s@ == cooldown_text(p@, now),
{
    match p.ibd_cooldown_until {
        Some(until) if now < until => {
            let mut s = String::new();
            push_decimal(&mut s, (until - now) / 1_000_000_000);
            s.append("s");
            assert(s@ =~= cooldown_text(p@, now));
            s
        },
        _ => String::from_str("ok"),
    }
}

fn claim_row(p: &LogicalPeer, our_tip: &ChainTip) -> (s: String)
    ensures
        s@ == claim_text(p@, *our_tip),
{
    match &p.tip {
        None => String::from_str(" tip=none"),
        Some(t) => {
            let mut s = String::from_str(" tip_h=");
            push_decimal(&mut s, t.height);
            s.append(" conf=");
            s.append(bool_str(t.confirmed));
            s.append(" ahead=");
            s.append(bool_str(is_better_chain(&chain_tip(t), our_tip)));
            s
        },
    }
}

/// Why a connected peer is, or is not, chosen for a download.
pub fn eligibility_row(id: &PeerId, p: &LogicalPeer, our_tip: &ChainTip, now: u64) -> (r: String)
    ensures
        r@ == eligibility_text(*id, p@, *our_tip, now),
{
    let mut s = identity_row(id);
    s.append(" ever_ibd=");
    s.append(bool_str(p.ever_confirmed_for_ibd));
    s.append(" cooldown=");
    let wait = cooldown_row(p, now);
    s.append(wait.as_str());
    let claim = claim_row(p, our_tip);
    s.append(claim.as_str());
    s
}

} // verus!
