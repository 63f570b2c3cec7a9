//! The peers that a node knows, their sessions and the addresses they use.
use crate::assoc::{count_entries, distinct_keys, lemma_count_is_cardinality, AssocMap, KeySet};
use crate::clock::{after_secs, age, later, within_secs, SECOND};
use crate::eviction::{
    decide_eviction, distinct_peers, eviction_pool, is_victim, lemma_pool_distinct,
    EvictionCandidate, EvictionConfig, EvictionDecision,
};
use crate::hash::{same_bytes, Hash256, PeerId};
use crate::net::{IpAddr, NetworkGroup, SocketAddr};
use crate::work::{be_nat, bytes_less, work_less};
use vstd::prelude::*;

verus! {

/// A live connection to a peer.
#[derive(Clone, Copy, Debug)]
pub struct PeerSession {
    pub session_id: u64,
    pub socket_addr: SocketAddr,
    pub is_outbound: bool,
    pub established_at: u64,
}

/// When to dial again, and how long to wait after the next failure.
#[derive(Clone, Copy, Debug)]
pub struct RetryState {
    pub backoff_secs: u64,
    pub next_attempt_at: u64,
}

/// The chain tip that a peer claims.
#[derive(Clone, Copy, Debug)]
pub struct PeerTip {
    pub height: u64,
    pub cumulative_work: [u8; 32],
    pub block_id: Hash256,
    /// Whether the claim has been checked.
    pub confirmed: bool,
}

/// A peer by identity, across its sessions.
pub struct LogicalPeer {
    pub identity: PeerId,
    pub session: Option<PeerSession>,
    pub known_addrs: KeySet<SocketAddr>,
    pub preferred_dial_addr: Option<SocketAddr>,
    pub desired_outbound: bool,
    pub retry: RetryState,
    pub tip: Option<PeerTip>,
    pub ibd_cooldown_until: Option<u64>,
    /// When the current session last sent something useful. Every new session
    /// starts without credit.
    pub last_useful_message_at: Option<u64>,
    /// Whether a tip of this peer has ever been confirmed. Outlives sessions.
    pub ever_confirmed_for_ibd: bool,
}

/// What a `LogicalPeer` holds.
pub ghost struct PeerView {
    pub identity: PeerId,
    pub session: Option<PeerSession>,
    pub known_addrs: Set<SocketAddr>,
    pub preferred_dial_addr: Option<SocketAddr>,
    pub desired_outbound: bool,
    pub retry: RetryState,
    pub tip: Option<PeerTip>,
    pub ibd_cooldown_until: Option<u64>,
    pub last_useful_message_at: Option<u64>,
    pub ever_confirmed_for_ibd: bool,
}

impl View for LogicalPeer {
    type V = PeerView;

    open spec fn view(&self) -> PeerView {
        PeerView {
            identity: self.identity,
            session: self.session,
            known_addrs: self.known_addrs@,
            preferred_dial_addr: self.preferred_dial_addr,
            desired_outbound: self.desired_outbound,
            retry: self.retry,
            tip: self.tip,
            ibd_cooldown_until: self.ibd_cooldown_until,
            last_useful_message_at: self.last_useful_message_at,
            ever_confirmed_for_ibd: self.ever_confirmed_for_ibd,
        }
    }
}

/// Everything that is known about peers.
pub struct PeerRegistry {
    pub by_identity: AssocMap<PeerId, LogicalPeer>,
    pub connected_socket_to_identity: AssocMap<SocketAddr, PeerId>,
    pub known_dial_addr_to_identity: AssocMap<SocketAddr, PeerId>,
    pub pending_inbound_sockets: KeySet<SocketAddr>,
    pub pending_outbound_addrs: KeySet<SocketAddr>,
}

/// What a `PeerRegistry` holds.
#[verifier::ext_equal]
pub ghost struct RegistryView {
    pub peers: Map<PeerId, PeerView>,
    pub connected: Map<SocketAddr, PeerId>,
    pub known_dial: Map<SocketAddr, PeerId>,
    pub pending_inbound: Set<SocketAddr>,
    pub pending_outbound: Set<SocketAddr>,
}

impl View for PeerRegistry {
    type V = RegistryView;

    open spec fn view(&self) -> RegistryView {
        RegistryView {
            peers: self.by_identity@.map_values(|p: LogicalPeer| p@),
            connected: self.connected_socket_to_identity@,
            known_dial: self.known_dial_addr_to_identity@,
            pending_inbound: self.pending_inbound_sockets@,
            pending_outbound: self.pending_outbound_addrs@,
        }
    }
}

/// The dial state of an address whose peer is not known yet.
#[derive(Clone, Copy, Debug)]
pub struct OutboundBootstrap {
    pub retry: RetryState,
    pub desired_outbound: bool,
}

/// What became of a new session.
#[derive(Clone, Copy, Debug, PartialEq, Eq, Structural)]
pub enum SessionAttachResult {
    /// The peer had no session.
    NewLogicalConnect,
    /// The session takes the place of this one, which is to be shut down.
    ReplacedExistingSession { old_session_id: u64 },
    /// The peer's present session stays.
    RejectedDuplicate,
}

/// How long a session is safe from being replaced, in seconds.
pub const SESSION_REPLACE_MIN_AGE_SECS: u64 = 120;

/// The first backoff of a peer, in seconds.
pub const INITIAL_BACKOFF_SECS: u64 = 5;

/// The longest backoff of a peer, in seconds.
pub const MAX_BACKOFF_SECS: u64 = 300;

// ---------------------------------------------------------------------------
// Model
// ---------------------------------------------------------------------------
/// A peer that has just become known.
pub open spec fn fresh_peer(identity: PeerId, now: u64) -> PeerView {
    PeerView {
        identity,
        session: None,
        known_addrs: Set::empty(),
        preferred_dial_addr: None,
        desired_outbound: false,
        retry: RetryState { backoff_secs: INITIAL_BACKOFF_SECS, next_attempt_at: now },
        tip: None,
        ibd_cooldown_until: None,
        last_useful_message_at: None,
        ever_confirmed_for_ibd: false,
    }
}

/// Everything that comes with a new session.
pub struct AttachRequest {
    pub identity: PeerId,
    pub session: PeerSession,
    pub handshake_tip: PeerTip,
    pub dial_addr_hint: Option<SocketAddr>,
    pub desired_outbound: bool,
    pub our_pubkey: PeerId,
    pub active_ibd_peer: Option<(PeerId, u64)>,
    pub catching_up: bool,
    pub now: u64,
}

/// What a handshake teaches about a peer, whatever becomes of its session.
pub open spec fn note_handshake(p: PeerView, req: AttachRequest) -> PeerView {
    let hinted = match req.dial_addr_hint {
        Some(a) => PeerView {
            known_addrs: p.known_addrs.insert(a),
            preferred_dial_addr: Some(a),
            ..p
        },
        None => p,
    };
    PeerView {
        desired_outbound: hinted.desired_outbound || req.desired_outbound,
        tip: Some(PeerTip { confirmed: false, ..req.handshake_tip }),
        ..hinted
    }
}

/// What becomes of a new session of a peer whose present session is `existing`.
pub open spec fn attach_verdict(
    existing: Option<PeerSession>,
    req: AttachRequest,
) -> SessionAttachResult {
    match existing {
        None => SessionAttachResult::NewLogicalConnect,
        Some(cur) => {
            let prefer_outbound = be_nat(req.our_pubkey@) > be_nat(req.identity@);
            if req.active_ibd_peer == Some((req.identity, cur.session_id)) || req.catching_up
                || age(req.now, cur.established_at) < SESSION_REPLACE_MIN_AGE_SECS * SECOND
                || req.session.is_outbound != prefer_outbound {
                SessionAttachResult::RejectedDuplicate
            } else {
                SessionAttachResult::ReplacedExistingSession { old_session_id: cur.session_id }
            }
        },
    }
}

/// The registry after a new session.
pub open spec fn after_attach(r: RegistryView, req: AttachRequest) -> RegistryView {
    let addr = req.session.socket_addr;
    let known = if r.peers.contains_key(req.identity) {
        r.peers[req.identity]
    } else {
        fresh_peer(req.identity, req.now)
    };
    let noted = note_handshake(known, req);
    let verdict = attach_verdict(known.session, req);
    let dropped = match known.session {
        Some(cur) if verdict is ReplacedExistingSession => r.connected.remove(cur.socket_addr),
        _ => r.connected,
    };
    let rejected = verdict is RejectedDuplicate;
    RegistryView {
        peers: r.peers.insert(
            req.identity,
            if rejected {
                noted
            } else {
                PeerView { session: Some(req.session), last_useful_message_at: None, ..noted }
            },
        ),
        connected: if rejected {
            r.connected
        } else {
            dropped.insert(addr, req.identity)
        },
        known_dial: match req.dial_addr_hint {
            Some(a) => r.known_dial.insert(a, req.identity),
            None => r.known_dial,
        },
        pending_inbound: r.pending_inbound.remove(addr),
        pending_outbound: r.pending_outbound.remove(addr),
    }
}

/// Whether a peer's current session is the given one.
pub open spec fn is_current(r: RegistryView, identity: PeerId, session_id: u64) -> bool {
    &&& r.peers.contains_key(identity)
    &&& r.peers[identity].session matches Some(s) && s.session_id == session_id
}

/// The registry after the end of a session.
pub open spec fn after_detach(r: RegistryView, identity: PeerId, session_id: u64) -> RegistryView {
    if is_current(r, identity, session_id) {
        let p = r.peers[identity];
        RegistryView {
            peers: r.peers.insert(identity, PeerView { session: None, ..p }),
            connected: r.connected.remove(p.session->0.socket_addr),
            ..r
        }
    } else {
        r
    }
}

/// Whether a peer claims more work than the given amount.
pub open spec fn tip_above(p: PeerView, work: nat) -> bool {
    p.tip matches Some(t) && be_nat(t.cumulative_work@) > work
}

/// Whether some peer claims more work than the given amount.
pub open spec fn claims_more_work(r: RegistryView, work: nat) -> bool {
    exists|id: PeerId| #[trigger] r.peers.contains_key(id) && tip_above(r.peers[id], work)
}

/// Whether a peer has a session in the given direction.
pub open spec fn has_session(p: PeerView, outbound: bool) -> bool {
    p.session matches Some(s) && s.is_outbound == outbound
}

/// How many peers have a session in the given direction.
pub open spec fn session_count(r: RegistryView, outbound: bool) -> nat {
    r.peers.dom().filter(|k: PeerId| has_session(r.peers[k], outbound)).len()
}

/// Whether a peer has an inbound session from the given address.
pub open spec fn has_inbound_from(p: PeerView, ip: IpAddr) -> bool {
    p.session matches Some(s) && !s.is_outbound && s.socket_addr.ip == ip
}

/// How many peers have an inbound session from the given address.
pub open spec fn inbound_from(r: RegistryView, ip: IpAddr) -> nat {
    r.peers.dom().filter(|k: PeerId| has_inbound_from(r.peers[k], ip)).len()
}

/// Whether an address is taken by a session or by an attempt at one.
pub open spec fn address_taken(r: RegistryView, addr: SocketAddr) -> bool {
    r.connected.contains_key(addr) || r.pending_inbound.contains(addr)
        || r.pending_outbound.contains(addr)
}

/// The eviction candidate that a peer with a session makes.
pub open spec fn candidate_of(id: PeerId, p: LogicalPeer) -> EvictionCandidate {
    let s = p.session->0;
    EvictionCandidate {
        identity: id,
        session_id: s.session_id,
        socket_addr: s.socket_addr,
        established_at: s.established_at,
        group: NetworkGroup::of_ip(s.socket_addr.ip),
        last_useful_message_at: p.last_useful_message_at,
    }
}

/// The inbound sessions of a list of peers, in their order.
pub open spec fn inbound_candidates(entries: Seq<(PeerId, LogicalPeer)>) -> Seq<EvictionCandidate>
    decreases entries.len(),
{
    if entries.len() == 0 {
        Seq::empty()
    } else {
        let rest = inbound_candidates(entries.drop_last());
        let (id, p) = entries.last();
        if has_session(p@, false) {
            rest.push(candidate_of(id, p))
        } else {
            rest
        }
    }
}

impl RetryState {
    /// Dial at once, with the first backoff.
    pub open spec fn initial(now: u64) -> RetryState {
        RetryState { backoff_secs: INITIAL_BACKOFF_SECS, next_attempt_at: now }
    }

    /// Twice the backoff, five minutes at most, and a wait of that length.
    pub open spec fn bumped(self, now: u64) -> RetryState {
        let b = if 2 * self.backoff_secs <= MAX_BACKOFF_SECS {
            (2 * self.backoff_secs) as u64
        } else {
            MAX_BACKOFF_SECS
        };
        RetryState { backoff_secs: b, next_attempt_at: later(now, b) as u64 }
    }

    pub fn reset(&mut self, now: u64)
        ensures
            *final(self) == RetryState::initial(now),
    {
        self.backoff_secs = INITIAL_BACKOFF_SECS;
        self.next_attempt_at = now;
    }

    pub fn bump(&mut self, now: u64)
        ensures
            *final(self) == old(self).bumped(now),
    {
        if self.backoff_secs <= MAX_BACKOFF_SECS / 2 {
            self.backoff_secs = 2 * self.backoff_secs;
        } else {
            self.backoff_secs = MAX_BACKOFF_SECS;
        }
        self.next_attempt_at = after_secs(now, self.backoff_secs);
    }
}

/// However many dials fail, the wait stays between the first and the longest
/// backoff.
pub proof fn law_backoff_is_bounded(r: RetryState, now: u64)
    requires
        INITIAL_BACKOFF_SECS <= r.backoff_secs <= MAX_BACKOFF_SECS,
    ensures
        r.backoff_secs <= r.bumped(now).backoff_secs <= MAX_BACKOFF_SECS,
        INITIAL_BACKOFF_SECS <= RetryState::initial(now).backoff_secs <= MAX_BACKOFF_SECS,
{
}

impl PeerRegistry {
    /// The tables hold no key twice.
    pub open spec fn wf(&self) -> bool {
        &&& self.by_identity.wf()
        &&& self.connected_socket_to_identity.wf()
        &&& self.known_dial_addr_to_identity.wf()
        &&& self.pending_inbound_sockets.wf()
        &&& self.pending_outbound_addrs.wf()
        &&& forall|k: PeerId|
            #[trigger] self.by_identity@.contains_key(k) ==> self.by_identity@[k].known_addrs.wf()
    }

    /// There is an end to the tables.
    pub proof fn lemma_finite(&self)
        requires
            self.wf(),
        ensures
            self@.peers.dom().finite(),
            self@.pending_inbound.finite(),
            self@.pending_outbound.finite(),
    {
        self.by_identity.lemma_size();
        assert(self@.peers.dom() =~= self.by_identity@.dom());
        self.pending_inbound_sockets.lemma_finite();
        self.pending_outbound_addrs.lemma_finite();
    }

    /// No peer is twice among the sessions that may be evicted.
    pub proof fn lemma_pool_distinct(
        &self,
        active_ibd_peer: Option<(PeerId, u64)>,
        now: u64,
        config: EvictionConfig,
    )
        requires
            self.wf(),
        ensures
            distinct_peers(
                eviction_pool(
                    inbound_candidates(self.by_identity.seq()),
                    active_ibd_peer,
                    now,
                    config,
                ),
            ),
    {
        self.by_identity.lemma_seq();
        lemma_candidates_distinct(self.by_identity.seq());
        lemma_pool_distinct(
            inbound_candidates(self.by_identity.seq()),
            active_ibd_peer,
            now,
            config,
        );
    }

    /// A walk over the list of peers meets every peer.
    pub proof fn lemma_walk(&self)
        requires
            self.wf(),
        ensures
            forall|i: int|
                0 <= i < self.by_identity.seq().len() ==> self@.peers.contains_key(
                    #[trigger] self.by_identity.seq()[i].0,
                ) && self@.peers[self.by_identity.seq()[i].0] == self.by_identity.seq()[i].1@,
            forall|id: PeerId| #[trigger]
                self@.peers.contains_key(id) ==> exists|i: int|
                    0 <= i < self.by_identity.seq().len() && #[trigger] self.by_identity.seq()[i].0
                        == id,
    {
        self.by_identity.lemma_seq();
        let s = self.by_identity.seq();
        assert forall|i: int| 0 <= i < s.len() implies self@.peers.contains_key(
            #[trigger] s[i].0,
        ) && self@.peers[s[i].0] == s[i].1@ by {
            assert(self.by_identity@.contains_key(s[i].0));
        }
        assert forall|id: PeerId| #[trigger] self@.peers.contains_key(id) implies exists|i: int|
            0 <= i < s.len() && #[trigger] s[i].0 == id by {
            assert(self.by_identity@.contains_key(id));
            assert(crate::assoc::has_key(s, id));
            let k = crate::assoc::key_pos(s, id);
            assert(s[k].0 == id);
        }
    }

    pub fn new() -> (r: Self)
        ensures
            r.wf(),
            r@ == (RegistryView {
                peers: Map::empty(),
                connected: Map::empty(),
                known_dial: Map::empty(),
                pending_inbound: Set::empty(),
                pending_outbound: Set::empty(),
            }),
            r.by_identity.seq() == Seq::<(PeerId, LogicalPeer)>::empty(),
    {
        let r = PeerRegistry {
            by_identity: AssocMap::new(),
            connected_socket_to_identity: AssocMap::new(),
            known_dial_addr_to_identity: AssocMap::new(),
            pending_inbound_sockets: KeySet::new(),
            pending_outbound_addrs: KeySet::new(),
        };
        assert(r@.peers =~= Map::<PeerId, PeerView>::empty());
        r
    }

    pub fn has_identity(&self, identity: &PeerId) -> (r: bool)
        requires
            self.wf(),
        ensures
            r == self@.peers.contains_key(*identity),
    {
        self.by_identity.contains_key(identity)
    }

    pub fn get_by_identity(&self, identity: &PeerId) -> (r: Option<&LogicalPeer>)
        requires
            self.wf(),
        ensures
            match r {
                Some(p) => self@.peers.contains_key(*identity) && p@ == self@.peers[*identity],
                None => !self@.peers.contains_key(*identity),
            },
    {
        self.by_identity.get(identity)
    }

    pub fn get_mut_by_identity(&mut self, identity: &PeerId) -> (r: Option<&mut LogicalPeer>)
        requires
            old(self).wf(),
        ensures
            match r {
                Some(p) => {
                    &&& old(self)@.peers.contains_key(*identity)
                    &&& p@ == old(self)@.peers[*identity]
                    &&& p.known_addrs.wf()
                    &&& final(p).known_addrs.wf() ==> final(self).wf()
                    &&& final(self)@ == (RegistryView {
                        peers: old(self)@.peers.insert(*identity, final(p)@),
                        ..old(self)@
                    })
                },
                None => !old(self)@.peers.contains_key(*identity) && final(self)@ == old(self)@
                    && final(self).wf(),
            },
    {
        let ghost before = *self;
        let r = self.by_identity.get_mut(identity);
        match r {
            Some(p) => {
                proof {
                    assert(before.by_identity@.insert(*identity, *final(p)).map_values(
                        |p: LogicalPeer| p@,
                    ) =~= before@.peers.insert(*identity, final(p)@));
                }
                Some(p)
            },
            None => None,
        }
    }

    pub fn is_connected_socket(&self, addr: &SocketAddr) -> (r: bool)
        requires
            self.wf(),
        ensures
            r == self@.connected.contains_key(*addr),
    {
        self.connected_socket_to_identity.contains_key(addr)
    }

    /// Claims an address for an incoming connection; whether it was free.
    pub fn reserve_inbound_socket(&mut self, addr: SocketAddr) -> (r: bool)
        requires
            old(self).wf(),
        ensures
            final(self).wf(),
            r == !address_taken(old(self)@, addr),
            r ==> final(self)@ == (RegistryView {
                pending_inbound: old(self)@.pending_inbound.insert(addr),
                ..old(self)@
            }),
            !r ==> final(self)@ == old(self)@,
    {
        if self.connected_socket_to_identity.contains_key(&addr)
            || self.pending_inbound_sockets.contains(&addr) || self.pending_outbound_addrs.contains(
            &addr,
        ) {
            return false;
        }
        self.pending_inbound_sockets.insert(addr);
        true
    }

    pub fn release_inbound_socket(&mut self, addr: &SocketAddr)
        requires
            old(self).wf(),
        ensures
            final(self).wf(),
            final(self)@ == (RegistryView {
                pending_inbound: old(self)@.pending_inbound.remove(*addr),
                ..old(self)@
            }),
    {
        self.pending_inbound_sockets.remove(addr);
    }

    /// Claims an address for an outgoing connection; whether it was free.
    pub fn reserve_outbound_addr(&mut self, addr: SocketAddr) -> (r: bool)
        requires
            old(self).wf(),
        ensures
            final(self).wf(),
            r == !address_taken(old(self)@, addr),
            r ==> final(self)@ == (RegistryView {
                pending_outbound: old(self)@.pending_outbound.insert(addr),
                ..old(self)@
            }),
            !r ==> final(self)@ == old(self)@,
    {
        if self.connected_socket_to_identity.contains_key(&addr)
            || self.pending_outbound_addrs.contains(&addr)
            || self.pending_inbound_sockets.contains(&addr) {
            return false;
        }
        self.pending_outbound_addrs.insert(addr);
        true
    }

    pub fn release_outbound_addr(&mut self, addr: &SocketAddr)
        requires
            old(self).wf(),
        ensures
            final(self).wf(),
            final(self)@ == (RegistryView {
                pending_outbound: old(self)@.pending_outbound.remove(*addr),
                ..old(self)@
            }),
    {
        self.pending_outbound_addrs.remove(addr);
    }

    fn count_sessions(&self, outbound: bool) -> (r: usize)
        requires
            self.wf(),
        ensures
            r == session_count(self@, outbound),
    {
        let ghost p = |k: PeerId, v: LogicalPeer| has_session(v@, outbound);
        let n: usize = self.by_identity.len();
        let mut count: usize = 0;
        let mut i: usize = 0;
        assert(self.by_identity.seq().take(0) =~= Seq::<(PeerId, LogicalPeer)>::empty());
        while i < n
            invariant
                n == self.by_identity.seq().len(),
                i <= n,
                count <= i,
                p == (|k: PeerId, v: LogicalPeer| has_session(v@, outbound)),
                count == count_entries(self.by_identity.seq().take(i as int), p),
            decreases n - i,
        {
            assert(self.by_identity.seq().take(i + 1).drop_last() =~= self.by_identity.seq().take(
                i as int,
            ));
            let e = self.by_identity.at(i);
            if let Some(s) = &e.1.session {
                if s.is_outbound == outbound {
                    count = count + 1;
                }
            }
            i = i + 1;
        }
        proof {
            assert(self.by_identity.seq().take(i as int) =~= self.by_identity.seq());
            self.by_identity.lemma_seq();
            lemma_count_is_cardinality(self.by_identity.seq(), p);
            let m = self.by_identity@;
            assert(m.dom().filter(|k: PeerId| p(k, m[k])) =~= self@.peers.dom().filter(
                |k: PeerId| has_session(self@.peers[k], outbound),
            ));
        }
        count
    }

    pub fn inbound_count(&self) -> (r: usize)
        requires
            self.wf(),
        ensures
            r == session_count(self@, false),
    {
        self.count_sessions(false)
    }

    pub fn outbound_count(&self) -> (r: usize)
        requires
            self.wf(),
        ensures
            r == session_count(self@, true),
    {
        self.count_sessions(true)
    }

    pub fn inbound_count_for_ip(&self, ip: IpAddr) -> (r: usize)
        requires
            self.wf(),
        ensures
            r == inbound_from(self@, ip),
    {
        let ghost p = |k: PeerId, v: LogicalPeer| has_inbound_from(v@, ip);
        let n: usize = self.by_identity.len();
        let mut count: usize = 0;
        let mut i: usize = 0;
        assert(self.by_identity.seq().take(0) =~= Seq::<(PeerId, LogicalPeer)>::empty());
        while i < n
            invariant
                n == self.by_identity.seq().len(),
                i <= n,
                count <= i,
                p == (|k: PeerId, v: LogicalPeer| has_inbound_from(v@, ip)),
                count == count_entries(self.by_identity.seq().take(i as int), p),
            decreases n - i,
        {
            assert(self.by_identity.seq().take(i + 1).drop_last() =~= self.by_identity.seq().take(
                i as int,
            ));
            let e = self.by_identity.at(i);
            if let Some(s) = &e.1.session {
                if !s.is_outbound && s.socket_addr.ip == ip {
                    count = count + 1;
                }
            }
            i = i + 1;
        }
        proof {
            assert(self.by_identity.seq().take(i as int) =~= self.by_identity.seq());
            self.by_identity.lemma_seq();
            lemma_count_is_cardinality(self.by_identity.seq(), p);
            let m = self.by_identity@;
            assert(m.dom().filter(|k: PeerId| p(k, m[k])) =~= self@.peers.dom().filter(
                |k: PeerId| has_inbound_from(self@.peers[k], ip),
            ));
        }
        count
    }

    fn candidates(&self) -> (r: Vec<EvictionCandidate>)
        requires
            self.wf(),
        ensures
            r@ == inbound_candidates(self.by_identity.seq()),
            distinct_peers(r@),
    {
        let n: usize = self.by_identity.len();
        let mut out: Vec<EvictionCandidate> = Vec::new();
        let mut i: usize = 0;
        assert(self.by_identity.seq().take(0) =~= Seq::<(PeerId, LogicalPeer)>::empty());
        while i < n
            invariant
                n == self.by_identity.seq().len(),
                i <= n,
                out@ == inbound_candidates(self.by_identity.seq().take(i as int)),
            decreases n - i,
        {
            assert(self.by_identity.seq().take(i + 1).drop_last() =~= self.by_identity.seq().take(
                i as int,
            ));
            let e = self.by_identity.at(i);
            if let Some(s) = e.1.session {
                if !s.is_outbound {
                    out.push(
                        EvictionCandidate {
                            identity: e.0,
                            session_id: s.session_id,
                            socket_addr: s.socket_addr,
                            established_at: s.established_at,
                            group: NetworkGroup::from_ip(s.socket_addr.ip),
                            last_useful_message_at: e.1.last_useful_message_at,
                        },
                    );
                }
            }
            i = i + 1;
        }
        proof {
            assert(self.by_identity.seq().take(i as int) =~= self.by_identity.seq());
            self.by_identity.lemma_seq();
            lemma_candidates_distinct(self.by_identity.seq());
        }
        out
    }

    /// What is to be done about a new inbound peer: nothing while there is a free
    /// slot, or if it has a session already; else, if its address has not used up
    /// its share, the victim among the sessions that nothing protects has to go,
    /// if there is one.
    pub open spec fn decides(
        &self,
        new_peer_identity: PeerId,
        new_peer_ip: IpAddr,
        active_ibd_peer: Option<(PeerId, u64)>,
        max_inbound: usize,
        max_inbound_per_ip: usize,
        config: EvictionConfig,
        now: u64,
        r: EvictionDecision,
    ) -> bool {
        let all = inbound_candidates(self.by_identity.seq());
        let pool = eviction_pool(all, active_ibd_peer, now, config);
        if session_count(self@, false) < max_inbound {
            r is NotNeeded
        } else if self@.peers.contains_key(new_peer_identity)
            && self@.peers[new_peer_identity].session is Some {
            r is DuplicateIdentity
        } else if inbound_from(self@, new_peer_ip) >= max_inbound_per_ip {
            r is IpCapReached
        } else if pool.len() == 0 {
            r is NoEligibleCandidates
        } else {
            r matches EvictionDecision::Evict(c) && exists|v: int|
                #[trigger] is_victim(pool, now, v) && pool[v] == c
        }
    }

    /// Whether a new inbound peer needs another one to make room, and which.
    pub fn decide_inbound_eviction_utility(
        &self,
        new_peer_identity: &PeerId,
        new_peer_ip: IpAddr,
        active_ibd_peer: Option<(PeerId, u64)>,
        max_inbound: usize,
        max_inbound_per_ip: usize,
        config: &EvictionConfig,
        now: u64,
    ) -> (r: EvictionDecision)
        requires
            self.wf(),
        ensures
            self.decides(
                *new_peer_identity,
                new_peer_ip,
                active_ibd_peer,
                max_inbound,
                max_inbound_per_ip,
                *config,
                now,
                r,
            ),
    {
        if self.inbound_count() < max_inbound {
            return EvictionDecision::NotNeeded;
        }
        if let Some(p) = self.by_identity.get(new_peer_identity) {
            if p.session.is_some() {
                return EvictionDecision::DuplicateIdentity;
            }
        }
        if self.inbound_count_for_ip(new_peer_ip) >= max_inbound_per_ip {
            return EvictionDecision::IpCapReached;
        }
        let all = self.candidates();
        decide_eviction(&all, &active_ibd_peer, now, config)
    }

    /// Credits a peer for a useful message, if it came over its current session.
    pub fn mark_useful_message(&mut self, identity: &PeerId, session_id: u64, now: u64)
        requires
            old(self).wf(),
        ensures
            final(self).wf(),
            final(self)@ == (if is_current(old(self)@, *identity, session_id) {
                RegistryView {
                    peers: old(self)@.peers.insert(
                        *identity,
                        PeerView {
                            last_useful_message_at: Some(now),
                            ..old(self)@.peers[*identity]
                        },
                    ),
                    ..old(self)@
                }
            } else {
                old(self)@
            }),
    {
        let ghost before = self@;
        match self.get_mut_by_identity(identity) {
            Some(p) => {
                if let Some(s) = p.session {
                    if s.session_id == session_id {
                        p.last_useful_message_at = Some(now);
                    }
                }
            },
            None => {},
        }
        proof {
            if before.peers.contains_key(*identity) {
                assert(before.peers.insert(*identity, before.peers[*identity]) =~= before.peers);
            }
        }
    }

    /// Records that a peer answers at an address.
    pub fn bind_dial_addr(&mut self, identity: PeerId, addr: SocketAddr)
        requires
            old(self).wf(),
        ensures
            final(self).wf(),
            final(self)@ == (RegistryView {
                peers: if old(self)@.peers.contains_key(identity) {
                    old(self)@.peers.insert(
                        identity,
                        PeerView {
                            known_addrs: old(self)@.peers[identity].known_addrs.insert(addr),
                            preferred_dial_addr: Some(addr),
                            ..old(self)@.peers[identity]
                        },
                    )
                } else {
                    old(self)@.peers
                },
                known_dial: old(self)@.known_dial.insert(addr, identity),
                ..old(self)@
            }),
    {
        match self.get_mut_by_identity(&identity) {
            Some(p) => {
                p.known_addrs.insert(addr);
                p.preferred_dial_addr = Some(addr);
            },
            None => {},
        }
        self.known_dial_addr_to_identity.insert(addr, identity);
    }

    /// Whether some peer claims more work than the given amount.
    pub fn any_more_work(&self, work: &[u8; 32]) -> (r: bool)
        requires
            self.wf(),
        ensures
            r == claims_more_work(self@, be_nat(work@)),
    {
        let n: usize = self.by_identity.len();
        let mut i: usize = 0;
        proof {
            self.by_identity.lemma_seq();
        }
        while i < n
            invariant
                self.wf(),
                n == self.by_identity.seq().len(),
                i <= n,
                forall|k: int|
                    0 <= k < i ==> !(tip_above(
                        (#[trigger] self.by_identity.seq()[k]).1@,
                        be_nat(work@),
                    )),
                forall|k: int|
                    0 <= k < n ==> self.by_identity@.contains_key(
                        #[trigger] self.by_identity.seq()[k].0,
                    ) && self.by_identity@[self.by_identity.seq()[k].0]
                        == self.by_identity.seq()[k].1,
            decreases n - i,
        {
            let e = self.by_identity.at(i);
            if let Some(t) = &e.1.tip {
                if work_less(work, &t.cumulative_work) {
                    proof {
                        let id = self.by_identity.seq()[i as int].0;
                        assert(self@.peers.contains_key(id));
                        assert(tip_above(self@.peers[id], be_nat(work@)));
                    }
                    return true;
                }
            }
            i = i + 1;
        }
        proof {
            assert forall|id: PeerId| #[trigger] self@.peers.contains_key(id) implies !tip_above(
                self@.peers[id],
                be_nat(work@),
            ) by {
                assert(self.by_identity@.contains_key(id));
                self.by_identity.lemma_seq();
                let k = crate::assoc::key_pos(self.by_identity.seq(), id);
                assert(crate::assoc::has_key(self.by_identity.seq(), id));
                assert(self.by_identity.seq()[k].0 == id);
            }
        }
        false
    }

    /// Enters a new session, or keeps the one that the peer already has.
    pub fn attach_session(
        &mut self,
        identity: PeerId,
        session: PeerSession,
        handshake_tip: PeerTip,
        dial_addr_hint: Option<SocketAddr>,
        desired_outbound: bool,
        our_pubkey: PeerId,
        active_ibd_peer: Option<(PeerId, u64)>,
        catching_up: bool,
        now: u64,
    ) -> (r: SessionAttachResult)
        requires
            old(self).wf(),
        ensures
            final(self).wf(),
            ({
                let req = AttachRequest {
                    identity,
                    session,
                    handshake_tip,
                    dial_addr_hint,
                    desired_outbound,
                    our_pubkey,
                    active_ibd_peer,
                    catching_up,
                    now,
                };
                &&& final(self)@ == after_attach(old(self)@, req)
                &&& r == attach_verdict(
                    if old(self)@.peers.contains_key(identity) {
                        old(self)@.peers[identity].session
                    } else {
                        None
                    },
                    req,
                )
            }),
    {
        self.attach(
            AttachRequest {
                identity,
                session,
                handshake_tip,
                dial_addr_hint,
                desired_outbound,
                our_pubkey,
                active_ibd_peer,
                catching_up,
                now,
            },
        )
    }

    fn attach(&mut self, req: AttachRequest) -> (r: SessionAttachResult)
        requires
            old(self).wf(),
        ensures
            final(self).wf(),
            final(self)@ == after_attach(old(self)@, req),
            r == attach_verdict(
                if old(self)@.peers.contains_key(req.identity) {
                    old(self)@.peers[req.identity].session
                } else {
                    None
                },
                req,
            ),
    {
        let ghost start = self@;
        let addr = req.session.socket_addr;
        self.pending_inbound_sockets.remove(&addr);
        self.pending_outbound_addrs.remove(&addr);
        if !self.by_identity.contains_key(&req.identity) {
            self.by_identity.insert(
                req.identity,
                LogicalPeer {
                    identity: req.identity,
                    session: None,
                    known_addrs: KeySet::new(),
                    preferred_dial_addr: None,
                    desired_outbound: false,
                    retry: RetryState {
                        backoff_secs: INITIAL_BACKOFF_SECS,
                        next_attempt_at: req.now,
                    },
                    tip: None,
                    ibd_cooldown_until: None,
                    last_useful_message_at: None,
                    ever_confirmed_for_ibd: false,
                },
            );
        }
        let ghost known = if start.peers.contains_key(req.identity) {
            start.peers[req.identity]
        } else {
            fresh_peer(req.identity, req.now)
        };
        assert(self@.peers =~= start.peers.insert(req.identity, known));
        let mut dropped: Option<SocketAddr> = None;
        let mut verdict: SessionAttachResult = SessionAttachResult::RejectedDuplicate;
        match self.get_mut_by_identity(&req.identity) {
            Some(p) => {
                if let Some(a) = req.dial_addr_hint {
                    p.known_addrs.insert(a);
                    p.preferred_dial_addr = Some(a);
                }
                if req.desired_outbound {
                    p.desired_outbound = true;
                }
                let mut tip: PeerTip = req.handshake_tip;
                tip.confirmed = false;
                p.tip = Some(tip);
                match p.session {
                    None => {
                        verdict = SessionAttachResult::NewLogicalConnect;
                    },
                    Some(cur) => {
                        let downloading: bool = match &req.active_ibd_peer {
                            Some((id, sid)) => same_bytes(id, &req.identity) && *sid
                                == cur.session_id,
                            None => false,
                        };
                        let young: bool = within_secs(
                            req.now,
                            cur.established_at,
                            SESSION_REPLACE_MIN_AGE_SECS,
                        );
                        let prefer_outbound: bool = bytes_less(
                            req.identity.as_slice(),
                            req.our_pubkey.as_slice(),
                        );
                        if !downloading && !req.catching_up && !young && req.session.is_outbound
                            == prefer_outbound {
                            dropped = Some(cur.socket_addr);
                            verdict =
                            SessionAttachResult::ReplacedExistingSession {
                                old_session_id: cur.session_id,
                            };
                        }
                    },
                }
                if verdict != SessionAttachResult::RejectedDuplicate {
                    p.session = Some(req.session);
                    p.last_useful_message_at = None;
                }
            },
            None => {
                assert(false);
            },
        }
        if let Some(a) = req.dial_addr_hint {
            self.known_dial_addr_to_identity.insert(a, req.identity);
        }
        if let Some(a) = dropped {
            self.connected_socket_to_identity.remove(&a);
        }
        if verdict != SessionAttachResult::RejectedDuplicate {
            self.connected_socket_to_identity.insert(addr, req.identity);
        }
        assert(self@.peers =~= after_attach(start, req).peers);
        assert(self@ =~= after_attach(start, req));
        verdict
    }

    /// Ends a session if it is still the peer's current one.
    pub fn detach_session_if_current(&mut self, identity: PeerId, session_id: u64) -> (r: bool)
        requires
            old(self).wf(),
        ensures
            final(self).wf(),
            r == is_current(old(self)@, identity, session_id),
            final(self)@ == after_detach(old(self)@, identity, session_id),
    {
        let ghost before = self@;
        let mut ended: Option<SocketAddr> = None;
        match self.get_mut_by_identity(&identity) {
            Some(p) => {
                if let Some(s) = p.session {
                    if s.session_id == session_id {
                        ended = Some(s.socket_addr);
                        p.session = None;
                    }
                }
            },
            None => {},
        }
        proof {
            if before.peers.contains_key(identity) {
                assert(before.peers.insert(identity, before.peers[identity]) =~= before.peers);
            }
        }
        match ended {
            Some(a) => {
                self.connected_socket_to_identity.remove(&a);
                true
            },
            None => false,
        }
    }
}

proof fn lemma_candidates_distinct(entries: Seq<(PeerId, LogicalPeer)>)
    requires
        distinct_keys(entries),
    ensures
        distinct_peers(inbound_candidates(entries)),
        forall|i: int|
            0 <= i < inbound_candidates(entries).len() ==> exists|j: int|
                0 <= j < entries.len() && (#[trigger] entries[j]).0 == (
                #[trigger] inbound_candidates(entries)[i]).identity,
    decreases entries.len(),
{
    if entries.len() > 0 {
        let t = entries.drop_last();
        assert(distinct_keys(t));
        lemma_candidates_distinct(t);
        let before = inbound_candidates(t);
        let after = inbound_candidates(entries);
        let (id, p) = entries.last();
        assert forall|i: int| 0 <= i < before.len() implies exists|j: int|
            0 <= j < entries.len() - 1 && (#[trigger] entries[j]).0 == (#[trigger] before[i]).identity by {
            let j = choose|j: int| 0 <= j < t.len() && (#[trigger] t[j]).0 == before[i].identity;
            assert(entries[j] == t[j]);
        }
        if has_session(p@, false) {
            assert forall|a: int, b: int| 0 <= a < b < after.len() implies (
            #[trigger] after[a]).identity != (#[trigger] after[b]).identity by {
                assert(after[a] == before[a]);
                if b == before.len() {
                    let j = choose|j: int|
                        0 <= j < entries.len() - 1 && (#[trigger] entries[j]).0
                            == before[a].identity;
                    assert(entries[j].0 != entries[entries.len() - 1].0);
                }
            }
            assert forall|i: int| 0 <= i < after.len() implies exists|j: int|
                0 <= j < entries.len() && (#[trigger] entries[j]).0 == (
                #[trigger] after[i]).identity by {
                if i == before.len() {
                    assert(entries[entries.len() - 1].0 == after[i].identity);
                } else {
                    assert(after[i] == before[i]);
                }
            }
        }
    }
}

// ---------------------------------------------------------------------------
// Laws
// ---------------------------------------------------------------------------
/// The table of connected sockets lists exactly the sessions of the peers.
pub open spec fn sockets_agree(r: RegistryView) -> bool {
    &&& forall|id: PeerId|
        #[trigger] r.peers.contains_key(id) && r.peers[id].session is Some
            ==> r.connected.contains_key(r.peers[id].session->0.socket_addr)
            && r.connected[r.peers[id].session->0.socket_addr] == id
    &&& forall|a: SocketAddr| #[trigger]
        r.connected.contains_key(a) ==> r.peers.contains_key(r.connected[a])
            && r.peers[r.connected[a]].session is Some
            && r.peers[r.connected[a]].session->0.socket_addr == a
}

/// A new session over a socket that no session uses keeps the table of
/// connected sockets in step with the sessions.
pub proof fn law_attach_keeps_sockets_in_step(r: RegistryView, req: AttachRequest)
    requires
        sockets_agree(r),
        !r.connected.contains_key(req.session.socket_addr),
    ensures
        sockets_agree(after_attach(r, req)),
{
    let t = after_attach(r, req);
    assert forall|id: PeerId| #[trigger]
        t.peers.contains_key(id) && t.peers[id].session is Some implies t.connected.contains_key(
        t.peers[id].session->0.socket_addr,
    ) && t.connected[t.peers[id].session->0.socket_addr] == id by {
        if id != req.identity {
            assert(r.peers.contains_key(id) && t.peers[id] == r.peers[id]);
        } else if r.peers.contains_key(id) {
            assert(r.peers.contains_key(req.identity));
        }
    }
    assert forall|a: SocketAddr| #[trigger] t.connected.contains_key(a) implies t.peers.contains_key(
        t.connected[a],
    ) && t.peers[t.connected[a]].session is Some && t.peers[t.connected[a]].session->0.socket_addr
        == a by {
        if a != req.session.socket_addr {
            assert(r.connected.contains_key(a) && t.connected[a] == r.connected[a]);
        }
    }
}

/// The end of a session keeps the table of connected sockets in step.
pub proof fn law_detach_keeps_sockets_in_step(r: RegistryView, identity: PeerId, session_id: u64)
    requires
        sockets_agree(r),
    ensures
        sockets_agree(after_detach(r, identity, session_id)),
{
    let t = after_detach(r, identity, session_id);
    if is_current(r, identity, session_id) {
        assert(r.peers.contains_key(identity));
        assert forall|id: PeerId| #[trigger]
            t.peers.contains_key(id) && t.peers[id].session is Some implies t.connected.contains_key(
            t.peers[id].session->0.socket_addr,
        ) && t.connected[t.peers[id].session->0.socket_addr] == id by {
            assert(id != identity);
            assert(r.peers.contains_key(id) && t.peers[id] == r.peers[id]);
        }
        assert forall|a: SocketAddr| #[trigger]
            t.connected.contains_key(a) implies t.peers.contains_key(t.connected[a])
            && t.peers[t.connected[a]].session is Some
            && t.peers[t.connected[a]].session->0.socket_addr == a by {
            assert(r.connected.contains_key(a) && t.connected[a] == r.connected[a]);
        }
    }
}

/// A session starts without credit: whichever way it came to be attached, the
/// peer has no useful message on record, and its tip is unconfirmed.
pub proof fn law_new_session_has_no_credit(r: RegistryView, req: AttachRequest)
    ensures
        ({
            let existing = if r.peers.contains_key(req.identity) {
                r.peers[req.identity].session
            } else {
                None
            };
            let p = after_attach(r, req).peers[req.identity];
            &&& !(attach_verdict(existing, req) is RejectedDuplicate) ==> p.session == Some(
                req.session,
            ) && p.last_useful_message_at is None
            &&& p.tip matches Some(t) && !t.confirmed
        }),
{
}

/// A session that was confirmed good for the initial download stays so across
/// reconnects, and a rejected newcomer leaves the present session and its
/// credit alone.
pub proof fn law_reconnect_keeps_standing(r: RegistryView, req: AttachRequest)
    requires
        r.peers.contains_key(req.identity),
    ensures
        ({
            let (p, q) = (r.peers[req.identity], after_attach(r, req).peers[req.identity]);
            &&& q.ever_confirmed_for_ibd == p.ever_confirmed_for_ibd
            &&& q.ibd_cooldown_until == p.ibd_cooldown_until
            &&& q.retry == p.retry
            &&& attach_verdict(p.session, req) is RejectedDuplicate ==> q.session == p.session
                && q.last_useful_message_at == p.last_useful_message_at
        }),
{
}

/// What is attached can be detached: the new session is then current, ending it
/// leaves the peer without a session, and ending it again changes nothing.
pub proof fn law_detach_undoes_attach(r: RegistryView, req: AttachRequest)
    requires
        attach_verdict(
            if r.peers.contains_key(req.identity) {
                r.peers[req.identity].session
            } else {
                None
            },
            req,
        ) !is RejectedDuplicate,
    ensures
        ({
            let t = after_attach(r, req);
            let u = after_detach(t, req.identity, req.session.session_id);
            &&& is_current(t, req.identity, req.session.session_id)
            &&& u.peers[req.identity].session is None
            &&& !u.connected.contains_key(req.session.socket_addr)
            &&& after_detach(u, req.identity, req.session.session_id) == u
        }),
{
}

} // verus!
