//! Letting peers in, and seeing them out.
use crate::clock::{after_secs, later};
use crate::eviction::{EvictionCandidate, EvictionConfig, EvictionDecision};
use crate::hash::{same_bytes, Hash256, PeerId};
use crate::identity::{ed25519_public_key, node_identity};
use crate::net::SocketAddr;
use crate::reader::{strikes, PeerFault};
use crate::registry::{
    address_taken, after_attach, after_detach, attach_verdict, inbound_from, is_current,
    session_count, AttachRequest, PeerRegistry, PeerSession, PeerTip, PeerView, RegistryView,
    RetryState, SessionAttachResult,
};
use vstd::prelude::*;

verus! {

/// How long a peer that the download was running from is passed over once its
/// session has ended, in seconds.
pub const IBD_COOLDOWN_SECS: u64 = 60;

/// How many inbound peers there may be.
#[derive(Clone, Copy, Debug)]
pub struct InboundLimits {
    pub max_inbound: usize,
    /// How many more connections are let through to the handshake, which may end
    /// in an eviction.
    pub pending_headroom: usize,
    pub max_inbound_per_ip: usize,
    pub eviction: EvictionConfig,
}

/// Why a connection was turned away.
#[derive(Clone, Copy, Debug, PartialEq, Eq, Structural)]
pub enum Rejection {
    IpBanned,
    InboundFull,
    IpCapReached,
    AddressTaken,
    IdentityBanned,
    NoEvictionCandidate,
    DuplicateIdentity,
}

/// Whether a new connection goes on to the handshake, and if not, why.
pub open spec fn screening(
    r: RegistryView,
    addr: SocketAddr,
    ip_banned: bool,
    l: InboundLimits,
) -> Result<(), Rejection> {
    if ip_banned {
        Err(Rejection::IpBanned)
    } else if session_count(r, false) + r.pending_inbound.len() >= l.max_inbound
        + l.pending_headroom {
        Err(Rejection::InboundFull)
    } else if inbound_from(r, addr.ip) >= l.max_inbound_per_ip {
        Err(Rejection::IpCapReached)
    } else if address_taken(r, addr) {
        Err(Rejection::AddressTaken)
    } else {
        Ok(())
    }
}

/// Screens a new connection. One that goes on to the handshake has its address
/// reserved.
pub fn screen_connection(
    peers: &mut PeerRegistry,
    addr: SocketAddr,
    ip_banned: bool,
    l: &InboundLimits,
) -> (r: Result<(), Rejection>)
    requires
        old(peers).wf(),
    ensures
        final(peers).wf(),
        r == screening(old(peers)@, addr, ip_banned, *l),
        final(peers)@ == (if r is Ok {
            RegistryView {
                pending_inbound: old(peers)@.pending_inbound.insert(addr),
                ..old(peers)@
            }
        } else {
            old(peers)@
        }),
{
    if ip_banned {
        return Err(Rejection::IpBanned);
    }
    let held: u128 = peers.inbound_count() as u128 + peers.pending_inbound_sockets.len() as u128;
    if held >= l.max_inbound as u128 + l.pending_headroom as u128 {
        return Err(Rejection::InboundFull);
    }
    if peers.inbound_count_for_ip(addr.ip) >= l.max_inbound_per_ip {
        return Err(Rejection::IpCapReached);
    }
    if !peers.reserve_inbound_socket(addr) {
        return Err(Rejection::AddressTaken);
    }
    Ok(())
}

/// A peer that has completed the handshake.
#[derive(Clone, Copy, Debug)]
pub struct Arrival {
    pub identity: PeerId,
    pub addr: SocketAddr,
    pub session_id: u64,
    pub best_height: u64,
    pub cumulative_work: [u8; 32],
    pub now: u64,
}

/// What the node is doing as a peer arrives.
#[derive(Clone, Copy, Debug)]
pub struct NodeMoment {
    pub our_pubkey: PeerId,
    pub active_ibd_peer: Option<(PeerId, u64)>,
    pub catching_up: bool,
}

/// What became of an arrival.
#[derive(Clone, Copy, Debug)]
pub enum Admission {
    /// Turned away.
    Rejected(Rejection),
    /// Let in.
    Attached {
        /// Whether the peer was without a session, which is to be announced.
        emit_connected: bool,
        /// The session that it replaces, which is to be shut down.
        replaced: Option<u64>,
        /// The session that had to make room, which is to be shut down.
        evicted: Option<EvictionCandidate>,
    },
}

/// Whether a session request is the one that an arrival makes. The tip comes from
/// the handshake, so its block is not known.
pub open spec fn makes_request(
    a: Arrival,
    m: NodeMoment,
    outbound: bool,
    req: AttachRequest,
) -> bool {
    &&& req.identity == a.identity
    &&& req.session == (PeerSession {
        session_id: a.session_id,
        socket_addr: a.addr,
        is_outbound: outbound,
        established_at: a.now,
    })
    &&& req.handshake_tip.height == a.best_height
    &&& req.handshake_tip.cumulative_work == a.cumulative_work
    &&& (forall|i: int| 0 <= i < 32 ==> req.handshake_tip.block_id.0@[i] == 0)
    &&& req.dial_addr_hint == (if outbound {
        Some(a.addr)
    } else {
        None
    })
    &&& !req.desired_outbound
    &&& req.our_pubkey == m.our_pubkey
    &&& req.active_ibd_peer == m.active_ibd_peer
    &&& req.catching_up == m.catching_up
    &&& req.now == a.now
}

/// The registry with a peer's dial state reset.
pub open spec fn with_retry_reset(r: RegistryView, id: PeerId, now: u64) -> RegistryView {
    RegistryView {
        peers: r.peers.insert(id, PeerView { retry: RetryState::initial(now), ..r.peers[id] }),
        ..r
    }
}

/// The present session of a peer.
pub open spec fn session_of(r: RegistryView, id: PeerId) -> Option<PeerSession> {
    if r.peers.contains_key(id) {
        r.peers[id].session
    } else {
        None
    }
}

/// The registry after a session request: attached, with the dial state reset, or
/// turned away, with the address given up.
pub open spec fn after_request(r: RegistryView, req: AttachRequest, outbound: bool) -> RegistryView {
    let t = after_attach(r, req);
    if attach_verdict(session_of(r, req.identity), req) is RejectedDuplicate {
        if outbound {
            RegistryView {
                pending_outbound: t.pending_outbound.remove(req.session.socket_addr),
                ..t
            }
        } else {
            RegistryView {
                pending_inbound: t.pending_inbound.remove(req.session.socket_addr),
                ..t
            }
        }
    } else {
        with_retry_reset(t, req.identity, req.now)
    }
}

/// What a session request comes to.
pub open spec fn request_result(
    v: SessionAttachResult,
    evicted: Option<EvictionCandidate>,
) -> Admission {
    match v {
        SessionAttachResult::NewLogicalConnect => Admission::Attached {
            emit_connected: true,
            replaced: None,
            evicted,
        },
        SessionAttachResult::ReplacedExistingSession { old_session_id } => Admission::Attached {
            emit_connected: false,
            replaced: Some(old_session_id),
            evicted,
        },
        SessionAttachResult::RejectedDuplicate => Admission::Rejected(Rejection::DuplicateIdentity),
    }
}

fn submit(
    peers: &mut PeerRegistry,
    a: &Arrival,
    m: &NodeMoment,
    outbound: bool,
    evicted: Option<EvictionCandidate>,
) -> (r: Admission)
    requires
        old(peers).wf(),
    ensures
        final(peers).wf(),
        exists|req: AttachRequest| #[trigger]
            makes_request(*a, *m, outbound, req) && final(peers)@ == after_request(
                old(peers)@,
                req,
                outbound,
            ) && r == request_result(
                attach_verdict(session_of(old(peers)@, a.identity), req),
                evicted,
            ),
{
    let ghost before = peers@;
    let req = AttachRequest {
        identity: a.identity,
        session: PeerSession {
            session_id: a.session_id,
            socket_addr: a.addr,
            is_outbound: outbound,
            established_at: a.now,
        },
        handshake_tip: PeerTip {
            height: a.best_height,
            cumulative_work: a.cumulative_work,
            block_id: Hash256::zero(),
            confirmed: false,
        },
        dial_addr_hint: if outbound {
            Some(a.addr)
        } else {
            None
        },
        desired_outbound: false,
        our_pubkey: m.our_pubkey,
        active_ibd_peer: m.active_ibd_peer,
        catching_up: m.catching_up,
        now: a.now,
    };
    assert(makes_request(*a, *m, outbound, req));
    let ghost request = req;
    let verdict = peers.attach_session(
        req.identity,
        req.session,
        req.handshake_tip,
        req.dial_addr_hint,
        req.desired_outbound,
        req.our_pubkey,
        req.active_ibd_peer,
        req.catching_up,
        req.now,
    );
    let ghost attached = peers@;
    assert(attached == after_attach(before, request));
    match verdict {
        SessionAttachResult::RejectedDuplicate => {
            if outbound {
                peers.release_outbound_addr(&a.addr);
            } else {
                peers.release_inbound_socket(&a.addr);
            }
            assert(peers@ == after_request(before, request, outbound));
            Admission::Rejected(Rejection::DuplicateIdentity)
        },
        _ => {
            if let Some(p) = peers.get_mut_by_identity(&a.identity) {
                p.retry.reset(a.now);
            }
            assert(peers@ == with_retry_reset(attached, a.identity, a.now));
            match verdict {
                SessionAttachResult::ReplacedExistingSession { old_session_id } => {
                    Admission::Attached {
                        emit_connected: false,
                        replaced: Some(old_session_id),
                        evicted,
                    }
                },
                _ => Admission::Attached { emit_connected: true, replaced: None, evicted },
            }
        },
    }
}

/// Whether `r` and `t` are what becomes of an inbound arrival and of the registry,
/// once the eviction question is decided as `d`.
pub open spec fn seated(
    v: RegistryView,
    a: Arrival,
    m: NodeMoment,
    d: EvictionDecision,
    t: RegistryView,
    r: Admission,
) -> bool {
    let released = RegistryView { pending_inbound: v.pending_inbound.remove(a.addr), ..v };
    match d {
        EvictionDecision::IpCapReached => t == released && r == Admission::Rejected(
            Rejection::IpCapReached,
        ),
        EvictionDecision::NoEligibleCandidates => t == released && r == Admission::Rejected(
            Rejection::NoEvictionCandidate,
        ),
        _ => {
            let (room, evicted) = match d {
                EvictionDecision::Evict(c) => (
                    after_detach(v, c.identity, c.session_id),
                    Some(c),
                ),
                _ => (v, None),
            };
            exists|req: AttachRequest| #[trigger]
                makes_request(a, m, false, req) && t == after_request(room, req, false) && r
                    == request_result(
                    attach_verdict(session_of(room, a.identity), req),
                    evicted,
                )
        },
    }
}

/// Seats an inbound peer that has completed the handshake. A banned identity is
/// turned away; when the node is full, another session may have to go.
pub fn seat_inbound(
    peers: &mut PeerRegistry,
    a: &Arrival,
    identity_banned: bool,
    m: &NodeMoment,
    l: &InboundLimits,
) -> (r: Admission)
    requires
        old(peers).wf(),
    ensures
        final(peers).wf(),
        identity_banned ==> r == Admission::Rejected(Rejection::IdentityBanned) && final(peers)@
            == (RegistryView {
            pending_inbound: old(peers)@.pending_inbound.remove(a.addr),
            ..old(peers)@
        }),
        !identity_banned ==> exists|d: EvictionDecision| #[trigger]
            old(peers).decides(
                a.identity,
                a.addr.ip,
                m.active_ibd_peer,
                l.max_inbound,
                l.max_inbound_per_ip,
                l.eviction,
                a.now,
                d,
            ) && seated(old(peers)@, *a, *m, d, final(peers)@, r),
{
    if identity_banned {
        peers.release_inbound_socket(&a.addr);
        return Admission::Rejected(Rejection::IdentityBanned);
    }
    let d = peers.decide_inbound_eviction_utility(
        &a.identity,
        a.addr.ip,
        m.active_ibd_peer,
        l.max_inbound,
        l.max_inbound_per_ip,
        &l.eviction,
        a.now,
    );
    match d {
        EvictionDecision::IpCapReached => {
            peers.release_inbound_socket(&a.addr);
            Admission::Rejected(Rejection::IpCapReached)
        },
        EvictionDecision::NoEligibleCandidates => {
            peers.release_inbound_socket(&a.addr);
            Admission::Rejected(Rejection::NoEvictionCandidate)
        },
        EvictionDecision::Evict(c) => {
            peers.detach_session_if_current(c.identity, c.session_id);
            submit(peers, a, m, false, Some(c))
        },
        _ => submit(peers, a, m, false, None),
    }
}

/// Seats an outbound peer that has completed the handshake.
pub fn seat_outbound(
    peers: &mut PeerRegistry,
    a: &Arrival,
    identity_banned: bool,
    m: &NodeMoment,
) -> (r: Admission)
    requires
        old(peers).wf(),
    ensures
        final(peers).wf(),
        identity_banned ==> r == Admission::Rejected(Rejection::IdentityBanned) && final(peers)@
            == (RegistryView {
            pending_outbound: old(peers)@.pending_outbound.remove(a.addr),
            ..old(peers)@
        }),
        !identity_banned ==> exists|req: AttachRequest| #[trigger]
            makes_request(*a, *m, true, req) && final(peers)@ == after_request(
                old(peers)@,
                req,
                true,
            ) && r == request_result(
                attach_verdict(session_of(old(peers)@, a.identity), req),
                None,
            ),
{
    if identity_banned {
        peers.release_outbound_addr(&a.addr);
        return Admission::Rejected(Rejection::IdentityBanned);
    }
    submit(peers, a, m, true, None)
}

/// The moment of a node with the given secret key.
pub fn moment_of(
    secret: &[u8; 32],
    active_ibd_peer: Option<(PeerId, u64)>,
    catching_up: bool,
) -> (r: NodeMoment)
    ensures
        r.our_pubkey@ == ed25519_public_key(secret@),
        r.active_ibd_peer == active_ibd_peer,
        r.catching_up == catching_up,
{
    NodeMoment { our_pubkey: node_identity(secret), active_ibd_peer, catching_up }
}

/// What the end of a session calls for.
#[derive(Clone, Copy, Debug, PartialEq, Eq, Structural)]
pub struct SessionEnd {
    /// Record a strike against the peer's address and identity.
    pub strike: bool,
    /// Tell the sync manager that the peer is gone.
    pub announce: bool,
}

/// The registry after the end of a session, and whether the download was running
/// over it.
pub open spec fn after_end(
    r: RegistryView,
    downloading: bool,
    id: PeerId,
    session_id: u64,
    now: u64,
) -> RegistryView {
    let cooled = if downloading && r.peers.contains_key(id) {
        RegistryView {
            peers: r.peers.insert(
                id,
                PeerView {
                    ibd_cooldown_until: Some(later(now, IBD_COOLDOWN_SECS) as u64),
                    ..r.peers[id]
                },
            ),
            ..r
        }
    } else {
        r
    };
    after_detach(cooled, id, session_id)
}

/// Sees a peer out. If the download was running over the session, it is over, and
/// the peer is passed over for a while. A session that was replaced meanwhile is
/// not announced as gone.
pub fn end_session(
    peers: &mut PeerRegistry,
    active_ibd_peer: &mut Option<(PeerId, u64)>,
    id: PeerId,
    session_id: u64,
    fault: Option<PeerFault>,
    now: u64,
) -> (r: SessionEnd)
    requires
        old(peers).wf(),
    ensures
        final(peers).wf(),
        ({
            let downloading = *old(active_ibd_peer) == Some((id, session_id));
            &&& final(peers)@ == after_end(old(peers)@, downloading, id, session_id, now)
            &&& *final(active_ibd_peer) == (if downloading {
                None
            } else {
                *old(active_ibd_peer)
            })
            &&& r.strike == (fault matches Some(f) && strikes(f))
            &&& r.announce == is_current(old(peers)@, id, session_id)
        }),
{
    let ghost before = peers@;
    let strike: bool = match fault {
        Some(f) => f.earns_strike(),
        None => false,
    };
    let downloading: bool = match active_ibd_peer {
        Some((i, s)) => same_bytes(i, &id) && *s == session_id,
        None => false,
    };
    if downloading {
        *active_ibd_peer = None;
        if let Some(p) = peers.get_mut_by_identity(&id) {
            p.ibd_cooldown_until = Some(after_secs(now, IBD_COOLDOWN_SECS));
        }
    }
    let announce: bool = peers.detach_session_if_current(id, session_id);
    SessionEnd { strike, announce }
}

// ---------------------------------------------------------------------------
// Laws
// ---------------------------------------------------------------------------
/// A peer that is turned away has no claim on its address any more.
pub proof fn law_rejected_peer_frees_address(
    v: RegistryView,
    a: Arrival,
    m: NodeMoment,
    d: EvictionDecision,
    t: RegistryView,
    r: Admission,
)
    requires
        seated(v, a, m, d, t, r),
        r is Rejected,
    ensures
        !t.pending_inbound.contains(a.addr),
{
}

/// A peer that is let in holds its session, and its address is no longer pending.
pub proof fn law_seated_peer_is_current(
    v: RegistryView,
    a: Arrival,
    m: NodeMoment,
    d: EvictionDecision,
    t: RegistryView,
    r: Admission,
)
    requires
        seated(v, a, m, d, t, r),
        r is Attached,
    ensures
        is_current(t, a.identity, a.session_id),
        !t.pending_inbound.contains(a.addr),
        t.connected.contains_key(a.addr) && t.connected[a.addr] == a.identity,
{
}

/// Once a session has been seen out, it is not current, and seeing it out again
/// is not announced.
pub proof fn law_session_ends_once(
    r: RegistryView,
    downloading: bool,
    id: PeerId,
    session_id: u64,
    now: u64,
)
    ensures
        !is_current(after_end(r, downloading, id, session_id, now), id, session_id),
{
}

} // verus!
