//! Whom to dial, and what to make of the result.
use crate::assoc::AssocMap;
use crate::clock::SECOND;
use crate::hash::PeerId;
use crate::net::SocketAddr;
use crate::registry::{
    address_taken, fresh_peer, session_count, LogicalPeer, OutboundBootstrap, PeerRegistry,
    PeerView, RegistryView, RetryState,
};
use crate::assoc::KeySet;
use vstd::prelude::*;

verus! {

/// Whether a known peer is to be dialled: it is wanted, has no session, its
/// address is known, its wait is over, and it is not being dialled already.
pub open spec fn dialable(p: PeerView, pending: Set<SocketAddr>, now: u64) -> bool {
    &&& p.desired_outbound
    &&& p.session is None
    &&& p.preferred_dial_addr matches Some(a) && !pending.contains(a)
    &&& now >= p.retry.next_attempt_at
}

/// The first peer of a list that is to be dialled.
pub open spec fn first_dialable(
    s: Seq<(PeerId, LogicalPeer)>,
    pending: Set<SocketAddr>,
    now: u64,
) -> Option<(PeerId, SocketAddr)>
    decreases s.len(),
{
    if s.len() == 0 {
        None
    } else if dialable(s[0].1@, pending, now) {
        Some((s[0].0, s[0].1.preferred_dial_addr->0))
    } else {
        first_dialable(s.drop_first(), pending, now)
    }
}

/// Whether an address without a known peer is to be dialled.
pub open spec fn bootstrap_dialable(
    addr: SocketAddr,
    b: OutboundBootstrap,
    r: RegistryView,
    now: u64,
) -> bool {
    now >= b.retry.next_attempt_at && !r.pending_outbound.contains(addr)
        && !r.connected.contains_key(addr)
}

/// The first address of a list that is to be dialled.
pub open spec fn first_bootstrap(
    s: Seq<(SocketAddr, OutboundBootstrap)>,
    r: RegistryView,
    now: u64,
) -> Option<SocketAddr>
    decreases s.len(),
{
    if s.len() == 0 {
        None
    } else if bootstrap_dialable(s[0].0, s[0].1, r, now) {
        Some(s[0].0)
    } else {
        first_bootstrap(s.drop_first(), r, now)
    }
}

/// An address that is to be dialled.
#[derive(Clone, Copy, Debug)]
pub struct Dial {
    pub addr: SocketAddr,
    /// Whether a known peer is expected there.
    pub known: bool,
}

/// Whether there is room for another outbound session.
pub open spec fn has_room(r: RegistryView, max_outbound: usize) -> bool {
    session_count(r, true) + r.pending_outbound.len() < max_outbound
}

/// The address that is to be dialled next. Known peers come first; an address
/// that is taken is passed over.
pub open spec fn dial_plan(
    peers: Seq<(PeerId, LogicalPeer)>,
    bootstraps: Seq<(SocketAddr, OutboundBootstrap)>,
    r: RegistryView,
    max_outbound: usize,
    now: u64,
) -> Option<Dial> {
    let by_identity = first_dialable(peers, r.pending_outbound, now);
    let by_addr = first_bootstrap(bootstraps, r, now);
    if !has_room(r, max_outbound) {
        None
    } else if by_identity is Some && !address_taken(r, (by_identity->0).1) {
        Some(Dial { addr: (by_identity->0).1, known: true })
    } else if by_addr is Some && !address_taken(r, by_addr->0) {
        Some(Dial { addr: by_addr->0, known: false })
    } else {
        None
    }
}

proof fn lemma_first_dialable(
    s: Seq<(PeerId, LogicalPeer)>,
    pending: Set<SocketAddr>,
    now: u64,
    k: int,
)
    requires
        0 <= k <= s.len(),
        forall|j: int| 0 <= j < k ==> !dialable((#[trigger] s[j]).1@, pending, now),
    ensures
        first_dialable(s, pending, now) == first_dialable(s.skip(k), pending, now),
    decreases k,
{
    if k > 0 {
        let t = s.drop_first();
        assert(!dialable(s[0].1@, pending, now));
        assert forall|j: int| 0 <= j < k - 1 implies !dialable((#[trigger] t[j]).1@, pending, now) by {
            assert(t[j] == s[j + 1]);
        }
        lemma_first_dialable(t, pending, now, k - 1);
        assert(t.skip(k - 1) =~= s.skip(k));
    } else {
        assert(s.skip(0) =~= s);
    }
}

proof fn lemma_first_bootstrap(
    s: Seq<(SocketAddr, OutboundBootstrap)>,
    r: RegistryView,
    now: u64,
    k: int,
)
    requires
        0 <= k <= s.len(),
        forall|j: int|
            0 <= j < k ==> !bootstrap_dialable((#[trigger] s[j]).0, s[j].1, r, now),
    ensures
        first_bootstrap(s, r, now) == first_bootstrap(s.skip(k), r, now),
    decreases k,
{
    if k > 0 {
        let t = s.drop_first();
        assert(!bootstrap_dialable(s[0].0, s[0].1, r, now));
        assert forall|j: int| 0 <= j < k - 1 implies !bootstrap_dialable(
            (#[trigger] t[j]).0,
            t[j].1,
            r,
            now,
        ) by {
            assert(t[j] == s[j + 1]);
        }
        lemma_first_bootstrap(t, r, now, k - 1);
        assert(t.skip(k - 1) =~= s.skip(k));
    } else {
        assert(s.skip(0) =~= s);
    }
}

fn pick_identity(registry: &PeerRegistry, now: u64) -> (r: Option<(PeerId, SocketAddr)>)
    requires
        registry.wf(),
    ensures
        r == first_dialable(registry.by_identity.seq(), registry@.pending_outbound, now),
{
    let n: usize = registry.by_identity.len();
    let ghost s = registry.by_identity.seq();
    let ghost pending = registry@.pending_outbound;
    let mut i: usize = 0;
    while i < n
        invariant
            registry.wf(),
            s == registry.by_identity.seq(),
            pending == registry@.pending_outbound,
            n == s.len(),
            i <= n,
            forall|j: int| 0 <= j < i ==> !dialable((#[trigger] s[j]).1@, pending, now),
        decreases n - i,
    {
        let e = registry.by_identity.at(i);
        if e.1.desired_outbound && e.1.session.is_none() && now >= e.1.retry.next_attempt_at {
            if let Some(addr) = e.1.preferred_dial_addr {
                if !registry.pending_outbound_addrs.contains(&addr) {
                    proof {
                        lemma_first_dialable(s, pending, now, i as int);
                        assert(s.skip(i as int)[0] == s[i as int]);
                    }
                    return Some((e.0, addr));
                }
            }
        }
        i = i + 1;
    }
    proof {
        lemma_first_dialable(s, pending, now, n as int);
        assert(s.skip(n as int).len() == 0);
    }
    None
}

fn pick_bootstrap(
    bootstraps: &AssocMap<SocketAddr, OutboundBootstrap>,
    registry: &PeerRegistry,
    now: u64,
) -> (r: Option<SocketAddr>)
    requires
        bootstraps.wf(),
        registry.wf(),
    ensures
        r == first_bootstrap(bootstraps.seq(), registry@, now),
{
    let n: usize = bootstraps.len();
    let ghost s = bootstraps.seq();
    let mut i: usize = 0;
    while i < n
        invariant
            registry.wf(),
            s == bootstraps.seq(),
            n == s.len(),
            i <= n,
            forall|j: int|
                0 <= j < i ==> !bootstrap_dialable((#[trigger] s[j]).0, s[j].1, registry@, now),
        decreases n - i,
    {
        let e = bootstraps.at(i);
        if now >= e.1.retry.next_attempt_at && !registry.pending_outbound_addrs.contains(&e.0)
            && !registry.is_connected_socket(&e.0) {
            proof {
                lemma_first_bootstrap(s, registry@, now, i as int);
                assert(s.skip(i as int)[0] == s[i as int]);
            }
            return Some(e.0);
        }
        i = i + 1;
    }
    proof {
        lemma_first_bootstrap(s, registry@, now, n as int);
        assert(s.skip(n as int).len() == 0);
    }
    None
}

/// Chooses the next address to dial and reserves it.
pub fn plan_dial(
    registry: &mut PeerRegistry,
    bootstraps: &AssocMap<SocketAddr, OutboundBootstrap>,
    max_outbound: usize,
    now: u64,
) -> (r: Option<Dial>)
    requires
        old(registry).wf(),
        bootstraps.wf(),
    ensures
        final(registry).wf(),
        r == dial_plan(
            old(registry).by_identity.seq(),
            bootstraps.seq(),
            old(registry)@,
            max_outbound,
            now,
        ),
        final(registry)@ == (match r {
            Some(d) => RegistryView {
                pending_outbound: old(registry)@.pending_outbound.insert(d.addr),
                ..old(registry)@
            },
            None => old(registry)@,
        }),
{
    let out: usize = registry.outbound_count();
    let pending: usize = registry.pending_outbound_addrs.len();
    if out >= max_outbound || pending >= max_outbound - out {
        return None;
    }
    if let Some((_, addr)) = pick_identity(registry, now) {
        if registry.reserve_outbound_addr(addr) {
            return Some(Dial { addr, known: true });
        }
    }
    if let Some(addr) = pick_bootstrap(bootstraps, registry, now) {
        if registry.reserve_outbound_addr(addr) {
            return Some(Dial { addr, known: false });
        }
    }
    None
}

/// A dial never goes to an address that is in use, and never takes the node
/// over its cap.
pub proof fn law_dials_respect_the_cap(
    peers: Seq<(PeerId, LogicalPeer)>,
    bootstraps: Seq<(SocketAddr, OutboundBootstrap)>,
    r: RegistryView,
    max_outbound: usize,
    now: u64,
    d: Dial,
)
    requires
        dial_plan(peers, bootstraps, r, max_outbound, now) == Some(d),
        r.pending_outbound.finite(),
    ensures
        !address_taken(r, d.addr),
        session_count(r, true) + r.pending_outbound.insert(d.addr).len() <= max_outbound,
{
}

// ---------------------------------------------------------------------------
// Results
// ---------------------------------------------------------------------------
/// How a dial ended.
#[derive(Clone, Copy, Debug)]
pub enum DialResult {
    /// The session with this peer has come to its regular end.
    Connected(PeerId),
    /// The peer turned out to be one that has a session already.
    Duplicate(PeerId),
    /// The dial or the session failed, after so many nanoseconds.
    Failed { lasted: u64 },
}

/// What the address book is to note.
#[derive(Clone, Copy, Debug, PartialEq, Eq, Structural)]
pub enum BookNote {
    Nothing,
    Success,
    Failure,
}

/// What the retry state becomes after a failure. A session that got past its
/// handshake has shown that the peer is there: it is dialled again at once.
pub open spec fn retry_after_failure(
    r: RetryState,
    lasted: u64,
    handshake_timeout_secs: u64,
    now: u64,
) -> RetryState {
    if lasted > (handshake_timeout_secs + 1) * SECOND {
        RetryState::initial(now)
    } else {
        r.bumped(now)
    }
}

fn settle_retry(retry: &mut RetryState, lasted: u64, handshake_timeout_secs: u64, now: u64)
    ensures
        *final(retry) == retry_after_failure(*old(retry), lasted, handshake_timeout_secs, now),
{
    let limit: u128 = (handshake_timeout_secs as u128 + 1u128) * 1_000_000_000u128;
    if lasted as u128 > limit {
        retry.reset(now);
    } else {
        retry.bump(now);
    }
}

/// Whether an address is dialled on request.
pub open spec fn wanted(bootstraps: Map<SocketAddr, OutboundBootstrap>, addr: SocketAddr) -> bool {
    bootstraps.contains_key(addr) && bootstraps[addr].desired_outbound
}

/// The peers after a dial found a peer that has a session already: it is bound
/// to the address, and it waits longer if it has no session after all.
pub open spec fn after_duplicate(
    r: RegistryView,
    id: PeerId,
    addr: SocketAddr,
    desired: bool,
    now: u64,
) -> RegistryView {
    let p = if r.peers.contains_key(id) {
        r.peers[id]
    } else {
        fresh_peer(id, now)
    };
    RegistryView {
        peers: r.peers.insert(
            id,
            PeerView {
                known_addrs: p.known_addrs.insert(addr),
                preferred_dial_addr: Some(addr),
                desired_outbound: p.desired_outbound || desired,
                retry: if p.session is None {
                    p.retry.bumped(now)
                } else {
                    p.retry
                },
                ..p
            },
        ),
        known_dial: r.known_dial.insert(addr, id),
        ..r
    }
}

/// The peers after a session with a peer that was dialled.
pub open spec fn after_connected(
    r: RegistryView,
    id: PeerId,
    desired: bool,
    now: u64,
) -> RegistryView {
    if r.peers.contains_key(id) {
        RegistryView {
            peers: r.peers.insert(
                id,
                PeerView {
                    retry: RetryState::initial(now),
                    desired_outbound: r.peers[id].desired_outbound || desired,
                    ..r.peers[id]
                },
            ),
            ..r
        }
    } else {
        r
    }
}

/// The peers after a dial to a known peer failed.
pub open spec fn after_known_failure(
    r: RegistryView,
    addr: SocketAddr,
    lasted: u64,
    handshake_timeout_secs: u64,
    now: u64,
) -> RegistryView {
    if r.known_dial.contains_key(addr) && r.peers.contains_key(r.known_dial[addr]) {
        let id = r.known_dial[addr];
        RegistryView {
            peers: r.peers.insert(
                id,
                PeerView {
                    retry: retry_after_failure(
                        r.peers[id].retry,
                        lasted,
                        handshake_timeout_secs,
                        now,
                    ),
                    ..r.peers[id]
                },
            ),
            ..r
        }
    } else {
        r
    }
}

/// The peers after a dial.
pub open spec fn peers_after_dial(
    r: RegistryView,
    bootstraps: Map<SocketAddr, OutboundBootstrap>,
    d: Dial,
    result: DialResult,
    handshake_timeout_secs: u64,
    now: u64,
) -> RegistryView {
    match result {
        DialResult::Connected(id) => after_connected(
            r,
            id,
            !d.known && wanted(bootstraps, d.addr),
            now,
        ),
        DialResult::Duplicate(id) => after_duplicate(r, id, d.addr, wanted(bootstraps, d.addr), now),
        DialResult::Failed { lasted } => if d.known {
            after_known_failure(r, d.addr, lasted, handshake_timeout_secs, now)
        } else {
            r
        },
    }
}

/// The addresses without a known peer after a dial.
pub open spec fn bootstraps_after_dial(
    b: Map<SocketAddr, OutboundBootstrap>,
    d: Dial,
    result: DialResult,
    handshake_timeout_secs: u64,
    now: u64,
) -> Map<SocketAddr, OutboundBootstrap> {
    match result {
        DialResult::Connected(_) => b.remove(d.addr),
        DialResult::Duplicate(_) => b.remove(d.addr),
        DialResult::Failed { lasted } => if !d.known && b.contains_key(d.addr) {
            b.insert(
                d.addr,
                OutboundBootstrap {
                    retry: retry_after_failure(
                        b[d.addr].retry,
                        lasted,
                        handshake_timeout_secs,
                        now,
                    ),
                    ..b[d.addr]
                },
            )
        } else {
            b
        },
    }
}

/// What the address book is to note after a dial: only addresses whose peer
/// was not known yet are news.
pub open spec fn note_after_dial(d: Dial, result: DialResult) -> BookNote {
    match result {
        DialResult::Connected(_) if !d.known => BookNote::Success,
        DialResult::Failed { .. } if !d.known => BookNote::Failure,
        _ => BookNote::Nothing,
    }
}

fn bind_duplicate(
    registry: &mut PeerRegistry,
    id: PeerId,
    addr: SocketAddr,
    desired: bool,
    now: u64,
)
    requires
        old(registry).wf(),
    ensures
        final(registry).wf(),
        final(registry)@ == after_duplicate(old(registry)@, id, addr, desired, now),
{
    let ghost before = registry@;
    if !registry.has_identity(&id) {
        let none = registry.by_identity.insert(
            id,
            LogicalPeer {
                identity: id,
                session: None,
                known_addrs: KeySet::new(),
                preferred_dial_addr: None,
                desired_outbound: false,
                retry: RetryState { backoff_secs: 5, next_attempt_at: now },
                tip: None,
                ibd_cooldown_until: None,
                last_useful_message_at: None,
                ever_confirmed_for_ibd: false,
            },
        );
        assert(registry@.peers =~= before.peers.insert(id, fresh_peer(id, now)));
    }
    registry.bind_dial_addr(id, addr);
    match registry.get_mut_by_identity(&id) {
        Some(p) => {
            if desired {
                p.desired_outbound = true;
            }
            if p.session.is_none() {
                p.retry.bump(now);
            }
        },
        None => {},
    }
    proof {
        let want = after_duplicate(before, id, addr, desired, now);
        assert(registry@.peers =~= want.peers);
        assert(registry@.known_dial =~= want.known_dial);
    }
}

/// Takes note of how a dial ended.
pub fn settle_dial(
    registry: &mut PeerRegistry,
    bootstraps: &mut AssocMap<SocketAddr, OutboundBootstrap>,
    d: &Dial,
    result: &DialResult,
    handshake_timeout_secs: u64,
    now: u64,
) -> (r: BookNote)
    requires
        old(registry).wf(),
        old(bootstraps).wf(),
    ensures
        final(registry).wf(),
        final(bootstraps).wf(),
        r == note_after_dial(*d, *result),
        final(registry)@ == peers_after_dial(
            old(registry)@,
            old(bootstraps)@,
            *d,
            *result,
            handshake_timeout_secs,
            now,
        ),
        final(bootstraps)@ == bootstraps_after_dial(
            old(bootstraps)@,
            *d,
            *result,
            handshake_timeout_secs,
            now,
        ),
{
    let desired = match bootstraps.get(&d.addr) {
        Some(b) => b.desired_outbound,
        None => false,
    };
    let ghost before = registry@;
    match result {
        DialResult::Connected(id) => {
            match registry.get_mut_by_identity(id) {
                Some(p) => {
                    p.retry.reset(now);
                    if !d.known && desired {
                        p.desired_outbound = true;
                    }
                },
                None => {},
            }
            let gone = bootstraps.remove(&d.addr);
            if d.known {
                BookNote::Nothing
            } else {
                BookNote::Success
            }
        },
        DialResult::Duplicate(id) => {
            bind_duplicate(registry, *id, d.addr, desired, now);
            let gone = bootstraps.remove(&d.addr);
            BookNote::Nothing
        },
        DialResult::Failed { lasted } => {
            if d.known {
                let id = match registry.known_dial_addr_to_identity.get(&d.addr) {
                    Some(id) => Some(*id),
                    None => None,
                };
                if let Some(id) = id {
                    match registry.get_mut_by_identity(&id) {
                        Some(p) => {
                            settle_retry(&mut p.retry, *lasted, handshake_timeout_secs, now);
                        },
                        None => {},
                    }
                }
                BookNote::Nothing
            } else {
                match bootstraps.get_mut(&d.addr) {
                    Some(b) => {
                        settle_retry(&mut b.retry, *lasted, handshake_timeout_secs, now);
                    },
                    None => {},
                }
                BookNote::Failure
            }
        },
    }
}

/// A wish to be dialled is never lost: what was wanted of an address is wanted
/// of the peer that was found there.
pub proof fn law_wish_is_kept(
    r: RegistryView,
    b: Map<SocketAddr, OutboundBootstrap>,
    addr: SocketAddr,
    id: PeerId,
    handshake_timeout_secs: u64,
    now: u64,
)
    requires
        wanted(b, addr),
        r.peers.contains_key(id),
    ensures
        ({
            let d = Dial { addr, known: false };
            &&& peers_after_dial(
                r,
                b,
                d,
                DialResult::Connected(id),
                handshake_timeout_secs,
                now,
            ).peers[id].desired_outbound
            &&& peers_after_dial(
                r,
                b,
                d,
                DialResult::Duplicate(id),
                handshake_timeout_secs,
                now,
            ).peers[id].desired_outbound
        }),
{
}

/// After a failed dial to a known peer the peer is not dialled again before
/// its wait is over, unless the session had got past its handshake.
pub proof fn law_failed_dial_waits(
    r: RegistryView,
    b: Map<SocketAddr, OutboundBootstrap>,
    addr: SocketAddr,
    lasted: u64,
    handshake_timeout_secs: u64,
    now: u64,
    pending: Set<SocketAddr>,
)
    requires
        r.known_dial.contains_key(addr),
        r.peers.contains_key(r.known_dial[addr]),
        lasted <= (handshake_timeout_secs + 1) * SECOND,
        r.peers[r.known_dial[addr]].retry.backoff_secs > 0,
        now < u64::MAX - 300 * SECOND,
    ensures
        !dialable(
            peers_after_dial(
                r,
                b,
                Dial { addr, known: true },
                DialResult::Failed { lasted },
                handshake_timeout_secs,
                now,
            ).peers[r.known_dial[addr]],
            pending,
            now,
        ),
{
}

} // verus!
