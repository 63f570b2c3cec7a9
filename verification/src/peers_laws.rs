//! Whom a node keeps, seats, dials and bans.
use crate::admission::{
    after_end, after_request, makes_request, request_result, screening, session_of, Admission,
    Arrival, InboundLimits, NodeMoment, Rejection,
};
use crate::assoc::{distinct_keys, has_key, key_pos, lemma_entry, lemma_insert};
use crate::bans::{
    after_ban, after_look, ban_room, ip_banned, make_room, struck, struck_out, AbuseList,
    BanList, IpAbuseEntry,
};
use crate::clock::{age, later};
use crate::dialer::{
    bootstraps_after_dial, dial_plan, first_bootstrap, first_dialable, note_after_dial,
    peers_after_dial, BookNote, Dial, DialResult,
};
use crate::eviction::{
    count_where, is_protected, is_target, is_victim, more_useful, older, recently_useful,
    EvictionCandidate, EvictionConfig,
};
use crate::hash::PeerId;
use crate::net::{IpAddr, NetworkGroup, SocketAddr};
use crate::registry::{
    address_taken, after_attach, after_detach, attach_verdict, claims_more_work, has_inbound_from,
    has_session, inbound_candidates, inbound_from, is_current,
    session_count, AttachRequest, LogicalPeer, OutboundBootstrap, PeerSession, RegistryView,
    RetryState, SessionAttachResult,
};
use crate::work::be_nat;
use vstd::prelude::*;

verus! {

// ---------------------------------------------------------------------------
// Sessions
// ---------------------------------------------------------------------------
/// A peer without a session gets the one that it asks for. One that has a session
/// keeps it while the chain is fetched over it, while the node catches up, and
/// for its first two minutes.
pub proof fn law_session_is_replaced_only_when_it_may_be(
    existing: Option<PeerSession>,
    req: AttachRequest,
)
    ensures
        ({
            let v = attach_verdict(existing, req);
            &&& existing is None <==> v is NewLogicalConnect
            &&& existing matches Some(cur) ==> {
                &&& req.active_ibd_peer == Some((req.identity, cur.session_id))
                    ==> v is RejectedDuplicate
                &&& req.catching_up ==> v is RejectedDuplicate
                &&& req.now < cur.established_at + 120_000_000_000 ==> v is RejectedDuplicate
                &&& v matches SessionAttachResult::ReplacedExistingSession { old_session_id }
                    ==> old_session_id == cur.session_id
            }
        }),
{
}

/// Of two sessions between two nodes, both ends keep the same one: whoever dialled
/// it, if it is to replace the other at one end, it is at the other end.
pub proof fn law_both_ends_keep_the_same_session(
    mine: PeerSession,
    theirs: PeerSession,
    here: AttachRequest,
    there: AttachRequest,
)
    requires
        here.our_pubkey == there.identity,
        there.our_pubkey == here.identity,
        be_nat(here.our_pubkey@) != be_nat(here.identity@),
        here.session.is_outbound != there.session.is_outbound,
        !here.catching_up && !there.catching_up,
        here.active_ibd_peer is None && there.active_ibd_peer is None,
        here.now >= mine.established_at + 120_000_000_000,
        there.now >= theirs.established_at + 120_000_000_000,
    ensures
        attach_verdict(Some(mine), here) is ReplacedExistingSession <==> attach_verdict(
            Some(theirs),
            there,
        ) is ReplacedExistingSession,
        attach_verdict(Some(mine), here) is ReplacedExistingSession <==> here.session.is_outbound
            == (be_nat(here.our_pubkey@) > be_nat(here.identity@)),
{
}

/// A session that is attached is the peer's, found under its address, without
/// credit and with a tip that nothing has confirmed; the one that it replaces is
/// gone from the addresses. One that is turned away changes no session. No other
/// peer is touched, and the address is no longer being tried.
pub proof fn law_attached_session_is_the_peers(r: RegistryView, req: AttachRequest, other: PeerId)
    requires
        other != req.identity,
    ensures
        ({
            let t = after_attach(r, req);
            let before = if r.peers.contains_key(req.identity) {
                r.peers[req.identity].session
            } else {
                None
            };
            let p = t.peers[req.identity];
            let addr = req.session.socket_addr;
            &&& t.peers.contains_key(req.identity)
            &&& t.peers.contains_key(other) == r.peers.contains_key(other)
            &&& r.peers.contains_key(other) ==> t.peers[other] == r.peers[other]
            &&& !t.pending_inbound.contains(addr) && !t.pending_outbound.contains(addr)
            &&& p.tip matches Some(x) && x.height == req.handshake_tip.height && x.cumulative_work
                == req.handshake_tip.cumulative_work && !x.confirmed
            &&& req.dial_addr_hint matches Some(a) ==> p.preferred_dial_addr == Some(a)
                && p.known_addrs.contains(a) && t.known_dial.contains_key(a) && t.known_dial[a]
                == req.identity
            &&& attach_verdict(before, req) is RejectedDuplicate ==> p.session == before
                && t.connected == r.connected
            &&& !(attach_verdict(before, req) is RejectedDuplicate) ==> {
                &&& p.session == Some(req.session)
                &&& t.connected.contains_key(addr) && t.connected[addr] == req.identity
                &&& p.last_useful_message_at is None
                &&& before matches Some(cur) ==> cur.socket_addr != addr
                    ==> !t.connected.contains_key(cur.socket_addr)
            }
            &&& r.peers.contains_key(req.identity) ==> {
                let q = r.peers[req.identity];
                &&& p.ever_confirmed_for_ibd == q.ever_confirmed_for_ibd
                &&& p.ibd_cooldown_until == q.ibd_cooldown_until
                &&& p.retry == q.retry
                &&& p.desired_outbound == (q.desired_outbound || req.desired_outbound)
            }
        }),
{
}

/// A session that ends leaves its peer without one and frees its address; what is
/// known of the peer stays. The end of another session than the peer's changes
/// nothing.
pub proof fn law_ended_session_is_gone(r: RegistryView, identity: PeerId, session_id: u64)
    ensures
        ({
            let t = after_detach(r, identity, session_id);
            let current = r.peers.contains_key(identity) && (r.peers[identity].session matches Some(s)
                && s.session_id == session_id);
            &&& !current ==> t == r
            &&& current ==> {
                let (p, q) = (r.peers[identity], t.peers[identity]);
                &&& q.session is None
                &&& !t.connected.contains_key(p.session->0.socket_addr)
                &&& t.peers.dom() == r.peers.dom()
                &&& forall|id: PeerId| #[trigger]
                    r.peers.contains_key(id) && id != identity ==> t.peers[id] == r.peers[id]
                &&& q.tip == p.tip && q.retry == p.retry && q.known_addrs == p.known_addrs
                    && q.preferred_dial_addr == p.preferred_dial_addr && q.desired_outbound
                    == p.desired_outbound && q.ever_confirmed_for_ibd == p.ever_confirmed_for_ibd
            }
        }),
{
    let t = after_detach(r, identity, session_id);
    if is_current(r, identity, session_id) {
        assert(t.peers.dom() =~= r.peers.dom());
    }
}

/// A connection goes on to the handshake exactly if its address is not banned,
/// there is room among the inbound sessions, its address has not used up its
/// share, and it is not taken.
pub proof fn law_connections_are_screened(
    r: RegistryView,
    addr: SocketAddr,
    banned: bool,
    l: InboundLimits,
)
    ensures
        screening(r, addr, banned, l) is Ok <==> {
            &&& !banned
            &&& session_count(r, false) + r.pending_inbound.len() < l.max_inbound
                + l.pending_headroom
            &&& inbound_from(r, addr.ip) < l.max_inbound_per_ip
            &&& !r.connected.contains_key(addr)
            &&& !r.pending_inbound.contains(addr)
            &&& !r.pending_outbound.contains(addr)
        },
        banned ==> screening(r, addr, banned, l) == Err::<(), _>(Rejection::IpBanned),
{
}

/// A peer whose session is attached is dialled anew at once should it leave, and
/// its arrival is announced if it had no session before; one that is turned away
/// is told so.
pub proof fn law_admission_follows_the_verdict(
    r: RegistryView,
    req: AttachRequest,
    outbound: bool,
    evicted: Option<EvictionCandidate>,
)
    ensures
        ({
            let before = session_of(r, req.identity);
            let v = attach_verdict(before, req);
            let t = after_request(r, req, outbound);
            let a = request_result(v, evicted);
            &&& v is RejectedDuplicate <==> a == Admission::Rejected(Rejection::DuplicateIdentity)
            &&& a matches Admission::Attached { emit_connected, replaced, evicted: e } ==> {
                &&& emit_connected == (before is None)
                &&& before is None ==> replaced is None
                &&& before matches Some(cur) ==> replaced == Some(cur.session_id)
                &&& e == evicted
                &&& t.peers[req.identity].session == Some(req.session)
                &&& t.peers[req.identity].retry.next_attempt_at == req.now
                &&& t.peers[req.identity].retry.backoff_secs == 5
            }
            &&& a is Rejected ==> session_of(t, req.identity) == before
            &&& !t.pending_inbound.contains(req.session.socket_addr)
            &&& !t.pending_outbound.contains(req.session.socket_addr)
        }),
{
}

/// When a session ends over which the chain was being fetched, its peer is passed
/// over for a minute; no other is.
pub proof fn law_failed_download_cools_down(
    r: RegistryView,
    downloading: bool,
    id: PeerId,
    session_id: u64,
    now: u64,
)
    requires
        r.peers.contains_key(id),
        now < u64::MAX - 60_000_000_000,
    ensures
        ({
            let t = after_end(r, downloading, id, session_id, now);
            &&& downloading ==> t.peers[id].ibd_cooldown_until == Some(
                (now + 60_000_000_000) as u64,
            )
            &&& !downloading ==> t.peers[id].ibd_cooldown_until == r.peers[id].ibd_cooldown_until
            &&& forall|o: PeerId| #[trigger]
                r.peers.contains_key(o) && o != id ==> t.peers[o] == r.peers[o]
            &&& !is_current(t, id, session_id)
        }),
{
}

// ---------------------------------------------------------------------------
// Dialling
// ---------------------------------------------------------------------------
proof fn lemma_first_dialable_is(s: Seq<(PeerId, LogicalPeer)>, pending: Set<SocketAddr>, now: u64)
    ensures
        first_dialable(s, pending, now) matches Some((id, a)) ==> exists|j: int|
            0 <= j < s.len() && (#[trigger] s[j]).0 == id && s[j].1@.desired_outbound && s[j].1@.session
                is None && s[j].1@.preferred_dial_addr == Some(a) && now
                >= s[j].1@.retry.next_attempt_at && !pending.contains(a),
        first_dialable(s, pending, now) is None ==> forall|j: int|
            0 <= j < s.len() && (#[trigger] s[j]).1@.desired_outbound && s[j].1@.session is None
                && s[j].1@.preferred_dial_addr is Some && now >= s[j].1@.retry.next_attempt_at
                ==> pending.contains(s[j].1@.preferred_dial_addr->0),
    decreases s.len(),
{
    if s.len() > 0 {
        let t = s.drop_first();
        lemma_first_dialable_is(t, pending, now);
        assert forall|j: int| 0 < j < s.len() implies #[trigger] s[j] == t[j - 1] by {}
        if first_dialable(s, pending, now) == first_dialable(t, pending, now) {
            if let Some((id, a)) = first_dialable(t, pending, now) {
                let j = choose|j: int|
                    0 <= j < t.len() && (#[trigger] t[j]).0 == id && t[j].1@.desired_outbound
                        && t[j].1@.session is None && t[j].1@.preferred_dial_addr == Some(a) && now
                        >= t[j].1@.retry.next_attempt_at && !pending.contains(a);
                assert(s[j + 1] == t[j]);
            }
        }
    }
}

proof fn lemma_first_bootstrap_is(
    s: Seq<(SocketAddr, OutboundBootstrap)>,
    r: RegistryView,
    now: u64,
)
    ensures
        first_bootstrap(s, r, now) matches Some(a) ==> exists|j: int|
            0 <= j < s.len() && (#[trigger] s[j]).0 == a && now >= s[j].1.retry.next_attempt_at,
    decreases s.len(),
{
    if s.len() > 0 {
        let t = s.drop_first();
        lemma_first_bootstrap_is(t, r, now);
        if let Some(a) = first_bootstrap(s, r, now) {
            if s[0].0 == a && now >= s[0].1.retry.next_attempt_at {
            } else {
                let j = choose|j: int|
                    0 <= j < t.len() && (#[trigger] t[j]).0 == a && now
                        >= t[j].1.retry.next_attempt_at;
                assert(s[j + 1] == t[j]);
            }
        }
    }
}

/// Only where an outbound session has room is anybody dialled: a known peer that
/// is wanted, has no session and has waited long enough, at its address; or else
/// an address without a known peer that has waited long enough. Nothing that is
/// connected, or being tried, is dialled.
pub proof fn law_dialled_peer_is_wanted(
    peers: Seq<(PeerId, LogicalPeer)>,
    bootstraps: Seq<(SocketAddr, OutboundBootstrap)>,
    r: RegistryView,
    max_outbound: usize,
    now: u64,
)
    ensures
        session_count(r, true) + r.pending_outbound.len() >= max_outbound ==> dial_plan(
            peers,
            bootstraps,
            r,
            max_outbound,
            now,
        ) is None,
        dial_plan(peers, bootstraps, r, max_outbound, now) matches Some(d) ==> {
            &&& !r.connected.contains_key(d.addr) && !r.pending_inbound.contains(d.addr)
                && !r.pending_outbound.contains(d.addr)
            &&& d.known ==> exists|j: int|
                0 <= j < peers.len() && (#[trigger] peers[j]).1@.preferred_dial_addr == Some(d.addr)
                    && peers[j].1@.desired_outbound && peers[j].1@.session is None && now
                    >= peers[j].1@.retry.next_attempt_at
            &&& !d.known ==> exists|j: int|
                0 <= j < bootstraps.len() && (#[trigger] bootstraps[j]).0 == d.addr && now
                    >= bootstraps[j].1.retry.next_attempt_at
        },
        session_count(r, true) + r.pending_outbound.len() < max_outbound && (first_dialable(
            peers,
            r.pending_outbound,
            now,
        ) matches Some((_, a)) && !address_taken(r, a)) ==> (dial_plan(
            peers,
            bootstraps,
            r,
            max_outbound,
            now,
        ) matches Some(d) && d.known),
{
    lemma_first_dialable_is(peers, r.pending_outbound, now);
    lemma_first_bootstrap_is(bootstraps, r, now);
}

/// A wait is twice as long as the one before, five minutes at most, and is over
/// when it says.
pub proof fn law_wait_doubles_up_to_five_minutes(r: RetryState, now: u64)
    requires
        now < u64::MAX - 300_000_000_000,
    ensures
        r.bumped(now).backoff_secs == (if 2 * r.backoff_secs <= 300 {
            2 * r.backoff_secs as int
        } else {
            300
        }),
        r.bumped(now).next_attempt_at == now + r.bumped(now).backoff_secs * 1_000_000_000,
        RetryState::initial(now).backoff_secs == 5,
        RetryState::initial(now).next_attempt_at == now,
{
}

/// After a session a dialled peer may be dialled again at once, and its address is
/// no longer one without a known peer. After a failure the wait doubles, unless
/// the peer had got past its handshake; the wish to keep a peer is never lost,
/// and nobody else is affected.
pub proof fn law_dial_is_settled(
    r: RegistryView,
    b: Map<SocketAddr, OutboundBootstrap>,
    d: Dial,
    result: DialResult,
    secs: u64,
    now: u64,
    other: SocketAddr,
)
    requires
        other != d.addr,
    ensures
        ({
            let t = peers_after_dial(r, b, d, result, secs, now);
            let c = bootstraps_after_dial(b, d, result, secs, now);
            &&& c.contains_key(other) == b.contains_key(other)
            &&& b.contains_key(other) ==> c[other] == b[other]
            &&& result is Connected || result is Duplicate ==> !c.contains_key(d.addr)
            &&& result matches DialResult::Connected(id) ==> r.peers.contains_key(id) ==> {
                &&& t.peers[id].retry == RetryState::initial(now)
                &&& r.peers[id].desired_outbound ==> t.peers[id].desired_outbound
                &&& !d.known && b.contains_key(d.addr) && b[d.addr].desired_outbound
                    ==> t.peers[id].desired_outbound
            }
            &&& result matches DialResult::Duplicate(id) ==> {
                &&& t.peers.contains_key(id)
                &&& t.peers[id].preferred_dial_addr == Some(d.addr)
                &&& t.known_dial.contains_key(d.addr) && t.known_dial[d.addr] == id
                &&& b.contains_key(d.addr) && b[d.addr].desired_outbound
                    ==> t.peers[id].desired_outbound
            }
            &&& result matches DialResult::Failed { lasted } ==> {
                let short = lasted <= (secs + 1) * 1_000_000_000;
                &&& !d.known ==> t == r
                &&& d.known ==> c == b
                &&& !d.known && b.contains_key(d.addr) ==> c.contains_key(d.addr)
                    && c[d.addr].desired_outbound == b[d.addr].desired_outbound && c[d.addr].retry
                    == (if short {
                    b[d.addr].retry.bumped(now)
                } else {
                    RetryState::initial(now)
                })
                &&& d.known && r.known_dial.contains_key(d.addr) && r.peers.contains_key(
                    r.known_dial[d.addr],
                ) ==> t.peers[r.known_dial[d.addr]].retry == (if short {
                    r.peers[r.known_dial[d.addr]].retry.bumped(now)
                } else {
                    RetryState::initial(now)
                })
            }
            &&& note_after_dial(d, result) == (if d.known || result is Duplicate {
                BookNote::Nothing
            } else if result is Connected {
                BookNote::Success
            } else {
                BookNote::Failure
            })
        }),
{
}

// ---------------------------------------------------------------------------
// Bans
// ---------------------------------------------------------------------------
/// The tenth strike bans an address for ten minutes, and an earlier one does not;
/// five minutes without a strike start the count anew.
pub proof fn law_tenth_strike_bans(e: IpAbuseEntry, now: u64)
    requires
        e.banned_until is None,
        e.last_strike <= now < u64::MAX - 600_000_000_000,
    ensures
        ({
            let counted = if now - e.last_strike < 300_000_000_000 {
                e.strikes as int
            } else {
                0
            };
            let n = struck(e, now);
            &&& n.last_strike == now
            &&& counted < u32::MAX ==> n.strikes == counted + 1
            &&& counted + 1 >= 10 ==> n.banned_until == Some((now + 600_000_000_000) as u64)
                && struck_out(n, now)
            &&& counted + 1 < 10 ==> n.banned_until is None && !struck_out(n, now)
        }),
{
}

/// A look finds an address banned exactly while its ban lasts, and forgets it once
/// the ban is over; nothing else is forgotten by it.
pub proof fn law_look_finds_the_ban(s: AbuseList, ip: IpAddr, now: u64, k: int)
    requires
        distinct_keys(s),
        0 <= k < s.len(),
        s[k].0 == ip,
    ensures
        ip_banned(s, ip, now) <==> (s[k].1.banned_until matches Some(until) && now < until),
        ip_banned(s, ip, now) ==> after_look(s, ip, now) == s,
        s[k].1.banned_until matches Some(until) ==> now >= until ==> after_look(s, ip, now)
            == s.remove(k),
        s[k].1.banned_until is None && age(now, s[k].1.last_strike) < 300_000_000_000
            ==> after_look(s, ip, now) == s,
        s[k].1.banned_until is None && age(now, s[k].1.last_strike) >= 300_000_000_000
            ==> after_look(s, ip, now) == s.remove(k),
{
    lemma_entry(s, k);
}

/// An identity is banned for ten minutes; with room in the table no other ban is
/// touched. One without an identity is never banned.
pub proof fn law_identity_is_banned(s: BanList, id: PeerId, now: u64, j: int)
    requires
        distinct_keys(s),
        s.len() < 4_096,
        now < u64::MAX - 600_000_000_000,
    ensures
        ({
            let t = after_ban(s, id, now);
            let nobody = forall|i: int| 0 <= i < 32 ==> id@[i] == 0;
            &&& nobody ==> t == s
            &&& !nobody ==> has_key(t, id) && t[key_pos(t, id)].1 == now + 600_000_000_000
            &&& 0 <= j < s.len() && s[j].0 != id ==> 0 <= j < t.len() && t[j] == s[j]
        }),
{
    let nobody = forall|i: int| 0 <= i < 32 ==> id@[i] == 0;
    if !nobody {
        let t = after_ban(s, id, now);
        lemma_insert(s, id, later(now, 600) as u64);
        if has_key(s, id) {
            let k = key_pos(s, id);
            lemma_entry(s, k);
            assert(t[k].0 == id);
            lemma_entry(t, k);
        } else {
            assert(t[s.len() as int].0 == id);
            lemma_entry(t, s.len() as int);
        }
    }
}

// ---------------------------------------------------------------------------
// Eviction
// ---------------------------------------------------------------------------
/// The session that the chain is fetched over, and one that is still within its
/// first moments, are never evicted.
pub proof fn law_busy_and_young_sessions_are_safe(
    s: Seq<EvictionCandidate>,
    i: int,
    active: Option<(PeerId, u64)>,
    now: u64,
    config: EvictionConfig,
)
    requires
        0 <= i < s.len(),
    ensures
        active == Some((s[i].identity, s[i].session_id)) ==> is_protected(
            s,
            i,
            active,
            now,
            config,
        ),
        s[i].established_at <= now && now - s[i].established_at < config.post_handshake_grace_secs
            * 1_000_000_000 ==> is_protected(s, i, active, now, config),
        config.protect_useful_n == 0 && config.protect_oldest_n == 0 && config.protect_groups_n == 0
            && active != Some((s[i].identity, s[i].session_id)) && s[i].established_at <= now && now
            - s[i].established_at >= config.post_handshake_grace_secs * 1_000_000_000
            ==> !is_protected(s, i, active, now, config),
{
}

/// The victim is the newest of the sessions that it is chosen among.
pub proof fn law_victim_is_the_newest(pool: Seq<EvictionCandidate>, now: u64, v: int, j: int)
    requires
        is_victim(pool, now, v),
        0 <= j < pool.len(),
        is_target(pool, now, j),
    ensures
        pool[v].established_at >= pool[j].established_at,
{
}

proof fn lemma_none_counted(s: Seq<EvictionCandidate>, p: spec_fn(EvictionCandidate) -> bool)
    requires
        forall|j: int| 0 <= j < s.len() ==> !p(#[trigger] s[j]),
    ensures
        count_where(s, p) == 0,
    decreases s.len(),
{
    if s.len() > 0 {
        assert(!p(s[s.len() - 1]));
        assert forall|j: int| 0 <= j < s.drop_last().len() implies !p(
            #[trigger] s.drop_last()[j],
        ) by {
            assert(s.drop_last()[j] == s[j]);
        }
        lemma_none_counted(s.drop_last(), p);
    }
}

/// Where any of the oldest sessions are protected, the oldest one is.
pub proof fn law_oldest_session_is_safe(
    s: Seq<EvictionCandidate>,
    i: int,
    active: Option<(PeerId, u64)>,
    now: u64,
    config: EvictionConfig,
)
    requires
        0 <= i < s.len(),
        config.protect_oldest_n > 0,
        forall|j: int|
            0 <= j < s.len() && j != i ==> s[i].established_at < (#[trigger] s[j]).established_at,
    ensures
        is_protected(s, i, active, now, config),
{
    let p = |d: EvictionCandidate| older(d, s[i]);
    assert forall|j: int| 0 <= j < s.len() implies !p(#[trigger] s[j]) by {}
    lemma_none_counted(s, p);
}

/// Where any of the useful sessions are protected, the one that was useful last
/// is, if that was within the time that counts.
pub proof fn law_most_useful_session_is_safe(
    s: Seq<EvictionCandidate>,
    i: int,
    active: Option<(PeerId, u64)>,
    now: u64,
    config: EvictionConfig,
    at: u64,
)
    requires
        0 <= i < s.len(),
        config.protect_useful_n > 0,
        s[i].last_useful_message_at == Some(at),
        at <= now,
        now - at < config.useful_protection_secs * 1_000_000_000,
        forall|j: int|
            0 <= j < s.len() && j != i && (#[trigger] s[j]).last_useful_message_at is Some
                ==> s[j].last_useful_message_at->0 < at,
    ensures
        is_protected(s, i, active, now, config),
{
    let p = |d: EvictionCandidate| recently_useful(d, now, config) && more_useful(d, s[i]);
    assert forall|j: int| 0 <= j < s.len() implies !p(#[trigger] s[j]) by {}
    lemma_none_counted(s, p);
}

proof fn lemma_candidates(entries: Seq<(PeerId, LogicalPeer)>, k: int)
    requires
        0 <= k < entries.len(),
    ensures
        (entries[k].1.session matches Some(x) && !x.is_outbound) ==> exists|i: int|
            0 <= i < inbound_candidates(entries).len() && (#[trigger] inbound_candidates(
                entries,
            )[i]).identity == entries[k].0 && inbound_candidates(entries)[i].session_id
                == entries[k].1.session->0.session_id && inbound_candidates(
                entries,
            )[i].established_at == entries[k].1.session->0.established_at,
    decreases entries.len(),
{
    let t = entries.drop_last();
    let (a, b) = (inbound_candidates(t), inbound_candidates(entries));
    if entries[k].1.session matches Some(x) && !x.is_outbound {
        if k < t.len() {
            lemma_candidates(t, k);
            assert(t[k] == entries[k]);
            let i = choose|i: int|
                0 <= i < a.len() && (#[trigger] a[i]).identity == t[k].0 && a[i].session_id
                    == t[k].1.session->0.session_id && a[i].established_at
                    == t[k].1.session->0.established_at;
            assert(b[i] == a[i]);
        } else {
            let i = b.len() - 1;
            assert(b[i].identity == entries[k].0);
        }
    }
}

/// Every inbound session is considered when one has to make way.
pub proof fn law_every_inbound_session_is_considered(
    entries: Seq<(PeerId, LogicalPeer)>,
    k: int,
)
    requires
        0 <= k < entries.len(),
        entries[k].1.session matches Some(x) && !x.is_outbound,
    ensures
        exists|i: int|
            0 <= i < inbound_candidates(entries).len() && (#[trigger] inbound_candidates(
                entries,
            )[i]).identity == entries[k].0 && inbound_candidates(entries)[i].session_id
                == entries[k].1.session->0.session_id,
{
    lemma_candidates(entries, k);
    let b = inbound_candidates(entries);
    let i = choose|i: int|
        0 <= i < b.len() && (#[trigger] b[i]).identity == entries[k].0 && b[i].session_id
            == entries[k].1.session->0.session_id && b[i].established_at
            == entries[k].1.session->0.established_at;
    assert(b[i].identity == entries[k].0);
}

/// IPv4 addresses are grouped by their first two bytes, IPv6 addresses by their
/// first four; addresses of the machine itself are a group of their own.
pub proof fn law_addresses_are_grouped(
    a: [u8; 4],
    b: [u8; 16],
    g: NetworkGroup,
)
    ensures
        NetworkGroup::spec_from_ip(IpAddr::V4(a), g) && a@[0] != 127 ==> (g matches
            NetworkGroup::Ipv4Slash16(p) && p@.len() == 2 && p@[0] == a@[0] && p@[1] == a@[1]),
        NetworkGroup::spec_from_ip(IpAddr::V4(a), g) && a@[0] == 127 ==> g == NetworkGroup::Loopback,
        NetworkGroup::spec_from_ip(IpAddr::V6(b), g) && b@[0] != 0 ==> (g matches
            NetworkGroup::Ipv6Slash32(p) && p@.len() == 4 && p@[0] == b@[0] && p@[1] == b@[1] && p@[2]
            == b@[2] && p@[3] == b@[3]),
{
}

/// With room in the tables nothing is swept.
pub proof fn law_tables_with_room_keep_everything(s: AbuseList, t: BanList, ip: IpAddr, now: u64)
    ensures
        s.len() < 4_096 ==> make_room(s, ip, now) == s,
        t.len() < 4_096 ==> ban_room(t, now) == t,
{
}

/// A session counts in its own direction and no other, and for the address that it
/// comes from; without sessions none is counted.
pub proof fn law_sessions_are_counted(r: RegistryView, id: PeerId, outbound: bool, ip: IpAddr)
    requires
        r.peers.dom().finite(),
    ensures
        r.peers.contains_key(id) && (r.peers[id].session matches Some(s) && s.is_outbound
            == outbound) ==> session_count(r, outbound) >= 1,
        r.peers.contains_key(id) && (r.peers[id].session matches Some(s) && !s.is_outbound
            && s.socket_addr.ip == ip) ==> inbound_from(r, ip) >= 1,
        (forall|k: PeerId| #[trigger]
            r.peers.contains_key(k) ==> !(r.peers[k].session matches Some(s) && s.is_outbound
                == outbound)) ==> session_count(r, outbound) == 0,
        (forall|k: PeerId| #[trigger]
            r.peers.contains_key(k) ==> !(r.peers[k].session matches Some(s) && !s.is_outbound
                && s.socket_addr.ip == ip)) ==> inbound_from(r, ip) == 0,
        inbound_from(r, ip) <= session_count(r, false),
{
    let a = r.peers.dom().filter(|k: PeerId| has_session(r.peers[k], outbound));
    let b = r.peers.dom().filter(|k: PeerId| has_inbound_from(r.peers[k], ip));
    let c = r.peers.dom().filter(|k: PeerId| has_session(r.peers[k], false));
    vstd::set_lib::lemma_len_subset(a, r.peers.dom());
    vstd::set_lib::lemma_len_subset(c, r.peers.dom());
    assert(b.subset_of(c));
    vstd::set_lib::lemma_len_subset(b, c);
    if a.len() == 0 {
        assert(!a.contains(id)) by {
            if a.contains(id) {
                vstd::set_lib::lemma_len_subset(Set::empty().insert(id), a);
            }
        }
    }
    if b.len() == 0 {
        assert(!b.contains(id)) by {
            if b.contains(id) {
                vstd::set_lib::lemma_len_subset(Set::empty().insert(id), b);
            }
        }
    }
    if forall|k: PeerId| #[trigger]
        r.peers.contains_key(k) ==> !(r.peers[k].session matches Some(s) && s.is_outbound
            == outbound) {
        assert(a =~= Set::empty());
    }
    if forall|k: PeerId| #[trigger]
        r.peers.contains_key(k) ==> !(r.peers[k].session matches Some(s) && !s.is_outbound
            && s.socket_addr.ip == ip) {
        assert(b =~= Set::empty());
    }
}

/// A node takes itself to be behind exactly if some peer that it knows claims more
/// work than it has.
pub proof fn law_claims_of_more_work_count(r: RegistryView, id: PeerId, work: nat)
    ensures
        r.peers.contains_key(id) && (r.peers[id].tip matches Some(t) && be_nat(t.cumulative_work@)
            > work) ==> claims_more_work(r, work),
        claims_more_work(r, work) ==> exists|k: PeerId| #[trigger]
            r.peers.contains_key(k) && (r.peers[k].tip matches Some(t) && be_nat(
                t.cumulative_work@,
            ) > work),
{
}

/// The session that is asked for is that of the peer that has arrived, in the
/// direction in which it came; only a peer that was dialled is known by the
/// address.
pub proof fn law_arrival_makes_its_request(
    a: Arrival,
    m: NodeMoment,
    outbound: bool,
    req: AttachRequest,
)
    requires
        makes_request(a, m, outbound, req),
    ensures
        req.identity == a.identity,
        req.session.session_id == a.session_id,
        req.session.socket_addr == a.addr,
        req.session.is_outbound == outbound,
        req.session.established_at == a.now,
        req.handshake_tip.height == a.best_height,
        req.handshake_tip.cumulative_work == a.cumulative_work,
        outbound <==> req.dial_addr_hint == Some(a.addr),
        !outbound <==> req.dial_addr_hint is None,
{
}

} // verus!
