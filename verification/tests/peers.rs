use exfer::addrbook::{backoff_after, shuffle_and_cut, subnet16, AddrBook, AddrEntry, AddrLimits};
use exfer::admission::{
    end_session, moment_of, screen_connection, seat_inbound, seat_outbound, Admission, Arrival,
    InboundLimits, Rejection,
};
use exfer::assoc::AssocMap;
use exfer::bans::{AbuseTable, IdentityBans};
use exfer::chain::{BlockHeader, ChainTip};
use exfer::clock::SECOND;
use exfer::dialer::{plan_dial, settle_dial, BookNote, DialResult};
use exfer::events::SyncState;
use exfer::eviction::EvictionConfig;
use exfer::hash::{Hash256, PeerId};
use exfer::identity::node_identity;
use exfer::limits::WindowLimiter;
use exfer::net::{IpAddr, SocketAddr};
use exfer::reader::{
    headers_end, is_caught_up, BlockFacts, BlockVerdict, PeerFault, ReaderLimits, SessionMeter,
    TxOutcome,
};
use exfer::registry::{OutboundBootstrap, PeerRegistry, PeerTip, RetryState};
use exfer::routing::{broadcast_targets, current_session, is_current_session};
use exfer::schedule::{
    after_stage_a, eligibility_row, next_job, pick_pre_anchor, stuck, survey, StageAFollowUp,
    SyncJob, SyncProgress,
};
use exfer::stages::StageAOutcome;
use exfer::supervisor::{end_message, Keepalive, KeepaliveConfig, Tick, TickVerdict};
use exfer::tips::{
    confirm_tip, note_claim, set_cooldown, settle_download_tip, should_dispatch, ClaimCheck,
    ClaimReply, ClaimStep,
};

const NOW: u64 = 1_000_000 * SECOND;

fn pid(n: u8) -> PeerId {
    let mut p = [0u8; 32];
    p[0] = n;
    p
}

fn sock(a: u8, b: u8, c: u8, d: u8) -> SocketAddr {
    SocketAddr { ip: IpAddr::V4([a, b, c, d]), port: 8333 }
}

fn work(n: u8) -> [u8; 32] {
    let mut w = [0u8; 32];
    w[31] = n;
    w
}

fn limits() -> InboundLimits {
    InboundLimits {
        max_inbound: 3,
        pending_headroom: 1,
        max_inbound_per_ip: 2,
        eviction: EvictionConfig {
            post_handshake_grace_secs: 15,
            protect_useful_n: 0,
            protect_oldest_n: 0,
            protect_groups_n: 0,
            useful_protection_secs: 600,
        },
    }
}

fn arrival(n: u8, addr: SocketAddr, session_id: u64, now: u64) -> Arrival {
    Arrival {
        identity: pid(n),
        addr,
        session_id,
        best_height: 10,
        cumulative_work: work(n),
        now,
    }
}

#[test]
fn identity_comes_from_the_secret() {
    let secret = [7u8; 32];
    let expected = ed25519_dalek::SigningKey::from_bytes(&secret).verifying_key().to_bytes();
    assert_eq!(node_identity(&secret), expected);
    assert_ne!(node_identity(&secret), secret);
    assert_eq!(moment_of(&secret, None, true).our_pubkey, expected);
}

#[test]
fn connections_are_screened() {
    let mut reg = PeerRegistry::new();
    let l = limits();
    assert_eq!(
        screen_connection(&mut reg, sock(1, 1, 1, 1), true, &l),
        Err(Rejection::IpBanned)
    );
    assert_eq!(screen_connection(&mut reg, sock(1, 1, 1, 1), false, &l), Ok(()));
    assert_eq!(
        screen_connection(&mut reg, sock(1, 1, 1, 1), false, &l),
        Err(Rejection::AddressTaken)
    );
    for i in 2..=4u8 {
        assert_eq!(screen_connection(&mut reg, sock(1, 1, 1, i), false, &l), Ok(()));
    }
    assert_eq!(
        screen_connection(&mut reg, sock(1, 1, 1, 5), false, &l),
        Err(Rejection::InboundFull)
    );
}

fn seat(reg: &mut PeerRegistry, n: u8, addr: SocketAddr, session: u64, now: u64) -> Admission {
    let m = moment_of(&[9u8; 32], None, false);
    assert_eq!(screen_connection(reg, addr, false, &limits()), Ok(()));
    seat_inbound(reg, &arrival(n, addr, session, now), false, &m, &limits())
}

#[test]
fn peers_are_seated_and_make_room() {
    let mut reg = PeerRegistry::new();
    for i in 1..=3u8 {
        let a = seat(&mut reg, i, sock(1, 1, i, 1), i as u64, NOW);
        assert!(
            matches!(
                a,
                Admission::Attached { emit_connected: true, replaced: None, evicted: None }
            ),
            "{:?}",
            a
        );
        assert!(is_current_session(&reg, &pid(i), i as u64));
    }
    assert_eq!(reg.inbound_count(), 3);
    // Everybody is within the grace period.
    let a = seat(&mut reg, 4, sock(1, 1, 4, 1), 4, NOW + SECOND);
    assert!(matches!(a, Admission::Rejected(Rejection::NoEvictionCandidate)), "{:?}", a);
    assert!(!reg.has_identity(&pid(4)));
    // Later somebody has to go.
    let a = seat(&mut reg, 4, sock(1, 1, 4, 1), 5, NOW + 60 * SECOND);
    match a {
        Admission::Attached { evicted: Some(v), .. } => {
            assert!(!is_current_session(&reg, &v.identity, v.session_id));
        }
        other => panic!("expected an eviction, got {:?}", other),
    }
    assert_eq!(reg.inbound_count(), 3);
    assert!(is_current_session(&reg, &pid(4), 5));
}

#[test]
fn banned_and_known_peers_are_turned_away() {
    let mut reg = PeerRegistry::new();
    let m = moment_of(&[9u8; 32], None, false);
    let a = sock(1, 1, 1, 1);
    assert_eq!(screen_connection(&mut reg, a, false, &limits()), Ok(()));
    let r = seat_inbound(&mut reg, &arrival(1, a, 1, NOW), true, &m, &limits());
    assert!(matches!(r, Admission::Rejected(Rejection::IdentityBanned)), "{:?}", r);
    // The address is free again.
    assert_eq!(screen_connection(&mut reg, a, false, &limits()), Ok(()));
    let r = seat_inbound(&mut reg, &arrival(1, a, 1, NOW), false, &m, &limits());
    assert!(matches!(r, Admission::Attached { .. }));
    // A second session of the same peer the moment after is one too many.
    let b = sock(2, 2, 2, 2);
    assert!(reg.reserve_outbound_addr(b));
    let r = seat_outbound(&mut reg, &arrival(1, b, 2, NOW + SECOND), false, &m);
    match r {
        Admission::Rejected(Rejection::DuplicateIdentity) => {
            assert!(is_current_session(&reg, &pid(1), 1));
        }
        Admission::Attached { replaced, .. } => {
            assert_eq!(replaced, Some(1));
            assert!(is_current_session(&reg, &pid(1), 2));
        }
        other => panic!("{:?}", other),
    }
}

#[test]
fn sessions_end_once() {
    let mut reg = PeerRegistry::new();
    seat(&mut reg, 1, sock(1, 1, 1, 1), 1, NOW);
    let mut ibd = Some((pid(1), 1));
    let e = end_session(&mut reg, &mut ibd, pid(1), 1, Some(PeerFault::HmacFailure), NOW);
    assert!(e.announce);
    assert!(e.strike);
    assert_eq!(ibd, None);
    let e = end_session(&mut reg, &mut ibd, pid(1), 1, None, NOW);
    assert!(!e.announce);
    assert!(!e.strike);
}

#[test]
fn messages_go_to_everybody_else() {
    let mut reg = PeerRegistry::new();
    for i in 1..=3u8 {
        seat(&mut reg, i, sock(1, 1, i, 1), i as u64, NOW);
    }
    assert_eq!(broadcast_targets(&reg, None).len(), 3);
    let t = broadcast_targets(&reg, Some(pid(2)));
    let ids: Vec<PeerId> = t.iter().map(|x| x.0).collect();
    assert_eq!(ids.len(), 2);
    assert!(!ids.contains(&pid(2)));
    assert_eq!(current_session(&reg, &pid(2)).map(|s| s.session_id), Some(2));
    assert!(current_session(&reg, &pid(9)).is_none());
}

#[test]
fn strikes_lead_to_a_ban_that_ends() {
    let mut t = AbuseTable::new();
    let ip = IpAddr::V4([1, 2, 3, 4]);
    for i in 1..10 {
        assert!(!t.record_ip_strike(ip, NOW), "strike {}", i);
        assert!(!t.is_ip_banned(ip, NOW).0);
    }
    assert!(t.record_ip_strike(ip, NOW));
    assert_eq!(t.is_ip_banned(ip, NOW + 599 * SECOND), (true, false));
    assert_eq!(t.is_ip_banned(IpAddr::V4([1, 2, 3, 5]), NOW), (false, false));
    assert_eq!(t.is_ip_banned(ip, NOW + 600 * SECOND), (false, true));
    assert_eq!(t.is_ip_banned(ip, NOW + 600 * SECOND), (false, false));
}

#[test]
fn strikes_decay() {
    let mut t = AbuseTable::new();
    let ip = IpAddr::V4([1, 2, 3, 4]);
    for _ in 0..9 {
        t.record_ip_strike(ip, NOW);
    }
    // After a quiet while the count starts anew.
    assert!(!t.record_ip_strike(ip, NOW + 301 * SECOND));
}

#[test]
fn a_strike_never_lifts_a_ban() {
    let mut t = AbuseTable::new();
    let ip = IpAddr::V4([1, 2, 3, 4]);
    let mut banned = false;
    for _ in 0..10 {
        banned = t.record_ip_strike(ip, NOW);
    }
    assert!(banned);
    // The ban still runs, though the last strike is long past.
    let later = NOW + 301 * SECOND;
    assert!(t.record_ip_strike(ip, later));
    assert_eq!(t.is_ip_banned(ip, later), (true, false));
    assert_eq!(t.is_ip_banned(ip, NOW + 600 * SECOND), (true, false));
    assert_eq!(t.is_ip_banned(ip, later + 600 * SECOND), (false, true));
}

#[test]
fn identities_are_banned() {
    let mut b = IdentityBans::new();
    assert!(b.ban_identity(pid(1), NOW).is_empty());
    assert_eq!(b.is_identity_banned(&pid(1), NOW), (true, false));
    assert_eq!(b.is_identity_banned(&pid(2), NOW), (false, false));
    assert_eq!(b.is_identity_banned(&pid(1), NOW + 600 * SECOND), (false, true));
    assert_eq!(b.is_identity_banned(&pid(1), NOW + 600 * SECOND), (false, false));
    // An identity of zeroes stands for nobody.
    b.ban_identity([0u8; 32], NOW);
    assert_eq!(b.is_identity_banned(&[0u8; 32], NOW), (false, false));
}

#[test]
fn budgets_are_kept() {
    let mut l = WindowLimiter::new(NOW);
    assert!(l.try_consume(NOW, 60, 100));
    assert!(!l.try_consume(NOW, 41, 100));
    assert!(l.try_consume(NOW, 40, 100));
    assert!(!l.try_consume(NOW + 59 * SECOND, 1, 100));
    assert!(l.try_consume(NOW + 60 * SECOND, 1, 100));
    l.refund();
    assert_eq!(l.used, 0);
    l.refund();
    assert_eq!(l.used, 0);
}

fn entry(a: u8, b: u8, c: u8, d: u8, seen: u64) -> AddrEntry {
    AddrEntry { addr: sock(a, b, c, d), last_seen: seen, routable: true }
}

fn addr_limits() -> AddrLimits {
    AddrLimits {
        max_book_size: 20,
        max_per_subnet16: 2,
        max_per_msg_accept: 5,
        peer_fraction_num: 1,
        peer_fraction_den: 2,
        min_sources_for_connect: 2,
    }
}

#[test]
fn addresses_are_merged() {
    let mut book = AddrBook::new();
    let l = addr_limits();
    let now = 1_000_000u64;
    let peer = IpAddr::V4([9, 9, 9, 9]);
    let mut list = vec![
        entry(1, 1, 1, 1, now),
        entry(1, 1, 1, 2, now),
        // A third one of a subnet is one too many.
        entry(1, 1, 1, 3, now),
    ];
    list.push(AddrEntry { routable: false, ..entry(2, 2, 2, 2, now) });
    assert_eq!(book.merge_addr_entries(&list, peer, &pid(1), now, &l), 2);
    assert_eq!(book.len(), 2);
    // Announced again, they are not new.
    assert_eq!(book.merge_addr_entries(&list, peer, &pid(1), now, &l), 0);
    // A message with many entries is taken up in part.
    let many: Vec<AddrEntry> = (10..20u8).map(|i| entry(i, 1, 1, 1, now)).collect();
    assert_eq!(book.merge_addr_entries(&many, peer, &pid(1), now, &l), 5);
}

#[test]
fn addresses_are_chosen() {
    let mut book = AddrBook::new();
    let l = addr_limits();
    let now_unix = 1_000_000u64;
    let list = [entry(1, 1, 1, 1, now_unix), entry(2, 2, 2, 2, now_unix)];
    let a = IpAddr::V4([9, 9, 9, 9]);
    book.merge_addr_entries(&list, a, &pid(1), now_unix, &l);
    book.merge_addr_entries(&list[1..], IpAddr::V4([8, 8, 8, 8]), &pid(2), now_unix, &l);
    // Two peers vouch for the second one.
    assert_eq!(book.addr_book_select_for_connect(NOW, &l), Some(sock(2, 2, 2, 2)));
    book.addr_book_record_failure(sock(2, 2, 2, 2), NOW);
    assert_eq!(book.addr_book_select_for_connect(NOW, &l), Some(sock(1, 1, 1, 1)));
    book.addr_book_record_failure(sock(1, 1, 1, 1), NOW);
    assert_eq!(book.addr_book_select_for_connect(NOW, &l), None);
    // Ten seconds after a first failure both are due again.
    assert_eq!(
        book.addr_book_select_for_connect(NOW + 10 * SECOND, &l),
        Some(sock(2, 2, 2, 2))
    );
    book.addr_book_record_success(list[0], NOW, 20);
    assert_eq!(
        book.addr_book_select_for_connect(NOW + 10 * SECOND, &l),
        Some(sock(1, 1, 1, 1))
    );
}

#[test]
fn samples_are_taken_from_the_book() {
    let mut book = AddrBook::new();
    for i in 1..=10u8 {
        book.addr_book_record_success(entry(i, 1, 1, 1, 5), NOW, 20);
    }
    let unroutable = AddrEntry { routable: false, ..entry(99, 1, 1, 1, 5) };
    book.addr_book_record_success(unroutable, NOW, 20);
    assert_eq!(book.len(), 10);
    assert_eq!(book.known_addrs().len(), 10);
    for n in [0usize, 3, 10, 50] {
        let s = book.addr_book_sample(n);
        assert_eq!(s.len(), std::cmp::min(n, 10));
        let mut first: Vec<u8> = s
            .iter()
            .map(|e| match e.addr.ip {
                IpAddr::V4(o) => o[0],
                _ => 0,
            })
            .collect();
        first.sort();
        first.dedup();
        assert_eq!(first.len(), s.len());
        assert!(first.iter().all(|b| (1..=10).contains(b)));
    }
    // Samples vary.
    let order = |b: &AddrBook| -> Vec<SocketAddr> {
        b.addr_book_sample(10).iter().map(|e| e.addr).collect()
    };
    let base = order(&book);
    assert!((0..50).any(|_| order(&book) != base));
}

#[test]
fn shuffles_follow_the_picks() {
    let list = vec![entry(1, 0, 0, 0, 1), entry(2, 0, 0, 0, 1), entry(3, 0, 0, 0, 1)];
    let out = shuffle_and_cut(list, &vec![0, 0], 3);
    let first: Vec<u8> = out
        .iter()
        .map(|e| match e.addr.ip {
            IpAddr::V4(o) => o[0],
            _ => 0,
        })
        .collect();
    // The last entry changes places with the first, and so does the middle one.
    assert_eq!(first, [2, 3, 1]);
}

#[test]
fn dial_backoff_grows() {
    assert_eq!(backoff_after(0), 5);
    assert_eq!(backoff_after(1), 10);
    assert_eq!(backoff_after(4), 80);
    assert_eq!(backoff_after(20), 3600);
    assert_eq!(backoff_after(u32::MAX), 3600);
    assert_eq!(subnet16(&IpAddr::V4([1, 2, 3, 4])), [1, 2]);
}

#[test]
fn dials_are_planned_and_settled() {
    let mut reg = PeerRegistry::new();
    let mut boots: AssocMap<SocketAddr, OutboundBootstrap> = AssocMap::new();
    let a = sock(1, 1, 1, 1);
    boots.insert(
        a,
        OutboundBootstrap {
            retry: RetryState { backoff_secs: 5, next_attempt_at: NOW },
            desired_outbound: true,
        },
    );
    assert!(plan_dial(&mut reg, &boots, 0, NOW).is_none());
    assert!(plan_dial(&mut reg, &boots, 8, NOW - 1).is_none());
    let d = plan_dial(&mut reg, &boots, 8, NOW).expect("due");
    assert_eq!(d.addr, a);
    assert!(!d.known);
    // It is being dialled.
    assert!(plan_dial(&mut reg, &boots, 8, NOW).is_none());
    reg.release_outbound_addr(&a);
    let note = settle_dial(&mut reg, &mut boots, &d, &DialResult::Failed { lasted: 0 }, 10, NOW);
    assert_eq!(note, BookNote::Failure);
    assert!(plan_dial(&mut reg, &boots, 8, NOW + 9 * SECOND).is_none());
    let d = plan_dial(&mut reg, &boots, 8, NOW + 10 * SECOND).expect("due again");
    reg.release_outbound_addr(&a);
    let m = moment_of(&[9u8; 32], None, false);
    let r = seat_outbound(&mut reg, &arrival(1, a, 1, NOW), false, &m);
    assert!(matches!(r, Admission::Attached { .. }));
    let note = settle_dial(&mut reg, &mut boots, &d, &DialResult::Connected(pid(1)), 10, NOW);
    assert_eq!(note, BookNote::Success);
    assert_eq!(boots.len(), 0);
    assert!(reg.get_by_identity(&pid(1)).unwrap().desired_outbound);
    // When its session ends, the peer is dialled by its identity.
    reg.detach_session_if_current(pid(1), 1);
    let d = plan_dial(&mut reg, &boots, 8, NOW + SECOND).expect("wanted");
    assert!(d.known);
    assert_eq!(d.addr, a);
}

fn reader_limits() -> ReaderLimits {
    ReaderLimits {
        max_pings_per_min: 2,
        max_unsolicited_per_min: 2,
        max_unsolicited_addr_per_min: 2,
        max_blocks_per_min: 3,
        max_txs_per_min: 3,
        max_requests_per_min: 2,
        max_invalid_blocks_per_peer: 1,
        max_invalid_txs_per_peer: 1,
        max_getaddr_per_conn: 1,
        addr_response_window_secs: 10,
        max_response_bytes_per_min: 100,
        max_global_response_bytes_per_min: 150,
        block_version: 1,
    }
}

fn facts(height: u64, version: u32) -> BlockFacts {
    BlockFacts { ip_banned: false, already_known: false, height, version }
}

#[test]
fn blocks_are_metered() {
    let l = reader_limits();
    let mut m = SessionMeter::new(NOW);
    assert_eq!(m.on_new_block(true, true, &facts(5, 1), &l), BlockVerdict::Forward);
    assert_eq!(m.on_new_block(true, true, &facts(0, 1), &l), BlockVerdict::Strike);
    assert_eq!(m.after_strike(false, true, &l), None);
    assert_eq!(m.on_new_block(true, true, &facts(5, 2), &l), BlockVerdict::Strike);
    assert_eq!(m.after_strike(false, true, &l), Some(PeerFault::DisconnectAfterInlineStrike));
    assert_eq!(
        m.on_new_block(true, true, &facts(5, 1), &l),
        BlockVerdict::Disconnect(PeerFault::TrafficQuotaExceeded)
    );
    m.tick(NOW + 60 * SECOND);
    let known = BlockFacts { already_known: true, ..facts(0, 9) };
    assert_eq!(m.on_new_block(true, true, &known, &l), BlockVerdict::Drop);
    // While catching up there is no quota.
    let mut m = SessionMeter::new(NOW);
    for _ in 0..10 {
        assert_eq!(m.on_new_block(false, true, &facts(5, 1), &l), BlockVerdict::Forward);
        assert_eq!(m.on_block_response(true, true, &facts(5, 1), &l), BlockVerdict::Forward);
    }
}

#[test]
fn blocks_whose_fate_is_settled_are_not_looked_up() {
    let l = reader_limits();
    let mut m = SessionMeter::new(NOW);
    for _ in 0..3 {
        assert!(m.looks_up_new_block(true, true, false, &l));
        assert!(!m.looks_up_new_block(true, true, true, &l));
        m.on_new_block(true, true, &facts(5, 1), &l);
    }
    assert!(!m.looks_up_new_block(true, true, false, &l));
    assert!(m.looks_up_new_block(false, true, false, &l));
    assert!(m.looks_up_new_block(true, false, false, &l));
    assert!(!m.looks_up_block_response(false, true, false, &l));
    assert!(m.looks_up_block_response(true, true, false, &l));
    assert!(!m.looks_up_block_response(true, true, true, &l));
}

#[test]
fn transactions_are_metered() {
    let l = reader_limits();
    let mut m = SessionMeter::new(NOW);
    let mut slots = WindowLimiter::new(NOW);
    assert!(!m.on_new_tx(false, false, &mut slots, 10, NOW, &l));
    for _ in 0..3 {
        assert!(m.on_new_tx(true, false, &mut slots, 10, NOW, &l));
    }
    assert!(!m.on_new_tx(true, false, &mut slots, 10, NOW, &l));
    let v = m.on_tx_outcome(TxOutcome::Added, &l);
    assert!(v.relay && !v.refund && v.fault.is_none());
    let v = m.on_tx_outcome(TxOutcome::TipChanged, &l);
    assert!(!v.relay && v.refund && v.fault.is_none());
    let v = m.on_tx_outcome(TxOutcome::Invalid, &l);
    assert!(v.refund && v.fault.is_none());
    let v = m.on_tx_outcome(TxOutcome::Invalid, &l);
    assert_eq!(v.fault, Some(PeerFault::AbuseThresholdExceeded));
}

#[test]
fn requests_and_answers_are_metered() {
    let l = reader_limits();
    let mut m = SessionMeter::new(NOW);
    assert!(m.on_get_tip(true, &l));
    assert!(m.on_get_tip(true, &l));
    assert!(!m.on_get_tip(true, &l));
    let mut global = WindowLimiter::new(NOW);
    // One answer may be larger than the budget; a second one may not.
    assert!(m.on_answer(false, 120, &mut global, NOW, &l));
    assert!(!m.on_answer(false, 1, &mut global, NOW, &l));
    assert!(m.on_answer(true, 1_000, &mut global, NOW, &l));
    assert!(m.on_get_addr(true, &l));
    assert!(!m.on_get_addr(true, &l));
    assert!(m.on_addr(NOW, Some(NOW), true, &l));
    assert!(!m.on_addr(NOW + 10 * SECOND, Some(NOW), true, &l));
    assert!(!m.on_addr(NOW, None, true, &l));
    assert_eq!(headers_end(10, 5, 100), 15);
    assert_eq!(headers_end(98, 64, 100), 101);
}

#[test]
fn bans_end_a_session() {
    let m = SessionMeter::new(NOW);
    assert_eq!(m.check_bans(false, false), Ok(()));
    assert_eq!(m.check_bans(true, false), Err(PeerFault::PeerAlreadyBanned));
    assert_eq!(m.check_bans(false, true), Err(PeerFault::PeerAlreadyBanned));
    assert!(PeerFault::HmacFailure.earns_strike());
    assert!(!PeerFault::Io.earns_strike());
    assert!(!PeerFault::DisconnectAfterInlineStrike.earns_strike());
    let mut m = SessionMeter::new(NOW);
    let l = reader_limits();
    assert_eq!(m.on_garbage(&l), None);
    assert_eq!(m.on_garbage(&l), None);
    assert!(m.on_garbage(&l).is_some());
}

#[test]
fn keepalive_probes_and_gives_up() {
    let c = KeepaliveConfig { ping_interval_secs: 30, pong_deadline_secs: 20 };
    let mut k = Keepalive::new(0, NOW);
    let tick = |secs: u64, bytes: u64, pong: bool| Tick {
        now: NOW + secs * SECOND,
        node_shutdown: false,
        evicted: false,
        banned: false,
        bytes_read: bytes,
        pong_received: pong,
    };
    assert_eq!(k.on_tick(&tick(29, 0, false), &c), TickVerdict::Continue);
    assert_eq!(k.on_tick(&tick(30, 0, false), &c), TickVerdict::SendPing);
    k.on_ping_sent(NOW + 30 * SECOND);
    assert_eq!(k.on_tick(&tick(49, 0, false), &c), TickVerdict::Continue);
    // Bytes are a sign of life.
    assert_eq!(k.on_tick(&tick(50, 9, false), &c), TickVerdict::Continue);
    assert_eq!(k.on_tick(&tick(69, 9, false), &c), TickVerdict::Continue);
    assert_eq!(k.on_tick(&tick(70, 9, false), &c), TickVerdict::EndPongTimeout);
    let mut k2 = k;
    assert_eq!(k2.on_tick(&tick(70, 9, true), &c), TickVerdict::Continue);
    assert!(!k2.awaiting_pong);
    let t = Tick { banned: true, ..tick(70, 9, false) };
    assert_eq!(k.on_tick(&t, &c), TickVerdict::EndBanned);
    assert_eq!(end_message(TickVerdict::EndShutdown), "node shutting down");
    assert_eq!(end_message(TickVerdict::EndEvicted), "evicted by tiebreaker");
}

fn header(height: u64, id: Hash256) -> BlockHeader {
    BlockHeader {
        version: 1,
        height,
        prev_block_id: Hash256::zero(),
        timestamp: 0,
        difficulty_target: Hash256([0xff; 32]),
        nonce: 0,
        tx_root: Hash256::zero(),
        state_root: Hash256::zero(),
        id,
    }
}

#[test]
fn claims_are_confirmed_by_their_header() {
    let id = Hash256([5; 32]);
    let h = header(10, id);
    let mut c = ClaimCheck::new(10, id, false, 3, true, true);
    assert_eq!(c.step, ClaimStep::AskHeader);
    c.advance(ClaimReply::Headers(vec![h]));
    assert_eq!(c.step, ClaimStep::FindParent);
    let mut unknown = c;
    unknown.advance(ClaimReply::Parent(false));
    assert_eq!(unknown.step, ClaimStep::Dispatch);
    c.advance(ClaimReply::Parent(true));
    assert_eq!(c.step, ClaimStep::FindTarget);
    let mut wrong = c;
    wrong.advance(ClaimReply::Target(Some(Hash256::zero())));
    assert_eq!(wrong.step, ClaimStep::Strike);
    c.advance(ClaimReply::Target(Some(h.difficulty_target)));
    assert_eq!(c.step, ClaimStep::CheckPow);
    let mut weak = c;
    weak.advance(ClaimReply::Pow(false));
    assert_eq!(weak.step, ClaimStep::Strike);
    c.advance(ClaimReply::Pow(true));
    assert_eq!(c.step, ClaimStep::Confirm);
    let t = c.confirmed_tip(None, &work(7));
    assert_eq!(t.cumulative_work, work(8));
    assert!(t.confirmed);
    assert_eq!(c.confirmed_tip(Some(work(3)), &work(7)).cumulative_work, work(3));
    let mut c = ClaimCheck::new(10, id, false, 3, true, true);
    c.advance(ClaimReply::Headers(Vec::new()));
    assert_eq!(c.step, ClaimStep::Ignore);
    assert_eq!(ClaimCheck::new(0, id, false, 3, true, true).step, ClaimStep::Genesis);
    assert_eq!(ClaimCheck::new(10, id, true, 3, true, true).step, ClaimStep::Ignore);
}

fn tip_at(height: u64, w: u8) -> PeerTip {
    PeerTip {
        height,
        cumulative_work: work(w),
        block_id: Hash256([w; 32]),
        confirmed: false,
    }
}

#[test]
fn tips_are_noted() {
    let mut reg = PeerRegistry::new();
    seat(&mut reg, 1, sock(1, 1, 1, 1), 1, NOW);
    note_claim(&mut reg, &pid(1), 1, tip_at(5, 5));
    assert_eq!(reg.get_by_identity(&pid(1)).unwrap().tip.unwrap().height, 5);
    note_claim(&mut reg, &pid(1), 2, tip_at(6, 6));
    assert_eq!(reg.get_by_identity(&pid(1)).unwrap().tip.unwrap().height, 5);
    assert!(!confirm_tip(&mut reg, &pid(1), 2, tip_at(6, 6), NOW));
    assert!(confirm_tip(&mut reg, &pid(1), 1, tip_at(6, 6), NOW));
    let t = reg.get_by_identity(&pid(1)).unwrap().tip.unwrap();
    assert!(t.confirmed && t.height == 6);
    assert!(reg.get_by_identity(&pid(1)).unwrap().ever_confirmed_for_ibd);
    // A mere claim does not take its place.
    note_claim(&mut reg, &pid(1), 1, tip_at(99, 99));
    assert_eq!(reg.get_by_identity(&pid(1)).unwrap().tip.unwrap().height, 6);
    // After a download from another peer, it does.
    assert!(!settle_download_tip(
        &mut reg,
        &pid(1),
        1,
        tip_at(9, 9),
        false,
        None,
        None,
        &work(1)
    ));
    let t = reg.get_by_identity(&pid(1)).unwrap().tip.unwrap();
    assert!(!t.confirmed && t.height == 9);
    let claim = tip_at(9, 9);
    assert!(settle_download_tip(
        &mut reg,
        &pid(1),
        1,
        claim,
        true,
        Some(claim.block_id),
        Some(work(4)),
        &work(1),
    ));
    let t = reg.get_by_identity(&pid(1)).unwrap().tip.unwrap();
    assert!(t.confirmed && t.cumulative_work == work(4));
}

#[test]
fn the_best_confirmed_peer_is_downloaded_from() {
    let mut reg = PeerRegistry::new();
    for i in 1..=3u8 {
        seat(&mut reg, i, sock(1, 1, i, 1), i as u64, NOW);
    }
    let ours = ChainTip { block_id: Hash256([1; 32]), height: 2, cumulative_work: work(2) };
    note_claim(&mut reg, &pid(1), 1, tip_at(90, 90));
    let s = survey(&reg, &ours, NOW);
    assert_eq!(s.connected, 3);
    assert!(s.ibd.is_none());
    assert!(stuck(&s, &ours));
    confirm_tip(&mut reg, &pid(2), 2, tip_at(20, 20), NOW);
    confirm_tip(&mut reg, &pid(3), 3, tip_at(30, 30), NOW);
    let s = survey(&reg, &ours, NOW);
    assert_eq!(s.ibd, Some((pid(3), 3)));
    assert_eq!(s.best_confirmed_work, work(30));
    assert!(is_caught_up(false, &work(90), &reg));
    assert!(!is_caught_up(false, &work(2), &reg));
    assert!(!is_caught_up(true, &work(90), &reg));
    assert!(matches!(
        next_job(&reg, &ours, 0, false, NOW),
        SyncJob::Download { peer, session_id: 3 } if peer == pid(3)
    ));
    set_cooldown(&mut reg, &pid(3), NOW + SECOND);
    assert_eq!(survey(&reg, &ours, NOW).ibd, Some((pid(2), 2)));
    assert_eq!(survey(&reg, &ours, NOW + SECOND).ibd, Some((pid(3), 3)));
    // Below the checkpoint a claim is enough.
    assert_eq!(pick_pre_anchor(&reg, 50, NOW).map(|x| x.0), Some(pid(1)));
    assert!(pick_pre_anchor(&reg, 91, NOW).is_none());
    assert!(matches!(
        next_job(&reg, &ours, 50, false, NOW),
        SyncJob::FetchToCheckpoint { need_headers: true, .. }
    ));
    assert!(matches!(next_job(&reg, &ours, 91, false, NOW), SyncJob::WaitForPeer(v) if v.connected == 3));
}

#[test]
fn reports_say_why_a_peer_is_not_chosen() {
    let mut reg = PeerRegistry::new();
    seat(&mut reg, 7, sock(1, 1, 1, 1), 1, NOW);
    let ours = ChainTip { block_id: Hash256([1; 32]), height: 2, cumulative_work: work(2) };
    let row = |reg: &PeerRegistry, now: u64| {
        eligibility_row(&pid(7), reg.get_by_identity(&pid(7)).unwrap(), &ours, now)
    };
    note_claim(&mut reg, &pid(7), 1, tip_at(90, 90));
    assert_eq!(
        row(&reg, NOW),
        "[7, 0, 0, 0] ever_ibd=false cooldown=ok tip_h=90 conf=false ahead=true"
    );
    confirm_tip(&mut reg, &pid(7), 1, tip_at(1, 1), NOW);
    set_cooldown(&mut reg, &pid(7), NOW + 90 * SECOND);
    assert_eq!(
        row(&reg, NOW + SECOND / 2),
        "[7, 0, 0, 0] ever_ibd=true cooldown=89s tip_h=1 conf=true ahead=false"
    );
}

#[test]
fn following_has_hysteresis() {
    let mut p = SyncProgress::new(5, NOW);
    assert_eq!(p.update(&work(0), &work(5), 1, NOW), SyncState::CatchingUp);
    assert_eq!(p.update(&work(5), &work(5), 1, NOW), SyncState::Live);
    assert!(!p.future_retry_due(NOW + 9 * SECOND));
    assert!(p.future_retry_due(NOW + 10 * SECOND));
    assert!(!p.future_retry_due(NOW + 10 * SECOND));
    // A peer gets ahead: while our tip moves, we follow.
    assert_eq!(p.update(&work(9), &work(5), 1, NOW + 59 * SECOND), SyncState::Live);
    assert_eq!(p.update(&work(9), &work(5), 1, NOW + 60 * SECOND), SyncState::CatchingUp);
    p.observe_tip(6, NOW + 61 * SECOND);
    assert_eq!(p.update(&work(9), &work(6), 1, NOW + 62 * SECOND), SyncState::Live);
    assert!(p.tip_poll_due(NOW + 60 * SECOND));
    assert!(!p.tip_poll_due(NOW + 60 * SECOND));
    assert!(p.diagnosis_due(true, NOW));
    assert!(!p.diagnosis_due(true, NOW + 299 * SECOND));
    assert!(p.diagnosis_due(true, NOW + 300 * SECOND));
    assert!(!p.diagnosis_due(false, NOW + 301 * SECOND));
    // A lonely node takes its chain for the chain.
    let mut p = SyncProgress::new(5, NOW);
    assert_eq!(p.update(&work(0), &work(5), 0, NOW + 60 * SECOND), SyncState::CatchingUp);
    assert_eq!(p.update(&work(0), &work(5), 0, NOW + 61 * SECOND), SyncState::Live);
    let mut p = SyncProgress::new(5, NOW);
    p.on_connected();
    assert_eq!(p.update(&work(0), &work(5), 0, NOW + 61 * SECOND), SyncState::CatchingUp);
}

#[test]
fn a_node_without_peers_begins_to_follow() {
    let reg = PeerRegistry::new();
    let ours = ChainTip { block_id: Hash256([1; 32]), height: 0, cumulative_work: work(0) };
    // Whether or not there is a checkpoint ahead.
    for checkpoint in [0u64, 302_400] {
        let mut p = SyncProgress::new(0, NOW);
        let late = NOW + 61 * SECOND;
        let job = next_job(&reg, &ours, checkpoint, false, NOW + 60 * SECOND);
        assert_eq!(p.on_job(&job, &ours, NOW + 60 * SECOND), Some(SyncState::CatchingUp));
        let job = next_job(&reg, &ours, checkpoint, false, late);
        assert!(matches!(job, SyncJob::WaitForPeer(_)));
        assert_eq!(p.on_job(&job, &ours, late), Some(SyncState::Live));
        assert!(p.is_live);
    }
    // One that had a peer waits for the next.
    let mut reg = PeerRegistry::new();
    seat(&mut reg, 1, sock(1, 1, 1, 1), 1, NOW);
    let mut p = SyncProgress::new(0, NOW);
    let job = next_job(&reg, &ours, 302_400, false, NOW);
    assert_eq!(p.on_job(&job, &ours, NOW), Some(SyncState::CatchingUp));
    assert!(p.ever_had_peer);
    let gone = next_job(&PeerRegistry::new(), &ours, 302_400, false, NOW + 61 * SECOND);
    assert_eq!(p.on_job(&gone, &ours, NOW + 61 * SECOND), Some(SyncState::CatchingUp));
    // A download settles nothing.
    note_claim(&mut reg, &pid(1), 1, tip_at(90, 90));
    let job = next_job(&reg, &ours, 50, false, NOW);
    assert!(matches!(job, SyncJob::FetchToCheckpoint { .. }));
    let mut p = SyncProgress::new(0, NOW);
    assert_eq!(p.on_job(&job, &ours, NOW), None);
    assert!(p.ever_had_peer);
}

#[test]
fn failures_below_the_checkpoint() {
    assert_eq!(after_stage_a(StageAOutcome::Success), StageAFollowUp::Proceed);
    assert_eq!(
        after_stage_a(StageAOutcome::DeliveredForgedChain),
        StageAFollowUp::Rest { secs: 300, strike: true }
    );
    assert!(matches!(
        after_stage_a(StageAOutcome::Timeout),
        StageAFollowUp::Rest { strike: false, .. }
    ));
}

#[test]
fn claims_are_checked_in_full_when_that_is_possible() {
    assert!(should_dispatch(10, true, false, 5, true, true));
    assert!(!should_dispatch(0, true, false, 5, true, true));
    assert!(!should_dispatch(10, false, false, 5, true, true));
    assert!(!should_dispatch(10, true, true, 5, true, true));
    assert!(!should_dispatch(10, true, false, 0, false, true));
    assert!(should_dispatch(10, true, false, 0, true, true));
}

#[test]
fn standing_outlasts_a_session() {
    let mut reg = PeerRegistry::new();
    seat(&mut reg, 1, sock(1, 1, 1, 1), 1, NOW);
    assert!(confirm_tip(&mut reg, &pid(1), 1, tip_at(6, 6), NOW));
    reg.detach_session_if_current(pid(1), 1);
    seat(&mut reg, 1, sock(1, 1, 1, 1), 2, NOW + SECOND);
    let p = reg.get_by_identity(&pid(1)).unwrap();
    // The tip has to be confirmed anew, and credit earned anew; the mark stays.
    assert!(!p.tip.unwrap().confirmed);
    assert!(p.last_useful_message_at.is_none());
    assert!(p.ever_confirmed_for_ibd);
}
