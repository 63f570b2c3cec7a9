use exfer::assoc::KeySet;
use exfer::clock::SECOND;
use exfer::eviction::{EvictionConfig, EvictionDecision};
use exfer::hash::{Hash256, PeerId};
use exfer::net::{IpAddr, NetworkGroup, SocketAddr};
use exfer::registry::{
    LogicalPeer, PeerRegistry, PeerSession, PeerTip, RetryState, SessionAttachResult,
};
use std::collections::HashSet;

const NOW: u64 = 1_000_000 * SECOND;

fn ago(secs: u64) -> u64 {
    NOW - secs * SECOND
}

fn make_session(session_id: u64, addr: SocketAddr, is_outbound: bool, established_at: u64) -> PeerSession {
    PeerSession { session_id, socket_addr: addr, is_outbound, established_at }
}

fn attach_inbound_with(
    reg: &mut PeerRegistry,
    id: PeerId,
    session: PeerSession,
    last_useful: Option<u64>,
) {
    let addr = session.socket_addr;
    reg.connected_socket_to_identity.insert(addr, id);
    reg.by_identity.insert(
        id,
        LogicalPeer {
            identity: id,
            session: Some(session),
            known_addrs: KeySet::new(),
            preferred_dial_addr: None,
            desired_outbound: false,
            retry: RetryState { backoff_secs: 5, next_attempt_at: NOW },
            tip: None,
            ibd_cooldown_until: None,
            last_useful_message_at: last_useful,
            ever_confirmed_for_ibd: false,
        },
    );
}

fn attach_inbound(reg: &mut PeerRegistry, id: PeerId, session: PeerSession) {
    attach_inbound_with(reg, id, session, None);
}

fn pid(n: u8) -> PeerId {
    let mut p = [0u8; 32];
    p[0] = n;
    p
}

fn pid2(a: u8, b: u8) -> PeerId {
    let mut p = [0u8; 32];
    p[0] = a;
    p[1] = b;
    p
}

fn addr_in_group(a: u8, b: u8, c: u8, d: u8) -> SocketAddr {
    SocketAddr { ip: IpAddr::V4([a, b, c, d]), port: 8333 }
}

fn test_config_no_protection() -> EvictionConfig {
    EvictionConfig {
        post_handshake_grace_secs: 0,
        protect_useful_n: 0,
        protect_oldest_n: 0,
        protect_groups_n: 0,
        useful_protection_secs: 600,
    }
}

fn live_config() -> EvictionConfig {
    EvictionConfig {
        post_handshake_grace_secs: 15,
        protect_useful_n: 8,
        protect_oldest_n: 8,
        protect_groups_n: 16,
        useful_protection_secs: 600,
    }
}

const PER_IP: usize = 3;

const NEW_IP: IpAddr = IpAddr::V4([8, 8, 8, 8]);

#[test]
fn eviction_picks_victim_from_most_over_represented_group() {
    let mut reg = PeerRegistry::new();
    let base_age = ago(120);
    for i in 1..=15u8 {
        attach_inbound(
            &mut reg,
            pid2(0xA0, i),
            make_session(i as u64, addr_in_group(192, 168, 1, i), false, base_age),
        );
    }
    for i in 1..=5u8 {
        attach_inbound(
            &mut reg,
            pid2(0xB0, i),
            make_session(100 + i as u64, addr_in_group(10, 0, 1, i), false, base_age),
        );
    }
    let new_peer = pid2(0xC0, 1);
    let decision = reg.decide_inbound_eviction_utility(
        &new_peer,
        NEW_IP,
        None,
        20,
        PER_IP,
        &test_config_no_protection(),
        NOW,
    );
    match decision {
        EvictionDecision::Evict(victim) => {
            let octets = match victim.socket_addr.ip {
                IpAddr::V4(v) => v,
                _ => panic!("expected IPv4"),
            };
            assert_eq!([octets[0], octets[1]], [192, 168]);
        }
        other => panic!("expected Evict, got {:?}", other),
    }
}

#[test]
fn eviction_picks_newest_within_target_group() {
    let mut reg = PeerRegistry::new();
    for i in 1..=10u8 {
        attach_inbound(
            &mut reg,
            pid2(0xA0, i),
            make_session(i as u64, addr_in_group(192, 168, 0, i), false, ago(i as u64 * 10)),
        );
    }
    let decision = reg.decide_inbound_eviction_utility(
        &pid2(0xC0, 1),
        NEW_IP,
        None,
        10,
        PER_IP,
        &test_config_no_protection(),
        NOW,
    );
    match decision {
        EvictionDecision::Evict(victim) => {
            assert_eq!(victim.identity[..2], [0xA0, 1]);
        }
        other => panic!("expected Evict, got {:?}", other),
    }
}

#[test]
fn eviction_skips_post_handshake_grace_window() {
    let mut reg = PeerRegistry::new();
    attach_inbound(&mut reg, pid(1), make_session(1, addr_in_group(10, 0, 0, 1), false, ago(5)));
    attach_inbound(&mut reg, pid(2), make_session(2, addr_in_group(10, 0, 0, 2), false, ago(10)));
    attach_inbound(&mut reg, pid(3), make_session(3, addr_in_group(10, 0, 0, 3), false, ago(20)));
    let config = EvictionConfig {
        post_handshake_grace_secs: 15,
        protect_useful_n: 0,
        protect_oldest_n: 0,
        protect_groups_n: 0,
        useful_protection_secs: 600,
    };
    for _ in 0..50 {
        let decision =
            reg.decide_inbound_eviction_utility(&pid(99), NEW_IP, None, 3, PER_IP, &config, NOW);
        match decision {
            EvictionDecision::Evict(v) => {
                assert_eq!(v.identity, pid(3), "only peer C (age 20s) should be evictable");
            }
            other => panic!("expected Evict, got {:?}", other),
        }
    }
}

#[test]
fn eviction_protects_oldest_n_peers() {
    let mut reg = PeerRegistry::new();
    for i in 0..20u8 {
        attach_inbound(
            &mut reg,
            pid2(0xA0, i + 1),
            make_session(
                i as u64 + 1,
                addr_in_group(10, 0, 0, i + 1),
                false,
                ago(600 - i as u64 * 30),
            ),
        );
    }
    let config = EvictionConfig {
        post_handshake_grace_secs: 0,
        protect_useful_n: 0,
        protect_oldest_n: 8,
        protect_groups_n: 0,
        useful_protection_secs: 600,
    };
    let mut seen_victims = HashSet::new();
    for _ in 0..50 {
        let decision =
            reg.decide_inbound_eviction_utility(&pid(99), NEW_IP, None, 20, PER_IP, &config, NOW);
        if let EvictionDecision::Evict(v) = decision {
            seen_victims.insert(v.identity);
        }
    }
    assert!(!seen_victims.is_empty());
    for i in 0..8u8 {
        assert!(
            !seen_victims.contains(&pid2(0xA0, i + 1)),
            "peer {} (oldest rank {}) must be protected",
            i + 1,
            i
        );
    }
}

#[test]
fn eviction_protects_useful_n_peers() {
    let mut reg = PeerRegistry::new();
    let base_age = ago(120);
    for i in 0..20u8 {
        let useful = if i < 8 { Some(ago(30 + i as u64)) } else { None };
        attach_inbound_with(
            &mut reg,
            pid2(0xA0, i + 1),
            make_session(i as u64 + 1, addr_in_group(10, 0, 0, i + 1), false, base_age),
            useful,
        );
    }
    let config = EvictionConfig {
        post_handshake_grace_secs: 0,
        protect_useful_n: 8,
        protect_oldest_n: 0,
        protect_groups_n: 0,
        useful_protection_secs: 600,
    };
    let mut seen_victims = HashSet::new();
    for _ in 0..50 {
        let decision =
            reg.decide_inbound_eviction_utility(&pid(99), NEW_IP, None, 20, PER_IP, &config, NOW);
        if let EvictionDecision::Evict(v) = decision {
            seen_victims.insert(v.identity);
        }
    }
    assert!(!seen_victims.is_empty());
    for i in 0..8u8 {
        assert!(
            !seen_victims.contains(&pid2(0xA0, i + 1)),
            "useful-recent peer {} must be protected",
            i + 1
        );
    }
}

#[test]
fn eviction_protects_group_diversity_representatives() {
    let mut reg = PeerRegistry::new();
    let groups: [[u8; 2]; 5] = [[10, 0], [192, 168], [172, 16], [100, 64], [203, 0]];
    for (g_idx, g) in groups.iter().enumerate() {
        for i in 0..4u8 {
            attach_inbound(
                &mut reg,
                pid2(g[0], i),
                make_session(
                    (g_idx as u64) * 10 + i as u64,
                    addr_in_group(g[0], g[1], 0, i),
                    false,
                    ago(300 + (3 - i) as u64 * 30 + g_idx as u64 * 10),
                ),
            );
        }
    }
    let config = EvictionConfig {
        post_handshake_grace_secs: 0,
        protect_useful_n: 0,
        protect_oldest_n: 0,
        protect_groups_n: 16,
        useful_protection_secs: 600,
    };
    let mut seen_victims = HashSet::new();
    for _ in 0..50 {
        let decision =
            reg.decide_inbound_eviction_utility(&pid(99), NEW_IP, None, 20, PER_IP, &config, NOW);
        if let EvictionDecision::Evict(v) = decision {
            seen_victims.insert(v.identity);
        }
    }
    assert!(!seen_victims.is_empty());
    for g in groups.iter() {
        assert!(
            !seen_victims.contains(&pid2(g[0], 0)),
            "group {:?}'s oldest member must be protected",
            g
        );
    }
}

#[test]
fn eviction_falls_back_gracefully_when_all_peers_protected() {
    let mut reg = PeerRegistry::new();
    for i in 1..=5u8 {
        attach_inbound(
            &mut reg,
            pid(i),
            make_session(i as u64, addr_in_group(10, 0, 0, i), false, ago(5)),
        );
    }
    let config = EvictionConfig {
        post_handshake_grace_secs: 15,
        protect_useful_n: 0,
        protect_oldest_n: 0,
        protect_groups_n: 0,
        useful_protection_secs: 600,
    };
    let decision =
        reg.decide_inbound_eviction_utility(&pid(99), NEW_IP, None, 5, PER_IP, &config, NOW);
    assert!(
        matches!(decision, EvictionDecision::NoEligibleCandidates),
        "expected NoEligibleCandidates, got {:?}",
        decision
    );
}

#[test]
fn eviction_respects_active_ibd_peer_protection() {
    let mut reg = PeerRegistry::new();
    let base_age = ago(120);
    attach_inbound(&mut reg, pid(1), make_session(100, addr_in_group(10, 0, 0, 1), false, base_age));
    for i in 2..=5u8 {
        attach_inbound(
            &mut reg,
            pid(i),
            make_session(i as u64, addr_in_group(10, 0, 0, i), false, base_age),
        );
    }
    for _ in 0..50 {
        let decision = reg.decide_inbound_eviction_utility(
            &pid(99),
            NEW_IP,
            Some((pid(1), 100)),
            5,
            PER_IP,
            &test_config_no_protection(),
            NOW,
        );
        if let EvictionDecision::Evict(v) = decision {
            assert_ne!(v.identity, pid(1), "IBD peer must be protected");
        }
    }
}

#[test]
fn eviction_under_high_churn_does_not_thrash_the_pool() {
    let mut reg = PeerRegistry::new();
    for i in 0..20u8 {
        attach_inbound(
            &mut reg,
            pid2(0xA0, i + 1),
            make_session(
                i as u64 + 1,
                addr_in_group(10, 0, 0, i + 1),
                false,
                ago(30 + i as u64 * 20),
            ),
        );
    }
    let config = live_config();
    let mut session_id_counter: u64 = 1000;
    for iter in 0..100u32 {
        let g1 = 50 + (iter % 5) as u8;
        let g2 = (iter % 256) as u8;
        let new_peer_ip = IpAddr::V4([g1, g2, 0, (iter % 256) as u8]);
        let new_identity = pid2(0xF0, iter as u8);
        let decision = reg.decide_inbound_eviction_utility(
            &new_identity,
            new_peer_ip,
            None,
            20,
            PER_IP,
            &config,
            NOW,
        );
        if let EvictionDecision::Evict(victim) = decision {
            reg.detach_session_if_current(victim.identity, victim.session_id);
            session_id_counter += 1;
            attach_inbound(
                &mut reg,
                new_identity,
                make_session(
                    session_id_counter,
                    SocketAddr { ip: new_peer_ip, port: 8333 },
                    false,
                    NOW,
                ),
            );
        }
    }
    for i in 12..20u8 {
        let identity = pid2(0xA0, i + 1);
        assert!(
            reg.by_identity.get(&identity).is_some_and(|lp| lp.session.is_some()),
            "oldest-rank peer {} must survive churn",
            i + 1
        );
    }
}

#[test]
fn eviction_colonization_resistance_against_single_operator_fleet() {
    let mut reg = PeerRegistry::new();
    let base_age = ago(300);
    for i in 0..8u8 {
        attach_inbound(
            &mut reg,
            pid2(0xAA, i),
            make_session(i as u64, addr_in_group(192, 168, 0, i), false, base_age),
        );
    }
    for i in 0..8u8 {
        attach_inbound(
            &mut reg,
            pid2(0xBB, i),
            make_session(100 + i as u64, addr_in_group(10 + i, 0, 0, 1), false, base_age),
        );
    }
    let config = live_config();
    let mut session_id_counter: u64 = 1000;
    for iter in 0..100u32 {
        let new_peer_ip = IpAddr::V4([192, 168, 100, iter as u8]);
        let new_identity = pid2(0xAF, iter as u8);
        let decision = reg.decide_inbound_eviction_utility(
            &new_identity,
            new_peer_ip,
            None,
            16,
            PER_IP,
            &config,
            NOW,
        );
        if let EvictionDecision::Evict(victim) = decision {
            reg.detach_session_if_current(victim.identity, victim.session_id);
            session_id_counter += 1;
            attach_inbound(
                &mut reg,
                new_identity,
                make_session(
                    session_id_counter,
                    SocketAddr { ip: new_peer_ip, port: 8333 },
                    false,
                    NOW,
                ),
            );
        }
    }
    let surviving_diverse: usize = (0..8u8)
        .filter(|i| {
            reg.by_identity.get(&pid2(0xBB, *i)).is_some_and(|lp| lp.session.is_some())
        })
        .count();
    assert!(
        surviving_diverse >= 4,
        "at least half the diverse peers must survive; got {}/8",
        surviving_diverse
    );
}

#[test]
fn useful_credit_requires_explicit_mark() {
    let mut reg = PeerRegistry::new();
    let identity = pid(1);
    let addr = addr_in_group(10, 0, 0, 1);
    let session_id = 42u64;
    attach_inbound(&mut reg, identity, make_session(session_id, addr, false, NOW));
    assert!(reg
        .by_identity
        .get(&identity)
        .and_then(|lp| lp.last_useful_message_at)
        .is_none());
    let _ = reg.inbound_count();
    reg.detach_session_if_current(identity, 99999);
    assert!(reg
        .by_identity
        .get(&identity)
        .and_then(|lp| lp.last_useful_message_at)
        .is_none());
    reg.mark_useful_message(&identity, session_id, NOW);
    assert!(reg
        .by_identity
        .get(&identity)
        .and_then(|lp| lp.last_useful_message_at)
        .is_some());
}

#[test]
fn mark_useful_message_rejects_stale_session_id() {
    let mut reg = PeerRegistry::new();
    let identity = pid(1);
    let addr = addr_in_group(10, 0, 0, 1);
    let old_session_id = 100u64;
    let new_session_id = 101u64;
    attach_inbound(&mut reg, identity, make_session(old_session_id, addr, false, NOW));
    reg.mark_useful_message(&identity, old_session_id, NOW);
    assert!(reg
        .by_identity
        .get(&identity)
        .and_then(|lp| lp.last_useful_message_at)
        .is_some());
    if let Some(lp) = reg.by_identity.get_mut(&identity) {
        lp.session = Some(make_session(new_session_id, addr, false, NOW));
        lp.last_useful_message_at = None;
    }
    reg.mark_useful_message(&identity, old_session_id, NOW);
    assert!(reg
        .by_identity
        .get(&identity)
        .and_then(|lp| lp.last_useful_message_at)
        .is_none());
    reg.mark_useful_message(&identity, new_session_id, NOW);
    assert!(reg
        .by_identity
        .get(&identity)
        .and_then(|lp| lp.last_useful_message_at)
        .is_some());
}

#[test]
fn eviction_is_not_needed_below_the_cap() {
    let mut reg = PeerRegistry::new();
    attach_inbound(&mut reg, pid(1), make_session(1, addr_in_group(10, 0, 0, 1), false, ago(60)));
    let d = reg.decide_inbound_eviction_utility(
        &pid(2),
        NEW_IP,
        None,
        2,
        PER_IP,
        &test_config_no_protection(),
        NOW,
    );
    assert!(matches!(d, EvictionDecision::NotNeeded));
}

#[test]
fn eviction_refuses_a_crowded_address() {
    let mut reg = PeerRegistry::new();
    for i in 1..=3u8 {
        let mut addr = addr_in_group(8, 8, 8, 8);
        addr.port = i as u16;
        attach_inbound(&mut reg, pid(i), make_session(i as u64, addr, false, ago(60)));
    }
    assert_eq!(reg.inbound_count_for_ip(NEW_IP), 3);
    let d = reg.decide_inbound_eviction_utility(
        &pid(9),
        NEW_IP,
        None,
        3,
        PER_IP,
        &test_config_no_protection(),
        NOW,
    );
    assert!(matches!(d, EvictionDecision::IpCapReached), "{:?}", d);
}

#[test]
fn eviction_refuses_a_known_identity() {
    let mut reg = PeerRegistry::new();
    attach_inbound(&mut reg, pid(1), make_session(1, addr_in_group(10, 0, 0, 1), false, ago(60)));
    let d = reg.decide_inbound_eviction_utility(
        &pid(1),
        NEW_IP,
        None,
        1,
        PER_IP,
        &test_config_no_protection(),
        NOW,
    );
    assert!(matches!(d, EvictionDecision::DuplicateIdentity), "{:?}", d);
}

#[test]
fn network_groups_of_addresses() {
    assert_eq!(
        NetworkGroup::from_ip(IpAddr::V4([10, 20, 30, 40])),
        NetworkGroup::Ipv4Slash16([10, 20])
    );
    assert_eq!(NetworkGroup::from_ip(IpAddr::V4([127, 0, 0, 1])), NetworkGroup::Loopback);
    let mut v6 = [0u8; 16];
    v6[15] = 1;
    assert_eq!(NetworkGroup::from_ip(IpAddr::V6(v6)), NetworkGroup::Loopback);
    let mut v6 = [0u8; 16];
    v6[0] = 0x20;
    v6[1] = 0x01;
    v6[2] = 0x0d;
    v6[3] = 0xb8;
    v6[9] = 7;
    assert_eq!(
        NetworkGroup::from_ip(IpAddr::V6(v6)),
        NetworkGroup::Ipv6Slash32([0x20, 0x01, 0x0d, 0xb8])
    );
}

fn tip(height: u64) -> PeerTip {
    PeerTip { height, cumulative_work: [0u8; 32], block_id: Hash256::zero(), confirmed: false }
}

#[test]
fn attach_and_detach_a_session() {
    let mut reg = PeerRegistry::new();
    let a = addr_in_group(10, 0, 0, 1);
    let r = reg.attach_session(
        pid(1),
        make_session(1, a, false, NOW),
        tip(5),
        None,
        false,
        pid(77),
        None,
        false,
        NOW,
    );
    assert_eq!(r, SessionAttachResult::NewLogicalConnect);
    assert!(reg.has_identity(&pid(1)));
    assert!(reg.is_connected_socket(&a));
    assert_eq!(reg.inbound_count(), 1);
    assert_eq!(reg.outbound_count(), 0);
    assert!(!reg.detach_session_if_current(pid(1), 2));
    assert!(reg.is_connected_socket(&a));
    assert!(reg.detach_session_if_current(pid(1), 1));
    assert!(!reg.is_connected_socket(&a));
    assert_eq!(reg.inbound_count(), 0);
}

#[test]
fn sockets_are_reserved_once() {
    let mut reg = PeerRegistry::new();
    let a = addr_in_group(10, 0, 0, 1);
    assert!(reg.reserve_inbound_socket(a));
    assert!(!reg.reserve_inbound_socket(a));
    reg.release_inbound_socket(&a);
    assert!(reg.reserve_inbound_socket(a));
    // An address that is spoken for is not dialed either.
    assert!(!reg.reserve_outbound_addr(a));
    let b = addr_in_group(10, 0, 0, 2);
    assert!(reg.reserve_outbound_addr(b));
    assert!(!reg.reserve_outbound_addr(b));
    reg.release_outbound_addr(&b);
    assert!(reg.reserve_outbound_addr(b));
}

#[test]
fn backoff_doubles_up_to_its_cap() {
    let mut r = RetryState { backoff_secs: 5, next_attempt_at: 0 };
    let mut seen = Vec::new();
    for _ in 0..8 {
        r.bump(NOW);
        seen.push(r.backoff_secs);
        assert_eq!(r.next_attempt_at, NOW + r.backoff_secs * SECOND);
    }
    assert_eq!(seen, [10, 20, 40, 80, 160, 300, 300, 300]);
    r.reset(NOW);
    assert_eq!(r.backoff_secs, 5);
    assert_eq!(r.next_attempt_at, NOW);
}
