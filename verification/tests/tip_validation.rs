use exfer::chain::{BlockHeader, Checkpoint};
use exfer::clock::SECOND;
use exfer::events::Message;
use exfer::hash::{Hash256, PeerId};
use exfer::net::IpAddr;
use exfer::subscribers::{
    install_headers_subscriber, next_header_batch, remove_headers_subscriber,
    route_headers_if_subscribed, BatchWait, HeadersSubscriberMap, SUBSCRIBER_CAPACITY,
};
use exfer::tip_validation::{
    anchor_still_canonical, anchor_work, authenticate_prechckpt_headers, build_get_headers,
    compute_deadline, should_strike, sum_forward_work, summarize, validate_one_forward_header,
    PreValidatedHeaderCache, TipValidationCoordinator, TipValidationError, ValidationInputs,
    ValidationRegime, VerifiedTip, BOOTSTRAP_COORDINATOR_DEADLINE_SECS,
    TIP_VALIDATION_DEADLINE_FLOOR_SECS,
};
use exfer::tipcheck::{TipAction, TipCheck, TipCheckConfig, TipReply};
use exfer::work::{add_work, work_from_target, work_less};

const ASSUME_VALID_HEIGHT: u64 = 302_400;

const CORES: u32 = 4;

const NOW: u64 = 1_000_000 * SECOND;

/// Gives a header an id that depends on all of its fields.
fn seal(mut h: BlockHeader) -> BlockHeader {
    let mut data: Vec<u8> = Vec::new();
    data.extend_from_slice(&h.version.to_le_bytes());
    data.extend_from_slice(&h.height.to_le_bytes());
    data.extend_from_slice(&h.prev_block_id.0);
    data.extend_from_slice(&h.timestamp.to_le_bytes());
    data.extend_from_slice(&h.difficulty_target.0);
    data.extend_from_slice(&h.nonce.to_le_bytes());
    data.extend_from_slice(&h.tx_root.0);
    data.extend_from_slice(&h.state_root.0);
    let mut id = [0u8; 32];
    for lane in 0..4u64 {
        let mut x: u64 = 0xcbf2_9ce4_8422_2325 ^ (lane.wrapping_mul(0x9e37_79b9_7f4a_7c15));
        for b in &data {
            x = (x ^ *b as u64).wrapping_mul(0x0000_0100_0000_01b3);
        }
        id[lane as usize * 8..lane as usize * 8 + 8].copy_from_slice(&x.to_le_bytes());
    }
    h.id = Hash256(id);
    h
}

fn header(height: u64, prev_id: Hash256, target_last_byte: u8, nonce: u64) -> BlockHeader {
    let mut target = [0xFFu8; 32];
    target[31] = target_last_byte;
    seal(BlockHeader {
        version: 1,
        height,
        prev_block_id: prev_id,
        timestamp: 1_000_000 + height * 10,
        difficulty_target: Hash256(target),
        nonce,
        tx_root: Hash256::zero(),
        state_root: Hash256::zero(),
        id: Hash256::zero(),
    })
}

fn easy_header(height: u64, prev_id: Hash256) -> BlockHeader {
    header(height, prev_id, 0xFF, 0)
}

#[test]
fn authenticate_prechckpt_headers_accepts_valid_chain() {
    let h0 = header(1, Hash256::zero(), 0x10, 1);
    let h1 = header(2, h0.block_id(), 0x10, 1);
    let h2 = header(3, h1.block_id(), 0x10, 1);
    let anchor = header(4, h2.block_id(), 0x10, 1);
    let batch = vec![h2, h1, h0];
    let res = authenticate_prechckpt_headers(&anchor, &batch);
    assert!(res.is_ok(), "valid chain should authenticate: {:?}", res);
}

#[test]
fn authenticate_prechckpt_headers_rejects_forged_chain() {
    let h0 = header(1, Hash256::zero(), 0x10, 1);
    let h1 = header(2, h0.block_id(), 0x10, 1);
    let h2 = header(3, h1.block_id(), 0x10, 1);
    let anchor = header(4, h2.block_id(), 0x10, 1);
    let mut h1_bad = h1;
    h1_bad.prev_block_id = Hash256([0xdeu8; 32]);
    let h1_bad = seal(h1_bad);
    let batch = vec![h2, h1_bad, h0];
    let res = authenticate_prechckpt_headers(&anchor, &batch);
    assert!(
        matches!(res, Err(TipValidationError::DeliveredInvalidHeader(_))),
        "forged chain must be rejected: {:?}",
        res
    );
}

#[test]
fn authenticate_prechckpt_headers_rejects_wrong_root() {
    let h0 = header(1, Hash256::zero(), 0x10, 1);
    let h1 = header(2, h0.block_id(), 0x10, 1);
    let anchor = header(3, Hash256([0xffu8; 32]), 0x10, 1);
    let batch = vec![h1, h0];
    let res = authenticate_prechckpt_headers(&anchor, &batch);
    assert!(matches!(res, Err(TipValidationError::DeliveredInvalidHeader(_))));
}

#[test]
fn compute_deadline_scales_with_work() {
    let d_small = compute_deadline(100, ValidationRegime::Bootstrap, CORES);
    assert!(
        d_small >= BOOTSTRAP_COORDINATOR_DEADLINE_SECS,
        "bootstrap deadline must respect BOOTSTRAP_COORDINATOR_DEADLINE_SECS floor"
    );
    assert!(
        d_small < TIP_VALIDATION_DEADLINE_FLOOR_SECS,
        "bootstrap deadline for small load must NOT inherit the 7200s steady-state floor"
    );
    let d_large = compute_deadline(1_000_000_000, ValidationRegime::Bootstrap, CORES);
    assert!(d_large > d_small);
    let d_steady = compute_deadline(100, ValidationRegime::SteadyState, CORES);
    assert!(d_steady >= TIP_VALIDATION_DEADLINE_FLOOR_SECS);
}

#[test]
fn should_strike_narrow_policy() {
    assert!(should_strike(&Err(TipValidationError::DeliveredInvalidHeader("x".into()))));
    assert!(!should_strike(&Err(TipValidationError::FetchTimeout)));
    assert!(!should_strike(&Err(TipValidationError::DeadlineExceeded)));
    assert!(!should_strike(&Err(TipValidationError::AnchorOrphaned)));
    assert!(!should_strike(&Err(TipValidationError::PeerDisconnected)));
    assert!(!should_strike(&Err(TipValidationError::BootstrapStalled)));
    assert!(!should_strike(&Ok(VerifiedTip {
        height: 0,
        block_id: Hash256::zero(),
        verified_cumulative_work: [0u8; 32],
        anchor_height: 0,
        anchor_block_id: Hash256::zero(),
        headers_validated: 0,
    })));
}

#[test]
fn validation_regime_selection() {
    assert_eq!(ValidationRegime::select(0, true), ValidationRegime::Bootstrap);
    assert_eq!(ValidationRegime::select(0, false), ValidationRegime::Bootstrap);
    assert_eq!(ValidationRegime::select(1, true), ValidationRegime::SteadyState);
    assert_eq!(
        ValidationRegime::select(ASSUME_VALID_HEIGHT - 1, true),
        ValidationRegime::SteadyState
    );
    assert_eq!(
        ValidationRegime::select(ASSUME_VALID_HEIGHT, true),
        ValidationRegime::SteadyState
    );
    assert_eq!(
        ValidationRegime::select(ASSUME_VALID_HEIGHT + 100, true),
        ValidationRegime::SteadyState
    );
    assert_eq!(ValidationRegime::select(1, false), ValidationRegime::SteadyState);
    assert_eq!(
        ValidationRegime::select(ASSUME_VALID_HEIGHT - 1, false),
        ValidationRegime::SteadyState
    );
    assert_eq!(
        ValidationRegime::select(ASSUME_VALID_HEIGHT + 100, false),
        ValidationRegime::SteadyState
    );
}

#[test]
fn validation_regime_unstuck_after_assume_valid_height_bump() {
    let h_local = ASSUME_VALID_HEIGHT.saturating_sub(50_000);
    assert!(h_local > 0, "ASSUME_VALID_HEIGHT too small to model the bump");
    assert_eq!(
        ValidationRegime::select(h_local, true),
        ValidationRegime::SteadyState,
        "a local tip below the checkpoint must run under the SteadyState deadline"
    );
}

#[test]
fn pre_validated_cache_strict_block_id_match() {
    let mut cache = PreValidatedHeaderCache::new();
    let peer: PeerId = [1u8; 32];
    let h = header(42, Hash256::zero(), 0xAB, 7);
    let id = h.block_id();
    cache.insert(peer, h);
    assert!(cache.lookup(&peer, &id).is_some());
    let mut other = h;
    other.nonce = 8;
    let other_id = seal(other).block_id();
    assert_ne!(id, other_id);
    assert!(cache.lookup(&peer, &other_id).is_none());
}

#[test]
fn sum_forward_work_additive() {
    let h1 = header(1, Hash256::zero(), 0x10, 1);
    let h2 = header(2, h1.block_id(), 0x10, 1);
    let anchor_work_v = [0u8; 32];
    let sum = sum_forward_work(anchor_work_v, &[h1, h2]);
    let expected = {
        let mut acc = anchor_work_v;
        acc = add_work(&acc, &work_from_target(&h1.difficulty_target));
        acc = add_work(&acc, &work_from_target(&h2.difficulty_target));
        acc
    };
    assert_eq!(sum, expected);
}

#[test]
fn forward_validation_rejects_wrong_prev_block_id() {
    let anchor = easy_header(0, Hash256::zero());
    let bad = easy_header(1, Hash256([0xAB; 32]));
    let res = validate_one_forward_header(
        &anchor.block_id(),
        1,
        &bad,
        Ok(anchor.difficulty_target),
        Ok(true),
    );
    assert!(
        matches!(res, Err(TipValidationError::DeliveredInvalidHeader(_))),
        "wrong prev_block_id must be rejected: {:?}",
        res
    );
}

#[test]
fn forward_validation_rejects_wrong_height() {
    let anchor = easy_header(5, Hash256::zero());
    let bad = easy_header(7, anchor.block_id());
    let res = validate_one_forward_header(
        &anchor.block_id(),
        6,
        &bad,
        Ok(anchor.difficulty_target),
        Ok(true),
    );
    assert!(matches!(res, Err(TipValidationError::DeliveredInvalidHeader(_))));
}

#[test]
fn forward_validation_rejects_wrong_difficulty_target() {
    let anchor = easy_header(1, Hash256::zero());
    let mut bad = easy_header(2, anchor.block_id());
    let mut off_target = [0xFFu8; 32];
    off_target[31] = 0x00;
    bad.difficulty_target = Hash256(off_target);
    let bad = seal(bad);
    let res = validate_one_forward_header(
        &anchor.block_id(),
        2,
        &bad,
        Ok(anchor.difficulty_target),
        Ok(true),
    );
    assert!(
        matches!(&res, Err(TipValidationError::DeliveredInvalidHeader(m)) if m.contains("difficulty_target")),
        "wrong difficulty_target must be rejected: {:?}",
        res
    );
}

#[test]
fn forward_validation_accepts_exact_match() {
    let anchor = easy_header(1, Hash256::zero());
    let good = easy_header(2, anchor.block_id());
    assert_eq!(good.difficulty_target, anchor.difficulty_target);
    let res = validate_one_forward_header(
        &anchor.block_id(),
        2,
        &good,
        Ok(anchor.difficulty_target),
        Ok(true),
    );
    assert!(res.is_ok(), "exact-match header should accept: {:?}", res);
}

#[test]
fn forward_validation_rejects_a_bad_proof_of_work() {
    let anchor = easy_header(1, Hash256::zero());
    let h = easy_header(2, anchor.block_id());
    let t = anchor.difficulty_target;
    let res = validate_one_forward_header(&anchor.block_id(), 2, &h, Ok(t), Ok(false));
    assert!(matches!(res, Err(TipValidationError::DeliveredInvalidHeader(_))));
    let res =
        validate_one_forward_header(&anchor.block_id(), 2, &h, Ok(t), Err("argon".to_string()));
    assert!(res.is_err());
    let res =
        validate_one_forward_header(&anchor.block_id(), 2, &h, Err("lost".to_string()), Ok(true));
    assert!(matches!(res, Err(TipValidationError::Internal(_))), "{:?}", res);
}

#[test]
fn verified_cumulative_work_overwrites_peer_supplied() {
    let anchor_work = [0u8; 32];
    let h1 = easy_header(1, Hash256::zero());
    let h2 = easy_header(2, h1.block_id());
    let verified = sum_forward_work(anchor_work, &[h1, h2]);
    let peer_claim = [0xFFu8; 32];
    assert!(verified < peer_claim);
    let w1 = work_from_target(&h1.difficulty_target);
    let w2 = work_from_target(&h2.difficulty_target);
    let expected = add_work(&add_work(&anchor_work, &w1), &w2);
    assert_eq!(verified, expected);
}

#[test]
fn pre_validated_cache_per_peer_isolation() {
    let mut cache = PreValidatedHeaderCache::new();
    let peer_a: PeerId = [1u8; 32];
    let peer_b: PeerId = [2u8; 32];
    let h = easy_header(42, Hash256::zero());
    let id = h.block_id();
    cache.insert(peer_a, h);
    assert!(cache.lookup(&peer_a, &id).is_some());
    assert!(cache.lookup(&peer_b, &id).is_none());
    assert!(cache.lookup_any(&id).is_some());
}

#[test]
fn pre_validated_cache_clear_peer_removes_entries() {
    let mut cache = PreValidatedHeaderCache::new();
    let peer: PeerId = [3u8; 32];
    let h1 = easy_header(1, Hash256::zero());
    let h2 = easy_header(2, h1.block_id());
    cache.insert(peer, h1);
    cache.insert(peer, h2);
    assert_eq!(cache.len_for(&peer), 2);
    assert_eq!(cache.total_len(), 2);
    cache.clear_peer(&peer);
    assert_eq!(cache.len_for(&peer), 0);
    assert!(cache.lookup(&peer, &h1.block_id()).is_none());
}

#[test]
fn is_active_returns_true_after_reserve_and_false_after_release() {
    let mut coord = TipValidationCoordinator::new();
    let peer: PeerId = [0xAAu8; 32];
    let sid: u64 = 42;
    assert!(!coord.is_active(peer, sid), "fresh coord must be inactive");
    let reserved = coord.try_reserve(peer, sid);
    assert!(reserved, "first reserve returns true");
    assert!(coord.is_active(peer, sid), "after reserve, is_active true");
    assert!(!coord.is_active(peer, sid + 1), "different sid is separate");
    let other: PeerId = [0xBBu8; 32];
    assert!(!coord.is_active(other, sid), "different peer is separate");
    coord.release_reservation(peer, sid);
    assert!(!coord.is_active(peer, sid), "after release, is_active false");
    coord.release_reservation(peer, sid);
    assert!(!coord.is_active(peer, sid), "double-release still false");
}

#[test]
fn try_reserve_is_idempotent_while_held() {
    let mut coord = TipValidationCoordinator::new();
    let peer: PeerId = [0xCCu8; 32];
    let sid: u64 = 1;
    assert!(coord.try_reserve(peer, sid));
    assert!(!coord.try_reserve(peer, sid));
    assert!(coord.is_active(peer, sid));
}

#[test]
fn slots_run_out_and_come_back() {
    let mut coord = TipValidationCoordinator::new();
    assert!(coord.try_acquire_slot(ValidationRegime::Bootstrap));
    assert!(!coord.try_acquire_slot(ValidationRegime::Bootstrap));
    for _ in 0..ValidationRegime::SteadyState.max_concurrent() {
        assert!(coord.try_acquire_slot(ValidationRegime::SteadyState));
    }
    assert!(!coord.try_acquire_slot(ValidationRegime::SteadyState));
    coord.release_slot(ValidationRegime::Bootstrap);
    assert!(coord.try_acquire_slot(ValidationRegime::Bootstrap));
}

#[test]
fn work_of_targets() {
    // The easiest target takes one try.
    let mut one = [0u8; 32];
    one[31] = 1;
    assert_eq!(work_from_target(&Hash256([0xff; 32])), one);
    // Half the targets, two tries.
    let mut half = [0xffu8; 32];
    half[0] = 0x7f;
    let mut two = [0u8; 32];
    two[31] = 2;
    assert_eq!(work_from_target(&Hash256(half)), two);
    assert!(work_less(&one, &two));
    assert!(!work_less(&two, &one));
    assert!(!work_less(&one, &one));
    assert_eq!(add_work(&one, &one), two);
    // Sums carry.
    let mut low = [0u8; 32];
    low[31] = 0xff;
    let mut carried = [0u8; 32];
    carried[30] = 1;
    assert_eq!(add_work(&low, &one), carried);
}

#[test]
fn anchor_work_comes_from_storage_or_the_checkpoint() {
    let c = Checkpoint { height: 9, hash: Hash256([1; 32]), cumulative_work: [3u8; 32] };
    let id = Hash256([2; 32]);
    assert_eq!(anchor_work(Ok(Some([8u8; 32])), &id, false, true, &c).unwrap(), [8u8; 32]);
    assert_eq!(anchor_work(Ok(None), &id, true, true, &c).unwrap(), [3u8; 32]);
    assert!(matches!(
        anchor_work(Ok(Some([8u8; 32])), &id, true, false, &c),
        Err(TipValidationError::Internal(_))
    ));
    assert!(matches!(
        anchor_work(Ok(None), &id, false, true, &c),
        Err(TipValidationError::Internal(m)) if m.contains("not found")
    ));
    assert!(matches!(
        anchor_work(Err("io".to_string()), &id, false, true, &c),
        Err(TipValidationError::Internal(m)) if m == "get_cumulative_work: io"
    ));
    assert!(anchor_still_canonical(Some(id), &id));
    assert!(!anchor_still_canonical(None, &id));
    assert!(!anchor_still_canonical(Some(Hash256::zero()), &id));
}

#[test]
fn get_headers_message() {
    match build_get_headers(12, 34) {
        Message::GetHeaders(m) => {
            assert_eq!(m.start_height, 12);
            assert_eq!(m.max_count, 34);
        }
        _ => panic!("expected GetHeaders"),
    }
}

#[test]
fn summaries() {
    let s = summarize(&Ok(VerifiedTip {
        height: 12,
        block_id: Hash256([0xab; 32]),
        verified_cumulative_work: [0u8; 32],
        anchor_height: 3,
        anchor_block_id: Hash256::zero(),
        headers_validated: 9,
    }));
    assert_eq!(
        s,
        "verified tip height=12 block_id=[171, 171, 171, 171] forward_headers=9 anchor_height=3"
    );
    let s = summarize(&Err(TipValidationError::FetchTimeout));
    assert!(s.starts_with("failed: "));
}

#[test]
fn headers_reach_their_subscriber_only() {
    let mut map = HeadersSubscriberMap::new();
    let a: PeerId = [1u8; 32];
    let b: PeerId = [2u8; 32];
    assert!(!route_headers_if_subscribed(&mut map, a, 1, Vec::new()));
    install_headers_subscriber(&mut map, a, 1);
    assert!(!route_headers_if_subscribed(&mut map, a, 2, Vec::new()));
    assert!(!route_headers_if_subscribed(&mut map, b, 1, Vec::new()));
    assert!(matches!(next_header_batch(&mut map, a, 1), BatchWait::Empty));
    let h = easy_header(1, Hash256::zero());
    assert!(route_headers_if_subscribed(&mut map, a, 1, vec![h]));
    assert!(route_headers_if_subscribed(&mut map, a, 1, vec![h, h]));
    assert!(matches!(next_header_batch(&mut map, a, 1), BatchWait::Batch(v) if v.len() == 1));
    assert!(matches!(next_header_batch(&mut map, a, 1), BatchWait::Batch(v) if v.len() == 2));
    remove_headers_subscriber(&mut map, a, 1);
    assert!(matches!(next_header_batch(&mut map, a, 1), BatchWait::Closed));
}

#[test]
fn a_full_box_drops_headers() {
    let mut map = HeadersSubscriberMap::new();
    let a: PeerId = [1u8; 32];
    install_headers_subscriber(&mut map, a, 1);
    for _ in 0..SUBSCRIBER_CAPACITY + 5 {
        assert!(route_headers_if_subscribed(&mut map, a, 1, Vec::new()));
    }
    let mut got = 0;
    while let BatchWait::Batch(_) = next_header_batch(&mut map, a, 1) {
        got += 1;
    }
    assert_eq!(got, SUBSCRIBER_CAPACITY);
}

fn chain_on(anchor: &BlockHeader, n: u64) -> Vec<BlockHeader> {
    let mut out = Vec::new();
    let mut prev = *anchor;
    for i in 0..n {
        prev = easy_header(anchor.height + 1 + i, prev.block_id());
        out.push(prev);
    }
    out
}

/// Validates a claim against a peer that serves `chain` on top of `anchor`.
fn validate(
    anchor: BlockHeader,
    chain: &[BlockHeader],
    claim_id: Hash256,
    pow_ok: bool,
) -> Result<VerifiedTip, TipValidationError> {
    let inputs = ValidationInputs {
        peer_identity: [1u8; 32],
        session_id: 1,
        peer_ip: IpAddr::V4([1, 2, 3, 4]),
        claim_height: anchor.height + chain.len() as u64,
        claim_block_id: claim_id,
        our_tip_height_at_start: anchor.height,
        assume_valid: true,
        assume_valid_cumulative_work_trusted: true,
    };
    let config = TipCheckConfig {
        checkpoint: Checkpoint { height: 1, hash: Hash256([9; 32]), cumulative_work: [0u8; 32] },
        stall_secs: 60,
        cores: CORES,
    };
    let mut check = TipCheck::new(inputs, config);
    for _ in 0..100_000 {
        match check.poll(NOW) {
            TipAction::TakeSlot => check.advance(TipReply::Slot(true), NOW),
            TipAction::FetchProbe { height } => {
                assert!(height <= anchor.height);
                check.advance(
                    TipReply::Probe { headers: vec![anchor], ours: Some(anchor.block_id()) },
                    NOW,
                )
            }
            TipAction::FetchHeaders { start_height, max_count } => {
                let from = (start_height - anchor.height - 1) as usize;
                let to = std::cmp::min(chain.len(), from + max_count as usize);
                check.advance(TipReply::Headers(chain[from..to].to_vec()), NOW)
            }
            TipAction::FindBlockAt { .. } => {
                check.advance(TipReply::BlockAt(Ok(Some(anchor.block_id()))), NOW)
            }
            TipAction::FindHeader { .. } => check.advance(TipReply::Header(Ok(Some(anchor))), NOW),
            TipAction::FindTarget { header } => {
                check.advance(TipReply::Target(Ok(header.difficulty_target)), NOW)
            }
            TipAction::CheckPow { .. } => check.advance(TipReply::Pow(Ok(pow_ok)), NOW),
            TipAction::FindWork { .. } => check.advance(
                TipReply::Work { stored: Ok(Some([0u8; 32])), trusted: true },
                NOW,
            ),
            TipAction::Finished => return check.outcome.unwrap(),
        }
    }
    panic!("the attempt does not end");
}

#[test]
fn a_true_claim_is_confirmed() {
    let anchor = easy_header(10, Hash256::zero());
    let chain = chain_on(&anchor, 150);
    let tip = validate(anchor, &chain, chain[149].block_id(), true).expect("confirmed");
    assert_eq!(tip.height, 160);
    assert_eq!(tip.block_id, chain[149].block_id());
    assert_eq!(tip.anchor_height, 10);
    assert_eq!(tip.headers_validated, 150);
    let mut work = [0u8; 32];
    work[31] = 150;
    assert_eq!(tip.verified_cumulative_work, work);
}

#[test]
fn a_claim_to_another_block_is_an_offence() {
    let anchor = easy_header(10, Hash256::zero());
    let chain = chain_on(&anchor, 3);
    let out = validate(anchor, &chain, Hash256([0x77; 32]), true);
    assert!(matches!(out, Err(TipValidationError::DeliveredInvalidHeader(_))), "{:?}", out);
    assert!(should_strike(&out));
}

#[test]
fn a_claim_without_work_is_an_offence() {
    let anchor = easy_header(10, Hash256::zero());
    let chain = chain_on(&anchor, 3);
    let out = validate(anchor, &chain, chain[2].block_id(), false);
    assert!(matches!(out, Err(TipValidationError::DeliveredInvalidHeader(_))), "{:?}", out);
}

#[test]
fn a_broken_chain_is_an_offence() {
    let anchor = easy_header(10, Hash256::zero());
    let mut chain = chain_on(&anchor, 5);
    chain[2].prev_block_id = Hash256([1; 32]);
    chain[2] = seal(chain[2]);
    let claim = chain[4].block_id();
    let out = validate(anchor, &chain, claim, true);
    assert!(matches!(out, Err(TipValidationError::DeliveredInvalidHeader(_))), "{:?}", out);
}

#[test]
fn an_anchor_that_is_gone_confirms_nothing() {
    let anchor = easy_header(10, Hash256::zero());
    let chain = chain_on(&anchor, 2);
    let mut check = TipCheck::new(inputs_for(12, chain[1].block_id(), 10), check_config());
    let mut lookups = 0;
    for _ in 0..1_000 {
        let reply = match check.poll(NOW) {
            TipAction::TakeSlot => TipReply::Slot(true),
            TipAction::FetchProbe { .. } => {
                TipReply::Probe { headers: vec![anchor], ours: Some(anchor.block_id()) }
            }
            TipAction::FetchHeaders { .. } => TipReply::Headers(chain.clone()),
            TipAction::FindBlockAt { height } => {
                assert_eq!(height, 10);
                lookups += 1;
                // A reorganisation comes between the two looks.
                let id = if lookups == 1 { anchor.block_id() } else { Hash256([0x66; 32]) };
                TipReply::BlockAt(Ok(Some(id)))
            }
            TipAction::FindHeader { .. } => TipReply::Header(Ok(Some(anchor))),
            TipAction::FindTarget { header } => TipReply::Target(Ok(header.difficulty_target)),
            TipAction::CheckPow { .. } => TipReply::Pow(Ok(true)),
            TipAction::FindWork { .. } => {
                TipReply::Work { stored: Ok(Some([0u8; 32])), trusted: true }
            }
            TipAction::Finished => break,
        };
        check.advance(reply, NOW);
    }
    assert_eq!(lookups, 2);
    assert!(matches!(check.outcome, Some(Err(TipValidationError::AnchorOrphaned))));
}

fn inputs_for(claim_height: u64, claim_block_id: Hash256, our_height: u64) -> ValidationInputs {
    ValidationInputs {
        peer_identity: [1u8; 32],
        session_id: 1,
        peer_ip: IpAddr::V4([1, 2, 3, 4]),
        claim_height,
        claim_block_id,
        our_tip_height_at_start: our_height,
        assume_valid: true,
        assume_valid_cumulative_work_trusted: true,
    }
}

fn check_config() -> TipCheckConfig {
    TipCheckConfig {
        checkpoint: Checkpoint { height: 1, hash: Hash256([9; 32]), cumulative_work: [0u8; 32] },
        stall_secs: 60,
        cores: CORES,
    }
}

#[test]
fn a_fresh_node_anchors_at_the_checkpoint() {
    let anchor = easy_header(1, Hash256::zero());
    let chain = chain_on(&anchor, 4);
    let mut work = [0u8; 32];
    work[31] = 7;
    let mut config = check_config();
    config.checkpoint =
        Checkpoint { height: 1, hash: anchor.block_id(), cumulative_work: work };
    for honest in [true, false] {
        let mut check = TipCheck::new(inputs_for(5, chain[3].block_id(), 0), config);
        for _ in 0..1_000 {
            let reply = match check.poll(NOW) {
                TipAction::TakeSlot => TipReply::Slot(true),
                TipAction::FetchHeaders { start_height: 1, max_count } => {
                    assert_eq!(max_count, 1);
                    let other = easy_header(1, Hash256([3; 32]));
                    TipReply::Headers(vec![if honest { anchor } else { other }])
                }
                TipAction::FetchHeaders { start_height, .. } => {
                    TipReply::Headers(chain[start_height as usize - 2..].to_vec())
                }
                TipAction::FindTarget { header } => TipReply::Target(Ok(header.difficulty_target)),
                TipAction::CheckPow { .. } => TipReply::Pow(Ok(true)),
                TipAction::FindWork { .. } => TipReply::Work { stored: Ok(None), trusted: true },
                TipAction::Finished => break,
                other => panic!("unexpected {:?}", other),
            };
            check.advance(reply, NOW);
        }
        match check.outcome.unwrap() {
            Ok(t) => {
                assert!(honest);
                assert_eq!(t.anchor_height, 1);
                let mut sum = [0u8; 32];
                sum[31] = 11;
                assert_eq!(t.verified_cumulative_work, sum);
            }
            Err(e) => {
                assert!(!honest);
                assert!(e.message().contains("ASSUME_VALID_HASH"), "{}", e.message());
            }
        }
    }
}

#[test]
fn attempts_run_out_of_time() {
    let anchor = easy_header(10, Hash256::zero());
    let chain = chain_on(&anchor, 2);
    let mut check = TipCheck::new(inputs_for(12, chain[1].block_id(), 0), check_config());
    assert!(matches!(check.poll(NOW), TipAction::TakeSlot));
    check.advance(TipReply::Slot(false), NOW);
    assert!(matches!(check.outcome, Some(Err(TipValidationError::NoSlotAvailable))));
    for (reply, silent) in [(TipReply::TimedOut, true), (TipReply::Disconnected, false)] {
        let mut check = TipCheck::new(inputs_for(12, chain[1].block_id(), 10), check_config());
        check.poll(NOW);
        check.advance(TipReply::Slot(true), NOW);
        check.poll(NOW);
        check.advance(reply, NOW);
        let out = check.outcome.unwrap();
        assert!(!should_strike(&out));
        assert_eq!(matches!(out, Err(TipValidationError::FetchTimeout)), silent);
    }
}

#[test]
fn headers_are_carried_only_from_a_confirmed_tip() {
    let anchor = easy_header(10, Hash256::zero());
    let chain = chain_on(&anchor, 3);
    for honest in [true, false] {
        let claim = if honest { chain[2].block_id() } else { Hash256([0x77; 32]) };
        let mut check = TipCheck::new(inputs_for(13, claim, 10), check_config());
        let mut cache = PreValidatedHeaderCache::new();
        let mut targets = 0;
        for _ in 0..1_000 {
            assert!(check.carried().is_empty() || check.outcome.is_some());
            let reply = match check.poll(NOW) {
                TipAction::TakeSlot => TipReply::Slot(true),
                TipAction::FetchProbe { .. } => {
                    TipReply::Probe { headers: vec![anchor], ours: Some(anchor.block_id()) }
                }
                TipAction::FetchHeaders { .. } => TipReply::Headers(chain.clone()),
                TipAction::FindBlockAt { .. } => TipReply::BlockAt(Ok(Some(anchor.block_id()))),
                TipAction::FindHeader { .. } => TipReply::Header(Ok(Some(anchor))),
                TipAction::FindTarget { header } => {
                    let over = check.overlay();
                    assert_eq!(over.len(), 1 + targets);
                    assert_eq!(over[0].block_id(), anchor.block_id());
                    assert_eq!(over[targets].block_id(), header.prev_block_id);
                    targets += 1;
                    TipReply::Target(Ok(header.difficulty_target))
                }
                TipAction::CheckPow { .. } => TipReply::Pow(Ok(true)),
                TipAction::FindWork { .. } => {
                    TipReply::Work { stored: Ok(Some([0u8; 32])), trusted: true }
                }
                TipAction::Finished => break,
            };
            check.advance(reply, NOW);
        }
        assert_eq!(targets, 3);
        cache.insert_all([1u8; 32], &check.carried());
        let kept = if honest { 3 } else { 0 };
        assert_eq!(check.carried().len(), kept);
        assert_eq!(cache.len_for(&[1u8; 32]), kept);
        assert_eq!(cache.total_len(), kept);
        assert_eq!(cache.lookup(&[1u8; 32], &chain[1].block_id()).is_some(), honest);
    }
}

#[test]
fn targets_above_the_checkpoint_rest_on_authenticated_headers() {
    let mut below = vec![easy_header(4_320, Hash256::zero())];
    for h in 4_321..8_639u64 {
        let parent = below[below.len() - 1].block_id();
        below.push(easy_header(h, parent));
    }
    let anchor = easy_header(8_639, below[below.len() - 1].block_id());
    let chain = chain_on(&anchor, 1);
    let mut config = check_config();
    config.checkpoint =
        Checkpoint { height: 8_639, hash: anchor.block_id(), cumulative_work: [0u8; 32] };
    for honest in [true, false] {
        if !honest {
            below[7].nonce += 1;
            below[7] = seal(below[7]);
        }
        let mut check = TipCheck::new(inputs_for(8_640, chain[0].block_id(), 0), config);
        let mut targets = 0;
        for _ in 0..1_000 {
            let reply = match check.poll(NOW) {
                TipAction::TakeSlot => TipReply::Slot(true),
                TipAction::FetchHeaders { start_height: 8_639, .. } => {
                    TipReply::Headers(vec![anchor])
                }
                TipAction::FetchHeaders { start_height: 8_640, .. } => {
                    TipReply::Headers(chain.clone())
                }
                TipAction::FetchHeaders { start_height, max_count } => {
                    let from = (start_height - 4_320) as usize;
                    let to = std::cmp::min(below.len(), from + max_count as usize);
                    TipReply::Headers(below[from..to].to_vec())
                }
                TipAction::FindTarget { header } => {
                    let over = check.overlay();
                    assert_eq!(over.len(), 4_320);
                    assert_eq!(over[0].height, 4_320);
                    assert_eq!(over[4_319].block_id(), anchor.block_id());
                    targets += 1;
                    TipReply::Target(Ok(header.difficulty_target))
                }
                TipAction::CheckPow { .. } => TipReply::Pow(Ok(true)),
                TipAction::FindWork { .. } => TipReply::Work { stored: Ok(None), trusted: true },
                TipAction::Finished => break,
                other => panic!("unexpected {:?}", other),
            };
            check.advance(reply, NOW);
        }
        assert_eq!(targets, if honest { 1 } else { 0 });
        assert_eq!(check.outcome.unwrap().is_ok(), honest);
    }
}

#[test]
fn headers_are_asked_for_by_the_batch_however_many_are_missing() {
    let anchor = easy_header(10, Hash256::zero());
    for (missing, count) in [(3u64, 3), (64, 64), (65, 64), (1 << 32, 64), ((1 << 32) + 3, 64)] {
        let inputs = inputs_for(10 + missing, Hash256([0x77; 32]), 10);
        let mut check = TipCheck::new(inputs, check_config());
        loop {
            let reply = match check.poll(NOW) {
                TipAction::TakeSlot => TipReply::Slot(true),
                TipAction::FetchProbe { .. } => {
                    TipReply::Probe { headers: vec![anchor], ours: Some(anchor.block_id()) }
                }
                TipAction::FindBlockAt { .. } => TipReply::BlockAt(Ok(Some(anchor.block_id()))),
                TipAction::FindHeader { .. } => TipReply::Header(Ok(Some(anchor))),
                TipAction::FetchHeaders { start_height, max_count } => {
                    assert_eq!((start_height, max_count), (11, count));
                    break;
                }
                other => panic!("unexpected {:?}", other),
            };
            check.advance(reply, NOW);
        }
    }
}
