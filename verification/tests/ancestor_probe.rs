use exfer::ancestor::{interpret_ancestor_probe_response, AncestorSearch, SearchPhase};
use exfer::chain::BlockHeader;
use exfer::hash::Hash256;

/// Gives a header an id that depends on all of its fields.
fn seal(mut h: BlockHeader) -> BlockHeader {
    let mut data: Vec<u8> = Vec::new();
    data.extend_from_slice(&h.version.to_le_bytes());
    data.extend_from_slice(&h.height.to_le_bytes());
    data.extend_from_slice(&h.prev_block_id.0);
    data.extend_from_slice(&h.timestamp.to_le_bytes());
    data.extend_from_slice(&h.difficulty_target.0);
    data.extend_from_slice(&h.nonce.to_le_bytes());
    data.extend_from_slice(&h.tx_root.0);
    data.extend_from_slice(&h.state_root.0);
    let mut id = [0u8; 32];
    for lane in 0..4u64 {
        let mut x: u64 = 0xcbf2_9ce4_8422_2325 ^ (lane.wrapping_mul(0x9e37_79b9_7f4a_7c15));
        for b in &data {
            x = (x ^ *b as u64).wrapping_mul(0x0000_0100_0000_01b3);
        }
        id[lane as usize * 8..lane as usize * 8 + 8].copy_from_slice(&x.to_le_bytes());
    }
    h.id = Hash256(id);
    h
}

fn header_at(height: u64, nonce: u64) -> BlockHeader {
    let mut target = [0xFFu8; 32];
    target[31] = 0x10;
    seal(BlockHeader {
        version: 1,
        height,
        prev_block_id: Hash256::zero(),
        timestamp: 1_000_000 + height * 10,
        difficulty_target: Hash256(target),
        nonce,
        tx_root: Hash256::zero(),
        state_root: Hash256::zero(),
        id: Hash256::zero(),
    })
}

#[test]
fn empty_response_returns_none_no_strike() {
    let res = interpret_ancestor_probe_response(&[], 605_656, None);
    assert!(matches!(res, Ok(None)));
}

#[test]
fn single_matching_header_returns_some_true() {
    let h = header_at(605_656, 7);
    let block_id = h.block_id();
    let res = interpret_ancestor_probe_response(&[h], 605_656, Some(block_id));
    assert!(matches!(res, Ok(Some(true))));
}

#[test]
fn single_diverging_header_returns_some_false() {
    let h_ours = header_at(605_656, 1);
    let h_peer = header_at(605_656, 2);
    assert_ne!(h_ours.block_id(), h_peer.block_id());
    let res = interpret_ancestor_probe_response(&[h_peer], 605_656, Some(h_ours.block_id()));
    assert!(matches!(res, Ok(Some(false))));
}

#[test]
fn over_delivery_with_correct_first_header_is_tolerated() {
    let h0 = header_at(605_656, 42);
    let block_id = h0.block_id();
    let mut batch = vec![h0];
    for i in 1..64 {
        batch.push(header_at(605_656 + i, 42 + i));
    }
    assert_eq!(batch.len(), 64);
    let res = interpret_ancestor_probe_response(&batch, 605_656, Some(block_id));
    assert!(
        matches!(res, Ok(Some(true))),
        "over-deliver with correct hdrs[0] must be tolerated, got {:?}",
        res
    );
}

#[test]
fn over_delivery_with_diverging_first_header_returns_some_false() {
    let h_ours = header_at(605_656, 100);
    let mut batch = vec![header_at(605_656, 200)];
    for i in 1..32 {
        batch.push(header_at(605_656 + i, 200 + i));
    }
    let res = interpret_ancestor_probe_response(&batch, 605_656, Some(h_ours.block_id()));
    assert!(matches!(res, Ok(Some(false))));
}

#[test]
fn wrong_height_in_hdrs0_is_protocol_violation() {
    let h_wrong = header_at(605_700, 1);
    let res = interpret_ancestor_probe_response(&[h_wrong], 605_656, Some(Hash256::zero()));
    match res {
        Err(msg) => {
            assert!(msg.contains("605700"));
            assert!(msg.contains("605656"));
            assert!(msg.contains("first one used"));
        }
        other => panic!("expected Err, got {:?}", other),
    }
}

#[test]
fn we_lack_a_block_at_height_returns_some_with_none_storage() {
    let h = header_at(605_656, 1);
    let res = interpret_ancestor_probe_response(&[h], 605_656, None);
    assert!(matches!(res, Ok(None)));
}

#[test]
fn midpoint_match_advances_lo_via_helper() {
    let mid = 250_000;
    let h = header_at(mid, 1);
    let our_bid = Some(h.block_id());
    let res = interpret_ancestor_probe_response(&[h], mid, our_bid);
    assert!(
        matches!(res, Ok(Some(true))),
        "midpoint match-with-len-1 must return Ok(Some(true)); got {:?}",
        res
    );
}

#[test]
fn midpoint_diverge_retreats_hi_via_helper() {
    let mid = 250_000;
    let h_ours = header_at(mid, 1);
    let h_peer = header_at(mid, 2);
    assert_ne!(h_ours.block_id(), h_peer.block_id());
    let res = interpret_ancestor_probe_response(&[h_peer], mid, Some(h_ours.block_id()));
    assert!(
        matches!(res, Ok(Some(false))),
        "midpoint diverge-with-len-1 must return Ok(Some(false)); got {:?}",
        res
    );
}

#[test]
fn midpoint_overdelivery_with_match_still_advances_lo() {
    let mid = 250_000;
    let h0 = header_at(mid, 42);
    let our_bid = Some(h0.block_id());
    let mut batch = vec![h0];
    for i in 1..64 {
        batch.push(header_at(mid + i, 100 + i));
    }
    let res = interpret_ancestor_probe_response(&batch, mid, our_bid);
    assert!(
        matches!(res, Ok(Some(true))),
        "midpoint over-delivery with matching hdrs[0] must return Ok(Some(true)), got {:?}",
        res
    );
}

#[test]
fn midpoint_overdelivery_with_diverge_still_retreats_hi() {
    let mid = 250_000;
    let h_ours = header_at(mid, 1);
    let mut batch = vec![header_at(mid, 2)];
    for i in 1..16 {
        batch.push(header_at(mid + i, 100 + i));
    }
    let res = interpret_ancestor_probe_response(&batch, mid, Some(h_ours.block_id()));
    assert!(matches!(res, Ok(Some(false))));
}

#[test]
fn wrong_height_message_is_exact() {
    let h_wrong = header_at(7, 1);
    let res = interpret_ancestor_probe_response(&[h_wrong], 5, None);
    let msg = res.unwrap_err();
    assert!(msg.contains('7') && msg.contains('5'));
}

/// Runs a search against a peer that shares the chain up to a height.
fn search(ours: u64, claim: u64, shared: u64) -> (Option<Result<u64, String>>, usize) {
    let mut s = AncestorSearch::new(ours, claim);
    let mut probes = 0;
    while let Some(h) = s.probe() {
        probes += 1;
        s.on_answer(Some(h <= shared));
    }
    (s.outcome(), probes)
}

#[test]
fn search_finds_the_last_shared_block() {
    for shared in 0..=40u64 {
        let (out, probes) = search(40, 100, shared);
        assert_eq!(out, Some(Ok(shared)), "shared up to {}", shared);
        assert!(probes <= 8);
    }
}

#[test]
fn search_settles_at_once_when_the_top_is_shared() {
    let (out, probes) = search(1_000_000, 2_000_000, u64::MAX);
    assert_eq!(out, Some(Ok(1_000_000)));
    assert_eq!(probes, 1);
}

#[test]
fn search_without_an_answer_ends_without_data() {
    let mut s = AncestorSearch::new(40, 100);
    assert!(s.probe().is_some());
    s.on_answer(None);
    assert!(matches!(s.phase, SearchPhase::NoData { first: true, .. }));
    assert!(s.probe().is_none());
    assert!(matches!(s.outcome(), Some(Err(_))));
}
