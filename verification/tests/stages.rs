use exfer::chain::{Block, BlockHeader, ChainTip, Checkpoint, MAX_GETBLOCKS_ITEMS};
use exfer::clock::SECOND;
use exfer::events::Awaited;
use exfer::hash::Hash256;
use exfer::ibd::{
    after_ibd_block, check_batch, AncestorRecovery, BatchParent, IbdBlockKind, IbdNext, IbdRun,
    MAX_ANCESTOR_BYTES,
};
use exfer::errors::{ProcessBlockError, ProcessBlockOutcome};
use exfer::pacing::RateTracker;
use exfer::stages::{
    checks_clock, resume_tip, skips_pow, stage_a_batches, verify_stage_a_anchor,
    verify_stage_a_batch_linkage, StageAOutcome, StageARun, StageBRun, MAX_IN_FLIGHT,
};

const ASSUME_VALID_HEIGHT: u64 = 302_400;

const ASSUME_VALID_HASH: [u8; 32] = [0x5a; 32];

const NOW: u64 = 1_000_000 * SECOND;

fn checkpoint() -> Checkpoint {
    Checkpoint {
        height: ASSUME_VALID_HEIGHT,
        hash: Hash256(ASSUME_VALID_HASH),
        cumulative_work: [7u8; 32],
    }
}

/// Gives a header an id that depends on all of its fields.
fn seal(mut h: BlockHeader) -> BlockHeader {
    let mut data: Vec<u8> = Vec::new();
    data.extend_from_slice(&h.version.to_le_bytes());
    data.extend_from_slice(&h.height.to_le_bytes());
    data.extend_from_slice(&h.prev_block_id.0);
    data.extend_from_slice(&h.timestamp.to_le_bytes());
    data.extend_from_slice(&h.difficulty_target.0);
    data.extend_from_slice(&h.nonce.to_le_bytes());
    data.extend_from_slice(&h.tx_root.0);
    data.extend_from_slice(&h.state_root.0);
    let mut id = [0u8; 32];
    for lane in 0..4u64 {
        let mut x: u64 = 0xcbf2_9ce4_8422_2325 ^ (lane.wrapping_mul(0x9e37_79b9_7f4a_7c15));
        for b in &data {
            x = (x ^ *b as u64).wrapping_mul(0x0000_0100_0000_01b3);
        }
        id[lane as usize * 8..lane as usize * 8 + 8].copy_from_slice(&x.to_le_bytes());
    }
    h.id = Hash256(id);
    h
}

fn dummy_header(height: u64, prev_id: Hash256) -> BlockHeader {
    seal(BlockHeader {
        version: 1,
        height,
        prev_block_id: prev_id,
        timestamp: 1_700_000_000 + height,
        difficulty_target: Hash256([0xff; 32]),
        nonce: height,
        tx_root: Hash256([0u8; 32]),
        state_root: Hash256([0u8; 32]),
        id: Hash256([0u8; 32]),
    })
}

fn linked_chain(start_height: u64, len: usize, seed_prev: Hash256) -> Vec<BlockHeader> {
    let mut out = Vec::with_capacity(len);
    let mut prev = seed_prev;
    for i in 0..len {
        let h = dummy_header(start_height + i as u64, prev);
        prev = h.block_id();
        out.push(h);
    }
    out
}

#[test]
fn verify_stage_a_batch_linkage_accepts_valid_first_batch() {
    let batch = linked_chain(0, 64, Hash256([0u8; 32]));
    assert!(verify_stage_a_batch_linkage(&batch, None).is_ok());
}

#[test]
fn verify_stage_a_batch_linkage_accepts_valid_seam() {
    let first = linked_chain(0, 64, Hash256([0u8; 32]));
    let first_last_id = first.last().unwrap().block_id();
    let second = linked_chain(64, 64, first_last_id);
    assert!(verify_stage_a_batch_linkage(&second, first.last()).is_ok());
}

#[test]
fn verify_stage_a_batch_linkage_rejects_non_contiguous_heights() {
    let mut batch = linked_chain(0, 64, Hash256([0u8; 32]));
    batch[10].height = 999;
    batch[10] = seal(batch[10]);
    assert_eq!(
        verify_stage_a_batch_linkage(&batch, None),
        Err(StageAOutcome::DeliveredInvalidHeader),
    );
}

#[test]
fn verify_stage_a_batch_linkage_rejects_broken_intra_batch_link() {
    let mut batch = linked_chain(0, 64, Hash256([0u8; 32]));
    batch[6].prev_block_id = Hash256([0xaa; 32]);
    batch[6] = seal(batch[6]);
    assert_eq!(
        verify_stage_a_batch_linkage(&batch, None),
        Err(StageAOutcome::DeliveredInvalidHeader),
    );
}

#[test]
fn verify_stage_a_batch_linkage_rejects_broken_seam() {
    let first = linked_chain(0, 64, Hash256([0u8; 32]));
    let mut second = linked_chain(64, 64, Hash256([0u8; 32]));
    second[0].prev_block_id = Hash256([0xbb; 32]);
    second[0] = seal(second[0]);
    let mut prev = second[0].block_id();
    for h in &mut second[1..] {
        h.prev_block_id = prev;
        *h = seal(*h);
        prev = h.block_id();
    }
    assert_eq!(
        verify_stage_a_batch_linkage(&second, first.last()),
        Err(StageAOutcome::DeliveredInvalidHeader),
    );
}

#[test]
fn verify_stage_a_batch_linkage_accepts_single_header_batch() {
    let prev = linked_chain(302336, 64, Hash256([0u8; 32]));
    let prev_last = prev.last().unwrap();
    let anchor_batch = vec![dummy_header(302_400, prev_last.block_id())];
    assert!(verify_stage_a_batch_linkage(&anchor_batch, Some(prev_last)).is_ok());
}

#[test]
fn verify_stage_a_anchor_rejects_short_vector() {
    let headers = linked_chain(0, 10, Hash256([0u8; 32]));
    assert_eq!(
        verify_stage_a_anchor(&headers, &checkpoint()),
        Err(StageAOutcome::EmptyOrUncorrelatedResponse),
    );
}

#[test]
fn verify_stage_a_anchor_rejects_mismatched_anchor() {
    let anchor_hdr = dummy_header(ASSUME_VALID_HEIGHT, Hash256([0u8; 32]));
    assert_ne!(anchor_hdr.block_id(), Hash256(ASSUME_VALID_HASH));
    let mut headers: Vec<BlockHeader> = Vec::with_capacity((ASSUME_VALID_HEIGHT + 1) as usize);
    let filler = dummy_header(0, Hash256([0u8; 32]));
    for _ in 0..ASSUME_VALID_HEIGHT {
        headers.push(filler);
    }
    headers.push(anchor_hdr);
    assert_eq!(
        verify_stage_a_anchor(&headers, &checkpoint()),
        Err(StageAOutcome::DeliveredForgedChain),
    );
}

#[test]
fn verify_stage_a_anchor_accepts_the_checkpoint() {
    let headers = linked_chain(0, 11, Hash256([0u8; 32]));
    let c = Checkpoint { height: 10, hash: headers[10].block_id(), cumulative_work: [0u8; 32] };
    assert_eq!(verify_stage_a_anchor(&headers, &c), Ok(()));
}

#[test]
fn rate_tracker_accepts_under_ceiling_without_blocking() {
    let mut rt = RateTracker::new(14 * 1024 * 1024, 60 * SECOND);
    assert_eq!(rt.try_record(NOW, 1 * 1024 * 1024), None);
}

#[test]
fn rate_tracker_accumulates_current_bytes_within_window() {
    let mut rt = RateTracker::new(14 * 1024 * 1024, 60 * SECOND);
    assert_eq!(rt.current_bytes(), 0);
    assert_eq!(rt.try_record(NOW, 4 * 1024 * 1024), None);
    assert_eq!(rt.current_bytes(), 4 * 1024 * 1024);
    assert_eq!(rt.try_record(NOW, 3 * 1024 * 1024), None);
    assert_eq!(rt.current_bytes(), 7 * 1024 * 1024);
    assert_eq!(rt.try_record(NOW, 5 * 1024 * 1024), None);
    assert_eq!(rt.current_bytes(), 12 * 1024 * 1024);
}

#[test]
fn rate_tracker_holds_back_above_the_ceiling() {
    let mut rt = RateTracker::new(100, 60 * SECOND);
    assert_eq!(rt.try_record(NOW, 80), None);
    let wait = rt.try_record(NOW + SECOND, 30).expect("over the ceiling");
    assert_eq!(wait, 5 * SECOND);
    assert_eq!(rt.current_bytes(), 80);
    // When the window has passed there is room again.
    assert_eq!(rt.try_record(NOW + 61 * SECOND, 30), None);
    assert_eq!(rt.current_bytes(), 30);
}

#[test]
fn stage_a_n_matches_spec() {
    let n = stage_a_batches(ASSUME_VALID_HEIGHT);
    let expected_n = (ASSUME_VALID_HEIGHT + 1).div_ceil(MAX_GETBLOCKS_ITEMS as u64);
    assert_eq!(n, expected_n, "N must equal the ceil-div formula");
    let last_request_start = (n - 1) * MAX_GETBLOCKS_ITEMS as u64;
    let last_request_end_exclusive = last_request_start + MAX_GETBLOCKS_ITEMS as u64;
    assert!(
        last_request_start <= ASSUME_VALID_HEIGHT
            && last_request_end_exclusive > ASSUME_VALID_HEIGHT,
        "last request [{}, {}) must contain {}",
        last_request_start,
        last_request_end_exclusive,
        ASSUME_VALID_HEIGHT
    );
}

#[test]
fn stage_a_run_collects_a_chain() {
    let chain = linked_chain(0, 201, Hash256([0u8; 32]));
    let c = Checkpoint { height: 200, hash: chain[200].block_id(), cumulative_work: [0u8; 32] };
    let mut run = StageARun::new(&c, NOW);
    assert_eq!(run.total, 4);
    let mut starts = Vec::new();
    while let Some(start) = run.next_request() {
        starts.push(start);
        run.on_sent();
    }
    assert_eq!(starts, [0, 64, 128, 192]);
    for start in starts {
        let end = std::cmp::min(start as usize + 64, chain.len());
        assert_eq!(run.on_batch(chain[start as usize..end].to_vec(), NOW), Ok(()));
    }
    assert!(run.is_complete());
    let got = run.finish(&c).expect("authentic");
    assert_eq!(got.len(), 201);
}

#[test]
fn stage_a_run_limits_what_is_under_way() {
    let mut run = StageARun::new(&checkpoint(), NOW);
    let mut sent = 0;
    while run.next_request().is_some() {
        run.on_sent();
        sent += 1;
    }
    assert_eq!(sent, MAX_IN_FLIGHT);
}

#[test]
fn stage_a_run_gives_up() {
    let run = StageARun::new(&checkpoint(), NOW);
    assert_eq!(run.check(NOW, false, true), None);
    assert_eq!(run.check(NOW, false, false), Some(StageAOutcome::PeerDisconnected));
    assert_eq!(run.check(NOW + 121 * SECOND, false, true), Some(StageAOutcome::Timeout));
    assert!(StageAOutcome::DeliveredForgedChain.earns_strike());
    assert!(StageAOutcome::DeliveredInvalidHeader.earns_strike());
    assert!(!StageAOutcome::Timeout.earns_strike());
    assert!(!StageAOutcome::EmptyOrUncorrelatedResponse.earns_strike());
}

#[test]
fn stage_a_run_refuses_an_answer_to_something_else() {
    let chain = linked_chain(0, 201, Hash256([0u8; 32]));
    let mut run = StageARun::new(&checkpoint(), NOW);
    run.on_sent();
    assert_eq!(
        run.on_batch(Vec::new(), NOW),
        Err(StageAOutcome::EmptyOrUncorrelatedResponse)
    );
    let mut run = StageARun::new(&checkpoint(), NOW);
    run.on_sent();
    assert_eq!(
        run.on_batch(chain[64..128].to_vec(), NOW),
        Err(StageAOutcome::EmptyOrUncorrelatedResponse)
    );
}

#[test]
fn stage_b_run_covers_the_range() {
    let chain = linked_chain(0, 301, Hash256([0u8; 32]));
    let mut run = StageBRun::new(1, 300);
    let mut asked = 0;
    while let Ok(Some(ids)) = run.next_request(&chain, 64) {
        asked += ids.len();
        run.on_sent(ids.len() as u64);
    }
    assert_eq!(asked, 300);
    for h in 1..=300usize {
        assert_eq!(run.expected(&chain), Some(chain[h].block_id()));
        assert!(matches!(
            run.awaited(&chain),
            Some(Awaited::Block { id, strict: true }) if id == chain[h].block_id()
        ));
        run.on_block();
    }
    assert_eq!(run.expected(&chain), None);
}

#[test]
fn stage_b_skips_the_work_of_authenticated_blocks_only() {
    let chain = linked_chain(0, 11, Hash256([0u8; 32]));
    let mut c = checkpoint();
    c.height = 10;
    let mut run = StageBRun::new(1, 10);
    run.on_sent(10);
    assert!(run.skips_pow(&chain, &chain[1], true, true, &c));
    // Another block than the one that is due.
    assert!(!run.skips_pow(&chain, &chain[2], true, true, &c));
    assert!(!run.skips_pow(&chain, &chain[1], false, true, &c));
    assert!(!run.skips_pow(&chain, &chain[1], true, false, &c));
    c.height = 0;
    assert!(!run.skips_pow(&chain, &chain[1], true, true, &c));
}

#[test]
fn proof_of_work_is_skipped_only_below_the_checkpoint() {
    let c = checkpoint();
    assert!(skips_pow(true, true, ASSUME_VALID_HEIGHT, &c));
    assert!(!skips_pow(false, true, ASSUME_VALID_HEIGHT, &c));
    assert!(!skips_pow(true, false, ASSUME_VALID_HEIGHT, &c));
    assert!(!skips_pow(true, true, ASSUME_VALID_HEIGHT + 1, &c));
}

#[test]
fn clock_is_checked_near_the_tip() {
    assert!(checks_clock(100, 100));
    assert!(!checks_clock(0, 1_000));
}

#[test]
fn resumed_tip_never_goes_back() {
    let h = dummy_header(5, Hash256::zero());
    let low = ChainTip { block_id: Hash256([1; 32]), height: 3, cumulative_work: [1u8; 32] };
    let r = resume_tip(&low, &h, Some(h.block_id()), Some([9u8; 32]));
    assert_eq!(r.height, 5);
    assert_eq!(r.block_id, h.block_id());
    assert_eq!(r.cumulative_work, [9u8; 32]);
    let high = ChainTip { block_id: Hash256([1; 32]), height: 9, cumulative_work: [1u8; 32] };
    let r = resume_tip(&high, &h, Some(h.block_id()), Some([9u8; 32]));
    assert_eq!(r.height, 9);
    let r = resume_tip(&low, &h, Some(Hash256([3; 32])), Some([9u8; 32]));
    assert_eq!(r.height, 3);
}

#[test]
fn batches_are_checked() {
    let chain = linked_chain(10, 20, Hash256([4u8; 32]));
    let parent = BatchParent::Chain(Some(Hash256([4u8; 32])));
    assert_eq!(check_batch(&chain, 10, 64, &parent), Ok(()));
    assert!(check_batch(&Vec::new(), 10, 64, &parent).is_err());
    assert!(check_batch(&chain, 11, 64, &parent).is_err());
    assert!(check_batch(&chain, 10, 19, &parent).is_err());
    assert!(check_batch(&chain, 10, 64, &BatchParent::Batch(Hash256([5u8; 32]))).is_err());
    let mut broken = chain.clone();
    broken[7].prev_block_id = Hash256([6u8; 32]);
    broken[7] = seal(broken[7]);
    assert!(check_batch(&broken, 10, 64, &parent).is_err());
}

#[test]
fn download_walks_up_to_the_peers_height() {
    let chain = linked_chain(1, 150, Hash256([4u8; 32]));
    let mut run = IbdRun::new(0, 150);
    let mut got: u64 = 0;
    while let Some(req) = run.next_request() {
        let from = req.start_height as usize - 1;
        let to = std::cmp::min(from + req.max_count as usize, 150);
        let ids = run
            .on_headers(&chain[from..to].to_vec(), Some(Hash256([4u8; 32])))
            .expect("a good batch");
        got += ids.len() as u64;
        run.on_batch_done(ids.len() as u64);
    }
    assert_eq!(got, 150);
    assert!(run.conclude(150).is_ok());
    assert!(run.conclude(0).is_err());
}

fn block_of(h: BlockHeader) -> Block {
    Block { header: h, transactions: Vec::new() }
}

#[test]
fn ancestors_are_fetched_downwards_and_handled_upwards() {
    let chain = linked_chain(1, 4, Hash256([4u8; 32]));
    let mut r = AncestorRecovery::new(chain[3].block_id());
    for (i, known) in [(3usize, false), (2, false), (1, true)] {
        assert!(!r.done);
        assert_eq!(r.needed, chain[i].block_id());
        r.on_block(block_of(chain[i]), 100, known).expect("wanted");
    }
    assert!(r.done);
    let heights: Vec<u64> = r.into_blocks().iter().map(|b| b.header.height).collect();
    assert_eq!(heights, [2, 3, 4]);
}

#[test]
fn ancestors_are_bounded_in_size() {
    let chain = linked_chain(1, 4, Hash256([4u8; 32]));
    let mut r = AncestorRecovery::new(chain[3].block_id());
    assert!(r.on_block(block_of(chain[3]), MAX_ANCESTOR_BYTES + 1, false).is_err());
}

#[test]
fn faults_during_download() {
    let ok = Ok(ProcessBlockOutcome::Accepted);
    assert!(matches!(after_ibd_block(IbdBlockKind::Fetched, &ok), IbdNext::Continue));
    let missing = Err(ProcessBlockError::MissingReorgAncestor(Hash256([1; 32])));
    assert!(matches!(
        after_ibd_block(IbdBlockKind::Fetched, &missing),
        IbdNext::Recover(id) if id == Hash256([1; 32])
    ));
    let fatal = Err(ProcessBlockError::Fatal("disk".to_string()));
    assert!(matches!(
        after_ibd_block(IbdBlockKind::Fetched, &fatal),
        IbdNext::Fail { halt: true, .. }
    ));
    let bad = Err(ProcessBlockError::Recoverable("bad".to_string()));
    assert!(matches!(
        after_ibd_block(IbdBlockKind::Fetched, &bad),
        IbdNext::Fail { halt: false, .. }
    ));
    // A fatal error stops the node, wherever it comes from; nothing else does.
    for kind in [
        IbdBlockKind::Ancestor,
        IbdBlockKind::Retried,
        IbdBlockKind::Vouched { height: 7 },
    ] {
        assert!(matches!(after_ibd_block(kind, &ok), IbdNext::Continue));
        assert!(matches!(after_ibd_block(kind, &fatal), IbdNext::Fail { halt: true, .. }));
        assert!(matches!(after_ibd_block(kind, &bad), IbdNext::Fail { halt: false, .. }));
        assert!(matches!(after_ibd_block(kind, &missing), IbdNext::Fail { halt: false, .. }));
    }
    match after_ibd_block(IbdBlockKind::Vouched { height: 7 }, &bad) {
        IbdNext::Fail { message, .. } => assert_eq!(
            message,
            "Stage B process_block_pre_validated failed at height 7: Recoverable(\"bad\")"
        ),
        _ => panic!("no failure"),
    }
}
