use exfer::chain::{Block, BlockHeader, OutPoint, Transaction, TxOutput};
use exfer::clock::SECOND;
use exfer::errors::{ProcessBlockError, ProcessBlockOutcome};
use exfer::events::{download_step, ends_download, Awaited, DownloadStep, PeerEvent};
use exfer::forks::{
    DifficultyCache, ForkEntry, ForkPlan, ForkPool, MAX_DIFFICULTY_CACHE_ENTRIES, MAX_FORK_BLOCKS,
};
use exfer::future::{FutureBlocks, FUTURE_BLOCK_MAX_AGE_SECS, MAX_FUTURE_BLOCKS};
use exfer::hash::Hash256;
use exfer::hexcodec::{decode_hex, HexError};
use exfer::intake::{
    follow_up, settle_waiting, BlockIntake, IntakeReply, IntakeStep, Origin, OrphanSweep,
};
use exfer::lex::{parse_number, NumberFault};
use exfer::net::{IpAddr, SocketAddr};
use exfer::orphans::{OrphanLimits, OrphanPool};
use exfer::triggers::{ReorgTriggerState, MAX_GLOBAL_TRIGGERS, MAX_TRIGGERS_PER_ANCESTOR};
use exfer::utxo::{redo_old_chain_blocks, undo_applied_new_chain, UtxoEntry, UtxoError, UtxoSet};

const NOW: u64 = 1_000_000 * SECOND;

fn id(n: u64) -> Hash256 {
    let mut b = [0u8; 32];
    b[..8].copy_from_slice(&n.to_le_bytes());
    Hash256(b)
}

fn block(n: u64, parent: u64) -> Block {
    Block {
        header: BlockHeader {
            version: 1,
            height: n,
            prev_block_id: id(parent),
            timestamp: 0,
            difficulty_target: Hash256([0xff; 32]),
            nonce: 0,
            tx_root: Hash256::zero(),
            state_root: Hash256::zero(),
            id: id(n),
        },
        transactions: Vec::new(),
    }
}

fn work(n: u64) -> [u8; 32] {
    let mut w = [0u8; 32];
    w[24..].copy_from_slice(&n.to_be_bytes());
    w
}

#[test]
fn triggers_are_bounded_and_come_back() {
    let mut t = ReorgTriggerState::new();
    for i in 0..MAX_TRIGGERS_PER_ANCESTOR as u64 {
        assert!(t.insert(id(1), block(100 + i, 1)));
    }
    assert!(!t.insert(id(1), block(999, 1)));
    assert!(t.insert(id(2), block(200, 2)));
    let got = t.take(&id(1)).unwrap();
    assert_eq!(got.len(), MAX_TRIGGERS_PER_ANCESTOR);
    assert_eq!(got[0].header.id, id(100));
    assert!(t.take(&id(1)).is_none());
    assert_eq!(t.take(&id(2)).unwrap().len(), 1);
}

#[test]
fn oldest_triggers_make_way() {
    let mut t = ReorgTriggerState::new();
    for i in 0..MAX_GLOBAL_TRIGGERS as u64 + 1 {
        assert!(t.insert(id(i), block(1000 + i, i)));
    }
    assert!(t.take(&id(0)).is_none());
    assert!(t.take(&id(1)).is_some());
    assert!(t.take(&id(MAX_GLOBAL_TRIGGERS as u64)).is_some());
}

#[test]
fn future_blocks_wait_and_expire() {
    let mut f = FutureBlocks::new();
    f.buffer_future_block(block(1, 0), NOW);
    f.buffer_future_block(block(1, 0), NOW + SECOND);
    assert_eq!(f.len(), 1);
    for i in 2..=MAX_FUTURE_BLOCKS as u64 + 1 {
        f.buffer_future_block(block(i, 0), NOW + i * SECOND);
    }
    assert_eq!(f.len(), MAX_FUTURE_BLOCKS);
    let got = f.take_candidates(NOW + FUTURE_BLOCK_MAX_AGE_SECS * SECOND);
    // The first one made way.
    assert_eq!(got[0].0.header.id, id(2));
    assert_eq!(got.len(), MAX_FUTURE_BLOCKS);
    assert_eq!(f.len(), 0);
    f.buffer_future_block(block(1, 0), NOW);
    assert_eq!(f.take_candidates(NOW + FUTURE_BLOCK_MAX_AGE_SECS * SECOND).len(), 0);
}

#[test]
fn a_retry_does_not_prolong_the_wait() {
    let mut f = FutureBlocks::new();
    f.buffer_future_block(block(1, 0), NOW);
    let (b, came) = f.take_candidates(NOW + 200 * SECOND).pop().unwrap();
    // Handled again, it is buffered at the later time, which is put back.
    f.buffer_future_block(b, NOW + 200 * SECOND);
    f.restore_age(&id(1), came);
    assert_eq!(f.take_candidates(NOW + 300 * SECOND).len(), 0);
    assert!(f.rebuffer(block(2, 0), NOW));
    assert_eq!(f.take_candidates(NOW + 299 * SECOND).len(), 1);
}

fn orphan_limits() -> OrphanLimits {
    OrphanLimits { max_block_size: 100, max_blocks: 3, max_cache_bytes: 250 }
}

#[test]
fn orphans_are_bounded() {
    let l = orphan_limits();
    let mut p = OrphanPool::new();
    assert!(!p.cache_orphan(block(1, 9), 101, &l));
    // The parent is asked for once.
    assert!(p.cache_orphan(block(1, 9), 100, &l));
    assert!(!p.cache_orphan(block(2, 9), 100, &l));
    assert_eq!(p.len(), 2);
    // The oldest makes way for the bytes of another one.
    assert!(p.cache_orphan(block(3, 8), 100, &l));
    assert_eq!(p.len(), 2);
    let kids = p.take_children(&id(9));
    assert_eq!(kids.len(), 1);
    assert_eq!(kids[0].header.id, id(2));
    assert!(p.take_children(&id(9)).is_empty());
    assert_eq!(p.len(), 1);
}

#[test]
fn orphans_are_swept() {
    let l = OrphanLimits { max_block_size: 100, max_blocks: 10, max_cache_bytes: 1000 };
    let mut p = OrphanPool::new();
    for (n, parent) in [(2, 1), (3, 2), (4, 2), (5, 9), (6, 4)] {
        p.cache_orphan(block(n, parent), 1, &l);
    }
    assert_eq!(p.len(), 5);
    let mut sweep = OrphanSweep::from_parent(id(1));
    let mut seen = Vec::new();
    while let Some(b) = sweep.next(&mut p) {
        let ok = Ok(ProcessBlockOutcome::Accepted);
        seen.push(b.header.height);
        sweep.settle(b.header.id, &follow_up(Origin::Orphan, &ok));
    }
    seen.sort();
    assert_eq!(seen, [2, 3, 4, 6]);
    assert_eq!(p.len(), 1);
}

#[test]
fn weaker_fork_blocks_make_way() {
    let mut p = ForkPool::new();
    assert!(matches!(p.plan_store(&id(1), &work(5), true, 10, 100), ForkPlan::Drop));
    assert!(matches!(p.plan_store(&id(1), &work(5), false, 101, 100), ForkPlan::Drop));
    for i in 0..MAX_FORK_BLOCKS as u64 {
        match p.plan_store(&id(i), &work(10 + i), false, 10, 100) {
            ForkPlan::Store { evict } => {
                assert!(evict.is_none());
                p.commit_store(id(i), work(10 + i), evict);
            }
            ForkPlan::Drop => panic!("there is room"),
        }
    }
    assert_eq!(p.len(), MAX_FORK_BLOCKS as usize);
    assert!(matches!(p.plan_store(&id(999), &work(10), false, 10, 100), ForkPlan::Drop));
    match p.plan_store(&id(999), &work(11), false, 10, 100) {
        ForkPlan::Store { evict } => {
            assert_eq!(evict, Some(id(0)));
            p.commit_store(id(999), work(11), evict);
        }
        ForkPlan::Drop => panic!("it is stronger than the weakest"),
    }
    assert!(!p.contains(&id(0)));
    assert!(p.contains(&id(999)));
    // Blocks that were the chain are kept if they have more work.
    let gone = p.demote(&vec![
        ForkEntry { id: id(5000), work: work(1) },
        ForkEntry { id: id(5001), work: work(9999) },
    ]);
    // Of two that are the weakest the first goes.
    assert_eq!(gone, vec![id(5000), id(1)]);
    assert!(p.contains(&id(5001)) && !p.contains(&id(5000)));
    p.cleanup_promoted(&vec![id(999), id(5001)]);
    assert!(!p.contains(&id(999)) && !p.contains(&id(5001)));
    assert_eq!(p.len(), MAX_FORK_BLOCKS as usize - 2);
}

#[test]
fn targets_are_remembered() {
    let mut c = DifficultyCache::new();
    assert!(c.lookup(&id(1), 5).is_none());
    c.remember(id(1), 5, id(77));
    assert_eq!(c.lookup(&id(1), 5), Some(id(77)));
    assert!(c.lookup(&id(1), 6).is_none());
    assert!(c.lookup(&id(2), 5).is_none());
}

#[test]
fn one_target_makes_way_for_another() {
    let mut c = DifficultyCache::new();
    // The second stands lowest.
    c.remember(id(900), 50, id(1));
    c.remember(id(901), 40, id(2));
    for n in 2..MAX_DIFFICULTY_CACHE_ENTRIES as u64 {
        c.remember(id(n), 1_000 + n, id(3));
    }
    assert_eq!(c.lookup(&id(901), 40), Some(id(2)));
    c.remember(id(902), 5_000, id(4));
    assert!(c.lookup(&id(901), 40).is_none());
    assert_eq!(c.lookup(&id(900), 50), Some(id(1)));
    assert_eq!(c.lookup(&id(902), 5_000), Some(id(4)));
    for n in 2..MAX_DIFFICULTY_CACHE_ENTRIES as u64 {
        assert_eq!(c.lookup(&id(n), 1_000 + n), Some(id(3)));
    }
}

#[test]
fn blocks_are_taken_in_step_by_step() {
    let b = block(5, 4);
    let mut m = BlockIntake::new(&b.header, false);
    assert_eq!(m.step, IntakeStep::FindParent);
    m.advance(IntakeReply::Parent(Some(4)));
    assert_eq!(m.step, IntakeStep::FindTarget);
    m.advance(IntakeReply::Target(b.header.difficulty_target));
    assert_eq!(m.step, IntakeStep::TakeSlot);
    m.advance(IntakeReply::Slot(true));
    assert_eq!(m.step, IntakeStep::CheckPow);
    m.advance(IntakeReply::Pow(true));
    assert_eq!(m.step, IntakeStep::Process { pre_validated: true });
    let mut m = BlockIntake::new(&b.header, false);
    m.advance(IntakeReply::Parent(None));
    assert_eq!(m.step, IntakeStep::CacheOrphan);
    let mut m = BlockIntake::new(&b.header, false);
    m.advance(IntakeReply::Parent(Some(9)));
    assert_eq!(m.step, IntakeStep::Strike);
    let mut m = BlockIntake::new(&b.header, true);
    m.advance(IntakeReply::Parent(Some(4)));
    m.advance(IntakeReply::AncestryMissing);
    assert_eq!(m.step, IntakeStep::TakeSlot);
    let mut over = m;
    over.advance(IntakeReply::Slot(false));
    assert_eq!(over.step, IntakeStep::Drop);
    m.advance(IntakeReply::Slot(true));
    assert_eq!(m.step, IntakeStep::Process { pre_validated: false });
}

#[test]
fn what_follows_from_a_block() {
    let accepted = Ok(ProcessBlockOutcome::Accepted);
    let f = follow_up(Origin::Peer, &accepted);
    assert!(f.credit && f.relay && f.adopt_children && !f.strike);
    let f = follow_up(Origin::Orphan, &accepted);
    assert!(!f.credit && !f.relay && f.adopt_children);
    let bad = Err(ProcessBlockError::Recoverable("x".to_string()));
    let f = follow_up(Origin::Peer, &bad);
    assert!(f.strike && !f.credit);
    let fatal = Err(ProcessBlockError::Fatal("x".to_string()));
    for o in [Origin::Peer, Origin::Future, Origin::Trigger, Origin::Orphan] {
        assert!(follow_up(o, &fatal).halt);
        assert!(!follow_up(o, &bad).halt);
    }
    let later = Ok(ProcessBlockOutcome::BufferedFuture);
    assert!(!follow_up(Origin::Peer, &later).adopt_children);
}

#[test]
fn blocks_go_back_to_waiting() {
    let mut future = FutureBlocks::new();
    let mut triggers = ReorgTriggerState::new();
    let missing = Err(ProcessBlockError::MissingReorgAncestor(id(3)));
    let f = follow_up(Origin::Future, &missing);
    settle_waiting(&f, block(5, 4), NOW, &mut future, &mut triggers);
    assert_eq!(future.len(), 0);
    assert_eq!(triggers.take(&id(3)).unwrap()[0].header.id, id(5));
    let bad = Err(ProcessBlockError::Recoverable("x".to_string()));
    let f = follow_up(Origin::Future, &bad);
    settle_waiting(&f, block(5, 4), NOW, &mut future, &mut triggers);
    assert_eq!(future.len(), 1);
}

#[test]
fn downloads_take_what_they_wait_for() {
    let peer = [1u8; 32];
    let from = SocketAddr { ip: IpAddr::V4([1, 2, 3, 4]), port: 1 };
    let event = |n: u64, who: u8, session: u64| PeerEvent::BlockResponse {
        from,
        from_identity: [who; 32],
        session_id: session,
        block: block(n, 0),
        pre_validated: false,
    };
    let wait = Awaited::Block { id: id(5), strict: false };
    assert_eq!(download_step(&wait, &peer, 7, &event(5, 1, 7)), DownloadStep::Take);
    assert_eq!(download_step(&wait, &peer, 7, &event(6, 1, 7)), DownloadStep::Intake);
    assert_eq!(download_step(&wait, &peer, 7, &event(5, 2, 7)), DownloadStep::Intake);
    assert_eq!(download_step(&wait, &peer, 7, &event(5, 1, 8)), DownloadStep::Intake);
    // In strict mode the session may answer with nothing else.
    let wait = Awaited::Block { id: id(5), strict: true };
    assert_eq!(download_step(&wait, &peer, 7, &event(5, 1, 7)), DownloadStep::Take);
    assert_eq!(
        download_step(&wait, &peer, 7, &event(6, 1, 7)),
        DownloadStep::DeliveredWrongBlockForRequestedId
    );
    assert_eq!(download_step(&wait, &peer, 7, &event(6, 2, 7)), DownloadStep::Intake);
    assert_eq!(download_step(&wait, &peer, 7, &event(6, 1, 8)), DownloadStep::Intake);
    let h = PeerEvent::HeadersResponse { from_identity: peer, session_id: 7, headers: Vec::new() };
    assert_eq!(download_step(&Awaited::Headers, &peer, 7, &h), DownloadStep::Take);
    assert!(ends_download(&peer, &peer));
    assert!(!ends_download(&peer, &[2u8; 32]));
}

#[test]
fn taken_triggers_leave_room() {
    let mut t = ReorgTriggerState::new();
    for i in 0..MAX_GLOBAL_TRIGGERS as u64 {
        assert!(t.insert(id(500), block(1_000 + i, 500)));
        assert_eq!(t.take(&id(500)).unwrap().len(), 1);
    }
    // Nothing waits, so what comes now stays.
    for i in 1..=MAX_GLOBAL_TRIGGERS as u64 {
        assert!(t.insert(id(i), block(2_000 + i, i)));
    }
    for i in 1..=MAX_GLOBAL_TRIGGERS as u64 {
        assert_eq!(t.take(&id(i)).unwrap()[0].header.id, id(2_000 + i));
    }
    assert!(t.take(&id(1)).is_none());
}

#[test]
fn a_full_store_of_triggers_drops_the_oldest() {
    let mut t = ReorgTriggerState::new();
    for i in 1..=MAX_GLOBAL_TRIGGERS as u64 + 1 {
        assert!(t.insert(id(i), block(2_000 + i, i)));
    }
    assert!(t.take(&id(1)).is_none());
    assert_eq!(t.take(&id(2)).unwrap().len(), 1);
}

fn tx(n: u64, inputs: Vec<OutPoint>, values: &[u64]) -> Transaction {
    Transaction {
        tx_id: id(n),
        is_coinbase: inputs.is_empty(),
        inputs,
        outputs: values.iter().map(|v| TxOutput { value: *v, script: vec![*v as u8] }).collect(),
    }
}

fn entry_of(set: &UtxoSet, p: &OutPoint) -> UtxoEntry {
    let e = set.get(p).expect("unspent");
    UtxoEntry {
        value: e.value,
        script: e.script.clone(),
        height: e.height,
        is_coinbase: e.is_coinbase,
    }
}

#[test]
fn undoing_a_block_reverts_it() {
    let mut set = UtxoSet::new();
    let mut first = block(1, 0);
    first.transactions = vec![tx(10, vec![], &[50])];
    set.apply_block_transactions(&first).unwrap();
    let coin = OutPoint::new(id(10), 0);
    assert_eq!(set.get(&coin).unwrap().value, 50);
    assert!(set.get(&coin).unwrap().is_coinbase);
    let mut second = block(2, 1);
    second.transactions = vec![tx(20, vec![], &[50]), tx(21, vec![coin], &[30, 20])];
    let log = vec![(coin, entry_of(&set, &coin))];
    set.apply_block_transactions(&second).unwrap();
    assert!(set.get(&coin).is_none());
    assert_eq!(set.get(&OutPoint::new(id(21), 1)).unwrap().value, 20);
    set.undo_block_transactions(&second, &log).unwrap();
    assert_eq!(set.get(&coin).unwrap().value, 50);
    assert!(set.get(&OutPoint::new(id(21), 0)).is_none());
    assert!(set.get(&OutPoint::new(id(20), 0)).is_none());
}

#[test]
fn faulty_transactions_are_refused() {
    let mut set = UtxoSet::new();
    let missing = tx(2, vec![OutPoint::new(id(1), 0)], &[1]);
    assert_eq!(set.apply_transaction(&missing, 5), Err(UtxoError::MissingInput));
    let t = tx(3, vec![], &[1]);
    assert_eq!(set.apply_transaction(&t, 5), Ok(()));
    assert_eq!(set.apply_transaction(&t, 5), Err(UtxoError::DuplicateOutput));
    assert_eq!(
        set.undo_transaction(&tx(4, vec![], &[1]), &Vec::new()),
        Err(UtxoError::MissingOutput)
    );
}

#[test]
fn faulty_transactions_change_nothing() {
    let mut set = UtxoSet::new();
    let coin = OutPoint::new(id(1), 0);
    assert_eq!(set.apply_transaction(&tx(1, vec![], &[5]), 1), Ok(()));
    let half = tx(2, vec![coin, OutPoint::new(id(9), 0)], &[1]);
    assert_eq!(set.apply_transaction(&half, 2), Err(UtxoError::MissingInput));
    let twice = tx(2, vec![coin, coin], &[1]);
    assert_eq!(set.apply_transaction(&twice, 2), Err(UtxoError::MissingInput));
    assert_eq!(set.get(&coin).unwrap().value, 5);
    assert!(set.get(&OutPoint::new(id(2), 0)).is_none());
    let spend = tx(2, vec![coin], &[3]);
    assert_eq!(set.apply_transaction(&spend, 2), Ok(()));
    assert_eq!(
        set.undo_transaction(&spend, &Vec::new()),
        Err(UtxoError::MissingSpentRecord)
    );
    assert!(set.get(&coin).is_none());
    assert_eq!(set.get(&OutPoint::new(id(2), 0)).unwrap().value, 3);
}

#[test]
fn a_failed_redo_stops_where_it_fails() {
    let mut set = UtxoSet::new();
    let mut a = block(1, 0);
    a.transactions = vec![tx(10, vec![], &[50])];
    let mut b = block(2, 1);
    b.transactions = vec![
        tx(20, vec![], &[60]),
        tx(21, vec![OutPoint::new(id(99), 0)], &[1]),
        tx(22, vec![], &[1]),
    ];
    let mut c = block(3, 2);
    c.transactions = vec![tx(30, vec![], &[70])];
    let e = redo_old_chain_blocks(&mut set, &[c, b, a]).unwrap_err();
    assert_eq!(
        e,
        "redo_old_chain apply_transaction failed at height 2: input is not unspent"
    );
    assert_eq!(set.get(&OutPoint::new(id(10), 0)).unwrap().value, 50);
    assert_eq!(set.get(&OutPoint::new(id(20), 0)).unwrap().value, 60);
    for n in [21, 22, 30] {
        assert!(set.get(&OutPoint::new(id(n), 0)).is_none());
    }
    assert_eq!(redo_old_chain_blocks(&mut set, &[]), Ok(()));
}

#[test]
fn a_failed_undo_stops_where_it_fails() {
    let mut set = UtxoSet::new();
    let mut blocks = Vec::new();
    for n in 1..=3u64 {
        let mut b = block(n, n - 1);
        b.transactions = vec![tx(10 * n, vec![], &[n])];
        set.apply_block_transactions(&b).unwrap();
        blocks.push(b);
    }
    // The middle block has no record.
    let logs = vec![(id(1), Vec::new()), (id(3), Vec::new())];
    let e = undo_applied_new_chain(&mut set, &blocks, &logs).unwrap_err();
    assert!(e.contains("missing spent-UTXO metadata"), "{}", e);
    assert!(e.contains("at height 2"), "{}", e);
    assert!(set.get(&OutPoint::new(id(30), 0)).is_none());
    assert_eq!(set.get(&OutPoint::new(id(20), 0)).unwrap().value, 2);
    assert_eq!(set.get(&OutPoint::new(id(10), 0)).unwrap().value, 1);
}

#[test]
fn chains_are_undone_and_redone() {
    let mut set = UtxoSet::new();
    let mut a = block(1, 0);
    a.transactions = vec![tx(10, vec![], &[50])];
    let mut b = block(2, 1);
    b.transactions = vec![tx(20, vec![], &[60]), tx(21, vec![OutPoint::new(id(10), 0)], &[50])];
    // Newest first.
    let chain = vec![b, a];
    redo_old_chain_blocks(&mut set, &chain).unwrap();
    assert!(set.get(&OutPoint::new(id(10), 0)).is_none());
    assert_eq!(set.get(&OutPoint::new(id(21), 0)).unwrap().value, 50);
    let coin = OutPoint::new(id(10), 0);
    let spent = UtxoEntry { value: 50, script: vec![50], height: 1, is_coinbase: true };
    let logs = vec![(id(2), vec![(coin, spent)]), (id(1), Vec::new())];
    let oldest_first: Vec<Block> = chain.into_iter().rev().collect();
    undo_applied_new_chain(&mut set, &oldest_first, &logs).unwrap();
    assert!(set.get(&coin).is_none());
    assert!(set.get(&OutPoint::new(id(20), 0)).is_none());
    // Without a record of what was spent nothing can be undone.
    redo_old_chain_blocks(&mut set, &oldest_first.into_iter().rev().collect::<Vec<_>>()).unwrap();
    let mut c = block(2, 1);
    c.transactions = vec![tx(21, vec![OutPoint::new(id(10), 0)], &[50])];
    assert!(undo_applied_new_chain(&mut set, &[c], &[]).is_err());
}

#[test]
fn hexadecimal_is_read() {
    assert_eq!(decode_hex("00ffAb").unwrap(), vec![0x00, 0xff, 0xab]);
    assert_eq!(decode_hex("").unwrap(), Vec::<u8>::new());
    assert_eq!(decode_hex("abc").unwrap_err(), HexError::OddLength);
    let e = decode_hex("0g").unwrap_err();
    assert_eq!(e, HexError::InvalidHexCharacter { c: 'g', index: 1 });
    assert_eq!(e.message(), "Invalid character 'g' at position 1");
    let e = decode_hex("\n0").unwrap_err();
    assert_eq!(e.message(), "Invalid character '\\n' at position 0");
}

#[test]
fn numbers_are_read() {
    let n = |s: &str| parse_number(&s.chars().collect::<Vec<char>>(), 300);
    assert_eq!(n("0"), Ok(0));
    assert_eq!(n("300"), Ok(300));
    assert_eq!(n("+7"), Ok(7));
    assert_eq!(n("007"), Ok(7));
    assert_eq!(n("301"), Err(NumberFault::TooLarge));
    assert_eq!(n("-1"), Err(NumberFault::InvalidDigit));
    assert_eq!(n("+"), Err(NumberFault::InvalidDigit));
    assert_eq!(n(""), Err(NumberFault::Empty));
    assert_eq!(n("1 "), Err(NumberFault::InvalidDigit));
}
