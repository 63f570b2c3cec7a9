use exfer::chain::{is_better_chain, Block, BlockHeader, ChainTip, Checkpoint};
use exfer::errors::{ProcessBlockError, ProcessBlockOutcome};
use exfer::hash::Hash256;
use exfer::pipeline::{
    Action, ApplyReply, BlockPipeline, DifficultyReply, Event, HeaderReply, NewBlockReply,
    UndoReply,
};
use exfer::work::{add_work, work_from_target};
use std::collections::HashMap;

const EASY: Hash256 = Hash256([0xff; 32]);

fn mix(parts: &[&[u8]]) -> Hash256 {
    let mut id = [0u8; 32];
    for lane in 0..4u64 {
        let mut x: u64 = 0xcbf2_9ce4_8422_2325 ^ (lane.wrapping_mul(0x9e37_79b9_7f4a_7c15));
        for p in parts {
            for b in p.iter() {
                x = (x ^ *b as u64).wrapping_mul(0x0000_0100_0000_01b3);
            }
        }
        id[lane as usize * 8..lane as usize * 8 + 8].copy_from_slice(&x.to_le_bytes());
    }
    Hash256(id)
}

fn copy(b: &Block) -> Block {
    Block { header: b.header, transactions: Vec::new() }
}

/// A node in memory. Its state is the list of the blocks applied.
struct Sim {
    blocks: HashMap<[u8; 32], Block>,
    works: HashMap<[u8; 32], [u8; 32]>,
    tip: ChainTip,
    state: Vec<Hash256>,
    buffered: usize,
    fail_commit: bool,
    log: Vec<String>,
}

fn state_root(state: &[Hash256]) -> Hash256 {
    let parts: Vec<&[u8]> = state.iter().map(|h| &h.0[..]).collect();
    mix(&parts)
}

/// A block on a list of blocks; `salt` tells siblings apart.
fn block_on(below: &[Hash256], height: u64, salt: u64) -> Block {
    let prev = *below.last().unwrap();
    let id = mix(&[&prev.0, &height.to_le_bytes(), &salt.to_le_bytes()]);
    let mut state = below.to_vec();
    state.push(id);
    let header = BlockHeader {
        version: 1,
        height,
        prev_block_id: prev,
        timestamp: 1_000 + height,
        difficulty_target: EASY,
        nonce: salt,
        tx_root: Hash256([0x33; 32]),
        state_root: state_root(&state),
        id,
    };
    Block { header, transactions: Vec::new() }
}

impl Sim {
    fn new() -> (Sim, Vec<Hash256>) {
        let id = Hash256([0x01; 32]);
        let header = BlockHeader {
            version: 1,
            height: 0,
            prev_block_id: Hash256::zero(),
            timestamp: 1_000,
            difficulty_target: EASY,
            nonce: 0,
            tx_root: Hash256::zero(),
            state_root: state_root(&[id]),
            id,
        };
        let mut blocks = HashMap::new();
        blocks.insert(id.0, Block { header, transactions: Vec::new() });
        let mut one = [0u8; 32];
        one[31] = 1;
        let mut works = HashMap::new();
        works.insert(id.0, one);
        let tip = ChainTip { block_id: id, height: 0, cumulative_work: one };
        let sim = Sim {
            blocks,
            works,
            tip,
            state: vec![id],
            buffered: 0,
            fail_commit: false,
            log: Vec::new(),
        };
        (sim, vec![id])
    }

    fn store(&mut self, b: &Block, work: [u8; 32]) {
        self.blocks.insert(b.header.id.0, copy(b));
        self.works.insert(b.header.id.0, work);
    }

    fn process(
        &mut self,
        block: Block,
        header: HeaderReply,
    ) -> Result<ProcessBlockOutcome, ProcessBlockError> {
        let checkpoint =
            Checkpoint { height: 1_000_000, hash: Hash256([9; 32]), cumulative_work: [0u8; 32] };
        let mut p = BlockPipeline::new(block, false, true, checkpoint);
        let mut header = Some(header);
        for _ in 0..10_000 {
            let action = p.action();
            self.log.push(format!("{:?}", action));
            let ev = match action {
                Action::HasBlock(id) => Event::Known(Ok(self.blocks.contains_key(&id.0))),
                Action::GetHeader(id) => Event::Found(Ok(self.blocks.contains_key(&id.0))),
                Action::GetAncestorTimestamps(_) => Event::Checked(Ok(())),
                Action::ExpectedDifficulty(_, _) => Event::Difficulty(DifficultyReply::Known),
                Action::ValidateHeader { .. } => Event::HeaderChecked(header.take().unwrap()),
                Action::BufferFutureBlock => {
                    self.buffered += 1;
                    Event::Done
                }
                Action::GetWork(id) => Event::Work(Ok(self.works.get(&id.0).copied())),
                Action::ReadTip | Action::LockStateAndReadTip => Event::Tip(self.tip),
                Action::ComputeTxRoot => Event::Root(Ok(p.block().header.tx_root)),
                Action::ValidateStructure => Event::Checked(Ok(())),
                Action::StoreForkBlock { work } => {
                    let b = copy(p.block());
                    self.store(&b, work);
                    Event::Checked(Ok(()))
                }
                Action::ApplyBlock => {
                    self.state.push(p.block().header.id);
                    Event::Applied(ApplyReply::Applied)
                }
                Action::ComputeStateRoot => Event::StateRoot(state_root(&self.state)),
                Action::UndoBlock => {
                    assert_eq!(self.state.pop(), Some(p.block().header.id));
                    Event::Checked(Ok(()))
                }
                Action::CommitBlock { work } => {
                    if self.fail_commit {
                        Event::Checked(Err("disk full".to_string()))
                    } else {
                        let b = copy(p.block());
                        self.store(&b, work);
                        Event::Checked(Ok(()))
                    }
                }
                Action::GetBlock(id) => Event::Fetched(Ok(self.blocks.get(&id.0).map(copy))),
                Action::UndoOldBlock(i) => {
                    assert_eq!(self.state.pop(), Some(p.old_chain()[i].header.id));
                    Event::Undone(UndoReply::Undone)
                }
                Action::RedoOldBlocks { count } => {
                    for i in (0..count).rev() {
                        self.state.push(p.old_chain()[i].header.id);
                    }
                    Event::Checked(Ok(()))
                }
                Action::ApplyNewBlock(i) => {
                    self.state.push(p.new_block(i).header.id);
                    Event::NewBlock(NewBlockReply::Applied { state_root: state_root(&self.state) })
                }
                Action::UndoNewBlock(i) => {
                    assert_eq!(self.state.pop(), Some(p.new_block(i).header.id));
                    Event::Checked(Ok(()))
                }
                Action::UndoNewBlocks { ancestors, block } => {
                    for _ in 0..ancestors + block as usize {
                        self.state.pop();
                    }
                    Event::Checked(Ok(()))
                }
                Action::CommitReorg { .. } => {
                    if self.fail_commit {
                        Event::Checked(Err("disk full".to_string()))
                    } else {
                        let b = copy(p.block());
                        for (_, id, work) in p.promoted() {
                            self.works.insert(id.0, work);
                        }
                        self.blocks.insert(b.header.id.0, b);
                        Event::Checked(Ok(()))
                    }
                }
                Action::DemoteOldBlocks => Event::Done,
                Action::SetTip(t) => {
                    self.tip = t;
                    Event::Done
                }
                Action::RefreshMempool => Event::Done,
                Action::Nothing => return p.into_result().expect("an outcome"),
            };
            p.step(ev);
        }
        panic!("the pipeline does not end");
    }
}

fn work_of(n: u8) -> [u8; 32] {
    let mut w = [0u8; 32];
    w[31] = n;
    w
}

#[test]
fn a_block_on_the_tip_is_accepted() {
    let (mut sim, mut chain) = Sim::new();
    for h in 1..=3u64 {
        let b = block_on(&chain, h, 0);
        chain.push(b.header.id);
        let r = sim.process(b, HeaderReply::Valid);
        assert!(matches!(r, Ok(ProcessBlockOutcome::Accepted)), "{:?}", r);
    }
    assert_eq!(sim.tip.height, 3);
    assert_eq!(sim.tip.block_id, chain[3]);
    assert_eq!(sim.tip.cumulative_work, work_of(4));
    assert_eq!(sim.state, chain);
    assert_eq!(add_work(&work_of(3), &work_from_target(&EASY)), work_of(4));
}

#[test]
fn a_known_block_is_not_processed_again() {
    let (mut sim, mut chain) = Sim::new();
    let b = block_on(&chain, 1, 0);
    chain.push(b.header.id);
    let again = copy(&b);
    sim.process(b, HeaderReply::Valid).expect("accepted");
    let r = sim.process(again, HeaderReply::Valid);
    assert!(matches!(r, Ok(ProcessBlockOutcome::Stored)));
    assert_eq!(sim.state, chain);
}

#[test]
fn a_genesis_block_is_rejected() {
    let (mut sim, chain) = Sim::new();
    let mut b = block_on(&chain, 1, 0);
    b.header.height = 0;
    let r = sim.process(b, HeaderReply::Valid);
    match r {
        Err(ProcessBlockError::Recoverable(m)) => {
            assert_eq!(m, "height-0 blocks are not accepted via process_block")
        }
        other => panic!("expected a rejection, got {:?}", other),
    }
}

#[test]
fn a_block_without_its_parent_is_rejected() {
    let (mut sim, mut chain) = Sim::new();
    chain.push(Hash256([0x55; 32]));
    let b = block_on(&chain, 2, 0);
    let r = sim.process(b, HeaderReply::Valid);
    assert!(matches!(r, Err(ProcessBlockError::Recoverable(m)) if m == "parent block not found"));
}

#[test]
fn a_block_ahead_of_the_clock_is_buffered() {
    let (mut sim, chain) = Sim::new();
    let b = block_on(&chain, 1, 0);
    let r = sim.process(b, HeaderReply::TimestampTooFarAhead);
    assert!(matches!(r, Ok(ProcessBlockOutcome::BufferedFuture)));
    assert_eq!(sim.buffered, 1);
    assert_eq!(sim.state, chain);
    assert_eq!(sim.tip.height, 0);
}

#[test]
fn a_bad_header_is_rejected() {
    let (mut sim, chain) = Sim::new();
    let b = block_on(&chain, 1, 0);
    let r = sim.process(b, HeaderReply::Invalid("x".to_string()));
    match r {
        Err(e) => {
            assert_eq!(e.message(), "block header validation failed: x");
            assert!(!e.is_fatal());
        }
        other => panic!("expected a rejection, got {:?}", other),
    }
    assert_eq!(sim.state, chain);
}

#[test]
fn a_wrong_state_root_is_undone() {
    let (mut sim, chain) = Sim::new();
    let mut b = block_on(&chain, 1, 0);
    b.header.state_root = Hash256([0x44; 32]);
    let r = sim.process(b, HeaderReply::Valid);
    assert!(matches!(r, Err(ProcessBlockError::Recoverable(m)) if m == "state root mismatch"));
    assert_eq!(sim.state, chain);
    assert_eq!(sim.tip.height, 0);
}

#[test]
fn a_failed_commit_is_undone() {
    let (mut sim, chain) = Sim::new();
    let b = block_on(&chain, 1, 0);
    sim.fail_commit = true;
    let r = sim.process(b, HeaderReply::Valid);
    assert!(matches!(r, Err(ProcessBlockError::Recoverable(m)) if m == "disk full"));
    assert_eq!(sim.state, chain);
    assert_eq!(sim.tip.height, 0);
}

/// Two branches above the first block: `old` (two blocks, the tip) and `new`
/// (its first two blocks stored).
fn fork() -> (Sim, Vec<Hash256>, Vec<Hash256>, Block) {
    let (mut sim, chain) = Sim::new();
    let mut old = chain.clone();
    for h in 1..=2u64 {
        let b = block_on(&old, h, 0);
        old.push(b.header.id);
        sim.process(b, HeaderReply::Valid).expect("accepted");
    }
    let mut new = chain.clone();
    let first = block_on(&new, 1, 7);
    new.push(first.header.id);
    let r = sim.process(first, HeaderReply::Valid);
    assert!(matches!(r, Ok(ProcessBlockOutcome::Stored)));
    // A second block of the same work may or may not win; it is put in place by hand.
    let second = block_on(&new, 2, 7);
    new.push(second.header.id);
    sim.store(&second, work_of(3));
    let third = block_on(&new, 3, 7);
    (sim, old, new, third)
}

#[test]
fn a_better_branch_takes_over() {
    let (mut sim, old, mut new, third) = fork();
    assert_eq!(sim.state, old);
    new.push(third.header.id);
    let r = sim.process(third, HeaderReply::Valid);
    assert!(matches!(r, Ok(ProcessBlockOutcome::Accepted)), "{:?}", r);
    assert_eq!(sim.state, new);
    assert_eq!(sim.tip.height, 3);
    assert_eq!(sim.tip.block_id, new[3]);
    assert_eq!(sim.tip.cumulative_work, work_of(4));
}

#[test]
fn a_failed_change_of_branch_is_undone() {
    let (mut sim, old, _new, mut third) = fork();
    third.header.state_root = Hash256([0x44; 32]);
    let r = sim.process(third, HeaderReply::Valid);
    assert!(
        matches!(&r, Err(ProcessBlockError::Recoverable(m)) if m.starts_with("state root mismatch during reorg at height 3")),
        "{:?}",
        r
    );
    assert_eq!(sim.state, old);
    assert_eq!(sim.tip.block_id, old[2]);
    let (mut sim, old, _new, third) = fork();
    sim.fail_commit = true;
    let r = sim.process(third, HeaderReply::Valid);
    assert!(r.is_err());
    assert_eq!(sim.state, old);
    assert_eq!(sim.tip.block_id, old[2]);
}

#[test]
fn lost_work_at_the_fork_point_is_fatal_at_once() {
    let (mut sim, old, mut new, third) = fork();
    new.push(third.header.id);
    sim.works.remove(&old[0].0);
    let r = sim.process(third, HeaderReply::Valid);
    let text =
        format!("fork point {} cumulative work missing during reorg", "01".repeat(32));
    assert!(matches!(&r, Err(ProcessBlockError::Fatal(m)) if *m == text), "{:?}", r);
    // Nothing is rolled back: the node stops.
    assert_eq!(sim.state, new);
    assert_eq!(sim.tip.block_id, old[2]);
    assert!(!sim.log.iter().any(|a| a.starts_with("UndoNew") || a.starts_with("RedoOld")));
}

#[test]
fn a_missing_ancestor_is_named() {
    let (mut sim, old, new, third) = fork();
    sim.blocks.remove(&new[1].0);
    let r = sim.process(third, HeaderReply::Valid);
    assert!(
        matches!(r, Err(ProcessBlockError::MissingReorgAncestor(id)) if id == new[1]),
        "{:?}",
        r
    );
    assert_eq!(sim.state, old);
}

#[test]
fn lost_canonical_blocks_are_fatal() {
    let (mut sim, old, _new, third) = fork();
    sim.blocks.remove(&old[2].0);
    let r = sim.process(third, HeaderReply::Valid);
    assert!(matches!(&r, Err(e) if e.is_fatal()), "{:?}", r);
}

#[test]
fn a_checkpoint_must_match() {
    let (_sim, chain) = Sim::new();
    let b = block_on(&chain, 1, 0);
    let id = b.header.id;
    for (hash, good) in [(id, true), (Hash256([9; 32]), false)] {
        let checkpoint = Checkpoint { height: 1, hash, cumulative_work: [0u8; 32] };
        let mut p = BlockPipeline::new(copy(&b), true, true, checkpoint);
        p.step(Event::Known(Ok(false)));
        p.step(Event::Found(Ok(true)));
        p.step(Event::Checked(Ok(())));
        p.step(Event::Difficulty(DifficultyReply::Known));
        p.step(Event::HeaderChecked(HeaderReply::Valid));
        if good {
            assert!(matches!(p.action(), Action::GetWork(_)));
            p.step(Event::Work(Ok(Some([0u8; 32]))));
            // The work that the checkpoint claims is not that of the chain.
            assert_eq!(p.checkpoint_findings(), (true, true));
        } else {
            assert!(matches!(p.action(), Action::Nothing));
            match p.into_result() {
                Some(Err(e)) => {
                    assert!(e.message().starts_with("assume-valid checkpoint FAILED at height 1: "))
                }
                _ => panic!("expected a rejection"),
            }
        }
    }
}

#[test]
fn errors_say_what_they_are() {
    let e = ProcessBlockError::from("broken".to_string());
    assert!(!e.is_fatal());
    assert_eq!(e.message(), "broken");
    assert!(!e.is_header_only());
    let f = ProcessBlockError::Fatal("x".to_string());
    assert!(f.is_fatal());
    assert_eq!(f.message(), "FATAL: x");
    let h = ProcessBlockError::from("block header validation failed: PowInvalid".to_string());
    assert!(h.is_header_only());
    let m = ProcessBlockError::MissingReorgAncestor(Hash256([0xab; 32]));
    assert_eq!(m.message(), format!("missing reorg ancestor: {}", "ab".repeat(32)));
    assert!(!m.is_fatal() && !m.is_header_only());
    // With its kind, an error has its message in quotes.
    assert_eq!(e.full_message(), "Recoverable(\"broken\")");
    assert_eq!(f.full_message(), "Fatal(\"x\")");
    assert_eq!(m.full_message(), format!("MissingReorgAncestor({})", "ab".repeat(32)));
    let odd = ProcessBlockError::from("a \"b\"\n".to_string());
    assert_eq!(odd.full_message(), "Recoverable(\"a \\\"b\\\"\\n\")");
    assert_eq!(odd.message_with_kind("'q'"), "Recoverable('q')");
}

#[test]
fn better_chains_are_an_order() {
    let tip = |w: u8, id: u8| ChainTip {
        block_id: Hash256([id; 32]),
        height: 5,
        cumulative_work: work_of(w),
    };
    assert!(is_better_chain(&tip(2, 9), &tip(1, 1)));
    assert!(!is_better_chain(&tip(1, 1), &tip(2, 9)));
    assert!(!is_better_chain(&tip(1, 1), &tip(1, 1)));
    // With the same work the higher one is better.
    let higher = ChainTip { height: 6, ..tip(1, 1) };
    assert!(is_better_chain(&higher, &tip(1, 2)));
    assert!(!is_better_chain(&tip(1, 2), &higher));
}
