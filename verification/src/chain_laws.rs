//! What becomes of outputs, of forks, and of blocks that wait.
use crate::chain::{better_chain, Block, ChainTip, OutPoint, Transaction};
use crate::clock::age;
use crate::errors::{FaultView, ProcessBlockOutcome};
use crate::forks::{
    fork_plan, is_kept, lemma_weakest_exists, weakest, with_stored, without, ForkEntry, ForkPlan,
};
use crate::future::{buffered, first_block, holds_block, unexpired, with_again, with_age};
use crate::hash::Hash256;
use crate::intake::{follow_up_of, BlockIntake, IntakeReply, IntakeStep, Origin};
use crate::orphans::{cached, is_cached, Orphan, OrphanLimits};
use crate::utxo::{apply_tx, can_apply, can_undo, logged, undo_tx, SpentLog, Utxos};
use crate::work::{be_nat, pow256, target_work, work_sum};
use vstd::prelude::*;

verus! {

// ---------------------------------------------------------------------------
// Outputs
// ---------------------------------------------------------------------------
/// A transaction that is taken in makes each of its outputs unspent, with its
/// amount and script; what it spends is no longer unspent, and every other
/// output stays as it was. A coinbase spends nothing.
pub proof fn law_transaction_moves_outputs(
    m: Utxos,
    tx: Transaction,
    height: u64,
    p: OutPoint,
    i: int,
)
    requires
        can_apply(m, tx),
    ensures
        ({
            let t = apply_tx(m, tx, height);
            let own = p.tx_id == tx.tx_id && p.output_index < tx.outputs@.len();
            let spent = !tx.is_coinbase && tx.inputs@.contains(p);
            &&& own ==> t.contains_key(p) && {
                let o = tx.outputs@[p.output_index as int];
                &&& t[p].value == o.value
                &&& t[p].script == o.script@
                &&& t[p].height == height
                &&& t[p].is_coinbase == tx.is_coinbase
            }
            &&& spent && !own ==> m.contains_key(p) && !t.contains_key(p)
            &&& !spent && !own ==> t.contains_key(p) == m.contains_key(p) && (m.contains_key(p)
                ==> t[p] == m[p])
            &&& own && !spent ==> !m.contains_key(p)
        }),
{
    if !tx.is_coinbase && tx.inputs@.contains(p) {
        let k = choose|k: int| 0 <= k < tx.inputs@.len() && tx.inputs@[k] == p;
        assert(crate::utxo::spends(tx)[k] == p);
        assert(crate::utxo::spends(tx).to_set().contains(p));
    }
    if crate::utxo::spends(tx).to_set().contains(p) {
        assert(crate::utxo::spends(tx).contains(p));
    }
    assert(crate::utxo::is_output_of(tx, p) <==> p.tx_id == tx.tx_id && p.output_index
        < tx.outputs@.len());
}

/// A transaction is not taken in if it spends something that is not unspent, or
/// the same output twice, or if it would make an output that is there already.
pub proof fn law_bad_transaction_is_not_taken_in(m: Utxos, tx: Transaction, i: int, j: int)
    ensures
        !tx.is_coinbase && 0 <= i < tx.inputs@.len() && !m.contains_key(tx.inputs@[i])
            ==> !can_apply(m, tx),
        !tx.is_coinbase && 0 <= i < j < tx.inputs@.len() && tx.inputs@[i] == tx.inputs@[j]
            ==> !can_apply(m, tx),
        forall|p: OutPoint|
            #![trigger m.contains_key(p)]
            p.tx_id == tx.tx_id && p.output_index < tx.outputs@.len() && m.contains_key(p) && (
            tx.is_coinbase || !tx.inputs@.contains(p)) ==> !can_apply(m, tx),
{
    if !tx.is_coinbase && 0 <= i < tx.inputs@.len() {
        assert(crate::utxo::spends(tx)[i] == tx.inputs@[i]);
    }
    assert forall|p: OutPoint|
        #![trigger m.contains_key(p)]
        p.tx_id == tx.tx_id && p.output_index < tx.outputs@.len() && m.contains_key(p) && (
        tx.is_coinbase || !tx.inputs@.contains(p)) implies !can_apply(m, tx) by {
        assert(crate::utxo::is_output_of(tx, p));
        assert(!crate::utxo::spends(tx).contains(p));
    }
}

/// A transaction that is taken out leaves none of its outputs, and what it spent
/// is unspent again as the log records it; every other output stays.
pub proof fn law_undone_transaction_gives_back(
    m: Utxos,
    tx: Transaction,
    log: SpentLog,
    p: OutPoint,
)
    requires
        can_undo(m, tx, log),
    ensures
        ({
            let t = undo_tx(m, tx, log);
            let own = p.tx_id == tx.tx_id && p.output_index < tx.outputs@.len();
            let spent = !tx.is_coinbase && tx.inputs@.contains(p);
            &&& own && !spent ==> m.contains_key(p) && !t.contains_key(p)
            &&& spent ==> t.contains_key(p) && logged(log, p) && exists|k: int|
                0 <= k < log.len() && (#[trigger] log[k]).0 == p && t[p] == log[k].1@
            &&& !spent && !own ==> t.contains_key(p) == m.contains_key(p) && (m.contains_key(p)
                ==> t[p] == m[p])
        }),
{
    assert(crate::utxo::is_output_of(tx, p) <==> p.tx_id == tx.tx_id && p.output_index
        < tx.outputs@.len());
    if !tx.is_coinbase && tx.inputs@.contains(p) {
        let k = choose|k: int| 0 <= k < tx.inputs@.len() && tx.inputs@[k] == p;
        assert(crate::utxo::spends(tx)[k] == p);
        assert(logged(log, p));
        lemma_first_record(log, p);
        let q = crate::utxo::log_pos(log, p);
        assert(log[q].0 == p);
    }
}

proof fn lemma_first_record(log: SpentLog, p: OutPoint)
    requires
        logged(log, p),
    ensures
        ({
            let q = crate::utxo::log_pos(log, p);
            0 <= q < log.len() && log[q].0 == p
        }),
{
    let i = choose|i: int| 0 <= i < log.len() && (#[trigger] log[i]).0 == p;
    lemma_first_record_below(log, p, i);
}

proof fn lemma_first_record_below(log: SpentLog, p: OutPoint, i: int)
    requires
        0 <= i < log.len(),
        log[i].0 == p,
    ensures
        exists|q: int|
            0 <= q < log.len() && (#[trigger] log[q]).0 == p && forall|j: int|
                0 <= j < q ==> (#[trigger] log[j]).0 != p,
    decreases i,
{
    if exists|j: int| 0 <= j < i && (#[trigger] log[j]).0 == p {
        let j = choose|j: int| 0 <= j < i && (#[trigger] log[j]).0 == p;
        lemma_first_record_below(log, p, j);
    } else {
        assert(log[i].0 == p);
    }
}

// ---------------------------------------------------------------------------
// Work and fork choice
// ---------------------------------------------------------------------------
/// Work adds up, up to the most that fits; a smaller target takes at least as much
/// work, and the work times one more than the target is the whole range, but for
/// a remainder.
pub proof fn law_work_adds_up(a: nat, b: nat, s: nat, t: nat)
    requires
        0 < s <= t,
    ensures
        work_sum(a, b) == work_sum(b, a),
        a + b < pow256(32) ==> work_sum(a, b) == a + b,
        a + b >= pow256(32) ==> work_sum(a, b) == pow256(32) - 1,
        target_work(s) >= target_work(t),
        target_work(t) * (t + 1) <= pow256(32) < (target_work(t) + 1) * (t + 1),
{
    crate::work::lemma_pow256_pos(32);
    let p = pow256(32) as int;
    let (x, y) = ((s + 1) as int, (t + 1) as int);
    vstd::arithmetic::div_mod::lemma_div_is_ordered_by_denominator(p, x, y);
    vstd::arithmetic::div_mod::lemma_fundamental_div_mod(p, y);
    vstd::arithmetic::div_mod::lemma_mod_bound(p, y);
    assert(y * (p / y) == (p / y) * y) by (nonlinear_arith);
    assert(((p / y) + 1) * y == (p / y) * y + y) by (nonlinear_arith);
}

/// The chain with more work is followed; of two with as much, the higher one; and
/// of two that are alike in both, none is better.
pub proof fn law_more_work_wins(a: ChainTip, b: ChainTip)
    ensures
        be_nat(a.cumulative_work@) > be_nat(b.cumulative_work@) ==> better_chain(a, b)
            && !better_chain(b, a),
        be_nat(a.cumulative_work@) == be_nat(b.cumulative_work@) ==> (better_chain(a, b)
            <==> a.height > b.height),
{
}

/// A block of a fork is kept unless it is kept already or the pool of a hundred
/// and twenty-eight is full of blocks with at least as much work; in a full pool
/// a block with the least work makes way for it.
pub proof fn law_strong_forks_are_kept(s: Seq<ForkEntry>, id: Hash256, work: nat, j: int)
    requires
        0 <= j < s.len(),
    ensures
        s[j].id == id ==> fork_plan(s, id, work) is Drop,
        !is_kept(s, id) && s.len() < 128 ==> fork_plan(s, id, work) == (ForkPlan::Store {
            evict: None,
        }),
        !is_kept(s, id) && s.len() >= 128 && work > be_nat(s[j].work@) ==> (fork_plan(s, id, work)
            matches ForkPlan::Store { evict } && evict is Some && is_kept(s, evict->0)),
        fork_plan(s, id, work) matches ForkPlan::Store { evict: Some(v) } ==> exists|k: int|
            0 <= k < s.len() && (#[trigger] s[k]).id == v && be_nat(s[k].work@) <= be_nat(
                s[j].work@,
            ) && be_nat(s[k].work@) < work,
{
    lemma_weakest_exists(s);
    let k = weakest(s);
    assert(s[k].weight() <= s[j].weight());
    assert(s[k].id == s[k].id);
    if s[j].id == id {
        assert(is_kept(s, id));
    }
}

// ---------------------------------------------------------------------------
// Blocks that wait
// ---------------------------------------------------------------------------
/// A block without its parent waits for it if it is small enough and does not wait
/// already: it is the last in the list, with its parent and size.
pub proof fn law_orphan_waits_for_its_parent(
    s: Seq<Orphan>,
    block: Block,
    size: usize,
    limits: OrphanLimits,
)
    ensures
        ({
            let t = cached(s, block, size, limits);
            let there = exists|i: int|
                0 <= i < s.len() && (#[trigger] s[i]).block.header.id == block.header.id;
            &&& size > limits.max_block_size || there ==> t == s
            &&& size <= limits.max_block_size && !there ==> {
                &&& t.len() > 0
                &&& t.last().block == block
                &&& t.last().parent == block.header.prev_block_id
                &&& t.last().size == size
            }
        }),
{
    if is_cached(s, block.header.id) {
    }
}

/// A block ahead of the clock waits: it is the last in the list with the time at
/// which it came, unless it waits already. A block that came less than five
/// minutes ago still waits, unless the list is full and it is the first.
pub proof fn law_future_block_waits(s: Seq<(Block, u64)>, block: Block, now: u64, j: int)
    requires
        0 <= j < s.len(),
    ensures
        ({
            let t = buffered(s, block, now);
            let live = unexpired(s, now);
            &&& age(now, s[j].1) < 300_000_000_000 ==> live.contains(s[j])
            &&& holds_block(live, block.header.id) ==> t == live
            &&& !holds_block(live, block.header.id) ==> t.len() > 0 && t.last() == (block, now)
            &&& forall|i: int|
                0 <= i < live.len() ==> age(now, (#[trigger] live[i]).1) < 300_000_000_000
        }),
{
    lemma_unexpired(s, now, j);
}

proof fn lemma_unexpired(s: Seq<(Block, u64)>, now: u64, j: int)
    ensures
        0 <= j < s.len() && age(now, s[j].1) < 300_000_000_000 ==> unexpired(s, now).contains(s[j]),
        forall|i: int|
            0 <= i < unexpired(s, now).len() ==> age(now, (#[trigger] unexpired(s, now)[i]).1)
                < 300_000_000_000,
    decreases s.len(),
{
    if s.len() > 0 {
        let t = s.drop_last();
        lemma_unexpired(t, now, j);
        let (a, b) = (unexpired(t, now), unexpired(s, now));
        if 0 <= j < s.len() && age(now, s[j].1) < 300_000_000_000 {
            if j < t.len() {
                let i = choose|i: int| 0 <= i < a.len() && a[i] == t[j];
                assert(b[i] == s[j]);
            } else {
                assert(b[b.len() - 1] == s[j]);
            }
        }
    }
}

/// A block that still has to wait is put back with the time at which it first
/// came.
pub proof fn law_waiting_block_keeps_its_time(s: Seq<(Block, u64)>, block: Block, first_came: u64)
    requires
        s.len() < crate::future::MAX_FUTURE_BLOCKS,
    ensures
        with_again(s, block, first_came).last() == (block, first_came),
        with_again(s, block, first_came).drop_last() == s,
{
    assert(with_again(s, block, first_came).drop_last() =~= s);
}

// ---------------------------------------------------------------------------
// What follows from a block
// ---------------------------------------------------------------------------
/// A peer is credited for a good block and struck for a bad one, never both, and
/// neither for a block that did not come from it. Only an accepted block is passed
/// on. A missing ancestor is asked for and held against nobody.
pub proof fn law_block_has_its_due(
    origin: Origin,
    result: Result<ProcessBlockOutcome, FaultView>,
)
    ensures
        ({
            let f = follow_up_of(origin, result);
            &&& !(f.credit && f.strike)
            &&& f.credit ==> origin is Peer && result is Ok
            &&& origin is Peer && (result == Ok::<_, FaultView>(ProcessBlockOutcome::Accepted)
                || result == Ok::<_, FaultView>(ProcessBlockOutcome::Stored)) <==> f.credit
            &&& f.strike <==> origin is Peer && (result matches Err(FaultView::Recoverable(_)))
            &&& f.halt <==> (result matches Err(FaultView::Fatal(_)))
            &&& f.relay <==> (origin is Peer || origin is Future) && result == Ok::<_, FaultView>(
                ProcessBlockOutcome::Accepted,
            )
            &&& f.adopt_children <==> result == Ok::<_, FaultView>(ProcessBlockOutcome::Accepted)
                || result == Ok::<_, FaultView>(ProcessBlockOutcome::Stored)
            &&& f.recover matches Some(id) ==> result == Err::<ProcessBlockOutcome, _>(
                FaultView::MissingReorgAncestor(id),
            )
            &&& result matches Err(FaultView::MissingReorgAncestor(id)) ==> !(origin is Orphan)
                ==> f.recover == Some(id)
            &&& f.rebuffer ==> origin is Future
        }),
{
}

/// A block that a peer sends is handled only after its parent was found right
/// below it, its target was found to be the one that it has to have, the budget
/// allowed it and its work was found to hold. A wrong height, a wrong target and
/// failed work earn a strike; a block without its parent is put aside.
pub proof fn law_block_is_taken_in_step_by_step(m: BlockIntake, t: Hash256, h: u64, ok: bool)
    requires
        h < u64::MAX,
    ensures
        m.next(IntakeReply::Parent(None)).step is CacheOrphan,
        m.next(IntakeReply::Parent(Some(h))).step is FindTarget <==> m.height == h + 1,
        m.next(IntakeReply::Parent(Some(h))).step is Strike <==> m.height != h + 1,
        m.next(IntakeReply::Target(t)).step is TakeSlot <==> t == m.target,
        m.next(IntakeReply::Target(t)).step is Strike <==> t != m.target,
        m.next(IntakeReply::AncestryMissing).step is TakeSlot,
        m.next(IntakeReply::Slot(false)).step is Drop,
        m.next(IntakeReply::Failed).step is Drop,
        !m.ancestry_missing && !m.pre_validated ==> m.next(IntakeReply::Slot(true)).step is CheckPow,
        !m.ancestry_missing && m.pre_validated ==> m.next(IntakeReply::Slot(true)).step == (
        IntakeStep::Process { pre_validated: true }),
        m.ancestry_missing ==> m.next(IntakeReply::Slot(true)).step == (IntakeStep::Process {
            pre_validated: false,
        }),
        ok ==> m.next(IntakeReply::Pow(ok)).step == (IntakeStep::Process { pre_validated: true }),
        !ok ==> m.next(IntakeReply::Pow(ok)).step is Strike,
{
}

proof fn lemma_without(s: Seq<ForkEntry>, id: Hash256, e: ForkEntry)
    ensures
        without(s, id).contains(e) <==> s.contains(e) && e.id != id,
    decreases s.len(),
{
    if s.len() > 0 {
        let t = s.drop_last();
        lemma_without(t, id, e);
        let (a, b) = (without(t, id), without(s, id));
        if t.contains(e) {
            let i = choose|i: int| 0 <= i < t.len() && t[i] == e;
            assert(s[i] == e);
        }
        if s.contains(e) {
            let i = choose|i: int| 0 <= i < s.len() && s[i] == e;
            if i < t.len() {
                assert(t[i] == e);
            }
        }
        if s.last() == e {
            assert(s[s.len() - 1] == e);
        }
        if a.contains(e) {
            let i = choose|i: int| 0 <= i < a.len() && a[i] == e;
            assert(b[i] == e);
        }
        if b.contains(e) {
            let i = choose|i: int| 0 <= i < b.len() && b[i] == e;
            if i < a.len() {
                assert(a[i] == e);
            }
        }
        if s.last() == e && e.id != id {
            assert(b[b.len() - 1] == e);
        }
    }
}

/// A block of a fork that is stored is kept, the one that makes way is not, and
/// every other one stays.
pub proof fn law_stored_fork_block_is_kept(
    s: Seq<ForkEntry>,
    e: ForkEntry,
    victim: Hash256,
    other: ForkEntry,
)
    requires
        e.id != victim,
    ensures
        is_kept(with_stored(s, e, None), e.id),
        is_kept(with_stored(s, e, Some(victim)), e.id),
        s.contains(other) ==> with_stored(s, e, None).contains(other),
        s.contains(other) && other.id != victim ==> with_stored(s, e, Some(victim)).contains(other),
        !is_kept(with_stored(s, e, Some(victim)), victim),
{
    lemma_stored(s, e, other);
    lemma_stored(without(s, victim), e, other);
    lemma_without(s, victim, other);
    let t = with_stored(s, e, Some(victim));
    if is_kept(t, victim) {
        let i = choose|i: int| 0 <= i < t.len() && (#[trigger] t[i]).id == victim;
        lemma_without(s, victim, t[i]);
        if i < without(s, victim).len() {
            assert(without(s, victim)[i] == t[i]);
            assert(without(s, victim).contains(t[i]));
        }
    }
}

proof fn lemma_stored(t: Seq<ForkEntry>, e: ForkEntry, other: ForkEntry)
    ensures
        is_kept(with_stored(t, e, None), e.id),
        t.contains(other) ==> with_stored(t, e, None).contains(other),
{
    let u = with_stored(t, e, None);
    if !is_kept(t, e.id) {
        assert(u[t.len() as int].id == e.id);
        if t.contains(other) {
            let i = choose|i: int| 0 <= i < t.len() && t[i] == other;
            assert(u[i] == other);
        }
    }
}

/// A block whose first coming is put back waits from then on, and no other block
/// is touched.
pub proof fn law_first_coming_is_put_back(s: Seq<(Block, u64)>, id: Hash256, first_came: u64, k: int)
    requires
        0 <= k < s.len(),
        s[k].0.header.id == id,
        forall|j: int| 0 <= j < k ==> (#[trigger] s[j]).0.header.id != id,
    ensures
        with_age(s, id, first_came) == s.update(k, (s[k].0, first_came)),
{
    assert(holds_block(s, id));
    lemma_first_block(s, id, k);
}

proof fn lemma_first_block(s: Seq<(Block, u64)>, id: Hash256, k: int)
    requires
        0 <= k < s.len(),
        s[k].0.header.id == id,
        forall|j: int| 0 <= j < k ==> (#[trigger] s[j]).0.header.id != id,
    ensures
        first_block(s, id) == k,
    decreases s.len(),
{
    if k > 0 {
        let t = s.drop_first();
        assert(t[k - 1] == s[k]);
        assert forall|j: int| 0 <= j < k - 1 implies (#[trigger] t[j]).0.header.id != id by {
            assert(t[j] == s[j + 1]);
        }
        lemma_first_block(t, id, k - 1);
    }
}

} // verus!
