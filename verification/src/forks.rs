//! The blocks of forks that are kept, and the difficulty targets that are
//! remembered.
use crate::assoc::{
    distinct_keys, entries_map, insert_entry, key_pos, lemma_insert, lemma_remove, AssocMap, Key,
};
use crate::hash::Hash256;
use crate::work::{be_nat, work_less};
use vstd::prelude::*;

verus! {

/// How many blocks of forks are kept.
pub const MAX_FORK_BLOCKS: u32 = 128;

/// How many difficulty targets are remembered.
pub const MAX_DIFFICULTY_CACHE_ENTRIES: usize = 256;

/// A kept block: its id and the work of the chain that ends in it.
#[derive(Clone, Copy, Debug)]
pub struct ForkEntry {
    pub id: Hash256,
    pub work: [u8; 32],
}

impl ForkEntry {
    pub open spec fn weight(self) -> nat {
        be_nat(self.work@)
    }
}

/// Whether a block is kept.
pub open spec fn is_kept(s: Seq<ForkEntry>, id: Hash256) -> bool {
    exists|i: int| 0 <= i < s.len() && (#[trigger] s[i]).id == id
}

/// Whether the entry at `i` has the least work; of several the first.
pub open spec fn is_weakest(s: Seq<ForkEntry>, i: int) -> bool {
    &&& 0 <= i < s.len()
    &&& forall|j: int| 0 <= j < s.len() ==> s[i].weight() <= (#[trigger] s[j]).weight()
    &&& forall|j: int| 0 <= j < i ==> s[i].weight() < (#[trigger] s[j]).weight()
}

/// The position of the entry with the least work.
pub open spec fn weakest(s: Seq<ForkEntry>) -> int {
    choose|i: int| is_weakest(s, i)
}

/// What is to be done with the block of a fork.
#[derive(Clone, Copy, Debug)]
pub enum ForkPlan {
    /// It is not kept.
    Drop,
    /// It is kept, and where there is no room another block makes way.
    Store { evict: Option<Hash256> },
}

/// What is to be done with a block, given the blocks that are kept.
pub open spec fn fork_plan(s: Seq<ForkEntry>, id: Hash256, work: nat) -> ForkPlan {
    if is_kept(s, id) {
        ForkPlan::Drop
    } else if s.len() < MAX_FORK_BLOCKS {
        ForkPlan::Store { evict: None }
    } else if work > s[weakest(s)].weight() {
        ForkPlan::Store { evict: Some(s[weakest(s)].id) }
    } else {
        ForkPlan::Drop
    }
}

/// The entries without those of one block.
pub open spec fn without(s: Seq<ForkEntry>, id: Hash256) -> Seq<ForkEntry>
    decreases s.len(),
{
    if s.len() == 0 {
        s
    } else if s.last().id != id {
        without(s.drop_last(), id).push(s.last())
    } else {
        without(s.drop_last(), id)
    }
}

/// The entries and the ids of those that went when the weakest go until the
/// cap is met.
pub open spec fn trimmed(s: Seq<ForkEntry>, gone: Seq<Hash256>) -> (Seq<ForkEntry>, Seq<Hash256>)
    decreases s.len(),
{
    if s.len() <= MAX_FORK_BLOCKS {
        (s, gone)
    } else {
        proof {
            lemma_weakest_exists(s);
        }
        let i = weakest(s);
        trimmed(s.update(i, s.last()).drop_last(), gone.push(s[i].id))
    }
}

/// The entries after a block was stored and another made way.
pub open spec fn with_stored(
    s: Seq<ForkEntry>,
    e: ForkEntry,
    evict: Option<Hash256>,
) -> Seq<ForkEntry> {
    let t = match evict {
        Some(v) => without(s, v),
        None => s,
    };
    if is_kept(t, e.id) {
        t
    } else {
        t.push(e)
    }
}

/// The entries after blocks of the chain were put among those of forks.
pub open spec fn with_demoted(s: Seq<ForkEntry>, blocks: Seq<ForkEntry>) -> Seq<ForkEntry>
    decreases blocks.len(),
{
    if blocks.len() == 0 {
        s
    } else {
        with_stored(with_demoted(s, blocks.drop_last()), blocks.last(), None)
    }
}

/// The entries of blocks that are not among `promoted`.
pub open spec fn not_promoted(s: Seq<ForkEntry>, promoted: Seq<Hash256>) -> Seq<ForkEntry>
    decreases s.len(),
{
    if s.len() == 0 {
        s
    } else if !promoted.contains(s.last().id) {
        not_promoted(s.drop_last(), promoted).push(s.last())
    } else {
        not_promoted(s.drop_last(), promoted)
    }
}

/// The blocks of forks that are kept.
pub struct ForkPool {
    entries: Vec<ForkEntry>,
}

impl View for ForkPool {
    type V = Seq<ForkEntry>;

    closed spec fn view(&self) -> Seq<ForkEntry> {
        self.entries@
    }
}

proof fn lemma_weakest_is(s: Seq<ForkEntry>, i: int)
    requires
        is_weakest(s, i),
    ensures
        weakest(s) == i,
{
    let j = weakest(s);
    assert(is_weakest(s, j));
    if i < j {
        assert(s[j].weight() < s[i].weight());
        assert(s[i].weight() <= s[j].weight());
    } else if j < i {
        assert(s[i].weight() < s[j].weight());
        assert(s[j].weight() <= s[i].weight());
    }
}

/// A list that is not empty has an entry with the least work.
pub proof fn lemma_weakest_exists(s: Seq<ForkEntry>)
    requires
        s.len() > 0,
    ensures
        is_weakest(s, weakest(s)),
    decreases s.len(),
{
    if s.len() == 1 {
        assert(is_weakest(s, 0));
    } else {
        let t = s.drop_last();
        lemma_weakest_exists(t);
        let i = weakest(t);
        if s.last().weight() < t[i].weight() {
            assert forall|j: int| 0 <= j < s.len() implies s[s.len() - 1].weight() <= (
            #[trigger] s[j]).weight() by {
                if j < t.len() {
                    assert(t[i].weight() <= t[j].weight());
                }
            }
            assert forall|j: int| 0 <= j < s.len() - 1 implies s[s.len() - 1].weight() < (
            #[trigger] s[j]).weight() by {
                assert(t[i].weight() <= t[j].weight());
            }
            assert(is_weakest(s, s.len() - 1));
        } else {
            assert forall|j: int| 0 <= j < s.len() implies s[i].weight() <= (
            #[trigger] s[j]).weight() by {
                if j < t.len() {
                    assert(t[i].weight() <= t[j].weight());
                }
            }
            assert forall|j: int| 0 <= j < i implies s[i].weight() < (#[trigger] s[j]).weight() by {
                assert(t[i].weight() < t[j].weight());
            }
            assert(is_weakest(s, i));
        }
    }
}

impl ForkPool {
    /// There are no more entries than may be kept.
    pub open spec fn wf(&self) -> bool {
        self@.len() <= MAX_FORK_BLOCKS
    }

    pub fn new() -> (r: Self)
        ensures
            r.wf(),
            r@ == Seq::<ForkEntry>::empty(),
    {
        ForkPool { entries: Vec::new() }
    }

    pub fn len(&self) -> (r: usize)
        ensures
            r == self@.len(),
    {
        self.entries.len()
    }

    pub fn contains(&self, id: &Hash256) -> (r: bool)
        ensures
            r == is_kept(self@, *id),
    {
        let mut i: usize = 0;
        while i < self.entries.len()
            invariant
                i <= self@.len(),
                forall|j: int| 0 <= j < i ==> (#[trigger] self@[j]).id != *id,
            decreases self@.len() - i,
        {
            if self.entries[i].id == *id {
                assert(self@[i as int].id == *id);
                return true;
            }
            i = i + 1;
        }
        false
    }

    fn weakest_index(&self) -> (r: usize)
        requires
            self@.len() > 0,
        ensures
            r == weakest(self@),
            is_weakest(self@, r as int),
    {
        let mut best: usize = 0;
        let mut i: usize = 1;
        while i < self.entries.len()
            invariant
                1 <= i <= self@.len(),
                best < i,
                forall|j: int|
                    0 <= j < i ==> self@[best as int].weight() <= (#[trigger] self@[j]).weight(),
                forall|j: int|
                    0 <= j < best ==> self@[best as int].weight() < (#[trigger] self@[j]).weight(),
            decreases self@.len() - i,
        {
            if work_less(&self.entries[i].work, &self.entries[best].work) {
                best = i;
            }
            i = i + 1;
        }
        proof {
            assert(is_weakest(self@, best as int));
            lemma_weakest_is(self@, best as int);
        }
        best
    }

    /// What is to be done with a block of a fork.
    ///
    /// `known` tells whether the chain has taken the block in meanwhile, and
    /// `size` how long it is when serialised.
    pub fn plan_store(
        &self,
        id: &Hash256,
        work: &[u8; 32],
        known: bool,
        size: usize,
        max_size: usize,
    ) -> (r: ForkPlan)
        ensures
            r == (if known || size > max_size {
                ForkPlan::Drop
            } else {
                fork_plan(self@, *id, be_nat(work@))
            }),
    {
        if known || size > max_size || self.contains(id) {
            return ForkPlan::Drop;
        }
        if self.entries.len() < MAX_FORK_BLOCKS as usize {
            return ForkPlan::Store { evict: None };
        }
        let i: usize = self.weakest_index();
        if work_less(&self.entries[i].work, work) {
            ForkPlan::Store { evict: Some(self.entries[i].id) }
        } else {
            ForkPlan::Drop
        }
    }

    fn remove_id(&mut self, id: &Hash256)
        ensures
            final(self)@ == without(old(self)@, *id),
    {
        let ghost s = self@;
        let mut kept: Vec<ForkEntry> = Vec::new();
        let mut i: usize = 0;
        assert(s.take(0) =~= Seq::<ForkEntry>::empty());
        while i < self.entries.len()
            invariant
                s == self@,
                i <= s.len(),
                kept@ == without(s.take(i as int), *id),
            decreases s.len() - i,
        {
            assert(s.take(i + 1).drop_last() =~= s.take(i as int));
            assert(s.take(i + 1).last() == s[i as int]);
            if self.entries[i].id != *id {
                kept.push(self.entries[i]);
            }
            i = i + 1;
        }
        assert(s.take(s.len() as int) =~= s);
        self.entries = kept;
    }

    /// Notes that a block was stored and another removed to make way for it.
    /// Blocks that others stored meanwhile may have used up the room: the
    /// weakest go until the cap is met. Returned are the ids of those, which
    /// are to be removed from storage.
    pub fn commit_store(&mut self, id: Hash256, work: [u8; 32], evict: Option<Hash256>) -> (r: Vec<
        Hash256,
    >)
        ensures
            final(self).wf(),
            (final(self)@, r@) == trimmed(
                with_stored(old(self)@, ForkEntry { id, work }, evict),
                Seq::empty(),
            ),
    {
        let ghost s = self@;
        match evict {
            Some(v) => self.remove_id(&v),
            None => {},
        }
        if !self.contains(&id) {
            self.entries.push(ForkEntry { id, work });
        }
        self.trim()
    }

    /// Notes that blocks which were the chain are stored as blocks of a fork.
    /// The weakest go until the cap is met; returned are their ids, which are
    /// to be removed from storage.
    pub fn demote(&mut self, blocks: &Vec<ForkEntry>) -> (r: Vec<Hash256>)
        ensures
            final(self).wf(),
            (final(self)@, r@) == trimmed(with_demoted(old(self)@, blocks@), Seq::empty()),
    {
        let ghost s = self@;
        let mut i: usize = 0;
        assert(blocks@.take(0) =~= Seq::<ForkEntry>::empty());
        while i < blocks.len()
            invariant
                i <= blocks@.len(),
                self@ == with_demoted(s, blocks@.take(i as int)),
            decreases blocks@.len() - i,
        {
            assert(blocks@.take(i + 1).drop_last() =~= blocks@.take(i as int));
            assert(blocks@.take(i + 1).last() == blocks@[i as int]);
            if !self.contains(&blocks[i].id) {
                self.entries.push(blocks[i]);
            }
            i = i + 1;
        }
        assert(blocks@.take(i as int) =~= blocks@);
        self.trim()
    }

    fn trim(&mut self) -> (r: Vec<Hash256>)
        ensures
            final(self).wf(),
            (final(self)@, r@) == trimmed(old(self)@, Seq::empty()),
    {
        let mut gone: Vec<Hash256> = Vec::new();
        let ghost full = self@;
        while self.entries.len() > MAX_FORK_BLOCKS as usize
            invariant
                trimmed(self@, gone@) == trimmed(full, Seq::empty()),
            decreases self@.len(),
        {
            let ghost before = self@;
            let i: usize = self.weakest_index();
            let e = self.entries.swap_remove(i);
            assert(self@ =~= before.update(i as int, before.last()).drop_last());
            gone.push(e.id);
        }
        gone
    }

    /// Forgets the blocks that have become part of the chain.
    pub fn cleanup_promoted(&mut self, promoted: &Vec<Hash256>)
        requires
            old(self).wf(),
        ensures
            final(self).wf(),
            final(self)@ == not_promoted(old(self)@, promoted@),
    {
        let ghost s = self@;
        let mut kept: Vec<ForkEntry> = Vec::new();
        let mut i: usize = 0;
        assert(s.take(0) =~= Seq::<ForkEntry>::empty());
        while i < self.entries.len()
            invariant
                s == self@,
                i <= s.len(),
                kept@ == not_promoted(s.take(i as int), promoted@),
                kept@.len() <= i,
            decreases s.len() - i,
        {
            assert(s.take(i + 1).drop_last() =~= s.take(i as int));
            assert(s.take(i + 1).last() == s[i as int]);
            if !listed(promoted, &self.entries[i].id) {
                kept.push(self.entries[i]);
            }
            i = i + 1;
        }
        assert(s.take(s.len() as int) =~= s);
        self.entries = kept;
    }
}

/// Whether an id is in a list.
pub fn listed(ids: &Vec<Hash256>, id: &Hash256) -> (r: bool)
    ensures
        r == ids@.contains(*id),
{
    let mut i: usize = 0;
    while i < ids.len()
        invariant
            i <= ids@.len(),
            forall|j: int| 0 <= j < i ==> ids@[j] != *id,
        decreases ids@.len() - i,
    {
        if ids[i] == *id {
            assert(ids@[i as int] == *id);
            return true;
        }
        i = i + 1;
    }
    false
}

/// A block makes way only for one with more work, and no block that stays has
/// less work than the one that makes way. So blocks with little work cannot
/// push out better ones.
pub proof fn law_only_weaker_blocks_make_way(
    s: Seq<ForkEntry>,
    id: Hash256,
    work: nat,
    victim: Hash256,
)
    requires
        fork_plan(s, id, work) == (ForkPlan::Store { evict: Some(victim) }),
    ensures
        exists|i: int|
            0 <= i < s.len() && (#[trigger] s[i]).id == victim && s[i].weight() < work && forall|
                j: int,
            |
                0 <= j < s.len() ==> s[i].weight() <= (#[trigger] s[j]).weight(),
{
    lemma_weakest_exists(s);
    let i = weakest(s);
    assert(s[i].id == victim);
}

proof fn lemma_trimmed(s: Seq<ForkEntry>, gone: Seq<Hash256>)
    ensures
        trimmed(s, gone).0.len() <= MAX_FORK_BLOCKS,
        trimmed(s, gone).0.len() + trimmed(s, gone).1.len() == s.len() + gone.len(),
        s.len() >= MAX_FORK_BLOCKS ==> trimmed(s, gone).0.len() == MAX_FORK_BLOCKS,
    decreases s.len(),
{
    if s.len() > MAX_FORK_BLOCKS {
        lemma_weakest_exists(s);
        let i = weakest(s);
        lemma_trimmed(s.update(i, s.last()).drop_last(), gone.push(s[i].id));
    }
}

/// However many blocks were stored at the same time, no more are kept than the
/// cap allows, none goes as long as the cap is met, and every one that goes is
/// reported.
pub proof fn law_fork_blocks_are_bounded(s: Seq<ForkEntry>)
    ensures
        trimmed(s, Seq::empty()).0.len() <= MAX_FORK_BLOCKS,
        s.len() <= MAX_FORK_BLOCKS ==> trimmed(s, Seq::empty()).0 == s,
        trimmed(s, Seq::empty()).1.len() == s.len() - trimmed(s, Seq::empty()).0.len(),
{
    lemma_trimmed(s, Seq::empty());
}

proof fn lemma_not_promoted(s: Seq<ForkEntry>, promoted: Seq<Hash256>)
    ensures
        forall|i: int|
            0 <= i < not_promoted(s, promoted).len() ==> !promoted.contains(
                (#[trigger] not_promoted(s, promoted)[i]).id,
            ),
    decreases s.len(),
{
    if s.len() > 0 {
        let t = s.drop_last();
        lemma_not_promoted(t, promoted);
        let a = not_promoted(t, promoted);
        let b = not_promoted(s, promoted);
        assert forall|i: int| 0 <= i < b.len() implies !promoted.contains((#[trigger] b[i]).id) by {
            if i < a.len() {
                assert(b[i] == a[i]);
            }
        }
    }
}

/// A block that has become part of the chain takes up no room.
pub proof fn law_promoted_blocks_are_gone(s: Seq<ForkEntry>, promoted: Seq<Hash256>, id: Hash256)
    requires
        promoted.contains(id),
    ensures
        !is_kept(not_promoted(s, promoted), id),
{
    lemma_not_promoted(s, promoted);
}

/// Where a difficulty target applies: above which block, at which height.
#[derive(Clone, Copy, Debug, Eq, Hash)]
pub struct TargetKey {
    pub prev_block_id: Hash256,
    pub height: u64,
}

impl PartialEq for TargetKey {
    fn eq(&self, other: &Self) -> (r: bool) {
        self.prev_block_id == other.prev_block_id && self.height == other.height
    }
}

impl vstd::std_specs::cmp::PartialEqSpecImpl for TargetKey {
    open spec fn obeys_eq_spec() -> bool {
        true
    }

    open spec fn eq_spec(&self, other: &Self) -> bool {
        *self == *other
    }
}

impl Key for TargetKey {
    fn same(&self, other: &Self) -> (r: bool) {
        *self == *other
    }
}

/// Whether the entry at `i` stands lowest; of several the first.
pub open spec fn is_lowest(s: Seq<(TargetKey, Hash256)>, i: int) -> bool {
    &&& 0 <= i < s.len()
    &&& forall|j: int| 0 <= j < s.len() ==> s[i].0.height <= (#[trigger] s[j]).0.height
    &&& forall|j: int| 0 <= j < i ==> s[i].0.height < (#[trigger] s[j]).0.height
}

/// The entry that stands lowest; of several the first.
pub open spec fn lowest(s: Seq<(TargetKey, Hash256)>) -> int {
    choose|i: int| is_lowest(s, i)
}

/// The targets once another one is remembered: where there is no room, the
/// lowest is forgotten first.
pub open spec fn remembered(s: Seq<(TargetKey, Hash256)>, k: TargetKey, target: Hash256) -> Seq<
    (TargetKey, Hash256),
> {
    if s.len() < MAX_DIFFICULTY_CACHE_ENTRIES {
        insert_entry(s, k, target)
    } else {
        insert_entry(s.remove(lowest(s)), k, target)
    }
}

/// The difficulty targets that are remembered.
pub struct DifficultyCache {
    targets: AssocMap<TargetKey, Hash256>,
}

impl View for DifficultyCache {
    type V = Map<TargetKey, Hash256>;

    closed spec fn view(&self) -> Map<TargetKey, Hash256> {
        self.targets@
    }
}

impl DifficultyCache {
    /// The targets in the order in which they came.
    pub closed spec fn seq(&self) -> Seq<(TargetKey, Hash256)> {
        self.targets.seq()
    }

    /// No place is held twice, and there are no more than may be remembered.
    pub closed spec fn wf(&self) -> bool {
        self.targets.wf() && self.targets.seq().len() <= MAX_DIFFICULTY_CACHE_ENTRIES
    }

    /// What the list order and the map have to do with each other.
    pub proof fn lemma_seq(&self)
        requires
            self.wf(),
        ensures
            distinct_keys(self.seq()),
            self@ == entries_map(self.seq()),
            forall|i: int|
                0 <= i < self.seq().len() ==> self@.contains_key(#[trigger] self.seq()[i].0)
                    && self@[self.seq()[i].0] == self.seq()[i].1,
            self@.dom().finite(),
            self.seq().len() == self@.len(),
            self.seq().len() <= MAX_DIFFICULTY_CACHE_ENTRIES,
    {
        self.targets.lemma_seq();
        self.targets.lemma_size();
    }

    pub fn new() -> (r: Self)
        ensures
            r.wf(),
            r@ == Map::<TargetKey, Hash256>::empty(),
            r.seq() == Seq::<(TargetKey, Hash256)>::empty(),
    {
        DifficultyCache { targets: AssocMap::new() }
    }

    /// The remembered target, if there is one.
    pub fn lookup(&self, prev_block_id: &Hash256, height: u64) -> (r: Option<Hash256>)
        requires
            self.wf(),
        ensures
            r == ({
                let k = TargetKey { prev_block_id: *prev_block_id, height };
                if self@.contains_key(k) {
                    Some(self@[k])
                } else {
                    None
                }
            }),
    {
        match self.targets.get(&TargetKey { prev_block_id: *prev_block_id, height }) {
            Some(t) => Some(*t),
            None => None,
        }
    }

    /// Remembers a target. Where there is no room one entry of the lowest
    /// height is forgotten, not all of them.
    pub fn remember(&mut self, prev_block_id: Hash256, height: u64, target: Hash256)
        requires
            old(self).wf(),
        ensures
            final(self).wf(),
            final(self).seq() == remembered(
                old(self).seq(),
                TargetKey { prev_block_id, height },
                target,
            ),
            old(self).seq().len() < MAX_DIFFICULTY_CACHE_ENTRIES ==> final(self)@ == old(self)@.insert(
                TargetKey { prev_block_id, height },
                target,
            ),
            old(self).seq().len() >= MAX_DIFFICULTY_CACHE_ENTRIES ==> is_lowest(
                old(self).seq(),
                lowest(old(self).seq()),
            ) && final(self)@ == old(self)@.remove(
                old(self).seq()[lowest(old(self).seq())].0,
            ).insert(TargetKey { prev_block_id, height }, target),
    {
        if self.targets.len() >= MAX_DIFFICULTY_CACHE_ENTRIES {
            let mut low: usize = 0;
            let mut i: usize = 1;
            let n: usize = self.targets.len();
            while i < n
                invariant
                    self.targets == old(self).targets,
                    n == self.targets.seq().len(),
                    1 <= i <= n,
                    low < i,
                    forall|j: int|
                        0 <= j < i ==> self.targets.seq()[low as int].0.height
                            <= (#[trigger] self.targets.seq()[j]).0.height,
                    forall|j: int|
                        0 <= j < low ==> self.targets.seq()[low as int].0.height
                            < (#[trigger] self.targets.seq()[j]).0.height,
                decreases n - i,
            {
                if self.targets.at(i).0.height < self.targets.at(low).0.height {
                    low = i;
                }
                i = i + 1;
            }
            proof {
                let s = old(self).seq();
                assert(is_lowest(s, low as int));
                let k = lowest(s);
                assert(is_lowest(s, k));
                assert(s[k].0.height <= s[low as int].0.height);
                assert(k == low);
            }
            let forgotten = self.targets.remove_at(low);
        }
        let none = self.targets.insert(TargetKey { prev_block_id, height }, target);
    }
}

/// Remembering a target forgets one other at most, and that only where there is
/// no room; the one that goes stands no higher than any other. What was just
/// remembered is there.
pub proof fn law_one_target_makes_way(
    cache: &DifficultyCache,
    k: TargetKey,
    target: Hash256,
    other: TargetKey,
)
    requires
        cache.wf(),
        cache@.contains_key(other),
        other != k,
    ensures
        ({
            let s = cache.seq();
            let after = entries_map(remembered(s, k, target));
            &&& after.contains_key(k) && after[k] == target
            &&& after.contains_key(other) || (cache@.len() >= MAX_DIFFICULTY_CACHE_ENTRIES && other
                == s[lowest(s)].0)
            &&& after.contains_key(other) ==> after[other] == cache@[other]
            &&& forall|x: TargetKey| #[trigger]
                cache@.contains_key(x) && !after.contains_key(other) ==> other.height <= x.height
        }),
{
    cache.lemma_seq();
    let s = cache.seq();
    lemma_lowest(s);
    let t = if s.len() < MAX_DIFFICULTY_CACHE_ENTRIES {
        s
    } else {
        s.remove(lowest(s))
    };
    if s.len() >= MAX_DIFFICULTY_CACHE_ENTRIES {
        lemma_remove(s, lowest(s));
    }
    lemma_insert(t, k, target);
    assert forall|x: TargetKey| #[trigger]
        cache@.contains_key(x) && other == s[lowest(s)].0 implies other.height <= x.height by {
        let j = key_pos(s, x);
        assert(s[j].0 == x);
    }
}

proof fn lemma_lowest(s: Seq<(TargetKey, Hash256)>)
    ensures
        s.len() > 0 ==> is_lowest(s, lowest(s)),
    decreases s.len(),
{
    if s.len() == 1 {
        assert(is_lowest(s, 0));
    } else if s.len() > 1 {
        let t = s.drop_last();
        lemma_lowest(t);
        let i = lowest(t);
        let n = s.len() - 1;
        assert(s[i] == t[i]);
        assert forall|j: int| 0 <= j < n implies #[trigger] s[j] == t[j] by {}
        if s[n].0.height < s[i].0.height {
            assert forall|j: int| 0 <= j < n implies s[n].0.height < (#[trigger] s[j]).0.height by {
                assert(s[j] == t[j]);
            }
            assert(is_lowest(s, n));
        } else {
            assert(is_lowest(s, i));
        }
    }
}

} // verus!
