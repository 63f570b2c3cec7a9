//! Blocks whose parent is not known yet.
use crate::chain::Block;
use crate::hash::Hash256;
use vstd::prelude::*;

verus! {

/// How much of the orphans is kept.
#[derive(Clone, Copy, Debug)]
pub struct OrphanLimits {
    /// The largest serialised block that is kept.
    pub max_block_size: usize,
    /// How many blocks are kept.
    pub max_blocks: usize,
    /// How many serialised bytes are kept.
    pub max_cache_bytes: usize,
}

/// A block that waits for its parent.
pub struct Orphan {
    pub parent: Hash256,
    pub block: Block,
    /// The length of the serialised block.
    pub size: usize,
}

/// The bytes of a list of orphans.
pub open spec fn total_bytes(s: Seq<Orphan>) -> nat
    decreases s.len(),
{
    if s.len() == 0 {
        0
    } else {
        total_bytes(s.drop_last()) + s.last().size as nat
    }
}

/// Whether a block is among the orphans.
pub open spec fn is_cached(s: Seq<Orphan>, id: Hash256) -> bool {
    exists|i: int| 0 <= i < s.len() && (#[trigger] s[i]).block.header.id == id
}

/// Whether some orphan waits for a parent.
pub open spec fn is_awaited(s: Seq<Orphan>, parent: Hash256) -> bool {
    exists|i: int| 0 <= i < s.len() && (#[trigger] s[i]).parent == parent
}

/// Whether there is no room for another block of `size` bytes.
pub open spec fn crowded(s: Seq<Orphan>, size: usize, limits: OrphanLimits) -> bool {
    s.len() > 0 && (s.len() >= limits.max_blocks || total_bytes(s) + size > limits.max_cache_bytes)
}

/// The orphans that stay when room is made for a block of `size` bytes: the
/// oldest go first.
pub open spec fn with_room(s: Seq<Orphan>, size: usize, limits: OrphanLimits) -> Seq<Orphan>
    decreases s.len(),
{
    if crowded(s, size, limits) {
        with_room(s.drop_first(), size, limits)
    } else {
        s
    }
}

/// Whether a block is worth keeping: not too large and not there already.
pub open spec fn worth_keeping(
    s: Seq<Orphan>,
    block: Block,
    size: usize,
    limits: OrphanLimits,
) -> bool {
    size <= limits.max_block_size && !is_cached(s, block.header.id)
}

/// The orphans after one was handed in.
pub open spec fn cached(
    s: Seq<Orphan>,
    block: Block,
    size: usize,
    limits: OrphanLimits,
) -> Seq<Orphan> {
    if worth_keeping(s, block, size, limits) {
        with_room(s, size, limits).push(
            Orphan { parent: block.header.prev_block_id, block, size },
        )
    } else {
        s
    }
}

/// The list and the blocks taken out of it when the children of `parent` are
/// taken from position `i` on, the last orphan filling each gap.
pub open spec fn taken_from(
    s: Seq<Orphan>,
    parent: Hash256,
    i: int,
    out: Seq<Block>,
) -> (Seq<Orphan>, Seq<Block>)
    decreases s.len() - i,
{
    if i < 0 || i >= s.len() {
        (s, out)
    } else if s[i].parent == parent {
        taken_from(s.update(i, s.last()).drop_last(), parent, i, out.push(s[i].block))
    } else {
        taken_from(s, parent, i + 1, out)
    }
}

/// The blocks that wait for their parents, oldest first.
pub struct OrphanPool {
    entries: Vec<Orphan>,
}

impl View for OrphanPool {
    type V = Seq<Orphan>;

    closed spec fn view(&self) -> Seq<Orphan> {
        self.entries@
    }
}

impl OrphanPool {
    pub fn new() -> (r: Self)
        ensures
            r@ == Seq::<Orphan>::empty(),
    {
        OrphanPool { entries: Vec::new() }
    }

    pub fn len(&self) -> (r: usize)
        ensures
            r == self@.len(),
    {
        self.entries.len()
    }

    fn holds(&self, id: &Hash256) -> (r: bool)
        ensures
            r == is_cached(self@, *id),
    {
        let mut i: usize = 0;
        while i < self.entries.len()
            invariant
                i <= self@.len(),
                forall|j: int| 0 <= j < i ==> (#[trigger] self@[j]).block.header.id != *id,
            decreases self@.len() - i,
        {
            if self.entries[i].block.header.id == *id {
                assert(self@[i as int].block.header.id == *id);
                return true;
            }
            i = i + 1;
        }
        false
    }

    fn awaits(&self, parent: &Hash256) -> (r: bool)
        ensures
            r == is_awaited(self@, *parent),
    {
        let mut i: usize = 0;
        while i < self.entries.len()
            invariant
                i <= self@.len(),
                forall|j: int| 0 <= j < i ==> (#[trigger] self@[j]).parent != *parent,
            decreases self@.len() - i,
        {
            if self.entries[i].parent == *parent {
                assert(self@[i as int].parent == *parent);
                return true;
            }
            i = i + 1;
        }
        false
    }

    /// Whether the bytes of all orphans and `size` more exceed `limit`.
    fn overflows(&self, size: usize, limit: usize) -> (r: bool)
        ensures
            r == (total_bytes(self@) + size > limit),
    {
        if size > limit {
            return true;
        }
        let mut sum: usize = size;
        let mut i: usize = 0;
        assert(self@.take(0) =~= Seq::<Orphan>::empty());
        while i < self.entries.len()
            invariant
                i <= self@.len(),
                sum <= limit,
                sum == total_bytes(self@.take(i as int)) + size,
            decreases self@.len() - i,
        {
            proof {
                let t = self@.take(i + 1);
                assert(t.drop_last() =~= self@.take(i as int));
                assert(t.last() == self@[i as int]);
                lemma_total_take(self@, i + 1);
            }
            if self.entries[i].size > limit - sum {
                return true;
            }
            sum = sum + self.entries[i].size;
            i = i + 1;
        }
        assert(self@.take(self@.len() as int) =~= self@);
        false
    }

    /// Keeps a block whose parent is not known, `size` bytes long. The oldest
    /// orphans go where there is no room. Whether the parent is to be asked
    /// for: it is when a block was kept that is the first to wait for it.
    pub fn cache_orphan(&mut self, block: Block, size: usize, limits: &OrphanLimits) -> (r: bool)
        ensures
            final(self)@ == cached(old(self)@, block, size, *limits),
            r == (worth_keeping(old(self)@, block, size, *limits) && !is_awaited(
                old(self)@,
                block.header.prev_block_id,
            )),
    {
        let id = block.header.block_id();
        if size > limits.max_block_size || self.holds(&id) {
            return false;
        }
        let parent = block.header.prev_block_id;
        let already_waiting = self.awaits(&parent);
        while self.entries.len() > 0 && (self.entries.len() >= limits.max_blocks || self.overflows(
            size,
            limits.max_cache_bytes,
        ))
            invariant
                with_room(self@, size, *limits) == with_room(old(self)@, size, *limits),
            decreases self@.len(),
        {
            let ghost before = self@;
            let oldest = self.entries.remove(0);
            assert(self@ =~= before.drop_first());
        }
        self.entries.push(Orphan { parent, block, size });
        !already_waiting
    }

    /// Takes out the blocks that wait for `parent`.
    pub fn take_children(&mut self, parent: &Hash256) -> (r: Vec<Block>)
        ensures
            (final(self)@, r@) == taken_from(old(self)@, *parent, 0, Seq::empty()),
    {
        let mut matched: Vec<Block> = Vec::new();
        let mut i: usize = 0;
        while i < self.entries.len()
            invariant
                i <= self@.len(),
                taken_from(self@, *parent, i as int, matched@) == taken_from(
                    old(self)@,
                    *parent,
                    0,
                    Seq::empty(),
                ),
            decreases self@.len() - i,
        {
            let ghost before = self@;
            if self.entries[i].parent == *parent {
                let orphan = self.entries.swap_remove(i);
                assert(self@ =~= before.update(i as int, before.last()).drop_last());
                matched.push(orphan.block);
            } else {
                i = i + 1;
            }
        }
        matched
    }
}

proof fn lemma_total_take(s: Seq<Orphan>, k: int)
    requires
        0 <= k <= s.len(),
    ensures
        total_bytes(s.take(k)) <= total_bytes(s),
    decreases s.len() - k,
{
    if k < s.len() {
        lemma_total_take(s, k + 1);
        assert(s.take(k + 1).drop_last() =~= s.take(k));
    } else {
        assert(s.take(k) =~= s);
    }
}

proof fn lemma_room(s: Seq<Orphan>, size: usize, limits: OrphanLimits)
    ensures
        !crowded(with_room(s, size, limits), size, limits),
        with_room(s, size, limits).len() <= s.len(),
        with_room(s, size, limits) == s.skip(s.len() - with_room(s, size, limits).len()),
    decreases s.len(),
{
    if crowded(s, size, limits) {
        let t = s.drop_first();
        lemma_room(t, size, limits);
        let w = with_room(s, size, limits);
        assert(t.skip(t.len() - w.len()) =~= s.skip(s.len() - w.len()));
    } else {
        assert(s.skip(0) =~= s);
    }
}

/// The orphans never take more room than they may: not more blocks, and not
/// more bytes, than the limits allow, as long as one block fits into them.
pub proof fn law_orphans_are_bounded(s: Seq<Orphan>, block: Block, size: usize, limits: OrphanLimits)
    requires
        worth_keeping(s, block, size, limits),
        limits.max_blocks >= 1,
        limits.max_block_size <= limits.max_cache_bytes,
    ensures
        cached(s, block, size, limits).len() <= limits.max_blocks,
        total_bytes(cached(s, block, size, limits)) <= limits.max_cache_bytes,
{
    lemma_room(s, size, limits);
    let w = with_room(s, size, limits);
    let c = cached(s, block, size, limits);
    assert(c.drop_last() =~= w);
    assert(total_bytes(c) == total_bytes(w) + size);
    if w.len() == 0 {
        assert(total_bytes(w) == 0);
    }
}

/// The orphans that stay when room is made are the youngest ones, in their
/// order.
pub proof fn law_oldest_orphans_go_first(s: Seq<Orphan>, size: usize, limits: OrphanLimits)
    ensures
        exists|k: int| 0 <= k <= s.len() && with_room(s, size, limits) == #[trigger] s.skip(k),
{
    lemma_room(s, size, limits);
    let k = s.len() - with_room(s, size, limits).len();
    assert(with_room(s, size, limits) == s.skip(k));
}

/// Whether a block is among those that wait for a parent.
pub open spec fn waits_for(s: Seq<Orphan>, parent: Hash256, b: Block) -> bool {
    exists|k: int| 0 <= k < s.len() && (#[trigger] s[k]).parent == parent && s[k].block == b
}

/// How many times an orphan is held.
pub open spec fn times_held(s: Seq<Orphan>, o: Orphan) -> nat {
    s.to_multiset().count(o)
}

proof fn lemma_taken(s: Seq<Orphan>, parent: Hash256, i: int, out: Seq<Block>)
    requires
        0 <= i <= s.len(),
        forall|j: int| 0 <= j < i ==> (#[trigger] s[j]).parent != parent,
    ensures
        ({
            let (rest, got) = taken_from(s, parent, i, out);
            &&& !is_awaited(rest, parent)
            &&& forall|o: Orphan|
                o.parent != parent ==> #[trigger] times_held(rest, o) == times_held(s, o)
            &&& got.len() + rest.len() == s.len() + out.len()
            &&& out.len() <= got.len()
            &&& got.take(out.len() as int) == out
            &&& forall|j: int|
                out.len() <= j < got.len() ==> waits_for(s, parent, #[trigger] got[j])
        }),
    decreases s.len() - i,
{
    let (rest, got) = taken_from(s, parent, i, out);
    if i >= s.len() {
        assert(got.take(out.len() as int) =~= out);
    } else if s[i].parent == parent {
        let t = s.update(i, s.last()).drop_last();
        assert forall|j: int| 0 <= j < i implies (#[trigger] t[j]).parent != parent by {
            assert(t[j] == s[j]);
        }
        let out2 = out.push(s[i].block);
        lemma_taken(t, parent, i, out2);
        lemma_swap_out(s, i);
        assert(got.take(out.len() as int) =~= got.take(out2.len() as int).take(out.len() as int));
        assert(out2.take(out.len() as int) =~= out);
        assert forall|j: int| out.len() <= j < got.len() implies waits_for(
            s,
            parent,
            #[trigger] got[j],
        ) by {
            if j == out.len() {
                assert(got[j] == got.take(out2.len() as int)[j]);
                assert(s[i].parent == parent && s[i].block == got[j]);
            } else {
                let k = choose|k: int|
                    0 <= k < t.len() && (#[trigger] t[k]).parent == parent && t[k].block == got[j];
                let k2 = if k == i {
                    s.len() - 1
                } else {
                    k
                };
                assert(s[k2] == t[k]);
            }
        }
        assert forall|o: Orphan| o.parent != parent implies #[trigger] times_held(rest, o)
            == times_held(s, o) by {
            assert(times_held(t, o) == times_held(s, o));
        }
    } else {
        lemma_taken(s, parent, i + 1, out);
    }
}

proof fn lemma_swap_out(s: Seq<Orphan>, i: int)
    requires
        0 <= i < s.len(),
    ensures
        s.to_multiset() == s.update(i, s.last()).drop_last().to_multiset().insert(s[i]),
{
    broadcast use vstd::seq_lib::group_to_multiset_ensures;

    let u = s.update(i, s.last());
    let t = u.drop_last();
    assert(u =~= t.push(u.last()));
    assert(u.to_multiset() =~= t.to_multiset().insert(u.last()));
    if i == s.len() - 1 {
        assert(u =~= s);
    } else {
        assert(u.last() == s.last());
        vstd::seq_lib::to_multiset_update(s, i, s.last());
        assert(s.contains(s[i]));
        assert(s.to_multiset().contains(s[i]));
        assert(u.to_multiset() =~= s.to_multiset().insert(s.last()).remove(s[i]));
        assert forall|o: Orphan| s.to_multiset().count(o) == t.to_multiset().insert(s[i]).count(
            o,
        ) by {
            assert(u.to_multiset().count(o) == t.to_multiset().insert(s.last()).count(o));
            assert(u.to_multiset().count(o) == s.to_multiset().insert(s.last()).remove(s[i]).count(
                o,
            ));
            assert(s.to_multiset().insert(s.last()).count(s[i]) > 0);
        }
        assert(s.to_multiset() =~= t.to_multiset().insert(s[i]));
    }
}

/// Taking the children of a block takes all of them and nothing else: none is
/// left, every other orphan stays, and each block taken out was waiting for
/// that parent.
pub proof fn law_children_are_taken(s: Seq<Orphan>, parent: Hash256)
    ensures
        ({
            let (rest, got) = taken_from(s, parent, 0, Seq::empty());
            &&& !is_awaited(rest, parent)
            &&& forall|o: Orphan|
                o.parent != parent ==> #[trigger] times_held(rest, o) == times_held(s, o)
            &&& got.len() + rest.len() == s.len()
            &&& forall|j: int| 0 <= j < got.len() ==> waits_for(s, parent, #[trigger] got[j])
        }),
{
    lemma_taken(s, parent, 0, Seq::empty());
}

} // verus!
