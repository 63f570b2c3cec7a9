//! Blocks that are ahead of the clock and wait for it.
use crate::chain::Block;
use crate::clock::{age, within_secs, SECOND};
use crate::hash::Hash256;
use vstd::prelude::*;

verus! {

/// How many blocks may wait.
pub const MAX_FUTURE_BLOCKS: usize = 16;

/// How long a block may wait, in seconds.
pub const FUTURE_BLOCK_MAX_AGE_SECS: u64 = 300;

/// Whether a block that came at `since` may still wait.
pub open spec fn still_waits(since: u64, now: u64) -> bool {
    age(now, since) < FUTURE_BLOCK_MAX_AGE_SECS * SECOND
}

/// The blocks that may still wait, in their order.
pub open spec fn unexpired(s: Seq<(Block, u64)>, now: u64) -> Seq<(Block, u64)>
    decreases s.len(),
{
    if s.len() == 0 {
        s
    } else if still_waits(s.last().1, now) {
        unexpired(s.drop_last(), now).push(s.last())
    } else {
        unexpired(s.drop_last(), now)
    }
}

/// Whether a block with the given id waits.
pub open spec fn holds_block(s: Seq<(Block, u64)>, id: Hash256) -> bool {
    exists|i: int| 0 <= i < s.len() && (#[trigger] s[i]).0.header.id == id
}

/// The first position at which a block with the given id waits.
pub open spec fn first_block(s: Seq<(Block, u64)>, id: Hash256) -> int
    decreases s.len(),
{
    if s.len() == 0 {
        0
    } else if s[0].0.header.id == id {
        0
    } else {
        1 + first_block(s.drop_first(), id)
    }
}

/// The list after a block was handed in at `now`.
pub open spec fn buffered(s: Seq<(Block, u64)>, block: Block, now: u64) -> Seq<(Block, u64)> {
    let live = unexpired(s, now);
    if holds_block(live, block.header.id) {
        live
    } else if live.len() >= MAX_FUTURE_BLOCKS {
        live.drop_first().push((block, now))
    } else {
        live.push((block, now))
    }
}

/// The list with the time at which a block first came put back.
pub open spec fn with_age(s: Seq<(Block, u64)>, id: Hash256, first_came: u64) -> Seq<(Block, u64)> {
    if holds_block(s, id) {
        let i = first_block(s, id);
        s.update(i, (s[i].0, first_came))
    } else {
        s
    }
}

/// The list with a block that waits again, if there is room.
pub open spec fn with_again(s: Seq<(Block, u64)>, block: Block, first_came: u64) -> Seq<
    (Block, u64),
> {
    if s.len() < MAX_FUTURE_BLOCKS {
        s.push((block, first_came))
    } else {
        s
    }
}

/// The blocks that wait, each with the time at which it first came.
pub struct FutureBlocks {
    entries: Vec<(Block, u64)>,
}

impl View for FutureBlocks {
    type V = Seq<(Block, u64)>;

    closed spec fn view(&self) -> Seq<(Block, u64)> {
        self.entries@
    }
}

proof fn lemma_unexpired_step(s: Seq<(Block, u64)>, k: int, now: u64)
    requires
        0 <= k < s.len(),
    ensures
        unexpired(s.take(k + 1), now) == (if still_waits(s[k].1, now) {
            unexpired(s.take(k), now).push(s[k])
        } else {
            unexpired(s.take(k), now)
        }),
{
    assert(s.take(k + 1).drop_last() =~= s.take(k));
    assert(s.take(k + 1).last() == s[k]);
}

proof fn lemma_unexpired_len(s: Seq<(Block, u64)>, now: u64)
    ensures
        unexpired(s, now).len() <= s.len(),
        forall|i: int|
            0 <= i < unexpired(s, now).len() ==> s.contains(#[trigger] unexpired(s, now)[i])
                && still_waits(unexpired(s, now)[i].1, now),
    decreases s.len(),
{
    if s.len() > 0 {
        let t = s.drop_last();
        lemma_unexpired_len(t, now);
        let u = unexpired(s, now);
        assert forall|i: int| 0 <= i < u.len() implies s.contains(#[trigger] u[i]) && still_waits(
            u[i].1,
            now,
        ) by {
            if i < unexpired(t, now).len() {
                assert(u[i] == unexpired(t, now)[i]);
                let j = choose|j: int| 0 <= j < t.len() && t[j] == u[i];
                assert(s[j] == u[i]);
            } else {
                assert(s[s.len() - 1] == u[i]);
            }
        }
    }
}

proof fn lemma_first_block(s: Seq<(Block, u64)>, id: Hash256, k: int)
    requires
        0 <= k < s.len(),
        s[k].0.header.id == id,
        forall|j: int| 0 <= j < k ==> (#[trigger] s[j]).0.header.id != id,
    ensures
        first_block(s, id) == k,
    decreases s.len(),
{
    if k > 0 {
        assert(s[0].0.header.id != id);
        let t = s.drop_first();
        assert(t[k - 1] == s[k]);
        assert forall|j: int| 0 <= j < k - 1 implies (#[trigger] t[j]).0.header.id != id by {
            assert(t[j] == s[j + 1]);
        }
        lemma_first_block(t, id, k - 1);
    }
}

impl FutureBlocks {
    /// There are no more blocks than there is room for.
    pub open spec fn wf(&self) -> bool {
        self@.len() <= MAX_FUTURE_BLOCKS
    }

    pub fn new() -> (r: Self)
        ensures
            r.wf(),
            r@ == Seq::<(Block, u64)>::empty(),
    {
        FutureBlocks { entries: Vec::new() }
    }

    pub fn len(&self) -> (r: usize)
        ensures
            r == self@.len(),
    {
        self.entries.len()
    }

    fn prune(&mut self, now: u64)
        ensures
            final(self)@ == unexpired(old(self)@, now),
    {
        let ghost s = self@;
        let ghost mut k: int = 0;
        let mut i: usize = 0;
        assert(s.take(0) =~= Seq::<(Block, u64)>::empty());
        assert(self.entries@ =~= unexpired(s.take(0), now) + s.skip(0));
        while i < self.entries.len()
            invariant
                s == old(self)@,
                0 <= k <= s.len(),
                self.entries@ == unexpired(s.take(k), now) + s.skip(k),
                i == unexpired(s.take(k), now).len(),
            decreases self.entries@.len() - i,
        {
            proof {
                lemma_unexpired_step(s, k, now);
                assert(self.entries@[i as int] == s[k]);
            }
            let ghost before = self.entries@;
            if within_secs(now, self.entries[i].1, FUTURE_BLOCK_MAX_AGE_SECS) {
                i = i + 1;
            } else {
                let expired = self.entries.remove(i);
            }
            proof {
                k = k + 1;
                assert(self.entries@ =~= unexpired(s.take(k), now) + s.skip(k));
            }
        }
        assert(s.take(s.len() as int) =~= s);
        assert(k == s.len());
        assert(self.entries@ =~= unexpired(s, now));
    }

    fn find(&self, id: &Hash256) -> (r: Option<usize>)
        ensures
            match r {
                Some(i) => i < self@.len() && holds_block(self@, *id) && i == first_block(
                    self@,
                    *id,
                ),
                None => !holds_block(self@, *id),
            },
    {
        let mut i: usize = 0;
        while i < self.entries.len()
            invariant
                i <= self@.len(),
                forall|j: int| 0 <= j < i ==> (#[trigger] self@[j]).0.header.id != *id,
            decreases self@.len() - i,
        {
            if self.entries[i].0.header.id == *id {
                proof {
                    lemma_first_block(self@, *id, i as int);
                    assert(self@[i as int].0.header.id == *id);
                }
                return Some(i);
            }
            i = i + 1;
        }
        None
    }

    /// Lets a block wait. Those that waited too long go, then, where there is
    /// no room, the one that has waited longest. A block that waits already
    /// keeps its place.
    pub fn buffer_future_block(&mut self, block: Block, now: u64)
        requires
            old(self).wf(),
        ensures
            final(self).wf(),
            final(self)@ == buffered(old(self)@, block, now),
    {
        proof {
            lemma_unexpired_len(self@, now);
        }
        self.prune(now);
        let id = block.header.block_id();
        if self.find(&id).is_some() {
            return;
        }
        let ghost live = self@;
        if self.entries.len() >= MAX_FUTURE_BLOCKS {
            let oldest = self.entries.remove(0);
            assert(self@ =~= live.drop_first());
        }
        self.entries.push((block, now));
    }

    /// Takes out every block that may still wait, each with the time at which
    /// it first came; the list is empty afterwards.
    pub fn take_candidates(&mut self, now: u64) -> (r: Vec<(Block, u64)>)
        ensures
            r@ == unexpired(old(self)@, now),
            final(self)@ == Seq::<(Block, u64)>::empty(),
    {
        self.prune(now);
        let mut out: Vec<(Block, u64)> = Vec::new();
        std::mem::swap(&mut self.entries, &mut out);
        out
    }

    /// Gives a block that went back to waiting the time at which it first
    /// came, so that going back does not prolong its stay.
    pub fn restore_age(&mut self, id: &Hash256, first_came: u64)
        requires
            old(self).wf(),
        ensures
            final(self).wf(),
            final(self)@ == with_age(old(self)@, *id, first_came),
    {
        match self.find(id) {
            Some(i) => {
                self.entries[i].1 = first_came;
            },
            None => {},
        }
    }

    /// Lets a block wait again under the time at which it first came, if there
    /// is room; whether there was.
    pub fn rebuffer(&mut self, block: Block, first_came: u64) -> (r: bool)
        requires
            old(self).wf(),
        ensures
            final(self).wf(),
            r == (old(self)@.len() < MAX_FUTURE_BLOCKS),
            final(self)@ == with_again(old(self)@, block, first_came),
    {
        if self.entries.len() < MAX_FUTURE_BLOCKS {
            self.entries.push((block, first_came));
            true
        } else {
            false
        }
    }
}

/// A block cannot prolong its stay by being tried again: once its age is put
/// back it is gone when the time since it first came has run out.
pub proof fn law_retry_does_not_prolong(s: Seq<(Block, u64)>, first_came: u64, now: u64)
    requires
        age(now, first_came) >= FUTURE_BLOCK_MAX_AGE_SECS * SECOND,
    ensures
        forall|i: int|
            0 <= i < unexpired(s, now).len() ==> (#[trigger] unexpired(s, now)[i]).1 != first_came,
{
    lemma_unexpired_len(s, now);
}

proof fn lemma_all_unexpired(s: Seq<(Block, u64)>, now: u64)
    requires
        forall|i: int| 0 <= i < s.len() ==> still_waits((#[trigger] s[i]).1, now),
    ensures
        unexpired(s, now) == s,
    decreases s.len(),
{
    if s.len() > 0 {
        let t = s.drop_last();
        assert forall|i: int| 0 <= i < t.len() implies still_waits((#[trigger] t[i]).1, now) by {
            assert(t[i] == s[i]);
        }
        lemma_all_unexpired(t, now);
        assert(still_waits(s[s.len() - 1].1, now));
        assert(t.push(s.last()) =~= s);
    }
}

/// A block that is handed in waits afterwards, within the room there is, and
/// handing it in again changes nothing.
pub proof fn law_buffered_block_waits(s: Seq<(Block, u64)>, block: Block, now: u64)
    requires
        s.len() <= MAX_FUTURE_BLOCKS,
    ensures
        holds_block(buffered(s, block, now), block.header.id),
        buffered(s, block, now).len() <= MAX_FUTURE_BLOCKS,
        buffered(buffered(s, block, now), block, now) == buffered(s, block, now),
{
    let b = buffered(s, block, now);
    lemma_unexpired_len(s, now);
    if !holds_block(unexpired(s, now), block.header.id) {
        assert(b[b.len() - 1].0.header.id == block.header.id);
    }
    let u = unexpired(s, now);
    assert forall|i: int| 0 <= i < b.len() implies still_waits((#[trigger] b[i]).1, now) by {
        if i == b.len() - 1 && !holds_block(u, block.header.id) {
            assert(b[i].1 == now);
        } else if b == u {
            assert(still_waits(u[i].1, now));
        } else if u.len() >= MAX_FUTURE_BLOCKS {
            assert(b[i] == u[i + 1]);
        } else {
            assert(b[i] == u[i]);
        }
    }
    lemma_all_unexpired(b, now);
}

} // verus!
