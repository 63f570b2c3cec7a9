//! Blocks whose reorganisation waits for a missing ancestor.
use crate::assoc::{distinct_keys, has_key, key_pos, AssocMap};
use crate::chain::Block;
use crate::hash::Hash256;
use std::collections::VecDeque;
use vstd::prelude::*;

verus! {

/// How many blocks may wait for one ancestor.
pub const MAX_TRIGGERS_PER_ANCESTOR: usize = 16;

/// How many blocks may wait in all.
pub const MAX_GLOBAL_TRIGGERS: usize = 64;

/// The blocks that wait for missing ancestors.
///
/// They belong to the node, not to a peer: whichever peer delivers the
/// ancestor sets off all the blocks that wait for it.
pub struct ReorgTriggerState {
    /// The blocks that wait, by the id of the ancestor.
    pub triggers: AssocMap<Hash256, Vec<Block>>,
    /// One entry for each block that waits, oldest first: the ancestor that it
    /// waits for.
    pub order: VecDeque<Hash256>,
}

/// What a `ReorgTriggerState` holds.
pub ghost struct TriggerView {
    pub waiting: Map<Hash256, Seq<Block>>,
    pub order: Seq<Hash256>,
}

impl View for ReorgTriggerState {
    type V = TriggerView;

    open spec fn view(&self) -> TriggerView {
        TriggerView {
            waiting: self.triggers@.map_values(|v: Vec<Block>| v@),
            order: self.order@,
        }
    }
}

/// How often an ancestor stands in the insertion order.
pub open spec fn times_queued(order: Seq<Hash256>, a: Hash256) -> nat
    decreases order.len(),
{
    if order.len() == 0 {
        0
    } else {
        times_queued(order.drop_first(), a) + if order[0] == a {
            1nat
        } else {
            0nat
        }
    }
}

/// The insertion order without an ancestor.
pub open spec fn unqueued(order: Seq<Hash256>, a: Hash256) -> Seq<Hash256>
    decreases order.len(),
{
    if order.len() == 0 {
        order
    } else if order.last() == a {
        unqueued(order.drop_last(), a)
    } else {
        unqueued(order.drop_last(), a).push(order.last())
    }
}

impl TriggerView {
    /// The blocks that wait for an ancestor.
    pub open spec fn under(self, a: Hash256) -> Seq<Block> {
        if self.waiting.contains_key(a) {
            self.waiting[a]
        } else {
            Seq::empty()
        }
    }

    /// The state without its oldest insertion.
    pub open spec fn oldest_dropped(self) -> TriggerView {
        let a = self.order[0];
        TriggerView {
            waiting: if !self.waiting.contains_key(a) {
                self.waiting
            } else if self.waiting[a].len() <= 1 {
                self.waiting.remove(a)
            } else {
                self.waiting.insert(a, self.waiting[a].drop_first())
            },
            order: self.order.drop_first(),
        }
    }

    /// The state with room for one more insertion.
    pub open spec fn trimmed(self) -> TriggerView
        decreases self.order.len(),
    {
        if self.order.len() >= MAX_GLOBAL_TRIGGERS {
            self.oldest_dropped().trimmed()
        } else {
            self
        }
    }

    /// Whether a block that waits for `a` would be kept.
    pub open spec fn has_room(self, a: Hash256) -> bool {
        self.trimmed().under(a).len() < MAX_TRIGGERS_PER_ANCESTOR
    }

    /// The state after a block was handed in that waits for `a`.
    pub open spec fn inserted(self, a: Hash256, b: Block) -> TriggerView {
        let t = self.trimmed();
        if self.has_room(a) {
            TriggerView {
                waiting: t.waiting.insert(a, t.under(a).push(b)),
                order: t.order.push(a),
            }
        } else {
            t
        }
    }

    /// The state after the blocks that wait for `a` were taken out.
    pub open spec fn taken(self, a: Hash256) -> TriggerView {
        TriggerView { waiting: self.waiting.remove(a), order: unqueued(self.order, a) }
    }

    /// The caps hold, the queue has one entry for each block that waits, and an
    /// ancestor is held only while a block waits for it.
    pub open spec fn bounded(self) -> bool {
        &&& self.order.len() <= MAX_GLOBAL_TRIGGERS
        &&& forall|a: Hash256| #[trigger] times_queued(self.order, a) == self.under(a).len()
        &&& forall|a: Hash256| #[trigger]
            self.waiting.contains_key(a) ==> 0 < self.waiting[a].len() <= MAX_TRIGGERS_PER_ANCESTOR
    }
}

proof fn lemma_queued_push(order: Seq<Hash256>, a: Hash256, b: Hash256)
    ensures
        times_queued(order.push(b), a) == times_queued(order, a) + if a == b {
            1nat
        } else {
            0nat
        },
    decreases order.len(),
{
    if order.len() == 0 {
        assert(order.push(b).drop_first() =~= order);
        assert(times_queued(order.push(b), a) == times_queued(order.push(b).drop_first(), a) + if a
            == b {
            1nat
        } else {
            0nat
        });
    } else {
        assert(order.push(b).drop_first() =~= order.drop_first().push(b));
        lemma_queued_push(order.drop_first(), a, b);
        assert(times_queued(order.push(b), a) == times_queued(order.drop_first().push(b), a) + if order[0]
            == a {
            1nat
        } else {
            0nat
        });
    }
}

proof fn lemma_unqueued(order: Seq<Hash256>, a: Hash256)
    ensures
        unqueued(order, a).len() <= order.len(),
        forall|c: Hash256| #[trigger]
            times_queued(unqueued(order, a), c) == if c == a {
                0
            } else {
                times_queued(order, c)
            },
    decreases order.len(),
{
    if order.len() > 0 {
        let t = order.drop_last();
        lemma_unqueued(t, a);
        assert forall|c: Hash256| #[trigger] times_queued(unqueued(order, a), c) == if c == a {
            0
        } else {
            times_queued(order, c)
        } by {
            assert(order =~= t.push(order.last()));
            lemma_queued_push(t, c, order.last());
            lemma_queued_push(unqueued(t, a), c, order.last());
            assert(times_queued(unqueued(t, a), c) == if c == a {
                0
            } else {
                times_queued(t, c)
            });
        }
    }
}

proof fn lemma_queued(order: Seq<Hash256>, i: int)
    requires
        0 <= i < order.len(),
    ensures
        times_queued(order, order[i]) > 0,
    decreases order.len(),
{
    if i > 0 {
        assert(order.drop_first()[i - 1] == order[i]);
        lemma_queued(order.drop_first(), i - 1);
    }
}

proof fn lemma_dropped_bounded(v: TriggerView)
    requires
        v.bounded(),
        v.order.len() > 0,
    ensures
        v.oldest_dropped().bounded(),
{
    let w = v.oldest_dropped();
    lemma_queued(v.order, 0);
    assert(times_queued(v.order, v.order[0]) == v.under(v.order[0]).len());
    assert(v.waiting.contains_key(v.order[0]));
    assert forall|a: Hash256| #[trigger] times_queued(w.order, a) == w.under(a).len() by {
        assert(times_queued(v.order, a) == v.under(a).len());
        assert(times_queued(v.order, a) == times_queued(w.order, a) + if v.order[0] == a {
            1nat
        } else {
            0nat
        });
    }
    assert forall|a: Hash256| #[trigger] w.waiting.contains_key(a) implies 0 < w.waiting[a].len()
        <= MAX_TRIGGERS_PER_ANCESTOR by {
        assert(v.waiting.contains_key(a));
    }
}

proof fn lemma_trimmed_bounded(v: TriggerView)
    requires
        v.bounded(),
    ensures
        v.trimmed().bounded(),
        v.trimmed().order.len() < MAX_GLOBAL_TRIGGERS,
    decreases v.order.len(),
{
    if v.order.len() >= MAX_GLOBAL_TRIGGERS {
        lemma_dropped_bounded(v);
        lemma_trimmed_bounded(v.oldest_dropped());
    }
}

proof fn lemma_inserted_bounded(v: TriggerView, a: Hash256, b: Block)
    requires
        v.bounded(),
    ensures
        v.inserted(a, b).bounded(),
{
    lemma_trimmed_bounded(v);
    let t = v.trimmed();
    let w = v.inserted(a, b);
    if v.has_room(a) {
        assert forall|c: Hash256| #[trigger] times_queued(w.order, c) == w.under(c).len() by {
            lemma_queued_push(t.order, c, a);
            assert(times_queued(t.order, c) == t.under(c).len());
        }
        assert forall|c: Hash256| #[trigger] w.waiting.contains_key(c) implies 0
            < w.waiting[c].len() <= MAX_TRIGGERS_PER_ANCESTOR by {
            if c != a {
                assert(t.waiting.contains_key(c));
            }
        }
    }
}

proof fn lemma_taken_bounded(v: TriggerView, a: Hash256)
    requires
        v.bounded(),
    ensures
        v.taken(a).bounded(),
{
    let w = v.taken(a);
    lemma_unqueued(v.order, a);
    assert forall|c: Hash256| #[trigger] times_queued(w.order, c) == w.under(c).len() by {
        assert(times_queued(v.order, c) == v.under(c).len());
    }
    assert forall|c: Hash256| #[trigger] w.waiting.contains_key(c) implies 0 < w.waiting[c].len()
        <= MAX_TRIGGERS_PER_ANCESTOR by {
        assert(v.waiting.contains_key(c));
    }
}

/// How many blocks wait in all.
pub open spec fn total_waiting(s: Seq<(Hash256, Vec<Block>)>) -> nat
    decreases s.len(),
{
    if s.len() == 0 {
        0
    } else {
        total_waiting(s.drop_last()) + s.last().1@.len()
    }
}

spec fn total_queued(s: Seq<(Hash256, Vec<Block>)>, order: Seq<Hash256>) -> nat
    decreases s.len(),
{
    if s.len() == 0 {
        0
    } else {
        total_queued(s.drop_last(), order) + times_queued(order, s.last().0)
    }
}

proof fn lemma_total_queued_step(s: Seq<(Hash256, Vec<Block>)>, order: Seq<Hash256>)
    requires
        distinct_keys(s),
        order.len() > 0,
    ensures
        total_queued(s, order) == total_queued(s, order.drop_first()) + if has_key(s, order[0]) {
            1nat
        } else {
            0nat
        },
    decreases s.len(),
{
    if s.len() > 0 {
        let t = s.drop_last();
        assert(distinct_keys(t));
        lemma_total_queued_step(t, order);
        let a = order[0];
        if has_key(t, a) {
            let i = key_pos(t, a);
            assert(s[i].0 == a);
            assert(s[i].0 != s[s.len() - 1].0);
        } else if s.last().0 == a {
            assert(s[s.len() - 1].0 == a);
        } else if has_key(s, a) {
            let i = key_pos(s, a);
            assert(t[i].0 == a);
        }
    }
}

proof fn lemma_total_queued(s: Seq<(Hash256, Vec<Block>)>, order: Seq<Hash256>)
    requires
        distinct_keys(s),
        forall|i: int| 0 <= i < order.len() ==> has_key(s, #[trigger] order[i]),
    ensures
        total_queued(s, order) == order.len(),
    decreases order.len(),
{
    if order.len() > 0 {
        let rest = order.drop_first();
        assert forall|i: int| 0 <= i < rest.len() implies has_key(s, #[trigger] rest[i]) by {
            assert(rest[i] == order[i + 1]);
        }
        lemma_total_queued(s, rest);
        assert(has_key(s, order[0]));
        lemma_total_queued_step(s, order);
    } else {
        lemma_none_queued(s, order);
    }
}

proof fn lemma_none_queued(s: Seq<(Hash256, Vec<Block>)>, order: Seq<Hash256>)
    requires
        order.len() == 0,
    ensures
        total_queued(s, order) == 0,
    decreases s.len(),
{
    if s.len() > 0 {
        lemma_none_queued(s.drop_last(), order);
    }
}

proof fn lemma_total_waiting(s: Seq<(Hash256, Vec<Block>)>, order: Seq<Hash256>)
    requires
        forall|i: int| 0 <= i < s.len() ==> (#[trigger] s[i]).1@.len() == times_queued(order, s[i].0),
    ensures
        total_waiting(s) == total_queued(s, order),
    decreases s.len(),
{
    if s.len() > 0 {
        let t = s.drop_last();
        assert forall|i: int| 0 <= i < t.len() implies (#[trigger] t[i]).1@.len() == times_queued(
            order,
            t[i].0,
        ) by {
            assert(t[i] == s[i]);
        }
        lemma_total_waiting(t, order);
        assert(s[s.len() - 1].1@.len() == times_queued(order, s[s.len() - 1].0));
    }
}

impl ReorgTriggerState {
    /// No ancestor is held twice; see `bounded`.
    pub open spec fn wf(&self) -> bool {
        self.triggers.wf() && self@.bounded()
    }

    pub fn new() -> (r: Self)
        ensures
            r.wf(),
            r@ == (TriggerView { waiting: Map::empty(), order: Seq::empty() }),
    {
        let r = ReorgTriggerState { triggers: AssocMap::new(), order: VecDeque::new() };
        assert(r@.waiting =~= Map::<Hash256, Seq<Block>>::empty());
        r
    }

    fn drop_oldest(&mut self)
        requires
            old(self).triggers.wf(),
            old(self).order@.len() > 0,
        ensures
            final(self).triggers.wf(),
            final(self)@ == old(self)@.oldest_dropped(),
    {
        let ghost before = self@;
        if let Some(evict_ancestor) = self.order.pop_front() {
            assert(evict_ancestor == before.order[0]);
            assert(self.order@ =~= before.order.drop_first());
            let mut emptied = false;
            match self.triggers.get_mut(&evict_ancestor) {
                Some(evict_vec) => {
                    if evict_vec.len() > 0 {
                        let evicted = evict_vec.remove(0);
                    }
                    emptied = evict_vec.len() == 0;
                },
                None => {},
            }
            if emptied {
                let dropped = self.triggers.remove(&evict_ancestor);
            }
            proof {
                let want = before.oldest_dropped().waiting;
                let a = before.order[0];
                if before.waiting.contains_key(a) && before.waiting[a].len() > 1 {
                    assert(before.waiting[a].remove(0) =~= before.waiting[a].drop_first());
                }
                assert(self@.waiting =~= want);
            }
        }
    }

    /// Keeps a block that waits for an ancestor, at the cost of the oldest
    /// ones where there are too many in all. Whether it was kept: it is not
    /// where too many wait for the same ancestor.
    pub fn insert(&mut self, ancestor_id: Hash256, trigger_block: Block) -> (r: bool)
        requires
            old(self).wf(),
        ensures
            final(self).wf(),
            r == old(self)@.has_room(ancestor_id),
            final(self)@ == old(self)@.inserted(ancestor_id, trigger_block),
    {
        proof {
            lemma_inserted_bounded(self@, ancestor_id, trigger_block);
        }
        while self.order.len() >= MAX_GLOBAL_TRIGGERS
            invariant
                self.triggers.wf(),
                self@.trimmed() == old(self)@.trimmed(),
            decreases self.order@.len(),
        {
            self.drop_oldest();
        }
        let ghost t = self@;
        assert(t == old(self)@.trimmed());
        match self.triggers.get_mut(&ancestor_id) {
            Some(waiting) => {
                if waiting.len() < MAX_TRIGGERS_PER_ANCESTOR {
                    waiting.push(trigger_block);
                    self.order.push_back(ancestor_id);
                    assert(self@.waiting =~= t.waiting.insert(
                        ancestor_id,
                        t.under(ancestor_id).push(trigger_block),
                    ));
                    true
                } else {
                    assert(self@.waiting =~= t.waiting);
                    false
                }
            },
            None => {
                let mut waiting: Vec<Block> = Vec::new();
                waiting.push(trigger_block);
                let none = self.triggers.insert(ancestor_id, waiting);
                self.order.push_back(ancestor_id);
                assert(self@.waiting =~= t.waiting.insert(
                    ancestor_id,
                    t.under(ancestor_id).push(trigger_block),
                ));
                true
            },
        }
    }

    /// Takes out all blocks that wait for an ancestor.
    pub fn take(&mut self, ancestor_id: &Hash256) -> (r: Option<Vec<Block>>)
        requires
            old(self).wf(),
        ensures
            final(self).wf(),
            match r {
                Some(v) => old(self)@.waiting.contains_key(*ancestor_id) && v@
                    == old(self)@.waiting[*ancestor_id],
                None => !old(self)@.waiting.contains_key(*ancestor_id),
            },
            final(self)@ == old(self)@.taken(*ancestor_id),
    {
        proof {
            lemma_taken_bounded(self@, *ancestor_id);
        }
        let r = self.triggers.remove(ancestor_id);
        assert(self@.waiting =~= old(self)@.waiting.remove(*ancestor_id));
        self.unqueue(ancestor_id);
        r
    }

    fn unqueue(&mut self, a: &Hash256)
        ensures
            final(self).triggers == old(self).triggers,
            final(self).order@ == unqueued(old(self).order@, *a),
    {
        let ghost all = self.order@;
        let mut kept: VecDeque<Hash256> = VecDeque::new();
        let n: usize = self.order.len();
        let mut i: usize = 0;
        assert(all.take(0) =~= Seq::<Hash256>::empty());
        while i < n
            invariant
                self.triggers == old(self).triggers,
                self.order@ == all,
                n == all.len(),
                i <= n,
                kept@ == unqueued(all.take(i as int), *a),
            decreases n - i,
        {
            assert(all.take(i + 1).drop_last() =~= all.take(i as int));
            if self.order[i] != *a {
                kept.push_back(self.order[i]);
            }
            i += 1;
        }
        assert(all.take(n as int) =~= all);
        self.order = kept;
    }

    /// The queue is as long as there are blocks that wait.
    pub proof fn lemma_queue_len(&self)
        requires
            self.wf(),
        ensures
            total_waiting(self.triggers.seq()) == self@.order.len(),
    {
        self.triggers.lemma_seq();
        let e = self.triggers.seq();
        let order = self@.order;
        assert forall|i: int| 0 <= i < e.len() implies (#[trigger] e[i]).1@.len() == times_queued(
            order,
            e[i].0,
        ) by {
            assert(self.triggers@.contains_key(e[i].0));
            assert(times_queued(order, e[i].0) == self@.under(e[i].0).len());
        }
        assert forall|i: int| 0 <= i < order.len() implies has_key(e, #[trigger] order[i]) by {
            lemma_queued(order, i);
            assert(times_queued(order, order[i]) == self@.under(order[i]).len());
            assert(self.triggers@.contains_key(order[i]));
        }
        lemma_total_waiting(e, order);
        lemma_total_queued(e, order);
    }
}

/// Never more blocks wait than the global cap allows, and never more for one
/// ancestor than its own cap allows.
pub proof fn law_triggers_are_bounded(s: &ReorgTriggerState, a: Hash256)
    requires
        s.wf(),
    ensures
        total_waiting(s.triggers.seq()) <= MAX_GLOBAL_TRIGGERS,
        s@.under(a).len() <= MAX_TRIGGERS_PER_ANCESTOR,
{
    s.lemma_queue_len();
}

/// As long as fewer blocks wait than the global cap allows, none of them goes
/// when another one is handed in, whatever was handed in and taken out before.
pub proof fn law_triggers_go_only_at_the_cap(
    s: &ReorgTriggerState,
    a: Hash256,
    b: Block,
    c: Hash256,
)
    requires
        s.wf(),
        total_waiting(s.triggers.seq()) < MAX_GLOBAL_TRIGGERS,
    ensures
        s@.inserted(a, b).under(c) == (if c == a && s@.has_room(a) {
            s@.under(c).push(b)
        } else {
            s@.under(c)
        }),
        s@.has_room(a) == (s@.under(a).len() < MAX_TRIGGERS_PER_ANCESTOR),
{
    s.lemma_queue_len();
}

/// A block that was kept comes back, last, when its ancestor is taken out;
/// after that nothing waits for the ancestor.
pub proof fn law_kept_trigger_comes_back(v: TriggerView, a: Hash256, b: Block)
    requires
        v.has_room(a),
    ensures
        v.inserted(a, b).waiting.contains_key(a),
        v.inserted(a, b).waiting[a].len() > 0,
        v.inserted(a, b).waiting[a].last() == b,
        v.inserted(a, b).taken(a).under(a).len() == 0,
{
}

/// A block handed in for one ancestor leaves what waits for another alone, as
/// long as the global cap is not reached.
pub proof fn law_triggers_are_apart(v: TriggerView, a: Hash256, b: Block, c: Hash256)
    requires
        v.order.len() < MAX_GLOBAL_TRIGGERS,
        a != c,
    ensures
        v.inserted(a, b).under(c) == v.under(c),
{
}

} // verus!
