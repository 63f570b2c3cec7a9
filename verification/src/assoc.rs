//! Small maps and sets over fixed-width keys, kept as lists without repeats.
//!
//! The tables of a node are bounded to a few thousand entries at most, so a
//! list in insertion order serves for lookup and gives every walk over a table
//! a fixed order.
use vstd::prelude::*;

verus! {

/// A key whose executable equality is equality of values.
pub trait Key: Sized + Copy {
    fn same(&self, other: &Self) -> (r: bool)
        ensures
            r == (*self == *other),
    ;
}

impl Key for u64 {
    fn same(&self, other: &Self) -> (r: bool) {
        *self == *other
    }
}

impl Key for [u8; 32] {
    fn same(&self, other: &Self) -> (r: bool) {
        crate::hash::same_bytes(self, other)
    }
}

impl Key for crate::net::IpAddr {
    fn same(&self, other: &Self) -> (r: bool) {
        *self == *other
    }
}

impl Key for crate::net::SocketAddr {
    fn same(&self, other: &Self) -> (r: bool) {
        *self == *other
    }
}

impl Key for crate::hash::Hash256 {
    fn same(&self, other: &Self) -> (r: bool) {
        *self == *other
    }
}

impl Key for crate::chain::OutPoint {
    fn same(&self, other: &Self) -> (r: bool) {
        *self == *other
    }
}

/// No key occurs twice.
pub open spec fn distinct_keys<K, V>(s: Seq<(K, V)>) -> bool {
    forall|i: int, j: int| 0 <= i < j < s.len() ==> s[i].0 != s[j].0
}

/// Whether a key occurs in a list of entries.
pub open spec fn has_key<K, V>(s: Seq<(K, V)>, k: K) -> bool {
    exists|i: int| 0 <= i < s.len() && s[i].0 == k
}

/// The position at which a key occurs.
pub open spec fn key_pos<K, V>(s: Seq<(K, V)>, k: K) -> int {
    choose|i: int| 0 <= i < s.len() && s[i].0 == k
}

/// The map that a list of entries stands for.
pub open spec fn entries_map<K, V>(s: Seq<(K, V)>) -> Map<K, V> {
    Map::new(|k: K| has_key(s, k), |k: K| s[key_pos(s, k)].1)
}

/// A list with a key bound: in its place if it was there, at the end if not.
pub open spec fn insert_entry<K, V>(s: Seq<(K, V)>, k: K, v: V) -> Seq<(K, V)> {
    if has_key(s, k) {
        s.update(key_pos(s, k), (k, v))
    } else {
        s.push((k, v))
    }
}

/// A list without a key.
pub open spec fn remove_entry<K, V>(s: Seq<(K, V)>, k: K) -> Seq<(K, V)> {
    if has_key(s, k) {
        s.remove(key_pos(s, k))
    } else {
        s
    }
}

/// The entries that satisfy a predicate, in their order.
pub open spec fn keep_entries<K, V>(s: Seq<(K, V)>, p: spec_fn((K, V)) -> bool) -> Seq<(K, V)>
    decreases s.len(),
{
    if s.len() == 0 {
        s
    } else if p(s.last()) {
        keep_entries(s.drop_last(), p).push(s.last())
    } else {
        keep_entries(s.drop_last(), p)
    }
}

/// Leaving entries out leaves no key twice.
pub proof fn lemma_keep_distinct<K, V>(s: Seq<(K, V)>, p: spec_fn((K, V)) -> bool)
    requires
        distinct_keys(s),
    ensures
        distinct_keys(keep_entries(s, p)),
        keep_entries(s, p).len() <= s.len(),
        forall|i: int|
            0 <= i < keep_entries(s, p).len() ==> s.contains(
                #[trigger] keep_entries(s, p)[i],
            ) && p(keep_entries(s, p)[i]),
        forall|i: int|
            0 <= i < s.len() && p(#[trigger] s[i]) ==> keep_entries(s, p).contains(s[i]),
    decreases s.len(),
{
    if s.len() > 0 {
        let t = s.drop_last();
        assert(distinct_keys(t));
        lemma_keep_distinct(t, p);
        let a = keep_entries(t, p);
        let b = keep_entries(s, p);
        assert forall|i: int| 0 <= i < b.len() implies s.contains(#[trigger] b[i]) && p(b[i]) by {
            if i < a.len() {
                assert(b[i] == a[i]);
                let j = choose|j: int| 0 <= j < t.len() && t[j] == a[i];
                assert(s[j] == b[i]);
            } else {
                assert(s[s.len() - 1] == b[i]);
            }
        }
        assert forall|i: int| 0 <= i < s.len() && p(#[trigger] s[i]) implies b.contains(s[i]) by {
            if i < t.len() {
                assert(t[i] == s[i]);
                let j = choose|j: int| 0 <= j < a.len() && a[j] == t[i];
                assert(b[j] == s[i]);
            } else {
                assert(b[a.len() as int] == s[i]);
            }
        }
        if p(s.last()) {
            assert forall|i: int, j: int| 0 <= i < j < b.len() implies b[i].0 != b[j].0 by {
                if j == a.len() {
                    assert(b[i] == a[i]);
                    let k = choose|k: int| 0 <= k < t.len() && t[k] == a[i];
                    assert(s[k].0 != s[s.len() - 1].0);
                }
            }
        }
    }
}

/// How many entries satisfy a predicate.
pub open spec fn count_entries<K, V>(s: Seq<(K, V)>, p: spec_fn(K, V) -> bool) -> nat
    decreases s.len(),
{
    if s.len() == 0 {
        0
    } else {
        count_entries(s.drop_last(), p) + if p(s.last().0, s.last().1) {
            1nat
        } else {
            0nat
        }
    }
}

/// The entry at a position is the entry of its key.
pub proof fn lemma_entry<K, V>(s: Seq<(K, V)>, i: int)
    requires
        distinct_keys(s),
        0 <= i < s.len(),
    ensures
        has_key(s, s[i].0),
        key_pos(s, s[i].0) == i,
        entries_map(s).contains_key(s[i].0),
        entries_map(s)[s[i].0] == s[i].1,
{
    let k = s[i].0;
    assert(has_key(s, k));
    let j = key_pos(s, k);
    assert(0 <= j < s.len() && s[j].0 == k);
    if j < i {
        assert(s[j].0 != s[i].0);
    } else if i < j {
        assert(s[i].0 != s[j].0);
    }
}

proof fn lemma_push<K, V>(s: Seq<(K, V)>, k: K, v: V)
    requires
        distinct_keys(s),
        !has_key(s, k),
    ensures
        distinct_keys(s.push((k, v))),
        entries_map(s.push((k, v))) == entries_map(s).insert(k, v),
{
    let t = s.push((k, v));
    assert forall|i: int, j: int| 0 <= i < j < t.len() implies t[i].0 != t[j].0 by {
        if j == s.len() {
            assert(t[i] == s[i]);
        }
    }
    assert forall|q: K| has_key(t, q) == (q == k || has_key(s, q)) by {
        if has_key(s, q) {
            let i = key_pos(s, q);
            assert(t[i].0 == q);
        }
        if q == k {
            assert(t[s.len() as int].0 == q);
        }
        if has_key(t, q) {
            let i = key_pos(t, q);
            if i < s.len() {
                assert(s[i].0 == q);
            }
        }
    }
    assert forall|q: K| has_key(t, q) implies #[trigger] entries_map(t)[q] == entries_map(s).insert(
        k,
        v,
    )[q] by {
        let i = key_pos(t, q);
        lemma_entry(t, i);
        if i < s.len() {
            assert(t[i] == s[i]);
            lemma_entry(s, i);
        }
    }
    assert(entries_map(t) =~= entries_map(s).insert(k, v));
}

proof fn lemma_update<K, V>(s: Seq<(K, V)>, i: int, v: V)
    requires
        distinct_keys(s),
        0 <= i < s.len(),
    ensures
        distinct_keys(s.update(i, (s[i].0, v))),
        entries_map(s.update(i, (s[i].0, v))) == entries_map(s).insert(s[i].0, v),
{
    let k = s[i].0;
    let t = s.update(i, (k, v));
    assert(distinct_keys(t));
    assert forall|q: K| has_key(t, q) == has_key(s, q) by {
        if has_key(s, q) {
            let j = key_pos(s, q);
            assert(t[j].0 == q);
        }
        if has_key(t, q) {
            let j = key_pos(t, q);
            assert(s[j].0 == q);
        }
    }
    lemma_entry(s, i);
    assert forall|q: K| has_key(t, q) implies #[trigger] entries_map(t)[q] == entries_map(s).insert(
        k,
        v,
    )[q] by {
        let j = key_pos(t, q);
        lemma_entry(t, j);
        lemma_entry(s, j);
    }
    assert(entries_map(t) =~= entries_map(s).insert(k, v));
}

/// Leaving out a position leaves out its key.
pub proof fn lemma_remove<K, V>(s: Seq<(K, V)>, i: int)
    requires
        distinct_keys(s),
        0 <= i < s.len(),
    ensures
        distinct_keys(s.remove(i)),
        entries_map(s.remove(i)) == entries_map(s).remove(s[i].0),
{
    let k = s[i].0;
    let t = s.remove(i);
    assert forall|a: int, b: int| 0 <= a < b < t.len() implies t[a].0 != t[b].0 by {
        let a2 = if a < i { a } else { a + 1 };
        let b2 = if b < i { b } else { b + 1 };
        assert(t[a] == s[a2] && t[b] == s[b2]);
    }
    assert forall|q: K| has_key(t, q) == (q != k && has_key(s, q)) by {
        if has_key(t, q) {
            let a = key_pos(t, q);
            let a2 = if a < i { a } else { a + 1 };
            assert(s[a2].0 == q);
            if q == k {
                if a2 < i {
                    assert(s[a2].0 != s[i].0);
                } else {
                    assert(s[i].0 != s[a2].0);
                }
            }
        }
        if q != k && has_key(s, q) {
            let a = key_pos(s, q);
            let a2 = if a < i { a } else { a - 1 };
            assert(t[a2].0 == q);
        }
    }
    assert forall|q: K| has_key(t, q) implies #[trigger] entries_map(t)[q] == entries_map(s).remove(
        k,
    )[q] by {
        let a = key_pos(t, q);
        lemma_entry(t, a);
        let a2 = if a < i { a } else { a + 1 };
        assert(s[a2] == t[a]);
        lemma_entry(s, a2);
    }
    assert(entries_map(t) =~= entries_map(s).remove(k));
}

/// Binding a key in a list binds it in the map.
pub proof fn lemma_insert<K, V>(s: Seq<(K, V)>, k: K, v: V)
    requires
        distinct_keys(s),
    ensures
        distinct_keys(insert_entry(s, k, v)),
        entries_map(insert_entry(s, k, v)) == entries_map(s).insert(k, v),
{
    if has_key(s, k) {
        lemma_update(s, key_pos(s, k), v);
    } else {
        lemma_push(s, k, v);
    }
}

/// Counting entries of a list without repeats counts the keys of its map.
pub proof fn lemma_count_is_cardinality<K, V>(s: Seq<(K, V)>, p: spec_fn(K, V) -> bool)
    requires
        distinct_keys(s),
    ensures
        ({
            let m = entries_map(s);
            let chosen = m.dom().filter(|k: K| p(k, m[k]));
            chosen.finite() && chosen.len() == count_entries(s, p)
        }),
    decreases s.len(),
{
    let m = entries_map(s);
    let chosen = m.dom().filter(|k: K| p(k, m[k]));
    if s.len() == 0 {
        assert(chosen =~= Set::<K>::empty());
    } else {
        let t = s.drop_last();
        let k = s.last().0;
        let v = s.last().1;
        assert(s =~= t.push((k, v)));
        assert(distinct_keys(t));
        if has_key(t, k) {
            let i = key_pos(t, k);
            assert(s[i].0 != s[s.len() - 1].0);
        }
        lemma_push(t, k, v);
        lemma_count_is_cardinality(t, p);
        let n = entries_map(t);
        let before = n.dom().filter(|q: K| p(q, n[q]));
        if p(k, v) {
            assert(chosen =~= before.insert(k));
            assert(!before.contains(k));
        } else {
            assert(chosen =~= before);
        }
    }
}

/// A map kept as a list of entries.
pub struct AssocMap<K, V> {
    entries: Vec<(K, V)>,
}

impl<K, V> View for AssocMap<K, V> {
    type V = Map<K, V>;

    closed spec fn view(&self) -> Map<K, V> {
        entries_map(self.entries@)
    }
}

impl<K, V> AssocMap<K, V> {
    /// The entries in insertion order.
    pub closed spec fn seq(&self) -> Seq<(K, V)> {
        self.entries@
    }

    /// No key is held twice.
    pub closed spec fn wf(&self) -> bool {
        distinct_keys(self.entries@)
    }

    /// What the list order and the map have to do with each other.
    pub proof fn lemma_seq(&self)
        requires
            self.wf(),
        ensures
            distinct_keys(self.seq()),
            self@ == entries_map(self.seq()),
            forall|i: int|
                0 <= i < self.seq().len() ==> self@.contains_key(#[trigger] self.seq()[i].0)
                    && self@[self.seq()[i].0] == self.seq()[i].1,
    {
        assert forall|i: int| 0 <= i < self.seq().len() implies self@.contains_key(
            #[trigger] self.seq()[i].0,
        ) && self@[self.seq()[i].0] == self.seq()[i].1 by {
            lemma_entry(self.entries@, i);
        }
    }

    pub fn new() -> (r: Self)
        ensures
            r.wf(),
            r@ == Map::<K, V>::empty(),
            r.seq() == Seq::<(K, V)>::empty(),
    {
        let r = AssocMap { entries: Vec::new() };
        assert(r@ =~= Map::<K, V>::empty());
        r
    }

    pub fn len(&self) -> (r: usize)
        requires
            self.wf(),
        ensures
            r == self.seq().len(),
            self@.dom().finite(),
            r == self@.dom().len(),
    {
        proof {
            self.lemma_size();
        }
        self.entries.len()
    }

    /// The entry at a position of the list order.
    pub fn at(&self, i: usize) -> (r: &(K, V))
        requires
            i < self.seq().len(),
        ensures
            *r == self.seq()[i as int],
    {
        &self.entries[i]
    }
}

proof fn lemma_count_all<K, V>(s: Seq<(K, V)>, p: spec_fn(K, V) -> bool)
    requires
        forall|k: K, v: V| #[trigger] p(k, v),
    ensures
        count_entries(s, p) == s.len(),
    decreases s.len(),
{
    if s.len() > 0 {
        lemma_count_all(s.drop_last(), p);
    }
}

impl<K, V> AssocMap<K, V> {
    /// There are as many keys as entries.
    pub proof fn lemma_size(&self)
        requires
            self.wf(),
        ensures
            self@.dom().finite(),
            self@.dom().len() == self.seq().len(),
    {
        let all = |k: K, v: V| true;
        lemma_count_is_cardinality(self.entries@, all);
        lemma_count_all(self.entries@, all);
        assert(self@.dom().filter(|k: K| all(k, self@[k])) =~= self@.dom());
    }

    /// Takes out the entry at a position of the list order.
    pub fn remove_at(&mut self, i: usize) -> (r: (K, V))
        requires
            old(self).wf(),
            i < old(self).seq().len(),
        ensures
            final(self).wf(),
            r == old(self).seq()[i as int],
            final(self).seq() == old(self).seq().remove(i as int),
            final(self)@ == old(self)@.remove(old(self).seq()[i as int].0),
    {
        proof {
            lemma_remove(self.entries@, i as int);
        }
        self.entries.remove(i)
    }
}

impl<K: Key, V> AssocMap<K, V> {
    fn find(&self, k: &K) -> (r: Option<usize>)
        ensures
            match r {
                Some(i) => i < self.entries@.len() && self.entries@[i as int].0 == *k,
                None => !has_key(self.entries@, *k),
            },
    {
        let mut i: usize = 0;
        while i < self.entries.len()
            invariant
                i <= self.entries@.len(),
                forall|j: int| 0 <= j < i ==> self.entries@[j].0 != *k,
            decreases self.entries@.len() - i,
        {
            if self.entries[i].0.same(k) {
                return Some(i);
            }
            i = i + 1;
        }
        None
    }

    pub fn contains_key(&self, k: &K) -> (r: bool)
        requires
            self.wf(),
        ensures
            r == self@.contains_key(*k),
    {
        match self.find(k) {
            Some(i) => {
                proof {
                    lemma_entry(self.entries@, i as int);
                }
                true
            },
            None => false,
        }
    }

    pub fn get(&self, k: &K) -> (r: Option<&V>)
        requires
            self.wf(),
        ensures
            match r {
                Some(v) => self@.contains_key(*k) && *v == self@[*k],
                None => !self@.contains_key(*k),
            },
    {
        match self.find(k) {
            Some(i) => {
                proof {
                    lemma_entry(self.entries@, i as int);
                }
                Some(&self.entries[i].1)
            },
            None => None,
        }
    }

    pub fn get_mut(&mut self, k: &K) -> (r: Option<&mut V>)
        requires
            old(self).wf(),
        ensures
            final(self).wf(),
            match r {
                Some(v) => old(self)@.contains_key(*k) && *v == old(self)@[*k] && final(self)@
                    == old(self)@.insert(*k, *final(v)),
                None => !old(self)@.contains_key(*k) && final(self)@ == old(self)@,
            },
    {
        match self.find(k) {
            Some(i) => {
                proof {
                    lemma_entry(self.entries@, i as int);
                }
                let slot = &mut self.entries[i].1;
                proof {
                    lemma_update(old(self).entries@, i as int, *final(slot));
                }
                Some(slot)
            },
            None => None,
        }
    }

    /// Binds a key, replacing what it was bound to. A new key goes last in the
    /// list order; a replaced one keeps its place.
    pub fn insert(&mut self, k: K, v: V) -> (r: Option<V>)
        requires
            old(self).wf(),
        ensures
            final(self).wf(),
            final(self)@ == old(self)@.insert(k, v),
            r == (if old(self)@.contains_key(k) {
                Some(old(self)@[k])
            } else {
                None
            }),
            final(self).seq() == insert_entry(old(self).seq(), k, v),
    {
        match self.find(&k) {
            Some(i) => {
                proof {
                    lemma_entry(self.entries@, i as int);
                    lemma_update(self.entries@, i as int, v);
                }
                let mut slot = (k, v);
                std::mem::swap(&mut self.entries[i], &mut slot);
                assert(self.entries@ =~= insert_entry(old(self).entries@, k, v));
                Some(slot.1)
            },
            None => {
                proof {
                    lemma_push(self.entries@, k, v);
                }
                self.entries.push((k, v));
                None
            },
        }
    }

    pub fn remove(&mut self, k: &K) -> (r: Option<V>)
        requires
            old(self).wf(),
        ensures
            final(self).wf(),
            final(self)@ == old(self)@.remove(*k),
            r == (if old(self)@.contains_key(*k) {
                Some(old(self)@[*k])
            } else {
                None
            }),
            final(self).seq() == remove_entry(old(self).seq(), *k),
    {
        match self.find(k) {
            Some(i) => {
                proof {
                    lemma_entry(self.entries@, i as int);
                    lemma_remove(self.entries@, i as int);
                }
                let e = self.entries.remove(i);
                Some(e.1)
            },
            None => {
                assert(self@ =~= self@.remove(*k));
                None
            },
        }
    }
}

/// A set kept as a list of keys.
pub struct KeySet<K> {
    map: AssocMap<K, ()>,
}

impl<K> View for KeySet<K> {
    type V = Set<K>;

    closed spec fn view(&self) -> Set<K> {
        self.map@.dom()
    }
}

impl<K> KeySet<K> {
    /// No key is held twice.
    pub closed spec fn wf(&self) -> bool {
        self.map.wf()
    }

    /// There is an end to the keys.
    pub proof fn lemma_finite(&self)
        requires
            self.wf(),
        ensures
            self@.finite(),
    {
        self.map.lemma_size();
    }

    pub fn new() -> (r: Self)
        ensures
            r.wf(),
            r@ == Set::<K>::empty(),
    {
        let r = KeySet { map: AssocMap::new() };
        assert(r@ =~= Set::<K>::empty());
        r
    }

    pub fn len(&self) -> (r: usize)
        requires
            self.wf(),
        ensures
            self@.finite(),
            r == self@.len(),
    {
        self.map.len()
    }
}

impl<K: Key> KeySet<K> {
    pub fn contains(&self, k: &K) -> (r: bool)
        requires
            self.wf(),
        ensures
            r == self@.contains(*k),
    {
        self.map.contains_key(k)
    }

    /// Adds a key; whether it was new.
    pub fn insert(&mut self, k: K) -> (r: bool)
        requires
            old(self).wf(),
        ensures
            final(self).wf(),
            final(self)@ == old(self)@.insert(k),
            r == !old(self)@.contains(k),
    {
        let prev = self.map.insert(k, ());
        assert(self@ =~= old(self)@.insert(k));
        prev.is_none()
    }

    /// Takes a key out; whether it was there.
    pub fn remove(&mut self, k: &K) -> (r: bool)
        requires
            old(self).wf(),
        ensures
            final(self).wf(),
            final(self)@ == old(self)@.remove(*k),
            r == old(self)@.contains(*k),
    {
        let prev = self.map.remove(k);
        assert(self@ =~= old(self)@.remove(*k));
        prev.is_some()
    }
}

} // verus!
