//! The addresses at which peers may be reached.
use crate::assoc::{distinct_keys, has_key, key_pos, lemma_entry, KeySet};
use crate::clock::{after_secs, later};
use crate::hash::PeerId;
use crate::net::{IpAddr, SocketAddr};
use vstd::prelude::*;

verus! {

/// The longest wait before a failed address is tried again, in seconds.
pub const MAX_DIAL_BACKOFF_SECS: u64 = 3600;

/// How far ahead of the clock an announced address may claim to have been seen,
/// in seconds.
pub const MAX_LAST_SEEN_AHEAD_SECS: u64 = 600;

/// How long ago an announced address may have been seen, in seconds.
pub const MAX_LAST_SEEN_AGE_SECS: u64 = 86400;

/// An address, when it was last seen, and whether it can be reached from anywhere.
#[derive(Clone, Copy, Debug)]
pub struct AddrEntry {
    pub addr: SocketAddr,
    /// Seconds since the Unix epoch.
    pub last_seen: u64,
    /// False for loopback, private and link-local addresses.
    pub routable: bool,
}

/// What is known of an address.
pub struct AddrInfo {
    pub entry: AddrEntry,
    pub last_attempt: Option<u64>,
    pub last_success: Option<u64>,
    pub fail_count: u32,
    /// The peers that have announced it.
    pub sources: KeySet<PeerId>,
    /// The address of the peer that announced it first.
    pub contributed_by: Option<IpAddr>,
}

/// What an `AddrInfo` holds.
pub ghost struct InfoView {
    pub entry: AddrEntry,
    pub last_attempt: Option<u64>,
    pub last_success: Option<u64>,
    pub fail_count: u32,
    pub sources: Set<PeerId>,
    pub contributed_by: Option<IpAddr>,
}

impl View for AddrInfo {
    type V = InfoView;

    open spec fn view(&self) -> InfoView {
        InfoView {
            entry: self.entry,
            last_attempt: self.last_attempt,
            last_success: self.last_success,
            fail_count: self.fail_count,
            sources: self.sources@,
            contributed_by: self.contributed_by,
        }
    }
}

/// How many addresses are kept, and on whose word.
#[derive(Clone, Copy, Debug)]
pub struct AddrLimits {
    pub max_book_size: usize,
    pub max_per_subnet16: usize,
    /// How many entries of one message are taken up.
    pub max_per_msg_accept: usize,
    /// How many entries may come from one address: a fraction of the book.
    pub peer_fraction_num: usize,
    pub peer_fraction_den: usize,
    /// How many peers have to announce an address for it to be preferred.
    pub min_sources_for_connect: usize,
}

/// The book as a list.
pub type BookView = Seq<(SocketAddr, InfoView)>;

// ---------------------------------------------------------------------------
// Model
// ---------------------------------------------------------------------------
/// The first two bytes of an address.
pub open spec fn subnet_of(ip: IpAddr) -> (u8, u8) {
    match ip {
        IpAddr::V4(o) => (o@[0], o@[1]),
        IpAddr::V6(o) => (o@[0], o@[1]),
    }
}

/// The wait after `fails` failures: five seconds, doubled each time, an hour at
/// most.
pub open spec fn dial_backoff(fails: nat) -> nat
    decreases fails,
{
    if fails == 0 {
        5
    } else {
        let b = 2 * dial_backoff((fails - 1) as nat);
        if b < MAX_DIAL_BACKOFF_SECS {
            b
        } else {
            MAX_DIAL_BACKOFF_SECS as nat
        }
    }
}

/// Whether an address may be tried.
pub open spec fn is_due(i: InfoView, now: u64) -> bool {
    i.last_attempt matches Some(t) ==> now >= later(t, dial_backoff(i.fail_count as nat) as u64)
}

/// Whether an address is preferred: several peers have announced it, or it has
/// worked before.
pub open spec fn is_preferred(i: InfoView, l: AddrLimits) -> bool {
    i.sources.len() >= l.min_sources_for_connect || i.last_success is Some
}

/// Whether `a` is a better choice than `b`: one that has worked, then one that
/// more peers have announced, then one that has failed less often.
pub open spec fn better_addr(a: InfoView, b: InfoView) -> bool {
    if (a.last_success is Some) != (b.last_success is Some) {
        a.last_success is Some
    } else {
        a.sources.len() > b.sources.len() || (a.sources.len() == b.sources.len() && a.fail_count
            < b.fail_count)
    }
}

/// Whether an address is a candidate of the given class.
pub open spec fn is_candidate(i: InfoView, now: u64, l: AddrLimits, preferred: bool) -> bool {
    is_due(i, now) && is_preferred(i, l) == preferred
}

/// Whether the entry at `k` is the choice among the candidates of a class: none is
/// better, and it is the first such.
pub open spec fn is_best(s: BookView, now: u64, l: AddrLimits, preferred: bool, k: int) -> bool {
    &&& 0 <= k < s.len()
    &&& is_candidate(s[k].1, now, l, preferred)
    &&& forall|j: int|
        0 <= j < s.len() && is_candidate((#[trigger] s[j]).1, now, l, preferred) ==> !better_addr(
            s[j].1,
            s[k].1,
        ) && (j < k ==> better_addr(s[k].1, s[j].1))
}

/// Whether a class has a candidate.
pub open spec fn has_candidate(s: BookView, now: u64, l: AddrLimits, preferred: bool) -> bool {
    exists|j: int| 0 <= j < s.len() && is_candidate((#[trigger] s[j]).1, now, l, preferred)
}

/// Whether an announced entry is taken seriously: it can be reached, and was seen
/// neither ahead of the clock nor long ago.
pub open spec fn plausible(e: AddrEntry, now_unix: u64) -> bool {
    &&& e.routable
    &&& e.last_seen <= now_unix + MAX_LAST_SEEN_AHEAD_SECS
    &&& now_unix - e.last_seen <= MAX_LAST_SEEN_AGE_SECS
}

/// How many entries of a book satisfy a predicate.
pub open spec fn count_book(s: BookView, p: spec_fn((SocketAddr, InfoView)) -> bool) -> nat
    decreases s.len(),
{
    if s.len() == 0 {
        0
    } else {
        count_book(s.drop_last(), p) + if p(s.last()) {
            1nat
        } else {
            0nat
        }
    }
}

/// Whether the entry at `i` is the one that was seen longest ago, the first in the
/// list if there are several.
pub open spec fn is_stalest(s: BookView, i: int) -> bool {
    &&& 0 <= i < s.len()
    &&& forall|j: int|
        0 <= j < s.len() ==> s[i].1.entry.last_seen < (#[trigger] s[j]).1.entry.last_seen || (
        s[i].1.entry.last_seen == s[j].1.entry.last_seen && i <= j)
}

/// The book with room for one more: a full one loses its stalest entry.
pub open spec fn book_room(s: BookView, cap: usize) -> BookView {
    if s.len() >= cap && s.len() > 0 {
        s.remove(choose|i: int| is_stalest(s, i))
    } else {
        s
    }
}

/// How merging a message stands.
pub ghost struct MergeView {
    pub book: BookView,
    pub accepted: nat,
    pub added: nat,
    /// Whether the rest of the message is ignored.
    pub stopped: bool,
}

/// How many entries of a book came from an address.
pub open spec fn contributions(s: BookView, ip: IpAddr) -> nat {
    count_book(s, |e: (SocketAddr, InfoView)| e.1.contributed_by == Some(ip))
}

/// How many entries of a book lie in the subnet of an address.
pub open spec fn in_subnet(s: BookView, ip: IpAddr) -> nat {
    count_book(s, |e: (SocketAddr, InfoView)| subnet_of(e.0.ip) == subnet_of(ip))
}

/// An entry that is announced again: the later sighting counts, and one more peer
/// may have announced it.
pub open spec fn announced_again(i: InfoView, e: AddrEntry, id: PeerId) -> InfoView {
    InfoView {
        entry: AddrEntry {
            last_seen: if e.last_seen > i.entry.last_seen {
                e.last_seen
            } else {
                i.entry.last_seen
            },
            ..i.entry
        },
        sources: i.sources.insert(id),
        ..i
    }
}

/// An entry that is announced for the first time.
pub open spec fn first_announced(e: AddrEntry, ip: IpAddr, id: PeerId) -> InfoView {
    InfoView {
        entry: e,
        last_attempt: None,
        last_success: None,
        fail_count: 0,
        sources: Set::empty().insert(id),
        contributed_by: Some(ip),
    }
}

/// How many entries may come from one address.
pub open spec fn contribution_cap(l: AddrLimits) -> int {
    l.max_book_size * l.peer_fraction_num / l.peer_fraction_den as int
}

/// Taking up one announced entry. `before` counts what the address contributed
/// before the message.
pub open spec fn merge_step(
    m: MergeView,
    e: AddrEntry,
    ip: IpAddr,
    id: PeerId,
    now_unix: u64,
    before: nat,
    l: AddrLimits,
) -> MergeView {
    if m.stopped || m.accepted >= l.max_per_msg_accept {
        MergeView { stopped: true, ..m }
    } else if !plausible(e, now_unix) {
        m
    } else if has_key(m.book, e.addr) {
        let k = key_pos(m.book, e.addr);
        MergeView {
            book: m.book.update(k, (e.addr, announced_again(m.book[k].1, e, id))),
            accepted: m.accepted + 1,
            ..m
        }
    } else if before + m.added >= contribution_cap(l) {
        MergeView { stopped: true, ..m }
    } else if in_subnet(m.book, e.addr.ip) >= l.max_per_subnet16 {
        m
    } else {
        MergeView {
            book: book_room(m.book, l.max_book_size).push((e.addr, first_announced(e, ip, id))),
            accepted: m.accepted + 1,
            added: m.added + 1,
            stopped: false,
        }
    }
}

/// Taking up the first `n` entries of a message.
pub open spec fn merge_all(
    s: BookView,
    es: Seq<AddrEntry>,
    ip: IpAddr,
    id: PeerId,
    now_unix: u64,
    l: AddrLimits,
    n: int,
) -> MergeView
    decreases n,
{
    if n <= 0 {
        MergeView { book: s, accepted: 0, added: 0, stopped: false }
    } else {
        merge_step(
            merge_all(s, es, ip, id, now_unix, l, n - 1),
            es[n - 1],
            ip,
            id,
            now_unix,
            contributions(s, ip),
            l,
        )
    }
}

/// The book after a connection to an address.
pub open spec fn after_success(s: BookView, e: AddrEntry, now: u64, cap: usize) -> BookView {
    if !e.routable {
        s
    } else if has_key(s, e.addr) {
        let k = key_pos(s, e.addr);
        let i = s[k].1;
        s.update(
            k,
            (
                e.addr,
                InfoView {
                    entry: AddrEntry { last_seen: e.last_seen, ..i.entry },
                    last_success: Some(now),
                    fail_count: 0,
                    ..i
                },
            ),
        )
    } else {
        book_room(s, cap).push(
            (
                e.addr,
                InfoView {
                    entry: e,
                    last_attempt: None,
                    last_success: Some(now),
                    fail_count: 0,
                    sources: Set::empty(),
                    contributed_by: None,
                },
            ),
        )
    }
}

/// The book after a failed attempt at an address.
pub open spec fn after_failure(s: BookView, addr: SocketAddr, now: u64) -> BookView {
    if has_key(s, addr) {
        let k = key_pos(s, addr);
        let i = s[k].1;
        s.update(
            k,
            (
                addr,
                InfoView {
                    fail_count: if i.fail_count < u32::MAX {
                        (i.fail_count + 1) as u32
                    } else {
                        i.fail_count
                    },
                    last_attempt: Some(now),
                    ..i
                },
            ),
        )
    } else {
        s
    }
}

/// The entries that may be passed on, among the first `n`.
pub open spec fn routable_entries(s: BookView, n: int) -> Seq<AddrEntry>
    decreases n,
{
    if n <= 0 {
        Seq::empty()
    } else if s[n - 1].1.entry.routable {
        routable_entries(s, n - 1).push(s[n - 1].1.entry)
    } else {
        routable_entries(s, n - 1)
    }
}

/// A list with two positions exchanged.
pub open spec fn swapped(s: Seq<AddrEntry>, i: int, j: int) -> Seq<AddrEntry> {
    s.update(i, s[j]).update(j, s[i])
}

/// A list shuffled from the end down to position `n`: the last position is
/// exchanged with the one that the first pick names, and so on.
pub open spec fn shuffled(s: Seq<AddrEntry>, picks: Seq<usize>, n: int) -> Seq<AddrEntry>
    decreases s.len() - n,
{
    if n >= s.len() || n < 1 {
        s
    } else {
        swapped(shuffled(s, picks, n + 1), n, picks[s.len() - 1 - n] as int)
    }
}

/// Whether picks are good for shuffling a list of the given length: one for each
/// position but the first, from the end, and none beyond its position.
pub open spec fn good_picks(picks: Seq<usize>, len: int) -> bool {
    &&& picks.len() == (if len > 0 {
        len - 1
    } else {
        0
    })
    &&& forall|k: int| 0 <= k < picks.len() ==> (#[trigger] picks[k]) <= len - 1 - k
}

// ---------------------------------------------------------------------------
// The book
// ---------------------------------------------------------------------------
/// The addresses that a node knows.
pub struct AddrBook {
    entries: Vec<(SocketAddr, AddrInfo)>,
}

impl View for AddrBook {
    type V = BookView;

    closed spec fn view(&self) -> BookView {
        Seq::new(self.entries@.len(), |i: int| (self.entries@[i].0, self.entries@[i].1@))
    }
}

/// A number chosen at random from `0` to `max`, both included.
///
/// Calls `rand::Rng::gen_range` on `rand::thread_rng()`. The contract says only
/// that the number lies in the range: which one it is is left to chance.
#[verifier::external_body]
fn random_up_to(max: usize) -> (r: usize)
    ensures
        r <= max,
{
    rand::Rng::gen_range(&mut rand::thread_rng(), 0..=max)
}

proof fn lemma_count_book_step(s: BookView, i: int, p: spec_fn((SocketAddr, InfoView)) -> bool)
    requires
        0 <= i < s.len(),
    ensures
        count_book(s.take(i + 1), p) == count_book(s.take(i), p) + if p(s[i]) {
            1nat
        } else {
            0nat
        },
{
    assert(s.take(i + 1).drop_last() =~= s.take(i));
}

proof fn lemma_stalest_unique(s: BookView, i: int)
    requires
        is_stalest(s, i),
    ensures
        (choose|i: int| is_stalest(s, i)) == i,
{
    let k = choose|i: int| is_stalest(s, i);
    assert(is_stalest(s, k));
    assert(s[i].1.entry.last_seen <= s[k].1.entry.last_seen);
    assert(s[k].1.entry.last_seen <= s[i].1.entry.last_seen);
}

proof fn lemma_room_distinct(s: BookView, i: int)
    requires
        distinct_keys(s),
        0 <= i < s.len(),
    ensures
        distinct_keys(s.remove(i)),
{
    let t = s.remove(i);
    assert forall|a: int, b: int| 0 <= a < b < t.len() implies t[a].0 != t[b].0 by {
        let a2 = if a < i { a } else { a + 1 };
        let b2 = if b < i { b } else { b + 1 };
        assert(t[a] == s[a2] && t[b] == s[b2]);
    }
}

/// The first two bytes of an address.
pub fn subnet16(ip: &IpAddr) -> (r: [u8; 2])
    ensures
        (r@[0], r@[1]) == subnet_of(*ip),
{
    match ip {
        IpAddr::V4(o) => [o[0], o[1]],
        IpAddr::V6(o) => [o[0], o[1]],
    }
}

fn same_subnet(a: &IpAddr, b: &IpAddr) -> (r: bool)
    ensures
        r == (subnet_of(*a) == subnet_of(*b)),
{
    let x = subnet16(a);
    let y = subnet16(b);
    x[0] == y[0] && x[1] == y[1]
}

/// The wait after a number of failures, in seconds.
pub fn backoff_after(fails: u32) -> (r: u64)
    ensures
        r == dial_backoff(fails as nat),
        r <= MAX_DIAL_BACKOFF_SECS,
{
    let mut b: u64 = 5;
    let mut k: u32 = 0;
    while k < fails && k < 20
        invariant
            k <= fails,
            k <= 20,
            b == dial_backoff(k as nat),
            5 <= b <= MAX_DIAL_BACKOFF_SECS,
            k >= 10 ==> b == MAX_DIAL_BACKOFF_SECS,
            k == 0 ==> b == 5,
            k == 1 ==> b == 10,
            k == 2 ==> b == 20,
            k == 3 ==> b == 40,
            k == 4 ==> b == 80,
            k == 5 ==> b == 160,
            k == 6 ==> b == 320,
            k == 7 ==> b == 640,
            k == 8 ==> b == 1280,
            k == 9 ==> b == 2560,
        decreases fails - k,
    {
        if 2 * b < MAX_DIAL_BACKOFF_SECS {
            b = 2 * b;
        } else {
            b = MAX_DIAL_BACKOFF_SECS;
        }
        k = k + 1;
    }
    proof {
        if fails > 20 {
            lemma_backoff_saturates(20, fails as nat);
        }
    }
    b
}

proof fn lemma_backoff_saturates(k: nat, n: nat)
    requires
        k <= n,
        dial_backoff(k) == MAX_DIAL_BACKOFF_SECS,
    ensures
        dial_backoff(n) == MAX_DIAL_BACKOFF_SECS,
    decreases n,
{
    if k < n {
        lemma_backoff_saturates(k, (n - 1) as nat);
    }
}

impl AddrBook {
    /// No address is held twice.
    pub closed spec fn wf(&self) -> bool {
        &&& distinct_keys(self@)
        &&& forall|i: int| 0 <= i < self.entries@.len() ==> (#[trigger] self.entries@[i]).1.sources.wf()
    }

    /// A well-formed book holds no address twice.
    pub proof fn lemma_distinct(&self)
        requires
            self.wf(),
        ensures
            distinct_keys(self@),
    {
    }

    pub fn new() -> (r: Self)
        ensures
            r.wf(),
            r@ == Seq::<(SocketAddr, InfoView)>::empty(),
    {
        let r = AddrBook { entries: Vec::new() };
        assert(r@ =~= Seq::<(SocketAddr, InfoView)>::empty());
        r
    }

    pub fn len(&self) -> (r: usize)
        ensures
            r == self@.len(),
    {
        self.entries.len()
    }

    fn find(&self, addr: &SocketAddr) -> (r: Option<usize>)
        requires
            self.wf(),
        ensures
            match r {
                Some(i) => i < self@.len() && has_key(self@, *addr) && i == key_pos(self@, *addr)
                    && self@[i as int].0 == *addr,
                None => !has_key(self@, *addr),
            },
    {
        let mut i: usize = 0;
        while i < self.entries.len()
            invariant
                self.wf(),
                i <= self.entries@.len(),
                self@.len() == self.entries@.len(),
                forall|j: int| 0 <= j < i ==> (#[trigger] self@[j]).0 != *addr,
            decreases self.entries@.len() - i,
        {
            assert(self@[i as int].0 == self.entries@[i as int].0);
            if self.entries[i].0 == *addr {
                proof {
                    lemma_entry(self@, i as int);
                }
                return Some(i);
            }
            i = i + 1;
        }
        None
    }

    /// The stalest entry.
    fn stalest(&self) -> (r: usize)
        requires
            self@.len() > 0,
        ensures
            is_stalest(self@, r as int),
    {
        let mut best: usize = 0;
        let mut i: usize = 1;
        while i < self.entries.len()
            invariant
                1 <= i <= self.entries@.len(),
                self@.len() == self.entries@.len(),
                best < i,
                forall|j: int|
                    0 <= j < i ==> self@[best as int].1.entry.last_seen < (
                    #[trigger] self@[j]).1.entry.last_seen || (self@[best as int].1.entry.last_seen
                        == self@[j].1.entry.last_seen && best <= j),
            decreases self.entries@.len() - i,
        {
            assert(self@[i as int].1 == self.entries@[i as int].1@);
            assert(self@[best as int].1 == self.entries@[best as int].1@);
            if self.entries[i].1.entry.last_seen < self.entries[best].1.entry.last_seen {
                best = i;
            }
            i = i + 1;
        }
        best
    }

    fn make_room(&mut self, cap: usize)
        requires
            old(self).wf(),
        ensures
            final(self).wf(),
            final(self)@ == book_room(old(self)@, cap),
            forall|a: SocketAddr| #[trigger] has_key(final(self)@, a) ==> has_key(old(self)@, a),
    {
        if self.entries.len() >= cap && self.entries.len() > 0 {
            let i: usize = self.stalest();
            let ghost before = self@;
            proof {
                lemma_stalest_unique(self@, i as int);
                lemma_room_distinct(self@, i as int);
            }
            let _ = self.entries.remove(i);
            proof {
                assert(self@ =~= before.remove(i as int));
                assert forall|a: SocketAddr| #[trigger] has_key(self@, a) implies has_key(
                    before,
                    a,
                ) by {
                    let j = key_pos(self@, a);
                    let j2 = if j < i { j } else { j + 1 };
                    assert(before[j2].0 == a);
                }
            }
        }
    }

    fn add(&mut self, addr: SocketAddr, info: AddrInfo)
        requires
            old(self).wf(),
            !has_key(old(self)@, addr),
            info.sources.wf(),
        ensures
            final(self).wf(),
            final(self)@ == old(self)@.push((addr, info@)),
    {
        let ghost before = self@;
        self.entries.push((addr, info));
        proof {
            assert(self@ =~= before.push((addr, info@)));
            assert forall|i: int, j: int| 0 <= i < j < self@.len() implies self@[i].0 != self@[j].0 by {
                if j == before.len() {
                    assert(before[i] == self@[i]);
                } else {
                    assert(before[i] == self@[i] && before[j] == self@[j]);
                }
            }
        }
    }

    fn contributed(&self, ip: &IpAddr) -> (r: usize)
        ensures
            r == contributions(self@, *ip),
    {
        let ghost p = |e: (SocketAddr, InfoView)| e.1.contributed_by == Some(*ip);
        let mut n: usize = 0;
        let mut i: usize = 0;
        assert(self@.take(0) =~= Seq::<(SocketAddr, InfoView)>::empty());
        while i < self.entries.len()
            invariant
                i <= self.entries@.len(),
                self@.len() == self.entries@.len(),
                n <= i,
                p == (|e: (SocketAddr, InfoView)| e.1.contributed_by == Some(*ip)),
                n == count_book(self@.take(i as int), p),
            decreases self.entries@.len() - i,
        {
            proof {
                lemma_count_book_step(self@, i as int, p);
                assert(self@[i as int].1 == self.entries@[i as int].1@);
            }
            if let Some(c) = self.entries[i].1.contributed_by {
                if c == *ip {
                    n = n + 1;
                }
            }
            i = i + 1;
        }
        assert(self@.take(i as int) =~= self@);
        n
    }

    fn crowd(&self, ip: &IpAddr) -> (r: usize)
        ensures
            r == in_subnet(self@, *ip),
    {
        let ghost p = |e: (SocketAddr, InfoView)| subnet_of(e.0.ip) == subnet_of(*ip);
        let mut n: usize = 0;
        let mut i: usize = 0;
        assert(self@.take(0) =~= Seq::<(SocketAddr, InfoView)>::empty());
        while i < self.entries.len()
            invariant
                i <= self.entries@.len(),
                self@.len() == self.entries@.len(),
                n <= i,
                p == (|e: (SocketAddr, InfoView)| subnet_of(e.0.ip) == subnet_of(*ip)),
                n == count_book(self@.take(i as int), p),
            decreases self.entries@.len() - i,
        {
            proof {
                lemma_count_book_step(self@, i as int, p);
                assert(self@[i as int].0 == self.entries@[i as int].0);
            }
            if same_subnet(&self.entries[i].0.ip, ip) {
                n = n + 1;
            }
            i = i + 1;
        }
        assert(self@.take(i as int) =~= self@);
        n
    }

    /// Takes up addresses that a peer has announced. How many of them are new.
    pub fn merge_addr_entries(
        &mut self,
        entries: &[AddrEntry],
        peer_ip: IpAddr,
        peer_identity: &PeerId,
        now_unix: u64,
        l: &AddrLimits,
    ) -> (r: usize)
        requires
            old(self).wf(),
            l.peer_fraction_den > 0,
        ensures
            final(self).wf(),
            ({
                let m = merge_all(
                    old(self)@,
                    entries@,
                    peer_ip,
                    *peer_identity,
                    now_unix,
                    *l,
                    entries@.len() as int,
                );
                final(self)@ == m.book && r == m.added
            }),
    {
        let ghost s = self@;
        let ghost id = *peer_identity;
        assert(l.max_book_size * l.peer_fraction_num <= usize::MAX * usize::MAX)
            by (nonlinear_arith)
            requires
                l.max_book_size <= usize::MAX,
                l.peer_fraction_num <= usize::MAX,
        ;
        assert(usize::MAX * usize::MAX <= u128::MAX) by (nonlinear_arith)
            requires
                usize::MAX <= u64::MAX,
        ;
        let share: u128 = l.max_book_size as u128 * l.peer_fraction_num as u128
            / l.peer_fraction_den as u128;
        assert(share == contribution_cap(*l));
        let before: usize = self.contributed(&peer_ip);
        let mut accepted: usize = 0;
        let mut added: usize = 0;
        let mut stopped: bool = false;
        let mut i: usize = 0;
        while i < entries.len()
            invariant
                i <= entries@.len(),
                self.wf(),
                id == *peer_identity,
                before == contributions(s, peer_ip),
                share == contribution_cap(*l),
                accepted <= i,
                added <= i,
                (MergeView {
                    book: self@,
                    accepted: accepted as nat,
                    added: added as nat,
                    stopped,
                }) == merge_all(s, entries@, peer_ip, id, now_unix, *l, i as int),
            decreases entries@.len() - i,
        {
            let e: AddrEntry = entries[i];
            i = i + 1;
            if stopped || accepted >= l.max_per_msg_accept {
                stopped = true;
                continue;
            }
            let ahead: bool = e.last_seen as u128 > now_unix as u128 + 600u128;
            let old_news: bool = now_unix > e.last_seen && now_unix - e.last_seen
                > MAX_LAST_SEEN_AGE_SECS;
            if !e.routable || ahead || old_news {
                continue;
            }
            let found = self.find(&e.addr);
            if let Some(k) = found {
                let ghost cur = self@;
                let ghost info = self.entries@[k as int].1@;
                assert(cur[k as int].1 == info);
                if e.last_seen > self.entries[k].1.entry.last_seen {
                    self.entries[k].1.entry.last_seen = e.last_seen;
                }
                self.entries[k].1.sources.insert(*peer_identity);
                proof {
                    assert(self.entries@[k as int].1@ == announced_again(info, e, id));
                    assert(self@ =~= cur.update(k as int, (e.addr, announced_again(info, e, id))));
                    assert(distinct_keys(self@));
                }
                accepted = accepted + 1;
                continue;
            }
            if before as u128 + added as u128 >= share {
                stopped = true;
                continue;
            }
            if self.crowd(&e.addr.ip) >= l.max_per_subnet16 {
                continue;
            }
            self.make_room(l.max_book_size);
            let mut sources: KeySet<PeerId> = KeySet::new();
            sources.insert(*peer_identity);
            self.add(
                e.addr,
                AddrInfo {
                    entry: e,
                    last_attempt: None,
                    last_success: None,
                    fail_count: 0,
                    sources,
                    contributed_by: Some(peer_ip),
                },
            );
            added = added + 1;
            accepted = accepted + 1;
        }
        added
    }

    /// Notes a connection to an address. Addresses that cannot be reached from
    /// elsewhere are not noted.
    pub fn addr_book_record_success(&mut self, e: AddrEntry, now: u64, cap: usize)
        requires
            old(self).wf(),
        ensures
            final(self).wf(),
            final(self)@ == after_success(old(self)@, e, now, cap),
    {
        if !e.routable {
            return ;
        }
        if let Some(k) = self.find(&e.addr) {
            let ghost cur = self@;
            assert(cur[k as int].1 == self.entries@[k as int].1@);
            self.entries[k].1.fail_count = 0;
            self.entries[k].1.last_success = Some(now);
            self.entries[k].1.entry.last_seen = e.last_seen;
            proof {
                assert(self@ =~= after_success(cur, e, now, cap));
                assert(distinct_keys(self@));
            }
            return ;
        }
        self.make_room(cap);
        self.add(
            e.addr,
            AddrInfo {
                entry: e,
                last_attempt: None,
                last_success: Some(now),
                fail_count: 0,
                sources: KeySet::new(),
                contributed_by: None,
            },
        );
    }

    /// Notes a failed attempt at an address.
    pub fn addr_book_record_failure(&mut self, addr: SocketAddr, now: u64)
        requires
            old(self).wf(),
        ensures
            final(self).wf(),
            final(self)@ == after_failure(old(self)@, addr, now),
    {
        if let Some(k) = self.find(&addr) {
            let ghost cur = self@;
            assert(cur[k as int].1 == self.entries@[k as int].1@);
            let n: u32 = self.entries[k].1.fail_count.saturating_add(1);
            self.entries[k].1.fail_count = n;
            self.entries[k].1.last_attempt = Some(now);
            proof {
                assert(self@ =~= after_failure(cur, addr, now));
                assert(distinct_keys(self@));
            }
        }
    }

    fn is_better(&self, a: usize, b: usize) -> (r: bool)
        requires
            self.wf(),
            a < self@.len(),
            b < self@.len(),
        ensures
            r == better_addr(self@[a as int].1, self@[b as int].1),
    {
        let x = &self.entries[a].1;
        let y = &self.entries[b].1;
        let xs: bool = x.last_success.is_some();
        let ys: bool = y.last_success.is_some();
        if xs != ys {
            return xs;
        }
        let m: usize = x.sources.len();
        let n: usize = y.sources.len();
        m > n || (m == n && x.fail_count < y.fail_count)
    }

    /// The address to try next: the best one that is due, of those that several
    /// peers vouch for or that have worked; failing that, of the others.
    pub fn addr_book_select_for_connect(&self, now: u64, l: &AddrLimits) -> (r: Option<SocketAddr>)
        requires
            self.wf(),
        ensures
            match r {
                Some(a) => exists|k: int|
                    is_best(self@, now, *l, has_candidate(self@, now, *l, true), k) && (
                    #[trigger] self@[k]).0 == a,
                None => !has_candidate(self@, now, *l, true) && !has_candidate(
                    self@,
                    now,
                    *l,
                    false,
                ),
            },
    {
        match self.best_of(now, l, true) {
            Some(k) => {
                assert(is_candidate(self@[k as int].1, now, *l, true));
                Some(self.entries[k].0)
            },
            None => match self.best_of(now, l, false) {
                Some(k) => {
                    assert(self@[k as int].0 == self.entries@[k as int].0);
                    Some(self.entries[k].0)
                },
                None => None,
            },
        }
    }

    fn best_of(&self, now: u64, l: &AddrLimits, preferred: bool) -> (r: Option<usize>)
        requires
            self.wf(),
        ensures
            match r {
                Some(k) => is_best(self@, now, *l, preferred, k as int),
                None => !has_candidate(self@, now, *l, preferred),
            },
    {
        let mut best: Option<usize> = None;
        let mut i: usize = 0;
        while i < self.entries.len()
            invariant
                self.wf(),
                i <= self.entries@.len(),
                self@.len() == self.entries@.len(),
                match best {
                    Some(b) => b < i && is_candidate(self@[b as int].1, now, *l, preferred)
                        && forall|j: int|
                        0 <= j < i && is_candidate((#[trigger] self@[j]).1, now, *l, preferred)
                            ==> !better_addr(self@[j].1, self@[b as int].1) && (j < b
                            ==> better_addr(self@[b as int].1, self@[j].1)),
                    None => forall|j: int|
                        0 <= j < i ==> !is_candidate((#[trigger] self@[j]).1, now, *l, preferred),
                },
            decreases self.entries@.len() - i,
        {
            let info = &self.entries[i].1;
            assert(self@[i as int].1 == info@);
            let due: bool = match info.last_attempt {
                Some(t) => now >= after_secs(t, backoff_after(info.fail_count)),
                None => true,
            };
            let vouched: bool = info.sources.len() >= l.min_sources_for_connect
                || info.last_success.is_some();
            if due && vouched == preferred {
                match best {
                    None => {
                        best = Some(i);
                    },
                    Some(b) => {
                        if self.is_better(i, b) {
                            best = Some(i);
                        }
                    },
                }
            }
            i = i + 1;
        }
        best
    }

    fn routable(&self) -> (r: Vec<AddrEntry>)
        ensures
            r@ == routable_entries(self@, self@.len() as int),
    {
        let mut out: Vec<AddrEntry> = Vec::new();
        let mut i: usize = 0;
        while i < self.entries.len()
            invariant
                i <= self.entries@.len(),
                self@.len() == self.entries@.len(),
                out@ == routable_entries(self@, i as int),
            decreases self.entries@.len() - i,
        {
            assert(self@[i as int].1 == self.entries@[i as int].1@);
            if self.entries[i].1.entry.routable {
                out.push(self.entries[i].1.entry);
            }
            i = i + 1;
        }
        out
    }

    /// Some of the addresses that may be passed on, chosen and ordered at random:
    /// all of them shuffled, and `n` of those at most.
    pub fn addr_book_sample(&self, n: usize) -> (r: Vec<AddrEntry>)
        ensures
            ({
                let all = routable_entries(self@, self@.len() as int);
                exists|picks: Seq<usize>| #[trigger]
                    good_picks(picks, all.len() as int) && r@ == (if shuffled(all, picks, 1).len()
                        > n {
                        shuffled(all, picks, 1).take(n as int)
                    } else {
                        shuffled(all, picks, 1)
                    })
            }),
    {
        let all = self.routable();
        let picks = draw_picks(all.len());
        shuffle_and_cut(all, &picks, n)
    }

    /// The addresses and when they were seen, for storage.
    pub fn known_addrs(&self) -> (r: Vec<(SocketAddr, u64)>)
        ensures
            r@.len() == self@.len(),
            forall|i: int|
                0 <= i < r@.len() ==> #[trigger] r@[i] == (
                    self@[i].1.entry.addr,
                    self@[i].1.entry.last_seen,
                ),
    {
        let mut out: Vec<(SocketAddr, u64)> = Vec::new();
        let mut i: usize = 0;
        while i < self.entries.len()
            invariant
                i <= self.entries@.len(),
                self@.len() == self.entries@.len(),
                out@.len() == i,
                forall|j: int|
                    0 <= j < i ==> #[trigger] out@[j] == (
                        self@[j].1.entry.addr,
                        self@[j].1.entry.last_seen,
                    ),
            decreases self.entries@.len() - i,
        {
            let e = self.entries[i].1.entry;
            assert(self@[i as int].1 == self.entries@[i as int].1@);
            out.push((e.addr, e.last_seen));
            i = i + 1;
        }
        out
    }
}

/// Picks for shuffling a list of the given length.
fn draw_picks(len: usize) -> (r: Vec<usize>)
    ensures
        good_picks(r@, len as int),
{
    let mut picks: Vec<usize> = Vec::new();
    let mut i: usize = len;
    while i > 1
        invariant
            i <= len,
            len > 0 ==> i >= 1,
            picks@.len() == len - i,
            forall|k: int| 0 <= k < picks@.len() ==> (#[trigger] picks@[k]) <= len - 1 - k,
        decreases i,
    {
        picks.push(random_up_to(i - 1));
        i = i - 1;
    }
    picks
}

/// Shuffles a list by the given picks, and cuts it to `n` entries.
pub fn shuffle_and_cut(entries: Vec<AddrEntry>, picks: &Vec<usize>, n: usize) -> (r: Vec<AddrEntry>)
    requires
        good_picks(picks@, entries@.len() as int),
    ensures
        r@ == (if entries@.len() > n {
            shuffled(entries@, picks@, 1).take(n as int)
        } else {
            shuffled(entries@, picks@, 1)
        }),
        shuffled(entries@, picks@, 1).len() == entries@.len(),
{
    let ghost s = entries@;
    let mut v: Vec<AddrEntry> = entries;
    let len: usize = v.len();
    let mut i: usize = len;
    while i > 1
        invariant
            i <= len,
            len > 0 ==> i >= 1,
            len == s.len(),
            v@.len() == len,
            good_picks(picks@, len as int),
            v@ == shuffled(s, picks@, i as int),
        decreases i,
    {
        i = i - 1;
        let j: usize = picks[len - 1 - i];
        let a: AddrEntry = v[i];
        let b: AddrEntry = v[j];
        v.set(i, b);
        v.set(j, a);
    }
    assert(v@ == shuffled(s, picks@, 1));
    if v.len() > n {
        v.truncate(n);
    }
    v
}

// ---------------------------------------------------------------------------
// Laws
// ---------------------------------------------------------------------------
proof fn lemma_swap_multiset(s: Seq<AddrEntry>, i: int, j: int)
    requires
        0 <= i < s.len(),
        0 <= j < s.len(),
    ensures
        swapped(s, i, j).to_multiset() == s.to_multiset(),
{
    broadcast use vstd::seq_lib::group_to_multiset_ensures;

    let t = s.update(i, s[j]);
    vstd::seq_lib::to_multiset_update(s, i, s[j]);
    vstd::seq_lib::to_multiset_update(t, j, s[i]);
    assert(t[j] == s[j]);
    assert(s.to_multiset().contains(s[i])) by {
        assert(s.contains(s[i]));
    }
    assert(t.to_multiset().contains(s[j])) by {
        assert(t.contains(t[j]));
    }
    assert(swapped(s, i, j).to_multiset() =~= s.to_multiset());
}

/// A shuffle neither loses nor adds an entry, whatever the picks.
pub proof fn law_shuffle_is_a_permutation(s: Seq<AddrEntry>, picks: Seq<usize>, n: int)
    requires
        good_picks(picks, s.len() as int),
        n >= 1,
    ensures
        shuffled(s, picks, n).len() == s.len(),
        shuffled(s, picks, n).to_multiset() == s.to_multiset(),
    decreases s.len() - n,
{
    if n < s.len() {
        law_shuffle_is_a_permutation(s, picks, n + 1);
        let k = s.len() - 1 - n;
        assert(picks[k] <= s.len() - 1 - k);
        lemma_swap_multiset(shuffled(s, picks, n + 1), n, picks[k] as int);
    }
}

/// Only addresses that can be reached from anywhere are passed on.
pub proof fn law_only_routable_entries_are_shared(s: BookView, n: int, i: int)
    requires
        0 <= n <= s.len(),
        0 <= i < routable_entries(s, n).len(),
    ensures
        routable_entries(s, n)[i].routable,
    decreases n,
{
    if n > 0 && i < routable_entries(s, n - 1).len() {
        law_only_routable_entries_are_shared(s, n - 1, i);
    }
}

/// One message adds no more entries than it is allowed to, and takes its peer no
/// further over its share of the book.
pub proof fn law_merge_is_bounded(
    s: BookView,
    es: Seq<AddrEntry>,
    ip: IpAddr,
    id: PeerId,
    now_unix: u64,
    l: AddrLimits,
    n: int,
)
    requires
        0 <= n <= es.len(),
    ensures
        ({
            let m = merge_all(s, es, ip, id, now_unix, l, n);
            &&& m.added <= m.accepted <= l.max_per_msg_accept
            &&& m.added > 0 ==> contributions(s, ip) + m.added <= contribution_cap(l)
        }),
    decreases n,
{
    if n > 0 {
        law_merge_is_bounded(s, es, ip, id, now_unix, l, n - 1);
    }
}

/// A book within its size stays within it, whatever a peer announces.
pub proof fn law_merge_keeps_size(
    s: BookView,
    es: Seq<AddrEntry>,
    ip: IpAddr,
    id: PeerId,
    now_unix: u64,
    l: AddrLimits,
    n: int,
)
    requires
        0 <= n <= es.len(),
        s.len() <= l.max_book_size,
        l.max_book_size > 0,
    ensures
        merge_all(s, es, ip, id, now_unix, l, n).book.len() <= l.max_book_size,
    decreases n,
{
    if n > 0 {
        law_merge_keeps_size(s, es, ip, id, now_unix, l, n - 1);
        let b = merge_all(s, es, ip, id, now_unix, l, n - 1).book;
        if b.len() > 0 {
            lemma_stalest_exists(b);
            let k = choose|i: int| is_stalest(b, i);
            assert(is_stalest(b, k));
        }
    }
}

proof fn lemma_stalest_exists(s: BookView)
    requires
        s.len() > 0,
    ensures
        exists|i: int| is_stalest(s, i),
    decreases s.len(),
{
    let last = s.len() - 1;
    if s.len() == 1 {
        assert(is_stalest(s, 0));
    } else {
        let t = s.drop_last();
        lemma_stalest_exists(t);
        let k = choose|i: int| is_stalest(t, i);
        let pick = if s[last].1.entry.last_seen < s[k].1.entry.last_seen {
            last
        } else {
            k
        };
        assert forall|j: int| 0 <= j < s.len() implies s[pick].1.entry.last_seen < (
        #[trigger] s[j]).1.entry.last_seen || (s[pick].1.entry.last_seen
            == s[j].1.entry.last_seen && pick <= j) by {
            if j < last {
                assert(t[j] == s[j]);
                assert(t[k] == s[k]);
            }
        }
        assert(is_stalest(s, pick));
    }
}

} // verus!
