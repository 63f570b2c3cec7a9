//! Checking the chain tip that a peer claims: what is needed for one attempt.
use crate::assoc::{entries_map, key_pos, lemma_entry, AssocMap, Key, KeySet};
use crate::chain::{BlockHeader, Checkpoint};
use crate::events::{GetHeadersMsg, Message};
use crate::hash::{same_bytes, Hash256, PeerId};
use crate::hexcodec::{hex_encode, hex_text};
use crate::net::IpAddr;
use crate::text::{cat2, cat_num, decimal, push_decimal};
use crate::work::{add_work, be_nat, target_work, work_from_target, work_sum};
use vstd::prelude::*;
use vstd::string::*;

verus! {

/// The least time for an attempt of a node that has a chain, in seconds.
pub const TIP_VALIDATION_DEADLINE_FLOOR_SECS: u64 = 7_200;

/// The least time for an attempt of a node without a chain, in seconds.
pub const BOOTSTRAP_COORDINATOR_DEADLINE_SECS: u64 = 300;

/// How much of the time that the work takes is granted, in percent.
pub const TIP_VALIDATION_DEADLINE_SCALE_PCT: u64 = 150;

/// How many attempts of a node that has a chain run at a time.
pub const MAX_CONCURRENT_TIP_VALIDATIONS: usize = 4;

/// How many attempts of a node without a chain run at a time.
pub const MAX_CONCURRENT_TIP_VALIDATIONS_BOOTSTRAP: usize = 1;

/// How many proofs of work a node that has a chain checks in a second.
pub const MAX_VALIDATION_ARGON2_PER_SEC: u32 = 20;

/// How many proofs of work a node without a chain checks in a second per core.
pub const VALIDATION_ARGON2_PER_CORE_BOOTSTRAP: u32 = 10;

// ---------------------------------------------------------------------------
// Errors
// ---------------------------------------------------------------------------
/// Why a tip was not confirmed.
#[derive(Debug)]
pub enum TipValidationError {
    /// A header that the peer sent is no good.
    DeliveredInvalidHeader(String),
    /// No headers came in time.
    FetchTimeout,
    /// The attempt took too long.
    DeadlineExceeded,
    /// Our own chain has moved away from the anchor meanwhile.
    AnchorOrphaned,
    /// Too many attempts are under way.
    NoSlotAvailable,
    /// The session ended.
    PeerDisconnected,
    /// A node without a chain made no headway.
    BootstrapStalled,
    /// The peer sent no headers, which may be because it limits its answers.
    PeerNoForwardData(String),
    /// The node itself failed.
    Internal(String),
}

/// What a `TipValidationError` says.
pub ghost enum TipFault {
    DeliveredInvalidHeader(Seq<char>),
    FetchTimeout,
    DeadlineExceeded,
    AnchorOrphaned,
    NoSlotAvailable,
    PeerDisconnected,
    BootstrapStalled,
    PeerNoForwardData(Seq<char>),
    Internal(Seq<char>),
}

impl View for TipValidationError {
    type V = TipFault;

    open spec fn view(&self) -> TipFault {
        match self {
            TipValidationError::DeliveredInvalidHeader(m) => TipFault::DeliveredInvalidHeader(m@),
            TipValidationError::FetchTimeout => TipFault::FetchTimeout,
            TipValidationError::DeadlineExceeded => TipFault::DeadlineExceeded,
            TipValidationError::AnchorOrphaned => TipFault::AnchorOrphaned,
            TipValidationError::NoSlotAvailable => TipFault::NoSlotAvailable,
            TipValidationError::PeerDisconnected => TipFault::PeerDisconnected,
            TipValidationError::BootstrapStalled => TipFault::BootstrapStalled,
            TipValidationError::PeerNoForwardData(m) => TipFault::PeerNoForwardData(m@),
            TipValidationError::Internal(m) => TipFault::Internal(m@),
        }
    }
}

impl TipFault {
    /// The message of an error.
    pub open spec fn text(self) -> Seq<char> {
        match self {
            TipFault::DeliveredInvalidHeader(m) => "delivered invalid header: "@ + m,
            TipFault::FetchTimeout => "fetch timeout"@,
            TipFault::DeadlineExceeded => "deadline exceeded"@,
            TipFault::AnchorOrphaned => "anchor orphaned by local reorg"@,
            TipFault::NoSlotAvailable => "no concurrent validation slot available"@,
            TipFault::PeerDisconnected => "peer disconnected mid-validation"@,
            TipFault::BootstrapStalled => "bootstrap coordinator stalled — no forward progress"@,
            TipFault::PeerNoForwardData(m) => "peer returned no data: "@ + m,
            TipFault::Internal(m) => "internal: "@ + m,
        }
    }
}

impl TipValidationError {
    /// The message of an error.
    pub fn message(&self) -> (r: String)
        ensures
            r@ == self@.text(),
    {
        match self {
            TipValidationError::DeliveredInvalidHeader(m) => cat2(
                "delivered invalid header: ",
                m.as_str(),
            ),
            TipValidationError::FetchTimeout => String::from_str("fetch timeout"),
            TipValidationError::DeadlineExceeded => String::from_str("deadline exceeded"),
            TipValidationError::AnchorOrphaned => String::from_str(
                "anchor orphaned by local reorg",
            ),
            TipValidationError::NoSlotAvailable => String::from_str(
                "no concurrent validation slot available",
            ),
            TipValidationError::PeerDisconnected => String::from_str(
                "peer disconnected mid-validation",
            ),
            TipValidationError::BootstrapStalled => String::from_str(
                "bootstrap coordinator stalled — no forward progress",
            ),
            TipValidationError::PeerNoForwardData(m) => cat2(
                "peer returned no data: ",
                m.as_str(),
            ),
            TipValidationError::Internal(m) => cat2("internal: ", m.as_str()),
        }
    }
}

// ---------------------------------------------------------------------------
// Regimes
// ---------------------------------------------------------------------------
/// The conditions under which an attempt runs.
#[derive(Clone, Copy, Debug, PartialEq, Eq, Structural)]
pub enum ValidationRegime {
    /// The node has no chain of its own.
    Bootstrap,
    /// The node has a chain of its own, to which a claim can be tied.
    SteadyState,
}

impl ValidationRegime {
    /// The regime of a node whose tip is at the given height. It depends on
    /// nothing else.
    pub open spec fn at_height(our_tip_height: u64) -> ValidationRegime {
        if our_tip_height == 0 {
            ValidationRegime::Bootstrap
        } else {
            ValidationRegime::SteadyState
        }
    }

    /// The regime for a new attempt. Whether the checkpoint is trusted does
    /// not matter, nor whether our own tip is below it.
    pub fn select(our_tip_height: u64, _assume_valid: bool) -> (r: Self)
        ensures
            r == ValidationRegime::at_height(our_tip_height),
    {
        if our_tip_height == 0 {
            ValidationRegime::Bootstrap
        } else {
            ValidationRegime::SteadyState
        }
    }

    pub open spec fn slots(self) -> usize {
        match self {
            ValidationRegime::Bootstrap => MAX_CONCURRENT_TIP_VALIDATIONS_BOOTSTRAP,
            ValidationRegime::SteadyState => MAX_CONCURRENT_TIP_VALIDATIONS,
        }
    }

    /// How many attempts may run at a time.
    pub fn max_concurrent(self) -> (r: usize)
        ensures
            r == self.slots(),
    {
        match self {
            ValidationRegime::Bootstrap => MAX_CONCURRENT_TIP_VALIDATIONS_BOOTSTRAP,
            ValidationRegime::SteadyState => MAX_CONCURRENT_TIP_VALIDATIONS,
        }
    }

    /// How many proofs of work are checked in a second on a machine with the
    /// given number of cores.
    pub open spec fn rate(self, cores: u32) -> int {
        match self {
            ValidationRegime::Bootstrap => (if cores == 0 {
                1
            } else {
                cores as int
            }) * VALIDATION_ARGON2_PER_CORE_BOOTSTRAP,
            ValidationRegime::SteadyState => MAX_VALIDATION_ARGON2_PER_SEC as int,
        }
    }

    /// How many proofs of work are checked in a second.
    pub fn argon2_rate_per_sec(self, cores: u32) -> (r: u32)
        requires
            self.rate(cores) <= u32::MAX,
        ensures
            r == self.rate(cores),
    {
        match self {
            ValidationRegime::Bootstrap => {
                let n: u32 = if cores == 0 {
                    1
                } else {
                    cores
                };
                n * 10
            },
            ValidationRegime::SteadyState => MAX_VALIDATION_ARGON2_PER_SEC,
        }
    }
}

/// The time granted for an attempt over so many headers, in seconds: half as
/// much again as the proofs of work take, but not less than the regime's
/// floor. It ends with the range of the clock.
pub open spec fn deadline_secs(expected_headers: u64, regime: ValidationRegime, cores: u32) -> int {
    let secs = expected_headers as int / regime.rate(cores);
    let scaled = (secs * TIP_VALIDATION_DEADLINE_SCALE_PCT + 99) / 100;
    let floor = match regime {
        ValidationRegime::Bootstrap => BOOTSTRAP_COORDINATOR_DEADLINE_SECS,
        ValidationRegime::SteadyState => TIP_VALIDATION_DEADLINE_FLOOR_SECS,
    };
    if scaled <= floor {
        floor as int
    } else if scaled <= u64::MAX {
        scaled
    } else {
        u64::MAX as int
    }
}

/// The time granted for an attempt over so many headers, in seconds.
pub fn compute_deadline(expected_headers: u64, regime: ValidationRegime, cores: u32) -> (r: u64)
    requires
        regime.rate(cores) <= u32::MAX,
    ensures
        r == deadline_secs(expected_headers, regime, cores),
{
    let rate: u32 = regime.argon2_rate_per_sec(cores);
    let secs: u64 = expected_headers / (rate as u64);
    let scaled: u128 = (secs as u128 * 150u128 + 99u128) / 100u128;
    let floor: u64 = match regime {
        ValidationRegime::Bootstrap => BOOTSTRAP_COORDINATOR_DEADLINE_SECS,
        ValidationRegime::SteadyState => TIP_VALIDATION_DEADLINE_FLOOR_SECS,
    };
    if scaled <= floor as u128 {
        floor
    } else if scaled <= u64::MAX as u128 {
        scaled as u64
    } else {
        u64::MAX
    }
}

/// More work is never granted less time, and no attempt gets less than the
/// floor of its regime.
pub proof fn law_deadline_scales_with_work(a: u64, b: u64, regime: ValidationRegime, cores: u32)
    requires
        a <= b,
        regime.rate(cores) <= u32::MAX,
    ensures
        deadline_secs(a, regime, cores) <= deadline_secs(b, regime, cores),
        deadline_secs(a, regime, cores) >= match regime {
            ValidationRegime::Bootstrap => BOOTSTRAP_COORDINATOR_DEADLINE_SECS,
            ValidationRegime::SteadyState => TIP_VALIDATION_DEADLINE_FLOOR_SECS,
        },
{
    let rate = regime.rate(cores);
    assert(rate > 0);
    vstd::arithmetic::div_mod::lemma_div_is_ordered(a as int, b as int, rate);
}

// ---------------------------------------------------------------------------
// Headers that were checked before
// ---------------------------------------------------------------------------
/// The headers whose proof of work was checked while a claim was, by peer. A
/// block with exactly such a header need not be checked again.
pub struct PreValidatedHeaderCache {
    inner: AssocMap<PeerId, AssocMap<Hash256, BlockHeader>>,
}

impl View for PreValidatedHeaderCache {
    type V = Map<PeerId, Map<Hash256, BlockHeader>>;

    closed spec fn view(&self) -> Map<PeerId, Map<Hash256, BlockHeader>> {
        self.inner@.map_values(|m: AssocMap<Hash256, BlockHeader>| m@)
    }
}

/// The headers that are held: who showed each, and its id.
pub open spec fn headers_held(m: Map<PeerId, Map<Hash256, BlockHeader>>) -> Set<(PeerId, Hash256)> {
    Set::new(|q: (PeerId, Hash256)| m.contains_key(q.0) && m[q.0].contains_key(q.1))
}

/// The same headers with some of another list put in, a later one in place of
/// an earlier one with its id.
pub open spec fn with_headers(m: Map<Hash256, BlockHeader>, s: Seq<BlockHeader>) -> Map<
    Hash256,
    BlockHeader,
>
    decreases s.len(),
{
    if s.len() == 0 {
        m
    } else {
        with_headers(m, s.drop_last()).insert(s.last().id, s.last())
    }
}

spec fn listed(s: Seq<(PeerId, AssocMap<Hash256, BlockHeader>)>) -> Set<(PeerId, Hash256)> {
    Set::new(
        |q: (PeerId, Hash256)|
            exists|j: int| 0 <= j < s.len() && (#[trigger] s[j]).0 == q.0 && s[j].1@.contains_key(q.1),
    )
}

proof fn lemma_listed_step(s: Seq<(PeerId, AssocMap<Hash256, BlockHeader>)>, i: int)
    requires
        crate::assoc::distinct_keys(s),
        0 <= i < s.len(),
        listed(s.take(i)).finite(),
        s[i].1@.dom().finite(),
    ensures
        listed(s.take(i + 1)).finite(),
        listed(s.take(i + 1)).len() == listed(s.take(i)).len() + s[i].1@.dom().len(),
{
    let peer = s[i].0;
    let d = s[i].1@.dom();
    let f = |id: Hash256| (peer, id);
    let new = d.map(f);
    assert(vstd::relations::injective_on(f, d));
    vstd::set_lib::lemma_map_size(d, new, f);
    let t = s.take(i);
    let u = s.take(i + 1);
    assert forall|q: (PeerId, Hash256)| listed(u).contains(q) <==> (listed(t) + new).contains(q) by {
        if listed(u).contains(q) {
            let j = choose|j: int|
                0 <= j < u.len() && (#[trigger] u[j]).0 == q.0 && u[j].1@.contains_key(q.1);
            if j < i {
                assert(t[j] == u[j]);
            } else {
                assert(d.contains(q.1) && q == f(q.1));
            }
        }
        if listed(t).contains(q) {
            let j = choose|j: int|
                0 <= j < t.len() && (#[trigger] t[j]).0 == q.0 && t[j].1@.contains_key(q.1);
            assert(u[j] == t[j]);
        }
        if new.contains(q) {
            assert(u[i] == s[i]);
            assert(u[i].0 == q.0 && u[i].1@.contains_key(q.1));
        }
    }
    assert(listed(u) =~= listed(t) + new);
    assert forall|q: (PeerId, Hash256)| !(listed(t).contains(q) && new.contains(q)) by {
        if listed(t).contains(q) && new.contains(q) {
            let j = choose|j: int|
                0 <= j < t.len() && (#[trigger] t[j]).0 == q.0 && t[j].1@.contains_key(q.1);
            assert(t[j] == s[j]);
            assert(s[j].0 != s[i].0);
        }
    }
    assert(listed(t).disjoint(new));
    vstd::set_lib::lemma_set_disjoint_lens(listed(t), new);
}

impl PreValidatedHeaderCache {
    /// No peer and no header is held twice, and each header is under its id.
    pub closed spec fn wf(&self) -> bool {
        &&& self.inner.wf()
        &&& forall|p: PeerId| #[trigger]
            self.inner@.contains_key(p) ==> {
                &&& self.inner@[p].wf()
                &&& forall|id: Hash256| #[trigger]
                    self.inner@[p]@.contains_key(id) ==> self.inner@[p]@[id].id == id
            }
    }

    /// In a well-formed cache each header is under its id.
    pub proof fn lemma_ids(&self, peer: PeerId, id: Hash256)
        requires
            self.wf(),
            self.of_peer(peer).contains_key(id),
        ensures
            self.of_peer(peer)[id].id == id,
    {
    }

    /// The headers of a peer.
    pub open spec fn of_peer(&self, peer: PeerId) -> Map<Hash256, BlockHeader> {
        if self@.contains_key(peer) {
            self@[peer]
        } else {
            Map::empty()
        }
    }

    pub fn new() -> (r: Self)
        ensures
            r.wf(),
            r@ == Map::<PeerId, Map<Hash256, BlockHeader>>::empty(),
    {
        let r = PreValidatedHeaderCache { inner: AssocMap::new() };
        assert(r@ =~= Map::<PeerId, Map<Hash256, BlockHeader>>::empty());
        r
    }

    /// Notes a header of a peer.
    pub fn insert(&mut self, peer: PeerId, header: BlockHeader)
        requires
            old(self).wf(),
        ensures
            final(self).wf(),
            final(self)@ == old(self)@.insert(
                peer,
                old(self).of_peer(peer).insert(header.id, header),
            ),
    {
        let id = header.block_id();
        match self.inner.get_mut(&peer) {
            Some(entries) => {
                let prev = entries.insert(id, header);
                proof {
                    assert(self@ =~= old(self)@.insert(
                        peer,
                        old(self).of_peer(peer).insert(header.id, header),
                    ));
                    assert forall|p: PeerId| #[trigger] self.inner@.contains_key(p) implies {
                        &&& self.inner@[p].wf()
                        &&& forall|i: Hash256| #[trigger]
                            self.inner@[p]@.contains_key(i) ==> self.inner@[p]@[i].id == i
                    } by {
                        assert(old(self).inner@.contains_key(p));
                    }
                }
            },
            None => {
                let mut entries: AssocMap<Hash256, BlockHeader> = AssocMap::new();
                let prev = entries.insert(id, header);
                let none = self.inner.insert(peer, entries);
                assert(self@ =~= old(self)@.insert(
                    peer,
                    old(self).of_peer(peer).insert(header.id, header),
                ));
            },
        }
    }

    /// Notes headers of a peer, in their order.
    pub fn insert_all(&mut self, peer: PeerId, headers: &Vec<BlockHeader>)
        requires
            old(self).wf(),
        ensures
            final(self).wf(),
            final(self)@ == (if headers@.len() == 0 {
                old(self)@
            } else {
                old(self)@.insert(peer, with_headers(old(self).of_peer(peer), headers@))
            }),
    {
        let n: usize = headers.len();
        let mut i: usize = 0;
        let ghost m = self.of_peer(peer);
        while i < n
            invariant
                n == headers@.len(),
                i <= n,
                m == old(self).of_peer(peer),
                self.wf(),
                self@ == (if i == 0 {
                    old(self)@
                } else {
                    old(self)@.insert(peer, with_headers(m, headers@.take(i as int)))
                }),
            decreases n - i,
        {
            assert(headers@.take(i + 1).drop_last() =~= headers@.take(i as int));
            assert(i == 0 ==> with_headers(m, headers@.take(i as int)) == m);
            assert(self.of_peer(peer) == with_headers(m, headers@.take(i as int)));
            self.insert(peer, headers[i]);
            assert(self@ =~= old(self)@.insert(peer, with_headers(m, headers@.take(i + 1))));
            i = i + 1;
        }
        assert(headers@.take(n as int) =~= headers@);
    }

    /// The header of a peer with exactly the given id.
    pub fn lookup(&self, peer: &PeerId, block_id: &Hash256) -> (r: Option<&BlockHeader>)
        requires
            self.wf(),
        ensures
            match r {
                Some(h) => self.of_peer(*peer).contains_key(*block_id) && *h == self.of_peer(
                    *peer,
                )[*block_id] && h.id == *block_id,
                None => !self.of_peer(*peer).contains_key(*block_id),
            },
    {
        match self.inner.get(peer) {
            Some(entries) => entries.get(block_id),
            None => None,
        }
    }

    /// The header of any peer with exactly the given id.
    pub fn lookup_any(&self, block_id: &Hash256) -> (r: Option<&BlockHeader>)
        requires
            self.wf(),
        ensures
            match r {
                Some(h) => h.id == *block_id && exists|p: PeerId| #[trigger]
                    self@.contains_key(p) && self@[p].contains_key(*block_id) && self@[p][*block_id]
                        == *h,
                None => forall|p: PeerId| #[trigger]
                    self@.contains_key(p) ==> !self@[p].contains_key(*block_id),
            },
    {
        let n: usize = self.inner.len();
        let mut i: usize = 0;
        proof {
            self.inner.lemma_seq();
        }
        while i < n
            invariant
                self.wf(),
                n == self.inner.seq().len(),
                i <= n,
                self.inner@ == entries_map(self.inner.seq()),
                crate::assoc::distinct_keys(self.inner.seq()),
                forall|j: int|
                    0 <= j < i ==> !(#[trigger] self.inner.seq()[j]).1@.contains_key(*block_id),
            decreases n - i,
        {
            let e = self.inner.at(i);
            proof {
                lemma_entry(self.inner.seq(), i as int);
            }
            match e.1.get(block_id) {
                Some(h) => {
                    assert(self@.contains_key(e.0));
                    return Some(h);
                },
                None => {},
            }
            i = i + 1;
        }
        proof {
            assert forall|p: PeerId| #[trigger] self@.contains_key(p) implies !self@[p].contains_key(
                *block_id,
            ) by {
                let k = key_pos(self.inner.seq(), p);
                lemma_entry(self.inner.seq(), k);
            }
        }
        None
    }

    /// Forgets the headers of a peer.
    pub fn clear_peer(&mut self, peer: &PeerId)
        requires
            old(self).wf(),
        ensures
            final(self).wf(),
            final(self)@ == old(self)@.remove(*peer),
    {
        let gone = self.inner.remove(peer);
        assert(self@ =~= old(self)@.remove(*peer));
        proof {
            assert forall|p: PeerId| #[trigger] self.inner@.contains_key(p) implies {
                &&& self.inner@[p].wf()
                &&& forall|i: Hash256| #[trigger]
                    self.inner@[p]@.contains_key(i) ==> self.inner@[p]@[i].id == i
            } by {
                assert(old(self).inner@.contains_key(p));
            }
        }
    }

    /// How many headers of a peer are held.
    pub fn len_for(&self, peer: &PeerId) -> (r: usize)
        requires
            self.wf(),
        ensures
            self.of_peer(*peer).dom().finite(),
            r == self.of_peer(*peer).dom().len(),
    {
        match self.inner.get(peer) {
            Some(entries) => entries.len(),
            None => 0,
        }
    }

    /// How many headers are held in all, as far as that can be counted.
    pub fn total_len(&self) -> (r: usize)
        requires
            self.wf(),
        ensures
            headers_held(self@).finite(),
            r == (if headers_held(self@).len() <= usize::MAX {
                headers_held(self@).len() as int
            } else {
                usize::MAX as int
            }),
    {
        let n: usize = self.inner.len();
        let ghost s = self.inner.seq();
        let mut sum: usize = 0;
        let mut i: usize = 0;
        proof {
            self.inner.lemma_seq();
            assert(listed(s.take(0)) =~= Set::empty());
        }
        while i < n
            invariant
                self.wf(),
                s == self.inner.seq(),
                n == s.len(),
                i <= n,
                self.inner@ == entries_map(s),
                crate::assoc::distinct_keys(s),
                listed(s.take(i as int)).finite(),
                sum == (if listed(s.take(i as int)).len() <= usize::MAX {
                    listed(s.take(i as int)).len() as int
                } else {
                    usize::MAX as int
                }),
            decreases n - i,
        {
            proof {
                lemma_entry(s, i as int);
            }
            let more: usize = self.inner.at(i).1.len();
            proof {
                lemma_listed_step(s, i as int);
            }
            sum = sum.saturating_add(more);
            i = i + 1;
        }
        proof {
            assert(s.take(n as int) =~= s);
            assert forall|q: (PeerId, Hash256)| listed(s).contains(q) <==> headers_held(
                self@,
            ).contains(q) by {
                if listed(s).contains(q) {
                    let j = choose|j: int|
                        0 <= j < s.len() && (#[trigger] s[j]).0 == q.0 && s[j].1@.contains_key(q.1);
                    lemma_entry(s, j);
                }
                if headers_held(self@).contains(q) {
                    let k = key_pos(s, q.0);
                    lemma_entry(s, k);
                    assert(s[k].0 == q.0 && s[k].1@.contains_key(q.1));
                }
            }
            assert(listed(s) =~= headers_held(self@));
        }
        sum
    }
}

/// What one peer showed does not count for another, and forgetting a peer
/// leaves the others alone.
pub proof fn law_cache_keeps_peers_apart(
    m: Map<PeerId, Map<Hash256, BlockHeader>>,
    a: PeerId,
    b: PeerId,
    h: BlockHeader,
    entries: Map<Hash256, BlockHeader>,
)
    requires
        a != b,
    ensures
        m.insert(a, entries.insert(h.id, h)).contains_key(b) == m.contains_key(b),
        m.contains_key(b) ==> m.insert(a, entries.insert(h.id, h))[b] == m[b],
        m.remove(a).contains_key(b) == m.contains_key(b),
        !m.remove(a).contains_key(a),
{
}

// ---------------------------------------------------------------------------
// Attempts under way
// ---------------------------------------------------------------------------
/// A session of a peer.
#[derive(Clone, Copy, Debug, Eq, Hash)]
pub struct SessionKey {
    pub peer: PeerId,
    pub session_id: u64,
}

impl PartialEq for SessionKey {
    fn eq(&self, other: &Self) -> (r: bool) {
        same_bytes(&self.peer, &other.peer) && self.session_id == other.session_id
    }
}

impl vstd::std_specs::cmp::PartialEqSpecImpl for SessionKey {
    open spec fn obeys_eq_spec() -> bool {
        true
    }

    open spec fn eq_spec(&self, other: &Self) -> bool {
        *self == *other
    }
}

impl Key for SessionKey {
    fn same(&self, other: &Self) -> (r: bool) {
        *self == *other
    }
}

/// The attempts under way: at most one per session, and at most so many per
/// regime.
pub struct TipValidationCoordinator {
    active: KeySet<SessionKey>,
    bootstrap_used: usize,
    steady_used: usize,
}

/// What a `TipValidationCoordinator` holds.
pub ghost struct CoordinatorView {
    pub active: Set<SessionKey>,
    pub bootstrap_used: usize,
    pub steady_used: usize,
}

impl View for TipValidationCoordinator {
    type V = CoordinatorView;

    closed spec fn view(&self) -> CoordinatorView {
        CoordinatorView {
            active: self.active@,
            bootstrap_used: self.bootstrap_used,
            steady_used: self.steady_used,
        }
    }
}

impl CoordinatorView {
    /// How many attempts of a regime are under way.
    pub open spec fn used(self, regime: ValidationRegime) -> usize {
        match regime {
            ValidationRegime::Bootstrap => self.bootstrap_used,
            ValidationRegime::SteadyState => self.steady_used,
        }
    }

    /// The same with another count for one regime.
    pub open spec fn with_used(self, regime: ValidationRegime, n: usize) -> CoordinatorView {
        match regime {
            ValidationRegime::Bootstrap => CoordinatorView { bootstrap_used: n, ..self },
            ValidationRegime::SteadyState => CoordinatorView { steady_used: n, ..self },
        }
    }
}

impl TipValidationCoordinator {
    /// No session is held twice, and no regime has more attempts than slots.
    pub closed spec fn wf(&self) -> bool {
        &&& self.active.wf()
        &&& self.bootstrap_used <= MAX_CONCURRENT_TIP_VALIDATIONS_BOOTSTRAP
        &&& self.steady_used <= MAX_CONCURRENT_TIP_VALIDATIONS
    }

    /// No more attempts of a regime are under way than it has slots.
    pub proof fn lemma_slots(&self, regime: ValidationRegime)
        requires
            self.wf(),
        ensures
            self@.used(regime) <= regime.slots(),
    {
    }

    pub fn new() -> (r: Self)
        ensures
            r.wf(),
            r@ == (CoordinatorView {
                active: Set::empty(),
                bootstrap_used: 0,
                steady_used: 0,
            }),
    {
        TipValidationCoordinator { active: KeySet::new(), bootstrap_used: 0, steady_used: 0 }
    }

    /// Reserves a session for an attempt; whether it was free. A second
    /// attempt on the same session would take the answers of the first.
    pub fn try_reserve(&mut self, peer: PeerId, session_id: u64) -> (r: bool)
        requires
            old(self).wf(),
        ensures
            final(self).wf(),
            r == !old(self)@.active.contains(SessionKey { peer, session_id }),
            final(self)@ == (CoordinatorView {
                active: old(self)@.active.insert(SessionKey { peer, session_id }),
                ..old(self)@
            }),
    {
        self.active.insert(SessionKey { peer, session_id })
    }

    pub fn release_reservation(&mut self, peer: PeerId, session_id: u64)
        requires
            old(self).wf(),
        ensures
            final(self).wf(),
            final(self)@ == (CoordinatorView {
                active: old(self)@.active.remove(SessionKey { peer, session_id }),
                ..old(self)@
            }),
    {
        let was = self.active.remove(&SessionKey { peer, session_id });
    }

    /// Whether an attempt is under way on a session.
    pub fn is_active(&self, peer: PeerId, session_id: u64) -> (r: bool)
        requires
            self.wf(),
        ensures
            r == self@.active.contains(SessionKey { peer, session_id }),
    {
        self.active.contains(&SessionKey { peer, session_id })
    }

    /// Takes a slot of a regime, if there is one.
    pub fn try_acquire_slot(&mut self, regime: ValidationRegime) -> (r: bool)
        requires
            old(self).wf(),
        ensures
            final(self).wf(),
            r == (old(self)@.used(regime) < regime.slots()),
            final(self)@ == (if r {
                old(self)@.with_used(regime, (old(self)@.used(regime) + 1) as usize)
            } else {
                old(self)@
            }),
    {
        match regime {
            ValidationRegime::Bootstrap => {
                if self.bootstrap_used < MAX_CONCURRENT_TIP_VALIDATIONS_BOOTSTRAP {
                    self.bootstrap_used = self.bootstrap_used + 1;
                    true
                } else {
                    false
                }
            },
            ValidationRegime::SteadyState => {
                if self.steady_used < MAX_CONCURRENT_TIP_VALIDATIONS {
                    self.steady_used = self.steady_used + 1;
                    true
                } else {
                    false
                }
            },
        }
    }

    /// Gives a slot back.
    pub fn release_slot(&mut self, regime: ValidationRegime)
        requires
            old(self).wf(),
            old(self)@.used(regime) > 0,
        ensures
            final(self).wf(),
            final(self)@ == old(self)@.with_used(regime, (old(self)@.used(regime) - 1) as usize),
    {
        match regime {
            ValidationRegime::Bootstrap => {
                self.bootstrap_used = self.bootstrap_used - 1;
            },
            ValidationRegime::SteadyState => {
                self.steady_used = self.steady_used - 1;
            },
        }
    }
}

/// A session can be reserved again exactly after it was released.
pub proof fn law_reservation_is_exclusive(v: CoordinatorView, k: SessionKey)
    ensures
        v.active.insert(k).contains(k),
        !v.active.insert(k).remove(k).contains(k),
        !v.active.contains(k) ==> v.active.insert(k).remove(k) == v.active,
{
    if !v.active.contains(k) {
        assert(v.active.insert(k).remove(k) =~= v.active);
    }
}

// ---------------------------------------------------------------------------
// Checks on headers
// ---------------------------------------------------------------------------
/// Whether headers, youngest first, lead down from a header.
pub open spec fn leads_down(anchor: BlockHeader, batch: Seq<BlockHeader>) -> bool {
    forall|i: int|
        0 <= i < batch.len() ==> (#[trigger] batch[i]).id == parent_in(anchor, batch, i)
}

/// The id that the header at a position has to have.
pub open spec fn parent_in(anchor: BlockHeader, batch: Seq<BlockHeader>, i: int) -> Hash256 {
    if i == 0 {
        anchor.prev_block_id
    } else {
        batch[i - 1].prev_block_id
    }
}

/// The message for a header that does not lead down.
pub open spec fn broken_descent_text(i: nat, got: Hash256, expected: Hash256) -> Seq<char> {
    "pre-checkpoint header at batch index "@ + decimal(i) + " has block_id "@ + hex_text(got.0@)
        + ", expected "@ + hex_text(expected.0@)
        + " (hash-chain break from authenticated anchor)"@
}

/// Whether the header at `i` is the first that does not lead down.
pub open spec fn first_descent_break(anchor: BlockHeader, batch: Seq<BlockHeader>, i: int) -> bool {
    &&& 0 <= i < batch.len()
    &&& batch[i].id != parent_in(anchor, batch, i)
    &&& forall|j: int| 0 <= j < i ==> (#[trigger] batch[j]).id == parent_in(anchor, batch, j)
}

/// The message for headers that do not lead down from `anchor`.
pub open spec fn descent_fault(anchor: BlockHeader, batch: Seq<BlockHeader>) -> TipFault {
    let i = choose|i: int| first_descent_break(anchor, batch, i);
    TipFault::DeliveredInvalidHeader(
        broken_descent_text(i as nat, batch[i].id, parent_in(anchor, batch, i)),
    )
}

/// Appends an id in hexadecimal.
pub fn push_hash(s: &mut String, h: &Hash256)
    ensures
        final(s)@ == old(s)@ + hex_text(h.0@),
{
    let hex = hex_encode(h.0.as_slice());
    s.append(hex.as_str());
}

/// Checks that headers, youngest first, lead down from `anchor`: each one has
/// the id that the one above it names as its parent.
pub fn authenticate_prechckpt_headers(anchor: &BlockHeader, batch: &[BlockHeader]) -> (r: Result<
    (),
    TipValidationError,
>)
    ensures
        match r {
            Ok(()) => leads_down(*anchor, batch@),
            Err(e) => !leads_down(*anchor, batch@) && e@ == descent_fault(*anchor, batch@),
        },
{
    let mut expected = anchor.prev_block_id;
    let mut i: usize = 0;
    while i < batch.len()
        invariant
            i <= batch@.len(),
            expected == parent_in(*anchor, batch@, i as int),
            forall|j: int|
                0 <= j < i ==> (#[trigger] batch@[j]).id == parent_in(*anchor, batch@, j),
        decreases batch@.len() - i,
    {
        let computed = batch[i].block_id();
        if computed != expected {
            proof {
                assert(first_descent_break(*anchor, batch@, i as int));
                let k = choose|k: int| first_descent_break(*anchor, batch@, k);
                if k < i {
                    assert(batch@[k].id == parent_in(*anchor, batch@, k));
                } else if i < k {
                    assert(batch@[i as int].id == parent_in(*anchor, batch@, i as int));
                }
            }
            let mut s = cat_num("pre-checkpoint header at batch index ", i as u64, " has block_id ");
            push_hash(&mut s, &computed);
            s.append(", expected ");
            push_hash(&mut s, &expected);
            s.append(" (hash-chain break from authenticated anchor)");
            return Err(TipValidationError::DeliveredInvalidHeader(s));
        }
        expected = batch[i].prev_block_id;
        i = i + 1;
    }
    Ok(())
}

/// What is wrong with the place of a header.
pub open spec fn link_fault(
    parent: Hash256,
    expected_height: u64,
    h: BlockHeader,
) -> Option<TipFault> {
    if h.prev_block_id != parent {
        Some(
            TipFault::DeliveredInvalidHeader(
                "prev_block_id mismatch: got "@ + hex_text(h.prev_block_id.0@) + ", expected "@
                    + hex_text(parent.0@),
            ),
        )
    } else if h.height != expected_height {
        Some(
            TipFault::DeliveredInvalidHeader(
                "height mismatch: got "@ + decimal(h.height as nat) + ", expected "@ + decimal(
                    expected_height as nat,
                ),
            ),
        )
    } else {
        None
    }
}

/// What is wrong with the target of a header, given the target that it has to
/// have, or why that could not be worked out.
pub open spec fn target_fault(h: BlockHeader, expected: Result<Hash256, Seq<char>>) -> Option<
    TipFault,
> {
    match expected {
        Err(m) => Some(TipFault::Internal(m)),
        Ok(t) => if h.difficulty_target != t {
            Some(
                TipFault::DeliveredInvalidHeader(
                    "difficulty_target mismatch at height "@ + decimal(h.height as nat) + ": got "@
                        + hex_text(h.difficulty_target.0@) + ", expected "@ + hex_text(t.0@),
                ),
            )
        } else {
            None
        },
    }
}

/// What is wrong with the proof of work of a header, given whether it holds,
/// or why that could not be told.
pub open spec fn pow_fault(h: BlockHeader, pow: Result<bool, Seq<char>>) -> Option<TipFault> {
    match pow {
        Err(m) => Some(TipFault::Internal(m)),
        Ok(true) => None,
        Ok(false) => Some(
            TipFault::DeliveredInvalidHeader(
                "PoW verification failed at height "@ + decimal(h.height as nat) + ""@,
            ),
        ),
    }
}

/// A result with a text as error.
pub open spec fn text_result<T>(r: Result<T, String>) -> Result<T, Seq<char>> {
    match r {
        Ok(v) => Ok(v),
        Err(e) => Err(e@),
    }
}

/// Whether a check went as its model says.
pub open spec fn reports(r: Result<(), TipValidationError>, fault: Option<TipFault>) -> bool {
    match r {
        Ok(()) => fault is None,
        Err(e) => fault == Some(e@),
    }
}

/// Checks that a header stands right above `parent`.
pub fn check_link(parent: &Hash256, expected_height: u64, header: &BlockHeader) -> (r: Result<
    (),
    TipValidationError,
>)
    ensures
        reports(r, link_fault(*parent, expected_height, *header)),
{
    if header.prev_block_id != *parent {
        let mut s = String::from_str("prev_block_id mismatch: got ");
        push_hash(&mut s, &header.prev_block_id);
        s.append(", expected ");
        push_hash(&mut s, parent);
        return Err(TipValidationError::DeliveredInvalidHeader(s));
    }
    if header.height != expected_height {
        let mut s = cat_num("height mismatch: got ", header.height, ", expected ");
        push_decimal(&mut s, expected_height);
        return Err(TipValidationError::DeliveredInvalidHeader(s));
    }
    Ok(())
}

/// Checks that a header has the target that it has to have.
pub fn check_target(header: &BlockHeader, expected: Result<Hash256, String>) -> (r: Result<
    (),
    TipValidationError,
>)
    ensures
        reports(r, target_fault(*header, text_result(expected))),
{
    match expected {
        Err(m) => Err(TipValidationError::Internal(m)),
        Ok(t) => {
            if header.difficulty_target != t {
                let mut s = cat_num("difficulty_target mismatch at height ", header.height, ": got ");
                push_hash(&mut s, &header.difficulty_target);
                s.append(", expected ");
                push_hash(&mut s, &t);
                return Err(TipValidationError::DeliveredInvalidHeader(s));
            }
            Ok(())
        },
    }
}

/// Checks that the proof of work of a header holds.
pub fn check_pow(header: &BlockHeader, pow: Result<bool, String>) -> (r: Result<
    (),
    TipValidationError,
>)
    ensures
        reports(r, pow_fault(*header, text_result(pow))),
{
    match pow {
        Err(m) => Err(TipValidationError::Internal(m)),
        Ok(true) => Ok(()),
        Ok(false) => Err(
            TipValidationError::DeliveredInvalidHeader(
                cat_num("PoW verification failed at height ", header.height, ""),
            ),
        ),
    }
}

/// What is wrong with a header, the place first, then the target, then the
/// proof of work.
pub open spec fn header_fault(
    parent: Hash256,
    expected_height: u64,
    h: BlockHeader,
    expected: Result<Hash256, Seq<char>>,
    pow: Result<bool, Seq<char>>,
) -> Option<TipFault> {
    if link_fault(parent, expected_height, h) is Some {
        link_fault(parent, expected_height, h)
    } else if target_fault(h, expected) is Some {
        target_fault(h, expected)
    } else {
        pow_fault(h, pow)
    }
}

/// Checks a header that is to stand right above `parent`, given the target
/// that it has to have and whether its proof of work holds.
pub fn validate_one_forward_header(
    parent_block_id: &Hash256,
    expected_height: u64,
    header: &BlockHeader,
    expected_target: Result<Hash256, String>,
    pow: Result<bool, String>,
) -> (r: Result<(), TipValidationError>)
    ensures
        reports(
            r,
            header_fault(
                *parent_block_id,
                expected_height,
                *header,
                text_result(expected_target),
                text_result(pow),
            ),
        ),
{
    match check_link(parent_block_id, expected_height, header) {
        Err(e) => {
            return Err(e);
        },
        Ok(()) => {},
    }
    match check_target(header, expected_target) {
        Err(e) => {
            return Err(e);
        },
        Ok(()) => {},
    }
    check_pow(header, pow)
}

// ---------------------------------------------------------------------------
// Results
// ---------------------------------------------------------------------------
/// A tip that was confirmed.
#[derive(Debug, Clone, Copy)]
pub struct VerifiedTip {
    pub height: u64,
    pub block_id: Hash256,
    pub verified_cumulative_work: [u8; 32],
    pub anchor_height: u64,
    pub anchor_block_id: Hash256,
    pub headers_validated: usize,
}

/// What an attempt starts from.
#[derive(Debug, Clone, Copy)]
pub struct ValidationInputs {
    pub peer_identity: PeerId,
    pub session_id: u64,
    pub peer_ip: IpAddr,
    pub claim_height: u64,
    pub claim_block_id: Hash256,
    pub our_tip_height_at_start: u64,
    pub assume_valid: bool,
    pub assume_valid_cumulative_work_trusted: bool,
}

/// How an attempt ended, and whether it is held against the peer.
pub struct ValidationResult {
    pub outcome: Result<VerifiedTip, TipValidationError>,
    pub record_strike: bool,
}

/// Whether an outcome is held against the peer: only a header that it sent and
/// that is no good is, never a delay or a lost connection.
pub fn should_strike(outcome: &Result<VerifiedTip, TipValidationError>) -> (r: bool)
    ensures
        r == (outcome matches Err(e) && e@ is DeliveredInvalidHeader),
{
    match outcome {
        Err(TipValidationError::DeliveredInvalidHeader(_)) => true,
        _ => false,
    }
}

/// The work of a chain of headers on top of some work.
pub open spec fn forward_work(work: nat, headers: Seq<BlockHeader>) -> nat
    decreases headers.len(),
{
    if headers.len() == 0 {
        work
    } else {
        work_sum(
            forward_work(work, headers.drop_last()),
            target_work(be_nat(headers.last().difficulty_target.0@)),
        )
    }
}

/// The work of a chain of headers on top of some work.
pub fn sum_forward_work(anchor_work: [u8; 32], forward_headers: &[BlockHeader]) -> (r: [u8; 32])
    ensures
        be_nat(r@) == forward_work(be_nat(anchor_work@), forward_headers@),
{
    let mut total = anchor_work;
    let mut i: usize = 0;
    assert(forward_headers@.take(0) =~= Seq::empty());
    while i < forward_headers.len()
        invariant
            i <= forward_headers@.len(),
            be_nat(total@) == forward_work(
                be_nat(anchor_work@),
                forward_headers@.take(i as int),
            ),
        decreases forward_headers@.len() - i,
    {
        assert(forward_headers@.take(i + 1).drop_last() =~= forward_headers@.take(i as int));
        total = add_work(&total, &work_from_target(&forward_headers[i].difficulty_target));
        i = i + 1;
    }
    assert(forward_headers@.take(i as int) =~= forward_headers@);
    total
}

/// Work adds up: the work of two stretches in a row is that of the second on
/// top of that of the first.
pub proof fn law_forward_work_is_additive(work: nat, a: Seq<BlockHeader>, b: Seq<BlockHeader>)
    ensures
        forward_work(work, a + b) == forward_work(forward_work(work, a), b),
    decreases b.len(),
{
    if b.len() == 0 {
        assert(a + b =~= a);
    } else {
        assert((a + b).drop_last() =~= a + b.drop_last());
        law_forward_work_is_additive(work, a, b.drop_last());
    }
}

/// The message for a checkpoint whose work is not trusted.
pub open spec fn untrusted_work_text() -> Seq<char> {
    "ASSUME_VALID_CUMULATIVE_WORK flagged untrusted at runtime; caller should have fallen through to --verify-all-equivalent"@
}

/// The work of the chain up to an anchor, or why it is not known.
pub open spec fn anchor_work_of(
    stored: Result<Option<[u8; 32]>, Seq<char>>,
    anchor: Hash256,
    is_checkpoint: bool,
    trusted: bool,
    checkpoint: Checkpoint,
) -> Result<[u8; 32], TipFault> {
    if is_checkpoint {
        if trusted {
            Ok(checkpoint.cumulative_work)
        } else {
            Err(TipFault::Internal(untrusted_work_text()))
        }
    } else {
        match stored {
            Err(m) => Err(TipFault::Internal("get_cumulative_work: "@ + m)),
            Ok(Some(w)) => Ok(w),
            Ok(None) => Err(
                TipFault::Internal(
                    "anchor cumulative work not found for "@ + hex_text(anchor.0@),
                ),
            ),
        }
    }
}

/// The work of the chain up to an anchor: that of the checkpoint, if the
/// anchor is the checkpoint and its work is trusted, and else what storage
/// holds.
pub fn anchor_work(
    stored: Result<Option<[u8; 32]>, String>,
    anchor_block_id: &Hash256,
    is_checkpoint_anchor: bool,
    assume_valid_cumulative_work_trusted: bool,
    checkpoint: &Checkpoint,
) -> (r: Result<[u8; 32], TipValidationError>)
    ensures
        ({
            let want = anchor_work_of(
                text_result(stored),
                *anchor_block_id,
                is_checkpoint_anchor,
                assume_valid_cumulative_work_trusted,
                *checkpoint,
            );
            match r {
                Ok(w) => want == Ok::<_, TipFault>(w),
                Err(e) => want == Err::<[u8; 32], _>(e@),
            }
        }),
{
    if is_checkpoint_anchor {
        if assume_valid_cumulative_work_trusted {
            return Ok(checkpoint.cumulative_work);
        }
        return Err(
            TipValidationError::Internal(
                String::from_str(
                    "ASSUME_VALID_CUMULATIVE_WORK flagged untrusted at runtime; caller should have fallen through to --verify-all-equivalent",
                ),
            ),
        );
    }
    match stored {
        Err(m) => Err(TipValidationError::Internal(cat2("get_cumulative_work: ", m.as_str()))),
        Ok(Some(w)) => Ok(w),
        Ok(None) => {
            let mut s = String::from_str("anchor cumulative work not found for ");
            push_hash(&mut s, anchor_block_id);
            Err(TipValidationError::Internal(s))
        },
    }
}

/// Whether the anchor is still the chain's block at its height.
pub fn anchor_still_canonical(canonical: Option<Hash256>, anchor_block_id: &Hash256) -> (r: bool)
    ensures
        r == (canonical == Some(*anchor_block_id)),
{
    match canonical {
        Some(id) => id == *anchor_block_id,
        None => false,
    }
}

/// A request for headers.
pub fn build_get_headers(start_height: u64, max_count: u32) -> (r: Message)
    ensures
        r == Message::GetHeaders(GetHeadersMsg { start_height, max_count }),
{
    Message::GetHeaders(GetHeadersMsg { start_height, max_count })
}

/// The summary of an outcome.
pub open spec fn summary_text(outcome: Result<VerifiedTip, TipValidationError>) -> Seq<char> {
    match outcome {
        Ok(t) => {
            let b = t.block_id.0@;
            "verified tip height="@ + decimal(t.height as nat) + " block_id=["@ + decimal(
                b[0] as nat,
            ) + ", "@ + decimal(b[1] as nat) + ", "@ + decimal(b[2] as nat) + ", "@ + decimal(
                b[3] as nat,
            ) + "] forward_headers="@ + decimal(t.headers_validated as nat) + " anchor_height="@
                + decimal(t.anchor_height as nat)
        },
        Err(e) => "failed: "@ + e@.text(),
    }
}

/// The summary of an outcome, for the log.
pub fn summarize(outcome: &Result<VerifiedTip, TipValidationError>) -> (r: String)
    ensures
        r@ == summary_text(*outcome),
{
    match outcome {
        Ok(t) => {
            let mut s = cat_num("verified tip height=", t.height, " block_id=[");
            push_decimal(&mut s, t.block_id.0[0] as u64);
            s.append(", ");
            push_decimal(&mut s, t.block_id.0[1] as u64);
            s.append(", ");
            push_decimal(&mut s, t.block_id.0[2] as u64);
            s.append(", ");
            push_decimal(&mut s, t.block_id.0[3] as u64);
            s.append("] forward_headers=");
            push_decimal(&mut s, t.headers_validated as u64);
            s.append(" anchor_height=");
            push_decimal(&mut s, t.anchor_height);
            s
        },
        Err(e) => {
            let text = e.message();
            cat2("failed: ", text.as_str())
        },
    }
}

} // verus!
