//! Choice of the inbound session that makes room for a new peer.
//!
//! Sessions that have proven themselves are set aside first: the peer that the
//! initial download runs from, sessions that are still young, the most recently
//! useful ones, the oldest ones and the oldest member of each network group.
//! Of what is left, the newest session of the most crowded group goes.
use crate::clock::{age, elapsed, within_secs, SECOND};
use crate::hash::{same_bytes, PeerId};
use crate::net::{lemma_rank_injective, NetworkGroup, SocketAddr};
use crate::work::{be_nat, bytes_less, lemma_be_nat_injective};
use vstd::prelude::*;

verus! {

/// An inbound session that is considered for eviction.
#[derive(Clone, Copy, Debug)]
pub struct EvictionCandidate {
    pub identity: PeerId,
    pub session_id: u64,
    pub socket_addr: SocketAddr,
    pub established_at: u64,
    pub group: NetworkGroup,
    pub last_useful_message_at: Option<u64>,
}

/// What is to be done about a new inbound peer.
#[derive(Clone, Copy, Debug)]
pub enum EvictionDecision {
    /// There is a free slot.
    NotNeeded,
    /// The peer already has a session, which may be replaced in place.
    DuplicateIdentity,
    /// The peer's address has used up its share of slots.
    IpCapReached,
    /// Every inbound session is protected.
    NoEligibleCandidates,
    /// This session is to make room.
    Evict(EvictionCandidate),
}

/// How many sessions each protection covers, and for how long.
#[derive(Clone, Copy, Debug)]
pub struct EvictionConfig {
    pub post_handshake_grace_secs: u64,
    pub protect_useful_n: usize,
    pub protect_oldest_n: usize,
    pub protect_groups_n: usize,
    pub useful_protection_secs: u64,
}

// ---------------------------------------------------------------------------
// Orders
// ---------------------------------------------------------------------------
/// Smaller session id, then smaller identity.
pub open spec fn tie_before(a: EvictionCandidate, b: EvictionCandidate) -> bool {
    a.session_id < b.session_id || (a.session_id == b.session_id && be_nat(a.identity@) < be_nat(
        b.identity@,
    ))
}

/// Established earlier.
pub open spec fn older(a: EvictionCandidate, b: EvictionCandidate) -> bool {
    a.established_at < b.established_at || (a.established_at == b.established_at && tie_before(
        a,
        b,
    ))
}

/// Established later.
pub open spec fn newer(a: EvictionCandidate, b: EvictionCandidate) -> bool {
    a.established_at > b.established_at || (a.established_at == b.established_at && tie_before(
        a,
        b,
    ))
}

/// Useful more recently.
pub open spec fn more_useful(a: EvictionCandidate, b: EvictionCandidate) -> bool {
    let (x, y) = (a.last_useful_message_at->0, b.last_useful_message_at->0);
    x > y || (x == y && tie_before(a, b))
}

/// Useful within the window that earns protection.
pub open spec fn recently_useful(c: EvictionCandidate, now: u64, config: EvictionConfig) -> bool {
    c.last_useful_message_at matches Some(t) && age(now, t) < config.useful_protection_secs * SECOND
}

/// How many members of a list satisfy a predicate.
pub open spec fn count_where(s: Seq<EvictionCandidate>, p: spec_fn(EvictionCandidate) -> bool) -> nat
    decreases s.len(),
{
    if s.len() == 0 {
        0
    } else {
        count_where(s.drop_last(), p) + if p(s.last()) {
            1nat
        } else {
            0nat
        }
    }
}

/// How many positions below `n` satisfy a predicate.
pub open spec fn count_index(p: spec_fn(int) -> bool, n: int) -> nat
    decreases n,
{
    if n <= 0 {
        0
    } else {
        count_index(p, n - 1) + if p(n - 1) {
            1nat
        } else {
            0nat
        }
    }
}

/// The members at the positions below `n` that satisfy a predicate.
pub open spec fn select_index(
    s: Seq<EvictionCandidate>,
    p: spec_fn(int) -> bool,
    n: int,
) -> Seq<EvictionCandidate>
    decreases n,
{
    if n <= 0 {
        Seq::empty()
    } else if p(n - 1) {
        select_index(s, p, n - 1).push(s[n - 1])
    } else {
        select_index(s, p, n - 1)
    }
}

// ---------------------------------------------------------------------------
// Protection
// ---------------------------------------------------------------------------
/// The first of the oldest members of its network group.
pub open spec fn is_group_rep(s: Seq<EvictionCandidate>, i: int) -> bool {
    forall|j: int|
        0 <= j < s.len() && s[j].group == s[i].group ==> s[i].established_at < s[j].established_at
            || (s[i].established_at == s[j].established_at && i <= j)
}

/// The order of group representatives: by age, then by group.
pub open spec fn rep_before(a: EvictionCandidate, b: EvictionCandidate) -> bool {
    a.established_at < b.established_at || (a.established_at == b.established_at && a.group.rank()
        < b.group.rank())
}

/// Whether the session at position `i` is exempt from eviction.
pub open spec fn is_protected(
    s: Seq<EvictionCandidate>,
    i: int,
    active_ibd_peer: Option<(PeerId, u64)>,
    now: u64,
    config: EvictionConfig,
) -> bool {
    let c = s[i];
    ||| active_ibd_peer == Some((c.identity, c.session_id))
    ||| age(now, c.established_at) < config.post_handshake_grace_secs * SECOND
    ||| recently_useful(c, now, config) && count_where(
        s,
        |d: EvictionCandidate| recently_useful(d, now, config) && more_useful(d, c),
    ) < config.protect_useful_n
    ||| count_where(s, |d: EvictionCandidate| older(d, c)) < config.protect_oldest_n
    ||| is_group_rep(s, i) && count_index(
        |j: int| is_group_rep(s, j) && rep_before(s[j], c),
        s.len() as int,
    ) < config.protect_groups_n
}

/// The sessions that may be evicted, in their order.
pub open spec fn eviction_pool(
    s: Seq<EvictionCandidate>,
    active_ibd_peer: Option<(PeerId, u64)>,
    now: u64,
    config: EvictionConfig,
) -> Seq<EvictionCandidate> {
    select_index(
        s,
        |i: int| !is_protected(s, i, active_ibd_peer, now, config),
        s.len() as int,
    )
}

// ---------------------------------------------------------------------------
// Target group and victim
// ---------------------------------------------------------------------------
/// How many sessions of a pool belong to a group.
pub open spec fn group_size(pool: Seq<EvictionCandidate>, g: NetworkGroup) -> nat {
    count_where(pool, |c: EvictionCandidate| c.group == g)
}

/// The total age of the sessions of a group.
pub open spec fn group_age(pool: Seq<EvictionCandidate>, now: u64, g: NetworkGroup) -> int
    decreases pool.len(),
{
    if pool.len() == 0 {
        0
    } else {
        group_age(pool.drop_last(), now, g) + if pool.last().group == g {
            age(now, pool.last().established_at)
        } else {
            0
        }
    }
}

/// Whether `g` is a better target than `h`: more members, then the higher total
/// age, then the smaller group.
pub open spec fn group_beats(
    pool: Seq<EvictionCandidate>,
    now: u64,
    g: NetworkGroup,
    h: NetworkGroup,
) -> bool {
    let (m, n) = (group_size(pool, g), group_size(pool, h));
    let (x, y) = (group_age(pool, now, g), group_age(pool, now, h));
    m > n || (m == n && (x > y || (x == y && g.rank() < h.rank())))
}

/// No group of the pool has two members.
pub open spec fn fully_diverse(pool: Seq<EvictionCandidate>) -> bool {
    forall|i: int| 0 <= i < pool.len() ==> group_size(pool, #[trigger] pool[i].group) <= 1
}

/// The sessions among which the victim is chosen: the members of the best group,
/// or all of them where no group has two members.
pub open spec fn is_target(pool: Seq<EvictionCandidate>, now: u64, i: int) -> bool {
    fully_diverse(pool) || forall|j: int|
        0 <= j < pool.len() ==> #[trigger] pool[j].group == pool[i].group || group_beats(
            pool,
            now,
            pool[i].group,
            pool[j].group,
        )
}

/// Whether the session at position `v` of the pool is the one to evict: the
/// newest of the target sessions.
pub open spec fn is_victim(pool: Seq<EvictionCandidate>, now: u64, v: int) -> bool {
    &&& 0 <= v < pool.len()
    &&& is_target(pool, now, v)
    &&& forall|j: int|
        0 <= j < pool.len() && j != v && is_target(pool, now, j) ==> newer(
            #[trigger] pool[v],
            #[trigger] pool[j],
        )
}

/// No two sessions belong to one peer.
pub open spec fn distinct_peers(s: Seq<EvictionCandidate>) -> bool {
    forall|i: int, j: int|
        0 <= i < j < s.len() ==> (#[trigger] s[i]).identity != (#[trigger] s[j]).identity
}

// ---------------------------------------------------------------------------
// Computation
// ---------------------------------------------------------------------------
proof fn lemma_count_step(s: Seq<EvictionCandidate>, i: int, p: spec_fn(EvictionCandidate) -> bool)
    requires
        0 <= i < s.len(),
    ensures
        count_where(s.take(i + 1), p) == count_where(s.take(i), p) + if p(s[i]) {
            1nat
        } else {
            0nat
        },
{
    assert(s.take(i + 1).drop_last() =~= s.take(i));
}

proof fn lemma_count_bound(s: Seq<EvictionCandidate>, p: spec_fn(EvictionCandidate) -> bool)
    ensures
        count_where(s, p) <= s.len(),
    decreases s.len(),
{
    if s.len() > 0 {
        lemma_count_bound(s.drop_last(), p);
    }
}

/// A member that satisfies the predicate makes the count positive.
proof fn lemma_count_member(s: Seq<EvictionCandidate>, p: spec_fn(EvictionCandidate) -> bool, i: int)
    requires
        0 <= i < s.len(),
        p(s[i]),
    ensures
        count_where(s, p) >= 1,
    decreases s.len(),
{
    if i < s.len() - 1 {
        lemma_count_member(s.drop_last(), p, i);
    }
}

fn is_tie_before(a: &EvictionCandidate, b: &EvictionCandidate) -> (r: bool)
    ensures
        r == tie_before(*a, *b),
{
    a.session_id < b.session_id || (a.session_id == b.session_id && bytes_less(
        a.identity.as_slice(),
        b.identity.as_slice(),
    ))
}

fn is_older(a: &EvictionCandidate, b: &EvictionCandidate) -> (r: bool)
    ensures
        r == older(*a, *b),
{
    a.established_at < b.established_at || (a.established_at == b.established_at && is_tie_before(
        a,
        b,
    ))
}

fn is_newer(a: &EvictionCandidate, b: &EvictionCandidate) -> (r: bool)
    ensures
        r == newer(*a, *b),
{
    a.established_at > b.established_at || (a.established_at == b.established_at && is_tie_before(
        a,
        b,
    ))
}

fn is_recently_useful(c: &EvictionCandidate, now: u64, config: &EvictionConfig) -> (r: bool)
    ensures
        r == recently_useful(*c, now, *config),
{
    match c.last_useful_message_at {
        Some(t) => within_secs(now, t, config.useful_protection_secs),
        None => false,
    }
}

fn is_more_useful(a: &EvictionCandidate, b: &EvictionCandidate) -> (r: bool)
    requires
        a.last_useful_message_at is Some,
        b.last_useful_message_at is Some,
    ensures
        r == more_useful(*a, *b),
{
    match (a.last_useful_message_at, b.last_useful_message_at) {
        (Some(x), Some(y)) => x > y || (x == y && is_tie_before(a, b)),
        _ => false,
    }
}

/// How many sessions are older than `c`.
fn older_rank(s: &Vec<EvictionCandidate>, c: &EvictionCandidate) -> (r: usize)
    ensures
        r == count_where(s@, |d: EvictionCandidate| older(d, *c)),
{
    let ghost p = |d: EvictionCandidate| older(d, *c);
    let mut n: usize = 0;
    let mut i: usize = 0;
    assert(s@.take(0) =~= Seq::<EvictionCandidate>::empty());
    while i < s.len()
        invariant
            i <= s@.len(),
            n <= i,
            p == (|d: EvictionCandidate| older(d, *c)),
            n == count_where(s@.take(i as int), p),
        decreases s@.len() - i,
    {
        proof {
            lemma_count_step(s@, i as int, p);
        }
        if is_older(&s[i], c) {
            n = n + 1;
        }
        i = i + 1;
    }
    assert(s@.take(i as int) =~= s@);
    n
}

/// How many recently useful sessions have been useful more recently than `c`.
fn useful_rank(
    s: &Vec<EvictionCandidate>,
    c: &EvictionCandidate,
    now: u64,
    config: &EvictionConfig,
) -> (r: usize)
    requires
        recently_useful(*c, now, *config),
    ensures
        r == count_where(
            s@,
            |d: EvictionCandidate| recently_useful(d, now, *config) && more_useful(d, *c),
        ),
{
    let ghost p = |d: EvictionCandidate| recently_useful(d, now, *config) && more_useful(d, *c);
    let mut n: usize = 0;
    let mut i: usize = 0;
    assert(s@.take(0) =~= Seq::<EvictionCandidate>::empty());
    while i < s.len()
        invariant
            i <= s@.len(),
            n <= i,
            recently_useful(*c, now, *config),
            p == (|d: EvictionCandidate| recently_useful(d, now, *config) && more_useful(d, *c)),
            n == count_where(s@.take(i as int), p),
        decreases s@.len() - i,
    {
        proof {
            lemma_count_step(s@, i as int, p);
        }
        if is_recently_useful(&s[i], now, config) && is_more_useful(&s[i], c) {
            n = n + 1;
        }
        i = i + 1;
    }
    assert(s@.take(i as int) =~= s@);
    n
}

fn is_rep(s: &Vec<EvictionCandidate>, i: usize) -> (r: bool)
    requires
        i < s@.len(),
    ensures
        r == is_group_rep(s@, i as int),
{
    let mut j: usize = 0;
    while j < s.len()
        invariant
            j <= s@.len(),
            i < s@.len(),
            forall|k: int|
                0 <= k < j && s@[k].group == s@[i as int].group ==> s@[i as int].established_at
                    < s@[k].established_at || (s@[i as int].established_at == s@[k].established_at
                    && i <= k),
        decreases s@.len() - j,
    {
        if s[j].group == s[i].group && !(s[i].established_at < s[j].established_at || (
        s[i].established_at == s[j].established_at && i <= j)) {
            return false;
        }
        j = j + 1;
    }
    true
}

/// How many group representatives come before the one at position `i`.
fn rep_rank(s: &Vec<EvictionCandidate>, i: usize) -> (r: usize)
    requires
        i < s@.len(),
    ensures
        r == count_index(
            |j: int| is_group_rep(s@, j) && rep_before(s@[j], s@[i as int]),
            s@.len() as int,
        ),
{
    let ghost p = |j: int| is_group_rep(s@, j) && rep_before(s@[j], s@[i as int]);
    let mut n: usize = 0;
    let mut j: usize = 0;
    while j < s.len()
        invariant
            j <= s@.len(),
            i < s@.len(),
            n <= j,
            p == (|j: int| is_group_rep(s@, j) && rep_before(s@[j], s@[i as int])),
            n == count_index(p, j as int),
        decreases s@.len() - j,
    {
        let first: bool = s[j].established_at < s[i].established_at || (s[j].established_at
            == s[i].established_at && s[j].group.ordinal() < s[i].group.ordinal());
        if is_rep(s, j) && first {
            n = n + 1;
        }
        j = j + 1;
    }
    n
}

/// Whether the session at position `i` is exempt from eviction.
fn check_protected(
    s: &Vec<EvictionCandidate>,
    i: usize,
    active_ibd_peer: &Option<(PeerId, u64)>,
    now: u64,
    config: &EvictionConfig,
) -> (r: bool)
    requires
        i < s@.len(),
    ensures
        r == is_protected(s@, i as int, *active_ibd_peer, now, *config),
{
    let c: EvictionCandidate = s[i];
    if let Some((id, sid)) = active_ibd_peer {
        if same_bytes(id, &c.identity) && *sid == c.session_id {
            return true;
        }
    }
    if within_secs(now, c.established_at, config.post_handshake_grace_secs) {
        return true;
    }
    if is_recently_useful(&c, now, config) && useful_rank(s, &c, now, config)
        < config.protect_useful_n {
        return true;
    }
    if older_rank(s, &c) < config.protect_oldest_n {
        return true;
    }
    is_rep(s, i) && rep_rank(s, i) < config.protect_groups_n
}

spec fn selected_from(
    s: Seq<EvictionCandidate>,
    p: spec_fn(int) -> bool,
    n: int,
    c: EvictionCandidate,
) -> bool {
    exists|j: int| 0 <= j < n && p(j) && #[trigger] s[j] == c
}

proof fn lemma_select_members(s: Seq<EvictionCandidate>, p: spec_fn(int) -> bool, n: int)
    requires
        0 <= n <= s.len(),
    ensures
        select_index(s, p, n).len() <= n,
        forall|i: int|
            0 <= i < select_index(s, p, n).len() ==> selected_from(
                s,
                p,
                n,
                #[trigger] select_index(s, p, n)[i],
            ),
        distinct_peers(s) ==> distinct_peers(select_index(s, p, n)),
    decreases n,
{
    if n > 0 {
        lemma_select_members(s, p, n - 1);
        let t = select_index(s, p, n - 1);
        let u = select_index(s, p, n);
        if p(n - 1) {
            assert forall|i: int| 0 <= i < u.len() implies selected_from(s, p, n, #[trigger] u[i]) by {
                if i == t.len() {
                    assert(s[n - 1] == u[i]);
                } else {
                    assert(selected_from(s, p, n - 1, t[i]));
                    let j = choose|j: int| 0 <= j < n - 1 && p(j) && #[trigger] s[j] == t[i];
                    assert(s[j] == u[i]);
                }
            }
            if distinct_peers(s) {
                assert forall|a: int, b: int| 0 <= a < b < u.len() implies (#[trigger] u[a]).identity
                    != (#[trigger] u[b]).identity by {
                    if b == t.len() {
                        assert(selected_from(s, p, n - 1, t[a]));
                        let j = choose|j: int| 0 <= j < n - 1 && p(j) && #[trigger] s[j] == t[a];
                        assert(s[j].identity != s[n - 1].identity);
                    } else {
                        assert(t[a].identity != t[b].identity);
                    }
                }
            }
        }
    }
}

/// The sessions that may be evicted.
fn unprotected(
    s: &Vec<EvictionCandidate>,
    active_ibd_peer: &Option<(PeerId, u64)>,
    now: u64,
    config: &EvictionConfig,
) -> (r: Vec<EvictionCandidate>)
    ensures
        r@ == eviction_pool(s@, *active_ibd_peer, now, *config),
{
    let ghost p = |i: int| !is_protected(s@, i, *active_ibd_peer, now, *config);
    let mut pool: Vec<EvictionCandidate> = Vec::new();
    let mut i: usize = 0;
    while i < s.len()
        invariant
            i <= s@.len(),
            p == (|i: int| !is_protected(s@, i, *active_ibd_peer, now, *config)),
            pool@ == select_index(s@, p, i as int),
        decreases s@.len() - i,
    {
        if !check_protected(s, i, active_ibd_peer, now, config) {
            pool.push(s[i]);
        }
        i = i + 1;
    }
    pool
}

fn size_of_group(pool: &Vec<EvictionCandidate>, g: &NetworkGroup) -> (r: usize)
    ensures
        r == group_size(pool@, *g),
{
    let ghost p = |c: EvictionCandidate| c.group == *g;
    let mut n: usize = 0;
    let mut i: usize = 0;
    assert(pool@.take(0) =~= Seq::<EvictionCandidate>::empty());
    while i < pool.len()
        invariant
            i <= pool@.len(),
            n <= i,
            p == (|c: EvictionCandidate| c.group == *g),
            n == count_where(pool@.take(i as int), p),
        decreases pool@.len() - i,
    {
        proof {
            lemma_count_step(pool@, i as int, p);
        }
        if pool[i].group == *g {
            n = n + 1;
        }
        i = i + 1;
    }
    assert(pool@.take(i as int) =~= pool@);
    n
}

fn age_of_group(pool: &Vec<EvictionCandidate>, now: u64, g: &NetworkGroup) -> (r: u128)
    ensures
        r == group_age(pool@, now, *g),
{
    let mut total: u128 = 0;
    let mut i: usize = 0;
    assert(pool@.take(0) =~= Seq::<EvictionCandidate>::empty());
    while i < pool.len()
        invariant
            i <= pool@.len(),
            total == group_age(pool@.take(i as int), now, *g),
            total <= i * u64::MAX,
        decreases pool@.len() - i,
    {
        assert(pool@.take(i + 1).drop_last() =~= pool@.take(i as int));
        assert((i + 1) * u64::MAX == i * u64::MAX + u64::MAX) by (nonlinear_arith);
        assert((i + 1) * u64::MAX <= u128::MAX) by (nonlinear_arith)
            requires
                i < usize::MAX,
                usize::MAX <= u64::MAX,
        ;
        if pool[i].group == *g {
            let a: u64 = elapsed(now, pool[i].established_at);
            total = total + a as u128;
        }
        i = i + 1;
    }
    assert(pool@.take(i as int) =~= pool@);
    total
}

/// Whether `g` is a better target group than `h`.
fn check_beats(
    pool: &Vec<EvictionCandidate>,
    now: u64,
    g: &NetworkGroup,
    h: &NetworkGroup,
) -> (r: bool)
    ensures
        r == group_beats(pool@, now, *g, *h),
{
    let m: usize = size_of_group(pool, g);
    let n: usize = size_of_group(pool, h);
    if m != n {
        return m > n;
    }
    let x: u128 = age_of_group(pool, now, g);
    let y: u128 = age_of_group(pool, now, h);
    if x != y {
        return x > y;
    }
    g.ordinal() < h.ordinal()
}

fn is_fully_diverse(pool: &Vec<EvictionCandidate>) -> (r: bool)
    ensures
        r == fully_diverse(pool@),
{
    let mut i: usize = 0;
    while i < pool.len()
        invariant
            i <= pool@.len(),
            forall|j: int| 0 <= j < i ==> group_size(pool@, #[trigger] pool@[j].group) <= 1,
        decreases pool@.len() - i,
    {
        if size_of_group(pool, &pool[i].group) > 1 {
            assert(group_size(pool@, pool@[i as int].group) > 1);
            return false;
        }
        i = i + 1;
    }
    true
}

/// A member of the best group of a pool.
fn best_group(pool: &Vec<EvictionCandidate>, now: u64) -> (r: usize)
    requires
        pool@.len() > 0,
    ensures
        r < pool@.len(),
        forall|j: int|
            0 <= j < pool@.len() ==> #[trigger] pool@[j].group == pool@[r as int].group
                || group_beats(pool@, now, pool@[r as int].group, pool@[j].group),
{
    let mut best: usize = 0;
    let mut i: usize = 1;
    while i < pool.len()
        invariant
            1 <= i <= pool@.len(),
            best < i,
            forall|j: int|
                0 <= j < i ==> #[trigger] pool@[j].group == pool@[best as int].group || group_beats(
                    pool@,
                    now,
                    pool@[best as int].group,
                    pool@[j].group,
                ),
        decreases pool@.len() - i,
    {
        let ghost b = pool@[best as int].group;
        let ghost c = pool@[i as int].group;
        if check_beats(pool, now, &pool[i].group, &pool[best].group) {
            best = i;
        } else {
            proof {
                if b.rank() == c.rank() {
                    lemma_rank_injective(b, c);
                }
            }
        }
        i = i + 1;
    }
    best
}

proof fn lemma_newer_total(a: EvictionCandidate, b: EvictionCandidate)
    requires
        a.identity != b.identity,
    ensures
        newer(a, b) || newer(b, a),
        !(newer(a, b) && newer(b, a)),
{
    if be_nat(a.identity@) == be_nat(b.identity@) {
        lemma_be_nat_injective(a.identity@, b.identity@);
        assert forall|i: int| 0 <= i < 32 implies a.identity[i] == b.identity[i] by {
            assert(a.identity@[i] == b.identity@[i]);
        }
        assert(a.identity =~= b.identity);
    }
}

/// The session of the pool that is to go.
pub fn choose_victim(pool: &Vec<EvictionCandidate>, now: u64) -> (r: usize)
    requires
        pool@.len() > 0,
        distinct_peers(pool@),
    ensures
        is_victim(pool@, now, r as int),
{
    let diverse: bool = is_fully_diverse(pool);
    let best: usize = best_group(pool, now);
    let ghost g = pool@[best as int].group;
    proof {
        assert forall|i: int| 0 <= i < pool@.len() && !diverse implies is_target(pool@, now, i) == (
        pool@[i].group == g) by {
            if is_target(pool@, now, i) && pool@[i].group != g {
                assert(pool@[best as int].group == pool@[i].group || group_beats(
                    pool@,
                    now,
                    pool@[i].group,
                    pool@[best as int].group,
                ));
                assert(pool@[i].group == g || group_beats(pool@, now, g, pool@[i].group));
            }
        }
    }
    let mut victim: usize = best;
    let mut i: usize = 0;
    while i < pool.len()
        invariant
            i <= pool@.len(),
            distinct_peers(pool@),
            diverse == fully_diverse(pool@),
            best < pool@.len(),
            g == pool@[best as int].group,
            forall|i: int|
                0 <= i < pool@.len() && !diverse ==> is_target(pool@, now, i) == (pool@[i].group
                    == g),
            victim < pool@.len(),
            is_target(pool@, now, victim as int),
            forall|j: int|
                0 <= j < i && j != victim && is_target(pool@, now, j) ==> newer(
                    #[trigger] pool@[victim as int],
                    #[trigger] pool@[j],
                ),
        decreases pool@.len() - i,
    {
        let ghost before = victim as int;
        if i != victim && (diverse || pool[i].group == pool[best].group) {
            proof {
                if i < victim {
                    assert(pool@[i as int].identity != pool@[victim as int].identity);
                } else {
                    assert(pool@[victim as int].identity != pool@[i as int].identity);
                }
                lemma_newer_total(pool@[i as int], pool@[victim as int]);
            }
            if is_newer(&pool[i], &pool[victim]) {
                victim = i;
            }
        }
        i = i + 1;
    }
    victim
}

/// The eviction decision for a full set of inbound sessions.
pub fn decide_eviction(
    s: &Vec<EvictionCandidate>,
    active_ibd_peer: &Option<(PeerId, u64)>,
    now: u64,
    config: &EvictionConfig,
) -> (r: EvictionDecision)
    requires
        distinct_peers(s@),
    ensures
        match r {
            EvictionDecision::Evict(c) => exists|v: int|
                #[trigger] is_victim(eviction_pool(s@, *active_ibd_peer, now, *config), now, v)
                    && eviction_pool(s@, *active_ibd_peer, now, *config)[v] == c,
            EvictionDecision::NoEligibleCandidates => eviction_pool(
                s@,
                *active_ibd_peer,
                now,
                *config,
            ).len() == 0,
            _ => false,
        },
{
    let pool = unprotected(s, active_ibd_peer, now, config);
    proof {
        lemma_select_members(
            s@,
            |i: int| !is_protected(s@, i, *active_ibd_peer, now, *config),
            s@.len() as int,
        );
    }
    if pool.len() == 0 {
        return EvictionDecision::NoEligibleCandidates;
    }
    let v: usize = choose_victim(&pool, now);
    EvictionDecision::Evict(pool[v])
}

// ---------------------------------------------------------------------------
// Laws
// ---------------------------------------------------------------------------
/// A victim is one of the sessions, and none of the protections covers it: it is
/// not the session that the initial download runs over, not in its grace period,
/// and not among the protected useful, oldest or group sessions.
pub proof fn law_victim_is_unprotected(
    s: Seq<EvictionCandidate>,
    active_ibd_peer: Option<(PeerId, u64)>,
    now: u64,
    config: EvictionConfig,
    v: int,
)
    requires
        is_victim(eviction_pool(s, active_ibd_peer, now, config), now, v),
    ensures
        exists|i: int|
            0 <= i < s.len() && #[trigger] s[i] == eviction_pool(
                s,
                active_ibd_peer,
                now,
                config,
            )[v] && !is_protected(s, i, active_ibd_peer, now, config),
{
    let p = |i: int| !is_protected(s, i, active_ibd_peer, now, config);
    lemma_select_members(s, p, s.len() as int);
    let pool = eviction_pool(s, active_ibd_peer, now, config);
    assert(selected_from(s, p, s.len() as int, pool[v]));
}

/// Where no peer has two sessions, none has two that may be evicted.
pub proof fn lemma_pool_distinct(
    s: Seq<EvictionCandidate>,
    active_ibd_peer: Option<(PeerId, u64)>,
    now: u64,
    config: EvictionConfig,
)
    requires
        distinct_peers(s),
    ensures
        distinct_peers(eviction_pool(s, active_ibd_peer, now, config)),
{
    let p = |i: int| !is_protected(s, i, active_ibd_peer, now, config);
    lemma_select_members(s, p, s.len() as int);
}

/// There is one victim at most: the choice is fixed by the sessions and the time.
pub proof fn law_victim_is_unique(pool: Seq<EvictionCandidate>, now: u64, v: int, w: int)
    requires
        distinct_peers(pool),
        is_victim(pool, now, v),
        is_victim(pool, now, w),
    ensures
        v == w,
{
    if v != w {
        assert(newer(pool[v], pool[w]) && newer(pool[w], pool[v]));
        if v < w {
            assert(pool[v].identity != pool[w].identity);
        } else {
            assert(pool[w].identity != pool[v].identity);
        }
        lemma_newer_total(pool[v], pool[w]);
    }
}

/// The victim comes from a group that no other group of the pool outnumbers.
pub proof fn law_victim_group_is_largest(
    pool: Seq<EvictionCandidate>,
    now: u64,
    v: int,
    g: NetworkGroup,
)
    requires
        is_victim(pool, now, v),
    ensures
        group_size(pool, g) <= group_size(pool, pool[v].group),
{
    let p = |c: EvictionCandidate| c.group == g;
    if group_size(pool, g) > 0 {
        let i = lemma_count_witness(pool, p);
        lemma_count_member(pool, |c: EvictionCandidate| c.group == pool[v].group, v);
        assert(pool[i].group == g);
    }
}

proof fn lemma_count_witness(s: Seq<EvictionCandidate>, p: spec_fn(EvictionCandidate) -> bool) -> (i:
    int)
    requires
        count_where(s, p) > 0,
    ensures
        0 <= i < s.len(),
        p(s[i]),
    decreases s.len(),
{
    if p(s.last()) {
        s.len() - 1
    } else {
        lemma_count_witness(s.drop_last(), p)
    }
}

} // verus!
