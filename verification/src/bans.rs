//! Strikes against addresses, and bans of addresses and identities.
use crate::assoc::{
    distinct_keys, has_key, insert_entry, keep_entries, key_pos, lemma_entry, lemma_keep_distinct,
    remove_entry, AssocMap,
};
use crate::clock::{after_secs, age, later, within_secs, SECOND};
use crate::hash::{is_zero_bytes, PeerId};
use crate::net::IpAddr;
use vstd::prelude::*;

verus! {

/// How long a strike counts, in seconds.
pub const BAN_DECAY_SECS: u64 = 300;

/// How many strikes get an address banned.
pub const IP_BAN_STRIKE_THRESHOLD: u32 = 10;

/// How long a ban lasts, in seconds.
pub const IP_BAN_DURATION_SECS: u64 = 600;

/// How many addresses are kept track of.
pub const MAX_IP_ABUSE_ENTRIES: usize = 4_096;

/// How many identity bans are kept.
pub const MAX_IDENTITY_BAN_ENTRIES: usize = 4_096;

/// What is held against an address.
#[derive(Clone, Copy, Debug)]
pub struct IpAbuseEntry {
    /// Strikes over all sessions from the address.
    pub strikes: u32,
    /// When the ban ends, if there is one.
    pub banned_until: Option<u64>,
    pub last_strike: u64,
}

/// What is held against addresses, oldest entry first.
pub type AbuseList = Seq<(IpAddr, IpAbuseEntry)>;

// ---------------------------------------------------------------------------
// Model
// ---------------------------------------------------------------------------
/// Whether a ban is under way.
pub open spec fn ban_active(e: IpAbuseEntry, now: u64) -> bool {
    e.banned_until matches Some(until) && now < until
}

/// Whether the strikes of an entry no longer count.
pub open spec fn decayed(e: IpAbuseEntry, now: u64) -> bool {
    age(now, e.last_strike) >= BAN_DECAY_SECS * SECOND
}

/// Whether the entry at `i` is the one with the oldest strike among those that
/// satisfy `p`, the first in the list if there are several.
pub open spec fn is_oldest(s: AbuseList, p: spec_fn(IpAbuseEntry) -> bool, i: int) -> bool {
    &&& 0 <= i < s.len()
    &&& p(s[i].1)
    &&& forall|j: int|
        0 <= j < s.len() && p((#[trigger] s[j]).1) ==> s[i].1.last_strike < s[j].1.last_strike || (
        s[i].1.last_strike == s[j].1.last_strike && i <= j)
}

/// Whether there is an entry that satisfies `p`.
pub open spec fn has_any(s: AbuseList, p: spec_fn(IpAbuseEntry) -> bool) -> bool {
    exists|i: int| 0 <= i < s.len() && p((#[trigger] s[i]).1)
}

/// The list without the oldest entry that satisfies `p`.
pub open spec fn drop_oldest(s: AbuseList, p: spec_fn(IpAbuseEntry) -> bool) -> AbuseList {
    s.remove(choose|i: int| is_oldest(s, p, i))
}

/// The list without its oldest entries that are not under a ban, as many as it
/// takes to get below the cap.
pub open spec fn drop_idle(s: AbuseList, now: u64) -> AbuseList
    decreases s.len(),
{
    let idle = |e: IpAbuseEntry| !ban_active(e, now);
    if s.len() < MAX_IP_ABUSE_ENTRIES || !has_any(s, idle) {
        s
    } else {
        let t = drop_oldest(s, idle);
        if t.len() < s.len() {
            drop_idle(t, now)
        } else {
            s
        }
    }
}

/// The list made ready for a strike against `ip`. Below the cap it stays. At the
/// cap, entries that no longer matter go, then the oldest ones that are not under
/// a ban; if all are, and `ip` is not among them, the oldest goes.
pub open spec fn make_room(s: AbuseList, ip: IpAddr, now: u64) -> AbuseList {
    let swept = if s.len() >= MAX_IP_ABUSE_ENTRIES {
        drop_idle(
            keep_entries(
                s,
                |e: (IpAddr, IpAbuseEntry)| !decayed(e.1, now) || ban_active(e.1, now),
            ),
            now,
        )
    } else {
        s
    };
    if swept.len() >= MAX_IP_ABUSE_ENTRIES && !has_key(swept, ip) {
        drop_oldest(swept, |e: IpAbuseEntry| true)
    } else {
        swept
    }
}

/// Whether an entry is forgotten before the next strike: its strikes no longer
/// count, and no ban is under way.
pub open spec fn faded(e: IpAbuseEntry, now: u64) -> bool {
    decayed(e, now) && !ban_active(e, now)
}

/// When a ban that begins now ends: a longer one that is under way goes on.
pub open spec fn ban_end(e: IpAbuseEntry, now: u64) -> u64 {
    let end = later(now, IP_BAN_DURATION_SECS) as u64;
    match e.banned_until {
        Some(until) if until > end => until,
        _ => end,
    }
}

/// An entry after one more strike. An entry that has faded starts over.
pub open spec fn struck(e: IpAbuseEntry, now: u64) -> IpAbuseEntry {
    let base: u32 = if faded(e, now) {
        0
    } else {
        e.strikes
    };
    let n: u32 = if base < u32::MAX {
        (base + 1) as u32
    } else {
        base
    };
    IpAbuseEntry {
        strikes: n,
        banned_until: if n >= IP_BAN_STRIKE_THRESHOLD {
            Some(ban_end(e, now))
        } else if faded(e, now) {
            None
        } else {
            e.banned_until
        },
        last_strike: now,
    }
}

/// Whether an address is banned with the strike that made its entry `e`.
pub open spec fn struck_out(e: IpAbuseEntry, now: u64) -> bool {
    e.strikes >= IP_BAN_STRIKE_THRESHOLD || ban_active(e, now)
}

/// The entry that a strike against `ip` starts from.
pub open spec fn entry_before(s: AbuseList, ip: IpAddr, now: u64) -> IpAbuseEntry {
    if has_key(s, ip) {
        s[key_pos(s, ip)].1
    } else {
        IpAbuseEntry { strikes: 0, banned_until: None, last_strike: now }
    }
}

/// What is held against addresses after a strike against `ip`.
pub open spec fn after_strike(s: AbuseList, ip: IpAddr, now: u64) -> AbuseList {
    let t = make_room(s, ip, now);
    insert_entry(t, ip, struck(entry_before(t, ip, now), now))
}

/// Whether an address is banned.
pub open spec fn ip_banned(s: AbuseList, ip: IpAddr, now: u64) -> bool {
    has_key(s, ip) && ban_active(s[key_pos(s, ip)].1, now)
}

/// What is held against addresses after a look at one of them: an entry whose
/// ban is over or whose strikes no longer count is forgotten.
pub open spec fn after_look(s: AbuseList, ip: IpAddr, now: u64) -> AbuseList {
    if !has_key(s, ip) {
        s
    } else {
        let e = s[key_pos(s, ip)].1;
        let over = match e.banned_until {
            Some(until) => now >= until,
            None => decayed(e, now),
        };
        if over {
            remove_entry(s, ip)
        } else {
            s
        }
    }
}

// ---------------------------------------------------------------------------
// The table of addresses
// ---------------------------------------------------------------------------
/// What is held against addresses.
pub struct AbuseTable {
    entries: AssocMap<IpAddr, IpAbuseEntry>,
}

impl View for AbuseTable {
    type V = AbuseList;

    closed spec fn view(&self) -> AbuseList {
        self.entries.seq()
    }
}

proof fn lemma_oldest_unique(s: AbuseList, p: spec_fn(IpAbuseEntry) -> bool, i: int)
    requires
        is_oldest(s, p, i),
    ensures
        drop_oldest(s, p) == s.remove(i),
{
    let k = choose|i: int| is_oldest(s, p, i);
    assert(is_oldest(s, p, k));
    assert(p(s[i].1) && p(s[k].1));
    assert(k == i);
}

impl AbuseTable {
    /// No address is held twice.
    pub closed spec fn wf(&self) -> bool {
        self.entries.wf()
    }

    /// A well-formed table holds no address twice.
    pub proof fn lemma_distinct(&self)
        requires
            self.wf(),
        ensures
            distinct_keys(self@),
    {
        self.entries.lemma_seq();
    }

    pub fn new() -> (r: Self)
        ensures
            r.wf(),
            r@ == Seq::<(IpAddr, IpAbuseEntry)>::empty(),
    {
        AbuseTable { entries: AssocMap::new() }
    }

    /// The entry with the oldest strike, among those not under a ban or all.
    fn oldest(&self, now: u64, idle_only: bool) -> (r: Option<usize>)
        requires
            self.wf(),
        ensures
            ({
                let p = if idle_only {
                    |e: IpAbuseEntry| !ban_active(e, now)
                } else {
                    |e: IpAbuseEntry| true
                };
                match r {
                    Some(i) => is_oldest(self@, p, i as int),
                    None => !has_any(self@, p),
                }
            }),
    {
        let ghost p = if idle_only {
            |e: IpAbuseEntry| !ban_active(e, now)
        } else {
            |e: IpAbuseEntry| true
        };
        let n: usize = self.entries.len();
        let mut best: Option<usize> = None;
        let mut best_time: u64 = 0;
        let mut i: usize = 0;
        while i < n
            invariant
                n == self.entries.seq().len(),
                i <= n,
                p == (if idle_only {
                    |e: IpAbuseEntry| !ban_active(e, now)
                } else {
                    |e: IpAbuseEntry| true
                }),
                match best {
                    Some(b) => b < i && p(self@[b as int].1) && best_time
                        == self@[b as int].1.last_strike && forall|j: int|
                        0 <= j < i && p((#[trigger] self@[j]).1) ==> self@[b as int].1.last_strike
                            < self@[j].1.last_strike || (self@[b as int].1.last_strike
                            == self@[j].1.last_strike && b <= j),
                    None => forall|j: int| 0 <= j < i ==> !p((#[trigger] self@[j]).1),
                },
            decreases n - i,
        {
            let e = self.entries.at(i);
            let active: bool = match e.1.banned_until {
                Some(until) => now < until,
                None => false,
            };
            assert(self@[i as int] == *e);
            if !(idle_only && active) {
                let first: bool = best.is_none();
                if first || e.1.last_strike < best_time {
                    best = Some(i);
                    best_time = e.1.last_strike;
                }
            }
            i = i + 1;
        }
        best
    }

    fn sweep(&mut self, now: u64)
        requires
            old(self).wf(),
        ensures
            final(self).wf(),
            final(self)@ == keep_entries(
                old(self)@,
                |e: (IpAddr, IpAbuseEntry)| !decayed(e.1, now) || ban_active(e.1, now),
            ),
    {
        let ghost p = |e: (IpAddr, IpAbuseEntry)| !decayed(e.1, now) || ban_active(e.1, now);
        let ghost s = self@;
        let mut kept: AssocMap<IpAddr, IpAbuseEntry> = AssocMap::new();
        let n: usize = self.entries.len();
        let mut i: usize = 0;
        proof {
            self.entries.lemma_seq();
            assert(s.take(0) =~= Seq::<(IpAddr, IpAbuseEntry)>::empty());
        }
        while i < n
            invariant
                self.wf(),
                kept.wf(),
                s == self@,
                distinct_keys(s),
                n == s.len(),
                i <= n,
                p == (|e: (IpAddr, IpAbuseEntry)| !decayed(e.1, now) || ban_active(e.1, now)),
                kept.seq() == keep_entries(s.take(i as int), p),
            decreases n - i,
        {
            let e: (IpAddr, IpAbuseEntry) = (self.entries.at(i).0, self.entries.at(i).1);
            assert(e == s[i as int]);
            let active: bool = match e.1.banned_until {
                Some(until) => now < until,
                None => false,
            };
            proof {
                assert(s.take(i + 1).drop_last() =~= s.take(i as int));
                lemma_keep_distinct(s.take(i as int), p);
                if has_key(kept.seq(), e.0) {
                    let k = key_pos(kept.seq(), e.0);
                    assert(s.take(i as int).contains(kept.seq()[k]));
                    let j = choose|j: int| 0 <= j < i && s.take(i as int)[j] == kept.seq()[k];
                    assert(s[j].0 != s[i as int].0);
                }
            }
            if within_secs(now, e.1.last_strike, BAN_DECAY_SECS) || active {
                kept.insert(e.0, e.1);
            }
            i = i + 1;
        }
        assert(s.take(i as int) =~= s);
        self.entries = kept;
    }

    /// Records a strike against an address. Whether it is banned now.
    pub fn record_ip_strike(&mut self, ip: IpAddr, now: u64) -> (r: bool)
        requires
            old(self).wf(),
        ensures
            final(self).wf(),
            final(self)@ == after_strike(old(self)@, ip, now),
            r == struck_out(
                struck(entry_before(make_room(old(self)@, ip, now), ip, now), now),
                now,
            ),
    {
        let ghost s = self@;
        let full: bool = self.entries.len() >= MAX_IP_ABUSE_ENTRIES;
        if full {
            self.sweep(now);
            let ghost kept = self@;
            let mut more: bool = self.entries.len() >= MAX_IP_ABUSE_ENTRIES;
            while more
                invariant
                    self.wf(),
                    more ==> self@.len() >= MAX_IP_ABUSE_ENTRIES,
                    more ==> drop_idle(self@, now) == drop_idle(kept, now),
                    !more ==> self@ == drop_idle(kept, now),
                decreases self@.len(), (if more { 1int } else { 0int }),
            {
                let ghost idle = |e: IpAbuseEntry| !ban_active(e, now);
                let ghost cur = self@;
                match self.oldest(now, true) {
                    Some(i) => {
                        proof {
                            lemma_oldest_unique(cur, idle, i as int);
                            assert(idle(cur[i as int].1));
                            assert(has_any(cur, idle));
                        }
                        let _ = self.entries.remove_at(i);
                        assert(drop_idle(cur, now) == drop_idle(self@, now));
                        if self.entries.len() < MAX_IP_ABUSE_ENTRIES {
                            assert(drop_idle(self@, now) == self@);
                            more = false;
                        }
                    },
                    None => {
                        assert(!has_any(cur, idle));
                        assert(drop_idle(cur, now) == cur);
                        more = false;
                    },
                }
            }
        }
        if self.entries.len() >= MAX_IP_ABUSE_ENTRIES && !self.contains(&ip) {
            let ghost cur = self@;
            match self.oldest(now, false) {
                Some(i) => {
                    proof {
                        lemma_oldest_unique(cur, |e: IpAbuseEntry| true, i as int);
                    }
                    let _ = self.entries.remove_at(i);
                },
                None => {
                    assert(cur.len() > 0);
                    let ghost all = |e: IpAbuseEntry| true;
                    assert(all(cur[0].1));
                    assert(false);
                },
            }
        }
        let ghost ready = self@;
        assert(ready == make_room(s, ip, now));
        let mut e: IpAbuseEntry = match self.entries.get(&ip) {
            Some(e) => *e,
            None => IpAbuseEntry { strikes: 0, banned_until: None, last_strike: now },
        };
        proof {
            self.lemma_lookup(ip);
        }
        assert(e == entry_before(ready, ip, now));
        let active: bool = match e.banned_until {
            Some(until) => now < until,
            None => false,
        };
        if !active && !within_secs(now, e.last_strike, BAN_DECAY_SECS) {
            e.strikes = 0;
            e.banned_until = None;
        }
        e.strikes = e.strikes.saturating_add(1);
        e.last_strike = now;
        let banned: bool = e.strikes >= IP_BAN_STRIKE_THRESHOLD;
        if banned {
            let end: u64 = after_secs(now, IP_BAN_DURATION_SECS);
            e.banned_until = match e.banned_until {
                Some(until) => Some(
                    if until > end {
                        until
                    } else {
                        end
                    },
                ),
                None => Some(end),
            };
        }
        self.entries.insert(ip, e);
        banned || active
    }

    proof fn lemma_lookup(&self, ip: IpAddr)
        requires
            self.wf(),
        ensures
            self.entries@.contains_key(ip) == has_key(self@, ip),
            has_key(self@, ip) ==> self.entries@[ip] == self@[key_pos(self@, ip)].1,
    {
        self.entries.lemma_seq();
        if has_key(self@, ip) {
            lemma_entry(self@, key_pos(self@, ip));
        }
    }

    fn contains(&self, ip: &IpAddr) -> (r: bool)
        requires
            self.wf(),
        ensures
            r == has_key(self@, *ip),
    {
        proof {
            self.lemma_lookup(*ip);
        }
        self.entries.contains_key(ip)
    }

    /// Whether an address is banned. What no longer counts is forgotten; the second
    /// result tells whether a ban was lifted.
    pub fn is_ip_banned(&mut self, ip: IpAddr, now: u64) -> (r: (bool, bool))
        requires
            old(self).wf(),
        ensures
            final(self).wf(),
            r.0 == ip_banned(old(self)@, ip, now),
            r.1 == (has_key(old(self)@, ip) && (old(self)@[key_pos(
                old(self)@,
                ip,
            )].1.banned_until matches Some(until) && now >= until)),
            final(self)@ == after_look(old(self)@, ip, now),
    {
        proof {
            self.lemma_lookup(ip);
        }
        let e: IpAbuseEntry = match self.entries.get(&ip) {
            Some(e) => *e,
            None => {
                return (false, false);
            },
        };
        match e.banned_until {
            Some(until) => {
                if now >= until {
                    self.entries.remove(&ip);
                    return (false, true);
                }
                (true, false)
            },
            None => {
                if !within_secs(now, e.last_strike, BAN_DECAY_SECS) {
                    self.entries.remove(&ip);
                }
                (false, false)
            },
        }
    }
}

// ---------------------------------------------------------------------------
// Identities
// ---------------------------------------------------------------------------
/// Bans of identities, with when each ends.
pub type BanList = Seq<(PeerId, u64)>;

/// Whether the ban at `i` is the one that ends first, the first in the list if
/// there are several.
pub open spec fn ends_first(s: BanList, i: int) -> bool {
    &&& 0 <= i < s.len()
    &&& forall|j: int|
        0 <= j < s.len() ==> s[i].1 < (#[trigger] s[j]).1 || (s[i].1 == s[j].1 && i <= j)
}

/// The list without the bans that end first, as many as it takes to get below the
/// cap.
pub open spec fn drop_ending(s: BanList) -> BanList
    decreases s.len(),
{
    if s.len() < MAX_IDENTITY_BAN_ENTRIES {
        s
    } else {
        let t = s.remove(choose|i: int| ends_first(s, i));
        if t.len() < s.len() {
            drop_ending(t)
        } else {
            s
        }
    }
}

/// The list made ready for one more ban.
pub open spec fn ban_room(s: BanList, now: u64) -> BanList {
    if s.len() >= MAX_IDENTITY_BAN_ENTRIES {
        drop_ending(keep_entries(s, |e: (PeerId, u64)| now < e.1))
    } else {
        s
    }
}

/// Whether an identity is all zeros: that of a peer that has not shown one.
pub open spec fn is_anonymous(id: PeerId) -> bool {
    forall|j: int| 0 <= j < 32 ==> id@[j] == 0
}

/// The bans after a ban of `id`. One without an identity is not banned.
pub open spec fn after_ban(s: BanList, id: PeerId, now: u64) -> BanList {
    if is_anonymous(id) {
        s
    } else {
        insert_entry(ban_room(s, now), id, later(now, IP_BAN_DURATION_SECS) as u64)
    }
}

/// Bans of identities.
pub struct IdentityBans {
    entries: AssocMap<PeerId, u64>,
}

impl View for IdentityBans {
    type V = BanList;

    closed spec fn view(&self) -> BanList {
        self.entries.seq()
    }
}

/// Whether a list names exactly the keys that went from one list of bans to
/// another, and nothing came in between.
pub open spec fn lists_lost(before: BanList, after: BanList, lost: Seq<PeerId>) -> bool {
    &&& forall|k: PeerId| #[trigger]
        lost.contains(k) == (has_key(before, k) && !has_key(after, k))
    &&& forall|k: PeerId| #[trigger] has_key(after, k) ==> has_key(before, k)
}

proof fn lemma_has_key_push(s: BanList, e: (PeerId, u64), k: PeerId)
    ensures
        has_key(s.push(e), k) == (has_key(s, k) || k == e.0),
{
    let t = s.push(e);
    if has_key(s, k) {
        assert(t[key_pos(s, k)].0 == k);
    }
    if k == e.0 {
        assert(t[s.len() as int].0 == k);
    }
    if has_key(t, k) {
        let j = key_pos(t, k);
        if j < s.len() {
            assert(s[j].0 == k);
        }
    }
}

proof fn lemma_has_key_remove(s: BanList, i: int, k: PeerId)
    requires
        distinct_keys(s),
        0 <= i < s.len(),
    ensures
        has_key(s.remove(i), k) == (has_key(s, k) && k != s[i].0),
{
    let t = s.remove(i);
    if has_key(t, k) {
        let j = key_pos(t, k);
        let j2 = if j < i { j } else { j + 1 };
        assert(s[j2].0 == k);
        if j2 < i {
            assert(s[j2].0 != s[i].0);
        } else {
            assert(s[i].0 != s[j2].0);
        }
    }
    if has_key(s, k) && k != s[i].0 {
        let j = key_pos(s, k);
        let j2 = if j < i { j } else { j - 1 };
        assert(t[j2].0 == k);
    }
}

proof fn lemma_ends_first_unique(s: BanList, i: int)
    requires
        ends_first(s, i),
    ensures
        (choose|i: int| ends_first(s, i)) == i,
{
    let k = choose|i: int| ends_first(s, i);
    assert(ends_first(s, k));
    assert(s[i].1 <= s[k].1 && s[k].1 <= s[i].1);
}

impl IdentityBans {
    /// No identity is held twice.
    pub closed spec fn wf(&self) -> bool {
        self.entries.wf()
    }

    /// A well-formed table holds no identity twice.
    pub proof fn lemma_distinct(&self)
        requires
            self.wf(),
        ensures
            distinct_keys(self@),
    {
        self.entries.lemma_seq();
    }

    pub fn new() -> (r: Self)
        ensures
            r.wf(),
            r@ == Seq::<(PeerId, u64)>::empty(),
    {
        IdentityBans { entries: AssocMap::new() }
    }

    fn first_ending(&self) -> (r: usize)
        requires
            self.wf(),
            self@.len() > 0,
        ensures
            ends_first(self@, r as int),
    {
        let n: usize = self.entries.len();
        let mut best: usize = 0;
        let mut i: usize = 1;
        while i < n
            invariant
                n == self.entries.seq().len(),
                1 <= i <= n,
                best < i,
                forall|j: int|
                    0 <= j < i ==> self@[best as int].1 < (#[trigger] self@[j]).1 || (
                    self@[best as int].1 == self@[j].1 && best <= j),
            decreases n - i,
        {
            if self.entries.at(i).1 < self.entries.at(best).1 {
                best = i;
            }
            i = i + 1;
        }
        best
    }

    fn drop_expired(&mut self, now: u64) -> (dropped: Vec<PeerId>)
        requires
            old(self).wf(),
        ensures
            final(self).wf(),
            final(self)@ == keep_entries(old(self)@, |e: (PeerId, u64)| now < e.1),
            lists_lost(old(self)@, final(self)@, dropped@),
    {
        let mut dropped: Vec<PeerId> = Vec::new();
        let ghost p = |e: (PeerId, u64)| now < e.1;
        let ghost s = self@;
        let mut kept: AssocMap<PeerId, u64> = AssocMap::new();
        let n: usize = self.entries.len();
        let mut i: usize = 0;
        proof {
            self.entries.lemma_seq();
            assert(s.take(0) =~= Seq::<(PeerId, u64)>::empty());
        }
        while i < n
            invariant
                self.wf(),
                kept.wf(),
                s == self@,
                distinct_keys(s),
                n == s.len(),
                i <= n,
                p == (|e: (PeerId, u64)| now < e.1),
                kept.seq() == keep_entries(s.take(i as int), p),
                lists_lost(s.take(i as int), kept.seq(), dropped@),
            decreases n - i,
        {
            let ghost was_dropped = dropped@;
            let ghost was_kept = kept.seq();
            let id: PeerId = self.entries.at(i).0;
            let until: u64 = self.entries.at(i).1;
            proof {
                assert(s.take(i + 1).drop_last() =~= s.take(i as int));
                assert(s.take(i + 1).last() == (id, until));
                lemma_keep_distinct(s.take(i as int), p);
                if has_key(kept.seq(), id) {
                    let k = key_pos(kept.seq(), id);
                    assert(s.take(i as int).contains(kept.seq()[k]));
                    let j = choose|j: int| 0 <= j < i && s.take(i as int)[j] == kept.seq()[k];
                    assert(s[j].0 != s[i as int].0);
                }
            }
            if now < until {
                kept.insert(id, until);
            } else {
                dropped.push(id);
            }
            proof {
                let t = s.take(i as int);
                let u = s.take(i + 1);
                assert(u =~= t.push((id, until)));
                assert forall|k: PeerId| dropped@.contains(k) == (has_key(u, k) && !has_key(
                    kept.seq(),
                    k,
                )) by {
                    lemma_has_key_push(t, (id, until), k);
                    if now < until {
                        lemma_has_key_push(was_kept, (id, until), k);
                        if k == id && was_dropped.contains(k) {
                            let j = key_pos(t, k);
                            assert(s[j].0 != s[i as int].0);
                        }
                    } else {
                        if was_dropped.contains(k) {
                            let j = choose|j: int| 0 <= j < was_dropped.len() && was_dropped[j] == k;
                            assert(dropped@[j] == k);
                        }
                        if k == id {
                            assert(dropped@[was_dropped.len() as int] == k);
                        }
                        if dropped@.contains(k) {
                            let j = choose|j: int| 0 <= j < dropped@.len() && dropped@[j] == k;
                            if j < was_dropped.len() {
                                assert(was_dropped[j] == k);
                            }
                        }
                    }
                }
            }
            i = i + 1;
        }
        assert(s.take(i as int) =~= s);
        self.entries = kept;
        dropped
    }

    /// Bans an identity. The identities whose bans were dropped to make room are
    /// handed back.
    pub fn ban_identity(&mut self, id: PeerId, now: u64) -> (dropped: Vec<PeerId>)
        requires
            old(self).wf(),
        ensures
            final(self).wf(),
            final(self)@ == after_ban(old(self)@, id, now),
            is_anonymous(id) ==> dropped@.len() == 0,
            !is_anonymous(id) ==> lists_lost(old(self)@, ban_room(old(self)@, now), dropped@),
    {
        let mut dropped: Vec<PeerId> = Vec::new();
        if is_zero_bytes(&id) {
            return dropped;
        }
        let ghost s = self@;
        if self.entries.len() >= MAX_IDENTITY_BAN_ENTRIES {
            dropped = self.drop_expired(now);
            let ghost kept = self@;
            while self.entries.len() >= MAX_IDENTITY_BAN_ENTRIES
                invariant
                    self.wf(),
                    drop_ending(self@) == drop_ending(kept),
                    lists_lost(s, self@, dropped@),
                decreases self@.len(),
            {
                let i: usize = self.first_ending();
                let ghost before = self@;
                let ghost was = dropped@;
                proof {
                    lemma_ends_first_unique(self@, i as int);
                    self.entries.lemma_seq();
                }
                let e = self.entries.remove_at(i);
                dropped.push(e.0);
                proof {
                    assert forall|k: PeerId| dropped@.contains(k) == (has_key(s, k) && !has_key(
                        self@,
                        k,
                    )) by {
                        lemma_has_key_remove(before, i as int, k);
                        assert(before[i as int].0 == e.0);
                        if was.contains(k) {
                            let j = choose|j: int| 0 <= j < was.len() && was[j] == k;
                            assert(dropped@[j] == k);
                        }
                        if k == e.0 {
                            assert(dropped@[was.len() as int] == k);
                            assert(has_key(before, k));
                            assert(has_key(s, k));
                        }
                        if dropped@.contains(k) {
                            let j = choose|j: int| 0 <= j < dropped@.len() && dropped@[j] == k;
                            if j < was.len() {
                                assert(was[j] == k);
                            }
                        }
                    }
                }
            }
        }
        let until: u64 = after_secs(now, IP_BAN_DURATION_SECS);
        self.entries.insert(id, until);
        dropped
    }

    /// Whether an identity is banned. A ban that is over is forgotten; the second
    /// result tells whether there was one.
    pub fn is_identity_banned(&mut self, id: &PeerId, now: u64) -> (r: (bool, bool))
        requires
            old(self).wf(),
        ensures
            final(self).wf(),
            r.0 == (has_key(old(self)@, *id) && now < old(self)@[key_pos(old(self)@, *id)].1),
            r.1 == (has_key(old(self)@, *id) && now >= old(self)@[key_pos(old(self)@, *id)].1),
            final(self)@ == (if r.1 {
                remove_entry(old(self)@, *id)
            } else {
                old(self)@
            }),
    {
        proof {
            self.entries.lemma_seq();
            if has_key(self@, *id) {
                lemma_entry(self@, key_pos(self@, *id));
            }
        }
        let until: u64 = match self.entries.get(id) {
            Some(u) => *u,
            None => {
                return (false, false);
            },
        };
        if now >= until {
            self.entries.remove(id);
            return (false, true);
        }
        (true, false)
    }
}

// ---------------------------------------------------------------------------
// Laws
// ---------------------------------------------------------------------------
/// A ban is not flushed by strikes against other addresses, however many there
/// are: at the cap, an entry under a ban goes only when all the others are under
/// one too.
pub proof fn law_sweep_keeps_active_bans(s: AbuseList, now: u64, e: (IpAddr, IpAbuseEntry))
    requires
        distinct_keys(s),
        s.contains(e),
        ban_active(e.1, now),
    ensures
        drop_idle(
            keep_entries(
                s,
                |e: (IpAddr, IpAbuseEntry)| !decayed(e.1, now) || ban_active(e.1, now),
            ),
            now,
        ).contains(e),
{
    let p = |e: (IpAddr, IpAbuseEntry)| !decayed(e.1, now) || ban_active(e.1, now);
    lemma_keep_distinct(s, p);
    let i = choose|i: int| 0 <= i < s.len() && s[i] == e;
    assert(p(s[i]));
    lemma_drop_idle_keeps(keep_entries(s, p), now, e);
}

proof fn lemma_drop_idle_keeps(s: AbuseList, now: u64, e: (IpAddr, IpAbuseEntry))
    requires
        s.contains(e),
        ban_active(e.1, now),
    ensures
        drop_idle(s, now).contains(e),
    decreases s.len(),
{
    let idle = |e: IpAbuseEntry| !ban_active(e, now);
    if !(s.len() < MAX_IP_ABUSE_ENTRIES || !has_any(s, idle)) {
        let k = choose|i: int| is_oldest(s, idle, i);
        lemma_oldest_exists(s, idle);
        assert(is_oldest(s, idle, k));
        let t = drop_oldest(s, idle);
        let i = choose|i: int| 0 <= i < s.len() && s[i] == e;
        assert(i != k);
        if i < k {
            assert(t[i] == e);
        } else {
            assert(t[i - 1] == e);
        }
        lemma_drop_idle_keeps(t, now, e);
    }
}

proof fn lemma_oldest_exists(s: AbuseList, p: spec_fn(IpAbuseEntry) -> bool)
    requires
        has_any(s, p),
    ensures
        exists|i: int| is_oldest(s, p, i),
    decreases s.len(),
{
    let w = choose|i: int| 0 <= i < s.len() && p((#[trigger] s[i]).1);
    let t = s.drop_last();
    let last = s.len() - 1;
    if has_any(t, p) {
        lemma_oldest_exists(t, p);
        let k = choose|i: int| is_oldest(t, p, i);
        assert(t[k] == s[k]);
        if p(s[last].1) && s[last].1.last_strike < s[k].1.last_strike {
            assert forall|j: int| 0 <= j < s.len() && p((#[trigger] s[j]).1) implies
                s[last].1.last_strike < s[j].1.last_strike || (s[last].1.last_strike
                == s[j].1.last_strike && last <= j) by {
                if j < last {
                    assert(t[j] == s[j]);
                }
            }
            assert(is_oldest(s, p, last));
        } else {
            assert forall|j: int| 0 <= j < s.len() && p((#[trigger] s[j]).1) implies
                s[k].1.last_strike < s[j].1.last_strike || (s[k].1.last_strike
                == s[j].1.last_strike && k <= j) by {
                if j < last {
                    assert(t[j] == s[j]);
                }
            }
            assert(is_oldest(s, p, k));
        }
    } else {
        assert forall|j: int| 0 <= j < last implies !p((#[trigger] s[j]).1) by {
            assert(t[j] == s[j]);
            assert(!p(t[j].1));
        }
        assert(w == last);
        assert(is_oldest(s, p, last));
    }
}

proof fn lemma_remove_distinct(s: AbuseList, i: int)
    requires
        distinct_keys(s),
        0 <= i < s.len(),
    ensures
        distinct_keys(s.remove(i)),
{
    let t = s.remove(i);
    assert forall|a: int, b: int| 0 <= a < b < t.len() implies t[a].0 != t[b].0 by {
        let a2 = if a < i { a } else { a + 1 };
        let b2 = if b < i { b } else { b + 1 };
        assert(t[a] == s[a2] && t[b] == s[b2]);
    }
}

proof fn lemma_drop_idle_distinct(s: AbuseList, now: u64)
    requires
        distinct_keys(s),
    ensures
        distinct_keys(drop_idle(s, now)),
    decreases s.len(),
{
    let idle = |e: IpAbuseEntry| !ban_active(e, now);
    if !(s.len() < MAX_IP_ABUSE_ENTRIES || !has_any(s, idle)) {
        lemma_oldest_exists(s, idle);
        let k = choose|i: int| is_oldest(s, idle, i);
        lemma_remove_distinct(s, k);
        lemma_drop_idle_distinct(drop_oldest(s, idle), now);
    }
}

proof fn lemma_make_room_distinct(s: AbuseList, ip: IpAddr, now: u64)
    requires
        distinct_keys(s),
    ensures
        distinct_keys(make_room(s, ip, now)),
{
    let p = |e: (IpAddr, IpAbuseEntry)| !decayed(e.1, now) || ban_active(e.1, now);
    let all = |e: IpAbuseEntry| true;
    let swept = if s.len() >= MAX_IP_ABUSE_ENTRIES {
        drop_idle(keep_entries(s, p), now)
    } else {
        s
    };
    lemma_keep_distinct(s, p);
    lemma_drop_idle_distinct(keep_entries(s, p), now);
    if swept.len() >= MAX_IP_ABUSE_ENTRIES && !has_key(swept, ip) {
        assert(all(swept[0].1));
        lemma_oldest_exists(swept, all);
        let k = choose|i: int| is_oldest(swept, all, i);
        lemma_remove_distinct(swept, k);
    }
}

/// Ten strikes, none of them more than five minutes after the one before, get an
/// address banned for ten minutes; fewer do not.
pub proof fn law_strikes_lead_to_ban(e: IpAbuseEntry, now: u64)
    requires
        !decayed(e, now),
        !(e.banned_until is Some),
    ensures
        e.strikes + 1 >= IP_BAN_STRIKE_THRESHOLD ==> struck(e, now).banned_until == Some(
            later(now, IP_BAN_DURATION_SECS) as u64,
        ),
        e.strikes + 1 < IP_BAN_STRIKE_THRESHOLD ==> struck(e, now).banned_until is None
            && struck(e, now).strikes == e.strikes + 1,
{
}

/// After five minutes without a strike, an address that is not under a ban starts
/// over.
pub proof fn law_strikes_decay(e: IpAbuseEntry, now: u64)
    requires
        decayed(e, now),
        !ban_active(e, now),
    ensures
        struck(e, now) == (IpAbuseEntry { strikes: 1, banned_until: None, last_strike: now }),
{
}

/// A strike never lifts or shortens a ban: an address under a ban is still under
/// one after the strike, until then or longer, and the strike is answered as one
/// against a banned address.
pub proof fn law_strike_never_lifts_a_ban(s: AbuseList, ip: IpAddr, now: u64)
    requires
        distinct_keys(s),
        ip_banned(s, ip, now),
    ensures
        ip_banned(after_strike(s, ip, now), ip, now),
        after_strike(s, ip, now)[key_pos(after_strike(s, ip, now), ip)].1.banned_until->0
            >= s[key_pos(s, ip)].1.banned_until->0,
        struck_out(struck(entry_before(make_room(s, ip, now), ip, now), now), now),
{
    let k = key_pos(s, ip);
    let e = s[k];
    assert(s.contains(e));
    let p = |e: (IpAddr, IpAbuseEntry)| !decayed(e.1, now) || ban_active(e.1, now);
    let t = make_room(s, ip, now);
    let swept = if s.len() >= MAX_IP_ABUSE_ENTRIES {
        drop_idle(keep_entries(s, p), now)
    } else {
        s
    };
    if s.len() >= MAX_IP_ABUSE_ENTRIES {
        law_sweep_keeps_active_bans(s, now, e);
    }
    assert(swept.contains(e));
    let i = choose|i: int| 0 <= i < swept.len() && swept[i] == e;
    assert(swept[i].0 == ip);
    assert(has_key(swept, ip));
    assert(t == swept);
    lemma_make_room_distinct(s, ip, now);
    lemma_entry(t, i);
    let n = struck(e.1, now);
    let u = after_strike(s, ip, now);
    assert(u[i] == (ip, n));
    assert(distinct_keys(u));
    lemma_entry(u, i);
}

/// An address that was banned by a strike is found to be banned until the ban
/// ends, and a look at it does not change that.
pub proof fn law_ban_holds(s: AbuseList, ip: IpAddr, now: u64, then: u64)
    requires
        distinct_keys(s),
        struck(entry_before(make_room(s, ip, now), ip, now), now).strikes
            >= IP_BAN_STRIKE_THRESHOLD,
        then < later(now, IP_BAN_DURATION_SECS),
    ensures
        ip_banned(after_strike(s, ip, now), ip, then),
        after_look(after_strike(s, ip, now), ip, then) == after_strike(s, ip, now),
{
    let t = make_room(s, ip, now);
    lemma_make_room_distinct(s, ip, now);
    let e = struck(entry_before(t, ip, now), now);
    let u = after_strike(s, ip, now);
    if has_key(t, ip) {
        let k = key_pos(t, ip);
        assert(u[k] == (ip, e));
        assert(distinct_keys(u));
        lemma_entry(u, k);
    } else {
        assert(u[t.len() as int] == (ip, e));
        assert forall|i: int, j: int| 0 <= i < j < u.len() implies u[i].0 != u[j].0 by {
            if j == t.len() {
                assert(t[i] == u[i]);
            } else {
                assert(t[i] == u[i] && t[j] == u[j]);
            }
        }
        lemma_entry(u, t.len() as int);
    }
}

} // verus!
