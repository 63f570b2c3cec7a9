//! What the address book takes up, keeps and gives.
use crate::addrbook::{
    after_failure, after_success, better_addr, book_room, contributions, count_book, dial_backoff,
    has_candidate, in_subnet, is_best, is_candidate, is_stalest, merge_all, routable_entries, subnet_of, AddrEntry,
    AddrLimits, BookView, InfoView,
};
use crate::assoc::{distinct_keys, has_key, key_pos, lemma_entry};
use crate::clock::later;
use crate::hash::PeerId;
use crate::net::{IpAddr, SocketAddr};
use vstd::prelude::*;

verus! {

/// Whether a book holds an address.
pub open spec fn lists(s: BookView, addr: SocketAddr) -> bool {
    exists|j: int| 0 <= j < s.len() && (#[trigger] s[j]).0 == addr
}

/// Counting the entries of a book is counting those that are left when the
/// others are sorted out.
pub proof fn law_count_is_that_of_a_filter(s: BookView, p: spec_fn((SocketAddr, InfoView)) -> bool)
    ensures
        count_book(s, p) == s.filter(p).len(),
    decreases s.len(),
{
    reveal(Seq::filter);
    if s.len() > 0 {
        law_count_is_that_of_a_filter(s.drop_last(), p);
    }
}

/// Addresses lie in one subnet if their first two bytes are the same.
pub proof fn law_subnet_is_the_first_two_bytes(a: [u8; 4], b: [u8; 4], c: [u8; 16], d: [u8; 16])
    ensures
        subnet_of(IpAddr::V4(a)) == subnet_of(IpAddr::V4(b)) <==> a@[0] == b@[0] && a@[1] == b@[1],
        subnet_of(IpAddr::V6(c)) == subnet_of(IpAddr::V6(d)) <==> c@[0] == d@[0] && c@[1] == d@[1],
{
}

/// How many entries of a book came from an address, and how many share its
/// subnet.
pub proof fn law_book_is_counted(s: BookView, ip: IpAddr)
    ensures
        contributions(s, ip) == s.filter(
            |e: (SocketAddr, InfoView)| e.1.contributed_by == Some(ip),
        ).len(),
        in_subnet(s, ip) == s.filter(
            |e: (SocketAddr, InfoView)| subnet_of(e.0.ip) == subnet_of(ip),
        ).len(),
{
    law_count_is_that_of_a_filter(
        s,
        |e: (SocketAddr, InfoView)| e.1.contributed_by == Some(ip),
    );
    law_count_is_that_of_a_filter(
        s,
        |e: (SocketAddr, InfoView)| subnet_of(e.0.ip) == subnet_of(ip),
    );
}

/// An announced entry that cannot be reached, was seen more than a day ago or
/// more than ten minutes ahead leaves the book as it is. Any other that is new
/// and within the caps is in the book afterwards, as it was announced, and
/// counts as added; at most one older entry makes way for it, and only in a full
/// book.
pub proof fn law_fresh_address_is_taken_up(
    s: BookView,
    es: Seq<AddrEntry>,
    ip: IpAddr,
    id: PeerId,
    now_unix: u64,
    l: AddrLimits,
    n: int,
)
    requires
        0 < n <= es.len(),
        l.peer_fraction_den > 0,
    ensures
        ({
            let m = merge_all(s, es, ip, id, now_unix, l, n - 1);
            let w = merge_all(s, es, ip, id, now_unix, l, n);
            let e = es[n - 1];
            let timely = now_unix - 86_400 <= e.last_seen && e.last_seen <= now_unix + 600;
            let open = !m.stopped && m.accepted < l.max_per_msg_accept;
            let shared = (s.filter(
                |x: (SocketAddr, InfoView)| x.1.contributed_by == Some(ip),
            ).len() + m.added) < l.max_book_size * l.peer_fraction_num
                / l.peer_fraction_den as int;
            let spread = m.book.filter(
                |x: (SocketAddr, InfoView)| subnet_of(x.0.ip) == subnet_of(e.addr.ip),
            ).len() < l.max_per_subnet16;
            &&& !e.routable || !timely ==> w.book == m.book && w.added == m.added && w.accepted
                == m.accepted
            &&& !open || !lists(m.book, e.addr) && (!shared || !spread) ==> w.book == m.book
                && w.added == m.added
            &&& e.routable && timely && open && !lists(m.book, e.addr) && shared && spread ==> {
                &&& w.added == m.added + 1
                &&& w.accepted == m.accepted + 1
                &&& w.book.len() > 0
                &&& w.book.last().0 == e.addr
                &&& w.book.last().1.entry == e
                &&& w.book.last().1.last_attempt is None
                &&& w.book.last().1.last_success is None
                &&& w.book.last().1.fail_count == 0
                &&& w.book.last().1.contributed_by == Some(ip)
                &&& forall|p: PeerId| w.book.last().1.sources.contains(p) <==> p == id
                &&& m.book.len() < l.max_book_size ==> w.book.drop_last() == m.book
                &&& m.book.len() >= l.max_book_size && m.book.len() > 0 ==> w.book.len()
                    == m.book.len()
            }
        }),
{
    let m = merge_all(s, es, ip, id, now_unix, l, n - 1);
    let w = merge_all(s, es, ip, id, now_unix, l, n);
    let e = es[n - 1];
    law_book_is_counted(s, ip);
    law_book_is_counted(m.book, e.addr.ip);
    if has_key(m.book, e.addr) {
        let j = key_pos(m.book, e.addr);
        assert(m.book[j].0 == e.addr);
    }
    if lists(m.book, e.addr) {
        assert(has_key(m.book, e.addr));
    }
    if w.book.len() > 0 && w.added == m.added + 1 {
        law_stalest_address_makes_way(m.book, l.max_book_size);
        assert(w.book.drop_last() =~= book_room(m.book, l.max_book_size));
    }
}

/// A full book loses the entry that was seen longest ago to make room, and no
/// other; one with room loses none.
pub proof fn law_stalest_address_makes_way(s: BookView, cap: usize)
    ensures
        s.len() < cap ==> book_room(s, cap) == s,
        s.len() >= cap && s.len() > 0 ==> exists|k: int|
            0 <= k < s.len() && book_room(s, cap) == #[trigger] s.remove(k) && forall|j: int|
                0 <= j < s.len() ==> s[k].1.entry.last_seen <= (#[trigger] s[j]).1.entry.last_seen,
{
    if s.len() >= cap && s.len() > 0 {
        lemma_stalest(s);
        let k = choose|i: int| is_stalest(s, i);
        assert(is_stalest(s, k));
        assert(book_room(s, cap) == s.remove(k));
    }
}

proof fn lemma_stalest(s: BookView)
    requires
        s.len() > 0,
    ensures
        exists|i: int| is_stalest(s, i),
    decreases s.len(),
{
    let last = s.len() - 1;
    if s.len() == 1 {
        assert(is_stalest(s, 0));
    } else {
        let t = s.drop_last();
        lemma_stalest(t);
        let k = choose|i: int| is_stalest(t, i);
        let pick = if s[last].1.entry.last_seen < s[k].1.entry.last_seen {
            last
        } else {
            k
        };
        assert forall|j: int| 0 <= j < s.len() implies s[pick].1.entry.last_seen < (
        #[trigger] s[j]).1.entry.last_seen || (s[pick].1.entry.last_seen
            == s[j].1.entry.last_seen && pick <= j) by {
            if j < last {
                assert(t[j] == s[j]);
                assert(t[k] == s[k]);
            }
        }
        assert(is_stalest(s, pick));
    }
}

/// An address that is announced again stays where it is, with the later of the
/// two sightings and one more peer that announced it; nothing else in the book
/// changes, and nothing counts as added.
pub proof fn law_known_address_is_refreshed(
    s: BookView,
    es: Seq<AddrEntry>,
    ip: IpAddr,
    id: PeerId,
    now_unix: u64,
    l: AddrLimits,
    n: int,
    k: int,
)
    requires
        0 < n <= es.len(),
        ({
            let m = merge_all(s, es, ip, id, now_unix, l, n - 1);
            &&& distinct_keys(m.book)
            &&& !m.stopped
            &&& m.accepted < l.max_per_msg_accept
            &&& 0 <= k < m.book.len()
            &&& m.book[k].0 == es[n - 1].addr
        }),
        es[n - 1].routable,
        now_unix - 86_400 <= es[n - 1].last_seen <= now_unix + 600,
    ensures
        ({
            let m = merge_all(s, es, ip, id, now_unix, l, n - 1);
            let w = merge_all(s, es, ip, id, now_unix, l, n);
            let (a, b) = (m.book[k].1, w.book[k].1);
            &&& w.book.len() == m.book.len()
            &&& forall|j: int| 0 <= j < m.book.len() && j != k ==> w.book[j] == m.book[j]
            &&& w.added == m.added
            &&& w.accepted == m.accepted + 1
            &&& b.entry.last_seen >= a.entry.last_seen && b.entry.last_seen >= es[n - 1].last_seen
            &&& b.entry.last_seen == a.entry.last_seen || b.entry.last_seen == es[n - 1].last_seen
            &&& forall|p: PeerId| b.sources.contains(p) <==> a.sources.contains(p) || p == id
            &&& b.last_success == a.last_success && b.last_attempt == a.last_attempt
                && b.fail_count == a.fail_count && b.contributed_by == a.contributed_by
        }),
{
    let m = merge_all(s, es, ip, id, now_unix, l, n - 1);
    lemma_entry(m.book, k);
}

/// A connection that succeeded is noted: the address is in the book, with the
/// time of success, without failures. One that is not to be passed on is not
/// taken up.
pub proof fn law_success_is_noted(s: BookView, e: AddrEntry, now: u64, cap: usize)
    requires
        distinct_keys(s),
    ensures
        ({
            let t = after_success(s, e, now, cap);
            &&& !e.routable ==> t == s
            &&& e.routable ==> exists|j: int|
                0 <= j < t.len() && (#[trigger] t[j]).0 == e.addr && t[j].1.last_success == Some(
                    now,
                ) && t[j].1.fail_count == 0 && t[j].1.entry.last_seen == e.last_seen
            &&& e.routable && lists(s, e.addr) ==> t.len() == s.len() && forall|j: int|
                0 <= j < s.len() && s[j].0 != e.addr ==> t[j] == #[trigger] s[j]
        }),
{
    let t = after_success(s, e, now, cap);
    if e.routable {
        if has_key(s, e.addr) {
            let k = key_pos(s, e.addr);
            assert(t[k].0 == e.addr);
        } else {
            let j = t.len() - 1;
            assert(t[j].0 == e.addr);
        }
        if lists(s, e.addr) {
            assert(has_key(s, e.addr));
        }
    }
}

/// A failed attempt is noted with its time, as one failure more; no other entry
/// changes, and an address that is not in the book is not taken up.
pub proof fn law_failure_is_noted(s: BookView, addr: SocketAddr, now: u64, j: int)
    requires
        distinct_keys(s),
        0 <= j < s.len(),
    ensures
        ({
            let t = after_failure(s, addr, now);
            &&& t.len() == s.len()
            &&& t[j].0 == s[j].0
            &&& s[j].0 != addr ==> t[j] == s[j]
            &&& s[j].0 == addr ==> {
                &&& t[j].1.last_attempt == Some(now)
                &&& s[j].1.fail_count < u32::MAX ==> t[j].1.fail_count == s[j].1.fail_count + 1
                &&& t[j].1.last_success == s[j].1.last_success
                &&& t[j].1.entry == s[j].1.entry
                &&& t[j].1.sources == s[j].1.sources
            }
        }),
{
    if s[j].0 == addr {
        lemma_entry(s, j);
    }
}

/// The wait after failures begins with five seconds, doubles with each, and ends
/// at an hour.
pub proof fn law_wait_doubles_up_to_an_hour(fails: nat)
    ensures
        dial_backoff(0) == 5,
        dial_backoff(fails) <= 3_600,
        dial_backoff(fails) <= dial_backoff(fails + 1),
        2 * dial_backoff(fails) < 3_600 ==> dial_backoff(fails + 1) == 2 * dial_backoff(fails),
        2 * dial_backoff(fails) >= 3_600 ==> dial_backoff(fails + 1) == 3_600,
    decreases fails,
{
    if fails > 0 {
        law_wait_doubles_up_to_an_hour((fails - 1) as nat);
    }
}

/// The address that is chosen for a connection is not waiting after a failure.
/// None that is as trusted has worked before where it has not; none was
/// announced by more peers, or failed less often, where that decides.
pub proof fn law_best_address_is_chosen(
    s: BookView,
    now: u64,
    l: AddrLimits,
    preferred: bool,
    k: int,
    j: int,
)
    requires
        is_best(s, now, l, preferred, k),
        0 <= j < s.len(),
    ensures
        ({
            let (a, b) = (s[k].1, s[j].1);
            let due = b.last_attempt is None || now >= later(
                b.last_attempt->0,
                dial_backoff(b.fail_count as nat) as u64,
            );
            let trusted = b.sources.len() >= l.min_sources_for_connect || b.last_success is Some;
            &&& a.last_attempt matches Some(t) ==> now >= later(
                t,
                dial_backoff(a.fail_count as nat) as u64,
            )
            &&& preferred <==> (a.sources.len() >= l.min_sources_for_connect || a.last_success
                is Some)
            &&& due && trusted == preferred ==> {
                &&& b.last_success is Some ==> a.last_success is Some
                &&& (a.last_success is Some) == (b.last_success is Some) ==> {
                    &&& a.sources.len() >= b.sources.len()
                    &&& a.sources.len() == b.sources.len() ==> a.fail_count <= b.fail_count
                }
            }
        }),
{
    assert(is_candidate(s[k].1, now, l, preferred));
    let b = s[j].1;
    if is_candidate(b, now, l, preferred) {
        assert(!better_addr(s[j].1, s[k].1));
    }
}

/// Every entry that can be reached from anywhere may be passed on: none is left
/// out, and none comes from elsewhere than the book.
pub proof fn law_routable_entries_are_all_shared(s: BookView, n: int, j: int)
    requires
        0 <= j < n <= s.len(),
    ensures
        s[j].1.entry.routable ==> routable_entries(s, n).contains(s[j].1.entry),
        routable_entries(s, n).len() <= n,
        forall|i: int|
            0 <= i < routable_entries(s, n).len() ==> exists|k: int|
                0 <= k < n && (#[trigger] s[k]).1.entry == #[trigger] routable_entries(s, n)[i],
    decreases n,
{
    let t = routable_entries(s, n - 1);
    let u = routable_entries(s, n);
    if j < n - 1 {
        law_routable_entries_are_all_shared(s, n - 1, j);
        if s[j].1.entry.routable {
            let i = choose|i: int| 0 <= i < t.len() && t[i] == s[j].1.entry;
            assert(u[i] == s[j].1.entry);
        }
    } else {
        if n > 1 {
            law_routable_entries_are_all_shared(s, n - 1, 0);
        }
        if s[j].1.entry.routable {
            assert(u[u.len() - 1] == s[j].1.entry);
        }
    }
    assert forall|i: int| 0 <= i < u.len() implies exists|k: int|
        0 <= k < n && (#[trigger] s[k]).1.entry == #[trigger] u[i] by {
        if i < t.len() {
            assert(u[i] == t[i]);
            let k = choose|k: int| 0 <= k < n - 1 && (#[trigger] s[k]).1.entry == t[i];
            assert(s[k].1.entry == u[i]);
        } else {
            assert(s[n - 1].1.entry == u[i]);
        }
    }
}

/// An address can be chosen if it is not waiting after a failure; one that was
/// never tried is not.
pub proof fn law_untried_address_can_be_chosen(
    s: BookView,
    now: u64,
    l: AddrLimits,
    preferred: bool,
    j: int,
)
    requires
        0 <= j < s.len(),
        s[j].1.last_attempt is None,
        preferred == (s[j].1.sources.len() >= l.min_sources_for_connect || s[j].1.last_success
            is Some),
    ensures
        has_candidate(s, now, l, preferred),
{
    assert(is_candidate(s[j].1, now, l, preferred));
}

} // verus!
