//! Asking no more of a peer than it is willing to send.
use crate::clock::{age, elapsed};
use vstd::prelude::*;

verus! {

/// The longest time to wait before looking again, in nanoseconds.
pub const MAX_PACING_WAIT: u64 = 5_000_000_000;

/// How long to wait where nothing is in the window, in nanoseconds.
pub const IDLE_PACING_WAIT: u64 = 100_000_000;

/// The bytes of a list of requests.
pub open spec fn bytes_of(s: Seq<(u64, usize)>) -> nat
    decreases s.len(),
{
    if s.len() == 0 {
        0
    } else {
        bytes_of(s.drop_last()) + s.last().1 as nat
    }
}

/// The requests that are left when those go that are older than the window.
pub open spec fn in_window(s: Seq<(u64, usize)>, now: u64, window: u64) -> Seq<(u64, usize)>
    decreases s.len(),
{
    if s.len() > 0 && age(now, s[0].0) > window {
        in_window(s.drop_first(), now, window)
    } else {
        s
    }
}

/// How long to wait until the oldest request leaves the window.
pub open spec fn pacing_wait(s: Seq<(u64, usize)>, now: u64, window: u64) -> int {
    let wait = if s.len() == 0 {
        IDLE_PACING_WAIT as int
    } else if s[0].0 + window > now {
        s[0].0 + window - now
    } else {
        0
    };
    if wait < MAX_PACING_WAIT {
        wait
    } else {
        MAX_PACING_WAIT as int
    }
}

/// The answers asked for within a sliding window, by their likely size.
pub struct RateTracker {
    ceiling: usize,
    window: u64,
    events: Vec<(u64, usize)>,
}

/// What a `RateTracker` holds.
pub ghost struct RateView {
    pub ceiling: usize,
    pub window: u64,
    pub events: Seq<(u64, usize)>,
}

impl View for RateTracker {
    type V = RateView;

    closed spec fn view(&self) -> RateView {
        RateView { ceiling: self.ceiling, window: self.window, events: self.events@ }
    }
}

proof fn lemma_bytes_first(s: Seq<(u64, usize)>)
    requires
        s.len() > 0,
    ensures
        bytes_of(s) == s[0].1 + bytes_of(s.drop_first()),
    decreases s.len(),
{
    if s.len() == 1 {
        assert(s.drop_last() =~= Seq::<(u64, usize)>::empty());
        assert(s.drop_first() =~= Seq::<(u64, usize)>::empty());
        assert(bytes_of(s.drop_last()) == 0);
    } else {
        lemma_bytes_first(s.drop_last());
        assert(s.drop_last().drop_first() =~= s.drop_first().drop_last());
        assert(s.drop_first().last() == s.last());
    }
}

proof fn lemma_bytes_take(s: Seq<(u64, usize)>, k: int)
    requires
        0 <= k <= s.len(),
    ensures
        bytes_of(s.take(k)) <= bytes_of(s),
    decreases s.len() - k,
{
    if k < s.len() {
        lemma_bytes_take(s, k + 1);
        assert(s.take(k + 1).drop_last() =~= s.take(k));
    } else {
        assert(s.take(k) =~= s);
    }
}

impl RateTracker {
    /// The requests in the window stay under the ceiling.
    pub open spec fn wf(&self) -> bool {
        bytes_of(self@.events) <= self@.ceiling
    }

    pub fn new(ceiling_bytes_per_window: usize, window: u64) -> (r: Self)
        ensures
            r.wf(),
            r@ == (RateView {
                ceiling: ceiling_bytes_per_window,
                window,
                events: Seq::empty(),
            }),
    {
        RateTracker { ceiling: ceiling_bytes_per_window, window, events: Vec::new() }
    }

    fn evict_old(&mut self, now: u64)
        requires
            old(self).wf(),
        ensures
            final(self).wf(),
            final(self)@ == (RateView {
                events: in_window(old(self)@.events, now, old(self)@.window),
                ..old(self)@
            }),
    {
        while self.events.len() > 0 && elapsed(now, self.events[0].0) > self.window
            invariant
                self.wf(),
                self@.ceiling == old(self)@.ceiling,
                self@.window == old(self)@.window,
                in_window(self@.events, now, self@.window) == in_window(
                    old(self)@.events,
                    now,
                    old(self)@.window,
                ),
            decreases self.events@.len(),
        {
            let ghost before = self.events@;
            proof {
                lemma_bytes_first(before);
            }
            let gone = self.events.remove(0);
            assert(self.events@ =~= before.drop_first());
        }
    }

    /// The bytes asked for within the window.
    pub fn current_bytes(&self) -> (r: usize)
        requires
            self.wf(),
        ensures
            r == bytes_of(self@.events),
    {
        let mut sum: usize = 0;
        let mut i: usize = 0;
        assert(self.events@.take(0) =~= Seq::<(u64, usize)>::empty());
        while i < self.events.len()
            invariant
                self.wf(),
                i <= self.events@.len(),
                sum == bytes_of(self.events@.take(i as int)),
            decreases self.events@.len() - i,
        {
            proof {
                assert(self.events@.take(i + 1).drop_last() =~= self.events@.take(i as int));
                lemma_bytes_take(self.events@, i + 1);
            }
            sum = sum + self.events[i].1;
            i = i + 1;
        }
        assert(self.events@.take(i as int) =~= self.events@);
        sum
    }

    /// Records a request if it fits under the ceiling; if not, tells how many
    /// nanoseconds to wait before trying again.
    pub fn try_record(&mut self, now: u64, bytes_about_to_send: usize) -> (r: Option<u64>)
        requires
            old(self).wf(),
        ensures
            final(self).wf(),
            ({
                let live = in_window(old(self)@.events, now, old(self)@.window);
                if bytes_of(live) + bytes_about_to_send <= old(self)@.ceiling {
                    &&& r is None
                    &&& final(self)@ == (RateView {
                        events: live.push((now, bytes_about_to_send)),
                        ..old(self)@
                    })
                } else {
                    &&& r matches Some(w) && w == pacing_wait(live, now, old(self)@.window)
                    &&& final(self)@ == (RateView { events: live, ..old(self)@ })
                }
            }),
    {
        self.evict_old(now);
        let used: usize = self.current_bytes();
        if bytes_about_to_send <= self.ceiling - used {
            let ghost live = self.events@;
            self.events.push((now, bytes_about_to_send));
            assert(self.events@.drop_last() =~= live);
            return None;
        }
        let wait: u64 = if self.events.len() == 0 {
            IDLE_PACING_WAIT
        } else {
            let gone: u64 = elapsed(now, self.events[0].0);
            let ahead: u64 = if self.events[0].0 > now {
                self.events[0].0 - now
            } else {
                0
            };
            if gone >= self.window && ahead == 0 {
                0
            } else if ahead >= MAX_PACING_WAIT {
                MAX_PACING_WAIT
            } else {
                let left: u64 = self.window - if ahead == 0 {
                    gone
                } else {
                    0
                };
                if left >= MAX_PACING_WAIT {
                    MAX_PACING_WAIT
                } else {
                    left + ahead
                }
            }
        };
        Some(
            if wait < MAX_PACING_WAIT {
                wait
            } else {
                MAX_PACING_WAIT
            },
        )
    }
}

/// A request that was put off can be tried again: after the wait that is given
/// for it the oldest request has left the window, or the wait was cut short.
pub proof fn law_wait_frees_the_window(s: Seq<(u64, usize)>, now: u64, window: u64)
    requires
        s.len() > 0,
        s[0].0 <= now,
        window > 0,
        now + window < u64::MAX,
    ensures
        ({
            let w = pacing_wait(s, now, window);
            w == MAX_PACING_WAIT || age((now + w + 1) as u64, s[0].0) > window
        }),
{
}

} // verus!
