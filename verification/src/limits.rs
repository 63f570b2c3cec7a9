//! Budgets per minute.
use crate::clock::{age, within_secs, SECOND};
use vstd::prelude::*;

verus! {

/// The length of a budget window, in seconds.
pub const WINDOW_SECS: u64 = 60;

/// Addition that stays at the top of the range.
pub open spec fn capped_add(a: u64, b: u64) -> u64 {
    if a + b <= u64::MAX {
        (a + b) as u64
    } else {
        u64::MAX
    }
}

/// A budget that is renewed every minute.
#[derive(Clone, Copy, Debug)]
pub struct WindowLimiter {
    pub window_start: u64,
    pub used: u64,
}

impl WindowLimiter {
    /// The limiter with its window moved on to `now`, if that is due.
    pub open spec fn rolled(self, now: u64) -> WindowLimiter {
        if age(now, self.window_start) >= WINDOW_SECS * SECOND {
            WindowLimiter { window_start: now, used: 0 }
        } else {
            self
        }
    }

    /// Whether the budget has room for `amount` more.
    pub open spec fn has_room(self, now: u64, amount: u64, cap: u64) -> bool {
        capped_add(self.rolled(now).used, amount) <= cap
    }

    pub fn new(now: u64) -> (r: Self)
        ensures
            r == (WindowLimiter { window_start: now, used: 0 }),
    {
        WindowLimiter { window_start: now, used: 0 }
    }

    /// Takes `amount` out of the budget, if it is there.
    pub fn try_consume(&mut self, now: u64, amount: u64, cap: u64) -> (r: bool)
        ensures
            r == old(self).has_room(now, amount, cap),
            *final(self) == (if r {
                WindowLimiter {
                    used: capped_add(old(self).rolled(now).used, amount),
                    ..old(self).rolled(now)
                }
            } else {
                old(self).rolled(now)
            }),
    {
        if !within_secs(now, self.window_start, WINDOW_SECS) {
            self.window_start = now;
            self.used = 0;
        }
        let next: u64 = self.used.saturating_add(amount);
        if next <= cap {
            self.used = next;
            true
        } else {
            false
        }
    }

    /// Gives one unit back.
    pub fn refund(&mut self)
        ensures
            final(self).window_start == old(self).window_start,
            final(self).used == (if old(self).used > 0 {
                (old(self).used - 1) as u64
            } else {
                0
            }),
    {
        self.used = self.used.saturating_sub(1);
    }
}

/// A budget is never overdrawn: within one window, what has been taken stays
/// within the cap, whatever is asked for.
pub proof fn law_budget_is_kept(l: WindowLimiter, now: u64, amount: u64, cap: u64)
    requires
        l.used <= cap,
    ensures
        l.rolled(now).used <= cap,
        l.has_room(now, amount, cap) ==> capped_add(l.rolled(now).used, amount) <= cap,
{
}

/// A unit that is taken and given back leaves the budget as it was.
pub proof fn law_refund_undoes_consume(used: u64)
    requires
        used < u64::MAX,
    ensures
        capped_add(used, 1) - 1 == used,
{
}

} // verus!
