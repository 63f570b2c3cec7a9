//! Keeping a session alive, and telling when it is dead.
use crate::clock::{age, within_secs, SECOND};
use vstd::prelude::*;

verus! {

/// How often a silent session is probed, and how long it may take to answer.
#[derive(Clone, Copy, Debug)]
pub struct KeepaliveConfig {
    /// How long a session may be silent before it is probed, in seconds.
    pub ping_interval_secs: u64,
    /// How long it may then stay silent, in seconds.
    pub pong_deadline_secs: u64,
}

/// What is known at a tick.
#[derive(Clone, Copy, Debug)]
pub struct Tick {
    pub now: u64,
    /// Whether the node is being shut down.
    pub node_shutdown: bool,
    /// Whether the session has to make way for another one.
    pub evicted: bool,
    /// Whether the address or the identity of the peer is banned.
    pub banned: bool,
    /// How many bytes the session has read in all.
    pub bytes_read: u64,
    /// Whether an answer to a probe has come since the last tick.
    pub pong_received: bool,
}

/// What a tick asks for.
#[derive(Clone, Copy, Debug, PartialEq, Eq, Structural)]
pub enum TickVerdict {
    /// Nothing.
    Continue,
    /// Probe the session.
    SendPing,
    /// End the session: the node is being shut down.
    EndShutdown,
    /// End the session: another one takes its place.
    EndEvicted,
    /// End the session: the peer is banned. It was blamed before.
    EndBanned,
    /// End the session: it is dead.
    EndPongTimeout,
}

/// What a session has shown of itself.
#[derive(Clone, Copy, Debug)]
pub struct Keepalive {
    pub bytes_seen: u64,
    pub last_progress: u64,
    pub ping_sent_at: Option<u64>,
    pub awaiting_pong: bool,
}

impl Keepalive {
    /// The state once the tick's news has been noted. Bytes of any kind count
    /// as a sign of life, so bulk data that holds up an answer does no harm.
    pub open spec fn noted(self, t: Tick) -> Keepalive {
        let moved = if t.bytes_read != self.bytes_seen {
            Keepalive { bytes_seen: t.bytes_read, last_progress: t.now, ..self }
        } else {
            self
        };
        if t.pong_received {
            Keepalive { awaiting_pong: false, ping_sent_at: None, last_progress: t.now, ..moved }
        } else {
            moved
        }
    }

    /// Since when the session owes a sign of life.
    pub open spec fn anchor(self) -> u64 {
        match self.ping_sent_at {
            Some(s) if s > self.last_progress => s,
            _ => self.last_progress,
        }
    }

    /// What a tick asks for.
    pub open spec fn verdict(self, t: Tick, c: KeepaliveConfig) -> TickVerdict {
        let k = self.noted(t);
        if t.node_shutdown {
            TickVerdict::EndShutdown
        } else if t.evicted {
            TickVerdict::EndEvicted
        } else if t.banned {
            TickVerdict::EndBanned
        } else if k.awaiting_pong {
            if age(t.now, k.anchor()) >= c.pong_deadline_secs * SECOND {
                TickVerdict::EndPongTimeout
            } else {
                TickVerdict::Continue
            }
        } else if age(t.now, k.last_progress) >= c.ping_interval_secs * SECOND {
            TickVerdict::SendPing
        } else {
            TickVerdict::Continue
        }
    }

    pub fn new(bytes_read: u64, now: u64) -> (r: Self)
        ensures
            r == (Keepalive {
                bytes_seen: bytes_read,
                last_progress: now,
                ping_sent_at: None,
                awaiting_pong: false,
            }),
    {
        Keepalive {
            bytes_seen: bytes_read,
            last_progress: now,
            ping_sent_at: None,
            awaiting_pong: false,
        }
    }

    /// Looks after the session once.
    pub fn on_tick(&mut self, t: &Tick, c: &KeepaliveConfig) -> (r: TickVerdict)
        ensures
            r == old(self).verdict(*t, *c),
            *final(self) == (if t.node_shutdown || t.evicted || t.banned {
                *old(self)
            } else {
                old(self).noted(*t)
            }),
    {
        if t.node_shutdown {
            return TickVerdict::EndShutdown;
        }
        if t.evicted {
            return TickVerdict::EndEvicted;
        }
        if t.banned {
            return TickVerdict::EndBanned;
        }
        if t.bytes_read != self.bytes_seen {
            self.bytes_seen = t.bytes_read;
            self.last_progress = t.now;
        }
        if t.pong_received {
            self.awaiting_pong = false;
            self.ping_sent_at = None;
            self.last_progress = t.now;
        }
        if self.awaiting_pong {
            let anchor: u64 = match self.ping_sent_at {
                Some(s) => if s > self.last_progress {
                    s
                } else {
                    self.last_progress
                },
                None => self.last_progress,
            };
            if within_secs(t.now, anchor, c.pong_deadline_secs) {
                TickVerdict::Continue
            } else {
                TickVerdict::EndPongTimeout
            }
        } else if within_secs(t.now, self.last_progress, c.ping_interval_secs) {
            TickVerdict::Continue
        } else {
            TickVerdict::SendPing
        }
    }

    /// Notes that a probe was sent.
    pub fn on_ping_sent(&mut self, now: u64)
        ensures
            *final(self) == (Keepalive {
                ping_sent_at: Some(now),
                awaiting_pong: true,
                ..*old(self)
            }),
    {
        self.ping_sent_at = Some(now);
        self.awaiting_pong = true;
    }
}

/// A session that shows a sign of life is neither probed nor given up at that
/// tick, as long as the intervals are not zero.
pub proof fn law_live_session_is_left_alone(k: Keepalive, t: Tick, c: KeepaliveConfig)
    requires
        t.bytes_read != k.bytes_seen || t.pong_received,
        c.ping_interval_secs > 0,
        c.pong_deadline_secs > 0,
        k.ping_sent_at matches Some(s) ==> s <= t.now,
    ensures
        !(k.verdict(t, c) is SendPing),
        !(k.verdict(t, c) is EndPongTimeout),
{
}

/// A session that was probed and shows no sign of life is given up once the
/// deadline has passed since the probe, and not before.
pub proof fn law_dead_session_is_given_up(
    k: Keepalive,
    t: Tick,
    c: KeepaliveConfig,
    sent_at: u64,
)
    requires
        k.awaiting_pong,
        k.ping_sent_at == Some(sent_at),
        sent_at >= k.last_progress,
        t.bytes_read == k.bytes_seen,
        !t.pong_received,
        !t.node_shutdown && !t.evicted && !t.banned,
    ensures
        k.verdict(t, c) is EndPongTimeout <==> age(t.now, sent_at) >= c.pong_deadline_secs * SECOND,
{
}

/// The text with which an ended session is reported.
pub open spec fn end_text(v: TickVerdict) -> Seq<char> {
    match v {
        TickVerdict::EndShutdown => "node shutting down"@,
        TickVerdict::EndEvicted => "evicted by tiebreaker"@,
        _ => ""@,
    }
}

/// The text with which an ended session is reported.
pub fn end_message(v: TickVerdict) -> (r: &'static str)
    ensures
        r@ == end_text(v),
{
    match v {
        TickVerdict::EndShutdown => "node shutting down",
        TickVerdict::EndEvicted => "evicted by tiebreaker",
        _ => "",
    }
}

} // verus!
