//! What a session's messages are allowed to do.
//!
//! A `SessionMeter` counts what a peer sends. Each of its methods is told of one
//! message and of what the node knows at that moment, and says what is to be
//! done: answer, drop, pass on, count it against the peer, or end the session.
use crate::chain::MAX_GETBLOCKS_ITEMS;
use crate::clock::{age, within_secs, SECOND};
use crate::limits::{capped_add, WindowLimiter, WINDOW_SECS};
use crate::registry::{claims_more_work, PeerRegistry, RegistryView};
use crate::work::be_nat;
use vstd::prelude::*;

verus! {

/// Why a session ended.
#[derive(Clone, Copy, Debug, PartialEq, Eq, Structural)]
pub enum PeerFault {
    Io,
    HmacFailure,
    ProtocolGarbage,
    AbuseThresholdExceeded,
    SlowPeer,
    MalformedFrame,
    RateLimitExceeded,
    TrafficQuotaExceeded,
    SlowPeerTimeout,
    TransportIo,
    FrameBudgetExceeded,
    /// The strike was recorded when the offence was seen.
    DisconnectAfterInlineStrike,
    PeerAlreadyBanned,
    DuplicateIdentity,
}

/// Whether the end of a session counts against the peer's address: abuse does,
/// whatever may be a bad connection, a used-up quota, an offence that was counted
/// already or a ban that is under way does not.
pub open spec fn strikes(f: PeerFault) -> bool {
    match f {
        PeerFault::HmacFailure | PeerFault::ProtocolGarbage | PeerFault::AbuseThresholdExceeded
        | PeerFault::SlowPeer | PeerFault::MalformedFrame | PeerFault::RateLimitExceeded => true,
        _ => false,
    }
}

impl PeerFault {
    pub fn earns_strike(&self) -> (r: bool)
        ensures
            r == strikes(*self),
    {
        match self {
            PeerFault::HmacFailure | PeerFault::ProtocolGarbage
            | PeerFault::AbuseThresholdExceeded | PeerFault::SlowPeer | PeerFault::MalformedFrame
            | PeerFault::RateLimitExceeded => true,
            _ => false,
        }
    }
}

/// How much a peer may send in a minute, and the like.
#[derive(Clone, Copy, Debug)]
pub struct ReaderLimits {
    pub max_pings_per_min: u32,
    pub max_unsolicited_per_min: u32,
    pub max_unsolicited_addr_per_min: u32,
    pub max_blocks_per_min: u32,
    pub max_txs_per_min: u32,
    pub max_requests_per_min: u32,
    pub max_invalid_blocks_per_peer: u32,
    pub max_invalid_txs_per_peer: u32,
    pub max_getaddr_per_conn: u32,
    pub addr_response_window_secs: u64,
    pub max_response_bytes_per_min: u64,
    pub max_global_response_bytes_per_min: u64,
    /// The block version that the network uses.
    pub block_version: u32,
}

/// What a peer has sent since the start of the current minute. Requests for
/// addresses are counted over the whole session.
#[derive(Clone, Copy, Debug)]
pub struct SessionMeter {
    pub window_start: u64,
    pub blocks: u32,
    pub txs: u32,
    pub pings: u32,
    pub requests: u32,
    pub unsolicited: u32,
    pub response_bytes: u64,
    pub invalid_blocks: u32,
    pub invalid_txs: u32,
    pub unsolicited_addrs: u32,
    pub getaddrs: u32,
}

/// One more, at the top of the range no more.
pub open spec fn bump(n: u32) -> u32 {
    if n < u32::MAX {
        (n + 1) as u32
    } else {
        n
    }
}

fn bumped(n: u32) -> (r: u32)
    ensures
        r == bump(n),
{
    n.saturating_add(1)
}

/// Whether the node's view of the chain is fresh enough to hold a peer to the
/// rules for live traffic: no download is under way, and no peer claims more work.
pub open spec fn caught_up(downloading: bool, our_work: nat, peers: RegistryView) -> bool {
    !downloading && !claims_more_work(peers, our_work)
}

pub fn is_caught_up(downloading: bool, our_work: &[u8; 32], peers: &PeerRegistry) -> (r: bool)
    requires
        peers.wf(),
    ensures
        r == caught_up(downloading, be_nat(our_work@), peers@),
{
    !downloading && !peers.any_more_work(our_work)
}

/// What the node knows of a block that a peer has sent.
#[derive(Clone, Copy, Debug)]
pub struct BlockFacts {
    pub ip_banned: bool,
    pub already_known: bool,
    pub height: u64,
    pub version: u32,
}

/// What is to be done about a block.
#[derive(Clone, Copy, Debug, PartialEq, Eq, Structural)]
pub enum BlockVerdict {
    /// End the session.
    Disconnect(PeerFault),
    /// Ignore it.
    Drop,
    /// It is invalid on its face: record a strike, then see `after_strike`.
    Strike,
    /// Hand it to the sync manager.
    Forward,
}

/// What is to be done about a block that is within the peer's quota.
pub open spec fn screen(f: BlockFacts, l: ReaderLimits) -> BlockVerdict {
    if f.ip_banned || f.already_known {
        BlockVerdict::Drop
    } else if f.height == 0 || f.version != l.block_version {
        BlockVerdict::Strike
    } else {
        BlockVerdict::Forward
    }
}

/// The fate of a transaction that a peer has sent.
#[derive(Clone, Copy, Debug, PartialEq, Eq, Structural)]
pub enum TxOutcome {
    /// The mempool would not have it; whether because it spends what another
    /// transaction spends.
    PreCheckFailed { double_spend: bool },
    /// It is invalid.
    Invalid,
    /// The tip moved while it was checked.
    TipChanged,
    /// It is valid, but the mempool did not take it.
    MempoolRejected { double_spend: bool },
    /// It is in the mempool.
    Added,
}

/// What is to be done about a transaction.
#[derive(Clone, Copy, Debug, PartialEq, Eq, Structural)]
pub struct TxVerdict {
    /// Give the global slot back.
    pub refund: bool,
    /// Pass the transaction on to the other peers.
    pub relay: bool,
    /// End the session.
    pub fault: Option<PeerFault>,
}

/// Whether a transaction counts as invalid against the peer.
pub open spec fn counts_invalid(o: TxOutcome) -> bool {
    match o {
        TxOutcome::PreCheckFailed { double_spend } => double_spend,
        TxOutcome::MempoolRejected { double_spend } => double_spend,
        TxOutcome::Invalid => true,
        _ => false,
    }
}

impl SessionMeter {
    pub open spec fn fresh(now: u64) -> SessionMeter {
        SessionMeter {
            window_start: now,
            blocks: 0,
            txs: 0,
            pings: 0,
            requests: 0,
            unsolicited: 0,
            response_bytes: 0,
            invalid_blocks: 0,
            invalid_txs: 0,
            unsolicited_addrs: 0,
            getaddrs: 0,
        }
    }

    pub fn new(now: u64) -> (r: Self)
        ensures
            r == Self::fresh(now),
    {
        SessionMeter {
            window_start: now,
            blocks: 0,
            txs: 0,
            pings: 0,
            requests: 0,
            unsolicited: 0,
            response_bytes: 0,
            invalid_blocks: 0,
            invalid_txs: 0,
            unsolicited_addrs: 0,
            getaddrs: 0,
        }
    }

    /// Starts a new minute, if that is due. What is counted over the session
    /// stays.
    pub fn tick(&mut self, now: u64)
        ensures
            *final(self) == (if age(now, old(self).window_start) >= WINDOW_SECS * SECOND {
                SessionMeter { getaddrs: old(self).getaddrs, ..Self::fresh(now) }
            } else {
                *old(self)
            }),
    {
        if !within_secs(now, self.window_start, WINDOW_SECS) {
            let kept: u32 = self.getaddrs;
            *self = SessionMeter::new(now);
            self.getaddrs = kept;
        }
    }

    /// Whether the session may go on at all.
    pub fn check_bans(&self, ip_banned: bool, identity_banned: bool) -> (r: Result<(), PeerFault>)
        ensures
            r == (if ip_banned || identity_banned {
                Err::<(), PeerFault>(PeerFault::PeerAlreadyBanned)
            } else {
                Ok(())
            }),
    {
        if ip_banned || identity_banned {
            Err(PeerFault::PeerAlreadyBanned)
        } else {
            Ok(())
        }
    }

    /// A ping is always answered. It is counted once a peer has been confirmed;
    /// whether it is over the cap is told, for the log.
    pub fn on_ping(&mut self, confirmed: bool, l: &ReaderLimits) -> (over: bool)
        ensures
            *final(self) == (SessionMeter {
                pings: if confirmed {
                    bump(old(self).pings)
                } else {
                    old(self).pings
                },
                ..*old(self)
            }),
            over == (confirmed && bump(old(self).pings) > l.max_pings_per_min),
    {
        if !confirmed {
            return false;
        }
        self.pings = bumped(self.pings);
        self.pings > l.max_pings_per_min
    }

    /// Whether a pong is the one that was waited for. One that was not is counted,
    /// and has no other effect.
    pub fn on_pong(&mut self, awaiting: bool, confirmed: bool) -> (expected: bool)
        ensures
            expected == awaiting,
            *final(self) == (SessionMeter {
                unsolicited: if !awaiting && confirmed {
                    bump(old(self).unsolicited)
                } else {
                    old(self).unsolicited
                },
                ..*old(self)
            }),
    {
        if awaiting {
            return true;
        }
        if confirmed {
            self.unsolicited = bumped(self.unsolicited);
        }
        false
    }

    /// Whether it has to be looked up if an announced block is known: it is not
    /// for one over the quota or from a banned address, whose fate is settled.
    pub fn looks_up_new_block(
        &self,
        caught_up: bool,
        confirmed: bool,
        ip_banned: bool,
        l: &ReaderLimits,
    ) -> (r: bool)
        ensures
            r == (!ip_banned && !(caught_up && confirmed && bump(self.blocks)
                > l.max_blocks_per_min)),
    {
        !ip_banned && !(caught_up && confirmed && bumped(self.blocks) > l.max_blocks_per_min)
    }

    /// Whether it has to be looked up if a block that was asked for is known.
    pub fn looks_up_block_response(
        &self,
        is_ibd_peer: bool,
        confirmed: bool,
        ip_banned: bool,
        l: &ReaderLimits,
    ) -> (r: bool)
        ensures
            r == (!ip_banned && !(!is_ibd_peer && confirmed && bump(self.blocks)
                > l.max_blocks_per_min)),
    {
        !ip_banned && !(!is_ibd_peer && confirmed && bumped(self.blocks) > l.max_blocks_per_min)
    }

    /// A block that the peer announces. The quota holds only once the node has
    /// caught up and a peer has been confirmed.
    pub fn on_new_block(
        &mut self,
        caught_up: bool,
        confirmed: bool,
        f: &BlockFacts,
        l: &ReaderLimits,
    ) -> (r: BlockVerdict)
        ensures
            ({
                let counted = if caught_up && confirmed {
                    bump(old(self).blocks)
                } else {
                    old(self).blocks
                };
                let over = caught_up && confirmed && counted > l.max_blocks_per_min;
                &&& r == (if over {
                    BlockVerdict::Disconnect(PeerFault::TrafficQuotaExceeded)
                } else {
                    screen(*f, *l)
                })
                &&& *final(self) == (SessionMeter {
                    blocks: counted,
                    invalid_blocks: if r == BlockVerdict::Strike {
                        bump(old(self).invalid_blocks)
                    } else {
                        old(self).invalid_blocks
                    },
                    ..*old(self)
                })
            }),
    {
        if caught_up && confirmed {
            self.blocks = bumped(self.blocks);
            if self.blocks > l.max_blocks_per_min {
                return BlockVerdict::Disconnect(PeerFault::TrafficQuotaExceeded);
            }
        }
        self.screen_block(f, l)
    }

    /// A block that the peer sends in answer to a request. Over the quota it is
    /// dropped; the peer that the download runs from has none.
    pub fn on_block_response(
        &mut self,
        is_ibd_peer: bool,
        confirmed: bool,
        f: &BlockFacts,
        l: &ReaderLimits,
    ) -> (r: BlockVerdict)
        ensures
            ({
                let counting = !is_ibd_peer && confirmed;
                let counted = if counting {
                    bump(old(self).blocks)
                } else {
                    old(self).blocks
                };
                &&& r == (if counting && counted > l.max_blocks_per_min {
                    BlockVerdict::Drop
                } else {
                    screen(*f, *l)
                })
                &&& *final(self) == (SessionMeter {
                    blocks: counted,
                    invalid_blocks: if r == BlockVerdict::Strike {
                        bump(old(self).invalid_blocks)
                    } else {
                        old(self).invalid_blocks
                    },
                    ..*old(self)
                })
            }),
    {
        if !is_ibd_peer && confirmed {
            self.blocks = bumped(self.blocks);
            if self.blocks > l.max_blocks_per_min {
                return BlockVerdict::Drop;
            }
        }
        self.screen_block(f, l)
    }

    fn screen_block(&mut self, f: &BlockFacts, l: &ReaderLimits) -> (r: BlockVerdict)
        ensures
            r == screen(*f, *l),
            *final(self) == (SessionMeter {
                invalid_blocks: if r == BlockVerdict::Strike {
                    bump(old(self).invalid_blocks)
                } else {
                    old(self).invalid_blocks
                },
                ..*old(self)
            }),
    {
        if f.ip_banned || f.already_known {
            return BlockVerdict::Drop;
        }
        if f.height == 0 || f.version != l.block_version {
            self.invalid_blocks = bumped(self.invalid_blocks);
            return BlockVerdict::Strike;
        }
        BlockVerdict::Forward
    }

    /// Whether the session ends after the strike for an invalid block: if it got
    /// the address banned, or, for an announced block, if there were too many.
    pub fn after_strike(&self, banned: bool, announced: bool, l: &ReaderLimits) -> (r: Option<
        PeerFault,
    >)
        ensures
            r == (if banned || (announced && self.invalid_blocks > l.max_invalid_blocks_per_peer) {
                Some(PeerFault::DisconnectAfterInlineStrike)
            } else {
                None
            }),
    {
        if banned || (announced && self.invalid_blocks > l.max_invalid_blocks_per_peer) {
            Some(PeerFault::DisconnectAfterInlineStrike)
        } else {
            None
        }
    }

    /// Whether a transaction is looked at: not before the node has caught up, not
    /// over the quota, not from a banned address, and only if a global slot was
    /// free (`slot` is asked for last).
    pub fn on_new_tx(
        &mut self,
        caught_up: bool,
        ip_banned: bool,
        slots: &mut WindowLimiter,
        max_global_txs_per_min: u64,
        now: u64,
        l: &ReaderLimits,
    ) -> (r: bool)
        ensures
            ({
                let counted = if caught_up {
                    bump(old(self).txs)
                } else {
                    old(self).txs
                };
                let asks = caught_up && counted <= l.max_txs_per_min && !ip_banned;
                &&& *final(self) == (SessionMeter { txs: counted, ..*old(self) })
                &&& r == (asks && old(slots).has_room(now, 1, max_global_txs_per_min))
                &&& *final(slots) == (if !asks {
                    *old(slots)
                } else if r {
                    WindowLimiter {
                        used: capped_add(old(slots).rolled(now).used, 1),
                        ..old(slots).rolled(now)
                    }
                } else {
                    old(slots).rolled(now)
                })
            }),
    {
        if !caught_up {
            return false;
        }
        self.txs = bumped(self.txs);
        if self.txs > l.max_txs_per_min || ip_banned {
            return false;
        }
        slots.try_consume(now, 1, max_global_txs_per_min)
    }

    /// What follows from the fate of a transaction. A slot is given back unless
    /// the transaction got in, or the check before the costly one ended the
    /// session.
    pub fn on_tx_outcome(&mut self, o: TxOutcome, l: &ReaderLimits) -> (r: TxVerdict)
        ensures
            ({
                let counted = if counts_invalid(o) {
                    bump(old(self).invalid_txs)
                } else {
                    old(self).invalid_txs
                };
                let over = counts_invalid(o) && counted > l.max_invalid_txs_per_peer;
                &&& *final(self) == (SessionMeter { invalid_txs: counted, ..*old(self) })
                &&& r.fault == (if over {
                    Some(PeerFault::AbuseThresholdExceeded)
                } else {
                    None
                })
                &&& r.relay == (o == TxOutcome::Added)
                &&& r.refund == (o != TxOutcome::Added && !(over && o is PreCheckFailed))
            }),
    {
        let invalid: bool = match o {
            TxOutcome::PreCheckFailed { double_spend } => double_spend,
            TxOutcome::MempoolRejected { double_spend } => double_spend,
            TxOutcome::Invalid => true,
            _ => false,
        };
        let mut over: bool = false;
        if invalid {
            self.invalid_txs = bumped(self.invalid_txs);
            over = self.invalid_txs > l.max_invalid_txs_per_peer;
        }
        let cheap: bool = match o {
            TxOutcome::PreCheckFailed { .. } => true,
            _ => false,
        };
        TxVerdict {
            refund: o != TxOutcome::Added && !(over && cheap),
            relay: o == TxOutcome::Added,
            fault: if over {
                Some(PeerFault::AbuseThresholdExceeded)
            } else {
                None
            },
        }
    }

    /// Whether a request for the tip is answered.
    pub fn on_get_tip(&mut self, confirmed: bool, l: &ReaderLimits) -> (r: bool)
        ensures
            *final(self) == (SessionMeter {
                requests: if confirmed {
                    bump(old(self).requests)
                } else {
                    old(self).requests
                },
                ..*old(self)
            }),
            r == !(confirmed && bump(old(self).requests) > l.max_requests_per_min),
    {
        if !confirmed {
            return true;
        }
        self.requests = bumped(self.requests);
        self.requests <= l.max_requests_per_min
    }

    /// Whether an answer of `len` bytes is within the budgets: the peer's, which
    /// always lets the first answer of a minute through, and the node's. While the
    /// node is catching up, neither holds.
    pub open spec fn may_answer(
        self,
        catching_up: bool,
        len: u64,
        global: WindowLimiter,
        now: u64,
        l: ReaderLimits,
    ) -> bool {
        catching_up || (!(self.response_bytes > 0 && capped_add(self.response_bytes, len)
            > l.max_response_bytes_per_min) && global.has_room(
            now,
            len,
            l.max_global_response_bytes_per_min,
        ))
    }

    /// Takes an answer of `len` bytes out of the budgets. A refused one leaves the
    /// peer's as it is.
    pub fn on_answer(
        &mut self,
        catching_up: bool,
        len: u64,
        global: &mut WindowLimiter,
        now: u64,
        l: &ReaderLimits,
    ) -> (r: bool)
        ensures
            r == old(self).may_answer(catching_up, len, *old(global), now, *l),
            *final(self) == (if r {
                SessionMeter {
                    response_bytes: capped_add(old(self).response_bytes, len),
                    ..*old(self)
                }
            } else {
                *old(self)
            }),
            catching_up ==> *final(global) == *old(global),
            !catching_up && r ==> *final(global) == (WindowLimiter {
                used: capped_add(old(global).rolled(now).used, len),
                ..old(global).rolled(now)
            }),
            !catching_up && !r ==> *final(global) == (if old(self).response_bytes > 0 && capped_add(
                old(self).response_bytes,
                len,
            ) > l.max_response_bytes_per_min {
                *old(global)
            } else {
                old(global).rolled(now)
            }),
    {
        if !catching_up {
            if self.response_bytes > 0 && self.response_bytes.saturating_add(len)
                > l.max_response_bytes_per_min {
                return false;
            }
            if !global.try_consume(now, len, l.max_global_response_bytes_per_min) {
                return false;
            }
        }
        self.response_bytes = self.response_bytes.saturating_add(len);
        true
    }

    /// Whether a request for addresses is answered: only so many in a session.
    pub fn on_get_addr(&mut self, confirmed: bool, l: &ReaderLimits) -> (r: bool)
        ensures
            r == (bump(old(self).getaddrs) <= l.max_getaddr_per_conn),
            *final(self) == (SessionMeter {
                getaddrs: bump(old(self).getaddrs),
                unsolicited: if !r && confirmed {
                    bump(old(self).unsolicited)
                } else {
                    old(self).unsolicited
                },
                ..*old(self)
            }),
    {
        self.getaddrs = bumped(self.getaddrs);
        if self.getaddrs > l.max_getaddr_per_conn {
            if confirmed {
                self.unsolicited = bumped(self.unsolicited);
            }
            return false;
        }
        true
    }

    /// Whether a list of addresses is taken up: only in answer to a request, and
    /// not too long after it.
    pub fn on_addr(
        &mut self,
        now: u64,
        asked_at: Option<u64>,
        confirmed: bool,
        l: &ReaderLimits,
    ) -> (r: bool)
        ensures
            r == (asked_at matches Some(t) && age(now, t) < l.addr_response_window_secs * SECOND),
            *final(self) == (if r {
                *old(self)
            } else {
                SessionMeter {
                    unsolicited_addrs: bump(old(self).unsolicited_addrs),
                    unsolicited: if confirmed && bump(old(self).unsolicited_addrs)
                        > l.max_unsolicited_addr_per_min {
                        bump(old(self).unsolicited)
                    } else {
                        old(self).unsolicited
                    },
                    ..*old(self)
                }
            }),
    {
        if let Some(t) = asked_at {
            if within_secs(now, t, l.addr_response_window_secs) {
                return true;
            }
        }
        self.unsolicited_addrs = bumped(self.unsolicited_addrs);
        if self.unsolicited_addrs > l.max_unsolicited_addr_per_min && confirmed {
            self.unsolicited = bumped(self.unsolicited);
        }
        false
    }

    /// A message that has no place after the handshake. Too many end the session.
    pub fn on_garbage(&mut self, l: &ReaderLimits) -> (r: Option<PeerFault>)
        ensures
            *final(self) == (SessionMeter {
                unsolicited: bump(old(self).unsolicited),
                ..*old(self)
            }),
            r == (if bump(old(self).unsolicited) > l.max_unsolicited_per_min {
                Some(PeerFault::ProtocolGarbage)
            } else {
                None
            }),
    {
        self.unsolicited = bumped(self.unsolicited);
        if self.unsolicited > l.max_unsolicited_per_min {
            Some(PeerFault::ProtocolGarbage)
        } else {
            None
        }
    }
}

/// The heights that a request for headers covers: from `start` on, as many as
/// were asked for and one request may have, up to the tip.
pub open spec fn header_range_end(start: u64, max_count: u32, tip_height: u64) -> u64 {
    let n = if max_count < MAX_GETBLOCKS_ITEMS {
        max_count as u64
    } else {
        MAX_GETBLOCKS_ITEMS as u64
    };
    let (a, b) = (capped_add(start, n), capped_add(tip_height, 1));
    if a <= b {
        a
    } else {
        b
    }
}

/// The height after the last one that a request for headers covers.
pub fn headers_end(start: u64, max_count: u32, tip_height: u64) -> (r: u64)
    ensures
        r == header_range_end(start, max_count, tip_height),
{
    let n: u64 = if (max_count as usize) < MAX_GETBLOCKS_ITEMS {
        max_count as u64
    } else {
        MAX_GETBLOCKS_ITEMS as u64
    };
    let a: u64 = start.saturating_add(n);
    let b: u64 = tip_height.saturating_add(1);
    if a <= b {
        a
    } else {
        b
    }
}

// ---------------------------------------------------------------------------
// Laws
// ---------------------------------------------------------------------------
/// An answer to a request for headers holds no more than was asked for, no more
/// than one request may have, and nothing above the tip.
pub proof fn law_headers_answer_is_bounded(start: u64, max_count: u32, tip_height: u64)
    ensures
        ({
            let end = header_range_end(start, max_count, tip_height);
            &&& end > start ==> end - start <= max_count && end - start <= MAX_GETBLOCKS_ITEMS
            &&& end > start ==> end - 1 <= tip_height
        }),
{
}

/// What an offence costs is counted once: a session that ends because of an
/// offence that was counted on the spot, or while a ban is under way, brings no
/// second strike.
pub proof fn law_no_double_strike()
    ensures
        !strikes(PeerFault::DisconnectAfterInlineStrike),
        !strikes(PeerFault::PeerAlreadyBanned),
        !strikes(PeerFault::TrafficQuotaExceeded),
{
}

/// A block that the node has already, or that comes from a banned address, is
/// never passed on and never counted against the peer.
pub proof fn law_known_block_is_dropped(f: BlockFacts, l: ReaderLimits)
    requires
        f.ip_banned || f.already_known,
    ensures
        screen(f, l) == BlockVerdict::Drop,
{
}

} // verus!
