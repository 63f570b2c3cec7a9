//! Finding the last block that two chains share.
use crate::chain::BlockHeader;
use crate::hash::Hash256;
use crate::text::{cat_num, decimal, push_decimal};
use vstd::prelude::*;
use vstd::string::*;

verus! {

/// The message for an answer at the wrong height.
pub open spec fn wrong_height_text(got: u64, expected: u64, count: nat) -> Seq<char> {
    "peer returned height "@ + decimal(got as nat) + " for hdrs[0] but expected "@ + decimal(
        expected as nat,
    ) + " (response carried "@ + decimal(count) + " headers — first one used)"@
}

/// What an answer tells about the block at a height.
///
/// `None`: nothing, as no header came or there is no block of our own.
pub open spec fn probe_meaning(
    headers: Seq<BlockHeader>,
    expected_height: u64,
    ours: Option<Hash256>,
) -> Result<Option<bool>, Seq<char>> {
    if headers.len() == 0 {
        Ok(None)
    } else if headers[0].height != expected_height {
        Err(wrong_height_text(headers[0].height, expected_height, headers.len()))
    } else {
        match ours {
            Some(id) => Ok(Some(id == headers[0].id)),
            None => Ok(None),
        }
    }
}

/// What a peer's answer tells about the block at `expected_height`.
///
/// Only the first header counts; a peer may well send more than it was asked
/// for. It is an error if that header is at another height.
pub fn interpret_ancestor_probe_response(
    headers: &[BlockHeader],
    expected_height: u64,
    our_block_id_at_height: Option<Hash256>,
) -> (r: Result<Option<bool>, String>)
    ensures
        match r {
            Ok(v) => probe_meaning(headers@, expected_height, our_block_id_at_height) == Ok::<
                _,
                Seq<char>,
            >(v),
            Err(e) => probe_meaning(headers@, expected_height, our_block_id_at_height) == Err::<
                Option<bool>,
                _,
            >(e@),
        },
{
    if headers.len() == 0 {
        return Ok(None);
    }
    if headers[0].height != expected_height {
        let mut s = cat_num("peer returned height ", headers[0].height, " for hdrs[0] but expected ");
        push_decimal(&mut s, expected_height);
        s.append(" (response carried ");
        push_decimal(&mut s, headers.len() as u64);
        s.append(" headers — first one used)");
        return Err(s);
    }
    let peer_block_id = headers[0].block_id();
    match our_block_id_at_height {
        Some(our) => Ok(Some(our == peer_block_id)),
        None => Ok(None),
    }
}

/// Headers after the first one make no difference.
pub proof fn law_surplus_headers_are_ignored(
    headers: Seq<BlockHeader>,
    expected_height: u64,
    ours: Option<Hash256>,
)
    requires
        headers.len() > 0,
        headers[0].height == expected_height,
    ensures
        probe_meaning(headers, expected_height, ours) == probe_meaning(
            headers.take(1),
            expected_height,
            ours,
        ),
{
}

/// How far a search has come.
#[derive(Clone, Copy, Debug)]
pub enum SearchPhase {
    /// The block at the top is to be compared.
    Top,
    /// The block at `mid` is to be compared: the chains agree at `lo`, and not
    /// above `hi`.
    Middle { lo: u64, hi: u64, mid: u64 },
    /// The chains agree up to here.
    Found(u64),
    /// The peer gave no answer for this height, the first or a later one.
    NoData { at: u64, first: bool },
}

/// A search for the last block that our chain shares with that of a peer.
#[derive(Clone, Copy, Debug)]
pub struct AncestorSearch {
    /// The height that the peer claims.
    pub claim_height: u64,
    /// The greatest height at which both can have a block.
    pub top: u64,
    pub phase: SearchPhase,
}

/// The middle of a range, rounded up.
pub open spec fn upper_middle(lo: u64, hi: u64) -> int {
    lo + (hi - lo + 1) / 2
}

/// The phase for a range.
pub open spec fn narrowed(lo: u64, hi: u64) -> SearchPhase {
    if lo < hi {
        SearchPhase::Middle { lo, hi, mid: upper_middle(lo, hi) as u64 }
    } else {
        SearchPhase::Found(lo)
    }
}

impl AncestorSearch {
    /// The height to compare next.
    pub open spec fn probing(self) -> Option<u64> {
        match self.phase {
            SearchPhase::Top => Some(self.top),
            SearchPhase::Middle { mid, .. } => Some(mid),
            _ => None,
        }
    }

    /// The range that is searched makes sense.
    pub open spec fn wf(self) -> bool {
        match self.phase {
            SearchPhase::Middle { lo, hi, mid } => lo < mid <= hi <= self.top && mid
                == upper_middle(lo, hi),
            SearchPhase::Found(h) => h <= self.top,
            _ => true,
        }
    }

    /// The state after an answer.
    pub open spec fn next(self, answer: Option<bool>) -> AncestorSearch {
        AncestorSearch {
            phase: match (self.phase, answer) {
                (SearchPhase::Top, Some(true)) => SearchPhase::Found(self.top),
                (SearchPhase::Top, Some(false)) => narrowed(0, self.top),
                (SearchPhase::Top, None) => SearchPhase::NoData { at: self.top, first: true },
                (SearchPhase::Middle { lo, hi, mid }, Some(true)) => narrowed(mid, hi),
                (SearchPhase::Middle { lo, hi, mid }, Some(false)) => narrowed(
                    lo,
                    (mid - 1) as u64,
                ),
                (SearchPhase::Middle { lo, hi, mid }, None) => SearchPhase::NoData {
                    at: mid,
                    first: false,
                },
                (p, _) => p,
            },
            ..self
        }
    }

    /// A search up to the lesser of our height and the height that the peer
    /// claims: above its claim a peer cannot be expected to answer.
    pub open spec fn start(our_height: u64, claim_height: u64) -> AncestorSearch {
        AncestorSearch {
            claim_height,
            top: if our_height < claim_height {
                our_height
            } else {
                claim_height
            },
            phase: SearchPhase::Top,
        }
    }

    /// A new search.
    pub fn new(our_height: u64, claim_height: u64) -> (r: Self)
        ensures
            r == AncestorSearch::start(our_height, claim_height),
            r.wf(),
    {
        AncestorSearch {
            claim_height,
            top: if our_height < claim_height {
                our_height
            } else {
                claim_height
            },
            phase: SearchPhase::Top,
        }
    }

    /// The height to compare next; none when the search is over.
    pub fn probe(&self) -> (r: Option<u64>)
        ensures
            r == self.probing(),
    {
        match self.phase {
            SearchPhase::Top => Some(self.top),
            SearchPhase::Middle { lo: _, hi: _, mid } => Some(mid),
            _ => None,
        }
    }

    fn narrow(&mut self, lo: u64, hi: u64)
        requires
            lo <= hi <= old(self).top,
        ensures
            *final(self) == (AncestorSearch { phase: narrowed(lo, hi), ..*old(self) }),
            final(self).wf(),
    {
        if lo < hi {
            let d: u64 = hi - lo;
            let half: u64 = d / 2 + d % 2;
            assert(half == (d + 1) / 2);
            self.phase = SearchPhase::Middle { lo, hi, mid: lo + half };
        } else {
            self.phase = SearchPhase::Found(lo);
        }
    }

    /// Takes the answer for the height that was compared.
    pub fn on_answer(&mut self, answer: Option<bool>)
        requires
            old(self).wf(),
            old(self).probing() is Some,
        ensures
            *final(self) == old(self).next(answer),
            final(self).wf(),
    {
        match (self.phase, answer) {
            (SearchPhase::Top, Some(true)) => {
                self.phase = SearchPhase::Found(self.top);
            },
            (SearchPhase::Top, Some(false)) => {
                let top: u64 = self.top;
                self.narrow(0, top);
            },
            (SearchPhase::Top, None) => {
                self.phase = SearchPhase::NoData { at: self.top, first: true };
            },
            (SearchPhase::Middle { lo: _, hi, mid }, Some(true)) => {
                self.narrow(mid, hi);
            },
            (SearchPhase::Middle { lo, hi: _, mid }, Some(false)) => {
                self.narrow(lo, mid - 1);
            },
            (SearchPhase::Middle { lo: _, hi: _, mid }, None) => {
                self.phase = SearchPhase::NoData { at: mid, first: false };
            },
            _ => {},
        }
    }

    /// The message for a peer that gave no answer.
    pub open spec fn no_data_text(self, at: u64, first: bool) -> Seq<char> {
        if first {
            "peer returned no data at initial ancestor probe (clamped height "@ + decimal(
                at as nat,
            ) + ", claim_height "@ + decimal(self.claim_height as nat) + "), bailing"@
        } else {
            "peer returned no data at ancestor midpoint (height "@ + decimal(at as nat)
                + "), bailing"@
        }
    }

    /// The height up to which the chains agree, or why it was not found.
    pub fn outcome(&self) -> (r: Option<Result<u64, String>>)
        ensures
            match self.phase {
                SearchPhase::Found(h) => r == Some(Ok::<u64, String>(h)),
                SearchPhase::NoData { at, first } => r matches Some(Err(e)) && e@ == self.no_data_text(
                    at,
                    first,
                ),
                _ => r is None,
            },
    {
        match self.phase {
            SearchPhase::Found(h) => Some(Ok(h)),
            SearchPhase::NoData { at: h, first } => {
                if first {
                    let mut s = cat_num(
                        "peer returned no data at initial ancestor probe (clamped height ",
                        h,
                        ", claim_height ",
                    );
                    push_decimal(&mut s, self.claim_height);
                    s.append("), bailing");
                    Some(Err(s))
                } else {
                    Some(
                        Err(
                            cat_num(
                                "peer returned no data at ancestor midpoint (height ",
                                h,
                                "), bailing",
                            ),
                        ),
                    )
                }
            },
            _ => None,
        }
    }
}

/// Two chains that agree at a height agree below it, and they agree at the
/// first block.
pub open spec fn shared_prefix(shared: spec_fn(u64) -> bool) -> bool {
    &&& shared(0)
    &&& forall|a: u64, b: u64| a <= b && #[trigger] shared(b) ==> #[trigger] shared(a)
}

/// What a search knows is true of two chains.
pub open spec fn search_sound(s: AncestorSearch, shared: spec_fn(u64) -> bool) -> bool {
    match s.phase {
        SearchPhase::Middle { lo, hi, .. } => shared(lo) && forall|h: u64|
            hi < h <= s.top ==> !#[trigger] shared(h),
        SearchPhase::Found(k) => shared(k) && forall|h: u64| k < h <= s.top ==> !#[trigger] shared(
            h,
        ),
        _ => true,
    }
}

/// How many heights a search has still to tell apart.
pub open spec fn search_span(s: AncestorSearch) -> nat {
    match s.phase {
        SearchPhase::Top => s.top as nat + 2,
        SearchPhase::Middle { lo, hi, .. } => (hi - lo) as nat + 1,
        _ => 0,
    }
}

/// With true answers a search stays true and comes closer to its end; so it
/// ends, and it ends at the last block that the chains share.
pub proof fn law_search_finds_last_shared_block(
    s: AncestorSearch,
    shared: spec_fn(u64) -> bool,
)
    requires
        shared_prefix(shared),
        s.wf(),
        search_sound(s, shared),
        s.probing() is Some,
    ensures
        search_sound(s.next(Some(shared(s.probing()->0))), shared),
        search_span(s.next(Some(shared(s.probing()->0)))) < search_span(s),
        s.next(Some(shared(s.probing()->0))).phase matches SearchPhase::Found(k) ==> shared(k)
            && forall|h: u64| k < h <= s.top ==> !#[trigger] shared(h),
{
    let h = s.probing()->0;
    let n = s.next(Some(shared(h)));
    if !shared(h) {
        assert forall|g: u64| h <= g <= s.top implies !#[trigger] shared(g) by {
            if shared(g) {
                assert(shared(h));
            }
        }
    }
}

/// The range halves with every answer, so a search takes no more answers than
/// its span has binary digits, and one for the top.
pub proof fn law_search_halves(lo: u64, hi: u64)
    requires
        lo < hi,
    ensures
        hi - upper_middle(lo, hi) <= (hi - lo) / 2,
        upper_middle(lo, hi) - 1 - lo <= (hi - lo) / 2,
{
}

} // verus!
