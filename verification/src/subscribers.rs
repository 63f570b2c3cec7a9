//! Headers on their way to those who asked for them.
use crate::assoc::AssocMap;
use crate::chain::BlockHeader;
use crate::hash::PeerId;
use crate::stages::MAX_IN_FLIGHT;
use crate::tip_validation::SessionKey;
use std::collections::VecDeque;
use vstd::prelude::*;

verus! {

/// How many batches wait for a subscriber. With more than the requests that
/// are under way at a time, no answer to them is lost.
pub const SUBSCRIBER_CAPACITY: usize = 32;

/// The batches that wait for each session with a subscriber.
pub struct HeadersSubscriberMap {
    boxes: AssocMap<SessionKey, VecDeque<Vec<BlockHeader>>>,
}

/// The batches that wait for each session.
pub type Mail = Map<SessionKey, Seq<Vec<BlockHeader>>>;

impl View for HeadersSubscriberMap {
    type V = Mail;

    closed spec fn view(&self) -> Mail {
        self.boxes@.map_values(|q: VecDeque<Vec<BlockHeader>>| q@)
    }
}

/// No more batches wait than there is room for.
pub open spec fn mail_inv(m: Mail) -> bool {
    forall|k: SessionKey| #[trigger] m.contains_key(k) ==> m[k].len() <= SUBSCRIBER_CAPACITY
}

/// What waits after a batch comes for a session. For a session without a
/// subscriber, and for one whose box is full, it is not kept.
pub open spec fn delivered(m: Mail, k: SessionKey, headers: Vec<BlockHeader>) -> Mail {
    if m.contains_key(k) && m[k].len() < SUBSCRIBER_CAPACITY {
        m.insert(k, m[k].push(headers))
    } else {
        m
    }
}

impl HeadersSubscriberMap {
    /// No session is held twice; see `mail_inv`.
    pub closed spec fn wf(&self) -> bool {
        self.boxes.wf() && mail_inv(self@)
    }

    /// What waits in well-formed boxes.
    pub proof fn lemma_mail(&self)
        requires
            self.wf(),
        ensures
            mail_inv(self@),
    {
    }

    pub fn new() -> (r: Self)
        ensures
            r.wf(),
            r@ == Mail::empty(),
    {
        let r = HeadersSubscriberMap { boxes: AssocMap::new() };
        assert(r@ =~= Mail::empty());
        r
    }
}

/// Starts a subscription of a session, without anything that waits.
pub fn install_headers_subscriber(map: &mut HeadersSubscriberMap, peer: PeerId, session_id: u64)
    requires
        old(map).wf(),
    ensures
        final(map).wf(),
        final(map)@ == old(map)@.insert(SessionKey { peer, session_id }, Seq::empty()),
{
    let k = SessionKey { peer, session_id };
    let prev = map.boxes.insert(k, VecDeque::new());
    assert(map@ =~= old(map)@.insert(k, Seq::empty()));
}

/// Ends a subscription.
pub fn remove_headers_subscriber(map: &mut HeadersSubscriberMap, peer: PeerId, session_id: u64)
    requires
        old(map).wf(),
    ensures
        final(map).wf(),
        final(map)@ == old(map)@.remove(SessionKey { peer, session_id }),
{
    let k = SessionKey { peer, session_id };
    let prev = map.boxes.remove(&k);
    assert(map@ =~= old(map)@.remove(k));
}

/// Hands headers to the subscriber of a session; whether there is one. They
/// are the subscriber's even if its box is full and they are dropped.
pub fn route_headers_if_subscribed(
    map: &mut HeadersSubscriberMap,
    peer: PeerId,
    session_id: u64,
    headers: Vec<BlockHeader>,
) -> (r: bool)
    requires
        old(map).wf(),
    ensures
        final(map).wf(),
        r == old(map)@.contains_key(SessionKey { peer, session_id }),
        final(map)@ == delivered(old(map)@, SessionKey { peer, session_id }, headers),
{
    let k = SessionKey { peer, session_id };
    let found = match map.boxes.get_mut(&k) {
        Some(q) => {
            if q.len() < SUBSCRIBER_CAPACITY {
                q.push_back(headers);
            }
            true
        },
        None => false,
    };
    assert(map@ =~= delivered(old(map)@, k, headers));
    found
}

/// What a subscriber finds.
pub enum BatchWait {
    /// The batch that came first.
    Batch(Vec<BlockHeader>),
    /// Nothing yet.
    Empty,
    /// The subscription has ended.
    Closed,
}

/// Takes the batch that came first for a session.
pub fn next_header_batch(map: &mut HeadersSubscriberMap, peer: PeerId, session_id: u64) -> (r:
    BatchWait)
    requires
        old(map).wf(),
    ensures
        final(map).wf(),
        ({
            let k = SessionKey { peer, session_id };
            match r {
                BatchWait::Batch(h) => {
                    &&& old(map)@.contains_key(k)
                    &&& old(map)@[k].len() > 0
                    &&& h == old(map)@[k][0]
                    &&& final(map)@ == old(map)@.insert(k, old(map)@[k].drop_first())
                },
                BatchWait::Empty => old(map)@.contains_key(k) && old(map)@[k].len() == 0
                    && final(map)@ == old(map)@,
                BatchWait::Closed => !old(map)@.contains_key(k) && final(map)@ == old(map)@,
            }
        }),
{
    let k = SessionKey { peer, session_id };
    let r = match map.boxes.get_mut(&k) {
        Some(q) => match q.pop_front() {
            Some(h) => BatchWait::Batch(h),
            None => BatchWait::Empty,
        },
        None => BatchWait::Closed,
    };
    proof {
        if r is Batch {
            assert(map@ =~= old(map)@.insert(k, old(map)@[k].drop_first()));
        } else {
            assert(map@ =~= old(map)@);
        }
        assert forall|x: SessionKey| #[trigger] map@.contains_key(x) implies map@[x].len()
            <= SUBSCRIBER_CAPACITY by {
            assert(old(map)@.contains_key(x));
        }
    }
    r
}

/// What waits after batches come for a session, one after the other.
pub open spec fn delivered_all(m: Mail, k: SessionKey, batches: Seq<Vec<BlockHeader>>) -> Mail
    decreases batches.len(),
{
    if batches.len() == 0 {
        m
    } else {
        delivered(delivered_all(m, k, batches.drop_last()), k, batches.last())
    }
}

/// No answer is lost: when a subscription starts with all the requests that may
/// be under way, the answers to all of them wait in the order in which they
/// came.
pub proof fn law_no_answer_is_lost(m: Mail, k: SessionKey, batches: Seq<Vec<BlockHeader>>)
    requires
        m.contains_key(k),
        m[k].len() == 0,
        batches.len() <= MAX_IN_FLIGHT,
    ensures
        delivered_all(m, k, batches) == m.insert(k, batches),
    decreases batches.len(),
{
    if batches.len() == 0 {
        assert(m[k] =~= batches);
        assert(m.insert(k, batches) =~= m);
    } else {
        let init = batches.drop_last();
        law_no_answer_is_lost(m, k, init);
        assert(init.push(batches.last()) =~= batches);
        assert(delivered_all(m, k, batches) =~= m.insert(k, batches));
    }
}

/// Headers for one session never come to another one.
pub proof fn law_subscribers_are_apart(
    m: Mail,
    k: SessionKey,
    other: SessionKey,
    headers: Vec<BlockHeader>,
)
    requires
        k != other,
    ensures
        delivered(m, k, headers).contains_key(other) == m.contains_key(other),
        m.contains_key(other) ==> delivered(m, k, headers)[other] == m[other],
{
}

} // verus!
