//! Which sessions a message goes to.
use crate::admission::session_of;
use crate::hash::{same_bytes, PeerId};
use crate::registry::{is_current, LogicalPeer, PeerRegistry, PeerSession};
use vstd::prelude::*;

verus! {

/// The sessions of a list of peers, in their order, without that of one peer.
pub open spec fn sessions_except(
    s: Seq<(PeerId, LogicalPeer)>,
    exclude: Option<PeerId>,
) -> Seq<(PeerId, PeerSession)>
    decreases s.len(),
{
    if s.len() == 0 {
        Seq::empty()
    } else {
        let rest = sessions_except(s.drop_last(), exclude);
        match s.last().1.session {
            Some(x) if exclude != Some(s.last().0) => rest.push((s.last().0, x)),
            _ => rest,
        }
    }
}

/// Whether a session is the current one of a peer.
pub fn is_current_session(registry: &PeerRegistry, identity: &PeerId, session_id: u64) -> (r: bool)
    requires
        registry.wf(),
    ensures
        r == is_current(registry@, *identity, session_id),
{
    match registry.get_by_identity(identity) {
        Some(p) => match p.session {
            Some(s) => s.session_id == session_id,
            None => false,
        },
        None => false,
    }
}

/// The session through which a peer is reached.
pub fn current_session(registry: &PeerRegistry, identity: &PeerId) -> (r: Option<PeerSession>)
    requires
        registry.wf(),
    ensures
        r == session_of(registry@, *identity),
{
    match registry.get_by_identity(identity) {
        Some(p) => p.session,
        None => None,
    }
}

/// The sessions that a broadcast goes to: all, but for that of the peer the
/// message came from.
pub fn broadcast_targets(registry: &PeerRegistry, exclude: Option<PeerId>) -> (r: Vec<
    (PeerId, PeerSession),
>)
    requires
        registry.wf(),
    ensures
        r@ == sessions_except(registry.by_identity.seq(), exclude),
{
    let n: usize = registry.by_identity.len();
    let ghost s = registry.by_identity.seq();
    let mut out: Vec<(PeerId, PeerSession)> = Vec::new();
    let mut i: usize = 0;
    assert(s.take(0) =~= Seq::empty());
    while i < n
        invariant
            s == registry.by_identity.seq(),
            n == s.len(),
            i <= n,
            out@ == sessions_except(s.take(i as int), exclude),
        decreases n - i,
    {
        let e = registry.by_identity.at(i);
        proof {
            assert(s.take(i + 1).drop_last() =~= s.take(i as int));
            assert(s.take(i + 1).last() == s[i as int]);
        }
        let wanted = match exclude {
            Some(x) => !same_bytes(&x, &e.0),
            None => true,
        };
        if let Some(x) = e.1.session {
            if wanted {
                out.push((e.0, x));
            }
        }
        i = i + 1;
    }
    assert(s.take(n as int) =~= s);
    out
}

proof fn lemma_sessions_except(s: Seq<(PeerId, LogicalPeer)>, exclude: Option<PeerId>)
    ensures
        forall|j: int|
            0 <= j < sessions_except(s, exclude).len() ==> {
                let e = #[trigger] sessions_except(s, exclude)[j];
                exclude != Some(e.0) && exists|i: int|
                    0 <= i < s.len() && (#[trigger] s[i]).0 == e.0 && s[i].1.session == Some(e.1)
            },
        forall|i: int|
            0 <= i < s.len() && (#[trigger] s[i]).1.session is Some && exclude != Some(s[i].0)
                ==> sessions_except(s, exclude).contains((s[i].0, s[i].1.session->0)),
    decreases s.len(),
{
    if s.len() > 0 {
        let t = s.drop_last();
        lemma_sessions_except(t, exclude);
        let a = sessions_except(t, exclude);
        let b = sessions_except(s, exclude);
        assert forall|j: int| 0 <= j < b.len() implies ({
            let e = #[trigger] b[j];
            exclude != Some(e.0) && exists|i: int|
                0 <= i < s.len() && (#[trigger] s[i]).0 == e.0 && s[i].1.session == Some(e.1)
        }) by {
            if j < a.len() {
                assert(b[j] == a[j]);
                let i = choose|i: int|
                    0 <= i < t.len() && (#[trigger] t[i]).0 == a[j].0 && t[i].1.session == Some(
                        a[j].1,
                    );
                assert(s[i] == t[i]);
            } else {
                assert(s[s.len() - 1].0 == b[j].0);
            }
        }
        assert forall|i: int|
            0 <= i < s.len() && (#[trigger] s[i]).1.session is Some && exclude != Some(
                s[i].0,
            ) implies b.contains((s[i].0, s[i].1.session->0)) by {
            if i < t.len() {
                assert(t[i] == s[i]);
                let j = choose|j: int| 0 <= j < a.len() && a[j] == (s[i].0, s[i].1.session->0);
                assert(b[j] == a[j]);
            } else {
                assert(b[a.len() as int] == (s[i].0, s[i].1.session->0));
            }
        }
    }
}

/// A broadcast reaches every session but that of the excluded peer, and no
/// other.
pub proof fn law_broadcast_reaches_everybody(
    registry: &PeerRegistry,
    exclude: Option<PeerId>,
    identity: PeerId,
    session: PeerSession,
)
    requires
        registry.wf(),
    ensures
        sessions_except(registry.by_identity.seq(), exclude).contains((identity, session))
            <==> exclude != Some(identity) && session_of(registry@, identity) == Some(session),
{
    let s = registry.by_identity.seq();
    registry.by_identity.lemma_seq();
    lemma_sessions_except(s, exclude);
    let b = sessions_except(s, exclude);
    if b.contains((identity, session)) {
        let j = choose|j: int| 0 <= j < b.len() && b[j] == (identity, session);
        assert(exclude != Some(b[j].0));
        let i = choose|i: int|
            0 <= i < s.len() && (#[trigger] s[i]).0 == identity && s[i].1.session == Some(session);
        assert(registry.by_identity@.contains_key(s[i].0));
        assert(registry@.peers[identity] == s[i].1@);
    }
    if exclude != Some(identity) && session_of(registry@, identity) == Some(session) {
        assert(registry.by_identity@.contains_key(identity));
        assert(crate::assoc::has_key(s, identity));
        let i = crate::assoc::key_pos(s, identity);
        crate::assoc::lemma_entry(s, i);
        assert(s[i].1.session == Some(session));
    }
}

} // verus!
