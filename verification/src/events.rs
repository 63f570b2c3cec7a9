//! What peers report to the synchroniser.
use crate::chain::{Block, BlockHeader};
use crate::hash::{same_bytes, Hash256, PeerId};
use crate::net::SocketAddr;
use vstd::prelude::*;

verus! {

/// A report of a session.
pub enum PeerEvent {
    Connected { identity: PeerId, session_id: u64 },
    Disconnected { identity: PeerId, session_id: u64 },
    NewBlock {
        from: SocketAddr,
        from_identity: PeerId,
        session_id: u64,
        block: Block,
        pre_validated: bool,
    },
    BlockResponse {
        from: SocketAddr,
        from_identity: PeerId,
        session_id: u64,
        block: Block,
        pre_validated: bool,
    },
    HeadersResponse { from_identity: PeerId, session_id: u64, headers: Vec<BlockHeader> },
    TipResponse {
        from_identity: PeerId,
        session_id: u64,
        height: u64,
        block_id: Hash256,
        cumulative_work: [u8; 32],
    },
}

/// A request for headers.
#[derive(Clone, Copy, Debug)]
pub struct GetHeadersMsg {
    pub start_height: u64,
    pub max_count: u32,
}

/// What a node asks of a peer.
pub enum Message {
    GetTip,
    GetHeaders(GetHeadersMsg),
    GetBlocks(Vec<Hash256>),
}

/// Whether the node follows the chain or is still far behind.
#[derive(Debug, Clone, Copy, PartialEq, Eq, Structural)]
pub enum SyncState {
    /// Far behind: blocks are fetched in bulk.
    CatchingUp,
    /// On the chain: blocks come one by one.
    Live,
}

/// What a download from one session waits for.
#[derive(Clone, Copy, Debug)]
pub enum Awaited {
    Headers,
    /// A block. Where `strict`, its id was authenticated before the session was
    /// asked, and the session may answer with no other block.
    Block { id: Hash256, strict: bool },
}

/// What is to be done with an event that comes in during a download.
#[derive(Clone, Copy, Debug, PartialEq, Eq, Structural)]
pub enum DownloadStep {
    /// It is the answer.
    Take,
    /// It is of no use.
    Discard,
    /// It is a block like any other.
    Intake,
    /// The session has answered with another block than the authenticated one:
    /// it gets a strike, and the download ends.
    DeliveredWrongBlockForRequestedId,
    /// A session has ended.
    Detach,
    /// It is none of the download's business.
    Background,
}

/// What is to be done with an event while `awaited` is awaited from a session.
///
/// Outside strict mode a block of the session that is not the awaited one is
/// no reason to give up: it may answer an earlier request. It is handled like
/// any block. In strict mode it ends the download. A block of another peer, or
/// of an earlier session, is handled like any block in both modes.
pub open spec fn download_step_of(
    awaited: Awaited,
    identity: PeerId,
    session: u64,
    event: PeerEvent,
) -> DownloadStep {
    match event {
        PeerEvent::HeadersResponse { from_identity, session_id, .. } => match awaited {
            Awaited::Headers => if from_identity == identity && session_id == session {
                DownloadStep::Take
            } else {
                DownloadStep::Discard
            },
            Awaited::Block { .. } => DownloadStep::Background,
        },
        PeerEvent::BlockResponse { from_identity, session_id, block, .. } => match awaited {
            Awaited::Headers => DownloadStep::Background,
            Awaited::Block { id, strict } => if from_identity != identity || session_id != session {
                DownloadStep::Intake
            } else if block.header.id == id {
                DownloadStep::Take
            } else if strict {
                DownloadStep::DeliveredWrongBlockForRequestedId
            } else {
                DownloadStep::Intake
            },
        },
        PeerEvent::Disconnected { .. } => DownloadStep::Detach,
        _ => DownloadStep::Background,
    }
}

/// What is to be done with an event that comes in during a download.
pub fn download_step(awaited: &Awaited, identity: &PeerId, session: u64, event: &PeerEvent) -> (r:
    DownloadStep)
    ensures
        r == download_step_of(*awaited, *identity, session, *event),
{
    match event {
        PeerEvent::HeadersResponse { from_identity, session_id, .. } => match awaited {
            Awaited::Headers => if same_bytes(from_identity, identity) && *session_id == session {
                DownloadStep::Take
            } else {
                DownloadStep::Discard
            },
            Awaited::Block { .. } => DownloadStep::Background,
        },
        PeerEvent::BlockResponse { from_identity, session_id, block, .. } => match awaited {
            Awaited::Headers => DownloadStep::Background,
            Awaited::Block { id, strict } => if !same_bytes(from_identity, identity) || *session_id
                != session {
                DownloadStep::Intake
            } else if block.header.id == *id {
                DownloadStep::Take
            } else if *strict {
                DownloadStep::DeliveredWrongBlockForRequestedId
            } else {
                DownloadStep::Intake
            },
        },
        PeerEvent::Disconnected { .. } => DownloadStep::Detach,
        _ => DownloadStep::Background,
    }
}

/// Whether the end of a session ends a download from `identity`.
pub fn ends_download(identity: &PeerId, gone: &PeerId) -> (r: bool)
    ensures
        r == (*identity == *gone),
{
    same_bytes(identity, gone)
}

/// Only the awaited block, from the session that was asked, is ever taken for
/// the answer.
pub proof fn law_only_awaited_block_is_taken(
    id: Hash256,
    strict: bool,
    identity: PeerId,
    session: u64,
    event: PeerEvent,
)
    requires
        download_step_of(Awaited::Block { id, strict }, identity, session, event) is Take,
    ensures
        event matches PeerEvent::BlockResponse { from_identity, session_id, block, .. }
            && from_identity == identity && session_id == session && block.header.id == id,
{
}

/// In strict mode a session that was asked for an authenticated block can only
/// deliver that block or fail; and it fails for nothing but another block of
/// its own.
pub proof fn law_strict_session_delivers_or_fails(
    id: Hash256,
    identity: PeerId,
    session: u64,
    event: PeerEvent,
)
    ensures
        ({
            let own = event matches PeerEvent::BlockResponse { from_identity, session_id, .. }
                && from_identity == identity && session_id == session;
            let step = download_step_of(
                Awaited::Block { id, strict: true },
                identity,
                session,
                event,
            );
            let lenient = download_step_of(
                Awaited::Block { id, strict: false },
                identity,
                session,
                event,
            );
            &&& own ==> step is Take || step is DeliveredWrongBlockForRequestedId
            &&& step is DeliveredWrongBlockForRequestedId <==> own && (event matches
                PeerEvent::BlockResponse { block, .. } && block.header.id != id)
            &&& !(step is DeliveredWrongBlockForRequestedId) ==> step == lenient
            &&& step is DeliveredWrongBlockForRequestedId ==> lenient is Intake
        }),
{
}

} // verus!
