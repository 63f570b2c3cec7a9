//! What a download comes to.
use crate::ancestor::{probe_meaning, AncestorSearch};
use crate::chain::{Block, BlockHeader, ChainTip, Checkpoint};
use crate::errors::{FaultView, ProcessBlockOutcome};
use crate::events::{download_step_of, Awaited, PeerEvent};
use crate::hash::{Hash256, PeerId};
use crate::ibd::{
    good_batch, ibd_next_of, BatchParent, IbdBlockKind, IbdNext, IbdRun, RecoveryView,
};
use crate::stages::{
    batches_for, ids_between, pow_is_vouched_for, resumed, StageAOutcome, StageAView, StageBRun,
};
use vstd::prelude::*;

verus! {

/// No height above the checkpoint is ever fetched on the word of the
/// authenticated headers, and none that the peer does not claim to have. The
/// part that is begins with the next height and leaves out nothing that the
/// headers vouch for.
pub proof fn law_authenticated_part_ends_at_the_checkpoint(
    run: IbdRun,
    have_headers: bool,
    checkpoint: Checkpoint,
    h: int,
)
    ensures
        run.authenticated_part(have_headers, checkpoint) matches Some((start, end)) ==> {
            &&& start == run.current_height
            &&& start <= end
            &&& end <= checkpoint.height
            &&& end <= run.their_height
            &&& end == checkpoint.height || end == run.their_height
        },
        (run.authenticated_part(have_headers, checkpoint) matches Some((start, end)) && start <= h
            <= end) <==> have_headers && run.current_height <= h <= checkpoint.height && h
            <= run.their_height,
{
}

/// As long as heights are missing, headers are asked for from the next one on:
/// sixty-four, or as many as are missing.
pub proof fn law_missing_headers_are_asked_for(run: IbdRun)
    ensures
        run.request() is Some <==> run.current_height <= run.their_height,
        run.request() matches Some(q) ==> {
            &&& q.start_height == run.current_height
            &&& 1 <= q.max_count <= 64
            &&& q.start_height + q.max_count - 1 <= run.their_height
            &&& q.max_count < 64 ==> q.start_height + q.max_count - 1 == run.their_height
        },
{
}

/// A batch is taken exactly if it holds at least one header and no more than
/// asked for, one for each height from the first on, each naming the one before
/// as its parent, and the first naming what came before.
pub proof fn law_good_batch_continues_the_chain(
    s: Seq<BlockHeader>,
    current: u64,
    asked: u32,
    parent: BatchParent,
)
    ensures
        good_batch(s, current, asked, parent) <==> {
            &&& 1 <= s.len() <= asked
            &&& forall|i: int| 0 <= i < s.len() ==> (#[trigger] s[i]).height == current + i
            &&& forall|i: int| 0 < i < s.len() ==> s[i - 1].id == (#[trigger] s[i]).prev_block_id
            &&& !(parent matches BatchParent::Batch(id) && s[0].prev_block_id != id)
            &&& !(parent matches BatchParent::Chain(Some(id)) && s[0].prev_block_id != id)
        },
{
    if good_batch(s, current, asked, parent) {
        lemma_heights(s, current, s.len() as int);
    } else if 1 <= s.len() && (forall|i: int|
        0 <= i < s.len() ==> (#[trigger] s[i]).height == current + i) {
        assert(s[0].height == current);
        assert forall|i: int| 0 < i < s.len() implies (#[trigger] s[i]).height == s[i - 1].height
            + 1 by {
            assert(s[i - 1].height == current + (i - 1));
        }
    }
}

proof fn lemma_heights(s: Seq<BlockHeader>, current: u64, n: int)
    requires
        0 <= n <= s.len(),
        s.len() > 0,
        s[0].height == current,
        forall|i: int| 0 < i < s.len() ==> (#[trigger] s[i]).height == s[i - 1].height + 1,
    ensures
        forall|i: int| 0 <= i < n ==> (#[trigger] s[i]).height == current + i,
    decreases n,
{
    if n > 0 {
        lemma_heights(s, current, n - 1);
        if n > 1 {
            assert(s[n - 1].height == s[n - 2].height + 1);
        }
    }
}

/// After a block that was handled well a download goes on; only a block of the
/// batch whose ancestor is missing leads to the fetching of ancestors, from that
/// one down; and any other error ends the download.
pub proof fn law_download_ends_on_errors(
    kind: IbdBlockKind,
    result: Result<ProcessBlockOutcome, FaultView>,
    next: IbdNext,
)
    requires
        ibd_next_of(kind, result, next),
    ensures
        next is Continue <==> result is Ok,
        next matches IbdNext::Recover(id) ==> kind is Fetched && result == Err::<
            ProcessBlockOutcome,
            _,
        >(FaultView::MissingReorgAncestor(id)),
        (result matches Err(f) && !(kind is Fetched && f is MissingReorgAncestor)) <==> next
            is Fail,
{
}

/// The fetching of ancestors goes from parent to parent, until one is known or
/// there is none; nothing that was fetched is lost, and every byte counts.
pub proof fn law_ancestors_are_fetched_down_to_a_known_one(
    v: RecoveryView,
    block: Block,
    bytes: usize,
    parent_known: bool,
)
    requires
        v.inv(),
        !v.done,
        v.total_bytes + bytes <= 536_870_912,
    ensures
        ({
            let w = v.with_block(block, bytes, parent_known);
            &&& w.fetched.len() == v.fetched.len() + 1
            &&& w.fetched.drop_last() == v.fetched
            &&& w.fetched.last() == block
            &&& w.total_bytes == v.total_bytes + bytes
            &&& parent_known ==> w.done
            &&& !w.done ==> w.needed == block.header.prev_block_id
            &&& w.done ==> parent_known || w.fetched.len() == 4_320 || (forall|j: int|
                0 <= j < 32 ==> block.header.prev_block_id.0@[j] == 0)
        }),
{
    assert(v.fetched.push(block).drop_last() =~= v.fetched);
}

/// Work goes unchecked only if the operator trusts the checkpoint, the headers
/// up to it were authenticated, and the block is not above it.
pub proof fn law_work_is_checked_above_the_checkpoint(
    assume_valid: bool,
    verified: bool,
    height: u64,
    checkpoint: Checkpoint,
)
    ensures
        height > checkpoint.height ==> !pow_is_vouched_for(
            assume_valid,
            verified,
            height,
            checkpoint,
        ),
        !pow_is_vouched_for(false, verified, height, checkpoint),
        !pow_is_vouched_for(assume_valid, false, height, checkpoint),
        height <= checkpoint.height ==> pow_is_vouched_for(true, true, height, checkpoint),
{
}

/// A stored block of the chain above the tip becomes the tip, with its work if
/// that is known; any other leaves the tip as it is.
pub proof fn law_stored_block_of_the_chain_moves_the_tip(
    tip: ChainTip,
    header: BlockHeader,
    canonical: Option<Hash256>,
    work: Option<[u8; 32]>,
)
    ensures
        ({
            let t = resumed(tip, header, canonical, work);
            if canonical is Some && canonical->0 == header.id && header.height > tip.height {
                &&& t.block_id == header.id
                &&& t.height == header.height
                &&& work is Some ==> t.cumulative_work == work->0
                &&& work is None ==> t.cumulative_work == tip.cumulative_work
            } else {
                t == tip
            }
        }),
{
}

/// An answer with headers up to the checkpoint is taken exactly if it begins at
/// the height that is due, goes up by one from header to header, and each header
/// names the one before as its parent, across answers too. A peer is blamed only
/// for headers that do not hold together.
pub proof fn law_headers_to_the_checkpoint_are_a_chain(v: StageAView, batch: Seq<BlockHeader>)
    requires
        v.inv(),
    ensures
        ({
            let placed = batch.len() > 0 && batch[0].height == v.received * 64;
            let whole = v.headers + batch;
            &&& v.fault(batch) is None ==> placed && (forall|i: int|
                0 < i < whole.len() ==> whole[i - 1].id == (#[trigger] whole[i]).prev_block_id) && (
            forall|i: int|
                0 <= i < batch.len() ==> (#[trigger] batch[i]).height == v.received * 64 + i)
            &&& !placed <==> v.fault(batch) == Some(StageAOutcome::EmptyOrUncorrelatedResponse)
            &&& placed && v.fault(batch) is Some ==> v.fault(batch) == Some(
                StageAOutcome::DeliveredInvalidHeader,
            )
            &&& placed && (forall|i: int|
                0 < i < batch.len() ==> (#[trigger] batch[i]).height == batch[i - 1].height + 1
                    && batch[i].prev_block_id == batch[i - 1].id) && (v.headers.len() > 0
                ==> batch[0].prev_block_id == v.headers.last().id) ==> v.fault(batch) is None
        }),
{
    let whole = v.headers + batch;
    if v.fault(batch) is None {
        lemma_heights(batch, (v.received * 64) as u64, batch.len() as int);
        assert forall|i: int| 0 < i < whole.len() implies whole[i - 1].id == (
        #[trigger] whole[i]).prev_block_id by {
            if i < v.headers.len() {
                assert(whole[i] == v.headers[i] && whole[i - 1] == v.headers[i - 1]);
            } else if i == v.headers.len() {
                assert(whole[i - 1] == v.headers.last());
                assert(whole[i] == batch[0]);
            } else {
                let j = i - v.headers.len();
                assert(whole[i] == batch[j] && whole[i - 1] == batch[j - 1]);
            }
        }
    }
}

/// Requests for the headers up to the checkpoint follow each other without gap or
/// overlap, and no more than eight are under way.
pub proof fn law_headers_to_the_checkpoint_are_asked_for_in_turn(v: StageAView)
    requires
        v.inv(),
    ensures
        v.request() matches Some(h) ==> h == v.sent * 64 && v.sent < v.total && v.sent - v.received
            < 8,
        v.sent < v.total && v.sent == v.received ==> v.request() is Some,
{
}

/// Only headers that do not link, or that lead past the checkpoint, are a lie.
pub proof fn law_only_false_headers_are_a_lie(o: StageAOutcome)
    ensures
        o.is_lie() <==> o == StageAOutcome::DeliveredInvalidHeader || o
            == StageAOutcome::DeliveredForgedChain,
        !StageAOutcome::Timeout.is_lie() && !StageAOutcome::PeerDisconnected.is_lie()
            && !StageAOutcome::EmptyOrUncorrelatedResponse.is_lie()
            && !StageAOutcome::SendFailed.is_lie() && !StageAOutcome::Success.is_lie(),
{
}

/// A request for blocks up to the checkpoint asks for the next ones in turn, by
/// the ids that the authenticated headers give: a chunk of them, or what is left
/// of the range.
pub proof fn law_blocks_are_asked_for_by_authenticated_ids(
    run: StageBRun,
    headers: Seq<BlockHeader>,
    chunk: u64,
    i: int,
)
    requires
        run.inv(),
        run.request_due(),
        chunk > 0,
        run.end_height < headers.len(),
    ensures
        ({
            let ids = ids_between(headers, run.send_height as int, run.request_end(chunk) + 1);
            &&& 1 <= ids.len() <= chunk
            &&& run.send_height + ids.len() <= run.end_height + 1
            &&& ids.len() < chunk ==> run.send_height + ids.len() == run.end_height + 1
            &&& 0 <= i < ids.len() ==> ids[i] == headers[run.send_height + i].id
        }),
{
}

/// An answer to the question which block a peer has at a height tells something
/// only if it holds a header at that height and we have a block there: whether
/// the two are the same.
pub proof fn law_probe_compares_blocks(
    headers: Seq<BlockHeader>,
    height: u64,
    ours: Option<Hash256>,
)
    ensures
        headers.len() == 0 ==> probe_meaning(headers, height, ours) == Ok::<_, Seq<char>>(
            None::<bool>,
        ),
        headers.len() > 0 && headers[0].height != height ==> probe_meaning(headers, height, ours)
            is Err,
        headers.len() > 0 && headers[0].height == height ==> match ours {
            Some(id) => probe_meaning(headers, height, ours) == Ok::<_, Seq<char>>(
                Some(headers[0].id == id),
            ),
            None => probe_meaning(headers, height, ours) == Ok::<_, Seq<char>>(None::<bool>),
        },
{
}

/// While headers are awaited, those of the session are taken and those of other
/// sessions are of no use; the end of a session is always noted, and no
/// announced block is taken for an answer.
pub proof fn law_headers_are_taken_from_the_session(
    identity: PeerId,
    session: u64,
    event: PeerEvent,
)
    ensures
        ({
            let step = download_step_of(Awaited::Headers, identity, session, event);
            &&& event matches PeerEvent::HeadersResponse { from_identity, session_id, .. } ==> if from_identity
                == identity && session_id == session {
                step is Take
            } else {
                step is Discard
            }
            &&& event is Disconnected ==> step is Detach
            &&& step is Take ==> event is HeadersResponse
            &&& event is NewBlock ==> step is Background
        }),
{
}

/// The requests for all headers up to a height are as many as it takes at
/// sixty-four headers each.
pub proof fn law_headers_are_counted_in_batches(height: u64)
    ensures
        (batches_for(height) - 1) * 64 <= height < batches_for(height) * 64,
{
}

/// The first header of a batch has to name the last one of the batch before; that
/// of the first batch the block of our own chain below it.
pub proof fn law_batches_join(run: IbdRun, ours: Option<Hash256>)
    ensures
        run.prev_batch_tip matches Some(id) ==> run.parent(ours) == BatchParent::Batch(id),
        run.prev_batch_tip is None ==> run.parent(ours) == BatchParent::Chain(ours),
{
}

/// The search for the last shared block begins at the lower of the two tips.
pub proof fn law_search_begins_at_the_lower_tip(our_height: u64, claim_height: u64)
    ensures
        AncestorSearch::start(our_height, claim_height).probing() matches Some(h) ==> h
            <= our_height && h <= claim_height && (h == our_height || h == claim_height),
        our_height > 0 && claim_height > 0 ==> AncestorSearch::start(
            our_height,
            claim_height,
        ).probing() is Some,
{
}

} // verus!
