//! Fetching the chain below the checkpoint: first its headers, which are
//! authenticated against the checkpoint, then the blocks that they name.
use crate::chain::{BlockHeader, ChainTip, Checkpoint, MAX_GETBLOCKS_ITEMS};
use crate::clock::{age, within_secs, SECOND};
use crate::events::Awaited;
use crate::hash::{Hash256, PeerId};
use crate::registry::{PeerRegistry, PeerTip, PeerView, RegistryView};
use crate::text::{cat_num, decimal};
use vstd::prelude::*;
use vstd::string::*;

verus! {

/// How many header requests are under way at a time.
pub const MAX_IN_FLIGHT: usize = 8;

/// How many block requests are under way at a time.
pub const MAX_CHUNKS_IN_FLIGHT: usize = 8;

/// How long the headers may fail to come, in seconds.
pub const STAGE_A_PROGRESS_TIMEOUT_SECS: u64 = 120;

/// The answers asked for per minute, in bytes.
pub const PACING_CEILING_BYTES_PER_MIN: usize = 14_680_064;

/// The likely size of an answer with headers, in bytes.
pub const ESTIMATED_RESPONSE_BYTES_PER_BATCH: usize = 12_900;

/// The likely size of a block, in bytes.
pub const ESTIMATED_BLOCK_SERIALIZED_BYTES: usize = 1_200;

/// How close to our own height a block has to be for its timestamp to be held
/// against the clock.
pub const IBD_DRIFT_WINDOW: u64 = 20;

// ---------------------------------------------------------------------------
// Headers
// ---------------------------------------------------------------------------
/// How the fetching of headers ended.
#[derive(Debug, Clone, Copy, PartialEq, Eq, Structural)]
pub enum StageAOutcome {
    /// The headers are authentic.
    Success,
    /// No headers came for too long.
    Timeout,
    /// The session ended.
    PeerDisconnected,
    /// An answer was empty, or did not fit the request that was due. That may
    /// happen to an honest peer.
    EmptyOrUncorrelatedResponse,
    /// A header does not link to the one before it.
    DeliveredInvalidHeader,
    /// The headers lead to another block than the checkpoint.
    DeliveredForgedChain,
    /// A request could not be sent.
    SendFailed,
}

impl StageAOutcome {
    /// Whether the peer is provably to blame.
    pub open spec fn is_lie(self) -> bool {
        self is DeliveredInvalidHeader || self is DeliveredForgedChain
    }

    /// Whether the peer is provably to blame.
    pub fn earns_strike(&self) -> (r: bool)
        ensures
            r == self.is_lie(),
    {
        match self {
            StageAOutcome::DeliveredInvalidHeader => true,
            StageAOutcome::DeliveredForgedChain => true,
            _ => false,
        }
    }
}

/// Whether each header names the one before it as its parent.
pub open spec fn linked(s: Seq<BlockHeader>) -> bool {
    forall|i: int| 0 < i < s.len() ==> (#[trigger] s[i]).prev_block_id == s[i - 1].id
}

/// Whether each header is one above the one before it.
pub open spec fn contiguous(s: Seq<BlockHeader>) -> bool {
    forall|i: int| 0 < i < s.len() ==> (#[trigger] s[i]).height == s[i - 1].height + 1
}

/// Whether a batch of headers holds together and continues what came before.
pub open spec fn batch_links(batch: Seq<BlockHeader>, prev: Option<BlockHeader>) -> bool {
    &&& contiguous(batch)
    &&& linked(batch)
    &&& prev matches Some(p) ==> batch.len() > 0 ==> batch[0].prev_block_id == p.id
}

/// Checks that a batch of headers holds together and continues what came
/// before.
pub fn verify_stage_a_batch_linkage(
    batch: &[BlockHeader],
    prev_last: Option<&BlockHeader>,
) -> (r: Result<(), StageAOutcome>)
    ensures
        r == (if batch_links(
            batch@,
            match prev_last {
                Some(p) => Some(*p),
                None => None,
            },
        ) {
            Ok(())
        } else {
            Err(StageAOutcome::DeliveredInvalidHeader)
        }),
{
    let mut i: usize = 1;
    while i < batch.len()
        invariant
            1 <= i,
            i <= batch@.len() || batch@.len() == 0,
            forall|j: int|
                0 < j < i && j < batch@.len() ==> (#[trigger] batch@[j]).height == batch@[j
                    - 1].height + 1 && batch@[j].prev_block_id == batch@[j - 1].id,
        decreases batch@.len() - i,
    {
        let below = batch[i - 1].height;
        if batch[i].height <= below || batch[i].height - below != 1 {
            assert(!contiguous(batch@)) by {
                assert(batch@[i as int].height != batch@[i - 1].height + 1);
            }
            return Err(StageAOutcome::DeliveredInvalidHeader);
        }
        if batch[i].prev_block_id != batch[i - 1].block_id() {
            assert(!linked(batch@)) by {
                assert(batch@[i as int].prev_block_id != batch@[i - 1].id);
            }
            return Err(StageAOutcome::DeliveredInvalidHeader);
        }
        i = i + 1;
    }
    match prev_last {
        Some(prev) => {
            if batch.len() > 0 && batch[0].prev_block_id != prev.block_id() {
                return Err(StageAOutcome::DeliveredInvalidHeader);
            }
        },
        None => {},
    }
    Ok(())
}

/// Checks that a list of headers, one per height from zero on, reaches the
/// checkpoint and leads to it.
pub fn verify_stage_a_anchor(headers: &[BlockHeader], checkpoint: &Checkpoint) -> (r: Result<
    (),
    StageAOutcome,
>)
    ensures
        r == (if headers@.len() <= checkpoint.height {
            Err(StageAOutcome::EmptyOrUncorrelatedResponse)
        } else if headers@[checkpoint.height as int].id != checkpoint.hash {
            Err(StageAOutcome::DeliveredForgedChain)
        } else {
            Ok(())
        }),
{
    if headers.len() as u64 <= checkpoint.height {
        return Err(StageAOutcome::EmptyOrUncorrelatedResponse);
    }
    if headers[checkpoint.height as usize].block_id() != checkpoint.hash {
        return Err(StageAOutcome::DeliveredForgedChain);
    }
    Ok(())
}

/// How many requests it takes to fetch the headers up to a height.
pub open spec fn batches_for(height: u64) -> int {
    (height + 1 + MAX_GETBLOCKS_ITEMS - 1) / (MAX_GETBLOCKS_ITEMS as int)
}

/// How many requests it takes to fetch the headers up to a height.
pub fn stage_a_batches(height: u64) -> (r: u64)
    ensures
        r == batches_for(height),
{
    height / 64 + 1
}

/// The fetching of headers up to the checkpoint.
pub struct StageARun {
    /// How many requests it takes.
    pub total: u64,
    /// How many were sent.
    pub sent: u64,
    /// How many were answered.
    pub received: u64,
    pub headers: Vec<BlockHeader>,
    /// When the last answer came.
    pub last_progress: u64,
}

/// What a `StageARun` holds.
pub ghost struct StageAView {
    pub total: u64,
    pub sent: u64,
    pub received: u64,
    pub headers: Seq<BlockHeader>,
    pub last_progress: u64,
}

impl View for StageARun {
    type V = StageAView;

    open spec fn view(&self) -> StageAView {
        StageAView {
            total: self.total,
            sent: self.sent,
            received: self.received,
            headers: self.headers@,
            last_progress: self.last_progress,
        }
    }
}

impl StageAView {
    /// No more was answered than asked, no more is under way than may be, and
    /// the headers are linked.
    pub open spec fn inv(self) -> bool {
        &&& self.total <= u64::MAX / 64
        &&& self.received <= self.sent <= self.total
        &&& self.sent - self.received <= MAX_IN_FLIGHT
        &&& linked(self.headers)
        &&& self.received == 0 <==> self.headers.len() == 0
    }

    /// The height from which the next request asks for headers, if one is due.
    pub open spec fn request(self) -> Option<u64> {
        if self.sent - self.received < MAX_IN_FLIGHT && self.sent < self.total {
            Some((self.sent * MAX_GETBLOCKS_ITEMS) as u64)
        } else {
            None
        }
    }

    /// What is wrong with an answer.
    pub open spec fn fault(self, batch: Seq<BlockHeader>) -> Option<StageAOutcome> {
        if batch.len() == 0 || batch[0].height != self.received * MAX_GETBLOCKS_ITEMS {
            Some(StageAOutcome::EmptyOrUncorrelatedResponse)
        } else if !batch_links(
            batch,
            if self.received > 0 {
                Some(self.headers.last())
            } else {
                None
            },
        ) {
            Some(StageAOutcome::DeliveredInvalidHeader)
        } else {
            None
        }
    }
}

proof fn lemma_linked_extend(a: Seq<BlockHeader>, b: Seq<BlockHeader>)
    requires
        linked(a),
        linked(b),
        a.len() > 0 && b.len() > 0 ==> b[0].prev_block_id == a.last().id,
    ensures
        linked(a + b),
{
    let c = a + b;
    assert forall|i: int| 0 < i < c.len() implies (#[trigger] c[i]).prev_block_id == c[i
        - 1].id by {
        if i < a.len() {
            assert(c[i] == a[i] && c[i - 1] == a[i - 1]);
        } else if i == a.len() {
            assert(c[i] == b[0] && c[i - 1] == a.last());
        } else {
            assert(c[i] == b[i - a.len()] && c[i - 1] == b[i - a.len() - 1]);
        }
    }
}

impl StageARun {
    /// The start of a run towards a checkpoint.
    pub fn new(checkpoint: &Checkpoint, now: u64) -> (r: Self)
        requires
            checkpoint.height < u64::MAX - 64,
        ensures
            r@ == (StageAView {
                total: batches_for(checkpoint.height) as u64,
                sent: 0,
                received: 0,
                headers: Seq::empty(),
                last_progress: now,
            }),
            r@.inv(),
    {
        StageARun {
            total: stage_a_batches(checkpoint.height),
            sent: 0,
            received: 0,
            headers: Vec::new(),
            last_progress: now,
        }
    }

    /// Whether the run has to be given up: the node is being shut down, no
    /// headers came for too long, or the session ended.
    pub fn check(&self, now: u64, shutdown: bool, connected: bool) -> (r: Option<StageAOutcome>)
        ensures
            r == (if shutdown || age(now, self@.last_progress) >= STAGE_A_PROGRESS_TIMEOUT_SECS
                * SECOND {
                Some(StageAOutcome::Timeout)
            } else if !connected {
                Some(StageAOutcome::PeerDisconnected)
            } else {
                None
            }),
    {
        if shutdown || !within_secs(now, self.last_progress, STAGE_A_PROGRESS_TIMEOUT_SECS) {
            Some(StageAOutcome::Timeout)
        } else if !connected {
            Some(StageAOutcome::PeerDisconnected)
        } else {
            None
        }
    }

    /// The height from which the next request asks for headers, if one is due.
    pub fn next_request(&self) -> (r: Option<u64>)
        requires
            self@.inv(),
        ensures
            r == self@.request(),
    {
        if self.sent - self.received < MAX_IN_FLIGHT as u64 && self.sent < self.total {
            Some(self.sent * 64)
        } else {
            None
        }
    }

    /// Notes that the request that was due has been sent.
    pub fn on_sent(&mut self)
        requires
            old(self)@.inv(),
            old(self)@.request() is Some,
        ensures
            final(self)@ == (StageAView { sent: (old(self)@.sent + 1) as u64, ..old(self)@ }),
            final(self)@.inv(),
    {
        self.sent = self.sent + 1;
    }

    /// Whether every request has been answered.
    pub fn is_complete(&self) -> (r: bool)
        ensures
            r == (self@.received >= self@.total),
    {
        self.received >= self.total
    }

    /// Takes an answer.
    pub fn on_batch(&mut self, batch: Vec<BlockHeader>, now: u64) -> (r: Result<
        (),
        StageAOutcome,
    >)
        requires
            old(self)@.inv(),
            old(self)@.received < old(self)@.sent,
        ensures
            final(self)@.inv(),
            match old(self)@.fault(batch@) {
                Some(o) => r == Err::<(), _>(o) && final(self)@ == old(self)@,
                None => r == Ok::<_, StageAOutcome>(()) && final(self)@ == (StageAView {
                    received: (old(self)@.received + 1) as u64,
                    headers: old(self)@.headers + batch@,
                    last_progress: now,
                    ..old(self)@
                }),
            },
    {
        if batch.len() == 0 {
            return Err(StageAOutcome::EmptyOrUncorrelatedResponse);
        }
        let expected_start: u64 = self.received * 64;
        if batch[0].height != expected_start {
            return Err(StageAOutcome::EmptyOrUncorrelatedResponse);
        }
        let prev = if self.received > 0 {
            Some(&self.headers[self.headers.len() - 1])
        } else {
            None
        };
        match verify_stage_a_batch_linkage(batch.as_slice(), prev) {
            Err(e) => {
                return Err(e);
            },
            Ok(()) => {},
        }
        proof {
            lemma_linked_extend(self.headers@, batch@);
        }
        let mut batch = batch;
        self.headers.append(&mut batch);
        self.received = self.received + 1;
        self.last_progress = now;
        Ok(())
    }

    /// The headers, once every request has been answered and they lead to the
    /// checkpoint.
    pub fn finish(self, checkpoint: &Checkpoint) -> (r: Result<Vec<BlockHeader>, StageAOutcome>)
        requires
            self@.inv(),
        ensures
            match r {
                Ok(h) => h@ == self@.headers && linked(h@) && h@.len() > checkpoint.height
                    && h@[checkpoint.height as int].id == checkpoint.hash,
                Err(StageAOutcome::EmptyOrUncorrelatedResponse) => self@.headers.len()
                    <= checkpoint.height,
                Err(StageAOutcome::DeliveredForgedChain) => self@.headers.len() > checkpoint.height
                    && self@.headers[checkpoint.height as int].id != checkpoint.hash,
                Err(_) => false,
            },
    {
        match verify_stage_a_anchor(self.headers.as_slice(), checkpoint) {
            Err(e) => Err(e),
            Ok(()) => Ok(self.headers),
        }
    }
}

/// Headers of two lists that have the same id are the same.
pub open spec fn ids_tell_headers_apart(a: Seq<BlockHeader>, b: Seq<BlockHeader>) -> bool {
    forall|i: int, j: int|
        0 <= i < a.len() && 0 <= j < b.len() && (#[trigger] a[i]).id == (#[trigger] b[j]).id
            ==> a[i] == b[j]
}

/// Two linked lists of headers that lead to the same block agree below it. So
/// headers that lead to the checkpoint are the headers of its chain, whoever
/// sent them.
pub proof fn law_checkpoint_authenticates_headers(
    a: Seq<BlockHeader>,
    b: Seq<BlockHeader>,
    height: int,
    at: int,
)
    requires
        ids_tell_headers_apart(a, b),
        linked(a),
        linked(b),
        0 <= at <= height < a.len(),
        height < b.len(),
        a[height].id == b[height].id,
    ensures
        a[at] == b[at],
    decreases height - at,
{
    if at == height {
    } else {
        law_checkpoint_authenticates_headers(a, b, height, at + 1);
        assert(a[at + 1].prev_block_id == a[at].id);
        assert(b[at + 1].prev_block_id == b[at].id);
    }
}

/// The answers to all requests cover every height up to the checkpoint, and no
/// request is sent that is not needed.
pub proof fn law_batches_cover_the_chain(height: u64)
    ensures
        (batches_for(height) - 1) * MAX_GETBLOCKS_ITEMS <= height,
        height < batches_for(height) * MAX_GETBLOCKS_ITEMS,
{
}

// ---------------------------------------------------------------------------
// Blocks
// ---------------------------------------------------------------------------
/// The fetching of the blocks that authenticated headers name.
pub struct StageBRun {
    /// The height whose block is due next.
    pub next_height: u64,
    /// The height from which the next request asks for blocks.
    pub send_height: u64,
    /// The last height to fetch.
    pub end_height: u64,
    /// How many blocks each request under way is still to bring, the oldest
    /// request first.
    pub in_flight: Vec<u64>,
}

/// The sum of a list of counts.
pub open spec fn total_of(s: Seq<u64>) -> nat
    decreases s.len(),
{
    if s.len() == 0 {
        0
    } else {
        s[0] as nat + total_of(s.drop_first())
    }
}

proof fn lemma_total_push(s: Seq<u64>, x: u64)
    ensures
        total_of(s.push(x)) == total_of(s) + x,
    decreases s.len(),
{
    if s.len() == 0 {
        assert(s.push(x).drop_first() =~= Seq::<u64>::empty());
        assert(total_of(s.push(x).drop_first()) == 0);
    } else {
        assert(s.push(x).drop_first() =~= s.drop_first().push(x));
        lemma_total_push(s.drop_first(), x);
    }
}

/// The message for a header that is not there.
pub open spec fn missing_header_text(h: u64) -> Seq<char> {
    "Stage A vector missing header at height "@ + decimal(h as nat) + ""@
}

/// The ids of the headers from one position up to another.
pub open spec fn ids_between(headers: Seq<BlockHeader>, from: int, to: int) -> Seq<Hash256> {
    Seq::new((to - from) as nat, |i: int| headers[from + i].id)
}

impl StageBRun {
    /// The requests under way bring the blocks from the one that is due up to
    /// the one that the next request starts with.
    pub open spec fn inv(self) -> bool {
        &&& self.end_height < u64::MAX
        &&& self.next_height <= self.send_height
        &&& self.in_flight@.len() <= MAX_CHUNKS_IN_FLIGHT
        &&& total_of(self.in_flight@) == self.send_height - self.next_height
        &&& forall|i: int| 0 <= i < self.in_flight@.len() ==> #[trigger] self.in_flight@[i] > 0
    }

    /// Whether a request is due.
    pub open spec fn request_due(self) -> bool {
        self.in_flight@.len() < MAX_CHUNKS_IN_FLIGHT && self.send_height <= self.end_height
    }

    /// The last height of the request that is due.
    pub open spec fn request_end(self, chunk: u64) -> int {
        if self.send_height + chunk - 1 < self.end_height {
            self.send_height + chunk - 1
        } else {
            self.end_height as int
        }
    }

    pub fn new(start_height: u64, end_height: u64) -> (r: Self)
        requires
            end_height < u64::MAX,
        ensures
            r.inv(),
            r.next_height == start_height,
            r.send_height == start_height,
            r.end_height == end_height,
            r.in_flight@ == Seq::<u64>::empty(),
    {
        StageBRun {
            next_height: start_height,
            send_height: start_height,
            end_height,
            in_flight: Vec::new(),
        }
    }

    /// The ids to ask for next, if a request is due. At most `chunk` ids go
    /// into one request.
    pub fn next_request(&self, headers: &Vec<BlockHeader>, chunk: u64) -> (r: Result<
        Option<Vec<Hash256>>,
        String,
    >)
        requires
            self.inv(),
            chunk > 0,
        ensures
            if !self.request_due() {
                r == Ok::<Option<Vec<Hash256>>, String>(None)
            } else if self.request_end(chunk) < headers@.len() {
                r matches Ok(Some(ids)) && ids@ == ids_between(
                    headers@,
                    self.send_height as int,
                    self.request_end(chunk) + 1,
                )
            } else if self.send_height >= headers@.len() {
                r matches Err(e) && e@ == missing_header_text(self.send_height)
            } else {
                r matches Err(e) && e@ == missing_header_text(headers@.len() as u64)
            },
    {
        if self.in_flight.len() >= MAX_CHUNKS_IN_FLIGHT || self.send_height > self.end_height {
            return Ok(None);
        }
        let room: u64 = self.end_height - self.send_height;
        let last: u64 = if chunk - 1 < room {
            self.send_height + (chunk - 1)
        } else {
            self.end_height
        };
        let mut ids: Vec<Hash256> = Vec::new();
        let mut h: u64 = self.send_height;
        while h <= last
            invariant
                self.send_height <= h <= last + 1,
                last == self.request_end(chunk),
                last < u64::MAX,
                h <= headers@.len() || h == self.send_height,
                ids@ == ids_between(headers@, self.send_height as int, h as int),
                self.request_due(),
            decreases last + 1 - h,
        {
            if h >= headers.len() as u64 {
                return Err(cat_num("Stage A vector missing header at height ", h, ""));
            }
            ids.push(headers[h as usize].block_id());
            h = h + 1;
            assert(ids@ =~= ids_between(headers@, self.send_height as int, h as int));
        }
        Ok(Some(ids))
    }

    /// Notes that the request that was due has been sent, for `count` blocks.
    pub fn on_sent(&mut self, count: u64)
        requires
            old(self).inv(),
            old(self).request_due(),
            count > 0,
            old(self).send_height + count <= old(self).end_height + 1,
        ensures
            final(self).inv(),
            final(self).next_height == old(self).next_height,
            final(self).send_height == old(self).send_height + count,
            final(self).end_height == old(self).end_height,
            final(self).in_flight@ == old(self).in_flight@.push(count),
    {
        proof {
            lemma_total_push(self.in_flight@, count);
        }
        self.in_flight.push(count);
        self.send_height = self.send_height + count;
    }

    /// The id of the block that is due, while one is under way.
    pub fn expected(&self, headers: &Vec<BlockHeader>) -> (r: Option<Hash256>)
        requires
            self.inv(),
            self.send_height <= headers@.len(),
        ensures
            self.in_flight@.len() == 0 ==> r is None,
            self.in_flight@.len() > 0 ==> r == Some(headers@[self.next_height as int].id),
    {
        if self.in_flight.len() == 0 {
            return None;
        }
        assert(self.in_flight@[0] > 0);
        let known: usize = headers.len();
        assert(self.next_height < known);
        Some(headers[self.next_height as usize].block_id())
    }

    /// What the download waits for, while a block is under way: the block whose
    /// id the authenticated headers give, and no other.
    pub fn awaited(&self, headers: &Vec<BlockHeader>) -> (r: Option<Awaited>)
        requires
            self.inv(),
            self.send_height <= headers@.len(),
        ensures
            self.in_flight@.len() == 0 ==> r is None,
            self.in_flight@.len() > 0 ==> r == Some(
                Awaited::Block { id: headers@[self.next_height as int].id, strict: true },
            ),
    {
        match self.expected(headers) {
            Some(id) => Some(Awaited::Block { id, strict: true }),
            None => None,
        }
    }

    /// Whether the work of the block that has come goes unchecked. It does only
    /// if the checkpoint vouches for its height and the authenticated headers
    /// give its id.
    pub fn skips_pow(
        &self,
        headers: &Vec<BlockHeader>,
        header: &BlockHeader,
        assume_valid: bool,
        verified: bool,
        checkpoint: &Checkpoint,
    ) -> (r: bool)
        requires
            self.inv(),
            self.send_height <= headers@.len(),
            self.in_flight@.len() > 0,
        ensures
            r == (pow_is_vouched_for(assume_valid, verified, header.height, *checkpoint)
                && header.id == headers@[self.next_height as int].id),
    {
        match self.expected(headers) {
            Some(id) => header.id == id && skips_pow(
                assume_valid,
                verified,
                header.height,
                checkpoint,
            ),
            None => false,
        }
    }

    /// Notes that the block that was due has come.
    pub fn on_block(&mut self)
        requires
            old(self).inv(),
            old(self).in_flight@.len() > 0,
        ensures
            final(self).inv(),
            final(self).next_height == old(self).next_height + 1,
            final(self).send_height == old(self).send_height,
            final(self).end_height == old(self).end_height,
            final(self).in_flight@ == (if old(self).in_flight@[0] == 1 {
                old(self).in_flight@.drop_first()
            } else {
                old(self).in_flight@.update(0, (old(self).in_flight@[0] - 1) as u64)
            }),
    {
        let ghost s = self.in_flight@;
        assert(s[0] > 0);
        if self.in_flight[0] == 1 {
            let done = self.in_flight.remove(0);
            assert(self.in_flight@ =~= s.drop_first());
            assert forall|i: int| 0 <= i < self.in_flight@.len() implies #[trigger] self.in_flight@[i]
                > 0 by {
                assert(self.in_flight@[i] == s[i + 1]);
            }
        } else {
            let left: u64 = self.in_flight[0] - 1;
            self.in_flight.set(0, left);
            assert(self.in_flight@ =~= s.update(0, left));
            assert(self.in_flight@.drop_first() =~= s.drop_first());
        }
        self.next_height = self.next_height + 1;
    }
}

/// When nothing is under way and no request is due, every block up to the end
/// has come.
pub proof fn law_stage_b_covers_the_range(run: StageBRun)
    requires
        run.inv(),
        run.in_flight@.len() == 0,
        !run.request_due(),
    ensures
        run.next_height > run.end_height,
{
}

// ---------------------------------------------------------------------------
// Rules for fetched blocks
// ---------------------------------------------------------------------------
/// Whether the proof of work of a fetched block need not be checked: the
/// operator trusts the checkpoint, the headers below it are authentic, and the
/// block is not above it.
pub open spec fn pow_is_vouched_for(
    assume_valid: bool,
    verified: bool,
    height: u64,
    checkpoint: Checkpoint,
) -> bool {
    assume_valid && verified && height <= checkpoint.height
}

/// Whether the proof of work of a fetched block need not be checked.
pub fn skips_pow(assume_valid: bool, verified: bool, height: u64, checkpoint: &Checkpoint) -> (r:
    bool)
    ensures
        r == pow_is_vouched_for(assume_valid, verified, height, *checkpoint),
{
    assume_valid && verified && height <= checkpoint.height
}

/// Whether the timestamp of a fetched block is held against the clock: only
/// near our own height, as old blocks are in the past anyhow.
pub fn checks_clock(height: u64, our_height: u64) -> (r: bool)
    ensures
        r == (height + IBD_DRIFT_WINDOW >= our_height),
{
    height >= our_height.saturating_sub(IBD_DRIFT_WINDOW)
}

/// The tip after a fetched block turned out to be stored already. It moves up
/// only to blocks of the chain itself, not to blocks of forks.
pub open spec fn resumed(
    tip: ChainTip,
    header: BlockHeader,
    canonical: Option<Hash256>,
    work: Option<[u8; 32]>,
) -> ChainTip {
    if canonical == Some(header.id) && header.height > tip.height {
        ChainTip {
            height: header.height,
            block_id: header.id,
            cumulative_work: match work {
                Some(w) => w,
                None => tip.cumulative_work,
            },
        }
    } else {
        tip
    }
}

/// The tip after a fetched block turned out to be stored already: `canonical`
/// is the id of the chain's block at its height, `work` the work of the chain
/// that ends in it.
pub fn resume_tip(
    tip: &ChainTip,
    header: &BlockHeader,
    canonical: Option<Hash256>,
    work: Option<[u8; 32]>,
) -> (r: ChainTip)
    ensures
        r == resumed(*tip, *header, canonical, work),
{
    match canonical {
        Some(id) => {
            if id == header.block_id() && header.height > tip.height {
                return ChainTip {
                    height: header.height,
                    block_id: header.block_id(),
                    cumulative_work: match work {
                        Some(w) => w,
                        None => tip.cumulative_work,
                    },
                };
            }
        },
        None => {},
    }
    *tip
}

/// The tip never moves down, and only a block of the chain moves it.
pub proof fn law_resume_never_goes_back(
    tip: ChainTip,
    header: BlockHeader,
    canonical: Option<Hash256>,
    work: Option<[u8; 32]>,
)
    ensures
        resumed(tip, header, canonical, work).height >= tip.height,
        resumed(tip, header, canonical, work) != tip ==> canonical == Some(header.id),
{
}

/// A peer from which the checkpoint's block was fetched.
pub open spec fn anchored(p: PeerView) -> PeerView {
    PeerView {
        tip: match p.tip {
            Some(t) => Some(PeerTip { confirmed: true, ..t }),
            None => None,
        },
        ever_confirmed_for_ibd: true,
        ..p
    }
}

/// Notes that the checkpoint's block was fetched from a peer and applied.
pub fn confirm_anchor(registry: &mut PeerRegistry, identity: &PeerId)
    requires
        old(registry).wf(),
    ensures
        final(registry).wf(),
        final(registry)@ == (if old(registry)@.peers.contains_key(*identity) {
            RegistryView {
                peers: old(registry)@.peers.insert(
                    *identity,
                    anchored(old(registry)@.peers[*identity]),
                ),
                ..old(registry)@
            }
        } else {
            old(registry)@
        }),
{
    match registry.get_mut_by_identity(identity) {
        Some(p) => {
            match p.tip {
                Some(t) => {
                    p.tip = Some(
                        PeerTip {
                            height: t.height,
                            cumulative_work: t.cumulative_work,
                            block_id: t.block_id,
                            confirmed: true,
                        },
                    );
                },
                None => {},
            }
            p.ever_confirmed_for_ibd = true;
        },
        None => {},
    }
}

} // verus!
