//! Fetching the chain of a peer from the last shared block on.
use crate::chain::{Block, BlockHeader, Checkpoint};
use crate::events::GetHeadersMsg;
use crate::errors::{FaultView, ProcessBlockError, ProcessBlockOutcome};
use crate::hash::{is_zero_bytes, Hash256};
use crate::stages::{contiguous, linked};
use crate::text::{cat2, cat_num, decimal, push_decimal};
use vstd::prelude::*;
use vstd::string::*;

verus! {

/// How many headers one request of a download asks for.
pub const IBD_BATCH: u64 = 64;

/// How many missing ancestors of one block are fetched.
pub const MAX_ANCESTOR_RECOVERY_DEPTH: usize = 4320;

/// How many bytes the missing ancestors of one block may have.
pub const MAX_ANCESTOR_BYTES: usize = 536_870_912;

/// How long each answer of a download may take, in seconds.
pub const IBD_ANSWER_SECS: u64 = 120;

// ---------------------------------------------------------------------------
// Headers
// ---------------------------------------------------------------------------
/// What is wrong with the headers that came in answer to a request.
pub ghost enum BatchFault {
    Empty,
    TooMany,
    WrongStart,
    /// The header at this position is not one above the one before it.
    Gap(int),
    /// The first header does not continue the batch before.
    BreaksFromBatch,
    /// The first header does not continue our own chain.
    BreaksFromChain,
    /// The header at this position does not name the one before as parent.
    BrokenLink(int),
}

/// The first position at which a list of headers has a gap.
pub open spec fn first_gap(s: Seq<BlockHeader>, i: int) -> bool {
    &&& 0 < i < s.len()
    &&& s[i].height != s[i - 1].height + 1
    &&& forall|j: int| 0 < j < i ==> (#[trigger] s[j]).height == s[j - 1].height + 1
}

/// The first position at which a link is broken.
pub open spec fn first_break(s: Seq<BlockHeader>, i: int) -> bool {
    &&& 0 < i < s.len()
    &&& s[i].prev_block_id != s[i - 1].id
    &&& forall|j: int| 0 < j < i ==> (#[trigger] s[j]).prev_block_id == s[j - 1].id
}

/// What the first header of a batch has to name as its parent.
#[derive(Clone, Copy, Debug)]
pub enum BatchParent {
    /// The last header of the batch before.
    Batch(Hash256),
    /// The block of our own chain below the batch, if there is one.
    Chain(Option<Hash256>),
}

/// Whether a fault is the one for which a batch is refused.
pub open spec fn batch_fault(
    s: Seq<BlockHeader>,
    current: u64,
    asked: u32,
    parent: BatchParent,
    f: BatchFault,
) -> bool {
    let sized = 0 < s.len() <= asked;
    let placed = sized && s[0].height == current && contiguous(s);
    let joined = placed && match parent {
        BatchParent::Batch(id) => s[0].prev_block_id == id,
        BatchParent::Chain(Some(id)) => s[0].prev_block_id == id,
        BatchParent::Chain(None) => true,
    };
    match f {
        BatchFault::Empty => s.len() == 0,
        BatchFault::TooMany => s.len() > asked,
        BatchFault::WrongStart => sized && s[0].height != current,
        BatchFault::Gap(i) => sized && s[0].height == current && first_gap(s, i),
        BatchFault::BreaksFromBatch => placed && !joined && parent is Batch,
        BatchFault::BreaksFromChain => placed && !joined && parent is Chain,
        BatchFault::BrokenLink(i) => joined && first_break(s, i),
    }
}

/// The message for a fault.
pub open spec fn batch_fault_text(
    s: Seq<BlockHeader>,
    current: u64,
    asked: u32,
    f: BatchFault,
) -> Seq<char> {
    match f {
        BatchFault::Empty => "peer returned empty headers at height "@ + decimal(current as nat)
            + ""@,
        BatchFault::TooMany => "peer returned "@ + decimal(s.len()) + " headers but requested at most "@
            + decimal(asked as nat) + " at height "@ + decimal(current as nat),
        BatchFault::WrongStart => "peer returned header at height "@ + decimal(
            s[0].height as nat,
        ) + " but expected "@ + decimal(current as nat),
        BatchFault::Gap(i) => "non-contiguous headers: "@ + decimal(s[i - 1].height as nat)
            + " then "@ + decimal(s[i].height as nat),
        BatchFault::BreaksFromBatch => "header at height "@ + decimal(s[0].height as nat)
            + " prev_block_id does not link to previous batch tip"@,
        BatchFault::BreaksFromChain => "first header prev_block_id does not match our block at height "@
            + decimal((current - 1) as nat) + ""@,
        BatchFault::BrokenLink(i) => "header at height "@ + decimal(s[i].height as nat)
            + " does not link to height "@ + decimal(s[i - 1].height as nat),
    }
}

/// Whether a batch answers a request and continues what came before.
pub open spec fn good_batch(
    s: Seq<BlockHeader>,
    current: u64,
    asked: u32,
    parent: BatchParent,
) -> bool {
    &&& 0 < s.len() <= asked
    &&& s[0].height == current
    &&& contiguous(s)
    &&& linked(s)
    &&& match parent {
        BatchParent::Batch(id) => s[0].prev_block_id == id,
        BatchParent::Chain(Some(id)) => s[0].prev_block_id == id,
        BatchParent::Chain(None) => true,
    }
}

fn find_gap(s: &Vec<BlockHeader>) -> (r: Option<usize>)
    ensures
        match r {
            Some(i) => first_gap(s@, i as int),
            None => contiguous(s@),
        },
{
    let mut i: usize = 1;
    while i < s.len()
        invariant
            1 <= i,
            i <= s@.len() || s@.len() == 0,
            forall|j: int|
                0 < j < i && j < s@.len() ==> (#[trigger] s@[j]).height == s@[j - 1].height + 1,
        decreases s@.len() - i,
    {
        let below: u64 = s[i - 1].height;
        if s[i].height <= below || s[i].height - below != 1 {
            return Some(i);
        }
        i = i + 1;
    }
    None
}

fn find_break(s: &Vec<BlockHeader>) -> (r: Option<usize>)
    ensures
        match r {
            Some(i) => first_break(s@, i as int),
            None => linked(s@),
        },
{
    let mut i: usize = 1;
    while i < s.len()
        invariant
            1 <= i,
            i <= s@.len() || s@.len() == 0,
            forall|j: int|
                0 < j < i && j < s@.len() ==> (#[trigger] s@[j]).prev_block_id == s@[j - 1].id,
        decreases s@.len() - i,
    {
        if s[i].prev_block_id != s[i - 1].block_id() {
            return Some(i);
        }
        i = i + 1;
    }
    None
}

fn cat_two_nums(a: &str, n: u64, b: &str, m: u64) -> (r: String)
    ensures
        r@ == a@ + decimal(n as nat) + b@ + decimal(m as nat),
{
    let mut s = cat_num(a, n, b);
    push_decimal(&mut s, m);
    s
}

/// Checks the headers that came in answer to a request for `asked` headers
/// from height `current` on. Fewer than asked for is fine.
pub fn check_batch(
    headers: &Vec<BlockHeader>,
    current: u64,
    asked: u32,
    parent: &BatchParent,
) -> (r: Result<(), String>)
    requires
        current > 0,
    ensures
        match r {
            Ok(()) => good_batch(headers@, current, asked, *parent),
            Err(e) => !good_batch(headers@, current, asked, *parent) && exists|f: BatchFault|
                #[trigger] batch_fault(headers@, current, asked, *parent, f) && e@
                    == batch_fault_text(headers@, current, asked, f),
        },
{
    if headers.len() == 0 {
        assert(batch_fault(headers@, current, asked, *parent, BatchFault::Empty));
        return Err(cat_num("peer returned empty headers at height ", current, ""));
    }
    if headers.len() > asked as usize {
        let mut s = cat_two_nums(
            "peer returned ",
            headers.len() as u64,
            " headers but requested at most ",
            asked as u64,
        );
        s.append(" at height ");
        push_decimal(&mut s, current);
        assert(batch_fault(headers@, current, asked, *parent, BatchFault::TooMany));
        return Err(s);
    }
    if headers[0].height != current {
        assert(batch_fault(headers@, current, asked, *parent, BatchFault::WrongStart));
        return Err(
            cat_two_nums(
                "peer returned header at height ",
                headers[0].height,
                " but expected ",
                current,
            ),
        );
    }
    match find_gap(headers) {
        Some(i) => {
            assert(batch_fault(headers@, current, asked, *parent, BatchFault::Gap(i as int)));
            assert(!contiguous(headers@)) by {
                assert(headers@[i as int].height != headers@[i - 1].height + 1);
            }
            return Err(
                cat_two_nums(
                    "non-contiguous headers: ",
                    headers[i - 1].height,
                    " then ",
                    headers[i].height,
                ),
            );
        },
        None => {},
    }
    match parent {
        BatchParent::Batch(id) => {
            if headers[0].prev_block_id != *id {
                assert(batch_fault(
                    headers@,
                    current,
                    asked,
                    *parent,
                    BatchFault::BreaksFromBatch,
                ));
                return Err(
                    cat_num(
                        "header at height ",
                        headers[0].height,
                        " prev_block_id does not link to previous batch tip",
                    ),
                );
            }
        },
        BatchParent::Chain(Some(id)) => {
            if headers[0].prev_block_id != *id {
                assert(batch_fault(
                    headers@,
                    current,
                    asked,
                    *parent,
                    BatchFault::BreaksFromChain,
                ));
                return Err(
                    cat_num(
                        "first header prev_block_id does not match our block at height ",
                        current - 1,
                        "",
                    ),
                );
            }
        },
        BatchParent::Chain(None) => {},
    }
    match find_break(headers) {
        Some(i) => {
            assert(batch_fault(headers@, current, asked, *parent, BatchFault::BrokenLink(i as int)));
            assert(!linked(headers@)) by {
                assert(headers@[i as int].prev_block_id != headers@[i - 1].id);
            }
            return Err(
                cat_two_nums(
                    "header at height ",
                    headers[i].height,
                    " does not link to height ",
                    headers[i - 1].height,
                ),
            );
        },
        None => {},
    }
    Ok(())
}

/// A batch is refused for one reason only.
pub proof fn law_batch_fault_is_unique(
    s: Seq<BlockHeader>,
    current: u64,
    asked: u32,
    parent: BatchParent,
    f: BatchFault,
    g: BatchFault,
)
    requires
        batch_fault(s, current, asked, parent, f),
        batch_fault(s, current, asked, parent, g),
    ensures
        f == g,
{
    lemma_gap_breaks(s, f);
    lemma_gap_breaks(s, g);
    match (f, g) {
        (BatchFault::Gap(i), BatchFault::Gap(j)) => {
            if i < j {
                assert(s[i].height == s[i - 1].height + 1);
            } else if j < i {
                assert(s[j].height == s[j - 1].height + 1);
            }
        },
        (BatchFault::BrokenLink(i), BatchFault::BrokenLink(j)) => {
            if i < j {
                assert(s[i].prev_block_id == s[i - 1].id);
            } else if j < i {
                assert(s[j].prev_block_id == s[j - 1].id);
            }
        },
        _ => {},
    }
}

proof fn lemma_gap_breaks(s: Seq<BlockHeader>, f: BatchFault)
    ensures
        f matches BatchFault::Gap(i) && first_gap(s, i) ==> !contiguous(s),
{
    if let BatchFault::Gap(i) = f {
        if first_gap(s, i) {
            assert(s[i].height != s[i - 1].height + 1);
        }
    }
}

// ---------------------------------------------------------------------------
// The download as a whole
// ---------------------------------------------------------------------------
/// A download from one session.
#[derive(Clone, Copy, Debug)]
pub struct IbdRun {
    /// The last height at which the chains agree.
    pub fork_point: u64,
    /// The height that the peer claims.
    pub their_height: u64,
    /// The height to fetch next.
    pub current_height: u64,
    /// The last header of the batch before.
    pub prev_batch_tip: Option<Hash256>,
}

impl IbdRun {
    /// What is fetched next is above the last shared block.
    pub open spec fn inv(self) -> bool {
        self.fork_point < self.current_height
    }

    /// The heights whose blocks are fetched by way of authenticated headers.
    pub open spec fn authenticated_part(self, have_headers: bool, checkpoint: Checkpoint) -> Option<
        (u64, u64),
    > {
        if have_headers && self.current_height <= checkpoint.height && self.current_height
            <= self.their_height {
            Some(
                (
                    self.current_height,
                    if self.their_height < checkpoint.height {
                        self.their_height
                    } else {
                        checkpoint.height
                    },
                ),
            )
        } else {
            None
        }
    }

    /// The next request, while there is something to fetch.
    pub open spec fn request(self) -> Option<GetHeadersMsg> {
        if self.current_height <= self.their_height {
            Some(
                GetHeadersMsg {
                    start_height: self.current_height,
                    max_count: if self.their_height - self.current_height + 1 < IBD_BATCH {
                        (self.their_height - self.current_height + 1) as u32
                    } else {
                        IBD_BATCH as u32
                    },
                },
            )
        } else {
            None
        }
    }

    /// A download from the block above the last shared one on.
    pub fn new(fork_point: u64, their_height: u64) -> (r: Self)
        requires
            fork_point < u64::MAX,
        ensures
            r == (IbdRun {
                fork_point,
                their_height,
                current_height: (fork_point + 1) as u64,
                prev_batch_tip: None,
            }),
            r.inv(),
    {
        IbdRun {
            fork_point,
            their_height,
            current_height: fork_point + 1,
            prev_batch_tip: None,
        }
    }

    /// The heights whose blocks are fetched by way of authenticated headers.
    pub fn stage_b_range(&self, have_headers: bool, checkpoint: &Checkpoint) -> (r: Option<
        (u64, u64),
    >)
        ensures
            r == self.authenticated_part(have_headers, *checkpoint),
    {
        if have_headers && self.current_height <= checkpoint.height && self.current_height
            <= self.their_height {
            Some(
                (
                    self.current_height,
                    if self.their_height < checkpoint.height {
                        self.their_height
                    } else {
                        checkpoint.height
                    },
                ),
            )
        } else {
            None
        }
    }

    /// Notes that the blocks up to `end` were fetched.
    pub fn on_stage_b_done(&mut self, end: u64)
        requires
            old(self).inv(),
            old(self).current_height <= end < u64::MAX,
        ensures
            *final(self) == (IbdRun { current_height: (end + 1) as u64, ..*old(self) }),
            final(self).inv(),
    {
        self.current_height = end + 1;
    }

    /// The next request, while there is something to fetch.
    pub fn next_request(&self) -> (r: Option<GetHeadersMsg>)
        ensures
            r == self.request(),
    {
        if self.current_height > self.their_height {
            return None;
        }
        let left: u64 = self.their_height - self.current_height;
        let max_count: u32 = if left < 63 {
            left as u32 + 1
        } else {
            64
        };
        Some(GetHeadersMsg { start_height: self.current_height, max_count })
    }

    /// Whether the first header of the next batch is checked against our own
    /// chain.
    pub fn joins_own_chain(&self) -> (r: bool)
        ensures
            r == (self.prev_batch_tip is None),
    {
        self.prev_batch_tip.is_none()
    }

    /// The parent that the first header of the next batch has to name, given
    /// the block of our own chain below it.
    pub open spec fn parent(self, ours: Option<Hash256>) -> BatchParent {
        match self.prev_batch_tip {
            Some(id) => BatchParent::Batch(id),
            None => BatchParent::Chain(ours),
        }
    }

    /// Takes the headers that came in answer to the last request, and gives
    /// the ids of the blocks to fetch.
    pub fn on_headers(&mut self, headers: &Vec<BlockHeader>, ours: Option<Hash256>) -> (r: Result<
        Vec<Hash256>,
        String,
    >)
        requires
            old(self).inv(),
            old(self).request() is Some,
        ensures
            final(self).inv(),
            ({
                let q = old(self).request()->0;
                let parent = old(self).parent(ours);
                match r {
                    Ok(ids) => {
                        &&& good_batch(headers@, q.start_height, q.max_count, parent)
                        &&& ids@ == Seq::new(headers@.len(), |i: int| headers@[i].id)
                        &&& *final(self) == (IbdRun {
                            prev_batch_tip: Some(headers@.last().id),
                            ..*old(self)
                        })
                    },
                    Err(e) => {
                        &&& !good_batch(headers@, q.start_height, q.max_count, parent)
                        &&& exists|f: BatchFault| #[trigger]
                            batch_fault(headers@, q.start_height, q.max_count, parent, f) && e@
                                == batch_fault_text(headers@, q.start_height, q.max_count, f)
                        &&& *final(self) == *old(self)
                    },
                }
            }),
    {
        let asked: u32 = match self.next_request() {
            Some(q) => q.max_count,
            None => 0,
        };
        let parent = match self.prev_batch_tip {
            Some(id) => BatchParent::Batch(id),
            None => BatchParent::Chain(ours),
        };
        match check_batch(headers, self.current_height, asked, &parent) {
            Err(e) => {
                return Err(e);
            },
            Ok(()) => {},
        }
        let mut ids: Vec<Hash256> = Vec::new();
        let mut i: usize = 0;
        while i < headers.len()
            invariant
                i <= headers@.len(),
                ids@ == Seq::new(i as nat, |j: int| headers@[j].id),
            decreases headers@.len() - i,
        {
            ids.push(headers[i].block_id());
            i = i + 1;
            assert(ids@ =~= Seq::new(i as nat, |j: int| headers@[j].id));
        }
        self.prev_batch_tip = Some(headers[headers.len() - 1].block_id());
        Ok(ids)
    }

    /// Notes that the blocks of the last batch, `count` of them, were handled.
    pub fn on_batch_done(&mut self, count: u64)
        requires
            old(self).inv(),
            old(self).current_height + count <= u64::MAX,
        ensures
            *final(self) == (IbdRun {
                current_height: (old(self).current_height + count) as u64,
                ..*old(self)
            }),
            final(self).inv(),
    {
        self.current_height = self.current_height + count;
    }

    /// Whether a download that has come to its end was of any use: the tip has
    /// to have moved past the last shared block.
    pub fn conclude(&self, final_height: u64) -> (r: Result<(), String>)
        ensures
            r is Ok <==> final_height > self.fork_point,
            r matches Err(e) ==> e@ == "tip did not advance past fork point "@ + decimal(
                self.fork_point as nat,
            ) + " (final "@ + decimal(final_height as nat) + ")"@,
    {
        if final_height <= self.fork_point {
            let mut s = cat_two_nums(
                "tip did not advance past fork point ",
                self.fork_point,
                " (final ",
                final_height,
            );
            s.append(")");
            Err(s)
        } else {
            Ok(())
        }
    }
}

/// Every good batch brings a download closer to its end, and does not take it
/// past the height that the peer claims.
pub proof fn law_download_makes_progress(
    run: IbdRun,
    headers: Seq<BlockHeader>,
    ours: Option<Hash256>,
)
    requires
        run.request() is Some,
        good_batch(
            headers,
            run.request()->0.start_height,
            run.request()->0.max_count,
            run.parent(ours),
        ),
    ensures
        run.current_height < run.current_height + headers.len() <= run.their_height + 1,
        headers.len() <= IBD_BATCH,
{
}

/// Good batches that follow each other are linked into one chain.
pub proof fn law_batches_form_a_chain(
    run: IbdRun,
    first: Seq<BlockHeader>,
    second: Seq<BlockHeader>,
    ours: Option<Hash256>,
    start: u64,
    asked: u32,
)
    requires
        run.request() is Some,
        good_batch(
            first,
            run.request()->0.start_height,
            run.request()->0.max_count,
            run.parent(ours),
        ),
        start == run.current_height + first.len(),
        good_batch(second, start, asked, BatchParent::Batch(first.last().id)),
    ensures
        linked(first + second),
        contiguous(first + second),
{
    let c = first + second;
    lemma_contiguous_heights(first);
    assert forall|i: int| 0 < i < c.len() implies (#[trigger] c[i]).prev_block_id == c[i - 1].id
        && c[i].height == c[i - 1].height + 1 by {
        if i < first.len() {
            assert(c[i] == first[i] && c[i - 1] == first[i - 1]);
        } else if i == first.len() {
            assert(c[i] == second[0] && c[i - 1] == first.last());
        } else {
            assert(c[i] == second[i - first.len()] && c[i - 1] == second[i - first.len() - 1]);
        }
    }
}

proof fn lemma_contiguous_heights(s: Seq<BlockHeader>)
    requires
        s.len() > 0,
        contiguous(s),
    ensures
        s.last().height == s[0].height + s.len() - 1,
    decreases s.len(),
{
    if s.len() > 1 {
        let t = s.drop_last();
        assert(contiguous(t)) by {
            assert forall|i: int| 0 < i < t.len() implies (#[trigger] t[i]).height == t[i
                - 1].height + 1 by {
                assert(t[i] == s[i] && t[i - 1] == s[i - 1]);
            }
        }
        lemma_contiguous_heights(t);
        assert(s[s.len() - 1].height == s[s.len() - 2].height + 1);
    }
}

// ---------------------------------------------------------------------------
// Missing ancestors
// ---------------------------------------------------------------------------
/// The fetching of the missing ancestors of a block, from the youngest down.
pub struct AncestorRecovery {
    /// The block to fetch next.
    pub needed: Hash256,
    pub fetched: Vec<Block>,
    pub total_bytes: usize,
    pub done: bool,
}

/// What an `AncestorRecovery` holds.
pub ghost struct RecoveryView {
    pub needed: Hash256,
    pub fetched: Seq<Block>,
    pub total_bytes: usize,
    pub done: bool,
}

impl View for AncestorRecovery {
    type V = RecoveryView;

    open spec fn view(&self) -> RecoveryView {
        RecoveryView {
            needed: self.needed,
            fetched: self.fetched@,
            total_bytes: self.total_bytes,
            done: self.done,
        }
    }
}

/// The lesser of a sum and the greatest length.
pub open spec fn capped_len(a: usize, b: usize) -> usize {
    if a + b <= usize::MAX {
        (a + b) as usize
    } else {
        usize::MAX
    }
}

impl RecoveryView {
    /// What was fetched leads, block by block, to what is needed next, and
    /// keeps within the caps.
    pub open spec fn inv(self) -> bool {
        &&& self.fetched.len() <= MAX_ANCESTOR_RECOVERY_DEPTH
        &&& self.fetched.len() == MAX_ANCESTOR_RECOVERY_DEPTH ==> self.done
        &&& self.total_bytes <= MAX_ANCESTOR_BYTES
        &&& forall|i: int|
            0 < i < self.fetched.len() ==> (#[trigger] self.fetched[i]).header.id == self.fetched[i
                - 1].header.prev_block_id
        &&& !self.done && self.fetched.len() > 0 ==> self.needed
            == self.fetched.last().header.prev_block_id
    }

    /// The state after a block of `bytes` bytes was fetched.
    pub open spec fn with_block(self, block: Block, bytes: usize, parent_known: bool) -> RecoveryView {
        let parent = block.header.prev_block_id;
        let enough = parent_known || (forall|j: int| 0 <= j < 32 ==> parent.0@[j] == 0)
            || self.fetched.len() + 1 == MAX_ANCESTOR_RECOVERY_DEPTH;
        RecoveryView {
            needed: if enough {
                self.needed
            } else {
                parent
            },
            fetched: self.fetched.push(block),
            total_bytes: capped_len(self.total_bytes, bytes),
            done: enough,
        }
    }
}

impl AncestorRecovery {
    pub fn new(missing: Hash256) -> (r: Self)
        ensures
            r@ == (RecoveryView {
                needed: missing,
                fetched: Seq::empty(),
                total_bytes: 0,
                done: false,
            }),
            r@.inv(),
    {
        AncestorRecovery { needed: missing, fetched: Vec::new(), total_bytes: 0, done: false }
    }

    /// Takes the block that was needed. It is the last one if its parent is
    /// known, if it has none, or if no more may be fetched.
    pub fn on_block(&mut self, block: Block, bytes: usize, parent_known: bool) -> (r: Result<
        (),
        String,
    >)
        requires
            old(self)@.inv(),
            !old(self)@.done,
            block.header.id == old(self)@.needed,
        ensures
            final(self)@.inv(),
            r is Ok <==> old(self)@.total_bytes + bytes <= MAX_ANCESTOR_BYTES,
            r is Ok ==> final(self)@ == old(self)@.with_block(block, bytes, parent_known),
            r matches Err(e) ==> e@ == "ancestor recovery byte cap exceeded"@ && final(self)@ == old(
                self,
            )@,
    {
        let total: usize = self.total_bytes.saturating_add(bytes);
        if total > MAX_ANCESTOR_BYTES {
            return Err(String::from_str("ancestor recovery byte cap exceeded"));
        }
        let ghost before = self@;
        self.total_bytes = total;
        let parent = block.header.prev_block_id;
        self.fetched.push(block);
        if parent_known || is_zero_bytes(&parent.0) || self.fetched.len()
            == MAX_ANCESTOR_RECOVERY_DEPTH {
            self.done = true;
        } else {
            self.needed = parent;
        }
        assert forall|i: int| 0 < i < self@.fetched.len() implies (
        #[trigger] self@.fetched[i]).header.id == self@.fetched[i - 1].header.prev_block_id by {
            if i == before.fetched.len() {
                assert(self@.fetched[i - 1] == before.fetched.last());
            } else {
                assert(self@.fetched[i] == before.fetched[i]);
                assert(self@.fetched[i - 1] == before.fetched[i - 1]);
            }
        }
        Ok(())
    }

    /// The fetched blocks in the order in which they are to be handled: the
    /// oldest first.
    pub fn into_blocks(self) -> (r: Vec<Block>)
        ensures
            r@ == self@.fetched.reverse(),
    {
        let mut rest = self.fetched;
        let ghost s = rest@;
        let mut out: Vec<Block> = Vec::new();
        while rest.len() > 0
            invariant
                rest@.len() <= s.len(),
                rest@ == s.take(rest@.len() as int),
                out@ == s.skip(rest@.len() as int).reverse(),
            decreases rest@.len(),
        {
            let ghost n = rest@.len() as int;
            if let Some(b) = rest.pop() {
                out.push(b);
            }
            assert(out@ =~= s.skip(n - 1).reverse());
        }
        assert(s.skip(0) =~= s);
        out
    }
}

/// The blocks that were fetched are handled parent before child.
pub proof fn law_ancestors_are_handled_in_order(v: RecoveryView, i: int)
    requires
        v.inv(),
        0 < i < v.fetched.len(),
    ensures
        v.fetched.reverse()[i].header.prev_block_id == v.fetched.reverse()[i - 1].header.id,
{
    let n = v.fetched.len();
    let r = v.fetched.reverse();
    assert(r[i] == v.fetched[n - 1 - i]);
    assert(r[i - 1] == v.fetched[n - i]);
    assert(v.fetched[n - i].header.id == v.fetched[n - i - 1].header.prev_block_id);
}

// ---------------------------------------------------------------------------
// What became of a fetched block
// ---------------------------------------------------------------------------
/// Which block of a download was handled.
#[derive(Clone, Copy, Debug, PartialEq, Eq, Structural)]
pub enum IbdBlockKind {
    /// A block of the batch.
    Fetched,
    /// A missing ancestor of one.
    Ancestor,
    /// A block of the batch, once its missing ancestors have been handled.
    Retried,
    /// A block at this height that the headers up to the checkpoint name.
    Vouched { height: u64 },
}

/// What is to be done after a block of a download was handled.
pub enum IbdNext {
    /// Go on, and give the peer credit.
    Continue,
    /// Fetch its missing ancestors, from this one down.
    Recover(Hash256),
    /// End the download with this message, and stop the node where `halt`.
    Fail { message: String, halt: bool },
}

/// How the message begins with which a block that the headers up to the
/// checkpoint name ends a download.
pub open spec fn vouched_failure_text(height: u64) -> Seq<char> {
    "Stage B process_block_pre_validated failed at height "@ + decimal(height as nat) + ": "@
}

/// What is to be done after a block of a download was handled.
pub open spec fn ibd_next_of(
    kind: IbdBlockKind,
    result: Result<ProcessBlockOutcome, FaultView>,
    next: IbdNext,
) -> bool {
    match result {
        Ok(_) => next is Continue,
        Err(FaultView::MissingReorgAncestor(id)) if kind is Fetched => next
            == IbdNext::Recover(id),
        Err(f) => next matches IbdNext::Fail { message, halt } && match kind {
            IbdBlockKind::Fetched => halt == (f is Fatal) && message@ == (if f is Fatal {
                "FATAL during IBD: "@
            } else {
                "IBD block processing failed: "@
            }) + f.text(),
            IbdBlockKind::Ancestor => halt == (f is Fatal) && message@ == (if f is Fatal {
                "FATAL during ancestor processing: "@
            } else {
                "ancestor processing failed: "@
            }) + f.text(),
            IbdBlockKind::Retried => halt == (f is Fatal) && message@ == "block retry failed: "@
                + f.text(),
            IbdBlockKind::Vouched { height } => halt == (f is Fatal) && message@
                == vouched_failure_text(height) + f.full_text(),
        },
    }
}

/// What is to be done after a block of a download was handled.
pub fn after_ibd_block(
    kind: IbdBlockKind,
    result: &Result<ProcessBlockOutcome, ProcessBlockError>,
) -> (r: IbdNext)
    ensures
        ibd_next_of(kind, crate::intake::result_view(*result), r),
{
    match result {
        Ok(_) => IbdNext::Continue,
        Err(e) => {
            if kind == IbdBlockKind::Fetched {
                match e {
                    ProcessBlockError::MissingReorgAncestor(id) => {
                        return IbdNext::Recover(*id);
                    },
                    _ => {},
                }
            }
            let fatal = e.is_fatal();
            let text = e.message();
            let message = match kind {
                IbdBlockKind::Fetched => if fatal {
                    cat2("FATAL during IBD: ", text.as_str())
                } else {
                    cat2("IBD block processing failed: ", text.as_str())
                },
                IbdBlockKind::Ancestor => if fatal {
                    cat2("FATAL during ancestor processing: ", text.as_str())
                } else {
                    cat2("ancestor processing failed: ", text.as_str())
                },
                IbdBlockKind::Retried => cat2("block retry failed: ", text.as_str()),
                IbdBlockKind::Vouched { height } => {
                    let head = cat_num(
                        "Stage B process_block_pre_validated failed at height ",
                        height,
                        ": ",
                    );
                    let full = e.full_message();
                    cat2(head.as_str(), full.as_str())
                },
            };
            IbdNext::Fail { message, halt: fatal }
        },
    }
}

/// A fatal error stops the node, whichever block of a download it came from;
/// nothing else does.
pub proof fn law_fatal_error_halts(
    kind: IbdBlockKind,
    result: Result<ProcessBlockOutcome, FaultView>,
    next: IbdNext,
)
    requires
        ibd_next_of(kind, result, next),
    ensures
        (result matches Err(f) && f is Fatal) <==> (next matches IbdNext::Fail { halt, .. }
            && halt),
{
}

} // verus!
