//! The set of unspent outputs, and taking blocks in and out of it.
use crate::assoc::AssocMap;
use crate::chain::{Block, OutPoint, Transaction};
use crate::hash::Hash256;
use crate::text::{decimal, push_decimal};
use vstd::prelude::*;
use vstd::string::*;

verus! {

/// An unspent output, with where it came from.
#[derive(Debug)]
pub struct UtxoEntry {
    pub value: u64,
    pub script: Vec<u8>,
    pub height: u64,
    pub is_coinbase: bool,
}

/// What a `UtxoEntry` holds.
pub ghost struct EntryView {
    pub value: u64,
    pub script: Seq<u8>,
    pub height: u64,
    pub is_coinbase: bool,
}

impl View for UtxoEntry {
    type V = EntryView;

    open spec fn view(&self) -> EntryView {
        EntryView {
            value: self.value,
            script: self.script@,
            height: self.height,
            is_coinbase: self.is_coinbase,
        }
    }
}

/// Why a transaction could not be taken in or out.
#[derive(Clone, Copy, Debug, PartialEq, Eq, Structural)]
pub enum UtxoError {
    /// An input is not among the unspent outputs.
    MissingInput,
    /// An output is already among the unspent outputs.
    DuplicateOutput,
    /// An output to take back is not among the unspent outputs.
    MissingOutput,
    /// No record of what an input spent.
    MissingSpentRecord,
}

impl UtxoError {
    pub open spec fn text(self) -> Seq<char> {
        match self {
            UtxoError::MissingInput => "input is not unspent"@,
            UtxoError::DuplicateOutput => "output already exists"@,
            UtxoError::MissingOutput => "output to remove is not unspent"@,
            UtxoError::MissingSpentRecord => "no record of the spent output"@,
        }
    }

    pub fn message(&self) -> (r: &'static str)
        ensures
            r@ == self.text(),
    {
        match self {
            UtxoError::MissingInput => "input is not unspent",
            UtxoError::DuplicateOutput => "output already exists",
            UtxoError::MissingOutput => "output to remove is not unspent",
            UtxoError::MissingSpentRecord => "no record of the spent output",
        }
    }
}

/// The unspent outputs as a map.
pub type Utxos = Map<OutPoint, EntryView>;

// ---------------------------------------------------------------------------
// Model
// ---------------------------------------------------------------------------
/// The outputs that a transaction spends.
pub open spec fn spends(tx: Transaction) -> Seq<OutPoint> {
    if tx.is_coinbase {
        Seq::empty()
    } else {
        tx.inputs@
    }
}

/// The unspent output that an output of a transaction becomes.
pub open spec fn entry_at(tx: Transaction, height: u64, i: int) -> EntryView {
    EntryView {
        value: tx.outputs@[i].value,
        script: tx.outputs@[i].script@,
        height,
        is_coinbase: tx.is_coinbase,
    }
}

/// Whether a position is an output of a transaction.
pub open spec fn is_output_of(tx: Transaction, p: OutPoint) -> bool {
    p.tx_id == tx.tx_id && p.output_index < tx.outputs@.len()
}

/// The outputs of a transaction.
pub open spec fn created(tx: Transaction, height: u64) -> Utxos {
    Map::new(
        |p: OutPoint| is_output_of(tx, p),
        |p: OutPoint| entry_at(tx, height, p.output_index as int),
    )
}

/// Whether a transaction can be taken in: it spends distinct unspent outputs,
/// and none of its own outputs is there once they are gone.
pub open spec fn can_apply(m: Utxos, tx: Transaction) -> bool {
    &&& spends(tx).no_duplicates()
    &&& forall|i: int| 0 <= i < spends(tx).len() ==> m.contains_key(#[trigger] spends(tx)[i])
    &&& forall|p: OutPoint| #[trigger]
        is_output_of(tx, p) && m.contains_key(p) ==> spends(tx).contains(p)
}

/// Why a transaction cannot be taken in.
pub open spec fn apply_fault(m: Utxos, tx: Transaction) -> UtxoError {
    if spends(tx).no_duplicates() && forall|i: int|
        0 <= i < spends(tx).len() ==> m.contains_key(#[trigger] spends(tx)[i]) {
        UtxoError::DuplicateOutput
    } else {
        UtxoError::MissingInput
    }
}

/// The unspent outputs after a transaction.
pub open spec fn apply_tx(m: Utxos, tx: Transaction, height: u64) -> Utxos {
    m.remove_keys(spends(tx).to_set()).union_prefer_right(created(tx, height))
}

/// The unspent outputs after the first `n` of some transactions.
pub open spec fn apply_txs(m: Utxos, txs: Seq<Transaction>, height: u64, n: int) -> Utxos
    decreases n,
{
    if n <= 0 {
        m
    } else {
        apply_tx(apply_txs(m, txs, height, n - 1), txs[n - 1], height)
    }
}

/// Whether the first `n` of some transactions can be taken in one after the other.
pub open spec fn can_apply_txs(m: Utxos, txs: Seq<Transaction>, height: u64, n: int) -> bool
    decreases n,
{
    n <= 0 || (can_apply_txs(m, txs, height, n - 1) && can_apply(
        apply_txs(m, txs, height, n - 1),
        txs[n - 1],
    ))
}

/// The unspent outputs after a block.
pub open spec fn apply_block(m: Utxos, b: Block) -> Utxos {
    apply_txs(m, b.transactions@, b.header.height, b.transactions@.len() as int)
}

/// Whether a block can be taken in.
pub open spec fn can_apply_block(m: Utxos, b: Block) -> bool {
    can_apply_txs(m, b.transactions@, b.header.height, b.transactions@.len() as int)
}

/// The unspent outputs after blocks that are listed newest first.
pub open spec fn redo_chain(m: Utxos, newest_first: Seq<Block>) -> Utxos
    decreases newest_first.len(),
{
    if newest_first.len() == 0 {
        m
    } else {
        apply_block(redo_chain(m, newest_first.skip(1)), newest_first[0])
    }
}

/// Whether blocks that are listed newest first can be taken in, oldest first.
pub open spec fn can_redo_chain(m: Utxos, newest_first: Seq<Block>) -> bool
    decreases newest_first.len(),
{
    newest_first.len() == 0 || (can_redo_chain(m, newest_first.skip(1)) && can_apply_block(
        redo_chain(m, newest_first.skip(1)),
        newest_first[0],
    ))
}

/// A record of spent outputs.
pub type SpentLog = Seq<(OutPoint, UtxoEntry)>;

/// Whether a log records a position.
pub open spec fn logged(log: SpentLog, p: OutPoint) -> bool {
    exists|i: int| 0 <= i < log.len() && (#[trigger] log[i]).0 == p
}

/// The first record of a position.
pub open spec fn log_pos(log: SpentLog, p: OutPoint) -> int {
    choose|i: int|
        0 <= i < log.len() && (#[trigger] log[i]).0 == p && forall|j: int|
            0 <= j < i ==> (#[trigger] log[j]).0 != p
}

/// What a log says of the outputs that a transaction spends.
pub open spec fn restored(log: SpentLog, tx: Transaction) -> Utxos {
    Map::new(|p: OutPoint| spends(tx).contains(p), |p: OutPoint| log[log_pos(log, p)].1@)
}

/// Whether a transaction can be taken out with a log of what it spent.
pub open spec fn can_undo(m: Utxos, tx: Transaction, log: SpentLog) -> bool {
    &&& forall|p: OutPoint| #[trigger] is_output_of(tx, p) ==> m.contains_key(p)
    &&& forall|i: int| 0 <= i < spends(tx).len() ==> logged(log, #[trigger] spends(tx)[i])
}

/// Why a transaction cannot be taken out.
pub open spec fn undo_fault(m: Utxos, tx: Transaction) -> UtxoError {
    if forall|p: OutPoint| #[trigger] is_output_of(tx, p) ==> m.contains_key(p) {
        UtxoError::MissingSpentRecord
    } else {
        UtxoError::MissingOutput
    }
}

/// The unspent outputs once a transaction is taken out.
pub open spec fn undo_tx(m: Utxos, tx: Transaction, log: SpentLog) -> Utxos {
    m.remove_keys(created(tx, 0).dom()).union_prefer_right(restored(log, tx))
}

/// The unspent outputs once the transactions from the `n`-th on are taken out,
/// last first.
pub open spec fn undo_txs(m: Utxos, txs: Seq<Transaction>, log: SpentLog, n: int) -> Utxos
    decreases txs.len() - n,
{
    if n >= txs.len() {
        m
    } else {
        undo_tx(undo_txs(m, txs, log, n + 1), txs[n], log)
    }
}

/// Whether the transactions from the `n`-th on can be taken out, last first.
pub open spec fn can_undo_txs(m: Utxos, txs: Seq<Transaction>, log: SpentLog, n: int) -> bool
    decreases txs.len() - n,
{
    n >= txs.len() || (can_undo_txs(m, txs, log, n + 1) && can_undo(
        undo_txs(m, txs, log, n + 1),
        txs[n],
        log,
    ))
}

/// A record of spent outputs for each of several blocks.
pub type ChainLog = Seq<(Hash256, Vec<(OutPoint, UtxoEntry)>)>;

/// Whether a block has a record.
pub open spec fn has_log(all: ChainLog, id: Hash256) -> bool {
    exists|i: int| 0 <= i < all.len() && (#[trigger] all[i]).0 == id
}

/// The first record of a block.
pub open spec fn log_of(all: ChainLog, id: Hash256) -> SpentLog {
    all[choose|i: int|
        0 <= i < all.len() && (#[trigger] all[i]).0 == id && forall|j: int|
            0 <= j < i ==> (#[trigger] all[j]).0 != id].1@
}

/// The unspent outputs once blocks that are listed oldest first are taken out
/// from the `n`-th on, newest first.
pub open spec fn undo_chain(m: Utxos, oldest_first: Seq<Block>, all: ChainLog, n: int) -> Utxos
    decreases oldest_first.len() - n,
{
    if n >= oldest_first.len() {
        m
    } else {
        let b = oldest_first[n];
        undo_txs(
            undo_chain(m, oldest_first, all, n + 1),
            b.transactions@,
            log_of(all, b.header.id),
            0,
        )
    }
}

/// Whether blocks that are listed oldest first can be taken out from the `n`-th
/// on, newest first.
pub open spec fn can_undo_chain(m: Utxos, oldest_first: Seq<Block>, all: ChainLog, n: int) -> bool
    decreases oldest_first.len() - n,
{
    n >= oldest_first.len() || (can_undo_chain(m, oldest_first, all, n + 1) && has_log(
        all,
        oldest_first[n].header.id,
    ) && can_undo_txs(
        undo_chain(m, oldest_first, all, n + 1),
        oldest_first[n].transactions@,
        log_of(all, oldest_first[n].header.id),
        0,
    ))
}

// ---------------------------------------------------------------------------
// The set
// ---------------------------------------------------------------------------
/// The unspent outputs of a chain.
pub struct UtxoSet {
    entries: AssocMap<OutPoint, UtxoEntry>,
}

impl View for UtxoSet {
    type V = Utxos;

    closed spec fn view(&self) -> Utxos {
        self.entries@.map_values(|e: UtxoEntry| e@)
    }
}

/// Copies a byte string.
pub fn copy_bytes(v: &Vec<u8>) -> (r: Vec<u8>)
    ensures
        r@ == v@,
{
    let mut out: Vec<u8> = Vec::new();
    let mut i: usize = 0;
    while i < v.len()
        invariant
            i <= v@.len(),
            out@ == v@.take(i as int),
        decreases v@.len() - i,
    {
        out.push(v[i]);
        i = i + 1;
        assert(v@.take(i as int) =~= v@.take(i - 1).push(v@[i - 1]));
    }
    assert(v@.take(i as int) =~= v@);
    out
}

/// Whether a transaction's outputs can be numbered.
pub open spec fn numbered(tx: Transaction) -> bool {
    tx.outputs@.len() <= u32::MAX
}

impl UtxoSet {
    /// No position is held twice.
    pub closed spec fn wf(&self) -> bool {
        self.entries.wf()
    }

    pub fn new() -> (r: Self)
        ensures
            r.wf(),
            r@ == Map::<OutPoint, EntryView>::empty(),
    {
        let r = UtxoSet { entries: AssocMap::new() };
        assert(r@ =~= Map::<OutPoint, EntryView>::empty());
        r
    }

    pub fn get(&self, p: &OutPoint) -> (r: Option<&UtxoEntry>)
        requires
            self.wf(),
        ensures
            match r {
                Some(e) => self@.contains_key(*p) && e@ == self@[*p],
                None => !self@.contains_key(*p),
            },
    {
        self.entries.get(p)
    }

    /// Adds an output; whether it was absent.
    pub fn insert(&mut self, p: OutPoint, e: UtxoEntry) -> (r: bool)
        requires
            old(self).wf(),
        ensures
            final(self).wf(),
            final(self)@ == old(self)@.insert(p, e@),
            r == !old(self)@.contains_key(p),
    {
        let prev = self.entries.insert(p, e);
        assert(self@ =~= old(self)@.insert(p, e@));
        prev.is_none()
    }

    /// Takes an output out; whether it was there.
    pub fn remove(&mut self, p: &OutPoint) -> (r: bool)
        requires
            old(self).wf(),
        ensures
            final(self).wf(),
            final(self)@ == old(self)@.remove(*p),
            r == old(self)@.contains_key(*p),
    {
        let prev = self.entries.remove(p);
        assert(self@ =~= old(self)@.remove(*p));
        prev.is_some()
    }

    fn find_apply_fault(&self, tx: &Transaction) -> (r: Option<UtxoError>)
        requires
            self.wf(),
            numbered(*tx),
        ensures
            match r {
                Some(e) => !can_apply(self@, *tx) && e == apply_fault(self@, *tx),
                None => can_apply(self@, *tx),
            },
    {
        let none: Vec<OutPoint> = Vec::new();
        let inputs: &Vec<OutPoint> = if tx.is_coinbase {
            &none
        } else {
            &tx.inputs
        };
        assert(inputs@ =~= spends(*tx));
        let n: usize = inputs.len();
        let mut i: usize = 0;
        while i < n
            invariant
                n == inputs@.len(),
                i <= n,
                self.wf(),
                inputs@ == spends(*tx),
                inputs@.take(i as int).no_duplicates(),
                forall|j: int| 0 <= j < i ==> self@.contains_key(#[trigger] inputs@[j]),
            decreases n - i,
        {
            let p: OutPoint = inputs[i];
            if self.get(&p).is_none() {
                assert(!self@.contains_key(spends(*tx)[i as int]));
                return Some(UtxoError::MissingInput);
            }
            if is_among(inputs, i, &p) {
                proof {
                    let j = choose|j: int|
                        0 <= j < inputs@.take(i as int).len() && inputs@.take(i as int)[j] == p;
                    assert(spends(*tx)[j] == spends(*tx)[i as int]);
                }
                return Some(UtxoError::MissingInput);
            }
            proof {
                let more = inputs@.take(i + 1);
                assert forall|a: int, b: int| 0 <= a < b < more.len() implies more[a] != more[b] by {
                    let done = inputs@.take(i as int);
                    assert(more[a] == done[a]);
                    if b == i {
                        assert(done.contains(done[a]));
                    } else {
                        assert(more[b] == done[b]);
                    }
                }
            }
            i = i + 1;
        }
        assert(inputs@.take(n as int) =~= inputs@);
        let m: usize = tx.outputs.len();
        let mut k: usize = 0;
        while k < m
            invariant
                n == inputs@.len(),
                m == tx.outputs@.len(),
                k <= m,
                numbered(*tx),
                self.wf(),
                inputs@ == spends(*tx),
                inputs@.no_duplicates(),
                forall|j: int| 0 <= j < n ==> self@.contains_key(#[trigger] inputs@[j]),
                forall|p: OutPoint| #[trigger]
                    is_output_of(*tx, p) && p.output_index < k && self@.contains_key(p)
                        ==> inputs@.contains(p),
            decreases m - k,
        {
            let p = OutPoint { tx_id: tx.tx_id, output_index: k as u32 };
            assert(is_output_of(*tx, p));
            assert(inputs@.take(n as int) =~= inputs@);
            if self.get(&p).is_some() && !is_among(inputs, n, &p) {
                return Some(UtxoError::DuplicateOutput);
            }
            assert forall|q: OutPoint| #[trigger]
                is_output_of(*tx, q) && q.output_index < k + 1 && self@.contains_key(
                    q,
                ) implies inputs@.contains(q) by {
                if q.output_index == k {
                    assert(q == p);
                }
            }
            k = k + 1;
        }
        None
    }

    fn spend_inputs(&mut self, tx: &Transaction)
        requires
            old(self).wf(),
            !tx.is_coinbase,
        ensures
            final(self).wf(),
            final(self)@ == old(self)@.remove_keys(tx.inputs@.to_set()),
    {
        let ghost m = self@;
        let mut i: usize = 0;
        assert(m.remove_keys(tx.inputs@.take(0).to_set()) =~= m);
        while i < tx.inputs.len()
            invariant
                i <= tx.inputs@.len(),
                self.wf(),
                m == old(self)@,
                self@ == m.remove_keys(tx.inputs@.take(i as int).to_set()),
            decreases tx.inputs@.len() - i,
        {
            let p: OutPoint = tx.inputs[i];
            let _ = self.remove(&p);
            proof {
                lemma_take_set(tx.inputs@, i as int);
                assert(self@ =~= m.remove_keys(tx.inputs@.take(i + 1).to_set()));
            }
            i = i + 1;
        }
        assert(tx.inputs@.take(i as int) =~= tx.inputs@);
    }

    /// Takes a transaction in, as a whole or not at all.
    pub fn apply_transaction(&mut self, tx: &Transaction, height: u64) -> (r: Result<(), UtxoError>)
        requires
            old(self).wf(),
            numbered(*tx),
        ensures
            final(self).wf(),
            match r {
                Ok(()) => can_apply(old(self)@, *tx) && final(self)@ == apply_tx(
                    old(self)@,
                    *tx,
                    height,
                ),
                Err(e) => !can_apply(old(self)@, *tx) && e == apply_fault(old(self)@, *tx)
                    && final(self)@ == old(self)@,
            },
    {
        match self.find_apply_fault(tx) {
            Some(e) => {
                return Err(e);
            },
            None => {},
        }
        let ghost m = self@;
        if !tx.is_coinbase {
            self.spend_inputs(tx);
        } else {
            assert(m.remove_keys(spends(*tx).to_set()) =~= m);
        }
        let ghost m1 = m.remove_keys(spends(*tx).to_set());
        assert(self@ == m1);
        let mut i: usize = 0;
        assert(m1.union_prefer_right(
            created(*tx, height).restrict(Set::new(|p: OutPoint| p.output_index < 0)),
        ) =~= m1);
        while i < tx.outputs.len()
            invariant
                i <= tx.outputs@.len(),
                numbered(*tx),
                self.wf(),
                self@ == m1.union_prefer_right(
                    created(*tx, height).restrict(Set::new(|p: OutPoint| p.output_index < i)),
                ),
            decreases tx.outputs@.len() - i,
        {
            let p = OutPoint { tx_id: tx.tx_id, output_index: i as u32 };
            let e = UtxoEntry {
                value: tx.outputs[i].value,
                script: copy_bytes(&tx.outputs[i].script),
                height,
                is_coinbase: tx.is_coinbase,
            };
            let _ = self.insert(p, e);
            proof {
                assert(is_output_of(*tx, p));
                let next = created(*tx, height).restrict(
                    Set::new(|p: OutPoint| p.output_index < i + 1),
                );
                assert(self@ =~= m1.union_prefer_right(next));
            }
            i = i + 1;
        }
        assert(created(*tx, height).restrict(
            Set::new(|p: OutPoint| p.output_index < tx.outputs@.len()),
        ) =~= created(*tx, height));
        Ok(())
    }

    fn find_undo_fault(&self, tx: &Transaction, log: &Vec<(OutPoint, UtxoEntry)>) -> (r: Option<
        UtxoError,
    >)
        requires
            self.wf(),
            numbered(*tx),
        ensures
            match r {
                Some(e) => !can_undo(self@, *tx, log@) && e == undo_fault(self@, *tx),
                None => can_undo(self@, *tx, log@),
            },
    {
        let m: usize = tx.outputs.len();
        let mut i: usize = 0;
        while i < m
            invariant
                m == tx.outputs@.len(),
                i <= m,
                numbered(*tx),
                self.wf(),
                forall|p: OutPoint| #[trigger]
                    is_output_of(*tx, p) && p.output_index < i ==> self@.contains_key(p),
            decreases m - i,
        {
            let p = OutPoint { tx_id: tx.tx_id, output_index: i as u32 };
            assert(is_output_of(*tx, p));
            if self.get(&p).is_none() {
                return Some(UtxoError::MissingOutput);
            }
            assert forall|q: OutPoint| #[trigger]
                is_output_of(*tx, q) && q.output_index < i + 1 implies self@.contains_key(q) by {
                if q.output_index == i {
                    assert(q == p);
                }
            }
            i = i + 1;
        }
        if tx.is_coinbase {
            return None;
        }
        let n: usize = tx.inputs.len();
        let mut k: usize = 0;
        while k < n
            invariant
                n == tx.inputs@.len(),
                k <= n,
                !tx.is_coinbase,
                forall|p: OutPoint| #[trigger] is_output_of(*tx, p) ==> self@.contains_key(p),
                forall|j: int| 0 <= j < k ==> logged(log@, #[trigger] tx.inputs@[j]),
            decreases n - k,
        {
            if find_record(log, &tx.inputs[k]).is_none() {
                assert(!logged(log@, spends(*tx)[k as int]));
                return Some(UtxoError::MissingSpentRecord);
            }
            k = k + 1;
        }
        None
    }

    /// Takes a transaction out, given a log of what it spent, as a whole or not
    /// at all.
    pub fn undo_transaction(
        &mut self,
        tx: &Transaction,
        log: &Vec<(OutPoint, UtxoEntry)>,
    ) -> (r: Result<(), UtxoError>)
        requires
            old(self).wf(),
            numbered(*tx),
        ensures
            final(self).wf(),
            match r {
                Ok(()) => can_undo(old(self)@, *tx, log@) && final(self)@ == undo_tx(
                    old(self)@,
                    *tx,
                    log@,
                ),
                Err(e) => !can_undo(old(self)@, *tx, log@) && e == undo_fault(old(self)@, *tx)
                    && final(self)@ == old(self)@,
            },
    {
        match self.find_undo_fault(tx, log) {
            Some(e) => {
                return Err(e);
            },
            None => {},
        }
        let ghost m = self@;
        let mut i: usize = 0;
        assert(m.remove_keys(created(*tx, 0).dom().filter(|p: OutPoint| p.output_index < 0)) =~= m);
        while i < tx.outputs.len()
            invariant
                i <= tx.outputs@.len(),
                numbered(*tx),
                self.wf(),
                self@ == m.remove_keys(
                    created(*tx, 0).dom().filter(|p: OutPoint| p.output_index < i),
                ),
            decreases tx.outputs@.len() - i,
        {
            let p = OutPoint { tx_id: tx.tx_id, output_index: i as u32 };
            assert(is_output_of(*tx, p));
            let _ = self.remove(&p);
            assert(self@ =~= m.remove_keys(
                created(*tx, 0).dom().filter(|p: OutPoint| p.output_index < i + 1),
            ));
            i = i + 1;
        }
        let ghost m1 = m.remove_keys(created(*tx, 0).dom());
        proof {
            assert(created(*tx, 0).dom().filter(
                |p: OutPoint| p.output_index < tx.outputs@.len(),
            ) =~= created(*tx, 0).dom());
            assert(self@ == m1);
        }
        if tx.is_coinbase {
            assert(m1.union_prefer_right(restored(log@, *tx)) =~= m1);
        } else {
            self.restore_inputs(tx, log);
        }
        Ok(())
    }

    fn restore_inputs(&mut self, tx: &Transaction, log: &Vec<(OutPoint, UtxoEntry)>)
        requires
            old(self).wf(),
            !tx.is_coinbase,
            forall|i: int| 0 <= i < spends(*tx).len() ==> logged(log@, #[trigger] spends(*tx)[i]),
        ensures
            final(self).wf(),
            final(self)@ == old(self)@.union_prefer_right(restored(log@, *tx)),
    {
        let ghost m = self@;
        let ghost all = restored(log@, *tx);
        let mut k: usize = 0;
        assert(m.union_prefer_right(all.restrict(tx.inputs@.take(0).to_set())) =~= m);
        while k < tx.inputs.len()
            invariant
                k <= tx.inputs@.len(),
                !tx.is_coinbase,
                self.wf(),
                m == old(self)@,
                all == restored(log@, *tx),
                forall|j: int|
                    0 <= j < spends(*tx).len() ==> logged(log@, #[trigger] spends(*tx)[j]),
                self@ == m.union_prefer_right(all.restrict(tx.inputs@.take(k as int).to_set())),
            decreases tx.inputs@.len() - k,
        {
            let p: OutPoint = tx.inputs[k];
            match find_record(log, &p) {
                Some(j) => {
                    let e = UtxoEntry {
                        value: log[j].1.value,
                        script: copy_bytes(&log[j].1.script),
                        height: log[j].1.height,
                        is_coinbase: log[j].1.is_coinbase,
                    };
                    assert(e@ == log@[j as int].1@);
                    let _ = self.insert(p, e);
                    proof {
                        assert(spends(*tx)[k as int] == p);
                        assert(all.contains_key(p) && all[p] == e@);
                        lemma_restored_step(m, all, tx.inputs@, k as int);
                    }
                },
                None => {
                    assert(logged(log@, spends(*tx)[k as int]));
                },
            }
            k = k + 1;
        }
        proof {
            assert(tx.inputs@.take(k as int) =~= tx.inputs@);
            assert(all.restrict(tx.inputs@.to_set()) =~= all);
        }
    }
}

proof fn lemma_restored_step(m: Utxos, all: Utxos, s: Seq<OutPoint>, k: int)
    requires
        0 <= k < s.len(),
        all.contains_key(s[k]),
    ensures
        m.union_prefer_right(all.restrict(s.take(k + 1).to_set())) == m.union_prefer_right(
            all.restrict(s.take(k).to_set()),
        ).insert(s[k], all[s[k]]),
{
    lemma_take_set(s, k);
    assert(m.union_prefer_right(all.restrict(s.take(k + 1).to_set())) =~= m.union_prefer_right(
        all.restrict(s.take(k).to_set()),
    ).insert(s[k], all[s[k]]));
}

/// Whether a position is among the first `n` of a list.
fn is_among(s: &Vec<OutPoint>, n: usize, p: &OutPoint) -> (r: bool)
    requires
        n <= s@.len(),
    ensures
        r == s@.take(n as int).contains(*p),
{
    let mut i: usize = 0;
    while i < n
        invariant
            i <= n <= s@.len(),
            forall|j: int| 0 <= j < i ==> s@[j] != *p,
        decreases n - i,
    {
        if s[i] == *p {
            assert(s@.take(n as int)[i as int] == *p);
            return true;
        }
        i = i + 1;
    }
    false
}

/// One more element in a prefix is one more element in its set.
proof fn lemma_take_set(s: Seq<OutPoint>, k: int)
    requires
        0 <= k < s.len(),
    ensures
        s.take(k + 1).to_set() == s.take(k).to_set().insert(s[k]),
{
    let done = s.take(k);
    let more = s.take(k + 1);
    let p = s[k];
    assert forall|q: OutPoint| more.to_set().contains(q) == done.to_set().insert(p).contains(q) by {
        if done.contains(q) {
            let j = choose|j: int| 0 <= j < done.len() && done[j] == q;
            assert(more[j] == q);
        }
        if q == p {
            assert(more[k] == q);
        }
        if more.contains(q) {
            let j = choose|j: int| 0 <= j < more.len() && more[j] == q;
            if j < done.len() {
                assert(done[j] == q);
            }
        }
    }
    assert(more.to_set() =~= done.to_set().insert(p));
}

/// The first record of a position in a log.
fn find_record(log: &Vec<(OutPoint, UtxoEntry)>, p: &OutPoint) -> (r: Option<usize>)
    ensures
        match r {
            Some(i) => i < log@.len() && log@[i as int].0 == *p && i == log_pos(log@, *p) && logged(
                log@,
                *p,
            ),
            None => !logged(log@, *p),
        },
{
    let mut i: usize = 0;
    while i < log.len()
        invariant
            i <= log@.len(),
            forall|j: int| 0 <= j < i ==> (#[trigger] log@[j]).0 != *p,
        decreases log@.len() - i,
    {
        if log[i].0 == *p {
            proof {
                let q = log_pos(log@, *p);
                assert(log@[i as int].0 == *p);
                assert(log@[q].0 == *p);
            }
            return Some(i);
        }
        i = i + 1;
    }
    None
}

// ---------------------------------------------------------------------------
// Whole blocks
// ---------------------------------------------------------------------------
/// Why the first of some transactions that cannot be taken in cannot be.
pub open spec fn first_apply_fault(m: Utxos, txs: Seq<Transaction>, height: u64, n: int) -> UtxoError
    decreases n,
{
    if n > 0 && !can_apply_txs(m, txs, height, n - 1) {
        first_apply_fault(m, txs, height, n - 1)
    } else {
        apply_fault(apply_txs(m, txs, height, n - 1), txs[n - 1])
    }
}

/// Why the last of some transactions that cannot be taken out cannot be.
pub open spec fn last_undo_fault(m: Utxos, txs: Seq<Transaction>, log: SpentLog, n: int) -> UtxoError
    decreases txs.len() - n,
{
    if n < txs.len() && !can_undo_txs(m, txs, log, n + 1) {
        last_undo_fault(m, txs, log, n + 1)
    } else {
        undo_fault(undo_txs(m, txs, log, n + 1), txs[n])
    }
}

/// The unspent outputs once those of some transactions are taken in that come
/// before the first that cannot be.
pub open spec fn applied_before_fault(
    m: Utxos,
    txs: Seq<Transaction>,
    height: u64,
    n: int,
) -> Utxos
    decreases n,
{
    if n > 0 && !can_apply_txs(m, txs, height, n - 1) {
        applied_before_fault(m, txs, height, n - 1)
    } else {
        apply_txs(m, txs, height, n - 1)
    }
}

/// The unspent outputs once those of some transactions are taken out that come
/// behind the last that cannot be.
pub open spec fn undone_before_fault(m: Utxos, txs: Seq<Transaction>, log: SpentLog, n: int) -> Utxos
    decreases txs.len() - n,
{
    if n < txs.len() && !can_undo_txs(m, txs, log, n + 1) {
        undone_before_fault(m, txs, log, n + 1)
    } else {
        undo_txs(m, txs, log, n + 1)
    }
}

/// Whether the outputs of all transactions of some blocks can be numbered.
pub open spec fn all_numbered(blocks: Seq<Block>) -> bool {
    forall|i: int, j: int|
        0 <= i < blocks.len() && 0 <= j < blocks[i].transactions@.len() ==> numbered(
            #[trigger] blocks[i].transactions@[j],
        )
}

proof fn lemma_can_apply_prefix(m: Utxos, txs: Seq<Transaction>, height: u64, k: int, n: int)
    requires
        0 <= k <= n,
        can_apply_txs(m, txs, height, n),
    ensures
        can_apply_txs(m, txs, height, k),
    decreases n,
{
    if k < n {
        lemma_can_apply_prefix(m, txs, height, k, n - 1);
    }
}

/// The fault of the first bad transaction is that of the whole list.
proof fn lemma_first_fault(m: Utxos, txs: Seq<Transaction>, height: u64, k: int, n: int)
    requires
        0 < k <= n,
        !can_apply_txs(m, txs, height, k),
    ensures
        !can_apply_txs(m, txs, height, n),
        first_apply_fault(m, txs, height, n) == first_apply_fault(m, txs, height, k),
        applied_before_fault(m, txs, height, n) == applied_before_fault(m, txs, height, k),
    decreases n,
{
    if k < n {
        lemma_first_fault(m, txs, height, k, n - 1);
    }
}

proof fn lemma_last_fault(m: Utxos, txs: Seq<Transaction>, log: SpentLog, k: int, n: int)
    requires
        0 <= n <= k < txs.len(),
        !can_undo_txs(m, txs, log, k),
    ensures
        !can_undo_txs(m, txs, log, n),
        last_undo_fault(m, txs, log, n) == last_undo_fault(m, txs, log, k),
        undone_before_fault(m, txs, log, n) == undone_before_fault(m, txs, log, k),
    decreases k - n,
{
    if n < k {
        lemma_last_fault(m, txs, log, k, n + 1);
    }
}

impl UtxoSet {
    /// Takes the transactions of a block in, in order, up to the first that
    /// cannot be.
    pub fn apply_block_transactions(&mut self, b: &Block) -> (r: Result<(), UtxoError>)
        requires
            old(self).wf(),
            forall|j: int|
                0 <= j < b.transactions@.len() ==> numbered(#[trigger] b.transactions@[j]),
        ensures
            final(self).wf(),
            match r {
                Ok(()) => can_apply_block(old(self)@, *b) && final(self)@ == apply_block(
                    old(self)@,
                    *b,
                ),
                Err(e) => !can_apply_block(old(self)@, *b) && e == first_apply_fault(
                    old(self)@,
                    b.transactions@,
                    b.header.height,
                    b.transactions@.len() as int,
                ) && final(self)@ == applied_before_fault(
                    old(self)@,
                    b.transactions@,
                    b.header.height,
                    b.transactions@.len() as int,
                ),
            },
    {
        let ghost m = self@;
        let h: u64 = b.header.height;
        let mut i: usize = 0;
        while i < b.transactions.len()
            invariant
                i <= b.transactions@.len(),
                h == b.header.height,
                self.wf(),
                m == old(self)@,
                forall|j: int|
                    0 <= j < b.transactions@.len() ==> numbered(#[trigger] b.transactions@[j]),
                can_apply_txs(m, b.transactions@, h, i as int),
                self@ == apply_txs(m, b.transactions@, h, i as int),
            decreases b.transactions@.len() - i,
        {
            match self.apply_transaction(&b.transactions[i], h) {
                Ok(()) => {},
                Err(e) => {
                    proof {
                        lemma_first_fault(
                            m,
                            b.transactions@,
                            h,
                            i + 1,
                            b.transactions@.len() as int,
                        );
                    }
                    return Err(e);
                },
            }
            i = i + 1;
        }
        Ok(())
    }

    /// Takes the transactions of a block out, last first, up to the first that
    /// cannot be.
    pub fn undo_block_transactions(
        &mut self,
        b: &Block,
        log: &Vec<(OutPoint, UtxoEntry)>,
    ) -> (r: Result<(), UtxoError>)
        requires
            old(self).wf(),
            forall|j: int|
                0 <= j < b.transactions@.len() ==> numbered(#[trigger] b.transactions@[j]),
        ensures
            final(self).wf(),
            match r {
                Ok(()) => can_undo_txs(old(self)@, b.transactions@, log@, 0) && final(self)@
                    == undo_txs(old(self)@, b.transactions@, log@, 0),
                Err(e) => !can_undo_txs(old(self)@, b.transactions@, log@, 0) && e
                    == last_undo_fault(old(self)@, b.transactions@, log@, 0) && final(self)@
                    == undone_before_fault(old(self)@, b.transactions@, log@, 0),
            },
    {
        let ghost m = self@;
        let mut i: usize = b.transactions.len();
        while i > 0
            invariant
                i <= b.transactions@.len(),
                self.wf(),
                m == old(self)@,
                forall|j: int|
                    0 <= j < b.transactions@.len() ==> numbered(#[trigger] b.transactions@[j]),
                can_undo_txs(m, b.transactions@, log@, i as int),
                self@ == undo_txs(m, b.transactions@, log@, i as int),
            decreases i,
        {
            match self.undo_transaction(&b.transactions[i - 1], log) {
                Ok(()) => {},
                Err(e) => {
                    proof {
                        lemma_last_fault(m, b.transactions@, log@, i - 1, 0);
                    }
                    return Err(e);
                },
            }
            i = i - 1;
        }
        Ok(())
    }
}

/// The message for a block that could not be taken in again.
pub open spec fn redo_text(height: u64, e: UtxoError) -> Seq<char> {
    "redo_old_chain apply_transaction failed at height "@ + decimal(height as nat) + ": "@
        + e.text()
}

/// What is reported when blocks that are listed newest first cannot all be taken
/// in: the fault of the oldest one that cannot be.
pub open spec fn redo_fault(m: Utxos, newest_first: Seq<Block>) -> Seq<char>
    decreases newest_first.len(),
{
    if newest_first.len() == 0 {
        Seq::empty()
    } else if !can_redo_chain(m, newest_first.skip(1)) {
        redo_fault(m, newest_first.skip(1))
    } else {
        let b = newest_first[0];
        redo_text(
            b.header.height,
            first_apply_fault(
                redo_chain(m, newest_first.skip(1)),
                b.transactions@,
                b.header.height,
                b.transactions@.len() as int,
            ),
        )
    }
}

/// The unspent outputs when blocks that are listed newest first cannot all be
/// taken in: the older blocks are in, and so are the transactions of the oldest
/// bad block that come before its first bad one.
pub open spec fn redone_before_fault(m: Utxos, newest_first: Seq<Block>) -> Utxos
    decreases newest_first.len(),
{
    if newest_first.len() == 0 {
        m
    } else if !can_redo_chain(m, newest_first.skip(1)) {
        redone_before_fault(m, newest_first.skip(1))
    } else {
        let b = newest_first[0];
        applied_before_fault(
            redo_chain(m, newest_first.skip(1)),
            b.transactions@,
            b.header.height,
            b.transactions@.len() as int,
        )
    }
}

proof fn lemma_redo_fault(m: Utxos, blocks: Seq<Block>, k: int, n: int)
    requires
        0 <= n <= k < blocks.len(),
        !can_redo_chain(m, blocks.skip(k)),
    ensures
        !can_redo_chain(m, blocks.skip(n)),
        redo_fault(m, blocks.skip(n)) == redo_fault(m, blocks.skip(k)),
        redone_before_fault(m, blocks.skip(n)) == redone_before_fault(m, blocks.skip(k)),
    decreases k - n,
{
    if n < k {
        lemma_redo_fault(m, blocks, k, n + 1);
        assert(blocks.skip(n).skip(1) =~= blocks.skip(n + 1));
    }
}

/// Takes blocks that are listed newest first in again, oldest first, up to the
/// first that cannot be.
pub fn redo_old_chain_blocks(
    utxo_set: &mut UtxoSet,
    blocks_newest_first: &[Block],
) -> (r: Result<(), String>)
    requires
        old(utxo_set).wf(),
        all_numbered(blocks_newest_first@),
    ensures
        final(utxo_set).wf(),
        match r {
            Ok(()) => can_redo_chain(old(utxo_set)@, blocks_newest_first@) && final(utxo_set)@
                == redo_chain(old(utxo_set)@, blocks_newest_first@),
            Err(msg) => !can_redo_chain(old(utxo_set)@, blocks_newest_first@) && msg@
                == redo_fault(old(utxo_set)@, blocks_newest_first@) && final(utxo_set)@
                == redone_before_fault(old(utxo_set)@, blocks_newest_first@),
        },
{
    let ghost m = utxo_set@;
    let ghost all = blocks_newest_first@;
    let mut k: usize = blocks_newest_first.len();
    assert(all.skip(k as int) =~= Seq::<Block>::empty());
    while k > 0
        invariant
            k <= blocks_newest_first@.len(),
            all == blocks_newest_first@,
            utxo_set.wf(),
            m == old(utxo_set)@,
            all_numbered(all),
            can_redo_chain(m, all.skip(k as int)),
            utxo_set@ == redo_chain(m, all.skip(k as int)),
        decreases k,
    {
        let b = &blocks_newest_first[k - 1];
        proof {
            assert(all.skip(k - 1).skip(1) =~= all.skip(k as int));
            assert(all.skip(k - 1)[0] == *b);
            assert forall|j: int| 0 <= j < b.transactions@.len() implies numbered(
                #[trigger] b.transactions@[j],
            ) by {
                assert(numbered(all[k - 1].transactions@[j]));
            }
        }
        match utxo_set.apply_block_transactions(b) {
            Ok(()) => {},
            Err(e) => {
                let mut s = String::from_str("redo_old_chain apply_transaction failed at height ");
                push_decimal(&mut s, b.header.height);
                s.append(": ");
                s.append(e.message());
                proof {
                    lemma_redo_fault(m, all, k - 1, 0);
                    assert(all.skip(0) =~= all);
                }
                return Err(s);
            },
        }
        k = k - 1;
    }
    assert(all.skip(0) =~= all);
    Ok(())
}

/// The message for a block whose record of spent outputs is missing.
pub open spec fn no_record_text(id: Hash256, height: u64) -> Seq<char> {
    "missing spent-UTXO metadata for block "@ + crate::hexcodec::hex_text(id.0@) + " at height "@
        + decimal(height as nat) + " — cannot undo"@
}

/// The message for a block that could not be taken out.
pub open spec fn undo_text(height: u64, e: UtxoError) -> Seq<char> {
    "undo_applied_new_chain failed at height "@ + decimal(height as nat) + ": "@ + e.text()
}

/// What is reported when blocks that are listed oldest first cannot all be taken
/// out from the `n`-th on: the fault of the newest one that cannot be.
pub open spec fn undo_chain_fault(m: Utxos, oldest_first: Seq<Block>, all: ChainLog, n: int) -> Seq<
    char,
>
    decreases oldest_first.len() - n,
{
    if n >= oldest_first.len() {
        Seq::empty()
    } else if !can_undo_chain(m, oldest_first, all, n + 1) {
        undo_chain_fault(m, oldest_first, all, n + 1)
    } else {
        let b = oldest_first[n];
        if !has_log(all, b.header.id) {
            no_record_text(b.header.id, b.header.height)
        } else {
            undo_text(
                b.header.height,
                last_undo_fault(
                    undo_chain(m, oldest_first, all, n + 1),
                    b.transactions@,
                    log_of(all, b.header.id),
                    0,
                ),
            )
        }
    }
}

/// The unspent outputs when blocks that are listed oldest first cannot all be
/// taken out from the `n`-th on: the newer blocks are out, and so are the
/// transactions of the newest bad block that come behind its last bad one.
pub open spec fn chain_undone_before_fault(
    m: Utxos,
    oldest_first: Seq<Block>,
    all: ChainLog,
    n: int,
) -> Utxos
    decreases oldest_first.len() - n,
{
    if n >= oldest_first.len() {
        m
    } else if !can_undo_chain(m, oldest_first, all, n + 1) {
        chain_undone_before_fault(m, oldest_first, all, n + 1)
    } else {
        let b = oldest_first[n];
        let newer_out = undo_chain(m, oldest_first, all, n + 1);
        if !has_log(all, b.header.id) {
            newer_out
        } else {
            undone_before_fault(newer_out, b.transactions@, log_of(all, b.header.id), 0)
        }
    }
}

proof fn lemma_undo_chain_fault(m: Utxos, blocks: Seq<Block>, all: ChainLog, k: int, n: int)
    requires
        0 <= n <= k < blocks.len(),
        !can_undo_chain(m, blocks, all, k),
    ensures
        !can_undo_chain(m, blocks, all, n),
        undo_chain_fault(m, blocks, all, n) == undo_chain_fault(m, blocks, all, k),
        chain_undone_before_fault(m, blocks, all, n) == chain_undone_before_fault(
            m,
            blocks,
            all,
            k,
        ),
    decreases k - n,
{
    if n < k {
        lemma_undo_chain_fault(m, blocks, all, k, n + 1);
    }
}

/// The first record of a block.
fn find_log(all: &[(Hash256, Vec<(OutPoint, UtxoEntry)>)], id: &Hash256) -> (r: Option<usize>)
    ensures
        match r {
            Some(i) => i < all@.len() && has_log(all@, *id) && all@[i as int].1@ == log_of(
                all@,
                *id,
            ),
            None => !has_log(all@, *id),
        },
{
    let mut i: usize = 0;
    while i < all.len()
        invariant
            i <= all@.len(),
            forall|j: int| 0 <= j < i ==> (#[trigger] all@[j]).0 != *id,
        decreases all@.len() - i,
    {
        if all[i].0 == *id {
            proof {
                assert(all@[i as int].0 == *id);
                let q = choose|i: int|
                    0 <= i < all@.len() && (#[trigger] all@[i]).0 == *id && forall|j: int|
                        0 <= j < i ==> (#[trigger] all@[j]).0 != *id;
                assert(all@[q].0 == *id);
                assert(q == i);
            }
            return Some(i);
        }
        i = i + 1;
    }
    None
}

/// Takes blocks that are listed oldest first out, newest first, up to the first
/// that cannot be.
pub fn undo_applied_new_chain(
    utxo_set: &mut UtxoSet,
    blocks_oldest_first: &[Block],
    all_spent: &[(Hash256, Vec<(OutPoint, UtxoEntry)>)],
) -> (r: Result<(), String>)
    requires
        old(utxo_set).wf(),
        all_numbered(blocks_oldest_first@),
    ensures
        final(utxo_set).wf(),
        match r {
            Ok(()) => {
                &&& can_undo_chain(old(utxo_set)@, blocks_oldest_first@, all_spent@, 0)
                &&& final(utxo_set)@ == undo_chain(
                    old(utxo_set)@,
                    blocks_oldest_first@,
                    all_spent@,
                    0,
                )
            },
            Err(msg) => !can_undo_chain(old(utxo_set)@, blocks_oldest_first@, all_spent@, 0) && msg@
                == undo_chain_fault(old(utxo_set)@, blocks_oldest_first@, all_spent@, 0)
                && final(utxo_set)@ == chain_undone_before_fault(
                old(utxo_set)@,
                blocks_oldest_first@,
                all_spent@,
                0,
            ),
        },
{
    let ghost m = utxo_set@;
    let ghost blocks = blocks_oldest_first@;
    let mut k: usize = blocks_oldest_first.len();
    while k > 0
        invariant
            k <= blocks_oldest_first@.len(),
            blocks == blocks_oldest_first@,
            utxo_set.wf(),
            m == old(utxo_set)@,
            all_numbered(blocks),
            can_undo_chain(m, blocks, all_spent@, k as int),
            utxo_set@ == undo_chain(m, blocks, all_spent@, k as int),
        decreases k,
    {
        let b = &blocks_oldest_first[k - 1];
        let id: Hash256 = b.header.block_id();
        proof {
            assert forall|j: int| 0 <= j < b.transactions@.len() implies numbered(
                #[trigger] b.transactions@[j],
            ) by {
                assert(numbered(blocks[k - 1].transactions@[j]));
            }
        }
        match find_log(all_spent, &id) {
            None => {
                let mut s = String::from_str("missing spent-UTXO metadata for block ");
                let hex = crate::hexcodec::hex_encode(id.0.as_slice());
                s.append(hex.as_str());
                s.append(" at height ");
                push_decimal(&mut s, b.header.height);
                s.append(" — cannot undo");
                proof {
                    lemma_undo_chain_fault(m, blocks, all_spent@, k - 1, 0);
                }
                return Err(s);
            },
            Some(i) => {
                match utxo_set.undo_block_transactions(b, &all_spent[i].1) {
                    Ok(()) => {},
                    Err(e) => {
                        let mut s = String::from_str("undo_applied_new_chain failed at height ");
                        push_decimal(&mut s, b.header.height);
                        s.append(": ");
                        s.append(e.message());
                        proof {
                            lemma_undo_chain_fault(m, blocks, all_spent@, k - 1, 0);
                        }
                        return Err(s);
                    },
                }
            },
        }
        k = k - 1;
    }
    Ok(())
}

// ---------------------------------------------------------------------------
// Laws
// ---------------------------------------------------------------------------
/// Whether a log records what a transaction found where it spends.
pub open spec fn faithful_tx(m: Utxos, tx: Transaction, log: SpentLog) -> bool {
    forall|i: int|
        0 <= i < spends(tx).len() ==> logged(log, #[trigger] spends(tx)[i]) && log[log_pos(
            log,
            spends(tx)[i],
        )].1@ == m[spends(tx)[i]]
}

/// Whether a log records what each transaction of a list found where it spends,
/// as they are taken in one after the other.
pub open spec fn faithful_txs(m: Utxos, txs: Seq<Transaction>, height: u64, log: SpentLog) -> bool {
    forall|n: int|
        0 <= n < txs.len() ==> faithful_tx(#[trigger] apply_txs(m, txs, height, n), txs[n], log)
}

/// The unspent outputs after the first `n` of some blocks, oldest first.
pub open spec fn apply_chain(m: Utxos, oldest_first: Seq<Block>, n: int) -> Utxos
    decreases n,
{
    if n <= 0 {
        m
    } else {
        apply_block(apply_chain(m, oldest_first, n - 1), oldest_first[n - 1])
    }
}

/// Whether the logs record what each of some blocks found as it was taken in.
pub open spec fn faithful_chain(m: Utxos, oldest_first: Seq<Block>, all: ChainLog) -> bool {
    forall|n: int|
        #![trigger apply_chain(m, oldest_first, n)]
        0 <= n < oldest_first.len() ==> can_apply_block(
            apply_chain(m, oldest_first, n),
            oldest_first[n],
        ) && has_log(all, oldest_first[n].header.id) && faithful_txs(
            apply_chain(m, oldest_first, n),
            oldest_first[n].transactions@,
            oldest_first[n].header.height,
            log_of(all, oldest_first[n].header.id),
        )
}

/// Taking a transaction out undoes taking it in.
pub proof fn law_undo_reverts_apply(m: Utxos, tx: Transaction, height: u64, log: SpentLog)
    requires
        can_apply(m, tx),
        faithful_tx(m, tx, log),
    ensures
        can_undo(apply_tx(m, tx, height), tx, log),
        undo_tx(apply_tx(m, tx, height), tx, log) == m,
{
    let t = apply_tx(m, tx, height);
    assert forall|p: OutPoint| #[trigger] is_output_of(tx, p) implies t.contains_key(p) by {
        assert(created(tx, height).contains_key(p));
    }
    let u = undo_tx(t, tx, log);
    assert forall|p: OutPoint| u.contains_key(p) == m.contains_key(p) && (m.contains_key(p)
        ==> u[p] == m[p]) by {
        if spends(tx).contains(p) {
            let i = choose|i: int| 0 <= i < spends(tx).len() && spends(tx)[i] == p;
            assert(m.contains_key(spends(tx)[i]));
            assert(restored(log, tx).contains_key(p));
        } else if is_output_of(tx, p) {
            assert(!m.contains_key(p));
            assert(created(tx, 0).contains_key(p));
        } else {
            assert(!created(tx, 0).contains_key(p));
            assert(!spends(tx).to_set().contains(p));
        }
    }
    assert(u =~= m);
}

proof fn lemma_undo_txs_reverts(
    m: Utxos,
    txs: Seq<Transaction>,
    height: u64,
    log: SpentLog,
    n: int,
)
    requires
        0 <= n <= txs.len(),
        can_apply_txs(m, txs, height, txs.len() as int),
        faithful_txs(m, txs, height, log),
    ensures
        can_undo_txs(apply_txs(m, txs, height, txs.len() as int), txs, log, n),
        undo_txs(apply_txs(m, txs, height, txs.len() as int), txs, log, n) == apply_txs(
            m,
            txs,
            height,
            n,
        ),
    decreases txs.len() - n,
{
    if n < txs.len() {
        lemma_undo_txs_reverts(m, txs, height, log, n + 1);
        lemma_can_apply_prefix(m, txs, height, n + 1, txs.len() as int);
        assert(faithful_tx(apply_txs(m, txs, height, n), txs[n], log));
        law_undo_reverts_apply(apply_txs(m, txs, height, n), txs[n], height, log);
    }
}

/// Taking a block out undoes taking it in, whatever its transactions spend of
/// each other.
pub proof fn law_undo_block_reverts_apply(m: Utxos, b: Block, log: SpentLog)
    requires
        can_apply_block(m, b),
        faithful_txs(m, b.transactions@, b.header.height, log),
    ensures
        can_undo_txs(apply_block(m, b), b.transactions@, log, 0),
        undo_txs(apply_block(m, b), b.transactions@, log, 0) == m,
{
    lemma_undo_txs_reverts(m, b.transactions@, b.header.height, log, 0);
}

proof fn lemma_undo_chain_reverts(m: Utxos, blocks: Seq<Block>, all: ChainLog, n: int)
    requires
        0 <= n <= blocks.len(),
        faithful_chain(m, blocks, all),
    ensures
        can_undo_chain(apply_chain(m, blocks, blocks.len() as int), blocks, all, n),
        undo_chain(apply_chain(m, blocks, blocks.len() as int), blocks, all, n) == apply_chain(
            m,
            blocks,
            n,
        ),
    decreases blocks.len() - n,
{
    if n < blocks.len() {
        lemma_undo_chain_reverts(m, blocks, all, n + 1);
        let before = apply_chain(m, blocks, n);
        assert(apply_chain(m, blocks, n + 1) == apply_block(before, blocks[n]));
        law_undo_block_reverts_apply(before, blocks[n], log_of(all, blocks[n].header.id));
    }
}

/// Taking a chain of blocks out undoes taking it in.
pub proof fn law_undo_chain_reverts_apply(m: Utxos, oldest_first: Seq<Block>, all: ChainLog)
    requires
        faithful_chain(m, oldest_first, all),
    ensures
        can_undo_chain(
            apply_chain(m, oldest_first, oldest_first.len() as int),
            oldest_first,
            all,
            0,
        ),
        undo_chain(
            apply_chain(m, oldest_first, oldest_first.len() as int),
            oldest_first,
            all,
            0,
        ) == m,
{
    lemma_undo_chain_reverts(m, oldest_first, all, 0);
}

/// A reorganisation that fails half way leaves no trace: with the applied part of
/// the new chain taken out and the old chain taken in again, the unspent outputs
/// are those before it began.
pub proof fn law_failed_reorg_restores(
    fork: Utxos,
    old_newest_first: Seq<Block>,
    applied_oldest_first: Seq<Block>,
    all: ChainLog,
)
    requires
        can_redo_chain(fork, old_newest_first),
        faithful_chain(fork, applied_oldest_first, all),
    ensures
        ({
            let halfway = apply_chain(
                fork,
                applied_oldest_first,
                applied_oldest_first.len() as int,
            );
            let back = undo_chain(halfway, applied_oldest_first, all, 0);
            &&& can_undo_chain(halfway, applied_oldest_first, all, 0)
            &&& can_redo_chain(back, old_newest_first)
            &&& redo_chain(back, old_newest_first) == redo_chain(fork, old_newest_first)
        }),
{
    law_undo_chain_reverts_apply(fork, applied_oldest_first, all);
}

/// A redo stops at the first transaction that cannot be taken in: the older
/// blocks are in, the transactions before it are in, and nothing else is.
pub proof fn law_redo_stops_at_the_first_fault(m: Utxos, newest_first: Seq<Block>, k: int, t: int)
    requires
        0 <= k < newest_first.len(),
        can_redo_chain(m, newest_first.skip(k + 1)),
        0 <= t < newest_first[k].transactions@.len(),
        ({
            let b = newest_first[k];
            let start = redo_chain(m, newest_first.skip(k + 1));
            can_apply_txs(start, b.transactions@, b.header.height, t) && !can_apply(
                apply_txs(start, b.transactions@, b.header.height, t),
                b.transactions@[t],
            )
        }),
    ensures
        !can_redo_chain(m, newest_first),
        redone_before_fault(m, newest_first) == apply_txs(
            redo_chain(m, newest_first.skip(k + 1)),
            newest_first[k].transactions@,
            newest_first[k].header.height,
            t,
        ),
{
    let b = newest_first[k];
    let start = redo_chain(m, newest_first.skip(k + 1));
    let n = b.transactions@.len() as int;
    lemma_first_fault(start, b.transactions@, b.header.height, t + 1, n);
    assert(newest_first.skip(k).skip(1) =~= newest_first.skip(k + 1));
    lemma_redo_fault(m, newest_first, k, 0);
    assert(newest_first.skip(0) =~= newest_first);
}

/// An undo stops at the newest block without a record: the blocks above it are
/// out, and nothing else is.
pub proof fn law_undo_stops_at_a_missing_record(
    m: Utxos,
    oldest_first: Seq<Block>,
    all: ChainLog,
    k: int,
)
    requires
        0 <= k < oldest_first.len(),
        can_undo_chain(m, oldest_first, all, k + 1),
        !has_log(all, oldest_first[k].header.id),
    ensures
        !can_undo_chain(m, oldest_first, all, 0),
        chain_undone_before_fault(m, oldest_first, all, 0) == undo_chain(
            m,
            oldest_first,
            all,
            k + 1,
        ),
        undo_chain_fault(m, oldest_first, all, 0) == no_record_text(
            oldest_first[k].header.id,
            oldest_first[k].header.height,
        ),
{
    lemma_undo_chain_fault(m, oldest_first, all, k, 0);
}

} // verus!
