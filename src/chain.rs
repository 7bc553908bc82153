use vstd::prelude::*;

use crate::api::{is_hash_text, is_valid_hash};
use crate::filter::matching;
use crate::records::{inclusion_consistent, is_listed_in, is_receipt_of, listed_in, receipt_fits};
use crate::model::{
    log_views, Block, Log, LogFilter, LogView, QueryError, Transaction, TransactionReceipt,
};

verus! {

/// `a` comes strictly before `b` in the canonical log order:
/// by block number, then transaction index, then log index.
pub open spec fn log_before(a: LogView, b: LogView) -> bool {
    ||| a.block_number < b.block_number
    ||| (a.block_number == b.block_number && a.transaction_index < b.transaction_index)
    ||| (a.block_number == b.block_number && a.transaction_index == b.transaction_index
        && a.log_index < b.log_index)
}

/// The logs are in strictly ascending canonical order (so no two share a position).
pub open spec fn sorted_logs(s: Seq<LogView>) -> bool {
    forall|i: int, j: int| 0 <= i < j < s.len() ==> log_before(#[trigger] s[i], #[trigger] s[j])
}

/// Every log of the sequence was emitted in block `n`.
pub open spec fn all_in_block(s: Seq<LogView>, n: int) -> bool {
    forall|j: int| 0 <= j < s.len() ==> (#[trigger] s[j]).block_number == n
}

/// The first transaction of `txs` whose hash is `h`, if any.
pub open spec fn first_tx_with_hash(txs: Seq<Transaction>, h: Seq<char>) -> Option<int> {
    if exists|i: int| 0 <= i < txs.len() && txs[i].hash@ == h {
        Some(
            choose|i: int|
                0 <= i < txs.len() && txs[i].hash@ == h && forall|k: int|
                    0 <= k < i ==> txs[k].hash@ != h,
        )
    } else {
        None
    }
}

/// Transaction hashes are pairwise distinct.
pub open spec fn distinct_tx_hashes(txs: Seq<Transaction>) -> bool {
    forall|a: int, b: int| 0 <= a < b < txs.len() ==> (#[trigger] txs[a]).hash@ != (#[trigger] txs[b]).hash@
}

/// With distinct hashes, the first transaction with the hash of `txs[i]` is `txs[i]`.
pub proof fn lemma_distinct_tx_first(txs: Seq<Transaction>, i: int)
    requires
        0 <= i < txs.len(),
        distinct_tx_hashes(txs),
    ensures
        first_tx_with_hash(txs, txs[i].hash@) == Some(i),
{
    let h = txs[i].hash@;
    assert(forall|k: int| 0 <= k < i ==> txs[k].hash@ != h);
    let c = choose|c: int|
        0 <= c < txs.len() && txs[c].hash@ == h && forall|k: int| 0 <= k < c ==> txs[k].hash@ != h;
    if c < i {
        assert(txs[c].hash@ != txs[i].hash@);
    } else if c > i {
        assert(txs[i].hash@ != txs[c].hash@);
    }
}

/// A block's new transactions and receipts may be recorded beside `stored`:
/// the block lists each transaction at its position and the transaction
/// points back; each receipt fits its transaction; and no hash repeats.
pub open spec fn new_records_fit(
    stored: Seq<Transaction>,
    block: Block,
    txs: Seq<Transaction>,
    rs: Seq<TransactionReceipt>,
) -> bool {
    &&& txs.len() == block.transactions@.len()
    &&& rs.len() == txs.len()
    &&& forall|k: int| 0 <= k < txs.len() ==> #[trigger] listed_in(txs[k], block, k)
    &&& forall|k: int| 0 <= k < txs.len() ==> #[trigger] receipt_fits(rs[k], txs[k])
    &&& forall|k: int, i: int|
        0 <= k < txs.len() && 0 <= i < stored.len() ==> (#[trigger] stored[i]).hash@
            != (#[trigger] txs[k]).hash@
    &&& distinct_tx_hashes(txs)
}

/// An in-memory view of a canonical chain: blocks by number, the logs of each
/// block, and the transactions and receipts that point lookups serve.
pub struct ChainData {
    blocks: Vec<Block>,
    block_logs: Vec<Vec<Log>>,
    transactions: Vec<Transaction>,
    receipts: Vec<Option<TransactionReceipt>>,
}

impl ChainData {
    /// The blocks, where the block at index `n` has number `n`.
    pub closed spec fn blocks(&self) -> Seq<Block> {
        self.blocks@
    }

    /// The logs of each block, by block number.
    pub closed spec fn logs(&self) -> Seq<Seq<LogView>> {
        self.block_logs@.map_values(|v: Vec<Log>| log_views(v@))
    }

    pub closed spec fn transactions(&self) -> Seq<Transaction> {
        self.transactions@
    }

    /// The receipt of each transaction, by the transaction's index; none
    /// for a pending transaction.
    pub closed spec fn receipts(&self) -> Seq<Option<TransactionReceipt>> {
        self.receipts@
    }

    /// The block may follow a chain of `len` blocks whose last hash is `tip`,
    /// carrying these logs.
    pub open spec fn block_fits(
        len: int,
        tip: Option<Seq<char>>,
        block: Block,
        logs: Seq<LogView>,
    ) -> bool {
        &&& block.number == len
        &&& match tip {
            Some(h) => block.parent_hash@ == h,
            None => true,
        }
        &&& all_in_block(logs, len)
        &&& sorted_logs(logs)
    }

    /// The hash of the head block, if any.
    pub open spec fn tip(&self) -> Option<Seq<char>> {
        if self.blocks().len() == 0 {
            None
        } else {
            Some(self.blocks().last().hash@)
        }
    }

    /// Blocks are numbered densely from genesis, each names its predecessor
    /// as parent, and each block's logs belong to it and are in canonical order.
    pub open spec fn wf(&self) -> bool {
        &&& self.logs().len() == self.blocks().len()
        &&& forall|i: int| 0 <= i < self.blocks().len() ==> (#[trigger] self.blocks()[i]).number == i
        &&& forall|i: int|
            0 < i < self.blocks().len() ==> (#[trigger] self.blocks()[i].parent_hash)@
                == self.blocks()[i - 1].hash@
        &&& forall|i: int| 0 <= i < self.logs().len() ==> #[trigger] all_in_block(self.logs()[i], i)
        &&& forall|i: int| 0 <= i < self.logs().len() ==> #[trigger] sorted_logs(self.logs()[i])
        &&& self.records_wf()
    }

    /// Some recorded transaction is the one that block `b` lists at
    /// position `k`, and points back to it.
    pub open spec fn lists_recorded(&self, b: int, k: int) -> bool {
        exists|i: int|
            0 <= i < self.transactions().len() && #[trigger] listed_in(
                self.transactions()[i],
                self.blocks()[b],
                k,
            )
    }

    /// Block hashes are well-formed and distinct; a block's listed
    /// transactions are recorded and point back to it; transactions have
    /// distinct hashes and consistent inclusion fields; exactly the included
    /// ones have a receipt, and it fits them.
    pub open spec fn records_wf(&self) -> bool {
        &&& forall|b: int| 0 <= b < self.blocks().len() ==> is_hash_text(#[trigger] self.blocks()[b].hash@)
        &&& forall|a: int, b: int|
            0 <= a < b < self.blocks().len() ==> (#[trigger] self.blocks()[a]).hash@
                != (#[trigger] self.blocks()[b]).hash@
        &&& forall|b: int, k: int|
            0 <= b < self.blocks().len() && 0 <= k < self.blocks()[b].transactions@.len()
                ==> #[trigger] self.lists_recorded(b, k)
        &&& distinct_tx_hashes(self.transactions())
        &&& self.receipts().len() == self.transactions().len()
        &&& forall|i: int|
            0 <= i < self.transactions().len() ==> #[trigger] inclusion_consistent(
                self.transactions()[i],
            )
        &&& forall|i: int|
            0 <= i < self.receipts().len() ==> ((#[trigger] self.receipts()[i]) is Some
                == self.transactions()[i].block_number is Some)
        &&& forall|i: int|
            0 <= i < self.receipts().len() ==> (#[trigger] self.receipts()[i] matches Some(r)
                ==> receipt_fits(r, self.transactions()[i]))
    }

    /// The number of blocks.
    pub fn block_count(&self) -> (r: usize)
        ensures
            r == self.blocks().len(),
    {
        self.blocks.len()
    }

    /// Whether block `i` has hash `h`.
    pub fn block_hash_is(&self, i: usize, h: &String) -> (r: bool)
        requires
            i < self.blocks().len(),
        ensures
            r == (self.blocks()[i as int].hash@ == h@),
    {
        self.blocks[i].hash == *h
    }

    /// Appends copies of the logs of block `i` that match `f`.
    pub fn append_block_matches(&self, f: &LogFilter, i: usize, out: &mut Vec<Log>)
        requires
            self.wf(),
            i < self.blocks().len(),
        ensures
            log_views(final(out)@) == log_views(old(out)@) + matching(*f, self.logs()[i as int]),
    {
        crate::query::append_matching(f, &self.block_logs[i], out);
    }

    /// The index of the first recorded transaction with hash `h`.
    fn tx_index_by_hash(&self, h: &String) -> (r: Option<usize>)
        ensures
            r is None <==> first_tx_with_hash(self.transactions(), h@) is None,
            r matches Some(i) ==> first_tx_with_hash(self.transactions(), h@) == Some(i as int)
                && i < self.transactions().len(),
    {
        let mut i: usize = 0;
        while i < self.transactions.len()
            invariant
                i <= self.transactions().len(),
                forall|k: int| 0 <= k < i ==> self.transactions()[k].hash@ != h@,
            decreases self.transactions.len() - i,
        {
            if self.transactions[i].hash == *h {
                proof {
                    let c = choose|c: int|
                        0 <= c < self.transactions().len() && self.transactions()[c].hash@ == h@
                            && forall|k: int| 0 <= k < c ==> self.transactions()[k].hash@ != h@;
                    assert(c == i);
                }
                return Some(i);
            }
            i += 1;
        }
        None
    }

    /// The recorded transaction with hash `h`.
    pub fn transaction_by_hash(&self, h: &String) -> (r: Option<Transaction>)
        ensures
            r == (match first_tx_with_hash(self.transactions(), h@) {
                Some(i) => Some(self.transactions()[i]),
                None => None::<Transaction>,
            }),
    {
        match self.tx_index_by_hash(h) {
            Some(i) => Some(self.transactions[i].copy()),
            None => None,
        }
    }

    /// The receipt of the recorded transaction with hash `h`; none when the
    /// transaction is unknown or pending.
    pub fn receipt_by_hash(&self, h: &String) -> (r: Option<TransactionReceipt>)
        requires
            self.wf(),
        ensures
            match first_tx_with_hash(self.transactions(), h@) {
                Some(i) => match self.receipts()[i] {
                    Some(x) => r matches Some(y) && y.is_copy_of(x),
                    None => r is None,
                },
                None => r is None,
            },
    {
        match self.tx_index_by_hash(h) {
            Some(i) => match &self.receipts[i] {
                Some(x) => Some(x.copy()),
                None => None,
            },
            None => None,
        }
    }

    /// A copy of block `i`.
    pub fn block_at(&self, i: usize) -> (r: Block)
        requires
            i < self.blocks().len(),
        ensures
            r.is_copy_of(self.blocks()[i as int]),
    {
        self.blocks[i].copy()
    }

    /// The transactions that block `b` lists, in its order.
    pub fn block_transactions(&self, b: usize) -> (r: Vec<Transaction>)
        requires
            self.wf(),
            b < self.blocks().len(),
        ensures
            r@.len() == self.blocks()[b as int].transactions@.len(),
            forall|k: int|
                0 <= k < r@.len() ==> (listed_in(#[trigger] r@[k], self.blocks()[b as int], k)
                    && (first_tx_with_hash(self.transactions(), r@[k].hash@) matches Some(i)
                    && r@[k] == self.transactions()[i])),
    {
        let hashes = &self.blocks[b].transactions;
        let mut r: Vec<Transaction> = Vec::new();
        let mut j: usize = 0;
        while j < hashes.len()
            invariant
                self.wf(),
                b < self.blocks().len(),
                *hashes == self.blocks()[b as int].transactions,
                j <= hashes@.len(),
                r@.len() == j,
                forall|k: int|
                    0 <= k < j ==> (listed_in(#[trigger] r@[k], self.blocks()[b as int], k)
                        && (first_tx_with_hash(self.transactions(), r@[k].hash@) matches Some(i)
                        && r@[k] == self.transactions()[i])),
            decreases hashes@.len() - j,
        {
            assert(self.blocks()[b as int].transactions@[j as int] == hashes@[j as int]);
            assert(self.lists_recorded(b as int, j as int));
            let ghost i = choose|i: int|
                0 <= i < self.transactions().len() && #[trigger] listed_in(
                    self.transactions()[i],
                    self.blocks()[b as int],
                    j as int,
                );
            proof {
                lemma_distinct_tx_first(self.transactions(), i);
            }
            match self.transaction_by_hash(&hashes[j]) {
                Some(tx) => {
                    r.push(tx);
                },
                None => {},
            }
            j += 1;
        }
        r
    }

    /// An empty chain.
    pub fn new() -> (r: ChainData)
        ensures
            r.wf(),
            r.blocks().len() == 0,
            r.transactions().len() == 0,
            r.receipts().len() == 0,
    {
        let r = ChainData {
            blocks: Vec::new(),
            block_logs: Vec::new(),
            transactions: Vec::new(),
            receipts: Vec::new(),
        };
        assert(r.logs() =~= Seq::empty());
        r
    }

    /// The number of the head block, if the chain has any block.
    pub fn head_number(&self) -> (r: Option<u64>)
        requires
            self.wf(),
        ensures
            r == (if self.blocks().len() == 0 {
                None::<u64>
            } else {
                Some((self.blocks().len() - 1) as u64)
            }),
    {
        let n = self.blocks.len();
        if n == 0 {
            None
        } else {
            proof {
                assert(self.blocks()[n - 1].number == n - 1);
            }
            Some(self.blocks[n - 1].number)
        }
    }

    fn logs_in_order(logs: &Vec<Log>, number: u64) -> (r: bool)
        ensures
            r == (all_in_block(log_views(logs@), number as int) && sorted_logs(log_views(logs@))),
    {
        let ghost s = log_views(logs@);
        let mut j: usize = 0;
        while j < logs.len()
            invariant
                j <= logs.len(),
                s == log_views(logs@),
                all_in_block(s.subrange(0, j as int), number as int),
                sorted_logs(s.subrange(0, j as int)),
            decreases logs.len() - j,
        {
            if logs[j].block_number != number {
                proof {
                    assert(s[j as int].block_number != number);
                }
                return false;
            }
            proof {
                if j > 0 {
                    assert(s.subrange(0, j as int)[j - 1] == s[j - 1]);
                }
            }
            if j > 0 {
                let a = &logs[j - 1];
                let b = &logs[j];
                let before = a.transaction_index < b.transaction_index || (a.transaction_index
                    == b.transaction_index && a.log_index < b.log_index);
                if !before {
                    proof {
                        assert(s[j - 1] == a@);
                        assert(!log_before(s[j - 1], s[j as int]));
                    }
                    return false;
                }
                proof {
                    assert(s[j - 1].block_number == number);
                    assert(log_before(s[j - 1], s[j as int]));
                }
            }
            proof {
                let t = s.subrange(0, j + 1);
                assert forall|x: int, y: int| 0 <= x < y < t.len() implies log_before(
                    #[trigger] t[x],
                    #[trigger] t[y],
                ) by {
                    if y < j {
                        assert(s.subrange(0, j as int)[x] == t[x]);
                        assert(s.subrange(0, j as int)[y] == t[y]);
                    } else if x < j - 1 {
                        assert(s.subrange(0, j as int)[x] == t[x]);
                        assert(s.subrange(0, j as int)[j - 1] == t[j - 1]);
                    }
                };
                assert forall|x: int| 0 <= x < t.len() implies (#[trigger] t[x]).block_number
                    == number by {
                    if x < j {
                        assert(s.subrange(0, j as int)[x] == t[x]);
                    }
                };
            }
            j += 1;
        }
        assert(s.subrange(0, logs.len() as int) =~= s);
        true
    }

    /// The chain accepts `block` next, with its logs, the transactions it
    /// lists and their receipts.
    pub open spec fn accepts(
        &self,
        block: Block,
        logs: Seq<LogView>,
        txs: Seq<Transaction>,
        rs: Seq<TransactionReceipt>,
    ) -> bool {
        &&& Self::block_fits(self.blocks().len() as int, self.tip(), block, logs)
        &&& is_hash_text(block.hash@)
        &&& forall|b: int| 0 <= b < self.blocks().len() ==> (#[trigger] self.blocks()[b]).hash@ != block.hash@
        &&& new_records_fit(self.transactions(), block, txs, rs)
    }

    fn block_hash_is_new(&self, h: &String) -> (r: bool)
        ensures
            r == forall|b: int| 0 <= b < self.blocks().len() ==> (#[trigger] self.blocks()[b]).hash@ != h@,
    {
        let mut i: usize = 0;
        while i < self.blocks.len()
            invariant
                i <= self.blocks().len(),
                forall|b: int| 0 <= b < i ==> (#[trigger] self.blocks()[b]).hash@ != h@,
            decreases self.blocks.len() - i,
        {
            if self.blocks[i].hash == *h {
                return false;
            }
            i += 1;
        }
        true
    }

    fn tx_hash_is_new(&self, h: &String) -> (r: bool)
        ensures
            r == forall|i: int| 0 <= i < self.transactions().len() ==> (#[trigger] self.transactions()[i]).hash@ != h@,
    {
        match self.tx_index_by_hash(h) {
            Some(_) => false,
            None => true,
        }
    }

    fn records_fit(&self, block: &Block, txs: &Vec<Transaction>, rs: &Vec<TransactionReceipt>) -> (ok: bool)
        ensures
            ok == new_records_fit(self.transactions(), *block, txs@, rs@),
    {
        if txs.len() != block.transactions.len() || rs.len() != txs.len() {
            return false;
        }
        let mut k: usize = 0;
        while k < txs.len()
            invariant
                k <= txs@.len(),
                txs@.len() == block.transactions@.len(),
                rs@.len() == txs@.len(),
                forall|x: int| 0 <= x < k ==> #[trigger] listed_in(txs@[x], *block, x),
                forall|x: int| 0 <= x < k ==> #[trigger] receipt_fits(rs@[x], txs@[x]),
                forall|x: int, i: int|
                    0 <= x < k && 0 <= i < self.transactions().len() ==> (
                    #[trigger] self.transactions()[i]).hash@ != (#[trigger] txs@[x]).hash@,
                distinct_tx_hashes(txs@.subrange(0, k as int)),
            decreases txs.len() - k,
        {
            if !is_listed_in(&txs[k], block, k) || !is_receipt_of(&rs[k], &txs[k]) {
                return false;
            }
            if !self.tx_hash_is_new(&txs[k].hash) {
                return false;
            }
            let mut j: usize = 0;
            while j < k
                invariant
                    j <= k < txs@.len(),
                    forall|y: int| 0 <= y < j ==> (#[trigger] txs@[y]).hash@ != txs@[k as int].hash@,
                decreases k - j,
            {
                if txs[j].hash == txs[k].hash {
                    assert(!distinct_tx_hashes(txs@));
                    return false;
                }
                j += 1;
            }
            proof {
                let p = txs@.subrange(0, k as int);
                let q = txs@.subrange(0, k + 1);
                assert forall|x: int, y: int| 0 <= x < y < q.len() implies (#[trigger] q[x]).hash@
                    != (#[trigger] q[y]).hash@ by {
                    if y < k {
                        assert(p[x] == q[x] && p[y] == q[y]);
                    }
                };
            }
            k += 1;
        }
        assert(txs@.subrange(0, txs@.len() as int) =~= txs@);
        true
    }

    /// Appends a block with its logs, the transactions it lists (in its
    /// order) and their receipts. Fails with `InvalidArgument`, leaving the
    /// chain unchanged, unless the block is the next one with the head as
    /// parent and a new well-formed hash, its logs belong to it in canonical
    /// order, and the transactions and receipts fit it.
    pub fn push_block(
        &mut self,
        block: Block,
        logs: Vec<Log>,
        transactions: Vec<Transaction>,
        receipts: Vec<TransactionReceipt>,
    ) -> (r: Result<(), QueryError>)
        requires
            old(self).wf(),
        ensures
            final(self).wf(),
            r is Ok == old(self).accepts(block, log_views(logs@), transactions@, receipts@),
            r is Ok ==> final(self).blocks() == old(self).blocks().push(block) && final(self).logs()
                == old(self).logs().push(log_views(logs@)) && final(self).transactions()
                == old(self).transactions() + transactions@ && final(self).receipts()
                == old(self).receipts() + receipts@.map_values(
                |x: TransactionReceipt| Some(x),
            ),
            r is Err ==> r == Err::<(), QueryError>(QueryError::InvalidArgument) && final(self).blocks()
                == old(self).blocks() && final(self).logs() == old(self).logs()
                && final(self).transactions() == old(self).transactions() && final(self).receipts()
                == old(self).receipts(),
    {
        let n = self.blocks.len();
        let next: u64 = match self.head_number() {
            None => 0,
            Some(h) => {
                if h == u64::MAX {
                    return Err(QueryError::InvalidArgument);
                }
                h + 1
            },
        };
        if block.number != next {
            return Err(QueryError::InvalidArgument);
        }
        if n > 0 && self.blocks[n - 1].hash != block.parent_hash {
            return Err(QueryError::InvalidArgument);
        }
        if !Self::logs_in_order(&logs, block.number) {
            return Err(QueryError::InvalidArgument);
        }
        if !is_valid_hash(&block.hash) || !self.block_hash_is_new(&block.hash) {
            return Err(QueryError::InvalidArgument);
        }
        if !self.records_fit(&block, &transactions, &receipts) {
            return Err(QueryError::InvalidArgument);
        }
        let ghost lv = log_views(logs@);
        let ghost ob = self.blocks();
        let ghost old_logs = self.logs();
        let ghost ot = self.transactions();
        let ghost orc = self.receipts();
        let ghost ntx = transactions@;
        let ghost nrs = receipts@;
        let ghost pre = *self;
        self.blocks.push(block);
        self.block_logs.push(logs);
        let mut transactions = transactions;
        self.transactions.append(&mut transactions);
        proof {
            assert(self.logs() =~= old_logs.push(lv));
        }
        let ghost mid_blocks = self.blocks();
        let ghost mid_logs = self.logs();
        let ghost mid_txs = self.transactions();
        let total = receipts.len();
        let mut rest = receipts;
        let mut k: usize = 0;
        while rest.len() > 0
            invariant
                k <= nrs.len(),
                nrs.len() == total,
                self.blocks() == mid_blocks,
                self.logs() == mid_logs,
                self.transactions() == mid_txs,
                rest@ == nrs.subrange(k as int, nrs.len() as int),
                self.receipts@ == orc + nrs.subrange(0, k as int).map_values(
                    |x: TransactionReceipt| Some(x),
                ),
            decreases rest.len(),
        {
            let x = rest.remove(0);
            self.receipts.push(Some(x));
            proof {
                assert(nrs.subrange(0, k + 1).map_values(|x: TransactionReceipt| Some(x))
                    =~= nrs.subrange(0, k as int).map_values(|x: TransactionReceipt| Some(x)).push(
                    Some(x),
                ));
            }
            k = k + 1;
            assert(rest@ =~= nrs.subrange(k as int, nrs.len() as int));
        }
        proof {
            assert(nrs.subrange(0, k as int) =~= nrs);
            let bs = self.blocks();
            let ts = self.transactions();
            let rc = self.receipts();
            assert(bs == ob.push(block));
            assert(ts == ot + ntx);
            assert forall|b: int, j: int|
                0 <= b < bs.len() && 0 <= j < bs[b].transactions@.len() implies #[trigger] self.lists_recorded(b, j) by {
                if b < ob.len() {
                    assert(ob[b] == bs[b]);
                    assert(pre.lists_recorded(b, j));
                    let i = choose|i: int| 0 <= i < ot.len() && #[trigger] listed_in(ot[i], ob[b], j);
                    assert(ts[i] == ot[i]);
                    assert(listed_in(ts[i], bs[b], j));
                } else {
                    assert(bs[b] == block);
                    assert(ts[ot.len() + j] == ntx[j]);
                    assert(listed_in(ntx[j], block, j));
                    assert(listed_in(ts[ot.len() + j], bs[b], j));
                }
            };
            assert forall|a: int, b: int| 0 <= a < b < ts.len() implies (#[trigger] ts[a]).hash@
                != (#[trigger] ts[b]).hash@ by {
                if b < ot.len() {
                    assert(ts[a] == ot[a] && ts[b] == ot[b]);
                } else if a < ot.len() {
                    assert(ts[a] == ot[a] && ts[b] == ntx[b - ot.len()]);
                } else {
                    assert(ts[a] == ntx[a - ot.len()] && ts[b] == ntx[b - ot.len()]);
                }
            };
            assert forall|i: int| 0 <= i < ts.len() implies #[trigger] inclusion_consistent(ts[i]) by {
                if i < ot.len() {
                    assert(ts[i] == ot[i]);
                } else {
                    assert(ts[i] == ntx[i - ot.len()]);
                    assert(listed_in(ntx[i - ot.len()], block, i - ot.len()));
                }
            };
            assert forall|i: int| 0 <= i < rc.len() implies ((#[trigger] rc[i]) is Some
                == ts[i].block_number is Some) && (rc[i] matches Some(x) ==> receipt_fits(x, ts[i])) by {
                if i < ot.len() {
                    assert(ts[i] == ot[i] && rc[i] == orc[i]);
                } else {
                    let m = i - ot.len();
                    assert(ts[i] == ntx[m]);
                    assert(rc[i] == Some(nrs[m]));
                    assert(listed_in(ntx[m], block, m));
                    assert(receipt_fits(nrs[m], ntx[m]));
                }
            };
            assert forall|a: int, b: int| 0 <= a < b < bs.len() implies (#[trigger] bs[a]).hash@
                != (#[trigger] bs[b]).hash@ by {
                if b < ob.len() {
                    assert(bs[a] == ob[a] && bs[b] == ob[b]);
                } else {
                    assert(bs[a] == ob[a]);
                }
            };
            assert forall|b: int| 0 <= b < bs.len() implies is_hash_text(#[trigger] bs[b].hash@) by {
                if b < ob.len() {
                    assert(bs[b] == ob[b]);
                }
            };
        }
        Ok(())
    }

    /// Records a pending transaction. Fails with `InvalidArgument`, leaving
    /// the chain unchanged, unless its block fields are all unset and its
    /// hash is new.
    pub fn add_pending_transaction(&mut self, tx: Transaction) -> (r: Result<(), QueryError>)
        requires
            old(self).wf(),
        ensures
            final(self).wf(),
            r is Ok == (tx.block_hash is None && tx.block_number is None && tx.transaction_index is None
                && forall|i: int|
                0 <= i < old(self).transactions().len() ==> (#[trigger] old(self).transactions()[i]).hash@
                    != tx.hash@),
            r is Ok ==> final(self).transactions() == old(self).transactions().push(tx)
                && final(self).receipts() == old(self).receipts().push(None),
            r is Err ==> r == Err::<(), QueryError>(QueryError::InvalidArgument)
                && final(self).transactions() == old(self).transactions() && final(self).receipts()
                == old(self).receipts(),
            final(self).blocks() == old(self).blocks(),
            final(self).logs() == old(self).logs(),
    {
        if tx.block_hash.is_some() || tx.block_number.is_some() || tx.transaction_index.is_some() {
            return Err(QueryError::InvalidArgument);
        }
        if !self.tx_hash_is_new(&tx.hash) {
            return Err(QueryError::InvalidArgument);
        }
        let ghost ot = self.transactions();
        let ghost orc = self.receipts();
        let ghost bs = self.blocks();
        let ghost pre = *self;
        self.transactions.push(tx);
        self.receipts.push(None);
        proof {
            let ts = self.transactions();
            assert forall|b: int, j: int|
                0 <= b < bs.len() && 0 <= j < bs[b].transactions@.len() implies #[trigger] self.lists_recorded(b, j) by {
                assert(self.blocks() == bs);
                assert(pre.lists_recorded(b, j));
                let i = choose|i: int| 0 <= i < ot.len() && #[trigger] listed_in(ot[i], bs[b], j);
                assert(ts[i] == ot[i]);
                assert(listed_in(ts[i], self.blocks()[b], j));
            };
            assert forall|a: int, b: int| 0 <= a < b < ts.len() implies (#[trigger] ts[a]).hash@
                != (#[trigger] ts[b]).hash@ by {
                assert(ts[a] == ot[a]);
                if b < ot.len() {
                    assert(ts[b] == ot[b]);
                }
            };
            assert forall|i: int| 0 <= i < ts.len() implies #[trigger] inclusion_consistent(ts[i]) by {
                if i < ot.len() {
                    assert(ts[i] == ot[i]);
                }
            };
            assert forall|i: int| 0 <= i < self.receipts().len() implies ((#[trigger] self.receipts()[i]) is Some
                == ts[i].block_number is Some) && (self.receipts()[i] matches Some(x) ==> receipt_fits(x, ts[i])) by {
                if i < ot.len() {
                    assert(ts[i] == ot[i] && self.receipts()[i] == orc[i]);
                }
            };
        }
        Ok(())
    }
}

} // verus!
