use vstd::prelude::*;

use crate::model::{log_views, Block, LogView, Transaction, TransactionReceipt};

verus! {

/// The text of an optional string.
pub open spec fn opt_text(o: Option<String>) -> Option<Seq<char>> {
    match o {
        Some(s) => Some(s@),
        None => None,
    }
}

/// `block_hash`, `block_number` and `transaction_index` are all set (the
/// transaction is included in a block) or all unset (it is pending).
pub open spec fn inclusion_consistent(t: Transaction) -> bool {
    &&& (t.block_hash is Some) == (t.block_number is Some)
    &&& (t.block_number is Some) == (t.transaction_index is Some)
}

/// `t` is the transaction that block `b` lists at position `k`, and points
/// back to that block and position.
pub open spec fn listed_in(t: Transaction, b: Block, k: int) -> bool {
    &&& 0 <= k < b.transactions@.len()
    &&& t.hash@ == b.transactions@[k]@
    &&& opt_text(t.block_hash) == Some(b.hash@)
    &&& t.block_number == Some(b.number)
    &&& t.transaction_index == Some(k as u64)
}

/// The log was emitted by the transaction of receipt `r`.
pub open spec fn log_of_receipt(l: LogView, r: TransactionReceipt) -> bool {
    &&& l.transaction_hash == r.transaction_hash@
    &&& l.block_hash == r.block_hash@
    &&& l.block_number == r.block_number
    &&& l.transaction_index == r.transaction_index
}

/// The receipt's logs were emitted by its transaction, in ascending
/// `log_index` order.
pub open spec fn receipt_logs_ok(r: TransactionReceipt) -> bool {
    &&& forall|j: int|
        0 <= j < r.logs@.len() ==> #[trigger] log_of_receipt(log_views(r.logs@)[j], r)
    &&& forall|j: int, k: int|
        0 <= j < k < r.logs@.len() ==> (#[trigger] log_views(r.logs@)[j]).log_index
            < (#[trigger] log_views(r.logs@)[k]).log_index
}

/// `r` is the receipt of the included transaction `t`: same hash, block,
/// position, sender and recipient; a contract address only for a contract
/// creation; and logs that belong to it.
pub open spec fn receipt_fits(r: TransactionReceipt, t: Transaction) -> bool {
    &&& r.transaction_hash@ == t.hash@
    &&& opt_text(t.block_hash) == Some(r.block_hash@)
    &&& t.block_number == Some(r.block_number)
    &&& t.transaction_index == Some(r.transaction_index)
    &&& r.from@ == t.from@
    &&& opt_text(r.to) == opt_text(t.to)
    &&& (r.contract_address is Some ==> r.to is None)
    &&& receipt_logs_ok(r)
}

/// A copy of a receipt that fits a transaction fits it too.
pub proof fn lemma_copy_fits(x: TransactionReceipt, y: TransactionReceipt, t: Transaction)
    requires
        y.is_copy_of(x),
        receipt_fits(x, t),
    ensures
        receipt_fits(y, t),
{
    let lx = log_views(x.logs@);
    let ly = log_views(y.logs@);
    assert(lx == ly);
    assert(x.logs@.len() == lx.len() && y.logs@.len() == ly.len());
    assert forall|j: int| 0 <= j < y.logs@.len() implies #[trigger] log_of_receipt(log_views(y.logs@)[j], y) by {
        assert(log_of_receipt(lx[j], x));
    };
    assert forall|j: int, k: int| 0 <= j < k < y.logs@.len() implies (#[trigger] log_views(y.logs@)[j]).log_index
        < (#[trigger] log_views(y.logs@)[k]).log_index by {
        assert(lx[j].log_index < lx[k].log_index);
    };
}

fn same_opt_text(a: &Option<String>, b: &Option<String>) -> (r: bool)
    ensures
        r == (opt_text(*a) == opt_text(*b)),
{
    match (a, b) {
        (Some(x), Some(y)) => *x == *y,
        (None, None) => true,
        _ => false,
    }
}

fn opt_text_is(a: &Option<String>, s: &String) -> (r: bool)
    ensures
        r == (opt_text(*a) == Some(s@)),
{
    match a {
        Some(x) => *x == *s,
        None => false,
    }
}

/// Whether `t` is the transaction that block `b` lists at position `k`.
pub fn is_listed_in(t: &Transaction, b: &Block, k: usize) -> (r: bool)
    ensures
        r == listed_in(*t, *b, k as int),
{
    if k >= b.transactions.len() || t.hash != b.transactions[k] {
        return false;
    }
    if !opt_text_is(&t.block_hash, &b.hash) {
        return false;
    }
    match (t.block_number, t.transaction_index) {
        (Some(n), Some(i)) => n == b.number && i == k as u64,
        _ => false,
    }
}

fn receipt_logs_in_order(r: &TransactionReceipt) -> (ok: bool)
    ensures
        ok == receipt_logs_ok(*r),
{
    let ghost s = log_views(r.logs@);
    let mut j: usize = 0;
    while j < r.logs.len()
        invariant
            j <= r.logs@.len(),
            s == log_views(r.logs@),
            forall|x: int| 0 <= x < j ==> #[trigger] log_of_receipt(s[x], *r),
            forall|x: int, y: int| 0 <= x < y < j ==> (#[trigger] s[x]).log_index < (#[trigger] s[y]).log_index,
        decreases r.logs.len() - j,
    {
        let l = &r.logs[j];
        assert(s[j as int] == l@);
        if l.transaction_hash != r.transaction_hash || l.block_hash != r.block_hash
            || l.block_number != r.block_number || l.transaction_index != r.transaction_index {
            assert(!log_of_receipt(s[j as int], *r));
            return false;
        }
        if j > 0 {
            assert(s[j - 1] == r.logs@[j - 1]@);
            if r.logs[j - 1].log_index >= l.log_index {
                assert(s[j - 1].log_index >= s[j as int].log_index);
                return false;
            }
        }
        j += 1;
    }
    true
}

/// Whether `r` is a fitting receipt of the included transaction `t`.
pub fn is_receipt_of(r: &TransactionReceipt, t: &Transaction) -> (ok: bool)
    ensures
        ok == receipt_fits(*r, *t),
{
    if r.transaction_hash != t.hash || r.from != t.from {
        return false;
    }
    if !opt_text_is(&t.block_hash, &r.block_hash) || !same_opt_text(&r.to, &t.to) {
        return false;
    }
    if t.block_number != Some(r.block_number) || t.transaction_index != Some(r.transaction_index) {
        return false;
    }
    if r.contract_address.is_some() && r.to.is_some() {
        return false;
    }
    receipt_logs_in_order(r)
}

} // verus!
