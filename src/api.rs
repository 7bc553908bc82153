use vstd::prelude::*;
use vstd::string::StrSliceExecFns;

use crate::chain::{first_tx_with_hash, ChainData};
use crate::records::{inclusion_consistent, listed_in, receipt_fits};
use crate::model::{Block, Log, LogFilter, QueryError, Transaction, TransactionReceipt};
use crate::query::{first_with_hash, outcome_view, query_outcome};

verus! {

/// A hexadecimal digit, in either case.
pub open spec fn is_hex_digit(c: char) -> bool {
    ('0' <= c && c <= '9') || ('a' <= c && c <= 'f') || ('A' <= c && c <= 'F')
}

/// A 32-byte digest written as `0x` and 64 hexadecimal digits.
pub open spec fn is_hash_text(s: Seq<char>) -> bool {
    &&& s.len() == 66
    &&& s[0] == '0'
    &&& s[1] == 'x'
    &&& forall|i: int| 2 <= i < 66 ==> is_hex_digit(#[trigger] s[i])
}

/// Whether `s` is a well-formed hash: `0x` and 64 hexadecimal digits.
pub fn is_valid_hash(s: &String) -> (r: bool)
    ensures
        r == is_hash_text(s@),
{
    let t = s.as_str();
    if t.unicode_len() != 66 {
        return false;
    }
    if t.get_char(0) != '0' || t.get_char(1) != 'x' {
        return false;
    }
    let mut i: usize = 2;
    while i < 66
        invariant
            2 <= i <= 66,
            t@ == s@,
            s@.len() == 66,
            forall|k: int| 2 <= k < i ==> is_hex_digit(#[trigger] s@[k]),
        decreases 66 - i,
    {
        let c = t.get_char(i);
        if !(('0' <= c && c <= '9') || ('a' <= c && c <= 'f') || ('A' <= c && c <= 'F')) {
            return false;
        }
        i += 1;
    }
    true
}

/// A block as served to clients: with its full transactions when asked for,
/// or with only the hashes that the block itself carries.
#[derive(Debug)]
pub struct BlockResponse {
    pub block: Block,
    pub full_transactions: Option<Vec<Transaction>>,
}

/// The answer owed for block `b` of `chain`: the block, and with
/// `include_txs` the transaction that it lists at each position, which points
/// back to the block and that position.
pub open spec fn block_response_for(
    r: BlockResponse,
    chain: ChainData,
    b: int,
    include_txs: bool,
) -> bool {
    &&& r.block.is_copy_of(chain.blocks()[b])
    &&& is_hash_text(r.block.hash@)
    &&& first_with_hash(chain.blocks(), r.block.hash@) == Some(b)
    &&& if include_txs {
        r.full_transactions matches Some(v) && v@.len() == chain.blocks()[b].transactions@.len()
            && forall|k: int|
            0 <= k < v@.len() ==> (listed_in(#[trigger] v@[k], chain.blocks()[b], k) && (
            first_tx_with_hash(chain.transactions(), v@[k].hash@) matches Some(i)
                && v@[k] == chain.transactions()[i]))
    } else {
        r.full_transactions is None
    }
}

/// The relay's read-only API over a chain: point lookups and log queries.
pub struct RelayApiImpl {
    chain: ChainData,
    max_block_span: u64,
}

impl RelayApiImpl {
    pub closed spec fn chain(&self) -> ChainData {
        self.chain
    }

    /// The widest block range a log query may span.
    pub closed spec fn max_block_span(&self) -> u64 {
        self.max_block_span
    }

    pub open spec fn wf(&self) -> bool {
        self.chain().wf()
    }

    /// A service over `chain` whose log queries span at most
    /// `max_block_span` blocks.
    pub fn new(chain: ChainData, max_block_span: u64) -> (r: RelayApiImpl)
        requires
            chain.wf(),
        ensures
            r.wf(),
            r.chain() == chain,
            r.max_block_span() == max_block_span,
    {
        RelayApiImpl { chain, max_block_span }
    }

    fn respond(&self, b: usize, include_txs: bool) -> (r: BlockResponse)
        requires
            self.wf(),
            b < self.chain().blocks().len(),
        ensures
            block_response_for(r, self.chain(), b as int, include_txs),
    {
        let block = self.chain.block_at(b);
        let full_transactions = if include_txs {
            Some(self.chain.block_transactions(b))
        } else {
            None
        };
        proof {
            crate::laws::lemma_block_hash_finds_block(self.chain(), b as int);
        }
        BlockResponse { block, full_transactions }
    }

    /// The transaction with this hash; absent when unknown. A malformed hash
    /// fails with `InvalidArgument`.
    pub fn get_transaction_by_hash(&self, hash: String) -> (r: Result<Option<Transaction>, QueryError>)
        requires
            self.wf(),
        ensures
            r matches Ok(Some(t)) ==> t.hash@ == hash@ && inclusion_consistent(t),
            !is_hash_text(hash@) ==> r == Err::<Option<Transaction>, QueryError>(
                QueryError::InvalidArgument,
            ),
            is_hash_text(hash@) ==> r == Ok::<Option<Transaction>, QueryError>(
                match first_tx_with_hash(self.chain().transactions(), hash@) {
                    Some(i) => Some(self.chain().transactions()[i]),
                    None => None::<Transaction>,
                },
            ),
    {
        if !is_valid_hash(&hash) {
            return Err(QueryError::InvalidArgument);
        }
        let r = self.chain.transaction_by_hash(&hash);
        proof {
            if let Some(i) = first_tx_with_hash(self.chain().transactions(), hash@) {
                crate::laws::lemma_first_tx_found(self.chain().transactions(), hash@);
            }
        }
        Ok(r)
    }

    /// The receipt of the transaction with this hash; absent when the
    /// transaction is unknown or pending. The receipt fits its transaction.
    /// A malformed hash fails with `InvalidArgument`.
    pub fn get_transaction_receipt(&self, hash: String) -> (r: Result<
        Option<TransactionReceipt>,
        QueryError,
    >)
        requires
            self.wf(),
        ensures
            !is_hash_text(hash@) ==> (r matches Err(e) && e == QueryError::InvalidArgument),
            is_hash_text(hash@) ==> match first_tx_with_hash(self.chain().transactions(), hash@) {
                Some(i) => match self.chain().receipts()[i] {
                    Some(x) => r matches Ok(Some(y)) && y.is_copy_of(x) && receipt_fits(
                        y,
                        self.chain().transactions()[i],
                    ) && self.chain().transactions()[i].block_number is Some,
                    None => r matches Ok(None) && self.chain().transactions()[i].block_number is None,
                },
                None => r matches Ok(None),
            },
    {
        if !is_valid_hash(&hash) {
            return Err(QueryError::InvalidArgument);
        }
        let r = self.chain.receipt_by_hash(&hash);
        proof {
            crate::laws::lemma_first_tx_found(self.chain().transactions(), hash@);
            if let Some(i) = first_tx_with_hash(self.chain().transactions(), hash@) {
                if let Some(x) = self.chain().receipts()[i] {
                    crate::records::lemma_copy_fits(x, r->Some_0, self.chain().transactions()[i]);
                }
            }
        }
        Ok(r)
    }

    /// The block with this number; absent past the head.
    pub fn get_block_by_number(&self, number: u64, include_txs: bool) -> (r: Option<BlockResponse>)
        requires
            self.wf(),
        ensures
            number < self.chain().blocks().len() ==> (r matches Some(x) && block_response_for(
                x,
                self.chain(),
                number as int,
                include_txs,
            )),
            number >= self.chain().blocks().len() ==> r is None,
    {
        match self.chain.head_number() {
            None => None,
            Some(head) => {
                let n = self.chain.block_count();
                if number > head {
                    None
                } else {
                    assert(number < n);
                    Some(self.respond(number as usize, include_txs))
                }
            },
        }
    }

    /// The first block with this hash; absent when unknown. A malformed hash
    /// fails with `InvalidArgument`.
    pub fn get_block_by_hash(&self, hash: String, include_txs: bool) -> (r: Result<
        Option<BlockResponse>,
        QueryError,
    >)
        requires
            self.wf(),
        ensures
            !is_hash_text(hash@) ==> (r matches Err(e) && e == QueryError::InvalidArgument),
            is_hash_text(hash@) ==> match first_with_hash(self.chain().blocks(), hash@) {
                Some(b) => r matches Ok(Some(x)) && block_response_for(
                    x,
                    self.chain(),
                    b,
                    include_txs,
                ),
                None => r matches Ok(None),
            },
    {
        if !is_valid_hash(&hash) {
            return Err(QueryError::InvalidArgument);
        }
        match self.chain.block_index_by_hash(&hash) {
            None => Ok(None),
            Some(b) => Ok(Some(self.respond(b, include_txs))),
        }
    }

    /// The logs matching `filter`, in canonical order. A malformed
    /// `block_hash` fails with `InvalidArgument`; otherwise the outcome is
    /// that of the log query over this service's chain and span limit.
    pub fn get_logs(&self, filter: LogFilter) -> (r: Result<Vec<Log>, QueryError>)
        requires
            self.wf(),
        ensures
            (filter.block_hash matches Some(h) && !is_hash_text(h@)) ==> (r matches Err(e) && e
                == QueryError::InvalidArgument),
            !(filter.block_hash matches Some(h) && !is_hash_text(h@)) ==> outcome_view(r)
                == query_outcome(
                self.chain().blocks(),
                self.chain().logs(),
                filter,
                self.max_block_span(),
            ),
    {
        match &filter.block_hash {
            Some(h) => {
                if !is_valid_hash(h) {
                    return Err(QueryError::InvalidArgument);
                }
            },
            None => {},
        }
        self.chain.query_logs(&filter, self.max_block_span)
    }
}

} // verus!
