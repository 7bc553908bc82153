use vstd::prelude::*;

verus! {

/// Errors reported by the relay, each with a stable meaning for clients.
#[derive(Debug, Clone, Copy, PartialEq, Eq, Structural)]
pub enum QueryError {
    /// The filter's constraints contradict each other.
    InvalidFilter,
    /// A hash, number or record handed to the relay is malformed.
    InvalidArgument,
    /// The resolved block range is wider than the configured maximum.
    RangeTooLarge,
    /// The block named by a filter's `block_hash` is not known.
    BlockNotFound,
    /// The underlying chain data source failed.
    ProviderError,
    /// The caller went away before the query finished.
    Cancelled,
}

/// A transaction; `block_hash`, `block_number` and `transaction_index` are
/// set once it is included in a block.
#[derive(Debug)]
pub struct Transaction {
    pub hash: String,
    pub nonce: u64,
    pub block_hash: Option<String>,
    pub block_number: Option<u64>,
    pub transaction_index: Option<u64>,
    pub from: String,
    pub to: Option<String>,
    pub value: String,
    pub gas_price: String,
    pub gas: u64,
    pub input: String,
}

/// The outcome of an included transaction.
#[derive(Debug)]
pub struct TransactionReceipt {
    pub transaction_hash: String,
    pub transaction_index: u64,
    pub block_hash: String,
    pub block_number: u64,
    pub from: String,
    pub to: Option<String>,
    pub cumulative_gas_used: u64,
    pub gas_used: u64,
    pub contract_address: Option<String>,
    pub logs: Vec<Log>,
    pub status: u64,
}

/// An event emitted by contract execution.
#[derive(Debug)]
pub struct Log {
    pub address: String,
    pub topics: Vec<String>,
    pub data: String,
    pub block_number: u64,
    pub block_hash: String,
    pub transaction_hash: String,
    pub transaction_index: u64,
    pub log_index: u64,
    pub removed: bool,
}

/// A block header with the hashes of its transactions, in block order.
#[derive(Debug)]
pub struct Block {
    pub number: u64,
    pub hash: String,
    pub parent_hash: String,
    pub nonce: String,
    pub sha3_uncles: String,
    pub logs_bloom: String,
    pub transactions_root: String,
    pub state_root: String,
    pub receipts_root: String,
    pub miner: String,
    pub difficulty: String,
    pub total_difficulty: String,
    pub size: u64,
    pub extra_data: String,
    pub gas_limit: u64,
    pub gas_used: u64,
    pub timestamp: u64,
    pub transactions: Vec<String>,
}

/// The constraint a filter puts on one topic position.
#[derive(Debug)]
pub enum TopicFilter {
    /// Any topic, or none, is accepted at this position.
    Any,
    /// The log must have a topic here, equal to one of these values.
    OneOf(Vec<String>),
}

/// A log query: an inclusive block range or a single block hash, an optional
/// emitting contract and optional per-position topic constraints.
#[derive(Debug)]
pub struct LogFilter {
    pub from_block: Option<u64>,
    pub to_block: Option<u64>,
    pub address: Option<String>,
    pub topics: Option<Vec<TopicFilter>>,
    pub block_hash: Option<String>,
}

/// The value of a `Log`, with its topic list as a sequence.
pub ghost struct LogView {
    pub address: Seq<char>,
    pub topics: Seq<Seq<char>>,
    pub data: Seq<char>,
    pub block_number: u64,
    pub block_hash: Seq<char>,
    pub transaction_hash: Seq<char>,
    pub transaction_index: u64,
    pub log_index: u64,
    pub removed: bool,
}

/// The text of each string of a sequence.
pub open spec fn texts(s: Seq<String>) -> Seq<Seq<char>> {
    s.map_values(|x: String| x@)
}

impl View for Log {
    type V = LogView;

    open spec fn view(&self) -> LogView {
        LogView {
            address: self.address@,
            topics: texts(self.topics@),
            data: self.data@,
            block_number: self.block_number,
            block_hash: self.block_hash@,
            transaction_hash: self.transaction_hash@,
            transaction_index: self.transaction_index,
            log_index: self.log_index,
            removed: self.removed,
        }
    }
}

/// The value of each log of a sequence.
pub open spec fn log_views(s: Seq<Log>) -> Seq<LogView> {
    s.map_values(|l: Log| l@)
}

/// Copies a list of strings.
pub fn copy_strings(v: &Vec<String>) -> (r: Vec<String>)
    ensures
        r@ == v@,
{
    let mut r: Vec<String> = Vec::new();
    let mut i: usize = 0;
    while i < v.len()
        invariant
            i <= v.len(),
            r@ == v@.subrange(0, i as int),
        decreases v.len() - i,
    {
        r.push(v[i].clone());
        i += 1;
        assert(r@ =~= v@.subrange(0, i as int));
    }
    assert(v@.subrange(0, v.len() as int) =~= v@);
    r
}

/// Copies an optional string.
pub fn copy_opt_string(o: &Option<String>) -> (r: Option<String>)
    ensures
        r == *o,
{
    match o {
        Some(s) => Some(s.clone()),
        None => None,
    }
}

/// Copies a list of logs.
pub fn copy_logs(v: &Vec<Log>) -> (r: Vec<Log>)
    ensures
        log_views(r@) == log_views(v@),
{
    let mut r: Vec<Log> = Vec::new();
    let mut i: usize = 0;
    while i < v.len()
        invariant
            i <= v.len(),
            log_views(r@) == log_views(v@).subrange(0, i as int),
        decreases v.len() - i,
    {
        let ghost before = log_views(r@);
        let c = v[i].copy();
        r.push(c);
        assert(log_views(r@) =~= before.push(c@));
        assert(log_views(r@) =~= log_views(v@).subrange(0, i + 1));
        i += 1;
    }
    assert(log_views(v@).subrange(0, v.len() as int) =~= log_views(v@));
    r
}

impl Transaction {
    /// A copy of this transaction.
    pub fn copy(&self) -> (r: Transaction)
        ensures
            r == *self,
    {
        Transaction {
            hash: self.hash.clone(),
            nonce: self.nonce,
            block_hash: copy_opt_string(&self.block_hash),
            block_number: self.block_number,
            transaction_index: self.transaction_index,
            from: self.from.clone(),
            to: copy_opt_string(&self.to),
            value: self.value.clone(),
            gas_price: self.gas_price.clone(),
            gas: self.gas,
            input: self.input.clone(),
        }
    }
}

impl TransactionReceipt {
    /// `self` holds the same values as `other`, its logs included.
    pub open spec fn is_copy_of(self, other: TransactionReceipt) -> bool {
        &&& self.transaction_hash == other.transaction_hash
        &&& self.transaction_index == other.transaction_index
        &&& self.block_hash == other.block_hash
        &&& self.block_number == other.block_number
        &&& self.from == other.from
        &&& self.to == other.to
        &&& self.cumulative_gas_used == other.cumulative_gas_used
        &&& self.gas_used == other.gas_used
        &&& self.contract_address == other.contract_address
        &&& log_views(self.logs@) == log_views(other.logs@)
        &&& self.status == other.status
    }

    /// A copy of this receipt.
    pub fn copy(&self) -> (r: TransactionReceipt)
        ensures
            r.is_copy_of(*self),
    {
        TransactionReceipt {
            transaction_hash: self.transaction_hash.clone(),
            transaction_index: self.transaction_index,
            block_hash: self.block_hash.clone(),
            block_number: self.block_number,
            from: self.from.clone(),
            to: copy_opt_string(&self.to),
            cumulative_gas_used: self.cumulative_gas_used,
            gas_used: self.gas_used,
            contract_address: copy_opt_string(&self.contract_address),
            logs: copy_logs(&self.logs),
            status: self.status,
        }
    }
}

impl Block {
    /// `self` holds the same values as `other`, its transaction hashes included.
    pub open spec fn is_copy_of(self, other: Block) -> bool {
        &&& self.number == other.number
        &&& self.hash == other.hash
        &&& self.parent_hash == other.parent_hash
        &&& self.nonce == other.nonce
        &&& self.sha3_uncles == other.sha3_uncles
        &&& self.logs_bloom == other.logs_bloom
        &&& self.transactions_root == other.transactions_root
        &&& self.state_root == other.state_root
        &&& self.receipts_root == other.receipts_root
        &&& self.miner == other.miner
        &&& self.difficulty == other.difficulty
        &&& self.total_difficulty == other.total_difficulty
        &&& self.size == other.size
        &&& self.extra_data == other.extra_data
        &&& self.gas_limit == other.gas_limit
        &&& self.gas_used == other.gas_used
        &&& self.timestamp == other.timestamp
        &&& self.transactions@ == other.transactions@
    }

    /// A copy of this block.
    pub fn copy(&self) -> (r: Block)
        ensures
            r.is_copy_of(*self),
    {
        Block {
            number: self.number,
            hash: self.hash.clone(),
            parent_hash: self.parent_hash.clone(),
            nonce: self.nonce.clone(),
            sha3_uncles: self.sha3_uncles.clone(),
            logs_bloom: self.logs_bloom.clone(),
            transactions_root: self.transactions_root.clone(),
            state_root: self.state_root.clone(),
            receipts_root: self.receipts_root.clone(),
            miner: self.miner.clone(),
            difficulty: self.difficulty.clone(),
            total_difficulty: self.total_difficulty.clone(),
            size: self.size,
            extra_data: self.extra_data.clone(),
            gas_limit: self.gas_limit,
            gas_used: self.gas_used,
            timestamp: self.timestamp,
            transactions: copy_strings(&self.transactions),
        }
    }
}

impl Log {
    /// A copy of this log.
    pub fn copy(&self) -> (r: Log)
        ensures
            r@ == self@,
    {
        Log {
            address: self.address.clone(),
            topics: copy_strings(&self.topics),
            data: self.data.clone(),
            block_number: self.block_number,
            block_hash: self.block_hash.clone(),
            transaction_hash: self.transaction_hash.clone(),
            transaction_index: self.transaction_index,
            log_index: self.log_index,
            removed: self.removed,
        }
    }
}

} // verus!
