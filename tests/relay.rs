use relayx_rpc::api::{is_valid_hash, RelayApiImpl};
use relayx_rpc::chain::ChainData;
use relayx_rpc::model::{
    Block, Log, LogFilter, QueryError, TopicFilter, Transaction, TransactionReceipt,
};

fn hash_of(n: u64) -> String {
    format!("0x{:064x}", n + 1)
}

fn tx_hash(block: u64, index: u64) -> String {
    format!("0x{:064x}", 1_000_000 + block * 100 + index)
}

fn block(number: u64, transactions: Vec<String>) -> Block {
    Block {
        number,
        hash: hash_of(number),
        parent_hash: if number == 0 { format!("0x{:064x}", 0) } else { hash_of(number - 1) },
        nonce: "0x0".to_string(),
        sha3_uncles: "0x0".to_string(),
        logs_bloom: "0x0".to_string(),
        transactions_root: "0x0".to_string(),
        state_root: "0x0".to_string(),
        receipts_root: "0x0".to_string(),
        miner: "0x0".to_string(),
        difficulty: "0x0".to_string(),
        total_difficulty: "0x0".to_string(),
        size: 100,
        extra_data: "0x".to_string(),
        gas_limit: 30_000_000,
        gas_used: 21_000,
        timestamp: 1_700_000_000 + number,
        transactions,
    }
}

fn log(block: u64, tx: u64, index: u64, address: &str, topics: &[&str]) -> Log {
    Log {
        address: address.to_string(),
        topics: topics.iter().map(|t| t.to_string()).collect(),
        data: "0x".to_string(),
        block_number: block,
        block_hash: hash_of(block),
        transaction_hash: tx_hash(block, tx),
        transaction_index: tx,
        log_index: index,
        removed: false,
    }
}

fn filter(from: Option<u64>, to: Option<u64>, address: Option<&str>) -> LogFilter {
    LogFilter {
        from_block: from,
        to_block: to,
        address: address.map(|a| a.to_string()),
        topics: None,
        block_hash: None,
    }
}

fn one_of(values: &[&str]) -> TopicFilter {
    TopicFilter::OneOf(values.iter().map(|v| v.to_string()).collect())
}

/// Blocks 0 to 10; block 5 holds one log from 0xAA with topic 0x01.
fn scenario_chain() -> ChainData {
    let mut chain = ChainData::new();
    for n in 0..=10u64 {
        let logs = if n == 5 { vec![log(5, 0, 0, "0xAA", &["0x01"])] } else { vec![] };
        assert_eq!(chain.push_block(block(n, vec![]), logs, vec![], vec![]), Ok(()));
    }
    chain
}

/// Blocks 0 to 3, each with three transactions and several logs, from two
/// contracts.
fn busy_chain() -> ChainData {
    let mut chain = ChainData::new();
    for n in 0..4u64 {
        let logs = vec![
            log(n, 0, 0, "0xAA", &["0x01", "0x02"]),
            log(n, 0, 1, "0xBB", &["0x01"]),
            log(n, 2, 2, "0xAA", &["0x03"]),
        ];
        let txs = (0..3).map(|i| transaction(n, i)).collect();
        let receipts = vec![
            receipt(n, 0, vec![log(n, 0, 0, "0xAA", &["0x01", "0x02"]), log(n, 0, 1, "0xBB", &["0x01"])]),
            receipt(n, 1, vec![]),
            receipt(n, 2, vec![log(n, 2, 2, "0xAA", &["0x03"])]),
        ];
        let hashes = (0..3).map(|i| tx_hash(n, i)).collect();
        assert_eq!(chain.push_block(block(n, hashes), logs, txs, receipts), Ok(()));
    }
    chain
}

fn receipt(block: u64, index: u64, logs: Vec<Log>) -> TransactionReceipt {
    TransactionReceipt {
        transaction_hash: tx_hash(block, index),
        transaction_index: index,
        block_hash: hash_of(block),
        block_number: block,
        from: "0xF0".to_string(),
        to: Some("0xAA".to_string()),
        cumulative_gas_used: 21_000 * (index + 1),
        gas_used: 21_000,
        contract_address: None,
        logs,
        status: 1,
    }
}

fn keys(logs: &[Log]) -> Vec<(u64, u64, u64)> {
    logs.iter().map(|l| (l.block_number, l.transaction_index, l.log_index)).collect()
}

#[test]
fn scenario_address_filter_finds_single_log() {
    let chain = scenario_chain();
    let r = chain.query_logs(&filter(Some(0), Some(10), Some("0xAA")), 1000).unwrap();
    assert_eq!(r.len(), 1);
    assert_eq!(r[0].block_number, 5);
    assert_eq!(r[0].address, "0xAA");
    assert_eq!(r[0].topics, vec!["0x01".to_string()]);
    let r = chain.query_logs(&filter(Some(6), Some(10), Some("0xAA")), 1000).unwrap();
    assert!(r.is_empty());
}

#[test]
fn inverted_range_is_invalid_filter() {
    let chain = scenario_chain();
    assert_eq!(
        chain.query_logs(&filter(Some(7), Some(3), None), 1000).unwrap_err(),
        QueryError::InvalidFilter
    );
    // with to_block unset the head (10) is the upper bound
    assert_eq!(
        chain.query_logs(&filter(Some(11), None, None), 1000).unwrap_err(),
        QueryError::InvalidFilter
    );
}

#[test]
fn block_hash_with_range_is_invalid_filter() {
    let chain = scenario_chain();
    let mut f = filter(Some(5), None, None);
    f.block_hash = Some(hash_of(5));
    assert_eq!(chain.query_logs(&f, 1000).unwrap_err(), QueryError::InvalidFilter);
    let mut f = filter(None, Some(5), None);
    f.block_hash = Some(hash_of(5));
    assert_eq!(chain.query_logs(&f, 1000).unwrap_err(), QueryError::InvalidFilter);
}

#[test]
fn block_hash_pins_one_block() {
    let chain = busy_chain();
    let mut f = filter(None, None, Some("0xAA"));
    f.block_hash = Some(hash_of(2));
    let r = chain.query_logs(&f, 1000).unwrap();
    assert_eq!(keys(&r), vec![(2, 0, 0), (2, 2, 2)]);
}

#[test]
fn unknown_block_hash_is_block_not_found() {
    let chain = busy_chain();
    let mut f = filter(None, None, None);
    f.block_hash = Some(hash_of(99));
    assert_eq!(chain.query_logs(&f, 1000).unwrap_err(), QueryError::BlockNotFound);
}

#[test]
fn wide_range_is_range_too_large() {
    let chain = scenario_chain();
    assert_eq!(
        chain.query_logs(&filter(Some(0), Some(10), None), 10).unwrap_err(),
        QueryError::RangeTooLarge
    );
    assert_eq!(chain.query_logs(&filter(Some(0), Some(9), None), 10).map(|v| v.len()), Ok(1));
    assert_eq!(
        chain.query_logs(&filter(Some(0), Some(u64::MAX), None), u64::MAX).unwrap_err(),
        QueryError::RangeTooLarge
    );
}

#[test]
fn results_are_in_canonical_order() {
    let chain = busy_chain();
    let r = chain.query_logs(&filter(None, None, None), 1000).unwrap();
    let k = keys(&r);
    assert_eq!(k.len(), 12);
    for w in k.windows(2) {
        assert!(w[0] < w[1]);
    }
    assert_eq!(k[0], (0, 0, 0));
    assert_eq!(k[11], (3, 2, 2));
}

#[test]
fn repeated_query_gives_identical_results() {
    let chain = busy_chain();
    let f = filter(Some(1), Some(3), Some("0xAA"));
    let a = chain.query_logs(&f, 1000).unwrap();
    let b = chain.query_logs(&f, 1000).unwrap();
    assert_eq!(keys(&a), keys(&b));
    assert_eq!(keys(&a), vec![(1, 0, 0), (1, 2, 2), (2, 0, 0), (2, 2, 2), (3, 0, 0), (3, 2, 2)]);
}

#[test]
fn topic_positions_match() {
    let l = log(1, 0, 0, "0xAA", &["0xT0", "0xT1"]);
    let mut f = filter(None, None, None);
    f.topics = Some(vec![one_of(&["0xT0"]), TopicFilter::Any]);
    assert!(f.matches(&l));
    f.topics = Some(vec![TopicFilter::Any, one_of(&["0xT1"])]);
    assert!(f.matches(&l));
    f.topics = Some(vec![one_of(&["0xT0"]), one_of(&["0xT1", "0xT2"]), one_of(&["0xT9"])]);
    assert!(!f.matches(&l));
    f.topics = Some(vec![one_of(&["0xTx"])]);
    assert!(!f.matches(&l));
    f.topics = Some(vec![one_of(&["0xT0"]), one_of(&["0xT2", "0xT1"])]);
    assert!(f.matches(&l));
    f.topics = Some(vec![one_of(&[])]);
    assert!(!f.matches(&l));
}

#[test]
fn address_mismatch_never_matches() {
    let l = log(1, 0, 0, "0xAA", &["0x01"]);
    let mut f = filter(None, None, Some("0xBB"));
    assert!(!f.matches(&l));
    f.topics = Some(vec![one_of(&["0x01"])]);
    assert!(!f.matches(&l));
    f.address = Some("0xAA".to_string());
    assert!(f.matches(&l));
}

#[test]
fn removed_logs_are_excluded() {
    let mut l = log(1, 0, 0, "0xAA", &["0x01"]);
    l.removed = true;
    let f = filter(None, None, Some("0xAA"));
    assert!(!f.matches(&l));

    let mut chain = ChainData::new();
    assert_eq!(chain.push_block(block(0, vec![]), vec![], vec![], vec![]), Ok(()));
    let mut gone = log(1, 0, 0, "0xAA", &["0x01"]);
    gone.removed = true;
    let kept = log(1, 0, 1, "0xAA", &["0x01"]);
    assert_eq!(chain.push_block(block(1, vec![]), vec![gone, kept], vec![], vec![]), Ok(()));
    let r = chain.query_logs(&f, 1000).unwrap();
    assert_eq!(keys(&r), vec![(1, 0, 1)]);
}

#[test]
fn open_end_resolves_to_head_at_call_time() {
    let mut chain = busy_chain();
    let before = chain.query_logs(&filter(Some(3), None, Some("0xBB")), 1000).unwrap();
    assert_eq!(keys(&before), vec![(3, 0, 1)]);
    let logs = vec![log(4, 0, 0, "0xBB", &[])];
    assert_eq!(chain.push_block(block(4, vec![]), logs, vec![], vec![]), Ok(()));
    // the earlier result is a snapshot and does not change
    assert_eq!(keys(&before), vec![(3, 0, 1)]);
    let after = chain.query_logs(&filter(Some(3), None, Some("0xBB")), 1000).unwrap();
    assert_eq!(keys(&after), vec![(3, 0, 1), (4, 0, 0)]);
}

#[test]
fn range_past_head_is_clipped() {
    let chain = busy_chain();
    let r = chain.query_logs(&filter(Some(3), Some(50), Some("0xBB")), 1000).unwrap();
    assert_eq!(keys(&r), vec![(3, 0, 1)]);
    let r = chain.query_logs(&filter(Some(20), Some(50), None), 1000).unwrap();
    assert!(r.is_empty());
}

#[test]
fn empty_chain_open_query_is_empty() {
    let chain = ChainData::new();
    assert_eq!(chain.head_number(), None);
    assert_eq!(chain.query_logs(&filter(None, None, None), 1000).map(|v| v.len()), Ok(0));
}

#[test]
fn push_block_checks_consistency() {
    let mut chain = ChainData::new();
    assert_eq!(chain.push_block(block(1, vec![]), vec![], vec![], vec![]), Err(QueryError::InvalidArgument));
    assert_eq!(chain.push_block(block(0, vec![]), vec![], vec![], vec![]), Ok(()));
    let mut orphan = block(1, vec![]);
    orphan.parent_hash = hash_of(7);
    assert_eq!(chain.push_block(orphan, vec![], vec![], vec![]), Err(QueryError::InvalidArgument));
    let stray = vec![log(2, 0, 0, "0xAA", &[])];
    assert_eq!(chain.push_block(block(1, vec![]), stray, vec![], vec![]), Err(QueryError::InvalidArgument));
    let unordered = vec![log(1, 1, 0, "0xAA", &[]), log(1, 0, 1, "0xAA", &[])];
    assert_eq!(chain.push_block(block(1, vec![]), unordered, vec![], vec![]), Err(QueryError::InvalidArgument));
    let mut bad_hash = block(1, vec![]);
    bad_hash.hash = "0x01".to_string();
    assert_eq!(chain.push_block(bad_hash, vec![], vec![], vec![]), Err(QueryError::InvalidArgument));
    let ordered = vec![log(1, 0, 0, "0xAA", &[]), log(1, 1, 1, "0xAA", &[])];
    assert_eq!(chain.push_block(block(1, vec![]), ordered, vec![], vec![]), Ok(()));
    assert_eq!(chain.head_number(), Some(1));
}

#[test]
fn push_block_checks_transactions_and_receipts() {
    let mut chain = ChainData::new();
    let listed = vec![tx_hash(0, 0)];
    // a listed transaction must be supplied
    assert_eq!(chain.push_block(block(0, listed.clone()), vec![], vec![], vec![]), Err(QueryError::InvalidArgument));
    // it must point back to the block and its position
    let mut wrong_index = transaction(0, 0);
    wrong_index.transaction_index = Some(1);
    assert_eq!(
        chain.push_block(block(0, listed.clone()), vec![], vec![wrong_index], vec![receipt(0, 0, vec![])]),
        Err(QueryError::InvalidArgument)
    );
    // a contract address only for a contract creation
    let mut creation = receipt(0, 0, vec![]);
    creation.contract_address = Some("0xCC".to_string());
    assert_eq!(
        chain.push_block(block(0, listed.clone()), vec![], vec![transaction(0, 0)], vec![creation]),
        Err(QueryError::InvalidArgument)
    );
    // receipt logs must belong to the transaction, in ascending order
    let foreign = receipt(0, 0, vec![log(0, 1, 0, "0xAA", &[])]);
    assert_eq!(
        chain.push_block(block(0, listed.clone()), vec![], vec![transaction(0, 0)], vec![foreign]),
        Err(QueryError::InvalidArgument)
    );
    let descending = receipt(0, 0, vec![log(0, 0, 1, "0xAA", &[]), log(0, 0, 0, "0xAA", &[])]);
    assert_eq!(
        chain.push_block(block(0, listed.clone()), vec![], vec![transaction(0, 0)], vec![descending]),
        Err(QueryError::InvalidArgument)
    );
    assert_eq!(
        chain.push_block(block(0, listed), vec![], vec![transaction(0, 0)], vec![receipt(0, 0, vec![])]),
        Ok(())
    );
    // a repeated block hash is refused
    let mut twin = block(1, vec![]);
    twin.hash = hash_of(0);
    assert_eq!(chain.push_block(twin, vec![], vec![], vec![]), Err(QueryError::InvalidArgument));
    // a transaction hash already recorded is refused
    let mut again = transaction(1, 0);
    again.hash = tx_hash(0, 0);
    let mut b1 = block(1, vec![tx_hash(0, 0)]);
    b1.parent_hash = hash_of(0);
    let mut r = receipt(1, 0, vec![]);
    r.transaction_hash = tx_hash(0, 0);
    assert_eq!(chain.push_block(b1, vec![], vec![again], vec![r]), Err(QueryError::InvalidArgument));
}

#[test]
fn pending_transactions_have_no_receipt() {
    let mut chain = busy_chain();
    let mut pending = transaction(9, 0);
    pending.block_hash = None;
    pending.block_number = None;
    pending.transaction_index = None;
    let mut half = transaction(9, 1);
    half.block_hash = None;
    assert_eq!(chain.add_pending_transaction(half), Err(QueryError::InvalidArgument));
    assert_eq!(chain.add_pending_transaction(pending), Ok(()));
    let mut dup = transaction(1, 0);
    dup.block_hash = None;
    dup.block_number = None;
    dup.transaction_index = None;
    assert_eq!(chain.add_pending_transaction(dup), Err(QueryError::InvalidArgument));
    let api = RelayApiImpl::new(chain, 100);
    let t = api.get_transaction_by_hash(tx_hash(9, 0)).unwrap().unwrap();
    assert_eq!(t.block_number, None);
    assert!(matches!(api.get_transaction_receipt(tx_hash(9, 0)), Ok(None)));
}

fn transaction(block: u64, index: u64) -> Transaction {
    Transaction {
        hash: tx_hash(block, index),
        nonce: index,
        block_hash: Some(hash_of(block)),
        block_number: Some(block),
        transaction_index: Some(index),
        from: "0xF0".to_string(),
        to: Some("0xAA".to_string()),
        value: "0x1".to_string(),
        gas_price: "0x2".to_string(),
        gas: 21_000,
        input: "0x".to_string(),
    }
}

fn api() -> RelayApiImpl {
    RelayApiImpl::new(busy_chain(), 100)
}

#[test]
fn unknown_transaction_is_absent_not_an_error() {
    let api = api();
    assert!(matches!(api.get_transaction_by_hash(tx_hash(9, 9)), Ok(None)));
    assert!(matches!(api.get_transaction_receipt(tx_hash(9, 9)), Ok(None)));
}

#[test]
fn known_transaction_and_receipt_are_found() {
    let api = api();
    let t = api.get_transaction_by_hash(tx_hash(1, 2)).unwrap().unwrap();
    assert_eq!(t.hash, tx_hash(1, 2));
    assert_eq!(t.transaction_index, Some(2));
    let r = api.get_transaction_receipt(tx_hash(1, 0)).unwrap().unwrap();
    assert_eq!(r.transaction_hash, tx_hash(1, 0));
    assert_eq!(r.block_number, 1);
    assert_eq!(r.logs.len(), 2);
    assert_eq!(r.logs[0].topics, vec!["0x01".to_string(), "0x02".to_string()]);
}

#[test]
fn malformed_hash_is_invalid_argument() {
    let api = api();
    assert!(matches!(api.get_transaction_by_hash("0x12".to_string()), Err(QueryError::InvalidArgument)));
    assert!(matches!(api.get_transaction_receipt("nothex".to_string()), Err(QueryError::InvalidArgument)));
    assert!(matches!(api.get_block_by_hash("0xzz".to_string(), false), Err(QueryError::InvalidArgument)));
    let mut f = filter(None, None, None);
    f.block_hash = Some("0x1".to_string());
    assert_eq!(api.get_logs(f).unwrap_err(), QueryError::InvalidArgument);
    assert!(is_valid_hash(&hash_of(3)));
    assert!(is_valid_hash(&format!("0x{}", "aB".repeat(32))));
    assert!(!is_valid_hash(&format!("0x{}", "g0".repeat(32))));
    assert!(!is_valid_hash(&format!("1x{}", "00".repeat(32))));
}

#[test]
fn blocks_by_number_and_hash() {
    let api = api();
    let b = api.get_block_by_number(1, false).unwrap();
    assert_eq!(b.block.number, 1);
    assert_eq!(b.block.hash, hash_of(1));
    assert_eq!(b.block.transactions, vec![tx_hash(1, 0), tx_hash(1, 1), tx_hash(1, 2)]);
    assert!(b.full_transactions.is_none());
    let full = api.get_block_by_number(1, true).unwrap().full_transactions.unwrap();
    assert_eq!(full.iter().map(|t| t.hash.clone()).collect::<Vec<_>>(), b.block.transactions);
    for (i, t) in full.iter().enumerate() {
        assert_eq!(t.block_hash, Some(hash_of(1)));
        assert_eq!(t.block_number, Some(1));
        assert_eq!(t.transaction_index, Some(i as u64));
    }
    let by_hash = api.get_block_by_hash(b.block.hash.clone(), true).unwrap().unwrap();
    assert_eq!(by_hash.block.number, 1);
    assert_eq!(by_hash.full_transactions.unwrap().len(), 3);
    assert!(api.get_block_by_number(4, false).is_none());
    let h = api.get_block_by_hash(hash_of(3), false).unwrap().unwrap();
    assert_eq!(h.block.number, 3);
    assert!(api.get_block_by_hash(hash_of(40), true).unwrap().is_none());
}

#[test]
fn get_logs_delegates_to_query() {
    let api = api();
    let r = api.get_logs(filter(Some(0), Some(1), Some("0xBB"))).unwrap();
    assert_eq!(keys(&r), vec![(0, 0, 1), (1, 0, 1)]);
    assert_eq!(api.get_logs(filter(Some(0), Some(200), None)).unwrap_err(), QueryError::RangeTooLarge);
    let mut f = filter(None, None, Some("0xAA"));
    f.topics = Some(vec![TopicFilter::Any, one_of(&["0x02"])]);
    let r = api.get_logs(f).unwrap();
    assert_eq!(keys(&r), vec![(0, 0, 0), (1, 0, 0), (2, 0, 0), (3, 0, 0)]);
}
