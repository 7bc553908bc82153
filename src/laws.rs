use vstd::prelude::*;

use crate::api::is_hash_text;
use crate::chain::{first_tx_with_hash, all_in_block, log_before, sorted_logs, ChainData};
use crate::filter::{contains_text, log_matches, matching};
use crate::model::{Block, Log, Transaction, LogFilter, LogView, QueryError, TopicFilter};
use crate::query::{first_with_hash, outcome_view, query_outcome, range_logs, resolved_from, resolved_to};

verus! {

/// Each log that `matching` keeps matches the filter and comes from `s`;
/// and the kept logs stay in canonical order when `s` is.
proof fn lemma_matching_members(f: LogFilter, s: Seq<LogView>)
    ensures
        forall|k: int|
            0 <= k < matching(f, s).len() ==> log_matches(f, #[trigger] matching(f, s)[k]),
        forall|k: int|
            0 <= k < matching(f, s).len() ==> exists|j: int|
                0 <= j < s.len() && s[j] == #[trigger] matching(f, s)[k],
        sorted_logs(s) ==> sorted_logs(matching(f, s)),
    decreases s.len(),
{
    if s.len() > 0 {
        let p = s.drop_last();
        lemma_matching_members(f, p);
        let m = matching(f, s);
        let mp = matching(f, p);
        assert forall|k: int| 0 <= k < m.len() implies exists|j: int|
            0 <= j < s.len() && s[j] == #[trigger] m[k] by {
            if k < mp.len() {
                let j = choose|j: int| 0 <= j < p.len() && p[j] == mp[k];
                assert(s[j] == m[k]);
            } else {
                assert(s[s.len() - 1] == m[k]);
            }
        };
        if sorted_logs(s) {
            assert(sorted_logs(p));
            assert forall|x: int, y: int| 0 <= x < y < m.len() implies log_before(
                #[trigger] m[x],
                #[trigger] m[y],
            ) by {
                if y >= mp.len() {
                    let j = choose|j: int| 0 <= j < p.len() && p[j] == mp[x];
                    assert(s[j] == m[x]);
                    assert(s.last() == m[y]);
                }
            };
        }
    }
}

/// The logs of a block range match the filter, lie in the range, and are in
/// canonical order, when each block's logs belong to it in canonical order.
proof fn lemma_range_sorted(f: LogFilter, logs: Seq<Seq<LogView>>, lo: int, hi: int)
    requires
        0 <= lo,
        hi <= logs.len(),
        forall|i: int| lo <= i < hi ==> #[trigger] all_in_block(logs[i], i),
        forall|i: int| lo <= i < hi ==> #[trigger] sorted_logs(logs[i]),
    ensures
        sorted_logs(range_logs(f, logs, lo, hi)),
        forall|k: int|
            0 <= k < range_logs(f, logs, lo, hi).len() ==> log_matches(
                f,
                #[trigger] range_logs(f, logs, lo, hi)[k],
            ) && lo <= range_logs(f, logs, lo, hi)[k].block_number < hi,
    decreases hi - lo,
{
    if hi > lo {
        lemma_range_sorted(f, logs, lo, hi - 1);
        let a = range_logs(f, logs, lo, hi - 1);
        let s = logs[hi - 1];
        let b = matching(f, s);
        lemma_matching_members(f, s);
        assert(all_in_block(s, hi - 1));
        assert(sorted_logs(s));
        assert forall|k: int| 0 <= k < b.len() implies (#[trigger] b[k]).block_number == hi - 1 by {
            let j = choose|j: int| 0 <= j < s.len() && s[j] == b[k];
        };
        let r = a + b;
        assert(r == range_logs(f, logs, lo, hi));
        assert forall|x: int, y: int| 0 <= x < y < r.len() implies log_before(
            #[trigger] r[x],
            #[trigger] r[y],
        ) by {
            if x >= a.len() {
                assert(r[x] == b[x - a.len()]);
                assert(r[y] == b[y - a.len()]);
            } else if y >= a.len() {
                assert(r[y] == b[y - a.len()]);
            }
        };
        assert forall|k: int| 0 <= k < r.len() implies log_matches(f, #[trigger] r[k]) && lo
            <= r[k].block_number < hi by {
            if k >= a.len() {
                assert(r[k] == b[k - a.len()]);
            }
        };
    }
}

proof fn lemma_first_hash_exists(blocks: Seq<Block>, h: Seq<char>, i: int)
    requires
        0 <= i < blocks.len(),
        blocks[i].hash@ == h,
    ensures
        exists|c: int|
            0 <= c < blocks.len() && blocks[c].hash@ == h && forall|k: int|
                0 <= k < c ==> blocks[k].hash@ != h,
    decreases i,
{
    if exists|k: int| 0 <= k < i && blocks[k].hash@ == h {
        let k = choose|k: int| 0 <= k < i && blocks[k].hash@ == h;
        lemma_first_hash_exists(blocks, h, k);
    } else {
        assert(forall|k: int| 0 <= k < i ==> blocks[k].hash@ != h);
    }
}

/// The first block with a given hash is a block of the chain with that hash.
proof fn lemma_first_with_hash_found(blocks: Seq<Block>, h: Seq<char>)
    ensures
        first_with_hash(blocks, h) matches Some(i) ==> 0 <= i < blocks.len() && blocks[i].hash@ == h,
{
    if exists|i: int| 0 <= i < blocks.len() && blocks[i].hash@ == h {
        let i = choose|i: int| 0 <= i < blocks.len() && blocks[i].hash@ == h;
        lemma_first_hash_exists(blocks, h, i);
    }
}

proof fn lemma_matching_keeps(f: LogFilter, s: Seq<LogView>, j: int)
    requires
        0 <= j < s.len(),
        log_matches(f, s[j]),
    ensures
        matching(f, s).contains(s[j]),
    decreases s.len(),
{
    let m = matching(f, s);
    if j == s.len() - 1 {
        assert(m[m.len() - 1] == s[j]);
    } else {
        let p = s.drop_last();
        assert(p[j] == s[j]);
        lemma_matching_keeps(f, p, j);
        let mp = matching(f, p);
        let k = choose|k: int| 0 <= k < mp.len() && mp[k] == s[j];
        assert(m[k] == s[j]);
    }
}

proof fn lemma_range_keeps(f: LogFilter, logs: Seq<Seq<LogView>>, lo: int, hi: int, i: int, j: int)
    requires
        lo <= i < hi <= logs.len(),
        0 <= j < logs[i].len(),
        log_matches(f, logs[i][j]),
    ensures
        range_logs(f, logs, lo, hi).contains(logs[i][j]),
    decreases hi - lo,
{
    let a = range_logs(f, logs, lo, hi - 1);
    let b = matching(f, logs[hi - 1]);
    let r = a + b;
    assert(r == range_logs(f, logs, lo, hi));
    if i == hi - 1 {
        lemma_matching_keeps(f, logs[i], j);
        let k = choose|k: int| 0 <= k < b.len() && b[k] == logs[i][j];
        assert(r[a.len() + k] == logs[i][j]);
    } else {
        lemma_range_keeps(f, logs, lo, hi - 1, i, j);
        let k = choose|k: int| 0 <= k < a.len() && a[k] == logs[i][j];
        assert(r[k] == logs[i][j]);
    }
}

/// A range query that succeeds leaves out no log of its range that matches
/// the filter.
pub proof fn lemma_range_results_complete(
    chain: ChainData,
    f: LogFilter,
    max_span: u64,
    i: int,
    j: int,
)
    requires
        chain.wf(),
        f.block_hash is None,
        resolved_to(f, chain.blocks().len() as int) matches Some(to) && resolved_from(f) <= i <= to
            && to - resolved_from(f) + 1 <= max_span,
        0 <= i < chain.blocks().len(),
        0 <= j < chain.logs()[i].len(),
        log_matches(f, chain.logs()[i][j]),
    ensures
        query_outcome(chain.blocks(), chain.logs(), f, max_span) matches Ok(s) && s.contains(
            chain.logs()[i][j],
        ),
{
    let to = resolved_to(f, chain.blocks().len() as int)->Some_0;
    let hi = if to + 1 < chain.blocks().len() {
        to + 1
    } else {
        chain.blocks().len() as int
    };
    lemma_range_keeps(f, chain.logs(), resolved_from(f), hi, i, j);
}

/// A query pinned to a block by hash leaves out no log of that block that
/// matches the filter.
pub proof fn lemma_pinned_results_complete(
    chain: ChainData,
    f: LogFilter,
    max_span: u64,
    i: int,
    j: int,
)
    requires
        chain.wf(),
        f.block_hash matches Some(h) && first_with_hash(chain.blocks(), h@) == Some(i),
        f.from_block is None,
        f.to_block is None,
        0 <= j < chain.logs()[i].len(),
        log_matches(f, chain.logs()[i][j]),
    ensures
        query_outcome(chain.blocks(), chain.logs(), f, max_span) matches Ok(s) && s.contains(
            chain.logs()[i][j],
        ),
{
    let h = f.block_hash->Some_0;
    lemma_first_with_hash_found(chain.blocks(), h@);
    lemma_matching_keeps(f, chain.logs()[i], j);
}

/// The first transaction with a given hash is a recorded transaction with that hash.
pub proof fn lemma_first_tx_found(txs: Seq<Transaction>, h: Seq<char>)
    ensures
        first_tx_with_hash(txs, h) matches Some(i) ==> 0 <= i < txs.len() && txs[i].hash@ == h,
{
    if exists|i: int| 0 <= i < txs.len() && txs[i].hash@ == h {
        let i = choose|i: int| 0 <= i < txs.len() && txs[i].hash@ == h;
        lemma_first_tx_exists(txs, h, i);
    }
}

proof fn lemma_first_tx_exists(txs: Seq<Transaction>, h: Seq<char>, i: int)
    requires
        0 <= i < txs.len(),
        txs[i].hash@ == h,
    ensures
        exists|c: int|
            0 <= c < txs.len() && txs[c].hash@ == h && forall|k: int|
                0 <= k < c ==> txs[k].hash@ != h,
    decreases i,
{
    if exists|k: int| 0 <= k < i && txs[k].hash@ == h {
        let k = choose|k: int| 0 <= k < i && txs[k].hash@ == h;
        lemma_first_tx_exists(txs, h, k);
    } else {
        assert(forall|k: int| 0 <= k < i ==> txs[k].hash@ != h);
    }
}

/// In a well-formed chain every block's hash is well-formed, and looking it
/// up by that hash finds that very block.
pub proof fn lemma_block_hash_finds_block(chain: ChainData, n: int)
    requires
        chain.wf(),
        0 <= n < chain.blocks().len(),
    ensures
        is_hash_text(chain.blocks()[n].hash@),
        first_with_hash(chain.blocks(), chain.blocks()[n].hash@) == Some(n),
{
    let bs = chain.blocks();
    let h = bs[n].hash@;
    assert(forall|k: int| 0 <= k < n ==> bs[k].hash@ != h);
    let c = choose|c: int|
        0 <= c < bs.len() && bs[c].hash@ == h && forall|k: int| 0 <= k < c ==> bs[k].hash@ != h;
    if c > n {
        assert(bs[n].hash@ != bs[c].hash@);
    }
}

/// A query whose resolved `from_block` lies past its resolved `to_block`
/// fails with `InvalidFilter`.
pub proof fn lemma_inverted_range_rejected(chain: ChainData, f: LogFilter, max_span: u64)
    requires
        resolved_to(f, chain.blocks().len() as int) matches Some(to) && resolved_from(f) > to,
    ensures
        query_outcome(chain.blocks(), chain.logs(), f, max_span) == Err::<Seq<LogView>, QueryError>(
            QueryError::InvalidFilter,
        ),
{
}

/// A query that names a block hash together with a range bound fails with
/// `InvalidFilter`.
pub proof fn lemma_hash_with_range_rejected(chain: ChainData, f: LogFilter, max_span: u64)
    requires
        f.block_hash is Some,
        f.from_block is Some || f.to_block is Some,
    ensures
        query_outcome(chain.blocks(), chain.logs(), f, max_span) == Err::<Seq<LogView>, QueryError>(
            QueryError::InvalidFilter,
        ),
{
}

/// Every successful query returns logs in strictly ascending
/// (block number, transaction index, log index) order, so without
/// duplicates, and each returned log matches the filter.
pub proof fn lemma_results_sorted(chain: ChainData, f: LogFilter, max_span: u64)
    requires
        chain.wf(),
    ensures
        query_outcome(chain.blocks(), chain.logs(), f, max_span) matches Ok(s) ==> sorted_logs(s)
            && forall|k: int| 0 <= k < s.len() ==> log_matches(f, #[trigger] s[k]),
{
    let blocks = chain.blocks();
    let logs = chain.logs();
    match f.block_hash {
        Some(h) => {
            lemma_first_with_hash_found(blocks, h@);
            if let Some(i) = first_with_hash(blocks, h@) {
                assert(sorted_logs(logs[i]));
                lemma_matching_members(f, logs[i]);
            }
        },
        None => {
            if let Some(to) = resolved_to(f, blocks.len() as int) {
                let from = resolved_from(f);
                let hi = if to + 1 < blocks.len() {
                    to + 1
                } else {
                    blocks.len() as int
                };
                if from <= to && hi <= logs.len() {
                    lemma_range_sorted(f, logs, from, hi);
                }
            }
        },
    }
}

/// Every log that a successful range query returns lies in a block of its
/// resolved range; together with completeness, a log of the chain is
/// returned exactly when it lies in that range and matches the filter.
pub proof fn lemma_range_results_in_range(chain: ChainData, f: LogFilter, max_span: u64)
    requires
        chain.wf(),
        f.block_hash is None,
    ensures
        query_outcome(chain.blocks(), chain.logs(), f, max_span) matches Ok(s) ==> forall|k: int|
            0 <= k < s.len() ==> resolved_from(f) <= (#[trigger] s[k]).block_number
                && (resolved_to(f, chain.blocks().len() as int) matches Some(to)
                && s[k].block_number <= to),
{
    let blocks = chain.blocks();
    if let Some(to) = resolved_to(f, blocks.len() as int) {
        let from = resolved_from(f);
        let hi = if to + 1 < blocks.len() {
            to + 1
        } else {
            blocks.len() as int
        };
        if from <= to {
            lemma_range_sorted(f, chain.logs(), from, hi);
        }
    }
}

/// Logs marked removed are never returned by a query.
pub proof fn lemma_removed_never_returned(chain: ChainData, f: LogFilter, max_span: u64)
    requires
        chain.wf(),
    ensures
        query_outcome(chain.blocks(), chain.logs(), f, max_span) matches Ok(s) ==> forall|k: int|
            0 <= k < s.len() ==> !(#[trigger] s[k]).removed,
{
    lemma_results_sorted(chain, f, max_span);
}

/// Two calls of the same query on the same chain return the same logs in
/// the same order, or the same error.
pub proof fn lemma_query_repeatable(
    chain: ChainData,
    f: LogFilter,
    max_span: u64,
    r1: Result<Vec<Log>, QueryError>,
    r2: Result<Vec<Log>, QueryError>,
)
    requires
        outcome_view(r1) == query_outcome(chain.blocks(), chain.logs(), f, max_span),
        outcome_view(r2) == query_outcome(chain.blocks(), chain.logs(), f, max_span),
    ensures
        outcome_view(r1) == outcome_view(r2),
{
}

/// A log whose address differs from the filter's does not match, whatever
/// its topics.
pub proof fn lemma_address_mismatch_rejects(f: LogFilter, l: LogView)
    requires
        f.address matches Some(a) && l.address != a@,
    ensures
        !log_matches(f, l),
{
}

/// A removed log never matches.
pub proof fn lemma_removed_rejected(f: LogFilter, l: LogView)
    requires
        l.removed,
    ensures
        !log_matches(f, l),
{
}

/// A log with no topic at a constrained position does not match.
pub proof fn lemma_missing_topic_rejects(f: LogFilter, l: LogView, i: int)
    requires
        f.topics matches Some(cs) && 0 <= i < cs.len() && cs[i] is OneOf,
        l.topics.len() <= i,
    ensures
        !log_matches(f, l),
{
    let cs = f.topics->Some_0@;
    assert(!crate::filter::topic_accepts(cs[i], i, l.topics));
}

/// A log whose topic at a constrained position is none of the accepted
/// values does not match.
pub proof fn lemma_wrong_topic_rejects(f: LogFilter, l: LogView, i: int, vs: Vec<String>)
    requires
        f.topics matches Some(cs) && 0 <= i < cs.len() && cs[i] == TopicFilter::OneOf(vs),
        i < l.topics.len(),
        !contains_text(vs@, l.topics[i]),
    ensures
        !log_matches(f, l),
{
    let cs = f.topics->Some_0@;
    assert(!crate::filter::topic_accepts(cs[i], i, l.topics));
}

proof fn lemma_matching_same(f: LogFilter, g: LogFilter, s: Seq<LogView>)
    requires
        f.address == g.address,
        f.topics == g.topics,
    ensures
        matching(f, s) == matching(g, s),
    decreases s.len(),
{
    if s.len() > 0 {
        lemma_matching_same(f, g, s.drop_last());
    }
}

proof fn lemma_range_same(f: LogFilter, g: LogFilter, logs: Seq<Seq<LogView>>, lo: int, hi: int)
    requires
        f.address == g.address,
        f.topics == g.topics,
    ensures
        range_logs(f, logs, lo, hi) == range_logs(g, logs, lo, hi),
    decreases hi - lo,
{
    if hi > lo {
        lemma_range_same(f, g, logs, lo, hi - 1);
        lemma_matching_same(f, g, logs[hi - 1]);
    }
}

/// On a non-empty chain, a range query with `to_block` unset answers as the
/// same query with `to_block` set to the head's number at the time of the call.
pub proof fn lemma_open_end_reads_head(chain: ChainData, f: LogFilter, g: LogFilter, max_span: u64)
    requires
        chain.blocks().len() > 0,
        f.block_hash is None,
        f.to_block is None,
        g.to_block == Some((chain.blocks().len() - 1) as u64),
        chain.blocks().len() - 1 <= u64::MAX,
        g.from_block == f.from_block,
        g.address == f.address,
        g.topics == f.topics,
        g.block_hash == f.block_hash,
    ensures
        query_outcome(chain.blocks(), chain.logs(), f, max_span) == query_outcome(
            chain.blocks(),
            chain.logs(),
            g,
            max_span,
        ),
{
    let to = chain.blocks().len() - 1;
    lemma_range_same(f, g, chain.logs(), resolved_from(f), to + 1);
}

} // verus!
