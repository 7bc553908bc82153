use vstd::prelude::*;

use crate::chain::ChainData;
use crate::filter::{log_matches, matching};
use crate::model::{log_views, Block, Log, LogFilter, LogView, QueryError};

verus! {

/// The matching logs of blocks `lo` up to (not including) `hi`, block after block.
pub open spec fn range_logs(f: LogFilter, logs: Seq<Seq<LogView>>, lo: int, hi: int) -> Seq<
    LogView,
>
    decreases hi - lo,
{
    if hi <= lo {
        Seq::empty()
    } else {
        range_logs(f, logs, lo, hi - 1) + matching(f, logs[hi - 1])
    }
}

/// The first block of `blocks` whose hash is `h`, if any.
pub open spec fn first_with_hash(blocks: Seq<Block>, h: Seq<char>) -> Option<int> {
    if exists|i: int| 0 <= i < blocks.len() && blocks[i].hash@ == h {
        Some(
            choose|i: int|
                0 <= i < blocks.len() && blocks[i].hash@ == h && forall|k: int|
                    0 <= k < i ==> blocks[k].hash@ != h,
        )
    } else {
        None
    }
}

/// The last block a filter reaches: `to_block`, or the head of a chain of
/// `len` blocks when `to_block` is unset; none when unset on an empty chain.
pub open spec fn resolved_to(f: LogFilter, len: int) -> Option<int> {
    match f.to_block {
        Some(t) => Some(t as int),
        None => if len == 0 {
            None
        } else {
            Some(len - 1)
        },
    }
}

/// The first block a filter reaches: `from_block`, or genesis when unset.
pub open spec fn resolved_from(f: LogFilter) -> int {
    match f.from_block {
        Some(b) => b as int,
        None => 0,
    }
}

/// What a log query on `blocks` and `logs` returns: the error it fails with,
/// or the matching logs in canonical order.
pub open spec fn query_outcome(
    blocks: Seq<Block>,
    logs: Seq<Seq<LogView>>,
    f: LogFilter,
    max_span: u64,
) -> Result<Seq<LogView>, QueryError> {
    match f.block_hash {
        Some(h) => {
            if f.from_block is Some || f.to_block is Some {
                Err(QueryError::InvalidFilter)
            } else {
                match first_with_hash(blocks, h@) {
                    Some(i) => Ok(matching(f, logs[i])),
                    None => Err(QueryError::BlockNotFound),
                }
            }
        },
        None => match resolved_to(f, blocks.len() as int) {
            None => Ok(Seq::empty()),
            Some(to) => {
                let from = resolved_from(f);
                if from > to {
                    Err(QueryError::InvalidFilter)
                } else if to - from + 1 > max_span {
                    Err(QueryError::RangeTooLarge)
                } else {
                    let hi = if to + 1 < blocks.len() {
                        to + 1
                    } else {
                        blocks.len() as int
                    };
                    Ok(range_logs(f, logs, from, hi))
                }
            },
        },
    }
}

/// The value of a query's result.
pub open spec fn outcome_view(r: Result<Vec<Log>, QueryError>) -> Result<Seq<LogView>, QueryError> {
    match r {
        Ok(v) => Ok(log_views(v@)),
        Err(e) => Err(e),
    }
}

/// Appends copies of the logs of `logs` that match `f`.
pub(crate) fn append_matching(f: &LogFilter, logs: &Vec<Log>, out: &mut Vec<Log>)
    ensures
        log_views(final(out)@) == log_views(old(out)@) + matching(*f, log_views(logs@)),
{
    let ghost s = log_views(logs@);
    let ghost start = log_views(out@);
    let mut j: usize = 0;
    while j < logs.len()
        invariant
            j <= logs.len(),
            s == log_views(logs@),
            log_views(out@) == start + matching(*f, s.subrange(0, j as int)),
        decreases logs.len() - j,
    {
        let ghost before = log_views(out@);
        let ghost t = s.subrange(0, j + 1);
        proof {
            assert(t.drop_last() =~= s.subrange(0, j as int));
            assert(t.last() == logs@[j as int]@);
        }
        if f.matches(&logs[j]) {
            let c = logs[j].copy();
            out.push(c);
            proof {
                assert(log_views(out@) =~= before.push(c@));
            }
        }
        j += 1;
    }
    assert(s.subrange(0, logs.len() as int) =~= s);
}

impl ChainData {
    /// The index of the first block whose hash is `h`.
    pub fn block_index_by_hash(&self, h: &String) -> (r: Option<usize>)
        ensures
            r is None <==> first_with_hash(self.blocks(), h@) is None,
            r matches Some(i) ==> first_with_hash(self.blocks(), h@) == Some(i as int),
            r matches Some(i) ==> i < self.blocks().len() && self.blocks()[i as int].hash@ == h@,
    {
        let n = self.block_count();
        let mut i: usize = 0;
        while i < n
            invariant
                i <= n,
                n == self.blocks().len(),
                forall|k: int| 0 <= k < i ==> self.blocks()[k].hash@ != h@,
            decreases n - i,
        {
            if self.block_hash_is(i, h) {
                proof {
                    let c = choose|c: int|
                        0 <= c < self.blocks().len() && self.blocks()[c].hash@ == h@ && forall|k: int|
                            0 <= k < c ==> self.blocks()[k].hash@ != h@;
                    assert(c == i);
                }
                return Some(i);
            }
            i += 1;
        }
        None
    }

    /// The matching logs of blocks `start` up to (not including) `end`.
    fn collect_range(&self, f: &LogFilter, start: usize, end: usize) -> (r: Vec<Log>)
        requires
            self.wf(),
            start <= end <= self.blocks().len(),
        ensures
            log_views(r@) == range_logs(*f, self.logs(), start as int, end as int),
    {
        let mut out: Vec<Log> = Vec::new();
        let mut b: usize = start;
        assert(log_views(out@) =~= range_logs(*f, self.logs(), start as int, b as int));
        while b < end
            invariant
                start <= b <= end,
                end <= self.blocks().len(),
                self.wf(),
                log_views(out@) == range_logs(*f, self.logs(), start as int, b as int),
            decreases end - b,
        {
            self.append_block_matches(f, b, &mut out);
            b += 1;
        }
        out
    }

    fn query_by_hash(&self, filter: &LogFilter, h: &String) -> (r: Result<Vec<Log>, QueryError>)
        requires
            self.wf(),
        ensures
            outcome_view(r) == (match first_with_hash(self.blocks(), h@) {
                Some(i) => Ok(matching(*filter, self.logs()[i])),
                None => Err(QueryError::BlockNotFound),
            }),
    {
        match self.block_index_by_hash(h) {
            None => Err(QueryError::BlockNotFound),
            Some(i) => {
                let mut out: Vec<Log> = Vec::new();
                let ghost m = matching(*filter, self.logs()[i as int]);
                assert(log_views(out@) =~= Seq::<LogView>::empty());
                self.append_block_matches(filter, i, &mut out);
                assert(Seq::<LogView>::empty() + m =~= m);
                Ok(out)
            },
        }
    }

    fn query_by_range(&self, filter: &LogFilter, from: u64, to: u64, max_span: u64) -> (r: Result<
        Vec<Log>,
        QueryError,
    >)
        requires
            self.wf(),
        ensures
            outcome_view(r) == (if from > to {
                Err(QueryError::InvalidFilter)
            } else if to - from + 1 > max_span {
                Err(QueryError::RangeTooLarge)
            } else {
                let hi = if to + 1 < self.blocks().len() {
                    to + 1
                } else {
                    self.blocks().len() as int
                };
                Ok(range_logs(*filter, self.logs(), from as int, hi))
            }),
    {
        if from > to {
            return Err(QueryError::InvalidFilter);
        }
        if to - from >= max_span {
            return Err(QueryError::RangeTooLarge);
        }
        let n = self.block_count();
        let end: usize = if to < n as u64 {
            (to + 1) as usize
        } else {
            n
        };
        if from >= end as u64 {
            let out: Vec<Log> = Vec::new();
            proof {
                assert(range_logs(*filter, self.logs(), from as int, end as int) =~= Seq::empty());
                assert(log_views(out@) =~= Seq::empty());
            }
            return Ok(out);
        }
        Ok(self.collect_range(filter, from as usize, end))
    }

    /// The logs of a chain that match `filter`, in canonical order. The filter
    /// is rejected with `InvalidFilter` when it names a block hash together with
    /// a range bound, or when its resolved range is inverted; with
    /// `RangeTooLarge` when the range spans more than `max_span` blocks; with
    /// `BlockNotFound` when its block hash is unknown. An unset `to_block`
    /// resolves to the head at the time of the call.
    pub fn query_logs(&self, filter: &LogFilter, max_span: u64) -> (r: Result<Vec<Log>, QueryError>)
        requires
            self.wf(),
        ensures
            outcome_view(r) == query_outcome(self.blocks(), self.logs(), *filter, max_span),
    {
        match &filter.block_hash {
            Some(h) => {
                if filter.from_block.is_some() || filter.to_block.is_some() {
                    return Err(QueryError::InvalidFilter);
                }
                self.query_by_hash(filter, h)
            },
            None => {
                let to: u64 = match filter.to_block {
                    Some(t) => t,
                    None => match self.head_number() {
                        Some(head) => {
                            proof {
                                let n = self.blocks().len();
                                assert(self.blocks()[n - 1].number == n - 1);
                            }
                            head
                        },
                        None => {
                            let out: Vec<Log> = Vec::new();
                            assert(log_views(out@) =~= Seq::empty());
                            return Ok(out);
                        },
                    },
                };
                let from: u64 = match filter.from_block {
                    Some(b) => b,
                    None => 0,
                };
                assert(resolved_to(*filter, self.blocks().len() as int) == Some(to as int));
                assert(resolved_from(*filter) == from as int);
                self.query_by_range(filter, from, to, max_span)
            },
        }
    }
}

} // verus!
