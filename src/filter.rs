use vstd::prelude::*;

use crate::model::{Log, LogFilter, LogView, TopicFilter};

verus! {

/// Some string of `vs` has the text `t`.
pub open spec fn contains_text(vs: Seq<String>, t: Seq<char>) -> bool {
    exists|j: int| 0 <= j < vs.len() && #[trigger] vs[j]@ == t
}

/// The constraint `c` at position `pos` accepts a log with these topics.
pub open spec fn topic_accepts(c: TopicFilter, pos: int, topics: Seq<Seq<char>>) -> bool {
    match c {
        TopicFilter::Any => true,
        TopicFilter::OneOf(vs) => pos < topics.len() && contains_text(vs@, topics[pos]),
    }
}

/// Every constrained position accepts the topics; positions past the end
/// of the constraint list are free.
pub open spec fn topics_accept(cs: Seq<TopicFilter>, topics: Seq<Seq<char>>) -> bool {
    forall|i: int| 0 <= i < cs.len() ==> #[trigger] topic_accepts(cs[i], i, topics)
}

/// The log is canonical and meets the filter's address and topic constraints.
/// The block range is not part of this predicate.
pub open spec fn log_matches(f: LogFilter, l: LogView) -> bool {
    &&& !l.removed
    &&& match f.address {
        Some(a) => l.address == a@,
        None => true,
    }
    &&& match f.topics {
        Some(cs) => topics_accept(cs@, l.topics),
        None => true,
    }
}

/// The logs of `s` that match `f`, in the order of `s`.
pub open spec fn matching(f: LogFilter, s: Seq<LogView>) -> Seq<LogView>
    decreases s.len(),
{
    if s.len() == 0 {
        Seq::empty()
    } else {
        let rest = matching(f, s.drop_last());
        if log_matches(f, s.last()) {
            rest.push(s.last())
        } else {
            rest
        }
    }
}

fn contains_string(vs: &Vec<String>, t: &String) -> (r: bool)
    ensures
        r == contains_text(vs@, t@),
{
    let mut j: usize = 0;
    while j < vs.len()
        invariant
            j <= vs.len(),
            forall|k: int| 0 <= k < j ==> vs@[k]@ != t@,
        decreases vs.len() - j,
    {
        if vs[j] == *t {
            return true;
        }
        j += 1;
    }
    false
}

fn topic_constraint_holds(c: &TopicFilter, pos: usize, topics: &Vec<String>) -> (r: bool)
    ensures
        r == topic_accepts(*c, pos as int, crate::model::texts(topics@)),
{
    match c {
        TopicFilter::Any => true,
        TopicFilter::OneOf(vs) => {
            if pos < topics.len() {
                contains_string(vs, &topics[pos])
            } else {
                false
            }
        },
    }
}

fn topic_constraints_hold(cs: &Vec<TopicFilter>, topics: &Vec<String>) -> (r: bool)
    ensures
        r == topics_accept(cs@, crate::model::texts(topics@)),
{
    let mut i: usize = 0;
    while i < cs.len()
        invariant
            i <= cs.len(),
            forall|k: int|
                0 <= k < i ==> #[trigger] topic_accepts(cs@[k], k, crate::model::texts(topics@)),
        decreases cs.len() - i,
    {
        if !topic_constraint_holds(&cs[i], i, topics) {
            return false;
        }
        i += 1;
    }
    true
}

impl LogFilter {
    /// Whether `log` is canonical and meets this filter's address and topic
    /// constraints (the block range is checked by the query, not here).
    pub fn matches(&self, log: &Log) -> (r: bool)
        ensures
            r == log_matches(*self, log@),
    {
        if log.removed {
            return false;
        }
        match &self.address {
            Some(a) => {
                if log.address != *a {
                    return false;
                }
            },
            None => {},
        }
        match &self.topics {
            Some(cs) => topic_constraints_hold(cs, &log.topics),
            None => true,
        }
    }
}

} // verus!
