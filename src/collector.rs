use vstd::prelude::*;

use crate::error::StatsError;
use crate::lines::{lines_of, split_lines};
use crate::reservoir::Reservoir;
use crate::tokenize::{token_count, tokens_of};

verus! {

/// The string field `text` of the JSON object on a line, if the line is one
/// and has that field as a string.
pub uninterp spec fn record_text_of(line: Seq<u8>) -> Option<Seq<char>>;

/// Relies on `serde_json::from_slice` into a `serde_json::Value` and on
/// `Value::as_str` of its field `text`.
#[verifier::external_body]
fn record_text(line: &[u8]) -> (r: Option<String>)
    ensures
        (r is Some) == (record_text_of(line@) is Some),
        r is Some ==> r->0@ == record_text_of(line@)->0,
{
    match serde_json::from_slice::<serde_json::Value>(line) {
        Ok(v) => v["text"].as_str().map(String::from),
        Err(_) => None,
    }
}

/// The sum of a sequence of counts.
pub open spec fn sum_u64(s: Seq<u64>) -> int
    decreases s.len(),
{
    if s.len() == 0 {
        0
    } else {
        sum_u64(s.drop_last()) + s.last()
    }
}

pub open spec fn parses(line: Seq<u8>) -> bool {
    record_text_of(line) is Some
}

/// The token count of the document on a line.
pub open spec fn line_tokens(line: Seq<u8>) -> int {
    tokens_of(record_text_of(line)->0).len() as int
}

/// The tokens of all documents on the given lines.
pub open spec fn tokens_in_lines(ls: Seq<Seq<u8>>) -> int
    decreases ls.len(),
{
    if ls.len() == 0 {
        0
    } else {
        tokens_in_lines(ls.drop_last()) + line_tokens(ls.last())
    }
}

/// `k` is the first line that does not parse.
pub open spec fn first_bad_line(ls: Seq<Seq<u8>>, k: int) -> bool {
    &&& 0 <= k < ls.len()
    &&& !parses(ls[k])
    &&& forall|i: int| 0 <= i < k ==> parses(#[trigger] ls[i])
}

pub open spec fn all_parse(ls: Seq<Seq<u8>>) -> bool {
    forall|i: int| 0 <= i < ls.len() ==> parses(#[trigger] ls[i])
}

pub proof fn lemma_sum_prefix(s: Seq<u64>, i: int)
    requires
        0 <= i <= s.len(),
    ensures
        0 <= sum_u64(s.take(i)) <= sum_u64(s),
    decreases s.len(),
{
    if s.len() > 0 {
        if i == s.len() {
            assert(s.take(i) == s);
            lemma_sum_prefix(s.drop_last(), s.len() - 1);
            assert(s.drop_last().take(s.len() - 1) == s.drop_last());
        } else {
            lemma_sum_prefix(s.drop_last(), i);
            assert(s.drop_last().take(i) == s.take(i));
        }
    }
}

/// What the worker hands to the aggregator when the backlog is empty.
pub struct WorkerResult {
    pub items: Vec<u64>,
    pub total_tokens: u64,
    pub docs_seen: u64,
}

/// One worker's state: its reservoir and its running totals.
pub struct Collector {
    pub reservoir: Reservoir,
    pub total_tokens: u64,
    pub docs_seen: u64,
}

impl Collector {
    pub open spec fn wf(&self) -> bool {
        &&& self.reservoir.wf()
        &&& self.docs_seen == self.reservoir.seen
        &&& self.total_tokens == sum_u64(self.reservoir.observed@)
    }

    /// The token counts of the documents this worker has seen, in order.
    pub open spec fn observed(&self) -> Seq<u64> {
        self.reservoir.observed@
    }

    pub fn new(reservoir_size: usize) -> (r: Collector)
        ensures
            r.wf(),
            r.reservoir.capacity == reservoir_size,
            r.observed() == Seq::<u64>::empty(),
            r.total_tokens == 0,
            r.docs_seen == 0,
    {
        Collector { reservoir: Reservoir::new(reservoir_size), total_tokens: 0, docs_seen: 0 }
    }

    /// Counts one document of `count` tokens and offers the count to the reservoir.
    pub fn record(&mut self, count: u64) -> (r: Result<(), StatsError>)
        requires
            old(self).wf(),
        ensures
            final(self).wf(),
            final(self).reservoir.capacity == old(self).reservoir.capacity,
            (r is Ok) == (old(self).total_tokens + count <= u64::MAX && old(self).docs_seen
                < u64::MAX),
            r is Ok ==> final(self).observed() == old(self).observed().push(count),
            r is Ok ==> final(self).total_tokens == old(self).total_tokens + count,
            r is Ok ==> final(self).docs_seen == old(self).docs_seen + 1,
            r is Ok && old(self).docs_seen < old(self).reservoir.capacity
                ==> final(self).reservoir.items@ == old(self).reservoir.items@.push(count),
            r is Err ==> r == Err::<(), StatsError>(StatsError::CountOverflow) && *final(self)
                == *old(self),
    {
        if count > u64::MAX - self.total_tokens || self.docs_seen == u64::MAX {
            return Err(StatsError::CountOverflow);
        }
        let ghost prev = self.observed();
        self.reservoir.offer(count);
        self.total_tokens = self.total_tokens + count;
        self.docs_seen = self.docs_seen + 1;
        assert(self.observed().drop_last() == prev);
        Ok(())
    }

    /// Counts every document of one file. The file is taken whole or not at
    /// all: on an error nothing changes.
    pub fn process_file(&mut self, contents: &Vec<u8>) -> (r: Result<(), StatsError>)
        requires
            old(self).wf(),
        ensures
            final(self).wf(),
            final(self).reservoir.capacity == old(self).reservoir.capacity,
            forall|k: usize|
                r == Err::<(), StatsError>(StatsError::RecordParse { line: k }) <==> first_bad_line(
                    lines_of(contents@),
                    k as int,
                ),
            r == Err::<(), StatsError>(StatsError::CountOverflow) <==> (all_parse(
                lines_of(contents@),
            ) && (old(self).total_tokens + tokens_in_lines(lines_of(contents@)) > u64::MAX
                || old(self).docs_seen + lines_of(contents@).len() > u64::MAX)),
            r is Ok || r is Err && (r->Err_0 is RecordParse || r->Err_0 is CountOverflow),
            r is Err ==> *final(self) == *old(self),
            r is Ok ==> {
                let ls = lines_of(contents@);
                let n0 = old(self).observed().len();
                &&& final(self).observed().len() == n0 + ls.len()
                &&& final(self).observed().take(n0 as int) == old(self).observed()
                &&& forall|i: int|
                    0 <= i < ls.len() ==> final(self).observed()[n0 + i] as int == line_tokens(
                        #[trigger] ls[i],
                    )
                &&& final(self).total_tokens == old(self).total_tokens + tokens_in_lines(ls)
                &&& final(self).docs_seen == old(self).docs_seen + ls.len()
            },
    {
        let lines = split_lines(contents);
        let ghost ls = lines@.map_values(|l: Vec<u8>| l@);
        let mut counts: Vec<u64> = Vec::new();
        let mut i: usize = 0;
        while i < lines.len()
            invariant
                i <= lines@.len(),
                *self == *old(self),
                old(self).wf(),
                ls == lines@.map_values(|l: Vec<u8>| l@),
                ls == lines_of(contents@),
                counts@.len() == i,
                forall|k: int| 0 <= k < i ==> parses(#[trigger] ls[k]),
                forall|k: int| 0 <= k < i ==> counts@[k] as int == line_tokens(#[trigger] ls[k]),
            decreases lines@.len() - i,
        {
            match record_text(lines[i].as_slice()) {
                Some(text) => {
                    let c = token_count(text.as_str());
                    counts.push(c as u64);
                },
                None => {
                    assert(first_bad_line(ls, i as int));
                    proof {
                        assert forall|k: usize| first_bad_line(ls, k as int) implies k == i by {
                            if k < i {
                                assert(parses(ls[k as int]));
                            }
                            if k > i {
                                assert(parses(ls[i as int]));
                            }
                        }
                    }
                    return Err(StatsError::RecordParse { line: i });
                },
            }
            i = i + 1;
        }
        assert(all_parse(ls));
        // Check that the totals fit before changing anything.
        let mut total: u64 = self.total_tokens;
        let mut fits = true;
        let mut j: usize = 0;
        while j < counts.len()
            invariant
                j <= counts@.len(),
                counts@.len() == ls.len(),
                forall|k: int| 0 <= k < ls.len() ==> counts@[k] as int == line_tokens(#[trigger] ls[k]),
                sum_u64(counts@.take(j as int)) == tokens_in_lines(ls.take(j as int)),
                fits <==> self.total_tokens + sum_u64(counts@.take(j as int)) <= u64::MAX,
                fits ==> total == self.total_tokens + sum_u64(counts@.take(j as int)),
            decreases counts@.len() - j,
        {
            assert(counts@.take(j as int + 1).drop_last() == counts@.take(j as int));
            assert(ls.take(j as int + 1).drop_last() == ls.take(j as int));
            if fits && counts[j] <= u64::MAX - total {
                total = total + counts[j];
            } else {
                fits = false;
            }
            j = j + 1;
        }
        assert(counts@.take(counts@.len() as int) == counts@);
        assert(ls.take(ls.len() as int) == ls);
        if !fits || self.docs_seen > u64::MAX - (counts.len() as u64) {
            return Err(StatsError::CountOverflow);
        }
        let ghost prev = self.observed();
        let ghost n0 = prev.len();
        let mut j: usize = 0;
        while j < counts.len()
            invariant
                j <= counts@.len(),
                self.wf(),
                self.reservoir.capacity == old(self).reservoir.capacity,
                self.observed() == prev + counts@.take(j as int),
                self.total_tokens == old(self).total_tokens + sum_u64(counts@.take(j as int)),
                self.docs_seen == old(self).docs_seen + j,
                old(self).total_tokens + sum_u64(counts@) <= u64::MAX,
                old(self).docs_seen + counts@.len() <= u64::MAX,
            decreases counts@.len() - j,
        {
            proof {
                lemma_sum_prefix(counts@, j as int + 1);
                assert(counts@.take(j as int + 1).drop_last() == counts@.take(j as int));
            }
            let r = self.record(counts[j]);
            assert(r is Ok);
            assert(prev + counts@.take(j as int + 1) == (prev + counts@.take(j as int)).push(
                counts@[j as int],
            ));
            j = j + 1;
        }
        assert(counts@.take(counts@.len() as int) == counts@);
        assert(self.observed().take(n0 as int) == prev);
        assert forall|i: int| 0 <= i < ls.len() implies self.observed()[n0 + i] as int
            == line_tokens(#[trigger] ls[i]) by {
            assert(self.observed()[n0 + i] == counts@[i]);
        }
        Ok(())
    }

    pub fn finish(self) -> (r: WorkerResult)
        requires
            self.wf(),
        ensures
            r.items@ == self.reservoir.items@,
            r.total_tokens == self.total_tokens,
            r.docs_seen == self.docs_seen,
            r.total_tokens == sum_u64(self.observed()),
            r.docs_seen == self.observed().len(),
    {
        WorkerResult {
            items: self.reservoir.items,
            total_tokens: self.total_tokens,
            docs_seen: self.docs_seen,
        }
    }
}

} // verus!
