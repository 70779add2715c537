use vstd::prelude::*;

use crate::collector::{sum_u64, WorkerResult};
use crate::error::StatsError;

verus! {

broadcast use vstd::seq_lib::group_to_multiset_ensures;

/// The merged statistics of a run. The mean is `total_tokens / total_docs`.
#[derive(Debug, Clone, Copy, PartialEq, Eq, Structural)]
pub struct AggregateResult {
    pub total_tokens: u64,
    pub total_docs: u64,
    pub median_tokens: u64,
}

pub open spec fn sorted(s: Seq<u64>) -> bool {
    forall|i: int, j: int| 0 <= i <= j < s.len() ==> s[i] <= s[j]
}

/// `m` is the lower median of `s`: the element at index `len / 2` of `s` sorted.
pub open spec fn is_lower_median(s: Seq<u64>, m: u64) -> bool {
    exists|t: Seq<u64>|
        #[trigger] sorted(t) && t.to_multiset() == s.to_multiset() && t.len() > 0 && m == t[t.len() as int
            / 2]
}

pub open spec fn sum_tokens(rs: Seq<WorkerResult>) -> int
    decreases rs.len(),
{
    if rs.len() == 0 {
        0
    } else {
        sum_tokens(rs.drop_last()) + rs.last().total_tokens
    }
}

pub open spec fn sum_docs(rs: Seq<WorkerResult>) -> int
    decreases rs.len(),
{
    if rs.len() == 0 {
        0
    } else {
        sum_docs(rs.drop_last()) + rs.last().docs_seen
    }
}

/// The workers' reservoirs, one after another.
pub open spec fn merged_items(rs: Seq<WorkerResult>) -> Seq<u64>
    decreases rs.len(),
{
    if rs.len() == 0 {
        Seq::empty()
    } else {
        merged_items(rs.drop_last()) + rs.last().items@
    }
}

/// Relies on `slice::sort_unstable`: the same values, in ascending order.
#[verifier::external_body]
fn sort_ascending(v: &mut Vec<u64>)
    ensures
        sorted(final(v)@),
        final(v)@.to_multiset() == old(v)@.to_multiset(),
{
    v.sort_unstable()
}

fn extend_from(out: &mut Vec<u64>, src: &Vec<u64>)
    ensures
        final(out)@ == old(out)@ + src@,
{
    let mut i: usize = 0;
    while i < src.len()
        invariant
            i <= src@.len(),
            out@ == old(out)@ + src@.take(i as int),
        decreases src@.len() - i,
    {
        assert(old(out)@ + src@.take(i as int + 1) == (old(out)@ + src@.take(i as int)).push(
            src@[i as int],
        ));
        out.push(src[i]);
        i = i + 1;
    }
    assert(src@.take(src@.len() as int) == src@);
}

/// The lower median of a non-empty sample.
pub fn lower_median(sample: Vec<u64>) -> (m: u64)
    requires
        sample@.len() > 0,
    ensures
        is_lower_median(sample@, m),
{
    let mut v = sample;
    sort_ascending(&mut v);
    assert(v@.len() == v@.to_multiset().len());
    assert(sample@.len() == sample@.to_multiset().len());
    let m = v[v.len() / 2];
    assert(sorted(v@) && v@.to_multiset() == sample@.to_multiset() && v@.len() > 0 && m == v@[v@.len() as int
        / 2]);
    m
}

/// Merges the workers' results: totals are summed and the median is taken over
/// all reservoirs together.
pub fn aggregate(results: Vec<WorkerResult>) -> (r: Result<AggregateResult, StatsError>)
    ensures
        (r == Err::<AggregateResult, StatsError>(StatsError::CountOverflow)) == (sum_tokens(
            results@,
        ) > u64::MAX || sum_docs(results@) > u64::MAX),
        (r == Err::<AggregateResult, StatsError>(StatsError::EmptyCorpus)) == (sum_tokens(results@)
            <= u64::MAX && sum_docs(results@) == 0),
        (r == Err::<AggregateResult, StatsError>(StatsError::EmptySample)) == (sum_tokens(results@)
            <= u64::MAX && 0 < sum_docs(results@) <= u64::MAX && merged_items(results@).len() == 0),
        r is Ok || r == Err::<AggregateResult, StatsError>(StatsError::CountOverflow) || r == Err::<
            AggregateResult,
            StatsError,
        >(StatsError::EmptyCorpus) || r == Err::<AggregateResult, StatsError>(
            StatsError::EmptySample,
        ),
        r is Ok ==> {
            &&& r->Ok_0.total_tokens == sum_tokens(results@)
            &&& r->Ok_0.total_docs == sum_docs(results@)
            &&& r->Ok_0.total_docs > 0
            &&& is_lower_median(merged_items(results@), r->Ok_0.median_tokens)
        },
{
    let mut tokens: u64 = 0;
    let mut docs: u64 = 0;
    let mut fits = true;
    let mut merged: Vec<u64> = Vec::new();
    let mut i: usize = 0;
    while i < results.len()
        invariant
            i <= results@.len(),
            fits <==> (sum_tokens(results@.take(i as int)) <= u64::MAX && sum_docs(
                results@.take(i as int),
            ) <= u64::MAX),
            fits ==> tokens == sum_tokens(results@.take(i as int)) && docs == sum_docs(
                results@.take(i as int),
            ),
            sum_tokens(results@.take(i as int)) >= 0,
            sum_docs(results@.take(i as int)) >= 0,
            merged@ == merged_items(results@.take(i as int)),
        decreases results@.len() - i,
    {
        assert(results@.take(i as int + 1).drop_last() == results@.take(i as int));
        let w = &results[i];
        if fits && w.total_tokens <= u64::MAX - tokens && w.docs_seen <= u64::MAX - docs {
            tokens = tokens + w.total_tokens;
            docs = docs + w.docs_seen;
        } else {
            fits = false;
        }
        extend_from(&mut merged, &w.items);
        i = i + 1;
    }
    assert(results@.take(results@.len() as int) == results@);
    if !fits {
        return Err(StatsError::CountOverflow);
    }
    if docs == 0 {
        return Err(StatsError::EmptyCorpus);
    }
    if merged.len() == 0 {
        return Err(StatsError::EmptySample);
    }
    let median = lower_median(merged);
    Ok(AggregateResult { total_tokens: tokens, total_docs: docs, median_tokens: median })
}

pub open spec fn is_lower_bound(s: Seq<u64>, lo: u64) -> bool {
    forall|i: int| 0 <= i < s.len() ==> lo <= #[trigger] s[i]
}

pub open spec fn is_upper_bound(s: Seq<u64>, hi: u64) -> bool {
    forall|i: int| 0 <= i < s.len() ==> #[trigger] s[i] <= hi
}

/// The lower median is one of the sampled values, so it lies between the
/// smallest and the largest of them.
pub proof fn lemma_median_bounds(s: Seq<u64>, m: u64)
    requires
        is_lower_median(s, m),
    ensures
        s.contains(m),
        forall|lo: u64| #[trigger] is_lower_bound(s, lo) ==> lo <= m,
        forall|hi: u64| #[trigger] is_upper_bound(s, hi) ==> m <= hi,
{
    let t = choose|t: Seq<u64>|
        #[trigger] sorted(t) && t.to_multiset() == s.to_multiset() && t.len() > 0 && m == t[t.len() as int
            / 2];
    assert(t.contains(t[t.len() as int / 2]));
    assert(t.to_multiset().count(m) > 0);
    assert(s.contains(m));
    let k = choose|k: int| 0 <= k < s.len() && s[k] == m;
    assert forall|lo: u64| #[trigger] is_lower_bound(s, lo) implies lo <= m by {
        assert(lo <= s[k]);
    }
    assert forall|hi: u64| #[trigger] is_upper_bound(s, hi) implies m <= hi by {
        assert(s[k] <= hi);
    }
}

/// The observation streams of several workers, one after another.
pub open spec fn concat_all(parts: Seq<Seq<u64>>) -> Seq<u64>
    decreases parts.len(),
{
    if parts.len() == 0 {
        Seq::empty()
    } else {
        concat_all(parts.drop_last()) + parts.last()
    }
}

pub proof fn lemma_sum_concat(a: Seq<u64>, b: Seq<u64>)
    ensures
        sum_u64(a + b) == sum_u64(a) + sum_u64(b),
    decreases b.len(),
{
    if b.len() == 0 {
        assert(a + b == a);
    } else {
        lemma_sum_concat(a, b.drop_last());
        assert((a + b).drop_last() == a + b.drop_last());
    }
}

pub proof fn lemma_sum_remove(t: Seq<u64>, k: int)
    requires
        0 <= k < t.len(),
    ensures
        sum_u64(t) == sum_u64(t.remove(k)) + t[k],
    decreases t.len(),
{
    if k == t.len() - 1 {
        assert(t.remove(k) == t.drop_last());
    } else {
        lemma_sum_remove(t.drop_last(), k);
        assert(t.remove(k).drop_last() == t.drop_last().remove(k));
        assert(t.remove(k).last() == t.last());
    }
}

/// A sum does not depend on the order of its terms.
pub proof fn lemma_sum_permutation(s: Seq<u64>, t: Seq<u64>)
    requires
        s.to_multiset() == t.to_multiset(),
    ensures
        sum_u64(s) == sum_u64(t),
    decreases s.len(),
{
    assert(s.len() == s.to_multiset().len());
    assert(t.len() == t.to_multiset().len());
    if s.len() > 0 {
        let x = s.last();
        assert(s.drop_last().push(x) == s);
        assert(s.to_multiset() == s.drop_last().to_multiset().insert(x));
        assert(t.to_multiset().count(x) > 0);
        assert(t.contains(x));
        let k = choose|k: int| 0 <= k < t.len() && t[k] == x;
        assert(t.remove(k).to_multiset() == t.to_multiset().remove(x));
        assert(t.remove(k).to_multiset() =~= s.drop_last().to_multiset());
        lemma_sum_permutation(s.drop_last(), t.remove(k));
        lemma_sum_remove(t, k);
    }
}

/// Conservation: however the documents were shared out among the workers,
/// the merged token and document totals are those of one worker that saw
/// every document.
pub proof fn lemma_conservation(results: Seq<WorkerResult>, parts: Seq<Seq<u64>>, docs: Seq<u64>)
    requires
        results.len() == parts.len(),
        forall|i: int|
            0 <= i < results.len() ==> #[trigger] results[i].total_tokens == sum_u64(parts[i])
                && results[i].docs_seen == parts[i].len(),
        concat_all(parts).to_multiset() == docs.to_multiset(),
    ensures
        sum_tokens(results) == sum_u64(docs),
        sum_docs(results) == docs.len(),
{
    lemma_totals_concat(results, parts);
    lemma_sum_permutation(concat_all(parts), docs);
    assert(concat_all(parts).len() == concat_all(parts).to_multiset().len());
    assert(docs.len() == docs.to_multiset().len());
}

proof fn lemma_totals_concat(results: Seq<WorkerResult>, parts: Seq<Seq<u64>>)
    requires
        results.len() == parts.len(),
        forall|i: int|
            0 <= i < results.len() ==> #[trigger] results[i].total_tokens == sum_u64(parts[i])
                && results[i].docs_seen == parts[i].len(),
    ensures
        sum_tokens(results) == sum_u64(concat_all(parts)),
        sum_docs(results) == concat_all(parts).len(),
    decreases results.len(),
{
    if results.len() > 0 {
        let n = results.len() - 1;
        assert(results[n].total_tokens == sum_u64(parts[n]));
        assert forall|i: int| 0 <= i < n implies #[trigger] results.drop_last()[i].total_tokens
            == sum_u64(parts.drop_last()[i]) && results.drop_last()[i].docs_seen
            == parts.drop_last()[i].len() by {
            assert(results[i].total_tokens == sum_u64(parts[i]));
        }
        lemma_totals_concat(results.drop_last(), parts.drop_last());
        lemma_sum_concat(concat_all(parts.drop_last()), parts.last());
    }
}

} // verus!
