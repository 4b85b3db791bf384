use vstd::prelude::*;

use crate::types::Record;

verus! {

/// The views of a sequence of (count, locator) pairs.
pub open spec fn pair_views(ps: Seq<(u32, String)>) -> Seq<(u32, Seq<char>)> {
    ps.map_values(|p: (u32, String)| (p.0, p.1@))
}

/// The records behind a sequence of references.
pub open spec fn deref_records(rs: Seq<&Record>) -> Seq<Record> {
    rs.map_values(|r: &Record| *r)
}

/// The (count, locator) pair each candidate record contributes for a term:
/// its stored count of the term, zero when absent, and its locator.
pub open spec fn record_pairs(rs: Seq<Record>, term: Seq<char>) -> Seq<(u32, Seq<char>)> {
    rs.map_values(|r: Record| (r.stems.spec_count(term), r.uri@))
}

/// Counts never increase along the sequence.
pub open spec fn sorted_desc(ps: Seq<(u32, Seq<char>)>) -> bool {
    forall|i: int, j: int| 0 <= i < j < ps.len() ==> ps[i].0 >= ps[j].0
}

/// The index of the first pair whose count is below `c`; the length when
/// every count is at least `c`.
pub open spec fn first_below(ps: Seq<(u32, Seq<char>)>, c: u32) -> int
    decreases ps.len(),
{
    if ps.len() == 0 {
        0
    } else if ps[0].0 < c {
        0
    } else {
        1 + first_below(ps.drop_first(), c)
    }
}

/// Insert a pair behind every pair whose count is at least its own.
pub open spec fn insert_pair(ps: Seq<(u32, Seq<char>)>, x: (u32, Seq<char>)) -> Seq<
    (u32, Seq<char>),
> {
    ps.insert(first_below(ps, x.0), x)
}

/// Rank a sequence of (count, locator) pairs: order them by count, highest
/// first, keeping the input order among pairs of equal count.
pub open spec fn rank_spec(ps: Seq<(u32, Seq<char>)>) -> Seq<(u32, Seq<char>)>
    decreases ps.len(),
{
    if ps.len() == 0 {
        Seq::empty()
    } else {
        insert_pair(rank_spec(ps.drop_last()), ps.last())
    }
}

/// The insertion point splits the sequence into a prefix of counts at least
/// `c` and, when it is a proper index, a first count below `c`.
pub proof fn lemma_first_below(ps: Seq<(u32, Seq<char>)>, c: u32)
    ensures
        0 <= first_below(ps, c) <= ps.len(),
        forall|t: int| 0 <= t < first_below(ps, c) ==> ps[t].0 >= c,
        first_below(ps, c) < ps.len() ==> ps[first_below(ps, c)].0 < c,
    decreases ps.len(),
{
    if ps.len() > 0 && ps[0].0 >= c {
        assert(forall|t: int| 0 <= t < ps.drop_first().len() ==> ps.drop_first()[t] == ps[t + 1]);
        lemma_first_below(ps.drop_first(), c);
        assert forall|t: int| 0 <= t < first_below(ps, c) implies ps[t].0 >= c by {
            if t > 0 {
                assert(ps.drop_first()[t - 1] == ps[t]);
            }
        }
    }
}

/// A position with that split is the insertion point.
pub proof fn lemma_first_below_at(ps: Seq<(u32, Seq<char>)>, c: u32, j: int)
    requires
        0 <= j <= ps.len(),
        forall|t: int| 0 <= t < j ==> ps[t].0 >= c,
        j < ps.len() ==> ps[j].0 < c,
    ensures
        j == first_below(ps, c),
    decreases ps.len(),
{
    if j > 0 {
        assert(ps[0].0 >= c);
        assert(forall|t: int| 0 <= t < ps.drop_first().len() ==> ps.drop_first()[t] == ps[t + 1]);
        lemma_first_below_at(ps.drop_first(), c, j - 1);
    }
}

/// Inserting into an ordered sequence keeps it ordered.
pub proof fn lemma_insert_pair_sorted(ps: Seq<(u32, Seq<char>)>, x: (u32, Seq<char>))
    requires
        sorted_desc(ps),
    ensures
        sorted_desc(insert_pair(ps, x)),
{
    lemma_first_below(ps, x.0);
    let j = first_below(ps, x.0);
    let r = ps.insert(j, x);
    ps.insert_ensures(j, x);
    assert forall|a: int, b: int| 0 <= a < b < r.len() implies r[a].0 >= r[b].0 by {
        if a < j {
            assert(r[a] == ps[a]);
        } else if a == j {
            assert(r[a] == x);
        } else {
            assert(r[a] == ps[a - 1]);
        }
        if b < j {
            assert(r[b] == ps[b]);
        } else if b == j {
            assert(r[b] == x);
        } else {
            assert(r[b] == ps[b - 1]);
        }
        if a < j && b == j {
            assert(ps[a].0 >= x.0);
        }
        if a == j && b > j {
            assert(ps[b - 1].0 <= ps[j].0 && ps[j].0 < x.0);
        }
    }
}

/// Every ranked sequence is ordered by non-increasing count.
pub proof fn lemma_rank_spec_sorted(ps: Seq<(u32, Seq<char>)>)
    ensures
        sorted_desc(rank_spec(ps)),
    decreases ps.len(),
{
    if ps.len() > 0 {
        lemma_rank_spec_sorted(ps.drop_last());
        lemma_insert_pair_sorted(rank_spec(ps.drop_last()), ps.last());
    }
}

/// Ranking a sequence that is already ordered gives it back unchanged.
pub proof fn lemma_rank_spec_of_sorted(ps: Seq<(u32, Seq<char>)>)
    requires
        sorted_desc(ps),
    ensures
        rank_spec(ps) == ps,
    decreases ps.len(),
{
    if ps.len() == 0 {
        assert(rank_spec(ps) =~= ps);
    } else {
        let init = ps.drop_last();
        let x = ps.last();
        assert(forall|t: int| 0 <= t < init.len() ==> init[t] == ps[t]);
        assert(sorted_desc(init));
        lemma_rank_spec_of_sorted(init);
        assert(forall|t: int| 0 <= t < init.len() ==> init[t].0 >= x.0);
        lemma_first_below(init, x.0);
        lemma_first_below_at(init, x.0, init.len() as int);
        init.insert_ensures(init.len() as int, x);
        assert(insert_pair(init, x) =~= ps);
    }
}

/// Ranking is idempotent: ranking a ranked sequence changes nothing, so two
/// calls on the same input yield the identical output.
pub proof fn lemma_rank_spec_idempotent(ps: Seq<(u32, Seq<char>)>)
    ensures
        rank_spec(rank_spec(ps)) == rank_spec(ps),
{
    lemma_rank_spec_sorted(ps);
    lemma_rank_spec_of_sorted(rank_spec(ps));
}

/// The error type of a ranking strategy. The strategies here are total and
/// never produce it.
#[derive(Debug)]
pub struct RankError;

/// A ranking strategy: passed the candidate records and the stemmed keyword,
/// it returns the (count, locator) pairs of those candidates in its own
/// order.
pub trait Ranker {
    /// The order this strategy gives to the candidates' (count, locator)
    /// pairs.
    spec fn ranked(self, pairs: Seq<(u32, Seq<char>)>) -> Seq<(u32, Seq<char>)>;

    /// Rank the candidate records for the stemmed keyword. A candidate whose
    /// term map lacks the keyword contributes count zero; it is never an
    /// error.
    fn rank(self, results: Vec<&Record>, keyword: String) -> (res: Result<
        Vec<(u32, String)>,
        RankError,
    >)
        ensures
            res is Ok,
            pair_views(res->Ok_0@) == self.ranked(
                record_pairs(deref_records(results@), keyword@),
            ),
    ;
}

/// The trivial ranker: it orders on raw hit count alone, highest first,
/// keeping the candidate order among equal counts.
#[derive(Clone, Copy, Debug)]
pub struct WordCountRanker;

impl Ranker for WordCountRanker {
    /// Pairs ordered by non-increasing count, input order kept on ties.
    open spec fn ranked(self, pairs: Seq<(u32, Seq<char>)>) -> Seq<(u32, Seq<char>)> {
        rank_spec(pairs)
    }

    fn rank(self, results: Vec<&Record>, keyword: String) -> (res: Result<
        Vec<(u32, String)>,
        RankError,
    >) {
        let ghost pairs = record_pairs(deref_records(results@), keyword@);
        let mut out: Vec<(u32, String)> = Vec::new();
        let mut i: usize = 0;
        proof {
            assert(pairs.take(0) =~= Seq::<(u32, Seq<char>)>::empty());
            assert(rank_spec(pairs.take(0)) =~= Seq::<(u32, Seq<char>)>::empty());
            assert(pair_views(out@) =~= Seq::<(u32, Seq<char>)>::empty());
        }
        while i < results.len()
            invariant
                0 <= i <= results@.len(),
                pairs == record_pairs(deref_records(results@), keyword@),
                pairs.len() == results@.len(),
                pair_views(out@) == rank_spec(pairs.take(i as int)),
            decreases results@.len() - i,
        {
            let rec: &Record = results[i];
            let count = rec.stems.get(&keyword);
            let uri = rec.uri.clone();
            proof {
                assert(deref_records(results@)[i as int] == *results@[i as int]);
                assert(pairs[i as int] == (count, uri@));
            }
            let ghost pv = pair_views(out@);
            let mut j: usize = 0;
            while j < out.len() && out[j].0 >= count
                invariant
                    0 <= j <= out@.len(),
                    out@.len() == pv.len(),
                    pv == pair_views(out@),
                    forall|t: int| 0 <= t < j ==> pv[t].0 >= count,
                decreases out@.len() - j,
            {
                proof {
                    assert(pv[j as int] == (out@[j as int].0, out@[j as int].1@));
                }
                j += 1;
            }
            proof {
                assert(j < out@.len() ==> pv[j as int].0 < count) by {
                    if j < out@.len() {
                        assert(pv[j as int] == (out@[j as int].0, out@[j as int].1@));
                    }
                }
                lemma_first_below_at(pv, count, j as int);
            }
            out.insert(j, (count, uri));
            proof {
                pv.insert_ensures(j as int, pairs[i as int]);
                assert(pair_views(out@) =~= pv.insert(j as int, pairs[i as int]));
                assert(pairs.take(i as int + 1).drop_last() =~= pairs.take(i as int));
                assert(pairs.take(i as int + 1).last() == pairs[i as int]);
            }
            i += 1;
        }
        proof {
            assert(pairs.take(results@.len() as int) =~= pairs);
        }
        Ok(out)
    }
}

} // verus!
