use vstd::prelude::*;

use crate::rankers::RankError;
use crate::rankers::Ranker;
use crate::rankers::WordCountRanker;
use crate::rankers::deref_records;
use crate::rankers::pair_views;
use crate::rankers::rank_spec;
use crate::rankers::record_pairs;
use crate::stemmers::lower_of;
use crate::stemmers::stem_of;
use crate::stemmers::stem_query;
use crate::types::Record;
use crate::types::has_term;
use crate::types::lemma_has_term_index;

verus! {

/// The records of a corpus whose term map holds `term`.
pub open spec fn matching_records(corpus: Seq<Record>, term: Seq<char>) -> Seq<Record> {
    corpus.filter(|r: Record| r.stems.contains_term(term))
}

/// What a search returns: the (count, locator) pairs of the records that
/// contain the stemmed keyword, ordered by non-increasing count, with corpus
/// order kept among equal counts. The keyword is stemmed whole: lower-cased
/// and stemmed as a single term.
pub open spec fn search_spec(corpus: Seq<Record>, keyword: Seq<char>) -> Seq<(u32, Seq<char>)> {
    rank_spec(
        record_pairs(
            matching_records(corpus, stem_of(lower_of(keyword))),
            stem_of(lower_of(keyword)),
        ),
    )
}

/// Answer one keyword query over the corpus: stem the keyword, keep the
/// records that contain the stemmed term, and rank them on that term's
/// count. A keyword that matches nothing yields an empty result, never an
/// error.
pub fn search(corpus: &Vec<Record>, raw_keyword: &str) -> (results: Vec<(u32, String)>)
    ensures
        pair_views(results@) == search_spec(corpus@, raw_keyword@),
{
    let term = stem_query(raw_keyword);
    let ghost t = stem_of(lower_of(raw_keyword@));
    let mut candidates: Vec<&Record> = Vec::new();
    let mut i: usize = 0;
    proof {
        reveal(Seq::filter);
        assert(corpus@.take(0) =~= Seq::<Record>::empty());
        assert(corpus@.take(0).filter(|r: Record| r.stems.contains_term(t)) =~= Seq::<
            Record,
        >::empty());
        assert(deref_records(candidates@) =~= Seq::<Record>::empty());
    }
    while i < corpus.len()
        invariant
            0 <= i <= corpus@.len(),
            term@ == t,
            deref_records(candidates@) == corpus@.take(i as int).filter(
                |r: Record| r.stems.contains_term(t),
            ),
        decreases corpus@.len() - i,
    {
        let ghost prefix = corpus@.take(i as int);
        proof {
            assert(corpus@.take(i as int + 1).drop_last() =~= prefix);
            assert(corpus@.take(i as int + 1).last() == corpus@[i as int]);
        }
        let rec = &corpus[i];
        if rec.stems.contains(&term) {
            let ghost cands = candidates@;
            candidates.push(rec);
            proof {
                reveal(Seq::filter);
                let pred = |r: Record| r.stems.contains_term(t);
                assert(corpus@.take(i as int + 1).filter(pred) =~= prefix.filter(pred).push(
                    corpus@[i as int],
                ));
                assert(deref_records(candidates@) =~= deref_records(cands).push(corpus@[i as int]));
            }
        } else {
            proof {
                reveal(Seq::filter);
                let pred = |r: Record| r.stems.contains_term(t);
                assert(corpus@.take(i as int + 1).filter(pred) =~= prefix.filter(pred));
            }
        }
        i += 1;
    }
    proof {
        assert(corpus@.take(corpus@.len() as int) =~= corpus@);
    }
    let ranked: Result<Vec<(u32, String)>, RankError> = WordCountRanker.rank(candidates, term);
    match ranked {
        Ok(results) => results,
        Err(_) => vstd::pervasive::unreached(),
    }
}

/// Searching an empty corpus yields an empty result, whatever the keyword.
pub proof fn lemma_search_empty_corpus(keyword: Seq<char>)
    ensures
        search_spec(Seq::<Record>::empty(), keyword) == Seq::<(u32, Seq<char>)>::empty(),
{
    reveal(Seq::filter);
    let t = stem_of(lower_of(keyword));
    assert(matching_records(Seq::<Record>::empty(), t) =~= Seq::<Record>::empty());
    assert(record_pairs(Seq::<Record>::empty(), t) =~= Seq::<(u32, Seq<char>)>::empty());
    assert(rank_spec(Seq::<(u32, Seq<char>)>::empty()) =~= Seq::<(u32, Seq<char>)>::empty());
}

/// A well-formed record never holds the empty term, so a keyword that stems
/// to the empty term - an empty or whitespace-only keyword, for one -
/// matches no record and yields an empty result.
pub proof fn lemma_empty_term_matches_nothing(corpus: Seq<Record>, keyword: Seq<char>)
    requires
        forall|i: int| 0 <= i < corpus.len() ==> (#[trigger] corpus[i]).wf(),
        stem_of(lower_of(keyword)).len() == 0,
    ensures
        search_spec(corpus, keyword) == Seq::<(u32, Seq<char>)>::empty(),
{
    reveal(Seq::filter);
    let t = stem_of(lower_of(keyword));
    let pred = |r: Record| r.stems.contains_term(t);
    assert forall|i: int| 0 <= i < corpus.len() implies !pred(corpus[i]) by {
        let s = corpus[i].stems.entries_view();
        lemma_has_term_index(s, t);
        if has_term(s, t) {
            let e = choose|e: int| 0 <= e < s.len() && s[e].0 == t;
            assert(s[e].0.len() > 0);
        }
    }
    assert(corpus.all(|r: Record| !pred(r))) by {
        assert(forall|i: int| 0 <= i < corpus.len() ==> !pred(corpus[i]));
    }
    corpus.lemma_all_neg_filter_empty(pred);
    assert(matching_records(corpus, t) =~= Seq::<Record>::empty());
    assert(record_pairs(Seq::<Record>::empty(), t) =~= Seq::<(u32, Seq<char>)>::empty());
    assert(rank_spec(Seq::<(u32, Seq<char>)>::empty()) =~= Seq::<(u32, Seq<char>)>::empty());
}

} // verus!
