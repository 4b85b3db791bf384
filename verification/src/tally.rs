use vstd::prelude::*;

use crate::stemmers::drop_empty;
use crate::stemmers::views_of;
use crate::types::TermMap;

verus! {

/// How many times term `k` occurs in a term sequence.
pub open spec fn occurrences(ts: Seq<Seq<char>>, k: Seq<char>) -> nat {
    ts.filter(|t: Seq<char>| t == k).len()
}

/// The number of non-empty terms in a term sequence.
pub open spec fn nonempty_count(ts: Seq<Seq<char>>) -> nat {
    drop_empty(ts).len()
}

/// Count the occurrences of each distinct term of one document. Terms that
/// are empty strings are excluded, so the counts sum to the number of
/// non-empty input terms, and no zero-valued entry is ever stored. The result
/// does not depend on the order of the input terms beyond that sum.
pub fn tally_words(untallied: Vec<String>) -> (m: TermMap)
    requires
        untallied@.len() <= u32::MAX,
    ensures
        m.wf(),
        forall|k: Seq<char>| k.len() > 0 ==> (#[trigger] m.spec_count(k)) as nat == occurrences(
            views_of(untallied@),
            k,
        ),
        forall|k: Seq<char>| k.len() == 0 ==> m.spec_count(k) == 0,
        m.total() == nonempty_count(views_of(untallied@)),
{
    let ghost vs = views_of(untallied@);
    let mut m = TermMap::new();
    let mut i: usize = 0;
    proof {
        reveal(Seq::filter);
        assert(vs.take(0) =~= Seq::<Seq<char>>::empty());
        assert(drop_empty(vs.take(0)) =~= Seq::<Seq<char>>::empty());
        assert forall|k: Seq<char>| m.spec_count(k) == 0 && occurrences(vs.take(0), k) == 0 by {
            assert(vs.take(0).filter(|t: Seq<char>| t == k) =~= Seq::<Seq<char>>::empty());
        }
    }
    while i < untallied.len()
        invariant
            0 <= i <= untallied@.len(),
            untallied@.len() <= u32::MAX,
            vs == views_of(untallied@),
            m.wf(),
            forall|k: Seq<char>| k.len() > 0 ==> (#[trigger] m.spec_count(k)) as nat
                == occurrences(vs.take(i as int), k),
            forall|k: Seq<char>| k.len() == 0 ==> m.spec_count(k) == 0,
            m.total() == nonempty_count(vs.take(i as int)),
        decreases untallied@.len() - i,
    {
        let ghost prefix = vs.take(i as int);
        let ghost wv = vs[i as int];
        proof {
            assert(views_of(untallied@)[i as int] == untallied@[i as int]@);
            assert(vs.take(i as int + 1) =~= prefix.push(wv));
            assert(prefix.push(wv).drop_last() =~= prefix);
            assert(prefix.push(wv).last() == wv);
        }
        let word = &untallied[i];
        if !word.as_str().is_empty() {
            proof {
                reveal(Seq::filter);
                assert(occurrences(prefix, wv) <= prefix.len()) by {
                    prefix.lemma_filter_len(|t: Seq<char>| t == wv);
                }
            }
            m.increment(word.clone());
            proof {
                reveal(Seq::filter);
                assert forall|k: Seq<char>| k.len() > 0 implies (#[trigger] m.spec_count(k)) as nat
                    == occurrences(prefix.push(wv), k) by {
                    if k == wv {
                        assert(prefix.push(wv).filter(|t: Seq<char>| t == k) =~= prefix.filter(
                            |t: Seq<char>| t == k,
                        ).push(wv));
                    } else {
                        assert(prefix.push(wv).filter(|t: Seq<char>| t == k) =~= prefix.filter(
                            |t: Seq<char>| t == k,
                        ));
                    }
                }
                assert(drop_empty(prefix.push(wv)) =~= drop_empty(prefix).push(wv));
            }
        } else {
            proof {
                reveal(Seq::filter);
                assert forall|k: Seq<char>| k.len() > 0 implies occurrences(prefix.push(wv), k)
                    == occurrences(prefix, k) by {
                    assert(prefix.push(wv).filter(|t: Seq<char>| t == k) =~= prefix.filter(
                        |t: Seq<char>| t == k,
                    ));
                }
                assert(drop_empty(prefix.push(wv)) =~= drop_empty(prefix));
            }
        }
        i += 1;
    }
    proof {
        assert(vs.take(untallied@.len() as int) =~= vs);
    }
    m
}

} // verus!
