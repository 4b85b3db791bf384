use vstd::prelude::*;

verus! {

/// The views of a sequence of strings.
pub open spec fn views_of(ss: Seq<String>) -> Seq<Seq<char>> {
    ss.map_values(|s: String| s@)
}

/// The lowercase form of a character sequence, as `str::to_lowercase` yields it.
pub uninterp spec fn lower_of(s: Seq<char>) -> Seq<char>;

/// The words of a character sequence under UAX#29 word segmentation, as
/// `unicode_words` yields them.
pub uninterp spec fn words_of(s: Seq<char>) -> Seq<Seq<char>>;

/// The Porter stem of a word.
pub uninterp spec fn stem_of(w: Seq<char>) -> Seq<char>;

/// Relies on str::to_lowercase: the lowercase equivalent depends on the
/// characters alone, and the lowercase equivalent of an empty string is empty.
#[verifier::external_body]
fn lowercase(s: &str) -> (r: String)
    ensures
        r@ == lower_of(s@),
        s@.len() == 0 ==> r@.len() == 0,
{
    s.to_lowercase()
}

/// Relies on unicode_segmentation's UnicodeSegmentation::unicode_words: the
/// UAX#29 word segmentation depends on the characters alone; each word is a
/// substring holding at least one alphanumeric character, so no word is empty
/// and an empty string has no words.
#[verifier::external_body]
fn segment_words(s: &str) -> (words: Vec<String>)
    ensures
        views_of(words@) == words_of(s@),
        forall|i: int| 0 <= i < words@.len() ==> words@[i]@.len() > 0,
        s@.len() == 0 ==> words@.len() == 0,
{
    unicode_segmentation::UnicodeSegmentation::unicode_words(s).map(|w| w.to_string()).collect()
}

/// Relies on porter_stemmer::stem: the Porter stem depends on the word's
/// characters alone, and a word of at most two grapheme clusters, in
/// particular the empty word, comes back unchanged.
#[verifier::external_body]
fn stem_word(w: &str) -> (r: String)
    ensures
        r@ == stem_of(w@),
        w@.len() == 0 ==> r@.len() == 0,
{
    porter_stemmer::stem(w)
}

/// Each word's Porter stem, in order.
pub open spec fn stem_each(ws: Seq<Seq<char>>) -> Seq<Seq<char>> {
    ws.map_values(|w: Seq<char>| stem_of(w))
}

/// The sequence with its empty elements removed.
pub open spec fn drop_empty(ts: Seq<Seq<char>>) -> Seq<Seq<char>> {
    ts.filter(|t: Seq<char>| t.len() > 0)
}

/// The terms that a text is reduced to: lower-case the text, segment it into
/// words, stem each word, and drop any stem that came out empty.
pub open spec fn tokenize_spec(text: Seq<char>) -> Seq<Seq<char>> {
    drop_empty(stem_each(words_of(lower_of(text))))
}

/// Reduce a text to its ordered sequence of stemmed terms. Any text is valid
/// input; empty input yields an empty sequence, and no term is ever empty.
pub fn tokenize_and_stem(text: &str) -> (terms: Vec<String>)
    ensures
        views_of(terms@) == tokenize_spec(text@),
        forall|i: int| 0 <= i < terms@.len() ==> terms@[i]@.len() > 0,
        text@.len() == 0 ==> terms@.len() == 0,
{
    let lowered = lowercase(text);
    let words = segment_words(lowered.as_str());
    let ghost ws = words_of(lower_of(text@));
    let mut terms: Vec<String> = Vec::new();
    let mut i: usize = 0;
    proof {
        reveal(Seq::filter);
        assert(ws.take(0) =~= Seq::<Seq<char>>::empty());
        assert(stem_each(ws.take(0)) =~= Seq::<Seq<char>>::empty());
        assert(drop_empty(stem_each(ws.take(0))) =~= Seq::<Seq<char>>::empty());
        assert(views_of(terms@) =~= Seq::<Seq<char>>::empty());
    }
    while i < words.len()
        invariant
            0 <= i <= words@.len(),
            views_of(words@) == ws,
            views_of(terms@) == drop_empty(stem_each(ws.take(i as int))),
            forall|j: int| 0 <= j < terms@.len() ==> terms@[j]@.len() > 0,
        decreases words@.len() - i,
    {
        let ghost prefix = stem_each(ws.take(i as int));
        let ghost t = stem_of(ws[i as int]);
        proof {
            assert(views_of(words@)[i as int] == words@[i as int]@);
            assert(stem_each(ws.take(i as int + 1)) =~= prefix.push(t));
            assert(prefix.push(t).drop_last() =~= prefix);
            assert(prefix.push(t).last() == t);
        }
        let stemmed = stem_word(words[i].as_str());
        if !stemmed.as_str().is_empty() {
            let ghost old_terms = terms@;
            terms.push(stemmed);
            proof {
                reveal(Seq::filter);
                assert(drop_empty(prefix.push(t)) =~= drop_empty(prefix).push(t));
                assert(views_of(terms@) =~= views_of(old_terms).push(t));
            }
        } else {
            proof {
                reveal(Seq::filter);
                assert(drop_empty(prefix.push(t)) =~= drop_empty(prefix));
            }
        }
        i += 1;
    }
    proof {
        assert(ws.take(words@.len() as int) =~= ws);
    }
    terms
}

/// The single-term stem of a raw query keyword: the keyword lower-cased and
/// stemmed whole, never segmented into words. An empty keyword stems to the
/// empty term.
pub fn stem_query(raw: &str) -> (term: String)
    ensures
        term@ == stem_of(lower_of(raw@)),
        raw@.len() == 0 ==> term@.len() == 0,
{
    let lowered = lowercase(raw);
    stem_word(lowered.as_str())
}

/// A stemming strategy: it reduces article text to a list of stemmed terms.
pub trait IStemmer {
    /// Reduce a text to its ordered sequence of stemmed terms.
    fn istem(self, text: String) -> (terms: Vec<String>)
        ensures
            views_of(terms@) == tokenize_spec(text@),
            forall|i: int| 0 <= i < terms@.len() ==> terms@[i]@.len() > 0,
            text@.len() == 0 ==> terms@.len() == 0,
    ;
}

/// The Porter stemming strategy.
#[derive(Clone, Copy, Debug)]
pub struct SimplePorterStemmer {}

impl IStemmer for SimplePorterStemmer {
    fn istem(self, text: String) -> (terms: Vec<String>) {
        tokenize_and_stem(text.as_str())
    }
}

} // verus!
