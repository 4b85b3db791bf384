use wikisearch::stemmers::IStemmer;
use wikisearch::stemmers::SimplePorterStemmer;
use wikisearch::stemmers::stem_query;
use wikisearch::stemmers::tokenize_and_stem;
use wikisearch::tally::tally_words;

#[test]
fn test_tally_ho() {
    let sentence = " he ran she runs they run he is a runner".to_string();
    let m = tally_words(tokenize_and_stem(sentence.as_str()));
    assert_eq!(8, m.len());
    assert_eq!(2, m.get(&"he".to_string()));
    assert_eq!(1, m.get(&"a".to_string()));
    assert_eq!(1, m.get(&"she".to_string()));
    assert_eq!(2, m.get(&"run".to_string()));
    assert_eq!(1, m.get(&"ran".to_string()));
    assert_eq!(1, m.get(&"runner".to_string()));
    assert_eq!(1, m.get(&"thei".to_string()));
    assert_eq!(1, m.get(&"is".to_string()));
}

#[test]
fn main_test_stemmer() {
    let sentence = " he ran she runs they run he is a runner".to_string();
    assert_eq!(
        10,
        tokenize_and_stem(sentence.as_str()).len(),
        "{:?}",
        tokenize_and_stem(sentence.as_str())
    );

    let sentence = "".to_string();
    assert_eq!(
        0,
        tokenize_and_stem(sentence.as_str()).len(),
        "{:?}",
        tokenize_and_stem(sentence.as_str())
    );
}

#[test]
fn stemmers_test_stemmer() {
    let stemmer = SimplePorterStemmer {};
    let sentence = " he ran she runs they run he is a runner".to_string();
    assert_eq!(
        10,
        stemmer.istem(sentence.clone()).len(),
        "{:?}",
        stemmer.istem(sentence)
    );

    let sentence = "".to_string();
    assert_eq!(
        0,
        stemmer.istem(sentence.clone()).len(),
        "{:?}",
        stemmer.istem(sentence)
    );
}

#[test]
fn stemming_normalizes_inflections() {
    assert_eq!("run", stem_query("runs").as_str());
    assert_eq!("run", stem_query("running").as_str());
    assert_eq!("run", stem_query("run").as_str());
}

#[test]
fn empty_keyword_stems_to_empty_term() {
    assert_eq!("", stem_query("").as_str());
}

#[test]
fn tokenizing_lowercases_before_stemming() {
    let terms = tokenize_and_stem("HE Ran");
    assert_eq!(vec!["he".to_string(), "ran".to_string()], terms);
}

#[test]
fn tokenizing_splits_on_word_boundaries() {
    let terms = tokenize_and_stem("a,b! c");
    assert_eq!(vec!["a".to_string(), "b".to_string(), "c".to_string()], terms);
}

#[test]
fn tokenizing_punctuation_only_yields_nothing() {
    let terms = tokenize_and_stem("... !!! ---");
    assert_eq!(0, terms.len());
}

#[test]
fn tally_counts_sum_to_nonempty_terms() {
    let words = vec!["a".to_string(), "b".to_string(), "a".to_string(), "".to_string()];
    let m = tally_words(words);
    assert_eq!(2, m.len());
    assert_eq!(2, m.get(&"a".to_string()));
    assert_eq!(1, m.get(&"b".to_string()));
    assert_eq!(0, m.get(&"".to_string()));
    assert_eq!(0, m.get(&"c".to_string()));
}
