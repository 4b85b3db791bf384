use wikisearch::rankers::Ranker;
use wikisearch::rankers::WordCountRanker;
use wikisearch::types::Record;
use wikisearch::types::TermMap;

fn record_with(id: &str, uri: &str, term: &str, count: u32) -> Record {
    let mut stems = TermMap::new();
    if count > 0 {
        stems.insert(term.to_string(), count);
    }
    Record { id: id.to_string(), uri: uri.to_string(), title: id.to_string(), stems }
}

#[test]
fn test_word_ranker_basic() {
    let ranker = WordCountRanker;
    let mut stems = TermMap::new();
    stems.insert("the".to_string(), 2);
    let record = Record {
        id: "test".into(),
        uri: "test".into(),
        title: "test".into(),
        stems,
    };
    let results = ranker.rank(vec![&record], "".into());
    assert!(results.is_ok());
    let results = results.unwrap();
    assert_eq!(1, results.len());
    assert_eq!(results.get(0).unwrap(), &(0, "test".into()));
}

#[test]
fn test_word_ranker_empty() {
    let results = WordCountRanker.rank(vec![], "".into());
    assert!(results.is_ok());
    let results = results.unwrap();
    assert_eq!(0, results.len());
}

#[test]
fn ranking_orders_by_descending_count() {
    let a = record_with("1", "uri_a", "term", 1);
    let b = record_with("2", "uri_b", "term", 3);
    let c = record_with("3", "uri_c", "term", 2);
    let results = WordCountRanker.rank(vec![&a, &b, &c], "term".to_string()).unwrap();
    let expected = vec![
        (3u32, "uri_b".to_string()),
        (2u32, "uri_c".to_string()),
        (1u32, "uri_a".to_string()),
    ];
    assert_eq!(expected, results);
}

#[test]
fn ranking_twice_gives_identical_output() {
    let a = record_with("1", "uri_a", "term", 2);
    let b = record_with("2", "uri_b", "term", 5);
    let c = record_with("3", "uri_c", "term", 5);
    let first = WordCountRanker.rank(vec![&a, &b, &c], "term".to_string()).unwrap();
    let second = WordCountRanker.rank(vec![&a, &b, &c], "term".to_string()).unwrap();
    assert_eq!(first, second);
    for w in first.windows(2) {
        assert!(w[0].0 >= w[1].0);
    }
}

#[test]
fn ranking_keeps_input_order_on_ties() {
    let a = record_with("1", "uri_a", "term", 2);
    let b = record_with("2", "uri_b", "term", 2);
    let results = WordCountRanker.rank(vec![&a, &b], "term".to_string()).unwrap();
    let expected = vec![(2u32, "uri_a".to_string()), (2u32, "uri_b".to_string())];
    assert_eq!(expected, results);
}

#[test]
fn ranking_tolerates_absent_term() {
    let a = record_with("1", "uri_a", "other", 4);
    let b = record_with("2", "uri_b", "term", 1);
    let results = WordCountRanker.rank(vec![&a, &b], "term".to_string()).unwrap();
    let expected = vec![(1u32, "uri_b".to_string()), (0u32, "uri_a".to_string())];
    assert_eq!(expected, results);
}
