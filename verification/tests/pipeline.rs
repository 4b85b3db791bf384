use wikisearch::ingest::IngestConfig;
use wikisearch::ingest::IngestPipeline;
use wikisearch::ingest::build_corpus;
use wikisearch::ingest::page_to_record;
use wikisearch::ingest::response_to_records;
use wikisearch::search::search;
use wikisearch::types::Page;
use wikisearch::types::Pages;
use wikisearch::types::Record;
use wikisearch::types::WikiResponse;

fn page(title: &str, url: &str, extract: &str) -> Page {
    Page {
        pageid: 1,
        title: title.to_string(),
        fullurl: url.to_string(),
        extract: extract.to_string(),
    }
}

#[test]
fn build_corpus_drops_simulated_failures() {
    let outcomes = vec![
        page_to_record("1".to_string(), page("one", "uri1", "alpha")),
        Record::default(),
        page_to_record("3".to_string(), page("three", "uri3", "beta")),
        Record::default(),
        page_to_record("5".to_string(), page("five", "uri5", "gamma")),
    ];
    let config = IngestConfig { target_count: 5, max_concurrency: 2 };
    let corpus = build_corpus(config, outcomes);
    assert_eq!(3, corpus.len());
    assert_eq!("1", corpus[0].id.as_str());
    assert_eq!("3", corpus[1].id.as_str());
    assert_eq!("5", corpus[2].id.as_str());
}

#[test]
fn corpus_never_exceeds_attempt_count() {
    let outcomes = vec![
        page_to_record("1".to_string(), page("one", "uri1", "alpha")),
        page_to_record("2".to_string(), page("two", "uri2", "beta")),
    ];
    let config = IngestConfig { target_count: 2, max_concurrency: 7 };
    let corpus = build_corpus(config, outcomes);
    assert!(corpus.len() <= 2);
    assert_eq!(2, corpus.len());
}

#[test]
fn pipeline_respects_admission_window() {
    let config = IngestConfig { target_count: 3, max_concurrency: 1 };
    let mut pipeline = IngestPipeline::new(config);
    assert!(pipeline.can_launch());
    pipeline.launch();
    assert!(!pipeline.can_launch());
    pipeline.complete(page_to_record("1".to_string(), page("one", "uri1", "alpha")));
    assert!(pipeline.can_launch());
    pipeline.launch();
    pipeline.complete(Record::default());
    pipeline.launch();
    assert!(!pipeline.is_complete());
    pipeline.complete(page_to_record("3".to_string(), page("three", "uri3", "beta")));
    assert!(pipeline.is_complete());
    assert!(!pipeline.can_launch());
    let corpus = pipeline.into_corpus();
    assert_eq!(2, corpus.len());
}

#[test]
fn malformed_page_yields_sentinel() {
    let no_extract = page_to_record("1".to_string(), page("one", "uri1", ""));
    assert_eq!("", no_extract.id.as_str());
    let no_url = page_to_record("2".to_string(), page("two", "", "text"));
    assert_eq!("", no_url.id.as_str());
    let no_title = page_to_record("3".to_string(), page("", "uri3", "text"));
    assert_eq!("", no_title.id.as_str());
    let no_id = page_to_record("".to_string(), page("four", "uri4", "text"));
    assert_eq!("", no_id.id.as_str());
}

#[test]
fn response_pages_become_records() {
    let resp = WikiResponse {
        query: Pages {
            pages: vec![
                ("77".to_string(), page("Alpha", "uri_alpha", "first body")),
                ("78".to_string(), page("Beta", "uri_beta", "second body")),
            ],
        },
    };
    let records = response_to_records(resp);
    assert_eq!(2, records.len());
    assert_eq!("77", records[0].id.as_str());
    assert_eq!("uri_alpha", records[0].uri.as_str());
    assert_eq!("Alpha", records[0].title.as_str());
    assert_eq!("78", records[1].id.as_str());
}

#[test]
fn search_empty_corpus_is_empty() {
    let corpus: Vec<Record> = Vec::new();
    assert_eq!(0, search(&corpus, "anything").len());
    assert_eq!(0, search(&corpus, "").len());
}

#[test]
fn search_empty_keyword_matches_nothing() {
    let corpus = vec![page_to_record("1".to_string(), page("one", "uri1", "some body"))];
    assert_eq!(0, search(&corpus, "").len());
    assert_eq!(0, search(&corpus, "   ").len());
}

#[test]
fn search_finds_stemmed_inflections() {
    let corpus = vec![page_to_record("1".to_string(), page("doc", "uri1", "he runs and runs"))];
    assert_eq!(2, corpus[0].stems.get(&"run".to_string()));
    let results = search(&corpus, "running");
    assert_eq!(vec![(2u32, "uri1".to_string())], results);
}

#[test]
fn search_ranks_two_documents_by_count() {
    let corpus = vec![
        page_to_record("1".to_string(), page("doc1", "uri_of_doc1", "alan alan alan")),
        page_to_record("2".to_string(), page("doc2", "uri_of_doc2", "alan turing")),
    ];
    let results = search(&corpus, "alan");
    assert_eq!(
        vec![(3u32, "uri_of_doc1".to_string()), (1u32, "uri_of_doc2".to_string())],
        results
    );
}

#[test]
fn search_misses_report_zero_results() {
    let corpus = vec![page_to_record("1".to_string(), page("doc", "uri1", "some body"))];
    assert_eq!(0, search(&corpus, "absent").len());
}

#[test]
fn title_terms_are_indexed_too() {
    let record = page_to_record("1".to_string(), page("Turing Machine", "uri1", "a device"));
    assert_eq!(1, record.stems.get(&"machin".to_string()));
    assert_eq!(1, record.stems.get(&"devic".to_string()));
}

#[test]
fn all_failed_attempts_leave_an_empty_corpus() {
    let outcomes = vec![Record::default(), Record::default(), Record::default()];
    let config = IngestConfig { target_count: 3, max_concurrency: 2 };
    let corpus = build_corpus(config, outcomes);
    assert_eq!(0, corpus.len());
    assert_eq!(0, search(&corpus, "anything").len());
}

#[test]
fn default_response_holds_no_pages() {
    let resp = WikiResponse::default();
    assert_eq!(0, response_to_records(resp).len());
}
