use vstd::prelude::*;

use crate::stemmers::tokenize_and_stem;
use crate::stemmers::tokenize_spec;
use crate::stemmers::views_of;
use crate::tally::occurrences;
use crate::tally::tally_words;
use crate::types::Page;
use crate::types::Record;
use crate::types::WikiResponse;

verus! {

/// A page entry is usable only when its title, locator and body text are all
/// non-empty; anything less is treated as malformed and dropped.
pub open spec fn page_valid(p: Page) -> bool {
    p.title@.len() > 0 && p.fullurl@.len() > 0 && p.extract@.len() > 0
}

/// The text a page is indexed on: its title and extract, joined by a space.
pub open spec fn page_text(p: Page) -> Seq<char> {
    p.title@ + seq![' '] + p.extract@
}

/// What a record built from one page entry holds: for a usable page under a
/// non-empty identifier, the page's own fields and the exact term counts of
/// its text; otherwise the failure sentinel. A text with more terms than a
/// u32 can count is beyond the counters and also yields the sentinel.
pub open spec fn record_matches_page(r: Record, id: Seq<char>, p: Page) -> bool {
    if id.len() > 0 && page_valid(p) && tokenize_spec(page_text(p)).len() <= u32::MAX {
        &&& r.id@ == id
        &&& r.uri@ == p.fullurl@
        &&& r.title@ == p.title@
        &&& forall|k: Seq<char>| k.len() > 0 ==> (#[trigger] r.stems.spec_count(k)) as nat
            == occurrences(tokenize_spec(page_text(p)), k)
        &&& forall|k: Seq<char>| k.len() == 0 ==> r.stems.spec_count(k) == 0
    } else {
        r.is_sentinel()
    }
}

/// Turn one decoded page entry into a document record: index the page's
/// title and extract, or yield the failure sentinel for a malformed entry.
pub fn page_to_record(id: String, page: Page) -> (r: Record)
    ensures
        r.wf(),
        record_matches_page(r, id@, page),
{
    if id.as_str().is_empty() || page.title.as_str().is_empty() || page.fullurl.as_str().is_empty()
        || page.extract.as_str().is_empty() {
        return Record::default();
    }
    let mut text = page.title.clone();
    text.append(" ");
    text.append(page.extract.as_str());
    proof {
        reveal_strlit(" ");
        assert(text@ == page_text(page));
    }
    let terms = tokenize_and_stem(text.as_str());
    if terms.len() > u32::MAX as usize {
        return Record::default();
    }
    let stems = tally_words(terms);
    Record { id, uri: page.fullurl, title: page.title, stems }
}

/// Decode one reply's page table into records, one per page entry, in table
/// order.
pub fn response_to_records(resp: WikiResponse) -> (rs: Vec<Record>)
    ensures
        rs@.len() == resp.query.pages@.len(),
        forall|i: int| 0 <= i < rs@.len() ==> (#[trigger] rs@[i]).wf() && record_matches_page(
            rs@[i],
            resp.query.pages@[i].0@,
            resp.query.pages@[i].1,
        ),
{
    let mut pages = resp.query.pages;
    let ghost orig = pages@;
    let mut rs: Vec<Record> = Vec::new();
    proof {
        assert(orig.skip(0) =~= orig);
    }
    while pages.len() > 0
        invariant
            rs@.len() + pages@.len() == orig.len(),
            pages@ == orig.skip(rs@.len() as int),
            forall|i: int| 0 <= i < rs@.len() ==> (#[trigger] rs@[i]).wf() && record_matches_page(
                rs@[i],
                orig[i].0@,
                orig[i].1,
            ),
        decreases pages@.len(),
    {
        let ghost n = rs@.len() as int;
        proof {
            assert(pages@[0] == orig[n]);
            assert(pages@.remove(0) =~= orig.skip(n + 1));
        }
        let entry = pages.remove(0);
        let r = page_to_record(entry.0, entry.1);
        rs.push(r);
    }
    rs
}

/// Configuration of one ingest run: how many fetch attempts to make and how
/// many may be in flight at once. Both are positive.
pub struct IngestConfig {
    pub target_count: usize,
    pub max_concurrency: usize,
}

impl IngestConfig {
    pub open spec fn wf(self) -> bool {
        self.target_count >= 1 && self.max_concurrency >= 1
    }
}

/// The state of one ingest run. Attempts are admitted while the bounded
/// window has room, each completion frees a slot and may admit the next
/// queued attempt, and completed attempts that produced a real record are
/// collected. The run's join is reached when every attempt has resolved.
pub struct IngestPipeline {
    pub config: IngestConfig,
    pub launched: usize,
    pub completed: usize,
    pub records: Vec<Record>,
}

impl IngestPipeline {
    /// How many admitted attempts have not resolved yet.
    pub open spec fn in_flight(self) -> int {
        self.launched - self.completed
    }

    /// The run's invariant: counters consistent with the target, the
    /// admission window never over-full, and only well-formed non-sentinel
    /// records kept, never more than the attempts completed.
    pub open spec fn wf(self) -> bool {
        &&& self.config.wf()
        &&& self.completed <= self.launched <= self.config.target_count
        &&& self.in_flight() <= self.config.max_concurrency
        &&& self.records@.len() <= self.completed
        &&& forall|i: int| 0 <= i < self.records@.len() ==> (#[trigger] self.records@[i]).wf()
            && !self.records@[i].is_sentinel()
    }

    pub fn new(config: IngestConfig) -> (p: IngestPipeline)
        requires
            config.target_count >= 1,
            config.max_concurrency >= 1,
        ensures
            p.wf(),
            p.config == config,
            p.launched == 0,
            p.completed == 0,
            p.records@ == Seq::<Record>::empty(),
    {
        let p = IngestPipeline { config, launched: 0, completed: 0, records: Vec::new() };
        proof {
            assert(p.records@ =~= Seq::<Record>::empty());
        }
        p
    }

    /// Whether the admission window has room for one more attempt.
    pub fn can_launch(&self) -> (b: bool)
        requires
            self.wf(),
        ensures
            b == (self.launched < self.config.target_count && self.in_flight()
                < self.config.max_concurrency),
    {
        self.launched < self.config.target_count && self.launched - self.completed
            < self.config.max_concurrency
    }

    /// Admit one more attempt into the window.
    pub fn launch(&mut self)
        requires
            old(self).wf(),
            old(self).launched < old(self).config.target_count,
            old(self).in_flight() < old(self).config.max_concurrency,
        ensures
            final(self).wf(),
            final(self).config == old(self).config,
            final(self).launched == old(self).launched + 1,
            final(self).completed == old(self).completed,
            final(self).records == old(self).records,
    {
        self.launched = self.launched + 1;
    }

    /// Resolve one in-flight attempt: keep its record unless it is the
    /// failure sentinel, and free its window slot. A sentinel is dropped
    /// silently; it is never an error.
    pub fn complete(&mut self, outcome: Record)
        requires
            old(self).wf(),
            old(self).completed < old(self).launched,
            outcome.wf(),
        ensures
            final(self).wf(),
            final(self).config == old(self).config,
            final(self).launched == old(self).launched,
            final(self).completed == old(self).completed + 1,
            final(self).records@ == if outcome.is_sentinel() {
                old(self).records@
            } else {
                old(self).records@.push(outcome)
            },
    {
        if !outcome.id.as_str().is_empty() {
            self.records.push(outcome);
        }
        self.completed = self.completed + 1;
    }

    /// Whether every attempt has resolved.
    pub fn is_complete(&self) -> (b: bool)
        ensures
            b == (self.completed == self.config.target_count),
    {
        self.completed == self.config.target_count
    }

    /// The corpus of a finished run: its surviving records. There are never
    /// more than the attempts made.
    pub fn into_corpus(self) -> (corpus: Vec<Record>)
        requires
            self.wf(),
            self.completed == self.config.target_count,
        ensures
            corpus@ == self.records@,
            corpus@.len() <= self.config.target_count,
            forall|i: int| 0 <= i < corpus@.len() ==> (#[trigger] corpus@[i]).wf()
                && !corpus@[i].is_sentinel(),
    {
        self.records
    }
}

/// Build the corpus from the outcomes of one batch of fetch attempts: drive
/// a pipeline through one launch and one completion per attempt and keep
/// every non-sentinel record, in outcome order. Failed attempts only shrink
/// the corpus, which never exceeds the attempt count; they are never an
/// error.
pub fn build_corpus(config: IngestConfig, outcomes: Vec<Record>) -> (corpus: Vec<Record>)
    requires
        config.target_count >= 1,
        config.max_concurrency >= 1,
        outcomes@.len() == config.target_count,
        forall|i: int| 0 <= i < outcomes@.len() ==> (#[trigger] outcomes@[i]).wf(),
    ensures
        corpus@ == outcomes@.filter(|r: Record| !r.is_sentinel()),
        corpus@.len() <= config.target_count,
        forall|i: int| 0 <= i < corpus@.len() ==> (#[trigger] corpus@[i]).wf()
            && !corpus@[i].is_sentinel(),
{
    let mut pipeline = IngestPipeline::new(config);
    let mut remaining = outcomes;
    let ghost orig = remaining@;
    proof {
        reveal(Seq::filter);
        assert(orig.skip(0) =~= orig);
        assert(orig.take(0) =~= Seq::<Record>::empty());
        assert(orig.take(0).filter(|r: Record| !r.is_sentinel()) =~= Seq::<Record>::empty());
    }
    while remaining.len() > 0
        invariant
            pipeline.wf(),
            pipeline.config == config,
            pipeline.launched == pipeline.completed,
            pipeline.completed + remaining@.len() == orig.len(),
            orig.len() == config.target_count,
            remaining@ == orig.skip(pipeline.completed as int),
            pipeline.records@ == orig.take(pipeline.completed as int).filter(
                |r: Record| !r.is_sentinel(),
            ),
            forall|i: int| 0 <= i < orig.len() ==> (#[trigger] orig[i]).wf(),
        decreases remaining@.len(),
    {
        let ghost n = pipeline.completed as int;
        let ghost prefix = orig.take(n);
        proof {
            assert(remaining@[0] == orig[n]);
            assert(remaining@.remove(0) =~= orig.skip(n + 1));
            assert(orig.take(n + 1).drop_last() =~= prefix);
            assert(orig.take(n + 1).last() == orig[n]);
        }
        pipeline.launch();
        let outcome = remaining.remove(0);
        pipeline.complete(outcome);
        proof {
            reveal(Seq::filter);
            let pred = |r: Record| !r.is_sentinel();
            if pred(orig[n]) {
                assert(orig.take(n + 1).filter(pred) =~= prefix.filter(pred).push(orig[n]));
            } else {
                assert(orig.take(n + 1).filter(pred) =~= prefix.filter(pred));
            }
        }
    }
    proof {
        assert(orig.take(orig.len() as int) =~= orig);
    }
    pipeline.into_corpus()
}

} // verus!
