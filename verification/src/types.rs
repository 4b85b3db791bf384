use vstd::prelude::*;

verus! {

/// The count that an association list of term counts assigns to key `k`:
/// the count of the first entry whose key is `k`, or zero when there is none.
pub open spec fn term_count(s: Seq<(Seq<char>, u32)>, k: Seq<char>) -> u32
    decreases s.len(),
{
    if s.len() == 0 {
        0u32
    } else if s[0].0 == k {
        s[0].1
    } else {
        term_count(s.drop_first(), k)
    }
}

/// Whether the association list holds an entry for key `k`.
pub open spec fn has_term(s: Seq<(Seq<char>, u32)>, k: Seq<char>) -> bool
    decreases s.len(),
{
    if s.len() == 0 {
        false
    } else {
        s[0].0 == k || has_term(s.drop_first(), k)
    }
}

/// The sum of all counts in the association list.
pub open spec fn counts_total(s: Seq<(Seq<char>, u32)>) -> nat
    decreases s.len(),
{
    if s.len() == 0 {
        0
    } else {
        (s[0].1 + counts_total(s.drop_first())) as nat
    }
}

/// Appending an entry changes the count of its key only when the key was
/// absent; every other key keeps its count.
pub proof fn lemma_term_count_push(s: Seq<(Seq<char>, u32)>, p: (Seq<char>, u32), k: Seq<char>)
    ensures
        term_count(s.push(p), k) == if has_term(s, k) {
            term_count(s, k)
        } else if p.0 == k {
            p.1
        } else {
            0u32
        },
        has_term(s.push(p), k) == (has_term(s, k) || p.0 == k),
    decreases s.len(),
{
    if s.len() == 0 {
        assert(s.push(p)[0] == p);
        assert(s.push(p).drop_first() =~= Seq::<(Seq<char>, u32)>::empty());
        assert(term_count(s.push(p).drop_first(), k) == 0);
        assert(!has_term(s.push(p).drop_first(), k));
        assert(!has_term(s, k));
        assert(term_count(s, k) == 0);
    } else {
        assert(s.push(p)[0] == s[0]);
        assert(s.push(p).drop_first() =~= s.drop_first().push(p));
        lemma_term_count_push(s.drop_first(), p, k);
        if s[0].0 == k {
            assert(term_count(s.push(p), k) == s[0].1);
            assert(term_count(s, k) == s[0].1);
            assert(has_term(s, k));
            assert(has_term(s.push(p), k));
        } else {
            assert(term_count(s.push(p), k) == term_count(s.drop_first().push(p), k));
            assert(term_count(s, k) == term_count(s.drop_first(), k));
            assert(has_term(s.push(p), k) == has_term(s.drop_first().push(p), k));
            assert(has_term(s, k) == has_term(s.drop_first(), k));
        }
    }
}

/// Appending an entry adds its count to the total.
pub proof fn lemma_counts_total_push(s: Seq<(Seq<char>, u32)>, p: (Seq<char>, u32))
    ensures
        counts_total(s.push(p)) == counts_total(s) + p.1,
    decreases s.len(),
{
    if s.len() == 0 {
        assert(s.push(p)[0] == p);
        assert(s.push(p).drop_first() =~= Seq::<(Seq<char>, u32)>::empty());
        assert(counts_total(s.push(p).drop_first()) == 0);
        assert(counts_total(s.push(p)) == p.1 + counts_total(s.push(p).drop_first()));
        assert(counts_total(s) == 0);
    } else {
        assert(s.push(p)[0] == s[0]);
        assert(s.push(p).drop_first() =~= s.drop_first().push(p));
        lemma_counts_total_push(s.drop_first(), p);
        assert(counts_total(s.push(p)) == s[0].1 + counts_total(s.push(p).drop_first()));
        assert(counts_total(s.push(p).drop_first()) == counts_total(s.drop_first().push(p)));
        assert(counts_total(s.drop_first().push(p)) == counts_total(s.drop_first()) + p.1);
        assert(counts_total(s) == s[0].1 + counts_total(s.drop_first()));
    }
}

/// Replacing the count of the first entry for a key changes that key's count
/// and no other, and leaves key membership as it was.
pub proof fn lemma_term_count_update(s: Seq<(Seq<char>, u32)>, i: int, c: u32, k: Seq<char>)
    requires
        0 <= i < s.len(),
        forall|j: int| 0 <= j < i ==> s[j].0 != s[i].0,
    ensures
        term_count(s.update(i, (s[i].0, c)), k) == if k == s[i].0 {
            c
        } else {
            term_count(s, k)
        },
        has_term(s.update(i, (s[i].0, c)), k) == has_term(s, k),
    decreases s.len(),
{
    let s2 = s.update(i, (s[i].0, c));
    if i == 0 {
        assert(s2[0] == (s[0].0, c));
        assert(s2.drop_first() =~= s.drop_first());
    } else {
        assert(s2[0] == s[0]);
        assert(s2.drop_first() =~= s.drop_first().update(i - 1, (s.drop_first()[i - 1].0, c)));
        lemma_term_count_update(s.drop_first(), i - 1, c, k);
    }
}

/// Replacing the count of an entry changes the total by the difference.
pub proof fn lemma_counts_total_update(s: Seq<(Seq<char>, u32)>, i: int, c: u32)
    requires
        0 <= i < s.len(),
    ensures
        counts_total(s.update(i, (s[i].0, c))) + s[i].1 == counts_total(s) + c,
    decreases s.len(),
{
    let s2 = s.update(i, (s[i].0, c));
    if i == 0 {
        assert(s2[0] == (s[0].0, c));
        assert(s2.drop_first() =~= s.drop_first());
    } else {
        assert(s2[0] == s[0]);
        assert(s2.drop_first() =~= s.drop_first().update(i - 1, (s.drop_first()[i - 1].0, c)));
        lemma_counts_total_update(s.drop_first(), i - 1, c);
    }
}

/// With positive counts, a key is present exactly when its count is positive.
pub proof fn lemma_has_term_iff_count_pos(s: Seq<(Seq<char>, u32)>, k: Seq<char>)
    requires
        forall|i: int| 0 <= i < s.len() ==> s[i].1 > 0,
    ensures
        has_term(s, k) <==> term_count(s, k) > 0,
    decreases s.len(),
{
    if s.len() > 0 {
        assert(forall|i: int| 0 <= i < s.drop_first().len() ==> s.drop_first()[i] == s[i + 1]);
        lemma_has_term_iff_count_pos(s.drop_first(), k);
    }
}

/// A key is present exactly when some entry carries it.
pub proof fn lemma_has_term_index(s: Seq<(Seq<char>, u32)>, k: Seq<char>)
    ensures
        has_term(s, k) <==> exists|i: int| 0 <= i < s.len() && s[i].0 == k,
    decreases s.len(),
{
    if s.len() > 0 {
        assert(forall|i: int| 0 <= i < s.drop_first().len() ==> s.drop_first()[i] == s[i + 1]);
        lemma_has_term_index(s.drop_first(), k);
        if has_term(s, k) {
            if s[0].0 == k {
                assert(0 <= 0 < s.len() && s[0].0 == k);
            } else {
                let i = choose|i: int| 0 <= i < s.drop_first().len() && s.drop_first()[i].0 == k;
                assert(s[i + 1].0 == k);
            }
        }
        if exists|i: int| 0 <= i < s.len() && s[i].0 == k {
            let i = choose|i: int| 0 <= i < s.len() && s[i].0 == k;
            if i > 0 {
                assert(s.drop_first()[i - 1].0 == k);
            }
        }
    }
}

/// A per-document term-frequency map: an association list from stemmed term
/// to occurrence count, with distinct non-empty keys and positive counts.
/// A term that is absent has count zero; a zero count is never stored.
#[derive(Debug)]
pub struct TermMap {
    pub entries: Vec<(String, u32)>,
}

impl TermMap {
    /// The entries with their keys viewed as character sequences.
    pub open spec fn entries_view(self) -> Seq<(Seq<char>, u32)> {
        self.entries@.map_values(|p: (String, u32)| (p.0@, p.1))
    }

    /// The stored count of term `k`, zero when absent.
    pub open spec fn spec_count(self, k: Seq<char>) -> u32 {
        term_count(self.entries_view(), k)
    }

    /// Whether term `k` has an entry.
    pub open spec fn contains_term(self, k: Seq<char>) -> bool {
        has_term(self.entries_view(), k)
    }

    /// The sum of all stored counts.
    pub open spec fn total(self) -> nat {
        counts_total(self.entries_view())
    }

    /// Keys are distinct and non-empty; counts are positive.
    pub open spec fn wf(self) -> bool {
        let s = self.entries_view();
        &&& forall|i: int, j: int| 0 <= i < j < s.len() ==> s[i].0 != s[j].0
        &&& forall|i: int| 0 <= i < s.len() ==> s[i].1 > 0
        &&& forall|i: int| 0 <= i < s.len() ==> s[i].0.len() > 0
    }

    pub fn new() -> (m: TermMap)
        ensures
            m.wf(),
            m.entries_view() == Seq::<(Seq<char>, u32)>::empty(),
            m.total() == 0,
    {
        let m = TermMap { entries: Vec::new() };
        proof {
            assert(m.entries_view() =~= Seq::<(Seq<char>, u32)>::empty());
        }
        m
    }

    /// The number of distinct terms.
    pub fn len(&self) -> (n: usize)
        ensures
            n == self.entries_view().len(),
    {
        self.entries.len()
    }

    /// The count stored for `term`, zero when `term` is absent.
    pub fn get(&self, term: &String) -> (count: u32)
        ensures
            count == self.spec_count(term@),
    {
        let ghost s = self.entries_view();
        proof {
            assert(s.skip(0) =~= s);
        }
        let mut i: usize = 0;
        while i < self.entries.len()
            invariant
                0 <= i <= s.len(),
                s == self.entries_view(),
                s.len() == self.entries@.len(),
                term_count(s, term@) == term_count(s.skip(i as int), term@),
            decreases s.len() - i,
        {
            let p = &self.entries[i];
            proof {
                assert(s.skip(i as int)[0] == s[i as int]);
            }
            if p.0 == *term {
                return p.1;
            }
            proof {
                assert(s.skip(i as int).drop_first() =~= s.skip(i as int + 1));
            }
            i += 1;
        }
        proof {
            assert(s.skip(i as int) =~= Seq::<(Seq<char>, u32)>::empty());
        }
        0
    }

    /// Whether `term` has an entry.
    pub fn contains(&self, term: &String) -> (present: bool)
        ensures
            present == self.contains_term(term@),
    {
        let ghost s = self.entries_view();
        proof {
            assert(s.skip(0) =~= s);
        }
        let mut i: usize = 0;
        while i < self.entries.len()
            invariant
                0 <= i <= s.len(),
                s == self.entries_view(),
                s.len() == self.entries@.len(),
                has_term(s, term@) == has_term(s.skip(i as int), term@),
            decreases s.len() - i,
        {
            let p = &self.entries[i];
            proof {
                assert(s.skip(i as int)[0] == s[i as int]);
            }
            if p.0 == *term {
                return true;
            }
            proof {
                assert(s.skip(i as int).drop_first() =~= s.skip(i as int + 1));
            }
            i += 1;
        }
        proof {
            assert(s.skip(i as int) =~= Seq::<(Seq<char>, u32)>::empty());
        }
        false
    }

    /// The index of the first entry for `term`, when there is one.
    fn find_index(&self, term: &String) -> (idx: Option<usize>)
        ensures
            match idx {
                Some(i) => {
                    &&& i < self.entries_view().len()
                    &&& self.entries_view()[i as int].0 == term@
                    &&& forall|j: int| 0 <= j < i ==> self.entries_view()[j].0 != term@
                },
                None => !self.contains_term(term@),
            },
    {
        let ghost s = self.entries_view();
        proof {
            assert(s.skip(0) =~= s);
        }
        let mut i: usize = 0;
        while i < self.entries.len()
            invariant
                0 <= i <= s.len(),
                s == self.entries_view(),
                s.len() == self.entries@.len(),
                has_term(s, term@) == has_term(s.skip(i as int), term@),
                forall|j: int| 0 <= j < i ==> s[j].0 != term@,
            decreases s.len() - i,
        {
            let p = &self.entries[i];
            proof {
                assert(s.skip(i as int)[0] == s[i as int]);
            }
            if p.0 == *term {
                return Some(i);
            }
            proof {
                assert(s.skip(i as int).drop_first() =~= s.skip(i as int + 1));
            }
            i += 1;
        }
        proof {
            assert(s.skip(i as int) =~= Seq::<(Seq<char>, u32)>::empty());
        }
        None
    }

    /// Add an entry for a term that has none yet.
    pub fn insert(&mut self, term: String, count: u32)
        requires
            old(self).wf(),
            term@.len() > 0,
            count > 0,
            !old(self).contains_term(term@),
        ensures
            final(self).wf(),
            forall|k: Seq<char>| final(self).spec_count(k) == if k == term@ {
                count
            } else {
                old(self).spec_count(k)
            },
            forall|k: Seq<char>| final(self).contains_term(k) == (old(self).contains_term(k)
                || k == term@),
            final(self).total() == old(self).total() + count,
    {
        let ghost s = self.entries_view();
        let ghost tv = term@;
        self.entries.push((term, count));
        proof {
            assert(self.entries_view() =~= s.push((tv, count)));
            assert forall|k: Seq<char>|
                final(self).spec_count(k) == (if k == tv {
                    count
                } else {
                    old(self).spec_count(k)
                }) && final(self).contains_term(k) == (old(self).contains_term(k) || k == tv)
            by {
                lemma_term_count_push(s, (tv, count), k);
                if !has_term(s, k) {
                    lemma_has_term_iff_count_pos(s, k);
                }
            }
            lemma_counts_total_push(s, (tv, count));
            lemma_has_term_index(s, tv);
        }
    }

    /// Raise the count of `term` by one, adding an entry when it has none.
    pub fn increment(&mut self, term: String)
        requires
            old(self).wf(),
            term@.len() > 0,
            old(self).spec_count(term@) < u32::MAX,
        ensures
            final(self).wf(),
            forall|k: Seq<char>| final(self).spec_count(k) as int == old(self).spec_count(k)
                + if k == term@ {
                1int
            } else {
                0int
            },
            final(self).total() == old(self).total() + 1,
    {
        let ghost s = self.entries_view();
        let ghost tv = term@;
        match self.find_index(&term) {
            Some(i) => {
                proof {
                    assert(term_count(s, tv) == term_count(s.skip(i as int), tv)
                        && s.skip(i as int)[0] == s[i as int]) by {
                        lemma_term_count_first_match(s, i as int, tv);
                    }
                }
                let c = self.entries[i].1;
                self.entries.set(i, (term, c + 1));
                proof {
                    assert(self.entries_view() =~= s.update(i as int, (tv, (c + 1) as u32)));
                    assert forall|k: Seq<char>|
                        final(self).spec_count(k) as int == old(self).spec_count(k) + (if k == tv {
                            1int
                        } else {
                            0int
                        })
                    by {
                        lemma_term_count_update(s, i as int, (c + 1) as u32, k);
                    }
                    lemma_counts_total_update(s, i as int, (c + 1) as u32);
                }
            },
            None => {
                proof {
                    lemma_has_term_iff_count_pos(s, tv);
                }
                self.insert(term, 1);
            },
        }
    }
}

/// The count of a key whose first entry stands at `i` is that entry's count.
proof fn lemma_term_count_first_match(s: Seq<(Seq<char>, u32)>, i: int, k: Seq<char>)
    requires
        0 <= i < s.len(),
        s[i].0 == k,
        forall|j: int| 0 <= j < i ==> s[j].0 != k,
    ensures
        term_count(s, k) == s[i].1,
    decreases i,
{
    if i == 0 {
    } else {
        assert(forall|j: int| 0 <= j < s.drop_first().len() ==> s.drop_first()[j] == s[j + 1]);
        lemma_term_count_first_match(s.drop_first(), i - 1, k);
    }
}

/// One successfully ingested document: its identifier, locator, title, and
/// term-frequency map. An empty `id` is the failure sentinel; such a record
/// never enters a corpus.
#[derive(Debug)]
pub struct Record {
    pub id: String,
    pub uri: String,
    pub title: String,
    pub stems: TermMap,
}

impl Record {
    pub open spec fn wf(self) -> bool {
        self.stems.wf()
    }

    /// The stand-in for a failed fetch attempt.
    pub open spec fn is_sentinel(self) -> bool {
        self.id@.len() == 0
    }
}

impl Default for Record {
    /// The failure sentinel: every field empty.
    fn default() -> (r: Record)
        ensures
            r.wf(),
            r.is_sentinel(),
            r.uri@.len() == 0,
            r.title@.len() == 0,
            r.stems.entries_view().len() == 0,
    {
        Record { id: String::new(), uri: String::new(), title: String::new(), stems: TermMap::new() }
    }
}

/// The fields of one page entry in a reply from the remote content source.
#[derive(Debug)]
pub struct Page {
    pub pageid: i32,
    pub title: String,
    pub fullurl: String,
    pub extract: String,
}

/// The page table of a reply: each page identifier paired with its page.
#[derive(Debug)]
pub struct Pages {
    pub pages: Vec<(String, Page)>,
}

/// The shape of one reply from the remote content source.
#[derive(Debug)]
pub struct WikiResponse {
    pub query: Pages,
}

impl Default for Pages {
    /// An empty page table.
    fn default() -> (r: Pages)
        ensures
            r.pages@.len() == 0,
    {
        Pages { pages: Vec::new() }
    }
}

impl Default for WikiResponse {
    /// A reply that holds no pages, as a failed decode yields.
    fn default() -> (r: WikiResponse)
        ensures
            r.query.pages@.len() == 0,
    {
        WikiResponse { query: Pages::default() }
    }
}

} // verus!
