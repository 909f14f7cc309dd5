//! Text analysis: reading, splitting, tokenizing and counting terms.
pub mod bigram;
pub mod chunkreader;
pub mod codeblock_filter;
pub mod doc_counter;
pub mod embeddings;
pub mod sentence_chunker;
pub mod sentence_splitter;
pub mod term_counter;
pub mod text_extractor;
pub mod tokenizer;
pub mod utils;
pub mod whole_text;

use vstd::prelude::*;

use crate::storage::error::StorageError;
use crate::storage::sqlite_version::FileInSQL;
use crate::text::{chars_eq, chars_of};
use crate::tfidf::chunkreader::{bytes_read, chunks_match, raw_chunks, read_all, reads_view};
use crate::tfidf::whole_text::{all_reads_ok, law_tokens_of_whole_text, ok_tokens};
use vstd::utf8::{decode_utf8, valid_utf8};
use crate::tfidf::doc_counter::{bumped, DocumentCounter};
use crate::tfidf::term_counter::{counted, first_error, items_view, ok_values, TermCounter, TermCounts};
use crate::tfidf::tokenizer::{chunk_tokens, strs, tokens_of_items, Tokenizer};

verus! {

/// The term counts of each document, as a list of (document id, counts) entries: a
/// later entry for an id replaces an earlier one.
pub open spec fn docs_map(es: Seq<(String, TermCounts)>) -> Map<Seq<char>, Map<Seq<char>, nat>>
    decreases es.len(),
{
    if es.len() == 0 {
        Map::empty()
    } else {
        docs_map(es.drop_last()).insert(es.last().0@, es.last().1@)
    }
}

/// No two entries have the same document id.
pub open spec fn distinct_docs(es: Seq<(String, TermCounts)>) -> bool {
    forall|i: int, j: int| 0 <= i < j < es.len() ==> (#[trigger] es[i]).0@ != (#[trigger] es[j]).0@
}

proof fn lemma_docs_map_keys(es: Seq<(String, TermCounts)>, d: Seq<char>)
    ensures
        docs_map(es).contains_key(d) <==> exists|i: int| 0 <= i < es.len() && (#[trigger] es[i]).0@ == d,
    decreases es.len(),
{
    if es.len() > 0 {
        lemma_docs_map_keys(es.drop_last(), d);
        if exists|i: int| 0 <= i < es.drop_last().len() && (#[trigger] es.drop_last()[i]).0@ == d {
            let i = choose|i: int| 0 <= i < es.drop_last().len() && (#[trigger] es.drop_last()[i]).0@ == d;
            assert(es[i].0@ == d);
        }
        if exists|i: int| 0 <= i < es.len() && (#[trigger] es[i]).0@ == d {
            let i = choose|i: int| 0 <= i < es.len() && (#[trigger] es[i]).0@ == d;
            if i < es.len() - 1 {
                assert(es.drop_last()[i].0@ == d);
            }
        }
    }
}

proof fn lemma_distinct_docs_drop_last(es: Seq<(String, TermCounts)>)
    requires
        distinct_docs(es),
        es.len() > 0,
    ensures
        distinct_docs(es.drop_last()),
{
    assert forall|i: int, j: int| 0 <= i < j < es.drop_last().len() implies
        (#[trigger] es.drop_last()[i]).0@ != (#[trigger] es.drop_last()[j]).0@ by {
        assert(es[i] == es.drop_last()[i]);
        assert(es[j] == es.drop_last()[j]);
    }
}

proof fn lemma_docs_map_value(es: Seq<(String, TermCounts)>, k: int)
    requires
        distinct_docs(es),
        0 <= k < es.len(),
    ensures
        docs_map(es).contains_key(es[k].0@),
        docs_map(es)[es[k].0@] == es[k].1@,
    decreases es.len(),
{
    if k < es.len() - 1 {
        lemma_distinct_docs_drop_last(es);
        lemma_docs_map_value(es.drop_last(), k);
        assert(es[k] == es.drop_last()[k]);
        assert(es[k].0@ != es[es.len() - 1].0@);
    }
}

proof fn lemma_docs_map_update(es: Seq<(String, TermCounts)>, k: int, e: (String, TermCounts))
    requires
        distinct_docs(es),
        0 <= k < es.len(),
        e.0@ == es[k].0@,
    ensures
        docs_map(es.update(k, e)) == docs_map(es).insert(es[k].0@, e.1@),
    decreases es.len(),
{
    let es2 = es.update(k, e);
    if k == es.len() - 1 {
        assert(es2.drop_last() =~= es.drop_last());
        assert(docs_map(es2) =~= docs_map(es).insert(es[k].0@, e.1@));
    } else {
        lemma_distinct_docs_drop_last(es);
        lemma_docs_map_update(es.drop_last(), k, e);
        assert(es2.drop_last() =~= es.drop_last().update(k, e));
        assert(es[k].0@ != es.last().0@);
        assert(docs_map(es2) =~= docs_map(es).insert(es[k].0@, e.1@));
    }
}

/// Term frequencies per document and document frequencies per term, over a corpus.
pub struct TFIDFCorpus {
    term_freq: Vec<(String, TermCounts)>,
    doc_freq: TermCounts,
    total_docs: usize,
}

impl TFIDFCorpus {
    /// The term counts of each document.
    pub closed spec fn term_freq(&self) -> Map<Seq<char>, Map<Seq<char>, nat>> {
        docs_map(self.term_freq@)
    }

    /// The number of documents each term occurs in.
    pub closed spec fn doc_freq(&self) -> Map<Seq<char>, nat> {
        self.doc_freq@
    }

    /// The number of documents added.
    pub closed spec fn total(&self) -> nat {
        self.total_docs as nat
    }

    /// The representation is consistent, and no term occurs in more documents than
    /// were added.
    pub closed spec fn wf(&self) -> bool {
        &&& distinct_docs(self.term_freq@)
        &&& forall|i: int| 0 <= i < self.term_freq@.len() ==> (#[trigger] self.term_freq@[i]).1.wf()
        &&& self.doc_freq.wf()
        &&& forall|t: Seq<char>| #[trigger] self.doc_freq@.contains_key(t) ==> self.doc_freq@[t] <= self.total_docs
    }

    /// An empty corpus.
    pub fn new() -> (c: Self)
        ensures
            c.wf(),
            c.term_freq() == Map::<Seq<char>, Map<Seq<char>, nat>>::empty(),
            c.doc_freq() == Map::<Seq<char>, nat>::empty(),
            c.total() == 0,
            forall|t: Seq<char>| #[trigger] c.doc_freq().contains_key(t) ==> c.doc_freq()[t] <= c.total(),
    {
        TFIDFCorpus { term_freq: Vec::new(), doc_freq: TermCounts::new(), total_docs: 0 }
    }

    /// The term counts of a file, given as the outcomes of its successive reads. When
    /// no read fails and the bytes read are valid UTF-8, they are the counts of the
    /// tokens of the whole text, whatever the size of the blocks read.
    pub fn compute_tf(reads: Vec<Result<Vec<u8>, StorageError>>) -> (r: Result<TermCounts, StorageError>)
        ensures
            exists|chunks: Seq<Result<String, StorageError>>|
                chunks_match(chunks, raw_chunks(Seq::empty(), reads_view(reads@)))
                && #[trigger] counted(r, tokens_of_items(items_view(chunks))),
            all_reads_ok(reads_view(reads@)) && valid_utf8(bytes_read(reads_view(reads@))) ==> counted(
                r,
                ok_tokens(chunk_tokens(decode_utf8(bytes_read(reads_view(reads@))))),
            ),
    {
        let ghost rv = reads_view(reads@);
        let r = TermCounter::count_from_file(reads);
        proof {
            if all_reads_ok(rv) && valid_utf8(bytes_read(rv)) {
                let chunks = choose|chunks: Seq<Result<String, StorageError>>|
                    chunks_match(chunks, raw_chunks(Seq::empty(), rv)) && #[trigger] counted(
                        r,
                        tokens_of_items(items_view(chunks)),
                    );
                law_tokens_of_whole_text(rv, chunks);
            }
        }
        r
    }

    /// Adds the document `file`, given as the outcomes of the successive reads of its
    /// content: its term counts are recorded under its id (replacing earlier ones),
    /// each of its distinct terms is counted in one more document, and the number of
    /// documents grows by one. A failed read or chunk fails it and changes nothing.
    pub fn add_document(&mut self, file: &FileInSQL, reads: Vec<Result<Vec<u8>, StorageError>>) -> (r: Result<(), StorageError>)
        requires
            old(self).wf(),
            old(self).total() < usize::MAX,
        ensures
            final(self).wf(),
            forall|t: Seq<char>| #[trigger] final(self).doc_freq().contains_key(t) ==> final(self).doc_freq()[t]
                <= final(self).total(),
            exists|chunks: Seq<Result<String, StorageError>>|
                chunks_match(chunks, raw_chunks(Seq::empty(), reads_view(reads@)))
                && #[trigger] document_added(*old(self), *final(self), file.id@, tokens_of_items(items_view(chunks)), r),
    {
        let chunks = read_all(reads);
        let ghost cs = chunks@;
        let ghost toks = tokens_of_items(items_view(cs));
        let mut t = Tokenizer::new(chunks);
        let tokens = drain(&mut t);
        let copy = copy_tokens(&tokens);
        let tf = match TermCounter::count(tokens) {
            Ok(c) => c,
            Err(e) => {
                assert(document_added(*old(self), *self, file.id@, toks, Err(e)));
                return Err(e);
            },
        };
        let unique = match DocumentCounter::unique_terms(copy) {
            Ok(u) => u,
            Err(e) => {
                assert(false);
                return Err(e);
            },
        };
        let ghost terms = ok_values(toks);
        proof {
            assert forall|t: Seq<char>| strs(unique@).contains(t) && #[trigger] self.doc_freq@.contains_key(t)
                implies self.doc_freq@[t] < usize::MAX by {}
        }
        DocumentCounter::accumulate(&mut self.doc_freq, unique);
        self.set_document(file.id.as_str(), tf);
        self.total_docs = self.total_docs + 1;
        proof {
            assert forall|t: Seq<char>| #[trigger] self.doc_freq@.contains_key(t) implies self.doc_freq@[t]
                <= self.total_docs by {}
            assert(document_added(*old(self), *self, file.id@, toks, Ok(())));
        }
        Ok(())
    }

    /// Records `tf` as the term counts of document `id`, replacing earlier ones.
    fn set_document(&mut self, id: &str, tf: TermCounts)
        requires
            distinct_docs(old(self).term_freq@),
            forall|i: int| 0 <= i < old(self).term_freq@.len() ==> (#[trigger] old(self).term_freq@[i]).1.wf(),
            tf.wf(),
        ensures
            final(self).term_freq() == old(self).term_freq().insert(id@, tf@),
            final(self).doc_freq == old(self).doc_freq,
            final(self).total_docs == old(self).total_docs,
            distinct_docs(final(self).term_freq@),
            forall|i: int| 0 <= i < final(self).term_freq@.len() ==> (#[trigger] final(self).term_freq@[i]).1.wf(),
    {
        let key = chars_of(id);
        let mut i: usize = 0;
        while i < self.term_freq.len()
            invariant
                i <= self.term_freq.len(),
                key@ == id@,
                *self == *old(self),
                tf.wf(),
                distinct_docs(self.term_freq@),
                forall|k: int| 0 <= k < self.term_freq@.len() ==> (#[trigger] self.term_freq@[k]).1.wf(),
                forall|m: int| 0 <= m < i ==> (#[trigger] self.term_freq@[m]).0@ != id@,
            decreases self.term_freq.len() - i,
        {
            if chars_eq(&chars_of(self.term_freq[i].0.as_str()), &key) {
                let ghost es = self.term_freq@;
                let name = self.term_freq[i].0.clone();
                let entry = (name, tf);
                proof {
                    lemma_docs_map_update(es, i as int, entry);
                }
                self.term_freq.set(i, entry);
                assert(self.term_freq@ =~= es.update(i as int, entry));
                assert(distinct_docs(self.term_freq@)) by {
                    assert forall|a: int, b: int| 0 <= a < b < self.term_freq@.len() implies
                        (#[trigger] self.term_freq@[a]).0@ != (#[trigger] self.term_freq@[b]).0@ by {
                        assert(es[a].0@ != es[b].0@);
                    }
                }
                return;
            }
            i = i + 1;
        }
        let ghost es = self.term_freq@;
        self.term_freq.push((crate::text::string_from_chars(&key), tf));
        proof {
            assert(self.term_freq@.drop_last() =~= es);
            assert(distinct_docs(self.term_freq@)) by {
                assert forall|a: int, b: int| 0 <= a < b < self.term_freq@.len() implies
                    (#[trigger] self.term_freq@[a]).0@ != (#[trigger] self.term_freq@[b]).0@ by {
                    if b == self.term_freq@.len() - 1 {
                        assert(es[a].0@ != id@);
                    } else {
                        assert(es[a].0@ != es[b].0@);
                    }
                }
            }
        }
    }

    /// How many times `term` occurs in document `doc_id`; 0 when the document or the
    /// term is unknown.
    pub fn term_count(&self, doc_id: &str, term: &str) -> (n: usize)
        requires
            self.wf(),
        ensures
            n == if self.term_freq().contains_key(doc_id@) && self.term_freq()[doc_id@].contains_key(term@) {
                self.term_freq()[doc_id@][term@]
            } else {
                0
            },
    {
        let key = chars_of(doc_id);
        let mut i: usize = 0;
        while i < self.term_freq.len()
            invariant
                i <= self.term_freq.len(),
                key@ == doc_id@,
                self.wf(),
                forall|m: int| 0 <= m < i ==> (#[trigger] self.term_freq@[m]).0@ != doc_id@,
            decreases self.term_freq.len() - i,
        {
            if chars_eq(&chars_of(self.term_freq[i].0.as_str()), &key) {
                proof {
                    lemma_docs_map_value(self.term_freq@, i as int);
                }
                assert(self.term_freq@[i as int].1.wf());
                return self.term_freq[i].1.get(term);
            }
            i = i + 1;
        }
        proof {
            lemma_docs_map_keys(self.term_freq@, doc_id@);
        }
        0
    }

    /// The terms of document `doc_id`, each with its count, or `None` when the document
    /// is unknown.
    pub fn document_entries(&self, doc_id: &str) -> (r: Option<Vec<(String, usize)>>)
        requires
            self.wf(),
        ensures
            self.term_freq().contains_key(doc_id@) ==> (r matches Some(v) && crate::tfidf::term_counter::entries_map(v@)
                == self.term_freq()[doc_id@] && crate::tfidf::term_counter::distinct_keys(v@)),
            !self.term_freq().contains_key(doc_id@) ==> r is None,
    {
        let key = chars_of(doc_id);
        let mut i: usize = 0;
        while i < self.term_freq.len()
            invariant
                i <= self.term_freq.len(),
                key@ == doc_id@,
                self.wf(),
                forall|m: int| 0 <= m < i ==> (#[trigger] self.term_freq@[m]).0@ != doc_id@,
            decreases self.term_freq.len() - i,
        {
            if chars_eq(&chars_of(self.term_freq[i].0.as_str()), &key) {
                proof {
                    lemma_docs_map_value(self.term_freq@, i as int);
                }
                assert(self.term_freq@[i as int].1.wf());
                return Some(self.term_freq[i].1.entries());
            }
            i = i + 1;
        }
        proof {
            lemma_docs_map_keys(self.term_freq@, doc_id@);
        }
        None
    }

    /// In how many documents `term` occurs.
    pub fn document_count(&self, term: &str) -> (n: usize)
        requires
            self.wf(),
        ensures
            n == if self.doc_freq().contains_key(term@) { self.doc_freq()[term@] } else { 0 },
    {
        self.doc_freq.get(term)
    }

    /// The number of documents added.
    pub fn total_docs(&self) -> (n: usize)
        ensures
            n == self.total(),
    {
        self.total_docs
    }
}

/// `r` and `after` are what adding document `id`, whose token stream is `toks`, to
/// `before` gives: a failure in the stream fails the addition and changes nothing;
/// otherwise the document's term counts are recorded under its id, each of its
/// distinct terms is counted in one more document, and one more document is counted.
pub open spec fn document_added(
    before: TFIDFCorpus,
    after: TFIDFCorpus,
    id: Seq<char>,
    toks: Seq<Result<Seq<char>, StorageError>>,
    r: Result<(), StorageError>,
) -> bool {
    match first_error(toks) {
        Some(k) => r is Err && toks[k] == Err::<Seq<char>, StorageError>(r->Err_0) && after.term_freq()
            == before.term_freq() && after.doc_freq() == before.doc_freq() && after.total() == before.total(),
        None => {
            &&& r is Ok
            &&& after.term_freq() == before.term_freq().insert(id, crate::tfidf::term_counter::counts_map(ok_values(toks)))
            &&& after.doc_freq() == bumped(before.doc_freq(), ok_values(toks).to_set())
            &&& after.total() == before.total() + 1
        },
    }
}

/// Every item a tokenizer has still to yield, in order.
fn drain(t: &mut Tokenizer) -> (v: Vec<Result<String, StorageError>>)
    requires
        old(t).wf(),
    ensures
        items_view(v@) == old(t).remaining(),
{
    let mut v: Vec<Result<String, StorageError>> = Vec::new();
    loop
        invariant
            t.wf(),
            items_view(v@) + t.remaining() == old(t).remaining(),
        decreases t.remaining().len(),
    {
        let ghost before = t.remaining();
        let ghost vb = v@;
        match t.next() {
            Some(x) => {
                v.push(x);
                assert(items_view(v@) =~= items_view(vb).push(crate::tfidf::term_counter::item_view(x)));
                assert(before =~= seq![before[0]] + before.drop_first());
                assert(items_view(v@) + t.remaining() =~= items_view(vb) + before);
            },
            None => {
                assert(items_view(v@) + t.remaining() =~= items_view(v@));
                return v;
            },
        }
    }
}

/// A copy of a token stream.
fn copy_tokens(v: &Vec<Result<String, StorageError>>) -> (r: Vec<Result<String, StorageError>>)
    ensures
        items_view(r@) == items_view(v@),
{
    let mut r: Vec<Result<String, StorageError>> = Vec::new();
    let mut i: usize = 0;
    while i < v.len()
        invariant
            i <= v.len(),
            items_view(r@) == items_view(v@).take(i as int),
        decreases v.len() - i,
    {
        let x = match &v[i] {
            Ok(t) => Ok(t.clone()),
            Err(e) => Err(e.duplicate()),
        };
        let ghost before = r@;
        r.push(x);
        assert(items_view(r@) =~= items_view(before).push(items_view(v@)[i as int]));
        i = i + 1;
        assert(items_view(v@).take(i as int) =~= items_view(v@).take(i - 1).push(items_view(v@)[i - 1]));
    }
    assert(items_view(v@).take(v.len() as int) =~= items_view(v@));
    r
}

} // verus!
