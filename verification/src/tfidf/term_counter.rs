//! Counting how often each term occurs.
use vstd::prelude::*;

use crate::storage::error::StorageError;
use crate::text::{chars_eq, chars_of, string_from_chars};
use crate::tfidf::bigram::{bigram_items, BigramIterator};
use crate::tfidf::chunkreader::{chunks_match, raw_chunks, read_all, reads_view};
use crate::tfidf::tokenizer::{strs, tokens_of_items, Tokenizer};

verus! {

/// How many times each term occurs: one entry per distinct term, in the order the
/// terms were first seen.
pub struct TermCounts {
    entries: Vec<(String, usize)>,
}

/// The map that a list of (term, count) entries describes; a later entry for a term
/// replaces an earlier one.
pub open spec fn entries_map(es: Seq<(String, usize)>) -> Map<Seq<char>, nat>
    decreases es.len(),
{
    if es.len() == 0 {
        Map::empty()
    } else {
        entries_map(es.drop_last()).insert(es.last().0@, es.last().1 as nat)
    }
}

/// No two entries have the same term.
pub open spec fn distinct_keys(es: Seq<(String, usize)>) -> bool {
    forall|i: int, j: int| 0 <= i < j < es.len() ==> (#[trigger] es[i]).0@ != (#[trigger] es[j]).0@
}

/// The number of times each term of `ts` occurs in it.
pub open spec fn counts_map(ts: Seq<Seq<char>>) -> Map<Seq<char>, nat>
    decreases ts.len(),
{
    if ts.len() == 0 {
        Map::empty()
    } else {
        let m = counts_map(ts.drop_last());
        let t = ts.last();
        m.insert(t, if m.contains_key(t) { m[t] + 1 } else { 1 })
    }
}

proof fn lemma_entries_map_keys(es: Seq<(String, usize)>, t: Seq<char>)
    ensures
        entries_map(es).contains_key(t) <==> exists|i: int| 0 <= i < es.len() && (#[trigger] es[i]).0@ == t,
    decreases es.len(),
{
    if es.len() > 0 {
        lemma_entries_map_keys(es.drop_last(), t);
        if exists|i: int| 0 <= i < es.drop_last().len() && (#[trigger] es.drop_last()[i]).0@ == t {
            let i = choose|i: int| 0 <= i < es.drop_last().len() && (#[trigger] es.drop_last()[i]).0@ == t;
            assert(es[i].0@ == t);
        }
        if exists|i: int| 0 <= i < es.len() && (#[trigger] es[i]).0@ == t {
            let i = choose|i: int| 0 <= i < es.len() && (#[trigger] es[i]).0@ == t;
            if i < es.len() - 1 {
                assert(es.drop_last()[i].0@ == t);
            }
        }
    }
}

proof fn lemma_entries_map_value(es: Seq<(String, usize)>, k: int)
    requires
        distinct_keys(es),
        0 <= k < es.len(),
    ensures
        entries_map(es).contains_key(es[k].0@),
        entries_map(es)[es[k].0@] == es[k].1,
    decreases es.len(),
{
    if k < es.len() - 1 {
        assert(distinct_keys(es.drop_last())) by {
            assert forall|i: int, j: int| 0 <= i < j < es.drop_last().len() implies
                (#[trigger] es.drop_last()[i]).0@ != (#[trigger] es.drop_last()[j]).0@ by {
                assert(es[i] == es.drop_last()[i]);
                assert(es[j] == es.drop_last()[j]);
            }
        }
        lemma_entries_map_value(es.drop_last(), k);
        assert(es[k] == es.drop_last()[k]);
        assert(es[k].0@ != es[es.len() - 1].0@);
    }
}

proof fn lemma_entries_map_update(es: Seq<(String, usize)>, k: int, e: (String, usize))
    requires
        distinct_keys(es),
        0 <= k < es.len(),
        e.0@ == es[k].0@,
    ensures
        entries_map(es.update(k, e)) == entries_map(es).insert(es[k].0@, e.1 as nat),
    decreases es.len(),
{
    let v = e.1;
    let es2 = es.update(k, e);
    if k == es.len() - 1 {
        assert(es2.drop_last() =~= es.drop_last());
        assert(entries_map(es2) =~= entries_map(es).insert(es[k].0@, v as nat));
    } else {
        assert(distinct_keys(es.drop_last())) by {
            assert forall|i: int, j: int| 0 <= i < j < es.drop_last().len() implies
                (#[trigger] es.drop_last()[i]).0@ != (#[trigger] es.drop_last()[j]).0@ by {
                assert(es[i] == es.drop_last()[i]);
                assert(es[j] == es.drop_last()[j]);
            }
        }
        lemma_entries_map_update(es.drop_last(), k, e);
        assert(es2.drop_last() =~= es.drop_last().update(k, e));
        assert(es[k].0@ != es.last().0@);
        assert(entries_map(es2) =~= entries_map(es).insert(es[k].0@, v as nat));
    }
}

impl TermCounts {
    /// The count of each term.
    pub closed spec fn view(&self) -> Map<Seq<char>, nat> {
        entries_map(self.entries@)
    }

    /// The representation holds one entry per term.
    pub closed spec fn wf(&self) -> bool {
        distinct_keys(self.entries@)
    }

    /// No term counted yet.
    pub fn new() -> (c: Self)
        ensures
            c.wf(),
            c@ == Map::<Seq<char>, nat>::empty(),
    {
        TermCounts { entries: Vec::new() }
    }

    /// The number of distinct terms.
    pub fn len(&self) -> (n: usize)
        requires
            self.wf(),
        ensures
            n == self@.dom().len(),
    {
        proof {
            self.lemma_dom_len();
        }
        self.entries.len()
    }

    proof fn lemma_dom_len(&self)
        requires
            self.wf(),
        ensures
            self@.dom().len() == self.entries@.len(),
            self@.dom().finite(),
        decreases self.entries@.len(),
    {
        lemma_dom_len_of(self.entries@);
    }

    /// The position of `term`'s entry, if it has one.
    fn find(&self, term: &Vec<char>) -> (k: Option<usize>)
        requires
            self.wf(),
        ensures
            match k {
                Some(i) => i < self.entries.len() && self.entries@[i as int].0@ == term@,
                None => !self@.contains_key(term@),
            },
    {
        let mut i: usize = 0;
        while i < self.entries.len()
            invariant
                i <= self.entries.len(),
                forall|m: int| 0 <= m < i ==> (#[trigger] self.entries@[m]).0@ != term@,
            decreases self.entries.len() - i,
        {
            if chars_eq(&chars_of(self.entries[i].0.as_str()), term) {
                return Some(i);
            }
            i = i + 1;
        }
        proof {
            lemma_entries_map_keys(self.entries@, term@);
        }
        None
    }

    /// How many times `term` was counted; 0 when never.
    pub fn get(&self, term: &str) -> (n: usize)
        requires
            self.wf(),
        ensures
            n == if self@.contains_key(term@) { self@[term@] } else { 0 },
    {
        match self.find(&chars_of(term)) {
            Some(i) => {
                proof {
                    lemma_entries_map_value(self.entries@, i as int);
                }
                self.entries[i].1
            },
            None => 0,
        }
    }

    /// Adds `by` to the count of `term`, which starts at 0.
    pub fn add(&mut self, term: &str, by: usize)
        requires
            old(self).wf(),
            old(self)@.contains_key(term@) ==> old(self)@[term@] + by <= usize::MAX,
        ensures
            final(self).wf(),
            final(self)@ == old(self)@.insert(term@, if old(self)@.contains_key(term@) {
                (old(self)@[term@] + by) as nat
            } else {
                by as nat
            }),
    {
        let key = chars_of(term);
        match self.find(&key) {
            Some(i) => {
                proof {
                    lemma_entries_map_value(self.entries@, i as int);
                }
                let name = string_from_chars(&chars_of(self.entries[i].0.as_str()));
                let v = self.entries[i].1 + by;
                let ghost es = self.entries@;
                let entry = (name, v);
                proof {
                    lemma_entries_map_update(es, i as int, entry);
                }
                self.entries.set(i, entry);
                assert(self.entries@ =~= es.update(i as int, entry));
                assert(distinct_keys(self.entries@)) by {
                    assert forall|a: int, b: int| 0 <= a < b < self.entries@.len() implies
                        (#[trigger] self.entries@[a]).0@ != (#[trigger] self.entries@[b]).0@ by {
                        assert(es[a].0@ != es[b].0@);
                    }
                }
            },
            None => {
                let ghost es = self.entries@;
                self.entries.push((string_from_chars(&key), by));
                proof {
                    assert(self.entries@.drop_last() =~= es);
                    lemma_entries_map_keys(es, term@);
                    assert(distinct_keys(self.entries@)) by {
                        assert forall|a: int, b: int| 0 <= a < b < self.entries@.len() implies
                            (#[trigger] self.entries@[a]).0@ != (#[trigger] self.entries@[b]).0@ by {
                            if b == self.entries@.len() - 1 {
                                assert(es[a].0@ != term@);
                            } else {
                                assert(es[a].0@ != es[b].0@);
                            }
                        }
                    }
                }
            },
        }
    }

    /// The terms, each with its count, in the order they were first counted.
    pub fn entries(&self) -> (v: Vec<(String, usize)>)
        requires
            self.wf(),
        ensures
            entries_map(v@) == self@,
            distinct_keys(v@),
            v.len() == self@.dom().len(),
    {
        proof {
            self.lemma_dom_len();
        }
        let mut v: Vec<(String, usize)> = Vec::new();
        let mut i: usize = 0;
        while i < self.entries.len()
            invariant
                i <= self.entries.len(),
                v.len() == i,
                forall|m: int| 0 <= m < i ==> (#[trigger] v@[m]).0@ == self.entries@[m].0@ && v@[m].1 == self.entries@[m].1,
            decreases self.entries.len() - i,
        {
            v.push((string_from_chars(&chars_of(self.entries[i].0.as_str())), self.entries[i].1));
            i = i + 1;
        }
        proof {
            lemma_entries_map_same(v@, self.entries@);
        }
        v
    }
}

proof fn lemma_entries_map_same(a: Seq<(String, usize)>, b: Seq<(String, usize)>)
    requires
        a.len() == b.len(),
        forall|m: int| 0 <= m < a.len() ==> (#[trigger] a[m]).0@ == b[m].0@ && a[m].1 == b[m].1,
    ensures
        entries_map(a) == entries_map(b),
        distinct_keys(b) ==> distinct_keys(a),
    decreases a.len(),
{
    if a.len() > 0 {
        lemma_entries_map_same(a.drop_last(), b.drop_last());
        assert(a.last() == a[a.len() - 1]);
    }
    if distinct_keys(b) {
        assert forall|i: int, j: int| 0 <= i < j < a.len() implies (#[trigger] a[i]).0@ != (#[trigger] a[j]).0@ by {
            assert(b[i].0@ != b[j].0@);
        }
    }
}

proof fn lemma_dom_len_of(es: Seq<(String, usize)>)
    requires
        distinct_keys(es),
    ensures
        entries_map(es).dom().len() == es.len(),
        entries_map(es).dom().finite(),
    decreases es.len(),
{
    if es.len() > 0 {
        let init = es.drop_last();
        assert(distinct_keys(init)) by {
            assert forall|i: int, j: int| 0 <= i < j < init.len() implies
                (#[trigger] init[i]).0@ != (#[trigger] init[j]).0@ by {
                assert(es[i] == init[i]);
                assert(es[j] == init[j]);
            }
        }
        lemma_dom_len_of(init);
        lemma_entries_map_keys(init, es.last().0@);
        if entries_map(init).contains_key(es.last().0@) {
            let i = choose|i: int| 0 <= i < init.len() && (#[trigger] init[i]).0@ == es.last().0@;
            assert(es[i].0@ != es[es.len() - 1].0@);
        }
        assert(entries_map(es).dom() =~= entries_map(init).dom().insert(es.last().0@));
    } else {
        assert(entries_map(es).dom() =~= Set::<Seq<char>>::empty());
    }
}

/// The plain value of a stream item.
pub open spec fn item_view(r: Result<String, StorageError>) -> Result<Seq<char>, StorageError> {
    match r {
        Ok(s) => Ok(s@),
        Err(e) => Err(e),
    }
}

/// The plain values of stream items.
pub open spec fn items_view(v: Seq<Result<String, StorageError>>) -> Seq<Result<Seq<char>, StorageError>> {
    v.map_values(|r: Result<String, StorageError>| item_view(r))
}

/// The position of the first failed item of a stream, if any.
pub open spec fn first_error(items: Seq<Result<Seq<char>, StorageError>>) -> Option<int>
    decreases items.len(),
{
    if items.len() == 0 {
        None
    } else {
        match first_error(items.drop_last()) {
            Some(i) => Some(i),
            None => if items.last() is Err { Some(items.len() - 1) } else { None },
        }
    }
}

/// The values of the items of a stream without failures.
pub open spec fn ok_values(items: Seq<Result<Seq<char>, StorageError>>) -> Seq<Seq<char>> {
    items.map_values(|r: Result<Seq<char>, StorageError>| match r {
        Ok(s) => s,
        Err(_) => Seq::empty(),
    })
}

/// `r` is the count of the terms of the stream `items`: the first failed item fails
/// the count, otherwise each term is counted as often as it occurs.
pub open spec fn counted(r: Result<TermCounts, StorageError>, items: Seq<Result<Seq<char>, StorageError>>) -> bool {
    match first_error(items) {
        Some(k) => r is Err && items[k] == Err::<Seq<char>, StorageError>(r->Err_0),
        None => r matches Ok(c) && c.wf() && c@ == counts_map(ok_values(items)),
    }
}

/// Counts terms.
pub struct TermCounter;

/// Reading one more item of a stream without failures so far fails exactly when that item failed.
pub proof fn lemma_first_error_prefix(items: Seq<Result<Seq<char>, StorageError>>, i: int)
    requires
        0 <= i < items.len(),
        first_error(items.take(i)) is None,
    ensures
        first_error(items.take(i + 1)) == if items[i] is Err { Some(i) } else { None::<int> },
{
    assert(items.take(i + 1).drop_last() =~= items.take(i));
}

/// A failure found in a prefix of a stream is the first failure of the whole stream.
pub proof fn lemma_first_error_extends(items: Seq<Result<Seq<char>, StorageError>>, i: int)
    requires
        0 <= i <= items.len(),
        first_error(items.take(i)) matches Some(k),
    ensures
        first_error(items) == first_error(items.take(i)),
    decreases items.len() - i,
{
    if i < items.len() {
        assert(items.take(i + 1).drop_last() =~= items.take(i));
        lemma_first_error_extends(items, i + 1);
    } else {
        assert(items.take(i) =~= items);
    }
}

/// The first failure of a stream is one of its items, and a failed one.
pub proof fn lemma_first_error_bound(items: Seq<Result<Seq<char>, StorageError>>)
    ensures
        first_error(items) matches Some(k) ==> 0 <= k < items.len() && items[k] is Err,
    decreases items.len(),
{
    if items.len() > 0 {
        lemma_first_error_bound(items.drop_last());
    }
}

impl TermCounter {
    /// Counts the terms of a stream of tokens; the first failed item fails the count.
    pub fn count(tokens: Vec<Result<String, StorageError>>) -> (r: Result<TermCounts, StorageError>)
        ensures
            counted(r, items_view(tokens@)),
    {
        let ghost items = items_view(tokens@);
        let mut counts = TermCounts::new();
        let ghost orig = tokens@;
        let n = tokens.len();
        let mut work = tokens;
        let mut i: usize = 0;
        // tokens are taken from the back of a reversed copy, so that each is owned once
        let mut rev: Vec<Result<String, StorageError>> = Vec::new();
        while work.len() > 0
            invariant
                work@ == orig.take(work.len() as int),
                rev.len() + work.len() == n,
                n == orig.len(),
                forall|m: int| 0 <= m < rev.len() ==> #[trigger] rev@[m] == orig[n - 1 - m],
            decreases work.len(),
        {
            let t = work.pop().unwrap();
            rev.push(t);
            assert(work@ =~= orig.take(work.len() as int));
        }
        while i < n
            invariant
                i <= n,
                n == orig.len(),
                items == items_view(orig),
                orig == tokens@,
                rev.len() == n - i,
                forall|m: int| 0 <= m < rev.len() ==> #[trigger] rev@[m] == orig[n - 1 - m],
                counts.wf(),
                first_error(items.take(i as int)) is None,
                counts@ == counts_map(ok_values(items.take(i as int))),
                forall|t: Seq<char>| #[trigger] counts@.contains_key(t) ==> counts@[t] <= i,
            decreases n - i,
        {
            let item = rev.pop().unwrap();
            assert(item == orig[i as int]);
            assert(items[i as int] == item_view(orig[i as int]));
            proof {
                lemma_first_error_prefix(items, i as int);
                assert(ok_values(items.take(i + 1)) =~= ok_values(items.take(i as int)).push(ok_values(items)[i as int]));
            }
            match item {
                Err(e) => {
                    proof {
                        lemma_first_error_extends(items, i + 1);
                        assert(first_error(items) == Some(i as int));
                        lemma_first_error_bound(items);
                        assert(item_view(orig[i as int]) == Err::<Seq<char>, StorageError>(e));
                    }
                    return Err(e);
                },
                Ok(token) => {
                    assert(ok_values(items)[i as int] == token@);
                    assert(ok_values(items.take(i + 1)).last() == token@);
                    assert(ok_values(items.take(i + 1)).drop_last() =~= ok_values(items.take(i as int)));
                    counts.add(token.as_str(), 1);
                },
            }
            i = i + 1;
        }
        assert(items.take(n as int) =~= items);
        Ok(counts)
    }

    /// Counts the terms of a list of tokens.
    pub fn count_from_str(tokens: Vec<String>) -> (c: TermCounts)
        ensures
            c.wf(),
            c@ == counts_map(tokens@.map_values(|s: String| s@)),
    {
        let mut counts = TermCounts::new();
        let ghost ts = tokens@.map_values(|s: String| s@);
        let mut i: usize = 0;
        while i < tokens.len()
            invariant
                i <= tokens.len(),
                ts == tokens@.map_values(|s: String| s@),
                counts.wf(),
                counts@ == counts_map(ts.take(i as int)),
                forall|t: Seq<char>| #[trigger] counts@.contains_key(t) ==> counts@[t] <= i,
            decreases tokens.len() - i,
        {
            assert(ts.take(i + 1).drop_last() =~= ts.take(i as int));
            counts.add(tokens[i].as_str(), 1);
            i = i + 1;
        }
        assert(ts.take(i as int) =~= ts);
        counts
    }

    /// Counts the terms of a stream of tokens together with the stop words and pairs
    /// of neighbouring tokens that `BigramIterator` makes of it.
    pub fn count_with_bigrams(tokens: Vec<Result<String, StorageError>>, stops: Vec<String>) -> (r: Result<TermCounts, StorageError>)
        ensures
            counted(r, bigram_items(None, items_view(tokens@), strs(stops@))),
    {
        let mut it = BigramIterator::new(tokens, stops);
        let v = drain_bigrams(&mut it);
        Self::count(v)
    }

    /// Counts the terms of a file, given as the outcomes of its successive reads:
    /// the reads are cut into chunks at word boundaries, and the chunks into tokens.
    pub fn count_from_file(reads: Vec<Result<Vec<u8>, StorageError>>) -> (r: Result<TermCounts, StorageError>)
        ensures
            exists|chunks: Seq<Result<String, StorageError>>|
                chunks_match(chunks, raw_chunks(Seq::empty(), reads_view(reads@)))
                && #[trigger] counted(r, tokens_of_items(items_view(chunks))),
    {
        let chunks = read_all(reads);
        let ghost cs = chunks@;
        let mut t = Tokenizer::new(chunks);
        let v = drain_tokens(&mut t);
        let r = Self::count(v);
        assert(counted(r, tokens_of_items(items_view(cs))));
        r
    }

    /// Counts the terms of a file, given as the outcomes of its successive reads,
    /// together with the stop words and pairs of neighbouring tokens.
    pub fn count_from_file_with_bigram(reads: Vec<Result<Vec<u8>, StorageError>>, stops: Vec<String>) -> (r: Result<TermCounts, StorageError>)
        ensures
            exists|chunks: Seq<Result<String, StorageError>>|
                chunks_match(chunks, raw_chunks(Seq::empty(), reads_view(reads@)))
                && #[trigger] counted(r, bigram_items(None, tokens_of_items(items_view(chunks)), strs(stops@))),
    {
        let chunks = read_all(reads);
        let ghost cs = chunks@;
        let mut t = Tokenizer::new(chunks);
        let v = drain_tokens(&mut t);
        let r = Self::count_with_bigrams(v, stops);
        assert(counted(r, bigram_items(None, tokens_of_items(items_view(cs)), strs(stops@))));
        r
    }
}

/// Every item a tokenizer has still to yield, in order.
fn drain_tokens(t: &mut Tokenizer) -> (v: Vec<Result<String, StorageError>>)
    requires
        old(t).wf(),
    ensures
        items_view(v@) == old(t).remaining(),
{
    let mut v: Vec<Result<String, StorageError>> = Vec::new();
    loop
        invariant
            t.wf(),
            items_view(v@) + t.remaining() == old(t).remaining(),
        decreases t.remaining().len(),
    {
        let ghost before = t.remaining();
        let ghost vb = v@;
        match t.next() {
            Some(x) => {
                v.push(x);
                assert(items_view(v@) =~= items_view(vb).push(item_view(x)));
                assert(before =~= seq![before[0]] + before.drop_first());
                assert(items_view(v@) + t.remaining() =~= items_view(vb) + before);
            },
            None => {
                assert(items_view(v@) + t.remaining() =~= items_view(v@));
                return v;
            },
        }
    }
}

/// Every item a pair iterator has still to hand on, in order.
fn drain_bigrams(t: &mut BigramIterator) -> (v: Vec<Result<String, StorageError>>)
    requires
        old(t).wf(),
    ensures
        items_view(v@) == old(t).remaining(),
{
    let mut v: Vec<Result<String, StorageError>> = Vec::new();
    loop
        invariant
            t.wf(),
            items_view(v@) + t.remaining() == old(t).remaining(),
        decreases t.remaining().len(),
    {
        let ghost before = t.remaining();
        let ghost vb = v@;
        match t.next() {
            Some(x) => {
                v.push(x);
                assert(items_view(v@) =~= items_view(vb).push(item_view(x)));
                assert(before =~= seq![before[0]] + before.drop_first());
                assert(items_view(v@) + t.remaining() =~= items_view(vb) + before);
            },
            None => {
                assert(items_view(v@) + t.remaining() =~= items_view(v@));
                return v;
            },
        }
    }
}

/// Whether a term is `t`.
pub open spec fn same_term(t: Seq<char>) -> spec_fn(Seq<char>) -> bool {
    |x: Seq<char>| x == t
}

/// Counting gives each term of a token list the number of its occurrences in it, and
/// gives no count to a term that does not occur.
pub proof fn law_counts_are_occurrences(ts: Seq<Seq<char>>, t: Seq<char>)
    ensures
        counts_map(ts).contains_key(t) <==> ts.contains(t),
        counts_map(ts).contains_key(t) ==> counts_map(ts)[t] == ts.filter(same_term(t)).len(),
    decreases ts.len(),
{
    reveal(Seq::filter);
    if ts.len() > 0 {
        let init = ts.drop_last();
        law_counts_are_occurrences(init, t);
        if init.contains(t) {
            let i = choose|i: int| 0 <= i < init.len() && init[i] == t;
            assert(ts[i] == t);
        }
        if ts.contains(t) && ts.last() != t {
            let i = choose|i: int| 0 <= i < ts.len() && ts[i] == t;
            assert(init[i] == t);
        }
        if !init.contains(t) {
            assert(init.filter(same_term(t)).len() == 0) by {
                init.lemma_filter_len(same_term(t));
                if init.filter(same_term(t)).len() > 0 {
                    init.lemma_filter_pred(same_term(t), 0);
                    init.lemma_filter_contains_rev(same_term(t), init.filter(same_term(t))[0]);
                }
            }
        }
    }
}

} // verus!
