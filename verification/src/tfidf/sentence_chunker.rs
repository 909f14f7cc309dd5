//! Grouping the sentences of a text stream into chunks of bounded token count.
use vstd::prelude::*;

use crate::storage::error::StorageError;
use crate::text::{chars_of, split_whitespace_chars, split_ws};
use crate::tfidf::sentence_splitter::{
    sentence_view, sentences_view, split_fits, split_sentences, Sentence, SentenceSplitter,
};
use crate::tfidf::term_counter::items_view;
use crate::tfidf::text_extractor::{extract, ok_chars, para_item_view, TextExtractor};

verus! {

/// A sentence as plain values: text, start, end.
pub type SentenceV = (Seq<char>, int, int);

/// The number of words of a text, as `split_whitespace().count()` gives it.
pub open spec fn word_count(t: Seq<char>) -> nat {
    split_ws(t).len()
}

/// Where `split_by_tokens` cuts `ss`, scanning from `i` with `acc` words counted
/// before it: at the first sentence that brings the count to `max` or beyond, or at
/// the end.
pub open spec fn token_cut(ss: Seq<SentenceV>, max: int, acc: int, i: int) -> int
    decreases ss.len() - i,
{
    if i < 0 || i >= ss.len() {
        ss.len() as int
    } else if acc + word_count(ss[i].0) >= max {
        i
    } else {
        token_cut(ss, max, acc + word_count(ss[i].0), i + 1)
    }
}

proof fn lemma_token_cut_range(ss: Seq<SentenceV>, max: int, acc: int, i: int)
    requires
        0 <= i <= ss.len(),
    ensures
        i <= token_cut(ss, max, acc, i) <= ss.len(),
    decreases ss.len() - i,
{
    if i < ss.len() && acc + word_count(ss[i].0) < max {
        lemma_token_cut_range(ss, max, acc + word_count(ss[i].0), i + 1);
    }
}

/// A copy of a sentence.
fn copy_sentence(s: &Sentence) -> (r: Sentence)
    ensures
        sentence_view(r) == sentence_view(*s),
{
    Sentence { text: s.text.clone(), start_char: s.start_char, end_char: s.end_char }
}

/// A copy of the sentences of `v` from `from` up to `to`.
fn copy_sentences(v: &Vec<Sentence>, from: usize, to: usize) -> (r: Vec<Sentence>)
    requires
        from <= to <= v.len(),
    ensures
        sentences_view(r@) == sentences_view(v@).subrange(from as int, to as int),
{
    let mut r: Vec<Sentence> = Vec::new();
    let mut i = from;
    while i < to
        invariant
            from <= i <= to,
            to <= v.len(),
            sentences_view(r@) == sentences_view(v@).subrange(from as int, i as int),
        decreases to - i,
    {
        let ghost before = r@;
        r.push(copy_sentence(&v[i]));
        assert(sentences_view(r@) =~= sentences_view(before).push(sentence_view(v@[i as int])));
        i = i + 1;
        assert(sentences_view(r@) =~= sentences_view(v@).subrange(from as int, i as int));
    }
    r
}

/// Splits `split_sentences` at the first sentence that brings the number of words,
/// counted from the start, to `max_token` or beyond: the sentences before it, and the
/// rest. When no sentence does, all of them and nothing.
pub fn split_by_tokens(split_sentences: Vec<Sentence>, max_token: usize) -> (r: (Vec<Sentence>, Vec<Sentence>))
    ensures
        ({
            let ss = sentences_view(split_sentences@);
            let cut = token_cut(ss, max_token as int, 0, 0);
            sentences_view(r.0@) == ss.take(cut) && sentences_view(r.1@) == ss.skip(cut)
        }),
{
    let ghost ss = sentences_view(split_sentences@);
    let mut tokens_curr: usize = 0;
    let mut idx: usize = 0;
    while idx < split_sentences.len()
        invariant
            idx <= split_sentences.len(),
            ss == sentences_view(split_sentences@),
            tokens_curr < max_token || (idx == 0 && tokens_curr == 0),
            token_cut(ss, max_token as int, 0, 0) == token_cut(ss, max_token as int, tokens_curr as int, idx as int),
        decreases split_sentences.len() - idx,
    {
        let words = split_whitespace_chars(&chars_of(split_sentences[idx].text.as_str()));
        assert(words.len() == word_count(ss[idx as int].0));
        let before = tokens_curr;
        tokens_curr = tokens_curr.saturating_add(words.len());
        if tokens_curr >= max_token {
            let n = split_sentences.len();
            proof {
                assert(before + words.len() >= max_token);
            }
            return (copy_sentences(&split_sentences, 0, idx), copy_sentences(&split_sentences, idx, n));
        }
        idx = idx + 1;
    }
    proof {
        assert(ss.take(ss.len() as int) =~= ss);
        assert(ss.skip(ss.len() as int) =~= Seq::<SentenceV>::empty());
    }
    (split_sentences, Vec::new())
}

/// A chunk of sentences and where it stands: its index, the start of its first
/// sentence and the end of its last.
pub struct SentenceChunks {
    pub chunks: Vec<Sentence>,
    pub index: usize,
    pub start_at: usize,
    pub end_at: usize,
}

/// A chunk as plain values: sentences, index, start, end.
pub type ChunkV = (Seq<SentenceV>, int, int, int);

/// A chunk as plain values.
pub open spec fn chunks_view(c: SentenceChunks) -> ChunkV {
    (sentences_view(c.chunks@), c.index as int, c.start_at as int, c.end_at as int)
}

/// A stream item of chunks as plain values.
pub open spec fn chunk_item_view(r: Result<SentenceChunks, StorageError>) -> Result<ChunkV, StorageError> {
    match r {
        Ok(c) => Ok(chunks_view(c)),
        Err(e) => Err(e),
    }
}

/// The chunk made of the sentences `ss` with index `idx`.
pub open spec fn make_chunk(ss: Seq<SentenceV>, idx: int) -> ChunkV {
    (ss, idx, ss[0].1, ss.last().2)
}

/// The sentences of a chunk that are kept to start the next one: the last `overlap`,
/// or the last one alone when the chunk is shorter than that.
pub open spec fn overlap_tail(chunked: Seq<SentenceV>, overlap: int) -> Seq<SentenceV> {
    if overlap <= chunked.len() {
        chunked.skip(chunked.len() - overlap)
    } else {
        chunked.skip(chunked.len() - 1)
    }
}

/// The chunks a chunker hands on with the sentences `buff` waiting, the next chunk
/// index `idx` and the paragraphs `paras` not yet read: each paragraph's sentences
/// join the waiting ones, which are cut by `token_cut`; a non-empty cut is handed on
/// and its last `overlap` sentences wait with the rest. A failed paragraph is handed
/// on; at the end of the stream the waiting sentences form a last chunk.
pub open spec fn chunk_items(
    buff: Seq<SentenceV>,
    idx: int,
    paras: Seq<Result<(Seq<char>, int), StorageError>>,
    max_tokens: int,
    overlap: int,
) -> Seq<Result<ChunkV, StorageError>>
    decreases paras.len(),
{
    if paras.len() == 0 {
        if buff.len() > 0 {
            seq![Ok(make_chunk(buff, idx))]
        } else {
            Seq::empty()
        }
    } else {
        match paras[0] {
            Err(e) => seq![Err(e)] + chunk_items(buff, idx, paras.drop_first(), max_tokens, overlap),
            Ok(p) => {
                let all = buff + split_sentences(p.0, p.1);
                let cut = token_cut(all, max_tokens, 0, 0);
                let chunked = all.take(cut);
                let carry = all.skip(cut);
                if cut > 0 {
                    seq![Ok(make_chunk(chunked, idx))] + chunk_items(
                        overlap_tail(chunked, overlap) + carry,
                        idx + 1,
                        paras.drop_first(),
                        max_tokens,
                        overlap,
                    )
                } else {
                    chunk_items(carry, idx, paras.drop_first(), max_tokens, overlap)
                }
            },
        }
    }
}

/// Every successful paragraph of `paras` can be split without a position exceeding
/// `usize::MAX`.
pub open spec fn paragraphs_fit(paras: Seq<Result<(Seq<char>, int), StorageError>>) -> bool {
    forall|i: int| 0 <= i < paras.len() ==> (#[trigger] paras[i] matches Ok(p) ==> split_fits(p.0, p.1))
}

/// Groups the sentences of a stream of text chunks into chunks of bounded token count.
pub struct SentenceChunker {
    pub text_ext: TextExtractor,
    pub chunk_buff: Vec<Sentence>,
    pub current_pos: usize,
    pub max_tokens: usize,
    pub overlap: usize,
    pub chunk_index: usize,
}

impl SentenceChunker {
    /// The chunker can hand on all its chunks: the extractor is consistent, every
    /// paragraph to come can be split, and every chunk index to come fits in a `usize`.
    pub open spec fn fits(&self) -> bool {
        &&& self.text_ext.wf()
        &&& paragraphs_fit(self.text_ext.remaining())
        &&& self.chunk_index + self.text_ext.remaining().len() <= usize::MAX
    }

    /// The chunks still to be handed on, in order.
    pub open spec fn remaining(&self) -> Seq<Result<ChunkV, StorageError>> {
        chunk_items(
            sentences_view(self.chunk_buff@),
            self.chunk_index as int,
            self.text_ext.remaining(),
            self.max_tokens as int,
            self.overlap as int,
        )
    }

    /// A chunker over the text chunks of `source`, whose first chunk gets the index
    /// `chunk_index`.
    pub fn new(source: Vec<Result<String, StorageError>>, max_tokens: usize, chunk_index: usize, overlap: usize) -> (c: Self)
        requires
            ok_chars(items_view(source@)) <= usize::MAX,
            paragraphs_fit(extract(0, Seq::empty(), items_view(source@))),
            chunk_index + extract(0, Seq::empty(), items_view(source@)).len() <= usize::MAX,
        ensures
            c.fits(),
            c.max_tokens == max_tokens,
            c.overlap == overlap,
            c.remaining() == chunk_items(
                Seq::empty(),
                chunk_index as int,
                extract(0, Seq::empty(), items_view(source@)),
                max_tokens as int,
                overlap as int,
            ),
    {
        let c = SentenceChunker {
            text_ext: TextExtractor::new(source),
            chunk_buff: Vec::new(),
            current_pos: 0,
            max_tokens,
            chunk_index,
            overlap,
        };
        assert(sentences_view(c.chunk_buff@) =~= Seq::<SentenceV>::empty());
        c
    }

    /// The next chunk, or the failure of the paragraph being read; `None` once the
    /// source is exhausted.
    pub fn next(&mut self) -> (r: Option<Result<SentenceChunks, StorageError>>)
        requires
            old(self).fits(),
        ensures
            final(self).fits(),
            final(self).max_tokens == old(self).max_tokens,
            final(self).overlap == old(self).overlap,
            old(self).remaining().len() == 0 ==> r is None && final(self).remaining().len() == 0,
            old(self).remaining().len() > 0 ==> (r matches Some(x) && chunk_item_view(x) == old(self).remaining()[0]
                && final(self).remaining() == old(self).remaining().drop_first()),
    {
        loop
            invariant
                self.fits(),
                self.max_tokens == old(self).max_tokens,
                self.overlap == old(self).overlap,
                self.remaining() == old(self).remaining(),
            decreases self.text_ext.remaining().len(),
        {
            let ghost paras = self.text_ext.remaining();
            let ghost buff = sentences_view(self.chunk_buff@);
            let ghost idx = self.chunk_index as int;
            let item = self.text_ext.next();
            proof {
                if paras.len() > 0 {
                    assert forall|i: int| 0 <= i < paras.drop_first().len() implies (#[trigger] paras.drop_first()[i] matches Ok(p)
                        ==> split_fits(p.0, p.1)) by {
                        assert(paras.drop_first()[i] == paras[i + 1]);
                    }
                }
            }
            match item {
                Some(Err(e)) => {
                    return Some(Err(e));
                },
                None => {
                    if self.chunk_buff.len() > 0 {
                        let mut chunk_buff: Vec<Sentence> = Vec::new();
                        std::mem::swap(&mut chunk_buff, &mut self.chunk_buff);
                        let last = chunk_buff.len() - 1;
                        let start_at = chunk_buff[0].start_char;
                        let end_at = chunk_buff[last].end_char;
                        proof {
                            assert(sentences_view(self.chunk_buff@) =~= Seq::<SentenceV>::empty());
                        }
                        return Some(Ok(SentenceChunks { index: self.chunk_index, start_at, end_at, chunks: chunk_buff }));
                    }
                    return None;
                },
                Some(Ok(text_chunk)) => {
                    proof {
                        assert(paras[0] matches Ok(p) && split_fits(p.0, p.1));
                    }
                    let split = SentenceSplitter::split(&text_chunk);
                    let mut all: Vec<Sentence> = Vec::new();
                    std::mem::swap(&mut all, &mut self.chunk_buff);
                    let mut split = split;
                    let ghost before = all@;
                    let ghost sv = split@;
                    all.append(&mut split);
                    proof {
                        assert(all@ == before + sv);
                        assert(sentences_view(all@) =~= sentences_view(before) + sentences_view(sv));
                    }
                    let ghost allv = sentences_view(all@);
                    let (chunked_vec, carry_vec) = split_by_tokens(all, self.max_tokens);
                    let ghost cut = token_cut(allv, self.max_tokens as int, 0, 0);
                    proof {
                        lemma_token_cut_range(allv, self.max_tokens as int, 0, 0);
                    }
                    if chunked_vec.len() > 0 {
                        let c_idx = self.chunk_index;
                        self.chunk_index = self.chunk_index + 1;
                        let n = chunked_vec.len();
                        let from = if self.overlap <= n {
                            n - self.overlap
                        } else {
                            n - 1
                        };
                        let mut buff = copy_sentences(&chunked_vec, from, n);
                        let ghost tail = sentences_view(buff@);
                        let mut carry = carry_vec;
                        let ghost cv = sentences_view(carry@);
                        let ghost carry_raw = carry@;
                        let ghost buff_raw = buff@;
                        buff.append(&mut carry);
                        proof {
                            assert(buff@ == buff_raw + carry_raw);
                            assert(sentences_view(buff@) =~= tail + cv);
                            let chunked = allv.take(cut);
                            assert(tail =~= overlap_tail(chunked, self.overlap as int));
                        }
                        self.chunk_buff = buff;
                        let start_at = chunked_vec[0].start_char;
                        let end_at = chunked_vec[n - 1].end_char;
                        return Some(Ok(SentenceChunks { start_at, end_at, chunks: chunked_vec, index: c_idx }));
                    }
                    self.chunk_buff = carry_vec;
                },
            }
        }
    }

    /// A chunker as `new` makes it, or `None` when a position or a chunk index to come
    /// would not fit in a `usize`.
    pub fn try_new(source: Vec<Result<String, StorageError>>, max_tokens: usize, chunk_index: usize, overlap: usize) -> (r: Option<Self>)
        ensures
            r is Some <==> {
                &&& ok_chars(items_view(source@)) <= usize::MAX
                &&& paragraphs_fit(extract(0, Seq::empty(), items_view(source@)))
                &&& chunk_index + extract(0, Seq::empty(), items_view(source@)).len() <= usize::MAX
            },
            r matches Some(c) ==> {
                &&& c.fits()
                &&& c.max_tokens == max_tokens
                &&& c.overlap == overlap
                &&& c.remaining() == chunk_items(
                    Seq::empty(),
                    chunk_index as int,
                    extract(0, Seq::empty(), items_view(source@)),
                    max_tokens as int,
                    overlap as int,
                )
            },
    {
        if !chars_fit(&source) {
            return None;
        }
        let copy = copy_items(&source);
        let mut ext = TextExtractor::new(copy);
        let ghost all = ext.remaining();
        let ghost mut seen: Seq<Result<(Seq<char>, int), StorageError>> = Seq::empty();
        let limit = usize::MAX - chunk_index;
        let mut count: usize = 0;
        loop
            invariant
                ext.wf(),
                ok_chars(items_view(source@)) <= usize::MAX,
                all == extract(0, Seq::empty(), items_view(source@)),
                all == seen + ext.remaining(),
                paragraphs_fit(seen),
                count == seen.len(),
                count <= limit,
                limit == usize::MAX - chunk_index,
            decreases ext.remaining().len(),
        {
            let ghost rem = ext.remaining();
            match ext.next() {
                None => {
                    assert(all =~= seen);
                    return Some(Self::new(source, max_tokens, chunk_index, overlap));
                },
                Some(item) => {
                    let fits = match &item {
                        Ok(p) => SentenceSplitter::try_split(p).is_some(),
                        Err(_) => true,
                    };
                    if !fits {
                        assert(!paragraphs_fit(all)) by {
                            assert(all[seen.len() as int] == rem[0]);
                        }
                        return None;
                    }
                    if count == limit {
                        assert(all.len() > limit);
                        return None;
                    }
                    count = count + 1;
                    proof {
                        assert(rem =~= seq![rem[0]] + rem.drop_first());
                        assert(all =~= seen.push(rem[0]) + ext.remaining());
                        assert forall|i: int| 0 <= i < seen.push(rem[0]).len() implies (#[trigger] seen.push(rem[0])[i] matches Ok(p)
                            ==> split_fits(p.0, p.1)) by {
                            if i < seen.len() {
                                assert(seen.push(rem[0])[i] == seen[i]);
                            }
                        }
                        seen = seen.push(rem[0]);
                    }
                },
            }
        }
    }
}

/// Whether the successful chunks of `source` hold at most `usize::MAX` characters in all.
fn chars_fit(source: &Vec<Result<String, StorageError>>) -> (b: bool)
    ensures
        b == (ok_chars(items_view(source@)) <= usize::MAX),
{
    let ghost items = items_view(source@);
    let mut total: usize = 0;
    let mut i = source.len();
    proof {
        assert(items.skip(i as int) =~= Seq::<Result<Seq<char>, StorageError>>::empty());
    }
    while i > 0
        invariant
            i <= source.len(),
            items == items_view(source@),
            total == ok_chars(items.skip(i as int)),
        decreases i,
    {
        let n = match &source[i - 1] {
            Ok(t) => chars_of(t.as_str()).len(),
            Err(_) => 0,
        };
        proof {
            assert(items.skip(i - 1).drop_first() =~= items.skip(i as int));
            assert(items.skip(i - 1)[0] == items[i - 1]);
        }
        if total > usize::MAX - n {
            proof {
                lemma_ok_chars_skip(items, i - 1);
            }
            return false;
        }
        total = total + n;
        i = i - 1;
    }
    assert(items.skip(0) =~= items);
    true
}

proof fn lemma_ok_chars_skip(items: Seq<Result<Seq<char>, StorageError>>, k: int)
    requires
        0 <= k <= items.len(),
    ensures
        ok_chars(items) >= ok_chars(items.skip(k)),
    decreases k,
{
    if k > 0 {
        assert(items.drop_first().skip(k - 1) =~= items.skip(k));
        lemma_ok_chars_skip(items.drop_first(), k - 1);
    } else {
        assert(items.skip(0) =~= items);
    }
}

/// A copy of a stream of text chunks.
fn copy_items(v: &Vec<Result<String, StorageError>>) -> (r: Vec<Result<String, StorageError>>)
    ensures
        items_view(r@) == items_view(v@),
{
    let mut r: Vec<Result<String, StorageError>> = Vec::new();
    let mut i: usize = 0;
    while i < v.len()
        invariant
            i <= v.len(),
            items_view(r@) == items_view(v@).take(i as int),
        decreases v.len() - i,
    {
        let x = match &v[i] {
            Ok(t) => Ok(t.clone()),
            Err(e) => Err(e.duplicate()),
        };
        let ghost before = r@;
        r.push(x);
        assert(items_view(r@) =~= items_view(before).push(items_view(v@)[i as int]));
        i = i + 1;
        assert(items_view(v@).take(i as int) =~= items_view(v@).take(i - 1).push(items_view(v@)[i - 1]));
    }
    assert(items_view(v@).take(v.len() as int) =~= items_view(v@));
    r
}

/// The batches a batcher hands on with the chunks `acc` gathered and the chunk stream
/// `items` not yet read: a batch is handed on once it holds `batch_size` chunks, a
/// failure is handed on and drops the chunks gathered, and the last chunks form a
/// batch at the end.
pub open spec fn batch_items(
    acc: Seq<ChunkV>,
    items: Seq<Result<ChunkV, StorageError>>,
    batch_size: int,
) -> Seq<Result<Seq<ChunkV>, StorageError>>
    decreases items.len(),
{
    if items.len() == 0 {
        if acc.len() > 0 {
            seq![Ok(acc)]
        } else {
            Seq::empty()
        }
    } else {
        match items[0] {
            Err(e) => seq![Err(e)] + batch_items(Seq::empty(), items.drop_first(), batch_size),
            Ok(c) => {
                let a = acc.push(c);
                if a.len() >= batch_size {
                    seq![Ok(a)] + batch_items(Seq::empty(), items.drop_first(), batch_size)
                } else {
                    batch_items(a, items.drop_first(), batch_size)
                }
            },
        }
    }
}

/// A batch of chunks as plain values.
pub open spec fn batch_view(v: Seq<SentenceChunks>) -> Seq<ChunkV> {
    v.map_values(|c: SentenceChunks| chunks_view(c))
}

/// A stream item of batches as plain values.
pub open spec fn batch_item_view(r: Result<Vec<SentenceChunks>, StorageError>) -> Result<Seq<ChunkV>, StorageError> {
    match r {
        Ok(v) => Ok(batch_view(v@)),
        Err(e) => Err(e),
    }
}

/// Gathers the chunks of a chunker into batches of `batch_size`.
pub struct SentenceChunkerBatcher {
    pub chunker: SentenceChunker,
    pub batch_size: usize,
}

impl SentenceChunkerBatcher {
    /// The batches still to be handed on, in order.
    pub open spec fn remaining(&self) -> Seq<Result<Seq<ChunkV>, StorageError>> {
        batch_items(Seq::empty(), self.chunker.remaining(), self.batch_size as int)
    }

    /// A batcher over the text chunks of `source`, whose chunks are indexed from 0.
    pub fn new(source: Vec<Result<String, StorageError>>, batch_size: usize, max_token: usize, overlap: usize) -> (b: Self)
        requires
            ok_chars(items_view(source@)) <= usize::MAX,
            paragraphs_fit(extract(0, Seq::empty(), items_view(source@))),
            extract(0, Seq::empty(), items_view(source@)).len() <= usize::MAX,
        ensures
            b.chunker.fits(),
            b.batch_size == batch_size,
            b.remaining() == batch_items(
                Seq::empty(),
                chunk_items(Seq::empty(), 0, extract(0, Seq::empty(), items_view(source@)), max_token as int, overlap as int),
                batch_size as int,
            ),
    {
        SentenceChunkerBatcher { chunker: SentenceChunker::new(source, max_token, 0, overlap), batch_size }
    }

    /// The next batch, or the failure met while gathering it; `None` once the source
    /// is exhausted.
    pub fn next(&mut self) -> (r: Option<Result<Vec<SentenceChunks>, StorageError>>)
        requires
            old(self).chunker.fits(),
        ensures
            final(self).chunker.fits(),
            final(self).batch_size == old(self).batch_size,
            old(self).remaining().len() == 0 ==> r is None && final(self).remaining().len() == 0,
            old(self).remaining().len() > 0 ==> (r matches Some(x) && batch_item_view(x) == old(self).remaining()[0]
                && final(self).remaining() == old(self).remaining().drop_first()),
    {
        let mut batches: Vec<SentenceChunks> = Vec::new();
        assert(batch_view(batches@) =~= Seq::<ChunkV>::empty());
        loop
            invariant
                self.chunker.fits(),
                self.batch_size == old(self).batch_size,
                batch_items(Seq::empty(), old(self).chunker.remaining(), self.batch_size as int) == batch_items(
                    batch_view(batches@),
                    self.chunker.remaining(),
                    self.batch_size as int,
                ),
                batches.len() < self.batch_size || batches.len() == 0,
            decreases self.chunker.remaining().len(),
        {
            let ghost rem = self.chunker.remaining();
            let ghost acc = batch_view(batches@);
            match self.chunker.next() {
                Some(Err(e)) => {
                    return Some(Err(e));
                },
                None => {
                    if batches.len() > 0 {
                        return Some(Ok(batches));
                    }
                    assert(acc =~= Seq::<ChunkV>::empty());
                    return None;
                },
                Some(Ok(chunks)) => {
                    batches.push(chunks);
                    assert(batch_view(batches@) =~= acc.push(rem[0]->Ok_0));
                    if batches.len() >= self.batch_size {
                        return Some(Ok(batches));
                    }
                },
            }
        }
    }
}

/// The largest number of chunks in a batch: the batch size, or 1 when it is 0.
pub open spec fn batch_limit(batch_size: int) -> int {
    if batch_size < 1 {
        1
    } else {
        batch_size
    }
}

/// Every batch handed on holds at least one chunk and at most the batch size (one
/// chunk when the size is 0).
pub proof fn law_batches_bounded(acc: Seq<ChunkV>, items: Seq<Result<ChunkV, StorageError>>, batch_size: int)
    requires
        acc.len() < batch_limit(batch_size),
    ensures
        forall|i: int| 0 <= i < batch_items(acc, items, batch_size).len() ==> (#[trigger] batch_items(acc, items, batch_size)[i]
            matches Ok(b) ==> 1 <= b.len() <= batch_limit(batch_size)),
    decreases items.len(),
{
    let out = batch_items(acc, items, batch_size);
    if items.len() > 0 {
        match items[0] {
            Err(e) => {
                law_batches_bounded(Seq::empty(), items.drop_first(), batch_size);
                let rest = batch_items(Seq::empty(), items.drop_first(), batch_size);
                assert forall|i: int| 0 <= i < out.len() implies (#[trigger] out[i] matches Ok(b) ==> 1 <= b.len()
                    <= batch_limit(batch_size)) by {
                    if i > 0 {
                        assert(out[i] == rest[i - 1]);
                    }
                }
            },
            Ok(c) => {
                let a = acc.push(c);
                if a.len() >= batch_size {
                    law_batches_bounded(Seq::empty(), items.drop_first(), batch_size);
                    let rest = batch_items(Seq::empty(), items.drop_first(), batch_size);
                    assert forall|i: int| 0 <= i < out.len() implies (#[trigger] out[i] matches Ok(b) ==> 1 <= b.len()
                        <= batch_limit(batch_size)) by {
                        if i > 0 {
                            assert(out[i] == rest[i - 1]);
                        }
                    }
                } else {
                    law_batches_bounded(a, items.drop_first(), batch_size);
                }
            },
        }
    }
}


/// The number of words of the sentences `ss` together.
pub open spec fn chunk_words(ss: Seq<SentenceV>) -> nat
    decreases ss.len(),
{
    if ss.len() == 0 {
        0
    } else {
        chunk_words(ss.drop_last()) + word_count(ss.last().0)
    }
}

/// The number of chunks (not failures) among `items`.
pub open spec fn ok_count(items: Seq<Result<ChunkV, StorageError>>) -> nat
    decreases items.len(),
{
    if items.len() == 0 {
        0
    } else {
        (if items[0] is Ok { 1nat } else { 0nat }) + ok_count(items.drop_first())
    }
}

/// What holds of the chunks handed on from index `idx` with the token limit `max`:
/// each chunk has at least one sentence, its index is `idx` plus the number of chunks
/// before it, it starts at its first sentence's start and ends at its last sentence's
/// end; and every chunk but the last item has fewer than `max` words.
pub open spec fn chunks_well_formed(items: Seq<Result<ChunkV, StorageError>>, idx: int, max: int) -> bool {
    &&& forall|k: int| 0 <= k < items.len() ==> (#[trigger] items[k] matches Ok(c) ==> c.0.len() > 0
        && c.1 == idx + ok_count(items.take(k)) && c.2 == c.0[0].1 && c.3 == c.0.last().2)
    &&& forall|k: int| 0 <= k < items.len() - 1 ==> (#[trigger] items[k] matches Ok(c) ==> chunk_words(c.0) < max)
}

/// The sentences before a token cut that is not at the start have fewer than `max`
/// words.
proof fn lemma_token_cut_words(ss: Seq<SentenceV>, max: int, acc: int, i: int)
    requires
        0 <= i <= ss.len(),
        acc == chunk_words(ss.take(i)),
        i == 0 || acc < max,
        token_cut(ss, max, acc, i) > 0,
    ensures
        chunk_words(ss.take(token_cut(ss, max, acc, i))) < max,
    decreases ss.len() - i,
{
    if i < ss.len() && acc + word_count(ss[i].0) < max {
        assert(ss.take(i + 1).drop_last() =~= ss.take(i));
        lemma_token_cut_words(ss, max, acc + word_count(ss[i].0), i + 1);
    }
}

/// A list that starts with `x`, taken up to `k > 0`, counts `x` and the first `k - 1`
/// of the rest.
proof fn lemma_ok_count_cons(x: Result<ChunkV, StorageError>, rest: Seq<Result<ChunkV, StorageError>>, k: int)
    requires
        0 < k <= rest.len() + 1,
    ensures
        ok_count((seq![x] + rest).take(k)) == (if x is Ok { 1nat } else { 0nat }) + ok_count(rest.take(k - 1)),
{
    assert((seq![x] + rest).take(k).drop_first() =~= rest.take(k - 1));
}

/// What a chunker hands on is well formed: consecutive indices from the first one,
/// non-empty chunks bounded by their sentences, and all but the last under the
/// token limit.
pub proof fn law_chunks_well_formed(
    buff: Seq<SentenceV>,
    idx: int,
    paras: Seq<Result<(Seq<char>, int), StorageError>>,
    max_tokens: int,
    overlap: int,
)
    ensures
        chunks_well_formed(chunk_items(buff, idx, paras, max_tokens, overlap), idx, max_tokens),
    decreases paras.len(),
{
    let items = chunk_items(buff, idx, paras, max_tokens, overlap);
    if paras.len() == 0 {
        assert(items.take(0) =~= Seq::<Result<ChunkV, StorageError>>::empty());
    } else {
        match paras[0] {
            Err(e) => {
                let rest = chunk_items(buff, idx, paras.drop_first(), max_tokens, overlap);
                law_chunks_well_formed(buff, idx, paras.drop_first(), max_tokens, overlap);
                assert(items == seq![Err::<ChunkV, StorageError>(e)] + rest);
                assert forall|k: int| 0 <= k < items.len() implies (#[trigger] items[k] matches Ok(c) ==> c.0.len() > 0
                    && c.1 == idx + ok_count(items.take(k)) && c.2 == c.0[0].1 && c.3 == c.0.last().2) by {
                    if k > 0 {
                        assert(items[k] == rest[k - 1]);
                        lemma_ok_count_cons(Err(e), rest, k);
                    }
                }
                assert forall|k: int| 0 <= k < items.len() - 1 implies (#[trigger] items[k] matches Ok(c) ==> chunk_words(c.0)
                    < max_tokens) by {
                    if k > 0 {
                        assert(items[k] == rest[k - 1]);
                    }
                }
            },
            Ok(p) => {
                let all = buff + split_sentences(p.0, p.1);
                let cut = token_cut(all, max_tokens, 0, 0);
                let chunked = all.take(cut);
                let carry = all.skip(cut);
                if cut > 0 {
                    let next = overlap_tail(chunked, overlap) + carry;
                    let rest = chunk_items(next, idx + 1, paras.drop_first(), max_tokens, overlap);
                    law_chunks_well_formed(next, idx + 1, paras.drop_first(), max_tokens, overlap);
                    lemma_token_cut_range(all, max_tokens, 0, 0);
                    assert(all.take(0) =~= Seq::<SentenceV>::empty());
                    lemma_token_cut_words(all, max_tokens, 0, 0);
                    let first = Ok::<ChunkV, StorageError>(make_chunk(chunked, idx));
                    assert(items == seq![first] + rest);
                    assert forall|k: int| 0 <= k < items.len() implies (#[trigger] items[k] matches Ok(c) ==> c.0.len()
                        > 0 && c.1 == idx + ok_count(items.take(k)) && c.2 == c.0[0].1 && c.3 == c.0.last().2) by {
                        if k > 0 {
                            assert(items[k] == rest[k - 1]);
                            lemma_ok_count_cons(first, rest, k);
                        } else {
                            assert(items.take(0) =~= Seq::<Result<ChunkV, StorageError>>::empty());
                        }
                    }
                    assert forall|k: int| 0 <= k < items.len() - 1 implies (#[trigger] items[k] matches Ok(c)
                        ==> chunk_words(c.0) < max_tokens) by {
                        if k > 0 {
                            assert(items[k] == rest[k - 1]);
                        }
                    }
                } else {
                    law_chunks_well_formed(carry, idx, paras.drop_first(), max_tokens, overlap);
                }
            },
        }
    }
}


/// The first chunk handed on from waiting sentences that begin with `t` begins with
/// `t`, as far as both go.
proof fn lemma_first_chunk_starts_with(
    buff: Seq<SentenceV>,
    t: Seq<SentenceV>,
    idx: int,
    paras: Seq<Result<(Seq<char>, int), StorageError>>,
    max_tokens: int,
    overlap: int,
    j: int,
)
    requires
        t.len() <= buff.len(),
        buff.take(t.len() as int) == t,
        0 <= j < chunk_items(buff, idx, paras, max_tokens, overlap).len(),
        chunk_items(buff, idx, paras, max_tokens, overlap)[j] is Ok,
        forall|i: int| 0 <= i < j ==> (#[trigger] chunk_items(buff, idx, paras, max_tokens, overlap)[i]) is Err,
    ensures
        ({
            let n = chunk_items(buff, idx, paras, max_tokens, overlap)[j]->Ok_0.0;
            let l = if t.len() <= n.len() { t.len() as int } else { n.len() as int };
            n.take(l) == t.take(l)
        }),
    decreases paras.len(),
{
    let items = chunk_items(buff, idx, paras, max_tokens, overlap);
    if paras.len() == 0 {
        let n = buff;
        let l = if t.len() <= n.len() { t.len() as int } else { n.len() as int };
        assert(n.take(l) =~= buff.take(t.len() as int).take(l));
    } else {
        match paras[0] {
            Err(e) => {
                let rest = chunk_items(buff, idx, paras.drop_first(), max_tokens, overlap);
                assert(items == seq![Err::<ChunkV, StorageError>(e)] + rest);
                assert(j > 0);
                assert forall|i: int| 0 <= i < j - 1 implies (#[trigger] rest[i]) is Err by {
                    assert(rest[i] == items[i + 1]);
                }
                assert(items[j] == rest[j - 1]);
                lemma_first_chunk_starts_with(buff, t, idx, paras.drop_first(), max_tokens, overlap, j - 1);
            },
            Ok(p) => {
                let all = buff + split_sentences(p.0, p.1);
                let cut = token_cut(all, max_tokens, 0, 0);
                lemma_token_cut_range(all, max_tokens, 0, 0);
                assert(all.take(t.len() as int) =~= t) by {
                    assert forall|i: int| 0 <= i < t.len() implies all[i] == t[i] by {
                        assert(all[i] == buff[i]);
                        assert(buff.take(t.len() as int)[i] == buff[i]);
                    }
                }
                if cut > 0 {
                    let chunked = all.take(cut);
                    let next_buff = overlap_tail(chunked, overlap) + all.skip(cut);
                    let rest = chunk_items(next_buff, idx + 1, paras.drop_first(), max_tokens, overlap);
                    let first = Ok::<ChunkV, StorageError>(make_chunk(chunked, idx));
                    assert(items == seq![first] + rest);
                    assert(items[0] is Ok);
                    assert(j == 0);
                    let n = all.take(cut);
                    let l = if t.len() <= n.len() { t.len() as int } else { n.len() as int };
                    assert(n.take(l) =~= t.take(l)) by {
                        assert forall|i: int| 0 <= i < l implies n.take(l)[i] == t.take(l)[i] by {
                            assert(all.take(t.len() as int)[i] == all[i]);
                        }
                    }
                } else {
                    assert(all.skip(cut) =~= all);
                    assert(all.take(t.len() as int) == t);
                    lemma_first_chunk_starts_with(all, t, idx, paras.drop_first(), max_tokens, overlap, j);
                }
            },
        }
    }
}

/// Consecutive chunks overlap by the last sentences of the first: the next chunk
/// begins with the last `overlap` sentences of the previous chunk (its last sentence
/// alone when it has fewer than `overlap`), as far as the next chunk goes. Failures
/// between the two chunks change nothing.
pub proof fn law_chunks_overlap(
    buff: Seq<SentenceV>,
    idx: int,
    paras: Seq<Result<(Seq<char>, int), StorageError>>,
    max_tokens: int,
    overlap: int,
    k: int,
    k2: int,
)
    requires
        0 <= overlap,
        0 <= k < k2 < chunk_items(buff, idx, paras, max_tokens, overlap).len(),
        chunk_items(buff, idx, paras, max_tokens, overlap)[k] is Ok,
        chunk_items(buff, idx, paras, max_tokens, overlap)[k2] is Ok,
        forall|i: int| k < i < k2 ==> (#[trigger] chunk_items(buff, idx, paras, max_tokens, overlap)[i]) is Err,
    ensures
        ({
            let items = chunk_items(buff, idx, paras, max_tokens, overlap);
            let prev = items[k]->Ok_0.0;
            let next = items[k2]->Ok_0.0;
            let m = if overlap <= prev.len() { overlap } else { 1 };
            let l = if m <= next.len() { m } else { next.len() as int };
            next.take(l) == prev.skip(prev.len() - m).take(l)
        }),
    decreases paras.len(),
{
    let items = chunk_items(buff, idx, paras, max_tokens, overlap);
    if paras.len() == 0 {
        assert(items.len() <= 1);
    } else {
        match paras[0] {
            Err(e) => {
                let rest = chunk_items(buff, idx, paras.drop_first(), max_tokens, overlap);
                assert(items == seq![Err::<ChunkV, StorageError>(e)] + rest);
                assert(k > 0);
                assert(items[k] == rest[k - 1]);
                assert(items[k2] == rest[k2 - 1]);
                assert forall|i: int| k - 1 < i < k2 - 1 implies (#[trigger] rest[i]) is Err by {
                    assert(rest[i] == items[i + 1]);
                }
                law_chunks_overlap(buff, idx, paras.drop_first(), max_tokens, overlap, k - 1, k2 - 1);
            },
            Ok(p) => {
                let all = buff + split_sentences(p.0, p.1);
                let cut = token_cut(all, max_tokens, 0, 0);
                lemma_token_cut_range(all, max_tokens, 0, 0);
                let chunked = all.take(cut);
                let carry = all.skip(cut);
                if cut > 0 {
                    let tail = overlap_tail(chunked, overlap);
                    let next_buff = tail + carry;
                    let rest = chunk_items(next_buff, idx + 1, paras.drop_first(), max_tokens, overlap);
                    let first = Ok::<ChunkV, StorageError>(make_chunk(chunked, idx));
                    assert(items == seq![first] + rest);
                    assert(items[k2] == rest[k2 - 1]);
                    if k == 0 {
                        let m = if overlap <= chunked.len() { overlap } else { 1 };
                        assert(tail == chunked.skip(chunked.len() - m));
                        assert(next_buff.take(tail.len() as int) =~= tail);
                        assert forall|i: int| 0 <= i < k2 - 1 implies (#[trigger] rest[i]) is Err by {
                            assert(rest[i] == items[i + 1]);
                        }
                        lemma_first_chunk_starts_with(next_buff, tail, idx + 1, paras.drop_first(), max_tokens, overlap, k2 - 1);
                    } else {
                        assert(items[k] == rest[k - 1]);
                        assert forall|i: int| k - 1 < i < k2 - 1 implies (#[trigger] rest[i]) is Err by {
                            assert(rest[i] == items[i + 1]);
                        }
                        law_chunks_overlap(next_buff, idx + 1, paras.drop_first(), max_tokens, overlap, k - 1, k2 - 1);
                    }
                } else {
                    assert(carry =~= all);
                    law_chunks_overlap(all, idx, paras.drop_first(), max_tokens, overlap, k, k2);
                }
            },
        }
    }
}

} // verus!
