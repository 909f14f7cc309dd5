//! Lower-case word tokens of a stream of text chunks.
use vstd::prelude::*;

use crate::storage::error::StorageError;
use crate::text::{
    char_is_alphanumeric, chars_of, is_alphanumeric_char, is_ascii_punct,
    is_ascii_punctuation_char, is_whitespace_char, is_ws, lowercase, reversed, string_from_chars,
    to_lowercase_str,
};
use crate::tfidf::term_counter::{item_view, items_view};

verus! {

/// A character at which a chunk is cut into pieces: whitespace or ASCII punctuation.
pub open spec fn is_token_sep(c: char) -> bool {
    is_ws(c) || is_ascii_punct(c)
}

/// The state of a left-to-right scan that cuts at separators: the non-empty pieces
/// completed so far and the piece being read.
pub open spec fn sep_fold(s: Seq<char>) -> (Seq<Seq<char>>, Seq<char>)
    decreases s.len(),
{
    if s.len() == 0 {
        (Seq::empty(), Seq::empty())
    } else {
        let (w, cur) = sep_fold(s.drop_last());
        let c = s.last();
        if is_token_sep(c) {
            if cur.len() > 0 {
                (w.push(cur), Seq::empty())
            } else {
                (w, cur)
            }
        } else {
            (w, cur.push(c))
        }
    }
}

/// The maximal runs of non-separator characters of `s`, in order.
pub open spec fn pieces(s: Seq<char>) -> Seq<Seq<char>> {
    let (w, cur) = sep_fold(s);
    if cur.len() > 0 {
        w.push(cur)
    } else {
        w
    }
}

/// Every character of `w` is alphanumeric.
pub open spec fn all_alnum(w: Seq<char>) -> bool {
    forall|i: int| 0 <= i < w.len() ==> char_is_alphanumeric(#[trigger] w[i])
}

/// The lower-cased pieces that are made of alphanumeric characters only.
pub open spec fn keep_tokens(ps: Seq<Seq<char>>) -> Seq<Seq<char>>
    decreases ps.len(),
{
    if ps.len() == 0 {
        Seq::empty()
    } else {
        let t = keep_tokens(ps.drop_last());
        let w = lowercase(ps.last());
        if all_alnum(w) {
            t.push(w)
        } else {
            t
        }
    }
}

/// The tokens of one chunk of text.
pub open spec fn chunk_tokens(chunk: Seq<char>) -> Seq<Seq<char>> {
    keep_tokens(pieces(chunk))
}

/// The character sequences of a list of strings.
pub open spec fn strs(v: Seq<String>) -> Seq<Seq<char>> {
    v.map_values(|s: String| s@)
}

/// A token as a successful stream item.
pub open spec fn ok_item(t: Seq<char>) -> Result<Seq<char>, StorageError> {
    Ok(t)
}

/// What one chunk item of the source contributes to the token stream: its tokens,
/// or the failure itself.
pub open spec fn item_tokens(item: Result<Seq<char>, StorageError>) -> Seq<Result<Seq<char>, StorageError>> {
    match item {
        Ok(c) => chunk_tokens(c).map_values(|t: Seq<char>| ok_item(t)),
        Err(e) => seq![Err(e)],
    }
}

/// The token stream of a stream of chunks.
pub open spec fn tokens_of_items(items: Seq<Result<Seq<char>, StorageError>>) -> Seq<Result<Seq<char>, StorageError>>
    decreases items.len(),
{
    if items.len() == 0 {
        Seq::empty()
    } else {
        item_tokens(items[0]) + tokens_of_items(items.drop_first())
    }
}

/// Pushes the lower-cased `piece` onto `out` when it is made of alphanumeric characters.
fn push_token(out: &mut Vec<String>, piece: &Vec<char>)
    ensures
        strs(final(out)@) == if all_alnum(lowercase(piece@)) {
            strs(old(out)@).push(lowercase(piece@))
        } else {
            strs(old(out)@)
        },
{
    let s = string_from_chars(piece);
    let low = to_lowercase_str(s.as_str());
    let lc = chars_of(low.as_str());
    let mut ok = true;
    let mut j: usize = 0;
    while j < lc.len()
        invariant
            j <= lc.len(),
            lc@ == lowercase(piece@),
            ok == (forall|k: int| 0 <= k < j ==> char_is_alphanumeric(#[trigger] lc@[k])),
        decreases lc.len() - j,
    {
        if !is_alphanumeric_char(lc[j]) {
            ok = false;
        }
        j = j + 1;
    }
    if ok {
        let ghost before = out@;
        out.push(low);
        assert(strs(out@) =~= strs(before).push(lowercase(piece@)));
    }
}

/// Splits a stream of text chunks into lower-case word tokens.
pub struct Tokenizer {
    source: Vec<Result<String, StorageError>>,
    next_chunk: usize,
    pending: Vec<String>,
}

impl Tokenizer {
    /// The representation is consistent.
    pub closed spec fn wf(&self) -> bool {
        self.next_chunk <= self.source.len()
    }

    /// The items that the tokenizer has still to yield, in order.
    pub closed spec fn remaining(&self) -> Seq<Result<Seq<char>, StorageError>> {
        strs(self.pending@.reverse()).map_values(|t: Seq<char>| ok_item(t)) + tokens_of_items(
            items_view(self.source@).skip(self.next_chunk as int),
        )
    }

    /// A tokenizer over the chunks of `source`.
    pub fn new(source: Vec<Result<String, StorageError>>) -> (t: Self)
        ensures
            t.wf(),
            t.remaining() == tokens_of_items(items_view(source@)),
    {
        let t = Tokenizer { source, next_chunk: 0, pending: Vec::new() };
        assert(items_view(t.source@).skip(0) =~= items_view(t.source@));
        assert(strs(t.pending@.reverse()).map_values(|x: Seq<char>| ok_item(x)) =~= Seq::empty());
        assert(t.remaining() =~= tokens_of_items(items_view(source@)));
        t
    }

    /// The tokens of one chunk: the text is cut at whitespace and ASCII punctuation,
    /// each non-empty piece is lower-cased, and the pieces that are not made of
    /// alphanumeric characters only are dropped.
    pub fn tokenize_chunk(chunk: &str) -> (tokens: Vec<String>)
        ensures
            strs(tokens@) == chunk_tokens(chunk@),
    {
        let cs = chars_of(chunk);
        let mut out: Vec<String> = Vec::new();
        let mut cur: Vec<char> = Vec::new();
        let ghost mut done: Seq<Seq<char>> = Seq::empty();
        let mut i: usize = 0;
        while i < cs.len()
            invariant
                i <= cs.len(),
                cs@ == chunk@,
                sep_fold(cs@.take(i as int)) == (done, cur@),
                strs(out@) == keep_tokens(done),
            decreases cs.len() - i,
        {
            let c = cs[i];
            assert(cs@.take(i as int + 1).drop_last() =~= cs@.take(i as int));
            if is_whitespace_char(c) || is_ascii_punctuation_char(c) {
                if cur.len() > 0 {
                    push_token(&mut out, &cur);
                    proof {
                        assert(done.push(cur@).drop_last() =~= done);
                        done = done.push(cur@);
                    }
                    cur = Vec::new();
                }
            } else {
                cur.push(c);
            }
            i = i + 1;
        }
        assert(cs@.take(cs.len() as int) =~= cs@);
        if cur.len() > 0 {
            push_token(&mut out, &cur);
            assert(done.push(cur@).drop_last() =~= done);
        }
        out
    }

    /// The next token, or the failure of the chunk being read; `None` once the
    /// source is exhausted.
    pub fn next(&mut self) -> (r: Option<Result<String, StorageError>>)
        requires
            old(self).wf(),
        ensures
            final(self).wf(),
            old(self).remaining().len() == 0 ==> r is None && final(self).remaining().len() == 0,
            old(self).remaining().len() > 0 ==> (r matches Some(x) && item_view(x) == old(self).remaining()[0]
                && final(self).remaining() == old(self).remaining().drop_first()),
    {
        loop
            invariant
                self.wf(),
                self.remaining() == old(self).remaining(),
            decreases self.source.len() - self.next_chunk,
        {
            if self.pending.len() > 0 {
                let ghost before = self.pending@;
                let tok = self.pending.pop().unwrap();
                proof {
                    assert(before.reverse() =~= seq![tok].add(self.pending@.reverse()));
                    let rest = tokens_of_items(items_view(self.source@).skip(self.next_chunk as int));
                    let pre = strs(before.reverse()).map_values(|t: Seq<char>| ok_item(t));
                    let post = strs(self.pending@.reverse()).map_values(|t: Seq<char>| ok_item(t));
                    assert(pre =~= seq![ok_item(tok@)] + post);
                    assert((pre + rest).drop_first() =~= post + rest);
                }
                return Some(Ok(tok));
            }
            proof {
                assert(strs(self.pending@.reverse()).map_values(|t: Seq<char>| ok_item(t)) =~= Seq::empty());
                assert(self.remaining() =~= tokens_of_items(items_view(self.source@).skip(self.next_chunk as int)));
            }
            if self.next_chunk >= self.source.len() {
                assert(items_view(self.source@).skip(self.next_chunk as int) =~= Seq::empty());
                return None;
            }
            let k = self.next_chunk;
            let ghost items = items_view(self.source@);
            proof {
                assert(items.skip(k as int).drop_first() =~= items.skip(k + 1));
                assert(items.skip(k as int)[0] == items[k as int]);
            }
            self.next_chunk = k + 1;
            match &self.source[k] {
                Err(e) => {
                    let e2 = e.duplicate();
                    proof {
                        assert(item_tokens(items[k as int]) =~= seq![Err::<Seq<char>, StorageError>(e2)]);
                    }
                    return Some(Err(e2));
                },
                Ok(chunk) => {
                    let toks = Self::tokenize_chunk(chunk.as_str());
                    let rev = reversed(toks);
                    proof {
                        assert(rev@.reverse() =~= toks@);
                        assert(strs(rev@.reverse()).map_values(|t: Seq<char>| ok_item(t))
                            =~= item_tokens(items[k as int]));
                    }
                    self.pending = rev;
                },
            }
        }
    }
}

/// Every token of a chunk is made of alphanumeric characters only.
pub proof fn law_tokens_alphanumeric(chunk: Seq<char>)
    ensures
        forall|i: int| 0 <= i < chunk_tokens(chunk).len() ==> all_alnum(#[trigger] chunk_tokens(chunk)[i]),
{
    lemma_keep_tokens_alnum(pieces(chunk));
}

proof fn lemma_keep_tokens_alnum(ps: Seq<Seq<char>>)
    ensures
        forall|i: int| 0 <= i < keep_tokens(ps).len() ==> all_alnum(#[trigger] keep_tokens(ps)[i]),
    decreases ps.len(),
{
    if ps.len() > 0 {
        lemma_keep_tokens_alnum(ps.drop_last());
        let t = keep_tokens(ps.drop_last());
        assert forall|i: int| 0 <= i < keep_tokens(ps).len() implies all_alnum(#[trigger] keep_tokens(ps)[i]) by {
            if i < t.len() {
                assert(keep_tokens(ps)[i] == t[i]);
            }
        }
    }
}


/// Scanning after text that ends between pieces starts afresh: the pieces of `p`
/// followed by those of `s`.
proof fn lemma_sep_fold_append(p: Seq<char>, s: Seq<char>)
    requires
        sep_fold(p).1.len() == 0,
    ensures
        sep_fold(p + s).0 == sep_fold(p).0 + sep_fold(s).0,
        sep_fold(p + s).1 == sep_fold(s).1,
    decreases s.len(),
{
    if s.len() == 0 {
        assert(p + s =~= p);
        assert(sep_fold(p).0 + Seq::<Seq<char>>::empty() =~= sep_fold(p).0);
        assert(sep_fold(p).1 =~= Seq::<char>::empty());
    } else {
        let s0 = s.drop_last();
        lemma_sep_fold_append(p, s0);
        assert((p + s).drop_last() =~= p + s0);
        assert((p + s).last() == s.last());
        let (w0, cur0) = sep_fold(s0);
        assert((sep_fold(p).0 + w0).push(cur0) =~= sep_fold(p).0 + w0.push(cur0));
    }
}

/// The tokens kept from two lists of pieces, one after the other.
proof fn lemma_keep_tokens_append(x: Seq<Seq<char>>, y: Seq<Seq<char>>)
    ensures
        keep_tokens(x + y) == keep_tokens(x) + keep_tokens(y),
    decreases y.len(),
{
    if y.len() == 0 {
        assert(x + y =~= x);
        assert(keep_tokens(x) + Seq::<Seq<char>>::empty() =~= keep_tokens(x));
    } else {
        lemma_keep_tokens_append(x, y.drop_last());
        assert((x + y).drop_last() =~= x + y.drop_last());
        assert((x + y).last() == y.last());
        let w = lowercase(y.last());
        assert((keep_tokens(x) + keep_tokens(y.drop_last())).push(w) =~= keep_tokens(x) + keep_tokens(
            y.drop_last(),
        ).push(w));
    }
}

/// Cutting a text just after a separator (or at its start) does not change its
/// tokens: those of the first part followed by those of the second. As the chunk
/// reader cuts the bytes just after delimiters, all of which are separators, the
/// tokens of a text do not depend on where it was cut into chunks.
pub proof fn law_tokens_split_at_separator(a: Seq<char>, b: Seq<char>)
    requires
        a.len() == 0 || is_token_sep(a.last()),
    ensures
        chunk_tokens(a + b) == chunk_tokens(a) + chunk_tokens(b),
{
    assert(sep_fold(a).1.len() == 0);
    lemma_sep_fold_append(a, b);
    assert(pieces(a) == sep_fold(a).0);
    let (wb, cb) = sep_fold(b);
    if cb.len() > 0 {
        assert(pieces(a + b) =~= pieces(a) + pieces(b));
    } else {
        assert(pieces(a + b) =~= pieces(a) + pieces(b));
    }
    lemma_keep_tokens_append(pieces(a), pieces(b));
}


/// Every byte at which the chunk reader may cut (space, tab, newline and `/.,;:!`)
/// is, as a character, a token separator.
pub proof fn law_delimiters_are_separators(b: u8)
    requires
        crate::tfidf::utils::is_delim_byte(b),
    ensures
        is_token_sep(b as char),
{
}


/// Appending a separator to a text closes its last piece and adds no piece.
proof fn lemma_pieces_sep_end(a: Seq<char>, c: char)
    requires
        is_token_sep(c),
    ensures
        pieces(a.push(c)) == pieces(a),
        sep_fold(a.push(c)).1.len() == 0,
{
    assert(a.push(c).drop_last() =~= a);
}

/// Every ASCII whitespace or punctuation character separates tokens: a text with
/// such a character in the middle has the tokens of the part before it followed by
/// the tokens of the part after it, so a word next to any ASCII punctuation (brackets,
/// quotes, dashes, ...) is a token of its own.
pub proof fn law_ascii_punctuation_separates(a: Seq<char>, c: char, b: Seq<char>)
    requires
        ('!' <= c && c <= '/') || (':' <= c && c <= '@') || ('[' <= c && c <= '`') || ('{' <= c && c <= '~')
            || ('\t' <= c && c <= '\r') || c == ' ',
    ensures
        chunk_tokens(a + seq![c] + b) == chunk_tokens(a) + chunk_tokens(b),
{
    assert(is_token_sep(c));
    lemma_pieces_sep_end(a, c);
    assert(a + seq![c] =~= a.push(c));
    law_tokens_split_at_separator(a.push(c), b);
    assert(chunk_tokens(a.push(c)) == chunk_tokens(a));
}

} // verus!
