//! Paragraphs cut out of a stream of text chunks.
use vstd::prelude::*;

use crate::storage::error::StorageError;
use crate::text::{char_range, chars_of, string_from_chars};
use crate::tfidf::term_counter::items_view;

verus! {

/// A paragraph and the character position at which it starts in the stream.
pub struct TextChunk {
    pub text: String,
    pub start_char: usize,
}

/// A paragraph as plain values: its text and where it starts.
pub open spec fn chunk_view(c: TextChunk) -> (Seq<char>, int) {
    (c.text@, c.start_char as int)
}

/// A stream item of paragraphs as plain values.
pub open spec fn para_item_view(r: Result<TextChunk, StorageError>) -> Result<(Seq<char>, int), StorageError> {
    match r {
        Ok(c) => Ok(chunk_view(c)),
        Err(e) => Err(e),
    }
}

/// A blank line separator starts at `i`: two newlines in a row.
pub open spec fn para_at(s: Seq<char>, i: int) -> bool {
    0 <= i && i + 1 < s.len() && s[i] == '\n' && s[i + 1] == '\n'
}

/// The first position at or after `i` where two newlines follow each other, or -1.
pub open spec fn find_para_from(s: Seq<char>, i: int) -> int
    decreases s.len() - i,
{
    if i < 0 || i + 1 >= s.len() {
        -1
    } else if para_at(s, i) {
        i
    } else {
        find_para_from(s, i + 1)
    }
}

/// The first position where two newlines follow each other, or -1.
pub open spec fn para_index(s: Seq<char>) -> int {
    find_para_from(s, 0)
}

/// The number of characters of the successful items of a chunk stream.
pub open spec fn ok_chars(items: Seq<Result<Seq<char>, StorageError>>) -> nat
    decreases items.len(),
{
    if items.len() == 0 {
        0
    } else {
        (match items[0] {
            Ok(c) => c.len(),
            Err(_) => 0,
        }) + ok_chars(items.drop_first())
    }
}

/// The paragraphs an extractor hands on from position `pos`, with the text `carry`
/// not yet cut and the chunks `items` not yet read. A paragraph ends before the first
/// blank line separator; a separator at the very start is dropped; a failed chunk is
/// handed on and the text carried is lost; at the end of the stream what is carried
/// is handed on whole when something is left after a leading separator.
pub open spec fn extract(pos: int, carry: Seq<char>, items: Seq<Result<Seq<char>, StorageError>>) -> Seq<Result<(Seq<char>, int), StorageError>>
    decreases items.len(), carry.len(),
{
    let n = para_index(carry);
    if n > 0 {
        proof {
            lemma_find_para(carry, 0);
        }
        seq![Ok((carry.take(n), pos))] + extract(pos + n + 2, carry.skip(n + 2), items)
    } else {
        let rest = if n == 0 {
            carry.skip(2)
        } else {
            carry
        };
        if items.len() == 0 {
            if rest.len() > 0 {
                seq![Ok((carry, pos))]
            } else {
                Seq::empty()
            }
        } else {
            match items[0] {
                Ok(c) => extract(pos, rest + c, items.drop_first()),
                Err(e) => seq![Err(e)] + extract(pos, Seq::empty(), items.drop_first()),
            }
        }
    }
}

/// The search for a blank line separator finds the first one, if any.
pub proof fn lemma_find_para(s: Seq<char>, i: int)
    requires
        0 <= i,
    ensures
        find_para_from(s, i) == -1 || (i <= find_para_from(s, i) && para_at(s, find_para_from(s, i))),
        forall|j: int| i <= j && (find_para_from(s, i) == -1 || j < find_para_from(s, i)) ==> !#[trigger] para_at(s, j),
    decreases s.len() - i,
{
    if i + 1 < s.len() && !para_at(s, i) {
        lemma_find_para(s, i + 1);
    }
}

/// Cuts the paragraphs out of a stream of text chunks.
pub struct TextExtractor {
    source: Vec<Result<String, StorageError>>,
    next_chunk: usize,
    carry: Vec<char>,
    position: usize,
}

impl TextExtractor {
    /// The representation is consistent, and every position still to be handed on
    /// fits in a `usize`.
    pub closed spec fn wf(&self) -> bool {
        &&& self.next_chunk <= self.source.len()
        &&& self.position + self.carry@.len() + ok_chars(items_view(self.source@).skip(self.next_chunk as int))
            <= usize::MAX
    }

    /// The paragraphs still to be handed on, in order.
    pub closed spec fn remaining(&self) -> Seq<Result<(Seq<char>, int), StorageError>> {
        extract(self.position as int, self.carry@, items_view(self.source@).skip(self.next_chunk as int))
    }

    /// An extractor over the chunks of `source`, at position 0.
    pub fn new(source: Vec<Result<String, StorageError>>) -> (t: Self)
        requires
            ok_chars(items_view(source@)) <= usize::MAX,
        ensures
            t.wf(),
            t.remaining() == extract(0, Seq::empty(), items_view(source@)),
    {
        let t = TextExtractor { source, next_chunk: 0, carry: Vec::new(), position: 0 };
        assert(items_view(t.source@).skip(0) =~= items_view(t.source@));
        t
    }

    /// Cuts `s` at its first blank line separator: the text before it and the text
    /// after it; when there is none, nothing and the whole of `s`.
    fn split_by_para(s: &Vec<char>) -> (r: (Vec<char>, Vec<char>))
        ensures
            para_index(s@) >= 0 ==> r.0@ == s@.take(para_index(s@)) && r.1@ == s@.skip(para_index(s@) + 2),
            para_index(s@) < 0 ==> r.0@.len() == 0 && r.1@ == s@,
    {
        let mut i: usize = 0;
        while s.len() > 1 && i < s.len() - 1
            invariant
                i <= s.len(),
                find_para_from(s@, 0) == find_para_from(s@, i as int),
            decreases s.len() - i,
        {
            if s[i] == '\n' && s[i + 1] == '\n' {
                proof {
                    lemma_find_para(s@, 0);
                }
                return (char_range(s, 0, i), char_range(s, i + 2, s.len()));
            }
            i = i + 1;
        }
        proof {
            lemma_find_para(s@, 0);
        }
        (Vec::new(), char_range(s, 0, s.len()))
    }

    /// The next paragraph, or the failure of the chunk being read; `None` once the
    /// source is exhausted.
    pub fn next(&mut self) -> (r: Option<Result<TextChunk, StorageError>>)
        requires
            old(self).wf(),
        ensures
            final(self).wf(),
            old(self).remaining().len() == 0 ==> r is None && final(self).remaining().len() == 0,
            old(self).remaining().len() > 0 ==> (r matches Some(x) && para_item_view(x) == old(self).remaining()[0]
                && final(self).remaining() == old(self).remaining().drop_first()),
    {
        loop
            invariant
                self.wf(),
                self.remaining() == old(self).remaining(),
            decreases self.source.len() - self.next_chunk, self.carry@.len(),
        {
            let ghost items = items_view(self.source@);
            let ghost rest_items = items.skip(self.next_chunk as int);
            let mut carry: Vec<char> = Vec::new();
            std::mem::swap(&mut carry, &mut self.carry);
            let ghost pos = self.position as int;
            let (complete, carry_p) = Self::split_by_para(&carry);
            proof {
                lemma_find_para(carry@, 0);
            }
            if complete.len() > 0 {
                let n = complete.len();
                self.carry = carry_p;
                let start = self.position;
                self.position = self.position + n + 2;
                let text = string_from_chars(&complete);
                proof {
                    let rem = extract(pos, carry@, rest_items);
                    assert(rem == seq![Ok::<(Seq<char>, int), StorageError>((carry@.take(n as int), pos))] + extract(
                        pos + n + 2,
                        carry@.skip(n + 2),
                        rest_items,
                    ));
                    assert(rem.drop_first() =~= extract(pos + n + 2, carry@.skip(n + 2), rest_items));
                }
                return Some(Ok(TextChunk { text, start_char: start }));
            }
            if self.next_chunk >= self.source.len() {
                assert(rest_items =~= Seq::<Result<Seq<char>, StorageError>>::empty());
                if carry_p.len() > 0 {
                    let start = self.position;
                    self.position = self.position + carry_p.len();
                    let text = string_from_chars(&carry);
                    proof {
                        let e: Seq<Result<Seq<char>, StorageError>> = Seq::empty();
                        assert(self.carry@ =~= Seq::<char>::empty());
                        assert(para_index(self.carry@) == -1);
                        assert(extract(self.position as int, self.carry@, e) =~= Seq::empty());
                    }
                    return Some(Ok(TextChunk { text, start_char: start }));
                }
                proof {
                    assert(self.carry@ =~= Seq::<char>::empty());
                    assert(para_index(self.carry@) == -1);
                }
                return None;
            }
            let k = self.next_chunk;
            proof {
                assert(rest_items.drop_first() =~= items.skip(k + 1));
                assert(rest_items[0] == items[k as int]);
            }
            self.next_chunk = k + 1;
            match &self.source[k] {
                Ok(chunk) => {
                    let mut c = carry_p;
                    let mut cs = chars_of(chunk.as_str());
                    let ghost before = c@;
                    c.append(&mut cs);
                    assert(c@ == before + chunk@);
                    self.carry = c;
                },
                Err(e) => {
                    let e2 = e.duplicate();
                    proof {
                        assert(self.carry@ =~= Seq::<char>::empty());
                    }
                    return Some(Err(e2));
                },
            }
        }
    }
}

} // verus!
