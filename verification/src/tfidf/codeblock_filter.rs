//! Dropping fenced code blocks from a stream of Markdown text chunks.
use vstd::prelude::*;

use crate::storage::error::StorageError;
use crate::text::{
    all_ws, chars_all_whitespace, chars_of, chars_start_with, lines, lines_of, starts_with,
    string_from_chars, trim, trim_chars,
};
use crate::tfidf::term_counter::{item_view, items_view};

verus! {

/// A line that opens or closes a code block: once trimmed it starts with three
/// backticks, but not with the admonition marker "```ad-".
pub open spec fn is_fence(line: Seq<char>) -> bool {
    starts_with(trim(line), "```"@) && !starts_with(trim(line), "```ad-"@)
}

/// Reading the lines `ls` from inside a code block or not: whether a block is open
/// afterwards, and the text kept, each kept line followed by a newline.
pub open spec fn filter_fold(in_code: bool, ls: Seq<Seq<char>>) -> (bool, Seq<char>)
    decreases ls.len(),
{
    if ls.len() == 0 {
        (in_code, Seq::empty())
    } else {
        let (b, out) = filter_fold(in_code, ls.drop_last());
        let l = ls.last();
        if is_fence(l) {
            (!b, out)
        } else if !b {
            (b, out + l + seq!['\n'])
        } else {
            (b, out)
        }
    }
}

/// The items a filter hands on for the chunk stream `items`, starting inside a code
/// block or not: failures pass through, and a chunk is handed on filtered unless
/// nothing but whitespace is left of it.
pub open spec fn filtered_items(in_code: bool, items: Seq<Result<Seq<char>, StorageError>>) -> Seq<Result<Seq<char>, StorageError>>
    decreases items.len(),
{
    if items.len() == 0 {
        Seq::empty()
    } else {
        match items[0] {
            Err(e) => seq![Err(e)] + filtered_items(in_code, items.drop_first()),
            Ok(c) => {
                let (b, out) = filter_fold(in_code, lines(c));
                (if all_ws(out) {
                    Seq::empty()
                } else {
                    seq![Ok(out)]
                }) + filtered_items(b, items.drop_first())
            },
        }
    }
}

/// Drops the fenced code blocks of a stream of text chunks; a block may span chunks.
pub struct CodeBlockFilter {
    source: Vec<Result<String, StorageError>>,
    next_chunk: usize,
    in_code_block: bool,
}

impl CodeBlockFilter {
    /// The representation is consistent.
    pub closed spec fn wf(&self) -> bool {
        self.next_chunk <= self.source.len()
    }

    /// Whether a code block is open.
    pub closed spec fn in_code(&self) -> bool {
        self.in_code_block
    }

    /// The items still to be handed on, in order.
    pub closed spec fn remaining(&self) -> Seq<Result<Seq<char>, StorageError>> {
        filtered_items(self.in_code_block, items_view(self.source@).skip(self.next_chunk as int))
    }

    /// A filter over the chunks of `source`, outside any code block.
    pub fn new(source: Vec<Result<String, StorageError>>) -> (f: Self)
        ensures
            f.wf(),
            !f.in_code(),
            f.remaining() == filtered_items(false, items_view(source@)),
    {
        let f = CodeBlockFilter { source, next_chunk: 0, in_code_block: false };
        assert(items_view(f.source@).skip(0) =~= items_view(f.source@));
        f
    }

    /// The lines of `chunk` that are outside code blocks, each followed by a newline;
    /// the fence lines themselves are dropped and switch between inside and outside.
    pub fn filter_chunk(&mut self, chunk: &str) -> (r: String)
        ensures
            (final(self).in_code(), r@) == filter_fold(old(self).in_code(), lines(chunk@)),
            final(self).wf() == old(self).wf(),
            final(self).remaining_source() == old(self).remaining_source(),
    {
        let ls = lines_of(&chars_of(chunk));
        let fence = chars_of("```");
        let admonition = chars_of("```ad-");
        let ghost start = self.in_code_block;
        let ghost lv = crate::text::vviews(ls@);
        let mut result = String::new();
        let mut i: usize = 0;
        while i < ls.len()
            invariant
                i <= ls.len(),
                lv == crate::text::vviews(ls@),
                lv == lines(chunk@),
                fence@ == "```"@,
                admonition@ == "```ad-"@,
                (self.in_code_block, result@) == filter_fold(start, lv.take(i as int)),
                self.next_chunk == old(self).next_chunk,
                self.source == old(self).source,
            decreases ls.len() - i,
        {
            let line = &ls[i];
            assert(lv.take(i + 1).drop_last() =~= lv.take(i as int));
            assert(lv[i as int] == line@);
            let trimmed = trim_chars(line);
            if chars_start_with(&trimmed, &fence) && !chars_start_with(&trimmed, &admonition) {
                self.in_code_block = !self.in_code_block;
            } else if !self.in_code_block {
                let ghost before = result@;
                result.push_str(string_from_chars(line).as_str());
                result.push('\n');
                assert(result@ =~= before + line@ + seq!['\n']);
            }
            i = i + 1;
        }
        assert(lv.take(ls.len() as int) =~= lv);
        result
    }

    /// The chunks not yet read, as plain values.
    pub closed spec fn remaining_source(&self) -> Seq<Result<Seq<char>, StorageError>> {
        items_view(self.source@).skip(self.next_chunk as int)
    }

    /// The next filtered chunk that holds more than whitespace, or the failure of the
    /// chunk being read; `None` once the source is exhausted.
    pub fn next(&mut self) -> (r: Option<Result<String, StorageError>>)
        requires
            old(self).wf(),
        ensures
            final(self).wf(),
            old(self).remaining().len() == 0 ==> r is None && final(self).remaining().len() == 0,
            old(self).remaining().len() > 0 ==> (r matches Some(x) && item_view(x) == old(self).remaining()[0]
                && final(self).remaining() == old(self).remaining().drop_first()),
    {
        loop
            invariant
                self.wf(),
                self.remaining() == old(self).remaining(),
            decreases self.source.len() - self.next_chunk,
        {
            let ghost items = items_view(self.source@);
            if self.next_chunk >= self.source.len() {
                assert(items.skip(self.next_chunk as int) =~= Seq::<Result<Seq<char>, StorageError>>::empty());
                return None;
            }
            let k = self.next_chunk;
            let ghost b0 = self.in_code_block;
            proof {
                assert(items.skip(k as int).drop_first() =~= items.skip(k + 1));
                assert(items.skip(k as int)[0] == items[k as int]);
            }
            self.next_chunk = k + 1;
            let chunk_text: Option<String> = match &self.source[k] {
                Err(e) => {
                    let e2 = e.duplicate();
                    proof {
                        assert(self.remaining() == filtered_items(b0, items.skip(k + 1)));
                    }
                    return Some(Err(e2));
                },
                Ok(c) => Some(c.clone()),
            };
            let c = chunk_text.unwrap();
            let filtered = self.filter_chunk(c.as_str());
            if !chars_all_whitespace(&chars_of(filtered.as_str())) {
                return Some(Ok(filtered));
            }
        }
    }
}

} // verus!
