//! Splitting a paragraph into sentences.
use vstd::prelude::*;

use crate::text::{
    all_ws, byte_len, char_byte_width, char_is_numeric, chars_all_whitespace, chars_eq, chars_of,
    is_numeric_char, is_whitespace_char, is_ws, lemma_byte_len_append, lemma_byte_len_push, str_len,
    string_from_chars,
};
use crate::tfidf::text_extractor::TextChunk;

verus! {

/// A sentence and the character positions at which it starts and ends.
#[derive(Clone, Debug)]
pub struct Sentence {
    pub text: String,
    pub start_char: usize,
    pub end_char: usize,
}

/// Splits paragraphs into sentences.
pub struct SentenceSplitter;

/// A sentence as plain values: text, start, end.
pub open spec fn sentence_view(s: Sentence) -> (Seq<char>, int, int) {
    (s.text@, s.start_char as int, s.end_char as int)
}

/// The plain values of a vector of sentences.
pub open spec fn sentences_view(v: Seq<Sentence>) -> Seq<(Seq<char>, int, int)> {
    v.map_values(|s: Sentence| sentence_view(s))
}

/// The characters that can end a sentence.
pub open spec fn is_delimiter(c: char) -> bool {
    c == '.' || c == '!' || c == '?' || c == ';' || c == '\n'
}

/// The abbreviations after which a period does not end a sentence.
pub open spec fn abbreviations() -> Seq<Seq<char>> {
    seq!["Mr"@, "Mrs"@, "Ms"@, "Dr"@, "Prof"@, "Sr"@, "Jr"@, "vs"@, "etc"@]
}

/// A period after `word` ends a sentence unless `word` is a known abbreviation, a
/// single capital letter, or made only of numeric characters (the empty word too).
pub open spec fn should_split_period(word: Seq<char>) -> bool {
    &&& !abbreviations().contains(word)
    &&& !(byte_len(word) == 1 && 'A' <= word[0] && word[0] <= 'Z')
    &&& !(forall|i: int| 0 <= i < word.len() ==> char_is_numeric(#[trigger] word[i]))
}

/// The state of the sentence scan: inside quotes, sentences so far, the sentence being
/// read, where it starts, the word being read, and whether no position overflowed.
pub type SplitState = (bool, Seq<(Seq<char>, int, int)>, Seq<char>, int, Seq<char>, bool);

/// One step of the scan: character `c` at byte offset `idx`.
pub open spec fn split_step(st: SplitState, idx: int, c: char) -> SplitState {
    let (q0, done, curr, start, word, ok) = st;
    let q = if c == '"' { !q0 } else { q0 };
    if q {
        (q, done, curr.push(c), start, word, ok)
    } else if is_delimiter(c) {
        let cur2 = curr.push(c);
        let end = start + cur2.len();
        if c == '.' {
            if should_split_period(word) {
                (q, done.push((cur2, start, end)), Seq::empty(), end + idx, Seq::empty(),
                    ok && end <= usize::MAX && end + idx <= usize::MAX)
            } else {
                (q, done, cur2, start, Seq::empty(), ok)
            }
        } else {
            (q, done.push((cur2, start, end)), Seq::empty(), end, Seq::empty(), ok && end <= usize::MAX)
        }
    } else if is_ws(c) {
        (q, done, curr.push(c), start, Seq::empty(), ok)
    } else {
        (q, done, curr.push(c), start, word.push(c), ok)
    }
}

/// The scan state after the characters of `s`, starting at position `start`.
pub open spec fn split_fold(s: Seq<char>, start: int) -> SplitState
    decreases s.len(),
{
    if s.len() == 0 {
        (false, Seq::empty(), Seq::empty(), start, Seq::empty(), true)
    } else {
        split_step(split_fold(s.drop_last(), start), byte_len(s.drop_last()) as int, s.last())
    }
}

/// The sentences of `text`, whose first character is at position `start`: the
/// sentences of the scan, and the unfinished one when it is not only whitespace.
pub open spec fn split_sentences(text: Seq<char>, start: int) -> Seq<(Seq<char>, int, int)> {
    let (_q, done, curr, st, _w, _ok) = split_fold(text, start);
    if !all_ws(curr) {
        done.push((curr, st, st + curr.len()))
    } else {
        done
    }
}

/// No position computed while splitting `text` exceeds `usize::MAX`.
pub open spec fn split_fits(text: Seq<char>, start: int) -> bool {
    let (_q, _done, curr, st, _w, ok) = split_fold(text, start);
    ok && (!all_ws(curr) ==> st + curr.len() <= usize::MAX)
}

/// The texts of `ss`, one after another.
pub open spec fn joined(ss: Seq<(Seq<char>, int, int)>) -> Seq<char>
    decreases ss.len(),
{
    if ss.len() == 0 {
        Seq::empty()
    } else {
        joined(ss.drop_last()) + ss.last().0
    }
}

proof fn lemma_joined_push(ss: Seq<(Seq<char>, int, int)>, x: (Seq<char>, int, int))
    ensures
        joined(ss.push(x)) == joined(ss) + x.0,
{
    assert(ss.push(x).drop_last() =~= ss);
}

proof fn lemma_fold_ok_prefix(s: Seq<char>, start: int, i: int)
    requires
        0 <= i <= s.len(),
        split_fold(s, start).5,
    ensures
        split_fold(s.take(i), start).5,
    decreases s.len() - i,
{
    if i < s.len() {
        assert(s.drop_last().take(i) =~= s.take(i));
        lemma_fold_ok_prefix(s.drop_last(), start, i);
    } else {
        assert(s.take(i) =~= s);
    }
}

/// The scan keeps every character: the finished sentences followed by the one being
/// read spell out what was read so far.
proof fn lemma_fold_joined(s: Seq<char>, start: int)
    ensures
        joined(split_fold(s, start).1) + split_fold(s, start).2 == s,
    decreases s.len(),
{
    if s.len() > 0 {
        lemma_fold_joined(s.drop_last(), start);
        let st = split_fold(s.drop_last(), start);
        let c = s.last();
        assert(s =~= s.drop_last().push(c));
        lemma_joined_push(st.1, (st.2.push(c), st.3, st.3 + st.2.len() + 1));
        assert(joined(st.1) + st.2.push(c) =~= (joined(st.1) + st.2).push(c));
    }
}

/// Splitting loses and adds nothing: the sentences, followed by a tail made only of
/// whitespace, spell out the paragraph.
pub proof fn law_split_keeps_text(text: Seq<char>, start: int)
    ensures
        exists|rest: Seq<char>| all_ws(rest) && #[trigger] (joined(split_sentences(text, start)) + rest) == text,
{
    lemma_fold_joined(text, start);
    let st = split_fold(text, start);
    if !all_ws(st.2) {
        lemma_joined_push(st.1, (st.2, st.3, st.3 + st.2.len()));
        assert(all_ws(Seq::<char>::empty()));
        assert(joined(split_sentences(text, start)) + Seq::<char>::empty() =~= text);
    } else {
        assert(joined(split_sentences(text, start)) + st.2 == text);
    }
}

/// `c` is none of the characters that can end a sentence or open a quote.
pub open spec fn plain_char(c: char) -> bool {
    c != '"' && c != '.' && c != '!' && c != '?' && c != ';' && c != '\n'
}

/// Over text without quotes or sentence ends, the scan keeps reading one sentence.
proof fn lemma_fold_plain(a: Seq<char>, start: int)
    requires
        forall|i: int| 0 <= i < a.len() ==> plain_char(#[trigger] a[i]),
    ensures
        !split_fold(a, start).0,
        split_fold(a, start).1 == Seq::<(Seq<char>, int, int)>::empty(),
        split_fold(a, start).2 == a,
        split_fold(a, start).3 == start,
    decreases a.len(),
{
    if a.len() > 0 {
        assert(plain_char(a[a.len() - 1]));
        lemma_fold_plain(a.drop_last(), start);
        assert(a.drop_last().push(a.last()) =~= a);
    }
}

/// Reading more text never changes the sentences already finished.
proof fn lemma_fold_keeps_done(p: Seq<char>, b: Seq<char>, start: int)
    ensures
        split_fold(p + b, start).1.len() >= split_fold(p, start).1.len(),
        forall|i: int| 0 <= i < split_fold(p, start).1.len() ==> #[trigger] split_fold(p + b, start).1[i]
            == split_fold(p, start).1[i],
    decreases b.len(),
{
    if b.len() == 0 {
        assert(p + b =~= p);
    } else {
        lemma_fold_keeps_done(p, b.drop_last(), start);
        assert((p + b).drop_last() =~= p + b.drop_last());
    }
}

/// Every `!`, `?`, `;` or newline outside quotes ends a sentence: when text without
/// quotes or sentence ends is followed by one of them, the first sentence is that
/// text with the closing character, starting at `start`, whatever follows.
pub proof fn law_delimiter_ends_sentence(a: Seq<char>, d: char, b: Seq<char>, start: int)
    requires
        d == '!' || d == '?' || d == ';' || d == '\n',
        forall|i: int| 0 <= i < a.len() ==> plain_char(#[trigger] a[i]),
    ensures
        split_sentences(a + seq![d] + b, start).len() >= 1,
        split_sentences(a + seq![d] + b, start)[0] == (a.push(d), start, start + a.len() + 1),
{
    let p = a.push(d);
    lemma_fold_plain(a, start);
    assert(p.drop_last() =~= a);
    assert(split_fold(p, start).1 == seq![(a.push(d), start, start + a.len() + 1)]);
    assert(a + seq![d] + b =~= p + b);
    lemma_fold_keeps_done(p, b, start);
}

/// Letters read after a space (or at the start) are the word being read.
proof fn lemma_fold_word(p: Seq<char>, w: Seq<char>, start: int)
    requires
        p.len() == 0 || p.last() == ' ',
        forall|i: int| 0 <= i < p.len() ==> plain_char(#[trigger] p[i]),
        forall|i: int| 0 <= i < w.len() ==> 'a' <= #[trigger] w[i] && w[i] <= 'z',
    ensures
        split_fold(p + w, start).4 == w,
    decreases w.len(),
{
    if w.len() == 0 {
        assert(p + w =~= p);
        if p.len() > 0 {
            lemma_fold_plain(p.drop_last(), start);
        }
    } else {
        lemma_fold_word(p, w.drop_last(), start);
        assert((p + w).drop_last() =~= p + w.drop_last());
        assert((p + w).last() == w.last());
        assert(w.drop_last().push(w.last()) =~= w);
        let pw = p + w.drop_last();
        assert forall|i: int| 0 <= i < pw.len() implies plain_char(#[trigger] pw[i]) by {
            if i >= p.len() {
                assert(pw[i] == w[i - p.len()]);
            }
        }
        lemma_fold_plain(pw, start);
    }
}

/// A period after a word of two or more lower-case letters that is not `vs` or `etc`
/// (and not numeric, which no letter is) ends a sentence: the first sentence is the
/// text up to and including that period.
pub proof fn law_period_ends_sentence(p: Seq<char>, w: Seq<char>, b: Seq<char>, start: int)
    requires
        p.len() == 0 || p.last() == ' ',
        forall|i: int| 0 <= i < p.len() ==> plain_char(#[trigger] p[i]),
        w.len() >= 2,
        forall|i: int| 0 <= i < w.len() ==> 'a' <= #[trigger] w[i] && w[i] <= 'z',
        w != "vs"@,
        w != "etc"@,
        !char_is_numeric(w[0]),
    ensures
        split_sentences(p + w + seq!['.'] + b, start).len() >= 1,
        split_sentences(p + w + seq!['.'] + b, start)[0] == ((p + w).push('.'), start, start + p.len() + w.len()
            + 1),
{
    let a = p + w;
    assert forall|i: int| 0 <= i < a.len() implies plain_char(#[trigger] a[i]) by {
        if i >= p.len() {
            assert(a[i] == w[i - p.len()]);
        }
    }
    lemma_fold_plain(a, start);
    lemma_fold_word(p, w, start);
    reveal_strlit("Mr");
    reveal_strlit("Mrs");
    reveal_strlit("Ms");
    reveal_strlit("Dr");
    reveal_strlit("Prof");
    reveal_strlit("Sr");
    reveal_strlit("Jr");
    reveal_strlit("vs");
    reveal_strlit("etc");
    assert(!abbreviations().contains(w)) by {
        if abbreviations().contains(w) {
            let i = choose|i: int| 0 <= i < abbreviations().len() && abbreviations()[i] == w;
            if i < 7 {
                assert(abbreviations()[i][0] == w[0]);
            }
        }
    }
    crate::text::lemma_byte_len_ge_len(w);
    assert(should_split_period(w));
    let q = a.push('.');
    assert(q.drop_last() =~= a);
    assert(split_fold(q, start).1 == seq![(a.push('.'), start, start + a.len() + 1)]);
    assert(a + seq!['.'] + b =~= q + b);
    lemma_fold_keeps_done(q, b, start);
}

/// Inside an opened quote, everything up to the next quote is read into the sentence.
proof fn lemma_fold_quoted(x: Seq<char>, start: int)
    requires
        forall|i: int| 0 <= i < x.len() ==> #[trigger] x[i] != '"',
    ensures
        split_fold(seq!['"'] + x, start).0,
        split_fold(seq!['"'] + x, start).1 == Seq::<(Seq<char>, int, int)>::empty(),
        split_fold(seq!['"'] + x, start).2 == seq!['"'] + x,
        split_fold(seq!['"'] + x, start).3 == start,
    decreases x.len(),
{
    let t = seq!['"'] + x;
    if x.len() == 0 {
        assert(t =~= seq!['"']);
        assert(t.drop_last() =~= Seq::<char>::empty());
        assert(t.last() == '"');
        let st0 = split_fold(t.drop_last(), start);
        assert(st0 == split_fold(Seq::<char>::empty(), start));
        assert(!st0.0);
    } else {
        assert(x[x.len() - 1] != '"');
        assert(t.last() == x.last());
        lemma_fold_quoted(x.drop_last(), start);
        assert(t.drop_last() =~= seq!['"'] + x.drop_last());
        assert((seq!['"'] + x.drop_last()).push(x.last()) =~= t);
    }
}

/// Sentence ends inside double quotes end no sentence: a paragraph that opens a quote
/// and holds no other quote is one sentence, whatever `.`, `!`, `?`, `;` or newlines
/// it holds.
pub proof fn law_quoted_text_is_one_sentence(x: Seq<char>, start: int)
    requires
        forall|i: int| 0 <= i < x.len() ==> #[trigger] x[i] != '"',
    ensures
        split_sentences(seq!['"'] + x, start) == seq![(seq!['"'] + x, start, start + x.len() + 1)],
{
    lemma_fold_quoted(x, start);
    let t = seq!['"'] + x;
    assert(t[0] == '"');
    assert(!all_ws(t)) by {
        assert(!is_ws(t[0]));
    }
}

/// Whether a period after `word` ends a sentence.
fn judge_should_split_period(word: &Vec<char>) -> (b: bool)
    ensures
        b == should_split_period(word@),
{
    let abbrs: [&str; 9] = ["Mr", "Mrs", "Ms", "Dr", "Prof", "Sr", "Jr", "vs", "etc"];
    let mut k: usize = 0;
    while k < 9
        invariant
            k <= 9,
            abbrs@ == seq!["Mr", "Mrs", "Ms", "Dr", "Prof", "Sr", "Jr", "vs", "etc"],
            forall|m: int| 0 <= m < k ==> abbreviations()[m] != word@,
        decreases 9 - k,
    {
        let a = chars_of(abbrs[k]);
        if chars_eq(&a, word) {
            assert(abbreviations()[k as int] == word@);
            return false;
        }
        k = k + 1;
    }
    assert(!abbreviations().contains(word@)) by {
        if abbreviations().contains(word@) {
            let m = choose|m: int| 0 <= m < abbreviations().len() && abbreviations()[m] == word@;
            assert(abbreviations()[m] != word@);
        }
    }
    let w = string_from_chars(word);
    let single = str_len(w.as_str()) == 1;
    if single {
        proof {
            crate::text::lemma_byte_len_ge_len(word@);
            if word@.len() == 0 {
                assert(word@ =~= Seq::<char>::empty());
            }
        }
        if 'A' <= word[0] && word[0] <= 'Z' {
            return false;
        }
    }
    let mut i: usize = 0;
    while i < word.len()
        invariant
            i <= word.len(),
            forall|m: int| 0 <= m < i ==> char_is_numeric(#[trigger] word@[m]),
            !abbreviations().contains(word@),
            !(byte_len(word@) == 1 && 'A' <= word@[0] && word@[0] <= 'Z'),
        decreases word.len() - i,
    {
        if !is_numeric_char(word[i]) {
            assert(!char_is_numeric(word@[i as int]));
            return true;
        }
        i = i + 1;
    }
    false
}

/// Whether `c` can end a sentence.
fn delimiter_checks(c: char) -> (b: bool)
    ensures
        b == is_delimiter(c),
{
    c == '.' || c == '!' || c == '?' || c == ';' || c == '\n'
}

impl SentenceSplitter {
    /// The sentences of a paragraph. A sentence ends after `.`, `!`, `?`, `;` or a
    /// newline that is not between double quotes; a period after an abbreviation, a
    /// single capital or a number does not end one. A sentence that ends with a period
    /// moves the start of the next one by the period's byte offset, and a tail made only
    /// of whitespace is dropped.
    pub fn split(para: &TextChunk) -> (sentences: Vec<Sentence>)
        requires
            split_fits(para.text@, para.start_char as int),
        ensures
            sentences_view(sentences@) == split_sentences(para.text@, para.start_char as int),
    {
        match Self::try_split(para) {
            Some(v) => v,
            None => Vec::new(),
        }
    }

    /// The sentences of a paragraph as `split` gives them, or `None` when a position
    /// would not fit in a `usize`.
    pub fn try_split(para: &TextChunk) -> (r: Option<Vec<Sentence>>)
        ensures
            r is Some <==> split_fits(para.text@, para.start_char as int),
            r matches Some(sentences) ==> sentences_view(sentences@) == split_sentences(
                para.text@,
                para.start_char as int,
            ),
    {
        let text = chars_of(para.text.as_str());
        let total_bytes = str_len(para.text.as_str());
        let ghost s = para.text@;
        let ghost st0 = para.start_char as int;
        let mut is_quote = false;
        let mut sentences: Vec<Sentence> = Vec::new();
        let mut curr: Vec<char> = Vec::new();
        let mut start_char: usize = para.start_char;
        let mut last_word: Vec<char> = Vec::new();
        let mut idx: usize = 0;
        let mut i: usize = 0;
        while i < text.len()
            invariant
                text@ == s,
                s == para.text@,
                st0 == para.start_char,
                total_bytes == byte_len(s),
                total_bytes <= isize::MAX,
                i <= text.len(),
                idx as int == byte_len(s.take(i as int)),
                split_fold(s.take(i as int), st0) == (is_quote, sentences_view(sentences@), curr@,
                    start_char as int, last_word@, true),
            decreases text.len() - i,
        {
            let c = text[i];
            let ghost pre = s.take(i as int);
            assert(s.take(i + 1).drop_last() =~= pre);
            assert(s.take(i + 1).last() == c);
            proof {
                if split_fold(s, st0).5 {
                    lemma_fold_ok_prefix(s, st0, i + 1);
                }
                assert(s.take(i + 1) =~= pre.push(c));
                lemma_byte_len_push(pre, c);
                lemma_byte_len_append(s.take(i + 1), s.skip(i + 1));
                assert(s.take(i + 1) + s.skip(i + 1) =~= s);
            }
            let ghost next = split_fold(s.take(i + 1), st0);
            if c == '"' {
                is_quote = !is_quote;
            }
            if is_quote {
                curr.push(c);
            } else if delimiter_checks(c) {
                if c == '.' {
                    if judge_should_split_period(&last_word) {
                        curr.push(c);
                        last_word = Vec::new();
                        let end_char = match start_char.checked_add(curr.len()) {
                            Some(v) => v,
                            None => {
                                return None;
                            },
                        };
                        let ghost old_sentences = sentences@;
                        sentences.push(Sentence { text: string_from_chars(&curr), start_char, end_char });
                        assert(sentences_view(sentences@) =~= sentences_view(old_sentences).push(
                            sentence_view(sentences@.last()),
                        ));
                        curr = Vec::new();
                        start_char = match end_char.checked_add(idx) {
                            Some(v) => v,
                            None => {
                                return None;
                            },
                        };
                    } else {
                        curr.push(c);
                        last_word = Vec::new();
                    }
                } else {
                    curr.push(c);
                    last_word = Vec::new();
                    let end_char = match start_char.checked_add(curr.len()) {
                        Some(v) => v,
                        None => {
                            return None;
                        },
                    };
                    let ghost old_sentences = sentences@;
                    sentences.push(Sentence { text: string_from_chars(&curr), start_char, end_char });
                    assert(sentences_view(sentences@) =~= sentences_view(old_sentences).push(
                        sentence_view(sentences@.last()),
                    ));
                    curr = Vec::new();
                    start_char = end_char;
                }
            } else if is_whitespace_char(c) {
                last_word = Vec::new();
                curr.push(c);
            } else {
                last_word.push(c);
                curr.push(c);
            }
            idx = idx + char_byte_width(c);
            i = i + 1;
            assert(split_fold(s.take(i as int), st0) == (is_quote, sentences_view(sentences@), curr@,
                start_char as int, last_word@, true));
        }
        assert(s.take(text.len() as int) =~= s);
        if !chars_all_whitespace(&curr) {
            let end_char = match start_char.checked_add(curr.len()) {
                Some(v) => v,
                None => {
                    return None;
                },
            };
            let ghost old_sentences = sentences@;
            sentences.push(Sentence { text: string_from_chars(&curr), start_char, end_char });
            assert(sentences_view(sentences@) =~= sentences_view(old_sentences).push(
                sentence_view(sentences@.last()),
            ));
        }
        Some(sentences)
    }
}

} // verus!
