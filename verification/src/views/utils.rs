//! Fitting text into fixed-width fields.
use vstd::prelude::*;

use crate::text::{
    byte_len, byte_prefix, byte_prefix_chars, chars_of, has_boundary, lemma_byte_len_ge_len,
    push_char_repeat, split_whitespace_chars, split_ws, str_len, string_from_chars, vviews,
};
use crate::views::types::AllignmentType;

verus! {

/// The three dots that mark a shortened text.
pub open spec fn ellipsis() -> Seq<char> {
    seq!['.', '.', '.']
}

/// `a - b`, or 0 when `b > a`.
pub open spec fn sat_sub(a: int, b: int) -> nat {
    if a > b { (a - b) as nat } else { 0 }
}

/// `content` kept whole when it has at most `max_letters` characters; otherwise its
/// first `max_letters - 3` bytes (saturating) followed by three dots.
pub open spec fn saturated(content: Seq<char>, max_letters: nat) -> Seq<char> {
    if content.len() > max_letters {
        byte_prefix(content, sat_sub(max_letters as int, 3) as int) + ellipsis()
    } else {
        content
    }
}

/// Shortens `content` to about `max_letters` characters, ending it with `...` when cut.
/// The cut is made at a byte offset, which must fall on a character boundary.
pub fn saturating_string(content: &str, max_letters: usize) -> (t: String)
    requires
        content@.len() > max_letters ==> has_boundary(content@, sat_sub(max_letters as int, 3) as int),
    ensures
        t@ == saturated(content@, max_letters as nat),
{
    let chars = chars_of(content);
    if chars.len() > max_letters {
        let k = if max_letters > 3 { max_letters - 3 } else { 0 };
        let prefix = byte_prefix_chars(&chars, k);
        let mut t = string_from_chars(&prefix);
        t.push('.');
        t.push('.');
        t.push('.');
        assert(t@ =~= prefix@ + ellipsis());
        t
    } else {
        string_from_chars(&chars)
    }
}

/// `n` copies of `c`.
pub open spec fn fill(c: char, n: nat) -> Seq<char> {
    Seq::new(n, |_i: int| c)
}

/// The fill on the left and on the right of a text of `length` characters
/// placed in a field `total_width` wide.
pub open spec fn align_margins(alignment: AllignmentType, total_width: nat, length: nat) -> (nat, nat) {
    let remaining = sat_sub(total_width as int, length as int);
    match alignment {
        AllignmentType::LEFT => (0, remaining),
        AllignmentType::RIGHT => (remaining, 0),
        AllignmentType::CENTER => (remaining / 2, (remaining - remaining / 2) as nat),
    }
}

/// `content` placed in a field of `total_width` characters, padded with `fill_char`.
pub open spec fn aligned(content: Seq<char>, alignment: AllignmentType, total_width: nat, fill_char: char) -> Seq<char> {
    let (left, right) = align_margins(alignment, total_width, content.len());
    fill(fill_char, left) + content + fill(fill_char, right)
}

/// Places `content` left, right or centred in a field of `total_width` characters,
/// padding with `fill_char`; a text longer than the field is kept whole.
#[allow(non_snake_case)]
pub fn alignText(content: &str, alignment: &AllignmentType, total_width: usize, fill_char: char) -> (r: String)
    ensures
        r@ == aligned(content@, *alignment, total_width as nat, fill_char),
{
    let length = chars_of(content).len();
    let remaining = if total_width > length { total_width - length } else { 0 };
    let left: usize;
    let right: usize;
    match alignment {
        AllignmentType::LEFT => {
            left = 0;
            right = remaining;
        },
        AllignmentType::RIGHT => {
            left = remaining;
            right = 0;
        },
        AllignmentType::CENTER => {
            left = remaining / 2;
            right = remaining - left;
        },
    }
    let mut r = String::new();
    push_char_repeat(&mut r, fill_char, left);
    r.push_str(content);
    push_char_repeat(&mut r, fill_char, right);
    assert(r@ =~= aligned(content@, *alignment, total_width as nat, fill_char));
    r
}

/// A text placed in a field is as wide as the field, or as itself when longer.
pub proof fn law_aligned_width(content: Seq<char>, alignment: AllignmentType, total_width: nat, fill_char: char)
    ensures
        aligned(content, alignment, total_width, fill_char).len() == if total_width > content.len() {
            total_width
        } else {
            content.len()
        },
{
}

/// The lines of a greedy word wrap so far, and the line being filled.
pub open spec fn wrap_fold(words: Seq<Seq<char>>, max_per_line: nat) -> (Seq<Seq<char>>, Seq<char>)
    decreases words.len(),
{
    if words.len() == 0 {
        (Seq::empty(), Seq::empty())
    } else {
        let (lines, current) = wrap_fold(words.drop_last(), max_per_line);
        let word = words.last();
        let lines1 = if byte_len(word) > max_per_line {
            lines.push(byte_prefix(word, max_per_line as int))
        } else {
            lines
        };
        if byte_len(current) + byte_len(word) + 1 > max_per_line {
            (lines1.push(current), word)
        } else if current.len() > 0 {
            (lines1, current.push(' ') + word)
        } else {
            (lines1, current + word)
        }
    }
}

/// The lines that `wrap_text_single_line` produces for `content`.
pub open spec fn wrapped(content: Seq<char>, max_per_line: nat) -> Seq<Seq<char>> {
    let (lines, current) = wrap_fold(split_ws(content), max_per_line);
    let all = if current.len() > 0 { lines.push(current) } else { lines };
    if all.len() == 0 {
        seq![Seq::empty()]
    } else {
        all
    }
}

/// Every word of `content` longer than `max_per_line` bytes can be cut there.
pub open spec fn long_words_cuttable(content: Seq<char>, max_per_line: nat) -> bool {
    forall|i: int|
        0 <= i < split_ws(content).len() && byte_len(#[trigger] split_ws(content)[i]) > max_per_line
            ==> has_boundary(split_ws(content)[i], max_per_line as int)
}

/// The character sequences held by a vector of strings.
pub open spec fn sviews(v: Seq<String>) -> Seq<Seq<char>> {
    v.map_values(|x: String| x@)
}

/// Greedy word wrap of `content` into lines of at most `max_per_line` bytes,
/// joining words with one space; a word longer than a line also gives a line of
/// its own first `max_per_line` bytes. There is always at least one line.
pub fn wrap_text_single_line(content: &str, max_per_line: usize) -> (lines: Vec<String>)
    requires
        long_words_cuttable(content@, max_per_line as nat),
    ensures
        sviews(lines@) == wrapped(content@, max_per_line as nat),
        lines.len() >= 1,
{
    let chars = chars_of(content);
    let words = split_whitespace_chars(&chars);
    let mut lines: Vec<String> = Vec::new();
    let mut current = String::new();
    let mut i: usize = 0;
    while i < words.len()
        invariant
            i <= words.len(),
            vviews(words@) == split_ws(content@),
            long_words_cuttable(content@, max_per_line as nat),
            (sviews(lines@), current@) == wrap_fold(vviews(words@).take(i as int), max_per_line as nat),
        decreases words.len() - i,
    {
        let ghost before = vviews(words@).take(i as int);
        assert(vviews(words@).take(i + 1).drop_last() =~= before);
        assert(vviews(words@)[i as int] == words@[i as int]@);
        let word = string_from_chars(&words[i]);
        let word_len = str_len(word.as_str());
        if word_len > max_per_line {
            let cut = byte_prefix_chars(&words[i], max_per_line);
            let ghost old_lines = lines@;
            lines.push(string_from_chars(&cut));
            assert(sviews(lines@) =~= sviews(old_lines).push(cut@));
        }
        let cur_len = str_len(current.as_str());
        let too_long = cur_len >= max_per_line || word_len >= max_per_line - cur_len;
        if too_long {
            let ghost old_lines = lines@;
            lines.push(current);
            assert(sviews(lines@) =~= sviews(old_lines).push(lines@.last()@));
            current = word;
        } else {
            if cur_len > 0 {
                current.push(' ');
            }
            current.push_str(word.as_str());
        }
        proof {
            lemma_byte_len_ge_len(current@);
        }
        i = i + 1;
    }
    assert(vviews(words@).take(words.len() as int) =~= vviews(words@));
    if !current.as_str().is_empty() {
        let ghost old_lines = lines@;
        lines.push(current);
        assert(sviews(lines@) =~= sviews(old_lines).push(lines@.last()@));
    }
    if lines.len() == 0 {
        lines.push(String::new());
        assert(sviews(lines@) =~= seq![Seq::<char>::empty()]);
    }
    lines
}

} // verus!
