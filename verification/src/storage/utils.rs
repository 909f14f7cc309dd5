//! Text and identifiers the storage layer derives from file contents.
use vstd::prelude::*;

use crate::identifiers::{blake3_hex, content_hash};
use crate::storage::sqlite_version::TriggerTables;
use crate::text::{char_range, chars_eq, chars_of, string_from_chars, trim, trim_chars};

verus! {

/// The type given to a file whose type cannot be told.
pub const UNKNOWN_EXTENSION: &'static str = "unknown-content";

/// A character at which a sentence ends, for excerpts.
pub open spec fn is_sentence_end(c: char) -> bool {
    c == '.' || c == '!' || c == '?' || c == '\n'
}

/// The nearest position at or before `i` that holds a sentence end, or 0.
pub open spec fn back_to_end(c: Seq<char>, i: int) -> int
    decreases i,
{
    if i <= 0 {
        0
    } else if is_sentence_end(c[i]) {
        i
    } else {
        back_to_end(c, i - 1)
    }
}

/// The nearest position at or after `i` that holds a sentence end, or the length.
pub open spec fn forward_to_end(c: Seq<char>, i: int) -> int
    decreases c.len() - i,
{
    if i >= c.len() {
        i
    } else if is_sentence_end(c[i]) {
        i
    } else {
        forward_to_end(c, i + 1)
    }
}

/// The smaller of two integers.
pub open spec fn min_int(a: int, b: int) -> int {
    if a <= b {
        a
    } else {
        b
    }
}

/// The range of an excerpt from `start` to `end` widened to whole sentences: the
/// start moves back to just after a sentence end, the end moves forward to just after
/// one. When that leaves nothing, the range as given, clamped to the text.
pub open spec fn excerpt_range(c: Seq<char>, start: int, end: int) -> (int, int) {
    let total = c.len() as int;
    let s0 = back_to_end(c, min_int(start, if total >= 1 { total - 1 } else { 0 }));
    let s1 = if s0 > 0 { s0 + 1 } else { s0 };
    let e0 = forward_to_end(c, min_int(end, total));
    let e1 = if e0 < total { e0 + 1 } else { e0 };
    if s1 >= e1 {
        (min_int(start, total), min_int(end, total))
    } else {
        (s1, e1)
    }
}

/// The excerpt of `c` around `start`..`end`, trimmed; empty when the range is.
pub open spec fn excerpt(c: Seq<char>, start: int, end: int) -> Seq<char> {
    let (s, e) = excerpt_range(c, start, end);
    if s >= e || e > c.len() {
        Seq::empty()
    } else {
        trim(c.subrange(s, e))
    }
}

proof fn lemma_back_to_end(c: Seq<char>, i: int)
    requires
        0 <= i < c.len() || i == 0,
    ensures
        0 <= back_to_end(c, i) <= i,
    decreases i,
{
    if i > 0 && !is_sentence_end(c[i]) {
        lemma_back_to_end(c, i - 1);
    }
}

proof fn lemma_forward_to_end(c: Seq<char>, i: int)
    requires
        0 <= i <= c.len(),
    ensures
        i <= forward_to_end(c, i) <= c.len(),
    decreases c.len() - i,
{
    if i < c.len() && !is_sentence_end(c[i]) {
        lemma_forward_to_end(c, i + 1);
    }
}

/// Scanning back from `i` over characters that end no sentence stops at the sentence
/// end at `k`.
proof fn lemma_back_stops(c: Seq<char>, k: int, i: int)
    requires
        0 < k <= i < c.len(),
        is_sentence_end(c[k]),
        forall|j: int| k < j <= i ==> !is_sentence_end(#[trigger] c[j]),
    ensures
        back_to_end(c, i) == k,
    decreases i,
{
    if i > k {
        lemma_back_stops(c, k, i - 1);
    }
}

/// Scanning forward from `i` over characters that end no sentence stops at the
/// sentence end at `k`.
proof fn lemma_forward_stops(c: Seq<char>, k: int, i: int)
    requires
        0 <= i <= k < c.len(),
        is_sentence_end(c[k]),
        forall|j: int| i <= j < k ==> !is_sentence_end(#[trigger] c[j]),
    ensures
        forward_to_end(c, i) == k,
    decreases k - i,
{
    if i < k {
        lemma_forward_stops(c, k, i + 1);
    }
}

/// An excerpt taken inside a sentence is that whole sentence: when the text has a
/// sentence end (`.`, `!`, `?` or a newline) somewhere after its first character, then
/// characters `m` that end no sentence, then another sentence end, an excerpt whose
/// start lies in `m` and whose end lies in `m` or at the closing sentence end is `m`
/// with its closing character, trimmed. Nothing of the sentence before is included,
/// and the excerpt runs to the sentence's own end.
pub proof fn law_excerpt_is_the_sentence(
    a: Seq<char>,
    d: char,
    m: Seq<char>,
    e: char,
    z: Seq<char>,
    start: int,
    end: int,
)
    requires
        a.len() > 0,
        d == '.' || d == '!' || d == '?' || d == '\n',
        e == '.' || e == '!' || e == '?' || e == '\n',
        forall|i: int| 0 <= i < m.len() ==> m[i] != '.' && m[i] != '!' && m[i] != '?' && m[i] != '\n',
        a.len() + 1 <= start < a.len() + 1 + m.len(),
        a.len() + 1 <= end <= a.len() + 1 + m.len(),
    ensures
        excerpt(a + seq![d] + m + seq![e] + z, start, end) == trim(m.push(e)),
{
    let c = a + seq![d] + m + seq![e] + z;
    let k = a.len() as int;
    let f = (a.len() + 1 + m.len()) as int;
    assert(c[k] == d);
    assert(c[f] == e);
    assert forall|j: int| k < j < f implies !is_sentence_end(#[trigger] c[j]) by {
        assert(c[j] == m[j - k - 1]);
    }
    lemma_back_stops(c, k, start);
    lemma_forward_stops(c, f, end);
    assert(c.subrange(k + 1, f + 1) =~= m.push(e));
}

/// The text of `content` between characters `start_char` and `end_char`, widened to
/// whole sentences and trimmed.
pub fn excerpt_around(content: &str, start_char: usize, end_char: usize) -> (s: String)
    ensures
        s@ == excerpt(content@, start_char as int, end_char as int),
{
    let chars = chars_of(content);
    let total = chars.len();
    let ghost c = chars@;
    let mut real_start = if start_char < total.saturating_sub(1) {
        start_char
    } else {
        total.saturating_sub(1)
    };
    let ghost s_init = real_start as int;
    proof {
        lemma_back_to_end(c, s_init);
    }
    while real_start > 0 && !(chars[real_start] == '.' || chars[real_start] == '!' || chars[real_start] == '?'
        || chars[real_start] == '\n')
        invariant
            real_start < total || real_start == 0,
            total == c.len(),
            c == chars@,
            back_to_end(c, s_init) == back_to_end(c, real_start as int),
        decreases real_start,
    {
        real_start = real_start - 1;
    }
    if real_start > 0 {
        real_start = real_start + 1;
    }
    let mut real_end = if end_char < total {
        end_char
    } else {
        total
    };
    let ghost e_init = real_end as int;
    while real_end < total && !(chars[real_end] == '.' || chars[real_end] == '!' || chars[real_end] == '?'
        || chars[real_end] == '\n')
        invariant
            real_end <= total,
            total == c.len(),
            c == chars@,
            forward_to_end(c, e_init) == forward_to_end(c, real_end as int),
        decreases total - real_end,
    {
        real_end = real_end + 1;
    }
    if real_end < total {
        real_end = real_end + 1;
    }
    if real_start >= real_end {
        real_start = if start_char < total {
            start_char
        } else {
            total
        };
        real_end = if end_char < total {
            end_char
        } else {
            total
        };
    }
    if real_start >= real_end || real_end > total {
        return String::new();
    }
    let text = char_range(&chars, real_start, real_end);
    string_from_chars(&trim_chars(&text))
}

/// The MIME type guessed from a file name's extension, for files whose content does
/// not tell their type.
pub open spec fn mime_for_extension(ext: Option<Seq<char>>) -> Seq<char> {
    match ext {
        Some(e) => if e == "txt"@ {
            "text/plain"@
        } else if e == "csv"@ {
            "text/csv"@
        } else if e == "md"@ {
            "text/markdown"@
        } else if e == "json"@ {
            "text/json"@
        } else {
            "unknown-content"@
        },
        None => "unknown-content"@,
    }
}

/// The MIME type that `infer` recognises from the first bytes of a file, if any.
pub uninterp spec fn inferred_mime(head: Seq<u8>) -> Option<Seq<char>>;

/// `infer::Infer::new().get(head).map(|t| t.mime_type().to_string())`: which type
/// the crate's matchers recognise is a function of the bytes alone.
#[verifier::external_body]
fn infer_mime(head: &[u8]) -> (r: Option<String>)
    ensures
        match r {
            Some(m) => inferred_mime(head@) == Some(m@),
            None => inferred_mime(head@) is None,
        },
{
    infer::Infer::new().get(head).map(|t| t.mime_type().to_string())
}

/// The MIME type of a file from its first bytes `head` (at most 8192 of them, as
/// `infer` reads a file) and the extension of its name: what `infer` recognises,
/// else what the extension suggests.
pub fn get_data_extension(head: &[u8], ext: Option<&str>) -> (m: String)
    ensures
        m@ == match inferred_mime(head@) {
            Some(t) => t,
            None => mime_for_extension(
                match ext {
                    Some(e) => Some(e@),
                    None => None,
                },
            ),
        },
{
    if let Some(t) = infer_mime(head) {
        return t;
    }
    let name = match ext {
        Some(e) => {
            let c = chars_of(e);
            if chars_eq(&c, &chars_of("txt")) {
                "text/plain"
            } else if chars_eq(&c, &chars_of("csv")) {
                "text/csv"
            } else if chars_eq(&c, &chars_of("md")) {
                "text/markdown"
            } else if chars_eq(&c, &chars_of("json")) {
                "text/json"
            } else {
                UNKNOWN_EXTENSION
            }
        },
        None => UNKNOWN_EXTENSION,
    };
    string_from_chars(&chars_of(name))
}

/// The bytes of `blocks`, one after another.
pub open spec fn concat_blocks(blocks: Seq<Vec<u8>>) -> Seq<u8>
    decreases blocks.len(),
{
    if blocks.len() == 0 {
        Seq::empty()
    } else {
        concat_blocks(blocks.drop_last()) + blocks.last()@
    }
}

/// The hash of a file read in `blocks`, as hexadecimal text: the hash of all its
/// bytes, one block after another.
pub fn hash_blocks(blocks: &Vec<Vec<u8>>) -> (h: String)
    ensures
        h@ == blake3_hex(concat_blocks(blocks@)),
        h@.len() == 64,
{
    let mut data: Vec<u8> = Vec::new();
    let mut i: usize = 0;
    while i < blocks.len()
        invariant
            i <= blocks.len(),
            data@ == concat_blocks(blocks@.take(i as int)),
        decreases blocks.len() - i,
    {
        let b = &blocks[i];
        let ghost before = data@;
        let mut j: usize = 0;
        while j < b.len()
            invariant
                j <= b.len(),
                data@ == before + b@.take(j as int),
            decreases b.len() - j,
        {
            data.push(b[j]);
            j = j + 1;
            assert(data@ =~= before + b@.take(j as int));
        }
        assert(blocks@.take(i + 1).drop_last() =~= blocks@.take(i as int));
        assert(b@.take(b.len() as int) =~= b@);
        i = i + 1;
    }
    assert(blocks@.take(blocks.len() as int) =~= blocks@);
    content_hash(data.as_slice())
}

/// A time, given as whole seconds since the Unix epoch, as UTC text.
pub uninterp spec fn utc_date_text(secs: i64) -> Option<Seq<char>>;

/// `chrono::DateTime::from_timestamp(secs, 0)` formatted as `%Y-%m-%d %H:%M:%S`: the
/// text depends on the seconds alone; `None` when chrono cannot represent them.
#[verifier::external_body]
pub fn convert_datestring(secs: i64) -> (r: Option<String>)
    ensures
        match r {
            Some(s) => utc_date_text(secs) == Some(s@),
            None => utc_date_text(secs) is None,
        },
{
    chrono::DateTime::from_timestamp(secs, 0).map(|d| d.format("%Y-%m-%d %H:%M:%S").to_string())
}

/// The statement that keeps column `col` of table `table` stamped with the time of
/// each update of a row.
pub open spec fn trigger_sql(table: Seq<char>, col: Seq<char>) -> Seq<char> {
    "create trigger if not exists update_"@ + table + "_"@ + col + "\n                    after update on "@
        + table + "\n                    begin \n                    update "@ + table
        + "\n                    set "@ + col
        + " = current_timestamp\n                    where id = old.id;\n                    end;\n                "@
}

/// The statement that creates the update trigger of `t`.
pub fn updated_at_trigger_sql(t: &TriggerTables) -> (s: String)
    ensures
        s@ == trigger_sql(t.table_name@, t.col@),
{
    let mut s = string_from_chars(&chars_of("create trigger if not exists update_"));
    s.push_str(t.table_name.as_str());
    s.push_str("_");
    s.push_str(t.col.as_str());
    s.push_str("\n                    after update on ");
    s.push_str(t.table_name.as_str());
    s.push_str("\n                    begin \n                    update ");
    s.push_str(t.table_name.as_str());
    s.push_str("\n                    set ");
    s.push_str(t.col.as_str());
    s.push_str(" = current_timestamp\n                    where id = old.id;\n                    end;\n                ");
    s
}

} // verus!
