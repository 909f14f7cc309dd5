//! The embedding table of the database, and reading its dimensions back.
use vstd::prelude::*;

use crate::codex::config_access::{digit_value, digits_value, is_digit, parse_unsigned, parsed_unsigned};
use crate::text::{char_range, chars_of, decimal, digit_char, string_from_chars, usize_to_string};

verus! {

/// The statement text before the dimensions of the embedding table.
pub open spec fn embeddings_sql_head() -> Seq<char> {
    "\n        CREATE VIRTUAL TABLE IF NOT EXISTS chunk_embeddings USING vec0(\n            chunk_id TEXT,\n            embedding FLOAT["@
}

/// The statement text after the dimensions of the embedding table.
pub open spec fn embeddings_sql_tail() -> Seq<char> {
    "] distance_metric=cosine,\n        );\n        "@
}

/// The statement that creates the embedding table for vectors of `dims` dimensions.
pub open spec fn embeddings_sql(dims: nat) -> Seq<char> {
    embeddings_sql_head() + decimal(dims) + embeddings_sql_tail()
}

/// The statement that creates the embedding table for vectors of `dims` dimensions.
pub fn embeddings_table_sql(dims: u32) -> (s: String)
    ensures
        s@ == embeddings_sql(dims as nat),
{
    let mut s = string_from_chars(
        &chars_of(
            "\n        CREATE VIRTUAL TABLE IF NOT EXISTS chunk_embeddings USING vec0(\n            chunk_id TEXT,\n            embedding FLOAT[",
        ),
    );
    s.push_str(usize_to_string(dims as usize).as_str());
    s.push_str("] distance_metric=cosine,\n        );\n        ");
    s
}

/// `p` occurs in `s` at position `i`.
pub open spec fn occurs_at(s: Seq<char>, p: Seq<char>, i: int) -> bool {
    0 <= i && i + p.len() <= s.len() && s.subrange(i, i + p.len()) == p
}

/// The first position at or after `i` where `p` occurs in `s`, or -1.
pub open spec fn find_from(s: Seq<char>, p: Seq<char>, i: int) -> int
    decreases s.len() + 1 - i,
{
    if i < 0 || i + p.len() > s.len() {
        -1
    } else if occurs_at(s, p, i) {
        i
    } else {
        find_from(s, p, i + 1)
    }
}

/// `s.split(p).nth(1)`: the text between the first and the second occurrence of `p`
/// (or the end), when `p` occurs.
pub open spec fn second_piece(s: Seq<char>, p: Seq<char>) -> Option<Seq<char>> {
    let k = find_from(s, p, 0);
    if k < 0 {
        None
    } else {
        let rest = s.skip(k + p.len());
        let k2 = find_from(rest, p, 0);
        Some(if k2 < 0 { rest } else { rest.take(k2) })
    }
}

/// `s.split(c).next()`: the text before the first `c`, or all of it.
pub open spec fn first_piece(s: Seq<char>, c: char) -> Seq<char> {
    let k = find_from(s, seq![c], 0);
    if k < 0 {
        s
    } else {
        s.take(k)
    }
}

/// The dimensions written in a table statement: the number between the first
/// `FLOAT[` and the next `]`, when it is a `u32`.
pub open spec fn dims_in_schema(schema: Seq<char>) -> Option<nat> {
    match second_piece(schema, "FLOAT["@) {
        None => None,
        Some(piece) => parsed_unsigned(first_piece(piece, ']'), u32::MAX as nat),
    }
}

proof fn lemma_find_from_range(s: Seq<char>, p: Seq<char>, i: int)
    requires
        0 <= i,
    ensures
        find_from(s, p, i) == -1 || (i <= find_from(s, p, i) && occurs_at(s, p, find_from(s, p, i))),
        forall|j: int| i <= j && (find_from(s, p, i) == -1 || j < find_from(s, p, i)) ==> !#[trigger] occurs_at(s, p, j),
    decreases s.len() + 1 - i,
{
    if i + p.len() <= s.len() && !occurs_at(s, p, i) {
        lemma_find_from_range(s, p, i + 1);
    }
}

/// The first position of `p` in `s` at or after `from`, or `None`.
fn find_chars(s: &Vec<char>, p: &Vec<char>, from: usize) -> (r: Option<usize>)
    requires
        from <= s.len(),
    ensures
        match r {
            Some(k) => k as int == find_from(s@, p@, from as int),
            None => find_from(s@, p@, from as int) == -1,
        },
{
    let mut i = from;
    proof {
        lemma_find_from_range(s@, p@, from as int);
    }
    while p.len() <= s.len() && i <= s.len() - p.len()
        invariant
            from <= i <= s.len(),
            find_from(s@, p@, from as int) == find_from(s@, p@, i as int),
        decreases s.len() + 1 - i,
    {
        let mut j: usize = 0;
        let mut same = true;
        while j < p.len()
            invariant
                j <= p.len(),
                i + p.len() <= s.len(),
                same == (forall|m: int| 0 <= m < j ==> s@[i + m] == #[trigger] p@[m]),
            decreases p.len() - j,
        {
            if same && s[i + j] != p[j] {
                same = false;
            }
            j = j + 1;
        }
        proof {
            if same {
                assert(s@.subrange(i as int, i + p.len()) =~= p@);
            } else {
                let m = choose|m: int| 0 <= m < p.len() && s@[i + m] != #[trigger] p@[m];
                assert(s@.subrange(i as int, i + p.len())[m] != p@[m]);
            }
        }
        if same {
            return Some(i);
        }
        i = i + 1;
    }
    None
}

/// The dimensions of the embedding table, read from the statement that created it.
pub fn dims_from_schema(schema: &str) -> (r: Option<u32>)
    ensures
        match dims_in_schema(schema@) {
            Some(n) => r == Some(n as u32),
            None => r is None,
        },
{
    let s = chars_of(schema);
    let pat = chars_of("FLOAT[");
    let k = match find_chars(&s, &pat, 0) {
        Some(k) => k,
        None => return None,
    };
    proof {
        lemma_find_from_range(s@, pat@, 0);
        assert(occurs_at(s@, pat@, k as int));
        assert(k + pat@.len() <= s@.len());
    }
    assert(k + pat.len() <= s.len());
    let rest = char_range(&s, k + pat.len(), s.len());
    assert(rest@ =~= s@.skip(k + pat@.len()));
    let piece = match find_chars(&rest, &pat, 0) {
        Some(k2) => {
            proof {
                lemma_find_from_range(rest@, pat@, 0);
            }
            let r = char_range(&rest, 0, k2);
            assert(r@ =~= rest@.take(k2 as int));
            r
        },
        None => {
            let r = char_range(&rest, 0, rest.len());
            assert(r@ =~= rest@);
            r
        },
    };
    assert(second_piece(s@, "FLOAT["@) == Some(piece@));
    let close = chars_of("]");
    proof {
        reveal_strlit("]");
        assert(close@ =~= seq![']']);
    }
    let num = match find_chars(&piece, &close, 0) {
        Some(k3) => {
            proof {
                lemma_find_from_range(piece@, close@, 0);
            }
            let r = char_range(&piece, 0, k3);
            assert(r@ =~= piece@.take(k3 as int));
            r
        },
        None => {
            let r = char_range(&piece, 0, piece.len());
            assert(r@ =~= piece@);
            r
        },
    };
    assert(num@ == first_piece(piece@, ']'));
    match parse_unsigned(string_from_chars(&num).as_str(), 4294967295) {
        Some(n) => Some(n as u32),
        None => None,
    }
}

proof fn lemma_find_first(s: Seq<char>, p: Seq<char>, i: int, k: int)
    requires
        0 <= i <= k,
        occurs_at(s, p, k),
        forall|j: int| i <= j < k ==> !#[trigger] occurs_at(s, p, j),
    ensures
        find_from(s, p, i) == k,
    decreases k - i,
{
    if i < k {
        assert(!occurs_at(s, p, i));
        lemma_find_first(s, p, i + 1, k);
    }
}

proof fn lemma_digit_char(k: nat)
    requires
        k < 10,
    ensures
        is_digit(digit_char(k)),
        digit_value(digit_char(k)) == k,
{
}

/// The decimal notation of a number is made of digits, and reads back as the number.
pub proof fn lemma_decimal_digits(n: nat)
    ensures
        decimal(n).len() >= 1,
        forall|i: int| 0 <= i < decimal(n).len() ==> is_digit(#[trigger] decimal(n)[i]),
        digits_value(decimal(n)) == n,
    decreases n,
{
    if n < 10 {
        lemma_digit_char(n);
        let d = decimal(n);
        assert(d.drop_last() =~= Seq::<char>::empty());
        assert(digits_value(d.drop_last()) == 0);
        assert(d.last() == digit_char(n));
        assert(digits_value(d) == digits_value(d.drop_last()) * 10 + digit_value(d.last()));
    } else {
        lemma_decimal_digits(n / 10);
        lemma_digit_char(n % 10);
        let d = decimal(n);
        assert(d.drop_last() =~= decimal(n / 10));
        assert((n / 10) * 10 + n % 10 == n) by (nonlinear_arith);
        assert(d.last() == digit_char(n % 10));
        assert(digits_value(d) == digits_value(d.drop_last()) * 10 + digit_value(d.last()));
        assert forall|i: int| 0 <= i < d.len() implies is_digit(#[trigger] d[i]) by {
            if i < d.len() - 1 {
                assert(d[i] == decimal(n / 10)[i]);
            }
        }
    }
}

/// The dimensions are read back from the statement that creates the embedding table
/// for them.
pub proof fn law_dims_roundtrip(d: nat)
    requires
        d <= u32::MAX,
    ensures
        dims_in_schema(embeddings_sql(d)) == Some(d),
{
    reveal_strlit(
        "\n        CREATE VIRTUAL TABLE IF NOT EXISTS chunk_embeddings USING vec0(\n            chunk_id TEXT,\n            embedding FLOAT[",
    );
    reveal_strlit("] distance_metric=cosine,\n        );\n        ");
    reveal_strlit("FLOAT[");
    let h = embeddings_sql_head();
    let t = embeddings_sql_tail();
    let dec = decimal(d);
    let s = embeddings_sql(d);
    let f = "FLOAT["@;
    let hl = h.len() as int;
    lemma_decimal_digits(d);
    assert(f.len() == 6);
    assert(f[5] == '[');
    assert forall|i: int| 0 <= i < hl - 1 implies h[i] != '[' by {}
    assert forall|i: int| 0 <= i < t.len() implies t[i] != '[' by {}
    assert(t[0] == ']');
    assert(s.subrange(hl - 6, hl) =~= f);
    assert forall|j: int| 0 <= j < hl - 6 implies !#[trigger] occurs_at(s, f, j) by {
        if occurs_at(s, f, j) {
            assert(s.subrange(j, j + 6)[5] == f[5]);
            assert(s[j + 5] == h[j + 5]);
        }
    }
    lemma_find_first(s, f, 0, hl - 6);
    let rest = s.skip(hl);
    assert(rest =~= dec + t);
    assert forall|j: int| 0 <= j implies !#[trigger] occurs_at(rest, f, j) by {
        if occurs_at(rest, f, j) {
            assert(rest.subrange(j, j + 6)[5] == f[5]);
            if j + 5 < dec.len() {
                assert(rest[j + 5] == dec[j + 5]);
            } else {
                assert(rest[j + 5] == t[j + 5 - dec.len()]);
            }
        }
    }
    lemma_find_from_range(rest, f, 0);
    let close = seq![']'];
    assert(rest.subrange(dec.len() as int, dec.len() as int + 1) =~= close);
    assert forall|j: int| 0 <= j < dec.len() implies !#[trigger] occurs_at(rest, close, j) by {
        if occurs_at(rest, close, j) {
            assert(rest.subrange(j, j + 1)[0] == close[0]);
            assert(rest[j] == dec[j]);
        }
    }
    lemma_find_first(rest, close, 0, dec.len() as int);
    assert(rest.take(dec.len() as int) =~= dec);
    assert(second_piece(s, f) == Some(rest));
    assert(first_piece(rest, ']') == dec);
    assert(crate::codex::config_access::unsigned_digits(dec) == dec);
}

} // verus!
