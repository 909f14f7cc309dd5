//! Identifiers: UUID text and content hashes, made and checked by the `uuid` and
//! `blake3` crates.
use vstd::prelude::*;

verus! {

/// An ASCII hexadecimal digit, either case.
pub open spec fn is_hex(c: char) -> bool {
    ('0' <= c && c <= '9') || ('a' <= c && c <= 'f') || ('A' <= c && c <= 'F')
}

/// The hyphenated form: 36 characters, hyphens at positions 8, 13, 18 and 23, hex
/// digits elsewhere.
pub open spec fn hyphenated_uuid(s: Seq<char>) -> bool {
    &&& s.len() == 36
    &&& forall|i: int| 0 <= i < 36 ==> if i == 8 || i == 13 || i == 18 || i == 23 {
        #[trigger] s[i] == '-'
    } else {
        is_hex(s[i])
    }
}

/// A character equal to `c` once ASCII letters are lower-cased.
pub open spec fn ascii_ci_eq(a: char, c: char) -> bool {
    a == c || ('A' <= a && a <= 'Z' && (a as u32) + 32 == c as u32)
}

/// The text forms of a UUID that `uuid` parses: 32 hex digits; the hyphenated form;
/// the hyphenated form between braces; or the prefix "urn:uuid:", in any case,
/// followed by the hyphenated form.
pub open spec fn uuid_text(s: Seq<char>) -> bool {
    ||| (s.len() == 32 && forall|i: int| 0 <= i < 32 ==> is_hex(#[trigger] s[i]))
    ||| hyphenated_uuid(s)
    ||| (s.len() == 38 && s[0] == '{' && s[37] == '}' && hyphenated_uuid(s.subrange(1, 37)))
    ||| (s.len() == 45 && (forall|i: int| 0 <= i < 9 ==> ascii_ci_eq(#[trigger] s[i], "urn:uuid:"@[i]))
        && hyphenated_uuid(s.skip(9)))
}

/// `uuid::Uuid::parse_str(s).is_ok()`. The crate's parser accepts exactly the forms
/// that `uuid_text` describes (its source matches on the length, then checks the
/// braces or the case-insensitive URN prefix, the hyphen positions and the hex digits).
#[verifier::external_body]
pub(crate) fn uuid_parses(s: &str) -> (b: bool)
    ensures
        b == uuid_text(s@),
{
    uuid::Uuid::parse_str(s).is_ok()
}

/// `uuid::Uuid::try_parse(s).is_ok()`, which shares its parser with `parse_str`.
#[verifier::external_body]
pub(crate) fn uuid_try_parses(s: &str) -> (b: bool)
    ensures
        b == uuid_text(s@),
{
    uuid::Uuid::try_parse(s).is_ok()
}

/// `uuid::Uuid::new_v4().to_string()`: a random UUID, displayed in the hyphenated
/// form. Nothing is claimed of which UUID comes out.
#[verifier::external_body]
pub(crate) fn new_uuid_text() -> (s: String)
    ensures
        hyphenated_uuid(s@),
{
    uuid::Uuid::new_v4().to_string()
}

/// The BLAKE3 hash of a byte sequence, as lower-case hexadecimal text.
pub uninterp spec fn blake3_hex(data: Seq<u8>) -> Seq<char>;

/// `blake3::hash(data).to_hex().to_string()`: the hash is a function of the bytes
/// alone, and its hex form has 64 characters.
#[verifier::external_body]
pub(crate) fn content_hash(data: &[u8]) -> (h: String)
    ensures
        h@ == blake3_hex(data@),
        h@.len() == 64,
{
    blake3::hash(data).to_hex().to_string()
}

} // verus!
