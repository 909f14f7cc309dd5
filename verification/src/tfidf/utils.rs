//! Cutting a byte buffer after its last word delimiter.
use vstd::prelude::*;

verus! {

/// A byte after which a word is complete: space, `/`, tab, newline, `.`, `,`, `;`, `:` or `!`.
pub open spec fn is_delim_byte(b: u8) -> bool {
    b == 32 || b == 47 || b == 9 || b == 10 || b == 46 || b == 44 || b == 59 || b == 58 || b == 33
}

/// The position of the last delimiter of `buff`, or -1 when it has none.
pub open spec fn last_delim(buff: Seq<u8>) -> int
    decreases buff.len(),
{
    if buff.len() == 0 {
        -1
    } else if is_delim_byte(buff.last()) {
        buff.len() - 1
    } else {
        last_delim(buff.drop_last())
    }
}

/// The part of `buff` up to and including its last delimiter.
pub open spec fn complete_part(buff: Seq<u8>) -> Seq<u8> {
    buff.take(last_delim(buff) + 1)
}

/// The part of `buff` after its last delimiter.
pub open spec fn carry_part(buff: Seq<u8>) -> Seq<u8> {
    buff.skip(last_delim(buff) + 1)
}

/// Where the last delimiter stands: it is one, and no byte after it is.
pub proof fn lemma_last_delim(buff: Seq<u8>)
    ensures
        -1 <= last_delim(buff) < buff.len(),
        last_delim(buff) >= 0 ==> is_delim_byte(buff[last_delim(buff)]),
        forall|j: int| last_delim(buff) < j < buff.len() ==> !is_delim_byte(#[trigger] buff[j]),
    decreases buff.len(),
{
    if buff.len() > 0 {
        lemma_last_delim(buff.drop_last());
        if !is_delim_byte(buff.last()) {
            assert forall|j: int| last_delim(buff) < j < buff.len() implies !is_delim_byte(#[trigger] buff[j]) by {
                if j < buff.len() - 1 {
                    assert(buff[j] == buff.drop_last()[j]);
                }
            }
        }
    }
}

/// Cutting a buffer loses and adds nothing; the complete part is empty or ends with a
/// delimiter, and the carried part holds no delimiter.
pub proof fn law_split_complete_buffer(buff: Seq<u8>)
    ensures
        complete_part(buff) + carry_part(buff) == buff,
        complete_part(buff).len() > 0 ==> is_delim_byte(complete_part(buff).last()),
        forall|j: int| 0 <= j < carry_part(buff).len() ==> !is_delim_byte(#[trigger] carry_part(buff)[j]),
{
    lemma_last_delim(buff);
    let k = last_delim(buff);
    assert(complete_part(buff) + carry_part(buff) =~= buff);
    assert forall|j: int| 0 <= j < carry_part(buff).len() implies !is_delim_byte(#[trigger] carry_part(buff)[j]) by {
        assert(carry_part(buff)[j] == buff[k + 1 + j]);
    }
}

/// Whether `b` ends a word.
fn is_delimiter(b: &u8) -> (r: bool)
    ensures
        r == is_delim_byte(*b),
{
    let b = *b;
    b == 32 || b == 47 || b == 9 || b == 10 || b == 46 || b == 44 || b == 59 || b == 58 || b == 33
}

/// A copy of the bytes of `buff` from `from` up to `to`.
pub fn copy_range(buff: &[u8], from: usize, to: usize) -> (v: Vec<u8>)
    requires
        from <= to <= buff@.len(),
    ensures
        v@ == buff@.subrange(from as int, to as int),
{
    let mut v: Vec<u8> = Vec::new();
    let mut i = from;
    while i < to
        invariant
            from <= i <= to,
            to <= buff@.len(),
            v@ == buff@.subrange(from as int, i as int),
        decreases to - i,
    {
        v.push(buff[i]);
        i = i + 1;
        assert(v@ =~= buff@.subrange(from as int, i as int));
    }
    v
}

/// Cuts `buff` after its last delimiter: the words that are complete, and the bytes
/// that may still be part of a word.
pub fn split_complete_buffer(buff: &[u8]) -> (r: (Vec<u8>, Vec<u8>))
    ensures
        r.0@ == complete_part(buff@),
        r.1@ == carry_part(buff@),
{
    let n = buff.len();
    let mut i = n;
    assert(buff@.take(n as int) =~= buff@);
    while i > 0
        invariant
            i <= n,
            n == buff@.len(),
            last_delim(buff@) == last_delim(buff@.take(i as int)),
        decreases i,
    {
        assert(buff@.take(i as int).drop_last() =~= buff@.take(i - 1));
        assert(buff@.take(i as int).last() == buff@[i - 1]);
        if is_delimiter(&buff[i - 1]) {
            return (copy_range(buff, 0, i), copy_range(buff, i, n));
        }
        i = i - 1;
    }
    assert(buff@.take(0) =~= Seq::<u8>::empty());
    (Vec::new(), copy_range(buff, 0, n))
}

} // verus!
