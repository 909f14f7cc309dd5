//! The tokens of a file read in blocks are the tokens of its whole text: the chunk
//! reader cuts only just after delimiter bytes, which are ASCII separators, so no
//! token is split and the block size makes no difference.
use vstd::prelude::*;
use vstd::utf8::{
    decode_utf8, encode_scalar, encode_utf8, encode_utf8_decode_utf8, encode_utf8_valid_utf8, has_width_1_encoding,
    valid_utf8,
};

use crate::storage::error::StorageError;
use crate::tfidf::chunkreader::{bytes_read, chunks_match, raw_chunks};
use crate::tfidf::term_counter::items_view;
use crate::tfidf::tokenizer::{chunk_tokens, is_token_sep, law_tokens_split_at_separator, ok_item, tokens_of_items};
use crate::tfidf::utils::{carry_part, complete_part, is_delim_byte, law_split_complete_buffer};

verus! {

/// Tokens as successful stream items.
pub open spec fn ok_tokens(ts: Seq<Seq<char>>) -> Seq<Result<Seq<char>, StorageError>> {
    ts.map_values(|t: Seq<char>| ok_item(t))
}

/// No read failed.
pub open spec fn all_reads_ok(reads: Seq<Result<Seq<u8>, StorageError>>) -> bool {
    forall|i: int| 0 <= i < reads.len() ==> (#[trigger] reads[i]) is Ok
}

/// Setting the high bit of a byte gives a byte of at least `0x80`.
proof fn lemma_high_bits(y: u8)
    by (bit_vector)
    ensures
        (0xC0u8 | y) >= 0x80u8,
        (0xE0u8 | y) >= 0x80u8,
        (0xF0u8 | y) >= 0x80u8,
        (0x80u8 | y) >= 0x80u8,
{
}

/// A one-byte scalar is encoded as its own value.
proof fn lemma_low_byte(s: u32)
    by (bit_vector)
    requires
        s <= 0x7F,
    ensures
        ((s & 0x7F) as u8) as u32 == s,
{
}

/// Every byte of a character encoded in more than one byte is at least `0x80`.
proof fn lemma_multibyte_high(c: char)
    requires
        !has_width_1_encoding(c as u32),
    ensures
        forall|i: int| 0 <= i < encode_scalar(c as u32).len() ==> #[trigger] encode_scalar(c as u32)[i] >= 0x80,
{
    let s = c as u32;
    lemma_high_bits(((s >> 6) & 0x1F) as u8);
    lemma_high_bits(((s >> 12) & 0x0F) as u8);
    lemma_high_bits(((s >> 18) & 0x7) as u8);
    lemma_high_bits((s & 0x3F) as u8);
    lemma_high_bits(((s >> 6) & 0x3F) as u8);
    lemma_high_bits(((s >> 12) & 0x3F) as u8);
}

/// The encoding of text that is not empty is not empty.
proof fn lemma_encode_nonempty(text: Seq<char>)
    requires
        text.len() > 0,
    ensures
        encode_utf8(text).len() > 0,
        encode_utf8(text) == encode_scalar(text[0] as u32) + encode_utf8(text.drop_first()),
        1 <= encode_scalar(text[0] as u32).len() <= 4,
{
}

/// Cutting the encoding of `text` just after an ASCII byte cuts `text` between two
/// characters: the `k` characters before the cut encode to the bytes before it, and
/// the last of them is that ASCII byte.
proof fn lemma_ascii_cut(text: Seq<char>, x: Seq<u8>, y: Seq<u8>) -> (k: int)
    requires
        encode_utf8(text) == x + y,
        x.len() > 0,
        x.last() < 0x80,
    ensures
        1 <= k <= text.len(),
        x == encode_utf8(text.take(k)),
        y == encode_utf8(text.skip(k)),
        text[k - 1] as u32 == x.last() as u32,
    decreases text.len(),
{
    if text.len() == 0 {
        assert(encode_utf8(text).len() == 0);
        assert((x + y).len() > 0);
        assert(false);
        0
    } else {
        lemma_encode_nonempty(text);
        let e0 = encode_scalar(text[0] as u32);
        let rest = text.drop_first();
        if x.len() <= e0.len() {
            assert(x.last() == (x + y)[x.len() - 1]);
            assert(x.last() == e0[x.len() - 1]);
            if !has_width_1_encoding(text[0] as u32) {
                lemma_multibyte_high(text[0]);
                assert(e0[x.len() - 1] >= 0x80);
                assert(false);
            }
            assert(e0.len() == 1);
            lemma_low_byte(text[0] as u32);
            assert(x =~= e0) by {
                assert(x[0] == (x + y)[0]);
            }
            assert(y =~= encode_utf8(rest)) by {
                assert forall|i: int| 0 <= i < y.len() implies y[i] == encode_utf8(rest)[i] by {
                    assert(y[i] == (x + y)[i + 1]);
                }
            }
            lemma_encode_nonempty(text.take(1));
            assert(text.take(1).drop_first() =~= Seq::<char>::empty());
            assert(encode_utf8(text.take(1)) =~= e0);
            assert(text.skip(1) =~= rest);
            1
        } else {
            let x2 = x.skip(e0.len() as int);
            assert(x =~= e0 + x2) by {
                assert forall|i: int| 0 <= i < e0.len() implies x[i] == e0[i] by {
                    assert(x[i] == (x + y)[i]);
                }
            }
            assert(encode_utf8(rest) =~= x2 + y) by {
                assert(e0 + encode_utf8(rest) == e0 + (x2 + y));
                assert forall|i: int| 0 <= i < encode_utf8(rest).len() implies encode_utf8(rest)[i] == (x2 + y)[i] by {
                    assert((e0 + encode_utf8(rest))[i + e0.len()] == (e0 + (x2 + y))[i + e0.len()]);
                }
            }
            assert(x2.last() == x.last());
            let k2 = lemma_ascii_cut(rest, x2, y);
            let k = k2 + 1;
            let t = text.take(k);
            lemma_encode_nonempty(t);
            assert(t.drop_first() =~= rest.take(k2));
            assert(t[0] == text[0]);
            assert(x =~= encode_utf8(t));
            assert(text.skip(k) =~= rest.skip(k2));
            assert(text[k - 1] == rest[k2 - 1]);
            k
        }
    }
}

/// A character whose value is a delimiter byte is a token separator.
proof fn lemma_delim_char(ch: char, b: u8)
    requires
        is_delim_byte(b),
        ch as u32 == b as u32,
    ensures
        is_token_sep(ch),
{
}

/// The tokens of a text are those of its first part and then those of the rest, as
/// stream items.
proof fn lemma_ok_tokens_append(a: Seq<Seq<char>>, b: Seq<Seq<char>>)
    ensures
        ok_tokens(a + b) == ok_tokens(a) + ok_tokens(b),
{
    assert(ok_tokens(a + b) =~= ok_tokens(a) + ok_tokens(b));
}

/// The chunks a reader carrying `carry` hands on for reads that all succeed, when
/// the carried bytes and the rest of the file encode `text`, give exactly the tokens
/// of `text`.
pub proof fn lemma_chunks_give_text_tokens(
    carry: Seq<u8>,
    reads: Seq<Result<Seq<u8>, StorageError>>,
    text: Seq<char>,
    chunks: Seq<Result<String, StorageError>>,
)
    requires
        all_reads_ok(reads),
        carry + bytes_read(reads) == encode_utf8(text),
        chunks_match(chunks, raw_chunks(carry, reads)),
    ensures
        tokens_of_items(items_view(chunks)) == ok_tokens(chunk_tokens(text)),
    decreases reads.len(),
{
    let raw = raw_chunks(carry, reads);
    if reads.len() == 0 || (reads[0] matches Ok(b) && b.len() == 0) {
        assert(bytes_read(reads) == Seq::<u8>::empty());
        assert(carry =~= encode_utf8(text));
        if carry.len() > 0 {
            encode_utf8_valid_utf8(text);
            encode_utf8_decode_utf8(text);
            assert(raw[0] == Ok::<Seq<u8>, StorageError>(carry));
            let s = chunks[0]->Ok_0;
            assert(s@ == text);
            assert(items_view(chunks) =~= seq![Ok::<Seq<char>, StorageError>(text)]);
            let iv = items_view(chunks);
            assert(iv.drop_first() =~= Seq::<Result<Seq<char>, StorageError>>::empty());
            assert(tokens_of_items(iv.drop_first()) == Seq::<Result<Seq<char>, StorageError>>::empty());
            assert(tokens_of_items(iv) =~= ok_tokens(chunk_tokens(text)));
        } else {
            if text.len() > 0 {
                lemma_encode_nonempty(text);
            }
            assert(text =~= Seq::<char>::empty());
            assert(items_view(chunks) =~= Seq::<Result<Seq<char>, StorageError>>::empty());
            assert(chunk_tokens(text) =~= Seq::<Seq<char>>::empty());
            assert(ok_tokens(chunk_tokens(text)) =~= Seq::<Result<Seq<char>, StorageError>>::empty());
        }
    } else {
        assert(reads[0] is Ok);
        let b = reads[0]->Ok_0;
        let rest = reads.drop_first();
        assert(all_reads_ok(rest)) by {
            assert forall|i: int| 0 <= i < rest.len() implies (#[trigger] rest[i]) is Ok by {
                assert(rest[i] == reads[i + 1]);
            }
        }
        let br = bytes_read(rest);
        assert(bytes_read(reads) == b + br);
        let buf = carry + b;
        let c = complete_part(buf);
        let cp = carry_part(buf);
        law_split_complete_buffer(buf);
        let rest_raw = raw_chunks(cp, rest);
        if c.len() > 0 {
            assert(raw == seq![Ok::<Seq<u8>, StorageError>(c)] + rest_raw);
            assert(encode_utf8(text) =~= c + (cp + br)) by {
                assert(c + cp == buf);
                assert(carry + (b + br) =~= (carry + b) + br);
                assert((c + cp) + br =~= c + (cp + br));
            }
            let k = lemma_ascii_cut(text, c, cp + br);
            let head = text.take(k);
            let tail = text.skip(k);
            encode_utf8_valid_utf8(head);
            encode_utf8_decode_utf8(head);
            assert(raw[0] == Ok::<Seq<u8>, StorageError>(c));
            let s0 = chunks[0]->Ok_0;
            assert(s0@ == head);
            let more = chunks.drop_first();
            assert(chunks_match(more, rest_raw)) by {
                assert forall|i: int| 0 <= i < rest_raw.len() implies match #[trigger] rest_raw[i] {
                    Err(e) => more[i] == Err::<String, StorageError>(e),
                    Ok(bb) => crate::tfidf::chunkreader::decoded(more[i], bb),
                } by {
                    assert(rest_raw[i] == raw[i + 1]);
                    assert(more[i] == chunks[i + 1]);
                }
            }
            lemma_chunks_give_text_tokens(cp, rest, tail, more);
            let iv = items_view(chunks);
            assert(iv.drop_first() =~= items_view(more));
            assert(iv[0] == Ok::<Seq<char>, StorageError>(head));
            assert(tokens_of_items(iv) == crate::tfidf::tokenizer::item_tokens(iv[0]) + tokens_of_items(iv.drop_first()));
            assert(crate::tfidf::tokenizer::item_tokens(iv[0]) =~= ok_tokens(chunk_tokens(head)));
            lemma_delim_char(text[k - 1], c.last());
            assert(head.last() == text[k - 1]);
            law_tokens_split_at_separator(head, tail);
            assert(head + tail =~= text);
            lemma_ok_tokens_append(chunk_tokens(head), chunk_tokens(tail));
        } else {
            assert(raw =~= rest_raw);
            assert(cp =~= buf) by {
                assert(c + cp == buf);
                assert(c =~= Seq::<u8>::empty());
            }
            assert(cp + br =~= encode_utf8(text)) by {
                assert(carry + (b + br) =~= (carry + b) + br);
            }
            lemma_chunks_give_text_tokens(cp, rest, text, chunks);
        }
    }
}

/// The tokens of a file read in blocks, when no read fails and its bytes are valid
/// UTF-8, are the tokens of its whole text: how the bytes were split into blocks
/// makes no difference.
pub proof fn law_tokens_of_whole_text(
    reads: Seq<Result<Seq<u8>, StorageError>>,
    chunks: Seq<Result<String, StorageError>>,
)
    requires
        all_reads_ok(reads),
        valid_utf8(bytes_read(reads)),
        chunks_match(chunks, raw_chunks(Seq::empty(), reads)),
    ensures
        tokens_of_items(items_view(chunks)) == ok_tokens(chunk_tokens(decode_utf8(bytes_read(reads)))),
{
    let bytes = bytes_read(reads);
    vstd::utf8::decode_utf8_encode_utf8(bytes);
    assert(Seq::<u8>::empty() + bytes =~= bytes);
    lemma_chunks_give_text_tokens(Seq::empty(), reads, decode_utf8(bytes), chunks);
}

} // verus!
