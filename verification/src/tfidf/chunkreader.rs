//! Turning the blocks read from a file into text chunks that end at a word boundary.
use vstd::prelude::*;
use vstd::utf8::{decode_utf8, valid_utf8};

use crate::storage::error::StorageError;
use crate::text::{chars_of, reversed, string_from_chars};
use crate::tfidf::utils::{carry_part, complete_part, copy_range, split_complete_buffer};

verus! {

/// `std::str::from_utf8` followed by `to_owned`: std documents that it gives the text
/// that `bytes` encode, and fails exactly when they are not valid UTF-8.
#[verifier::external_body]
fn utf8_text(bytes: &[u8]) -> (r: Option<String>)
    ensures
        match r {
            Some(s) => valid_utf8(bytes@) && s@ == decode_utf8(bytes@),
            None => !valid_utf8(bytes@),
        },
{
    match std::str::from_utf8(bytes) {
        Ok(s) => Some(s.to_owned()),
        Err(_) => None,
    }
}

/// The failure given for a chunk that is not valid UTF-8.
pub open spec fn utf8_failure(e: StorageError) -> bool {
    e matches StorageError::Corrupt(m) && m@ == "invalid utf-8 in carry"@
}

/// `r` is the text that `bytes` encode, or the failure for bytes that are not UTF-8.
pub open spec fn decoded(r: Result<String, StorageError>, bytes: Seq<u8>) -> bool {
    if valid_utf8(bytes) {
        r matches Ok(s) && s@ == decode_utf8(bytes)
    } else {
        r matches Err(e) && utf8_failure(e)
    }
}

/// The failure for a chunk that is not valid UTF-8.
pub fn utf8_error() -> (e: StorageError)
    ensures
        utf8_failure(e),
{
    StorageError::Corrupt(string_from_chars(&chars_of("invalid utf-8 in carry")))
}

/// The text of a chunk of bytes.
fn decode_chunk(bytes: &[u8]) -> (r: Result<String, StorageError>)
    ensures
        decoded(r, bytes@),
{
    match utf8_text(bytes) {
        Some(s) => Ok(s),
        None => Err(utf8_error()),
    }
}

/// What a read of the file leads to.
pub enum ReadStep {
    /// A chunk to hand on, or the failure of the read.
    Chunk(Result<String, StorageError>),
    /// The file is exhausted and nothing is left to hand on.
    Finished,
    /// No complete word yet: read again.
    NeedMore,
}

/// The decisions of a chunked file reader: the bytes read since the last complete
/// word, and whether the end of the file was seen. The caller reads the file and
/// hands each read to `on_read`.
pub struct ChunkReader {
    carry: Vec<u8>,
    done: bool,
}

impl ChunkReader {
    /// The bytes read that do not end with a complete word yet.
    pub closed spec fn carried(&self) -> Seq<u8> {
        self.carry@
    }

    /// Whether the end of the file was seen.
    pub closed spec fn finished(&self) -> bool {
        self.done
    }

    /// A reader at the start of a file.
    pub fn new() -> (r: Self)
        ensures
            r.carried() == Seq::<u8>::empty(),
            !r.finished(),
    {
        ChunkReader { carry: Vec::new(), done: false }
    }

    /// Whether the end of the file was seen.
    pub fn is_done(&self) -> (b: bool)
        ensures
            b == self.finished(),
    {
        self.done
    }

    /// After the end of the file: the carried bytes as a last chunk, once.
    pub fn drain(&mut self) -> (r: Option<Result<String, StorageError>>)
        ensures
            final(self).finished() == old(self).finished(),
            final(self).carried() == Seq::<u8>::empty(),
            old(self).carried().len() == 0 ==> r is None,
            old(self).carried().len() > 0 ==> (r matches Some(x) && decoded(x, old(self).carried())),
    {
        if self.carry.len() > 0 {
            let mut chunk: Vec<u8> = Vec::new();
            std::mem::swap(&mut chunk, &mut self.carry);
            Some(decode_chunk(chunk.as_slice()))
        } else {
            None
        }
    }

    /// Takes the outcome of one read of the file: a failure is handed on, an empty
    /// read is the end of the file, and other bytes are added to the carried ones and
    /// cut after their last word delimiter.
    pub fn on_read(&mut self, read: Result<Vec<u8>, StorageError>) -> (step: ReadStep)
        requires
            !old(self).finished(),
        ensures
            match read {
                Err(e) => step == ReadStep::Chunk(Err(e)) && final(self).carried() == old(self).carried()
                    && !final(self).finished(),
                Ok(b) => if b@.len() == 0 {
                    &&& final(self).finished()
                    &&& final(self).carried() == Seq::<u8>::empty()
                    &&& old(self).carried().len() == 0 ==> step is Finished
                    &&& old(self).carried().len() > 0 ==> (step matches ReadStep::Chunk(x) && decoded(
                        x,
                        old(self).carried(),
                    ))
                } else {
                    let buf = old(self).carried() + b@;
                    &&& !final(self).finished()
                    &&& final(self).carried() == carry_part(buf)
                    &&& complete_part(buf).len() == 0 ==> step is NeedMore
                    &&& complete_part(buf).len() > 0 ==> (step matches ReadStep::Chunk(x) && decoded(
                        x,
                        complete_part(buf),
                    ))
                },
            },
    {
        match read {
            Err(e) => ReadStep::Chunk(Err(e)),
            Ok(b) => {
                if b.len() == 0 {
                    self.done = true;
                    match self.drain() {
                        Some(x) => ReadStep::Chunk(x),
                        None => ReadStep::Finished,
                    }
                } else {
                    let mut buf: Vec<u8> = Vec::new();
                    std::mem::swap(&mut buf, &mut self.carry);
                    let ghost before = buf@;
                    let mut i: usize = 0;
                    while i < b.len()
                        invariant
                            i <= b@.len(),
                            buf@ == before + b@.take(i as int),
                        decreases b@.len() - i,
                    {
                        buf.push(b[i]);
                        i = i + 1;
                        assert(buf@ =~= before + b@.take(i as int));
                    }
                    assert(b@.take(b@.len() as int) =~= b@);
                    let (complete, rest) = split_complete_buffer(buf.as_slice());
                    self.carry = rest;
                    if complete.len() > 0 {
                        ReadStep::Chunk(decode_chunk(complete.as_slice()))
                    } else {
                        ReadStep::NeedMore
                    }
                }
            },
        }
    }
}

/// The bytes of each read, or its failure.
pub open spec fn reads_view(reads: Seq<Result<Vec<u8>, StorageError>>) -> Seq<Result<Seq<u8>, StorageError>> {
    reads.map_values(|r: Result<Vec<u8>, StorageError>| match r {
        Ok(b) => Ok(b@),
        Err(e) => Err(e),
    })
}

/// The chunks, as bytes, that a reader carrying `carry` hands on for the reads
/// `reads`: failures pass through, an empty read ends the file, and running out of
/// reads counts as the end of the file.
pub open spec fn raw_chunks(carry: Seq<u8>, reads: Seq<Result<Seq<u8>, StorageError>>) -> Seq<Result<Seq<u8>, StorageError>>
    decreases reads.len(),
{
    if reads.len() == 0 || (reads[0] matches Ok(b) && b.len() == 0) {
        if carry.len() > 0 {
            seq![Ok(carry)]
        } else {
            Seq::empty()
        }
    } else {
        match reads[0] {
            Err(e) => seq![Err(e)] + raw_chunks(carry, reads.drop_first()),
            Ok(b) => {
                let buf = carry + b;
                let c = complete_part(buf);
                (if c.len() > 0 {
                    seq![Ok(c)]
                } else {
                    Seq::empty()
                }) + raw_chunks(carry_part(buf), reads.drop_first())
            },
        }
    }
}

/// `out` holds, item by item, the text of the byte chunks of `raw`, or their failures.
pub open spec fn chunks_match(out: Seq<Result<String, StorageError>>, raw: Seq<Result<Seq<u8>, StorageError>>) -> bool {
    &&& out.len() == raw.len()
    &&& forall|i: int| 0 <= i < raw.len() ==> match #[trigger] raw[i] {
        Err(e) => out[i] == Err::<String, StorageError>(e),
        Ok(b) => decoded(out[i], b),
    }
}

/// Runs a reader over the outcomes of the successive reads of a file and collects
/// every chunk it hands on.
pub fn read_all(reads: Vec<Result<Vec<u8>, StorageError>>) -> (out: Vec<Result<String, StorageError>>)
    ensures
        chunks_match(out@, raw_chunks(Seq::empty(), reads_view(reads@))),
{
    let ghost all = reads_view(reads@);
    let n = reads.len();
    let mut rest = reversed(reads);
    let mut reader = ChunkReader::new();
    let mut out: Vec<Result<String, StorageError>> = Vec::new();
    let ghost mut emitted: Seq<Result<Seq<u8>, StorageError>> = Seq::empty();
    let mut i: usize = 0;
    assert(all.skip(0) =~= all);
    while i < n
        invariant
            i <= n,
            n == all.len(),
            all == reads_view(reads@),
            rest.len() == n - i,
            forall|m: int| 0 <= m < rest.len() ==> #[trigger] reads_view(rest@)[m] == all[n - 1 - m],
            !reader.finished(),
            raw_chunks(Seq::empty(), all) == emitted + raw_chunks(reader.carried(), all.skip(i as int)),
            chunks_match(out@, emitted),
        decreases n - i,
    {
        let ghost before_rest = rest@;
        let read = rest.pop().unwrap();
        let ghost carried = reader.carried();
        let ghost tail = all.skip(i as int);
        proof {
            assert(rest@ == before_rest.drop_last());
            assert(reads_view(before_rest)[rest.len() as int] == all[i as int]);
            assert(tail[0] == all[i as int]);
            assert(tail.drop_first() =~= all.skip(i + 1));
            assert forall|m: int| 0 <= m < rest.len() implies #[trigger] reads_view(rest@)[m] == all[n - 1 - m] by {
                assert(reads_view(before_rest)[m] == all[n - 1 - m]);
            }
        }
        let is_end = match &read {
            Ok(b) => b.len() == 0,
            Err(_) => false,
        };
        let step = reader.on_read(read);
        let ghost before_out = out@;
        match step {
            ReadStep::Chunk(x) => {
                out.push(x);
            },
            _ => {},
        }
        proof {
            if is_end {
                assert(raw_chunks(carried, tail) == (if carried.len() > 0 {
                    seq![Ok::<Seq<u8>, StorageError>(carried)]
                } else {
                    Seq::empty()
                }));
                if carried.len() > 0 {
                    let e2 = emitted.push(Ok(carried));
                    assert(out@.len() == e2.len());
                    assert forall|k: int| 0 <= k < e2.len() implies match #[trigger] e2[k] {
                        Err(e) => out@[k] == Err::<String, StorageError>(e),
                        Ok(b) => decoded(out@[k], b),
                    } by {
                        if k < emitted.len() {
                            assert(e2[k] == emitted[k]);
                            assert(out@[k] == before_out[k]);
                        }
                    }
                    emitted = e2;
                }
            } else {
                match all[i as int] {
                    Err(e) => {
                        assert(raw_chunks(carried, tail) =~= seq![Err(e)] + raw_chunks(carried, tail.drop_first()));
                        assert(out@ =~= before_out.push(Err(e)));
                        emitted = emitted.push(Err(e));
                    },
                    Ok(b) => {
                        let buf = carried + b;
                        if complete_part(buf).len() > 0 {
                            assert(out@.len() == before_out.len() + 1);
                            emitted = emitted.push(Ok(complete_part(buf)));
                        }
                    },
                }
            }
        }
        if is_end {
            assert(raw_chunks(Seq::empty(), all) =~= emitted);
            return out;
        }
        i = i + 1;
        proof {
            assert(raw_chunks(Seq::empty(), all) =~= emitted + raw_chunks(reader.carried(), all.skip(i as int)));
        }
    }
    let ghost carried = reader.carried();
    reader.done = true;
    let last = reader.drain();
    match last {
        Some(x) => {
            out.push(x);
            proof {
                emitted = emitted.push(Ok(carried));
            }
        },
        None => {},
    }
    assert(all.skip(n as int) =~= Seq::<Result<Seq<u8>, StorageError>>::empty());
    out
}

/// The bytes of the successful items of a chunk stream, one after another.
pub open spec fn ok_bytes(raw: Seq<Result<Seq<u8>, StorageError>>) -> Seq<u8>
    decreases raw.len(),
{
    if raw.len() == 0 {
        Seq::empty()
    } else {
        (match raw[0] {
            Ok(b) => b,
            Err(_) => Seq::empty(),
        }) + ok_bytes(raw.drop_first())
    }
}

/// The bytes of the successful reads before the end of the file, one after another.
pub open spec fn bytes_read(reads: Seq<Result<Seq<u8>, StorageError>>) -> Seq<u8>
    decreases reads.len(),
{
    if reads.len() == 0 || (reads[0] matches Ok(b) && b.len() == 0) {
        Seq::empty()
    } else {
        (match reads[0] {
            Ok(b) => b,
            Err(_) => Seq::empty(),
        }) + bytes_read(reads.drop_first())
    }
}

proof fn lemma_ok_bytes_append(a: Seq<Result<Seq<u8>, StorageError>>, b: Seq<Result<Seq<u8>, StorageError>>)
    ensures
        ok_bytes(a + b) == ok_bytes(a) + ok_bytes(b),
    decreases a.len(),
{
    if a.len() == 0 {
        assert(a + b =~= b);
    } else {
        assert((a + b).drop_first() =~= a.drop_first() + b);
        lemma_ok_bytes_append(a.drop_first(), b);
    }
}

/// The chunks handed on hold every byte read before the end of the file, in order,
/// after the bytes the reader carried: nothing is lost, repeated or reordered.
pub proof fn law_chunks_keep_bytes(carry: Seq<u8>, reads: Seq<Result<Seq<u8>, StorageError>>)
    ensures
        ok_bytes(raw_chunks(carry, reads)) == carry + bytes_read(reads),
    decreases reads.len(),
{
    if reads.len() == 0 || (reads[0] matches Ok(b) && b.len() == 0) {
        let single: Seq<Result<Seq<u8>, StorageError>> = seq![Ok(carry)];
        assert(single.drop_first() =~= Seq::<Result<Seq<u8>, StorageError>>::empty());
        assert(ok_bytes(Seq::<Result<Seq<u8>, StorageError>>::empty()) == Seq::<u8>::empty());
        assert(ok_bytes(single.drop_first()) == Seq::<u8>::empty());
        assert(carry + Seq::<u8>::empty() =~= carry);
        assert(bytes_read(reads) == Seq::<u8>::empty());
        if carry.len() == 0 {
            assert(carry =~= Seq::<u8>::empty());
        }
    } else {
        law_chunks_keep_bytes(carry, reads.drop_first());
        match reads[0] {
            Err(e) => {
                let head: Seq<Result<Seq<u8>, StorageError>> = seq![Err(e)];
                lemma_ok_bytes_append(head, raw_chunks(carry, reads.drop_first()));
                assert(head.drop_first() =~= Seq::<Result<Seq<u8>, StorageError>>::empty());
                assert(ok_bytes(head.drop_first()) == Seq::<u8>::empty());
                assert(ok_bytes(head) =~= Seq::<u8>::empty());
                assert(Seq::<u8>::empty() + ok_bytes(raw_chunks(carry, reads.drop_first())) =~= ok_bytes(raw_chunks(carry, reads.drop_first())));
                assert(Seq::<u8>::empty() + bytes_read(reads.drop_first()) =~= bytes_read(reads.drop_first()));
            },
            Ok(b) => {
                let buf = carry + b;
                let c = complete_part(buf);
                crate::tfidf::utils::law_split_complete_buffer(buf);
                law_chunks_keep_bytes(carry_part(buf), reads.drop_first());
                let head: Seq<Result<Seq<u8>, StorageError>> = if c.len() > 0 {
                    seq![Ok(c)]
                } else {
                    Seq::empty()
                };
                lemma_ok_bytes_append(head, raw_chunks(carry_part(buf), reads.drop_first()));
                if c.len() > 0 {
                    assert(head.drop_first() =~= Seq::<Result<Seq<u8>, StorageError>>::empty());
                    assert(ok_bytes(head.drop_first()) == Seq::<u8>::empty());
                    assert(c + Seq::<u8>::empty() =~= c);
                    assert(ok_bytes(head) =~= c);
                } else {
                    assert(ok_bytes(head) =~= Seq::<u8>::empty());
                    assert(c =~= Seq::<u8>::empty());
                    assert(Seq::<u8>::empty() + ok_bytes(raw_chunks(carry_part(buf), reads.drop_first())) =~= ok_bytes(raw_chunks(carry_part(buf), reads.drop_first())));
                }
                let r = bytes_read(reads.drop_first());
                assert(c + carry_part(buf) == buf);
                assert(c + (carry_part(buf) + r) =~= (c + carry_part(buf)) + r);
                assert(buf + r =~= carry + (b + r));
            },
        }
    }
}

} // verus!
