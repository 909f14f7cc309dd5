//! Pairs of neighbouring tokens, beside the stop words themselves.
use vstd::prelude::*;

use crate::storage::error::StorageError;
use crate::text::chars_eq;
use crate::text::chars_of;
use crate::tfidf::term_counter::{item_view, items_view};
use crate::tfidf::tokenizer::strs;

verus! {

/// Whether `t` is one of the stop words.
pub open spec fn is_stop(stops: Seq<Seq<char>>, t: Seq<char>) -> bool {
    stops.contains(t)
}

/// Two neighbouring tokens joined by a space.
pub open spec fn bigram_of(p: Seq<char>, t: Seq<char>) -> Seq<char> {
    p + seq![' '] + t
}

/// What one item of the token stream contributes after the token `prev`: a failure
/// passes through; a token is handed on itself when it is a stop word, followed by
/// its pair with the previous token unless both are stop words.
pub open spec fn bigram_step(
    prev: Option<Seq<char>>,
    item: Result<Seq<char>, StorageError>,
    stops: Seq<Seq<char>>,
) -> Seq<Result<Seq<char>, StorageError>> {
    match item {
        Err(e) => seq![Err(e)],
        Ok(t) => (if is_stop(stops, t) {
            seq![Ok(t)]
        } else {
            Seq::empty()
        }) + match prev {
            Some(p) => if !(is_stop(stops, p) && is_stop(stops, t)) {
                seq![Ok(bigram_of(p, t))]
            } else {
                Seq::empty()
            },
            None => Seq::empty(),
        },
    }
}

/// The token after which the next item stands.
pub open spec fn next_prev(prev: Option<Seq<char>>, item: Result<Seq<char>, StorageError>) -> Option<Seq<char>> {
    match item {
        Ok(t) => Some(t),
        Err(_) => prev,
    }
}

/// The stream of stop words and pairs for a token stream read after `prev`.
pub open spec fn bigram_items(
    prev: Option<Seq<char>>,
    items: Seq<Result<Seq<char>, StorageError>>,
    stops: Seq<Seq<char>>,
) -> Seq<Result<Seq<char>, StorageError>>
    decreases items.len(),
{
    if items.len() == 0 {
        Seq::empty()
    } else {
        bigram_step(prev, items[0], stops) + bigram_items(next_prev(prev, items[0]), items.drop_first(), stops)
    }
}

/// Whether `t` is one of `stops`.
fn contains_word(stops: &Vec<String>, t: &str) -> (b: bool)
    ensures
        b == is_stop(strs(stops@), t@),
{
    let tc = chars_of(t);
    let mut i: usize = 0;
    while i < stops.len()
        invariant
            i <= stops.len(),
            tc@ == t@,
            forall|k: int| 0 <= k < i ==> stops@[k]@ != t@,
        decreases stops.len() - i,
    {
        if chars_eq(&chars_of(stops[i].as_str()), &tc) {
            assert(strs(stops@)[i as int] == t@);
            return true;
        }
        i = i + 1;
    }
    assert(!strs(stops@).contains(t@)) by {
        if strs(stops@).contains(t@) {
            let k = choose|k: int| 0 <= k < strs(stops@).len() && strs(stops@)[k] == t@;
            assert(stops@[k]@ == t@);
        }
    }
    false
}

/// Hands on the stop words of a token stream and the pairs of neighbouring tokens.
pub struct BigramIterator {
    source: Vec<Result<String, StorageError>>,
    next_item: usize,
    prev: Option<String>,
    pending: Option<String>,
    stops: Vec<String>,
}

impl BigramIterator {
    /// The representation is consistent.
    pub closed spec fn wf(&self) -> bool {
        self.next_item <= self.source.len()
    }

    /// The stop words in use.
    pub closed spec fn stop_words(&self) -> Seq<Seq<char>> {
        strs(self.stops@)
    }

    /// The items still to be handed on, in order.
    pub closed spec fn remaining(&self) -> Seq<Result<Seq<char>, StorageError>> {
        pending_items(self.pending) + bigram_items(
            opt_view(self.prev),
            items_view(self.source@).skip(self.next_item as int),
            strs(self.stops@),
        )
    }

    /// An iterator over the token stream `source`, with the stop words `stops`.
    pub fn new(source: Vec<Result<String, StorageError>>, stops: Vec<String>) -> (b: Self)
        ensures
            b.wf(),
            b.stop_words() == strs(stops@),
            b.remaining() == bigram_items(None, items_view(source@), strs(stops@)),
    {
        let b = BigramIterator { source, next_item: 0, prev: None, pending: None, stops };
        assert(items_view(b.source@).skip(0) =~= items_view(b.source@));
        assert(b.remaining() =~= bigram_items(None, items_view(b.source@), strs(b.stops@)));
        b
    }

    /// The next stop word or pair, or the failure of the item being read; `None` once
    /// the source is exhausted.
    pub fn next(&mut self) -> (r: Option<Result<String, StorageError>>)
        requires
            old(self).wf(),
        ensures
            final(self).wf(),
            final(self).stop_words() == old(self).stop_words(),
            old(self).remaining().len() == 0 ==> r is None && final(self).remaining().len() == 0,
            old(self).remaining().len() > 0 ==> (r matches Some(x) && item_view(x) == old(self).remaining()[0]
                && final(self).remaining() == old(self).remaining().drop_first()),
    {
        loop
            invariant
                self.wf(),
                self.stop_words() == old(self).stop_words(),
                self.remaining() == old(self).remaining(),
            decreases self.source.len() - self.next_item,
        {
            let ghost pv = opt_view(self.prev);
            let ghost items = items_view(self.source@);
            let ghost stops = strs(self.stops@);
            let ghost rest = bigram_items(pv, items.skip(self.next_item as int), stops);
            if self.pending.is_some() {
                let b = self.pending.take().unwrap();
                proof {
                    assert((seq![ok_of(b@)] + rest).drop_first() =~= rest);
                    assert(Seq::<Result<Seq<char>, StorageError>>::empty() + rest =~= rest);
                }
                return Some(Ok(b));
            }
            assert(self.remaining() =~= rest);
            if self.next_item >= self.source.len() {
                assert(items.skip(self.next_item as int) =~= Seq::<Result<Seq<char>, StorageError>>::empty());
                return None;
            }
            let k = self.next_item;
            proof {
                assert(items.skip(k as int).drop_first() =~= items.skip(k + 1));
                assert(items.skip(k as int)[0] == items[k as int]);
            }
            self.next_item = k + 1;
            match &self.source[k] {
                Err(e) => {
                    let e2 = e.duplicate();
                    proof {
                        assert(bigram_step(pv, items[k as int], stops) =~= seq![Err::<Seq<char>, StorageError>(e2)]);
                        assert(rest =~= seq![Err::<Seq<char>, StorageError>(e2)] + bigram_items(
                            pv,
                            items.skip(k + 1),
                            stops,
                        ));
                    }
                    return Some(Err(e2));
                },
                Ok(t) => {
                    let t_stop = contains_word(&self.stops, t.as_str());
                    let mut pending: Option<String> = None;
                    match &self.prev {
                        Some(p) => {
                            if !(contains_word(&self.stops, p.as_str()) && t_stop) {
                                let mut joined = p.clone();
                                joined.push(' ');
                                joined.push_str(t.as_str());
                                assert(joined@ =~= bigram_of(p@, t@));
                                pending = Some(joined);
                            }
                        },
                        None => {},
                    }
                    let ghost pend_items = pending_items(pending);
                    assert(items[k as int] == Ok::<Seq<char>, StorageError>(t@));
                    assert(pend_items == match pv {
                        Some(pp) => if !(is_stop(stops, pp) && is_stop(stops, t@)) {
                            seq![Ok::<Seq<char>, StorageError>(bigram_of(pp, t@))]
                        } else {
                            Seq::empty()
                        },
                        None => Seq::empty(),
                    });
                    let ghost after = bigram_items(Some(t@), items.skip(k + 1), stops);
                    proof {
                        assert(bigram_step(pv, items[k as int], stops) =~= (if is_stop(stops, t@) {
                            seq![ok_of(t@)]
                        } else {
                            Seq::empty()
                        }) + pend_items);
                    }
                    self.pending = pending;
                    self.prev = Some(t.clone());
                    if t_stop {
                        proof {
                            assert(rest =~= seq![ok_of(t@)] + (pend_items + after));
                            assert((seq![ok_of(t@)] + (pend_items + after)).drop_first() =~= pend_items + after);
                        }
                        return Some(Ok(t.clone()));
                    }
                    proof {
                        assert(rest =~= pend_items + after);
                    }
                }
            }
        }
    }
}

/// The characters of an optional string.
pub open spec fn opt_view(o: Option<String>) -> Option<Seq<char>> {
    match o {
        Some(p) => Some(p@),
        None => None,
    }
}

/// A pair waiting to be handed on, as stream items.
pub open spec fn pending_items(o: Option<String>) -> Seq<Result<Seq<char>, StorageError>> {
    match o {
        Some(b) => seq![Ok(b@)],
        None => Seq::empty(),
    }
}

/// A token as a successful stream item.
pub open spec fn ok_of(t: Seq<char>) -> Result<Seq<char>, StorageError> {
    Ok(t)
}

} // verus!
