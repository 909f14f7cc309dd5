//! In how many documents each term occurs.
use vstd::prelude::*;

use crate::storage::error::StorageError;
use crate::text::{chars_eq, chars_of};
use crate::tfidf::term_counter::{first_error, items_view, ok_values, TermCounts};
use crate::tfidf::tokenizer::strs;

verus! {

/// The document counts `m` after one more document with the distinct terms `s`.
pub open spec fn bumped(m: Map<Seq<char>, nat>, s: Set<Seq<char>>) -> Map<Seq<char>, nat> {
    Map::new(
        |t: Seq<char>| m.contains_key(t) || s.contains(t),
        |t: Seq<char>| (if m.contains_key(t) { m[t] } else { 0 }) + (if s.contains(t) { 1nat } else { 0nat }),
    )
}

/// Whether one of `v` has the characters `t`.
fn contains_term(v: &Vec<String>, t: &Vec<char>) -> (b: bool)
    ensures
        b == strs(v@).contains(t@),
{
    let mut i: usize = 0;
    while i < v.len()
        invariant
            i <= v.len(),
            forall|k: int| 0 <= k < i ==> v@[k]@ != t@,
        decreases v.len() - i,
    {
        if chars_eq(&chars_of(v[i].as_str()), t) {
            assert(strs(v@)[i as int] == t@);
            return true;
        }
        i = i + 1;
    }
    assert(!strs(v@).contains(t@)) by {
        if strs(v@).contains(t@) {
            let k = choose|k: int| 0 <= k < strs(v@).len() && strs(v@)[k] == t@;
            assert(v@[k]@ == t@);
        }
    }
    false
}

/// Counts documents.
pub struct DocumentCounter;

impl DocumentCounter {
    /// The distinct terms of a stream of tokens; the first failed item fails it.
    pub fn unique_terms(tokens: Vec<Result<String, StorageError>>) -> (r: Result<Vec<String>, StorageError>)
        ensures
            match first_error(items_view(tokens@)) {
                Some(k) => r is Err && items_view(tokens@)[k] == Err::<Seq<char>, StorageError>(r->Err_0),
                None => r matches Ok(v) && strs(v@).no_duplicates() && strs(v@).to_set() == ok_values(
                    items_view(tokens@),
                ).to_set(),
            },
    {
        let ghost items = items_view(tokens@);
        let n = tokens.len();
        let mut rev = crate::text::reversed(tokens);
        let mut seen: Vec<String> = Vec::new();
        let mut i: usize = 0;
        while i < n
            invariant
                i <= n,
                n == items.len(),
                items == items_view(tokens@),
                rev.len() == n - i,
                forall|m: int| 0 <= m < rev.len() ==> #[trigger] items_view(rev@)[m] == items[n - 1 - m],
                first_error(items.take(i as int)) is None,
                strs(seen@).no_duplicates(),
                strs(seen@).to_set() == ok_values(items.take(i as int)).to_set(),
            decreases n - i,
        {
            let ghost before = rev@;
            let item = rev.pop().unwrap();
            proof {
                assert(items_view(before)[rev.len() as int] == items[i as int]);
                assert forall|m: int| 0 <= m < rev.len() implies #[trigger] items_view(rev@)[m] == items[n - 1 - m] by {
                    assert(items_view(before)[m] == items[n - 1 - m]);
                }
                crate::tfidf::term_counter::lemma_first_error_prefix(items, i as int);
                assert(ok_values(items.take(i + 1)) =~= ok_values(items.take(i as int)).push(ok_values(items)[i as int]));
            }
            match item {
                Err(e) => {
                    proof {
                        crate::tfidf::term_counter::lemma_first_error_extends(items, i + 1);
                        crate::tfidf::term_counter::lemma_first_error_bound(items);
                    }
                    return Err(e);
                },
                Ok(token) => {
                    let key = chars_of(token.as_str());
                    let ghost old_seen = strs(seen@);
                    proof {
                        old_seen.lemma_push_to_set_commute(token@);
                        ok_values(items.take(i as int)).lemma_push_to_set_commute(token@);
                    }
                    if !contains_term(&seen, &key) {
                        seen.push(token);
                        proof {
                            assert(strs(seen@) =~= old_seen.push(key@));
                            assert(strs(seen@).no_duplicates()) by {
                                assert forall|a: int, b: int| 0 <= a < strs(seen@).len() && 0 <= b < strs(seen@).len() && a != b implies
                                    strs(seen@)[a] != strs(seen@)[b] by {
                                    if a < old_seen.len() && b < old_seen.len() {
                                        assert(old_seen[a] != old_seen[b]);
                                    } else if a < old_seen.len() {
                                        assert(old_seen.contains(old_seen[a]));
                                    } else if b < old_seen.len() {
                                        assert(old_seen.contains(old_seen[b]));
                                    }
                                }
                            }
                        }
                    } else {
                        assert(old_seen.to_set().insert(key@) =~= old_seen.to_set());
                    }
                },
            }
            i = i + 1;
        }
        assert(items.take(n as int) =~= items);
        Ok(seen)
    }

    /// Counts one more document for each of its distinct terms.
    pub fn accumulate(docs_freq: &mut TermCounts, unique_terms: Vec<String>)
        requires
            old(docs_freq).wf(),
            strs(unique_terms@).no_duplicates(),
            forall|t: Seq<char>| strs(unique_terms@).contains(t) && #[trigger] old(docs_freq)@.contains_key(t)
                ==> old(docs_freq)@[t] < usize::MAX,
        ensures
            final(docs_freq).wf(),
            final(docs_freq)@ == bumped(old(docs_freq)@, strs(unique_terms@).to_set()),
    {
        let ghost terms = strs(unique_terms@);
        let ghost start = docs_freq@;
        let mut i: usize = 0;
        while i < unique_terms.len()
            invariant
                i <= unique_terms.len(),
                terms == strs(unique_terms@),
                terms.no_duplicates(),
                docs_freq.wf(),
                forall|t: Seq<char>| terms.contains(t) && #[trigger] start.contains_key(t) ==> start[t] < usize::MAX,
                docs_freq@ == bumped(start, terms.take(i as int).to_set()),
            decreases unique_terms.len() - i,
        {
            let ghost cur = terms.take(i as int);
            let t = &unique_terms[i];
            proof {
                assert(terms[i as int] == t@);
                assert(!cur.to_set().contains(t@)) by {
                    if cur.to_set().contains(t@) {
                        let k = choose|k: int| 0 <= k < cur.len() && cur[k] == t@;
                        assert(terms[k] == terms[i as int]);
                    }
                }
                assert(terms.contains(t@));
            }
            docs_freq.add(t.as_str(), 1);
            proof {
                assert(terms.take(i + 1) =~= cur.push(t@));
                cur.lemma_push_to_set_commute(t@);
                assert(docs_freq@ =~= bumped(start, terms.take(i + 1).to_set()));
            }
            i = i + 1;
        }
        assert(terms.take(unique_terms.len() as int) =~= terms);
    }
}

} // verus!
