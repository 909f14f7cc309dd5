//! Summaries of the document clusters kept in the database.
use vstd::prelude::*;

use crate::text::{chars_eq, chars_of};
use crate::tfidf::tokenizer::strs;

verus! {

/// The names of the files of cluster `id`, in the order of `rows`, each row being a
/// (cluster id, file name) pair.
pub open spec fn cluster_names(rows: Seq<(i64, String)>, id: i64) -> Seq<Seq<char>>
    decreases rows.len(),
{
    if rows.len() == 0 {
        Seq::empty()
    } else {
        let rest = cluster_names(rows.drop_last(), id);
        if rows.last().0 == id {
            rest.push(rows.last().1@)
        } else {
            rest
        }
    }
}

/// The top files of cluster `id`: the first three of its rows (rows come ordered by
/// how many chunks each file has in the cluster), or `None` when it has none.
pub fn cluster_top_files(rows: &Vec<(i64, String)>, id: i64) -> (r: Option<Vec<String>>)
    ensures
        cluster_names(rows@, id).len() == 0 ==> r is None,
        cluster_names(rows@, id).len() > 0 ==> (r matches Some(v) && strs(v@) == cluster_names(rows@, id).take(
            if cluster_names(rows@, id).len() < 3 { cluster_names(rows@, id).len() as int } else { 3 },
        )),
{
    let mut v: Vec<String> = Vec::new();
    let mut found = false;
    let mut i: usize = 0;
    while i < rows.len()
        invariant
            i <= rows.len(),
            found == (cluster_names(rows@.take(i as int), id).len() > 0),
            strs(v@) == cluster_names(rows@.take(i as int), id).take(
                if cluster_names(rows@.take(i as int), id).len() < 3 {
                    cluster_names(rows@.take(i as int), id).len() as int
                } else {
                    3
                },
            ),
        decreases rows.len() - i,
    {
        let ghost before = cluster_names(rows@.take(i as int), id);
        assert(rows@.take(i + 1).drop_last() =~= rows@.take(i as int));
        if rows[i].0 == id {
            found = true;
            if v.len() < 3 {
                let ghost vb = v@;
                v.push(rows[i].1.clone());
                assert(strs(v@) =~= strs(vb).push(rows@[i as int].1@));
                assert(before.push(rows@[i as int].1@).take(before.len() as int + 1) =~= before.push(rows@[i as int].1@));
                assert(before.take(before.len() as int) =~= before);
            } else {
                assert(strs(v@).len() == v.len());
                assert(before.len() >= 3);
                assert(before.push(rows@[i as int].1@).take(3) =~= before.take(3));
            }
        }
        i = i + 1;
    }
    assert(rows@.take(rows.len() as int) =~= rows@);
    if found {
        Some(v)
    } else {
        None
    }
}

/// The first row of `ids` with the id of row `i`: no earlier row has the same id.
pub open spec fn first_of_id(ids: Seq<Seq<char>>, i: int) -> bool {
    forall|j: int| 0 <= j < i ==> ids[j] != ids[i]
}

/// The positions of the rows that are the first of their id, in order, so that a
/// file listed under several clusters is shown once.
pub fn first_occurrences(ids: &Vec<String>) -> (r: Vec<usize>)
    ensures
        forall|k: int| 0 <= k < r.len() ==> (r@[k] as int) < ids.len() && first_of_id(strs(ids@), #[trigger] r@[k] as int),
        forall|k: int, l: int| 0 <= k < l < r.len() ==> r@[k] < r@[l],
        forall|i: int| 0 <= i < ids.len() && first_of_id(strs(ids@), i) ==> #[trigger] r@.contains(i as usize),
{
    let ghost s = strs(ids@);
    let mut r: Vec<usize> = Vec::new();
    let mut i: usize = 0;
    while i < ids.len()
        invariant
            i <= ids.len(),
            s == strs(ids@),
            forall|k: int| 0 <= k < r.len() ==> (r@[k] as int) < i && first_of_id(s, #[trigger] r@[k] as int),
            forall|k: int, l: int| 0 <= k < l < r.len() ==> r@[k] < r@[l],
            forall|m: int| 0 <= m < i && first_of_id(s, m) ==> #[trigger] r@.contains(m as usize),
        decreases ids.len() - i,
    {
        let key = chars_of(ids[i].as_str());
        let mut j: usize = 0;
        let mut seen = false;
        while j < i
            invariant
                j <= i,
                i < ids.len(),
                key@ == s[i as int],
                s == strs(ids@),
                seen == !(forall|m: int| 0 <= m < j ==> s[m] != s[i as int]),
            decreases i - j,
        {
            if !seen {
                let other = chars_of(ids[j].as_str());
                assert(other@ == s[j as int]);
                if chars_eq(&other, &key) {
                    seen = true;
                }
            }
            j = j + 1;
        }
        if !seen {
            let ghost rb = r@;
            r.push(i);
            assert forall|m: int| 0 <= m < i + 1 && first_of_id(s, m) implies #[trigger] r@.contains(m as usize) by {
                if m < i {
                    assert(rb.contains(m as usize));
                    let k = choose|k: int| 0 <= k < rb.len() && rb[k] == m as usize;
                    assert(r@[k] == m as usize);
                } else {
                    assert(r@[rb.len() as int] == i);
                }
            }
        } else {
            assert forall|m: int| 0 <= m < i + 1 && first_of_id(s, m) implies #[trigger] r@.contains(m as usize) by {
                if m == i {
                    assert(!first_of_id(s, i as int));
                }
            }
        }
        i = i + 1;
    }
    r
}

} // verus!
