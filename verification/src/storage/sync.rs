//! The decisions of a synchronisation between the data folder and the database.
use vstd::prelude::*;

use crate::identifiers::{hyphenated_uuid, new_uuid_text, uuid_text, uuid_try_parses};
use crate::storage::sqlite_version::FileInSQL;
use crate::storage::storage_types::{FileInSystem, SyncEvent};
use crate::text::{chars_eq, chars_of, string_from_chars};
use crate::tfidf::tokenizer::strs;

verus! {

/// What a synchronisation does to the database: the ids to remove (recorded, but no
/// longer in the data folder), to add (in the data folder, not recorded) and to
/// check for changes (in both).
pub struct SyncPlan {
    pub removed: Vec<String>,
    pub added: Vec<String>,
    pub kept: Vec<String>,
}

/// Whether an id is among `s` (when `inside`) or not.
pub open spec fn membership(s: Seq<Seq<char>>, inside: bool) -> spec_fn(Seq<char>) -> bool {
    |y: Seq<char>| s.contains(y) == inside
}

/// Whether one of `v` has the characters `t`.
fn contains_id(v: &Vec<String>, t: &str) -> (b: bool)
    ensures
        b == strs(v@).contains(t@),
{
    let tc = chars_of(t);
    let mut i: usize = 0;
    while i < v.len()
        invariant
            i <= v.len(),
            tc@ == t@,
            forall|k: int| 0 <= k < i ==> v@[k]@ != t@,
        decreases v.len() - i,
    {
        if chars_eq(&chars_of(v[i].as_str()), &tc) {
            assert(strs(v@)[i as int] == t@);
            return true;
        }
        i = i + 1;
    }
    assert(!strs(v@).contains(t@)) by {
        if strs(v@).contains(t@) {
            let k = choose|k: int| 0 <= k < strs(v@).len() && strs(v@)[k] == t@;
            assert(v@[k]@ == t@);
        }
    }
    false
}

/// The ids of `from` that `other` holds (when `inside`) or does not hold, in order.
fn select_ids(from: &Vec<String>, other: &Vec<String>, inside: bool) -> (r: Vec<String>)
    ensures
        strs(r@) == strs(from@).filter(membership(strs(other@), inside)),
{
    let ghost f = strs(from@);
    let ghost pred = membership(strs(other@), inside);
    let mut r: Vec<String> = Vec::new();
    let mut i: usize = 0;
    while i < from.len()
        invariant
            i <= from.len(),
            f == strs(from@),
            pred == membership(strs(other@), inside),
            strs(r@) == f.take(i as int).filter(pred),
        decreases from.len() - i,
    {
        assert(f.take(i + 1).drop_last() =~= f.take(i as int));
        proof {
            reveal(Seq::filter);
        }
        assert(f.take(i + 1).last() == from@[i as int]@);
        assert(pred(from@[i as int]@) == (strs(other@).contains(from@[i as int]@) == inside));
        assert(f.take(i + 1).filter(pred) == (if pred(from@[i as int]@) {
            f.take(i as int).filter(pred).push(from@[i as int]@)
        } else {
            f.take(i as int).filter(pred)
        }));
        if contains_id(other, from[i].as_str()) == inside {
            let ghost before = r@;
            r.push(from[i].clone());
            assert(strs(r@) =~= strs(before).push(from@[i as int]@));
        }
        i = i + 1;
    }
    assert(f.take(from.len() as int) =~= f);
    r
}

/// The plan that brings the recorded ids `sql_ids` in line with the ids `fs_ids` of
/// the data folder.
pub fn plan_sync(fs_ids: &Vec<String>, sql_ids: &Vec<String>) -> (p: SyncPlan)
    ensures
        strs(p.removed@) == strs(sql_ids@).filter(membership(strs(fs_ids@), false)),
        strs(p.added@) == strs(fs_ids@).filter(membership(strs(sql_ids@), false)),
        strs(p.kept@) == strs(fs_ids@).filter(membership(strs(sql_ids@), true)),
{
    SyncPlan {
        removed: select_ids(sql_ids, fs_ids, false),
        added: select_ids(fs_ids, sql_ids, false),
        kept: select_ids(fs_ids, sql_ids, true),
    }
}

/// A synchronisation converges: once the removed ids are dropped and the added ones
/// recorded, the database records exactly the ids of the data folder; no id is both
/// removed and kept, and no folder id is lost.
pub proof fn law_sync_converges(fs: Seq<Seq<char>>, sql: Seq<Seq<char>>, x: Seq<char>)
    ensures
        ({
            let removed = sql.filter(membership(fs, false));
            let added = fs.filter(membership(sql, false));
            let kept = fs.filter(membership(sql, true));
            &&& ((sql.contains(x) && !removed.contains(x)) || added.contains(x)) <==> fs.contains(x)
            &&& fs.contains(x) <==> (kept.contains(x) || added.contains(x))
            &&& !(removed.contains(x) && kept.contains(x))
        }),
{
    let pr = membership(fs, false);
    let pa = membership(sql, false);
    let pk = membership(sql, true);
    let removed = sql.filter(pr);
    let added = fs.filter(pa);
    let kept = fs.filter(pk);
    if removed.contains(x) {
        let i = choose|i: int| 0 <= i < removed.len() && removed[i] == x;
        sql.lemma_filter_pred(pr, i);
        sql.lemma_filter_contains_rev(pr, x);
    }
    if added.contains(x) {
        let i = choose|i: int| 0 <= i < added.len() && added[i] == x;
        fs.lemma_filter_pred(pa, i);
        fs.lemma_filter_contains_rev(pa, x);
    }
    if kept.contains(x) {
        let i = choose|i: int| 0 <= i < kept.len() && kept[i] == x;
        fs.lemma_filter_pred(pk, i);
        fs.lemma_filter_contains_rev(pk, x);
    }
    if fs.contains(x) {
        let i = choose|i: int| 0 <= i < fs.len() && fs[i] == x;
        if sql.contains(x) {
            fs.lemma_filter_contains(pk, i);
        } else {
            fs.lemma_filter_contains(pa, i);
        }
    }
    if sql.contains(x) && !fs.contains(x) {
        let j = choose|j: int| 0 <= j < sql.len() && sql[j] == x;
        sql.lemma_filter_contains(pr, j);
    }
}

/// The id and name under which a file found in the data folder is recorded: a file
/// named by a UUID keeps it and is called "Untitled"; another one is given the fresh
/// id `fresh_id` and is called by its old name.
pub open spec fn recorded_as(id: Seq<char>, fresh_id: Seq<char>) -> (Seq<char>, Seq<char>) {
    if uuid_text(id) {
        (id, "Untitled"@)
    } else {
        (fresh_id, id)
    }
}

/// The id and name under which the file `id` is recorded, and whether it must be
/// renamed to that id; a new id is a random UUID.
pub fn record_identity(id: &str) -> (r: (String, String, bool))
    ensures
        uuid_text(id@) ==> r.0@ == id@ && r.1@ == "Untitled"@ && !r.2,
        !uuid_text(id@) ==> hyphenated_uuid(r.0@) && r.1@ == id@ && r.2,
{
    if uuid_try_parses(id) {
        (string_from_chars(&chars_of(id)), string_from_chars(&chars_of("Untitled")), false)
    } else {
        (new_uuid_text(), string_from_chars(&chars_of(id)), true)
    }
}

/// The database record of a file added by a synchronisation: its recorded id and
/// name, the hash of its content, its type, and its modification time as both its
/// creation and modification times.
pub fn sync_record(id: String, name: String, hash: String, file: &FileInSystem) -> (f: FileInSQL)
    ensures
        f.id == id,
        f.name == name,
        f.hash == hash,
        f.extension@ == file.extention@,
        f.created_at matches Some(c) && c@ == file.modified_at@,
        f.modified_at matches Some(m) && m@ == file.modified_at@,
        f.embedded_at is None,
        f.indexed_at is None,
{
    FileInSQL {
        id,
        name,
        hash,
        extension: file.extention.clone(),
        created_at: Some(file.modified_at.clone()),
        modified_at: Some(file.modified_at.clone()),
        embedded_at: None,
        indexed_at: None,
    }
}

/// The steps reported when the embedding table has `current` dimensions and the
/// configuration asks for `proposed`: none when they agree; otherwise the mismatch,
/// then the reset.
pub fn dims_events(current: u32, proposed: u32) -> (v: Vec<SyncEvent>)
    ensures
        current == proposed ==> v.len() == 0,
        current != proposed ==> v.len() == 2 && v@[0] == (SyncEvent::DimsMISMATCH {
            previous: current,
            proposed,
        }) && v@[1] == (SyncEvent::DIMSChanged { previous: current, now: proposed }),
{
    let mut v: Vec<SyncEvent> = Vec::new();
    if current != proposed {
        v.push(SyncEvent::DimsMISMATCH { previous: current, proposed });
        v.push(SyncEvent::DIMSChanged { previous: current, now: proposed });
    }
    v
}

/// The events of dimensions `current` and `proposed`: none when they agree;
/// otherwise the mismatch, then the reset.
pub open spec fn dims_steps(current: u32, proposed: u32) -> Seq<SyncEvent> {
    if current == proposed {
        Seq::empty()
    } else {
        seq![
            SyncEvent::DimsMISMATCH { previous: current, proposed },
            SyncEvent::DIMSChanged { previous: current, now: proposed },
        ]
    }
}

/// Which of the per-file events a list of ids reports.
pub enum IdEventKind {
    Removed,
    Pending,
    Updated,
}

/// The event that reports the file `id`.
pub open spec fn id_event(k: IdEventKind, id: String) -> SyncEvent {
    match k {
        IdEventKind::Removed => SyncEvent::FileRemoved { id },
        IdEventKind::Pending => SyncEvent::FileEmbeddingPending { id },
        IdEventKind::Updated => SyncEvent::FileUpdated { id },
    }
}

/// One event of kind `k` for each of `ids`, in order.
pub open spec fn id_events(k: IdEventKind, ids: Seq<String>) -> Seq<SyncEvent> {
    ids.map_values(|id: String| id_event(k, id))
}

/// One added-file event for each (id, name) of `added`, in order.
pub open spec fn added_events(added: Seq<(String, String)>) -> Seq<SyncEvent> {
    added.map_values(|p: (String, String)| SyncEvent::FileAdded { id: p.0, name: p.1 })
}

/// The ids among the first `n` of `kept` whose content changed, in order.
pub open spec fn changed_prefix(kept: Seq<String>, changed: Seq<bool>, n: nat) -> Seq<String>
    decreases n,
{
    if n == 0 {
        Seq::empty()
    } else {
        let rest = changed_prefix(kept, changed, (n - 1) as nat);
        if changed[n - 1] {
            rest.push(kept[n - 1])
        } else {
            rest
        }
    }
}

/// The ids of `kept` whose content changed (`changed` is aligned with `kept`).
pub open spec fn changed_ids(kept: Seq<String>, changed: Seq<bool>) -> Seq<String> {
    changed_prefix(kept, changed, kept.len())
}

/// The events a synchronisation reports, in order: the dimension events, one per
/// removed file, one per file still waiting for embeddings, one per added file, one
/// per updated file, and last the three counts.
pub open spec fn sync_steps(
    current: u32,
    proposed: u32,
    removed: Seq<String>,
    pending: Seq<String>,
    added: Seq<(String, String)>,
    updated: Seq<String>,
) -> Seq<SyncEvent> {
    (dims_steps(current, proposed) + id_events(IdEventKind::Removed, removed) + id_events(
        IdEventKind::Pending,
        pending,
    ) + added_events(added) + id_events(IdEventKind::Updated, updated)).push(
        SyncEvent::Done {
            added: added.len() as usize,
            removed: removed.len() as usize,
            updated: updated.len() as usize,
        },
    )
}

/// Appends one event of kind `k` for each of `ids`.
fn push_id_events(v: &mut Vec<SyncEvent>, ids: &Vec<String>, k: IdEventKind)
    ensures
        final(v)@ == old(v)@ + id_events(k, ids@),
{
    let ghost start = v@;
    let mut i: usize = 0;
    while i < ids.len()
        invariant
            i <= ids.len(),
            v@ == start + id_events(k, ids@.take(i as int)),
        decreases ids.len() - i,
    {
        let id = ids[i].clone();
        let e = match k {
            IdEventKind::Removed => SyncEvent::FileRemoved { id },
            IdEventKind::Pending => SyncEvent::FileEmbeddingPending { id },
            IdEventKind::Updated => SyncEvent::FileUpdated { id },
        };
        v.push(e);
        assert(id_events(k, ids@.take(i + 1)) =~= id_events(k, ids@.take(i as int)).push(
            id_event(k, ids@[i as int]),
        ));
        i = i + 1;
    }
    assert(ids@.take(ids.len() as int) =~= ids@);
}

/// The events of a synchronisation that removed `removed`, found `pending` still
/// without embeddings, added `added` (id and name of each) and compared the files
/// `kept`, of which those marked in `changed` had a new hash; the dimensions of the
/// embedding table were `current_dims` and are configured as `proposed_dims`.
pub fn sync_events(
    current_dims: u32,
    proposed_dims: u32,
    removed: &Vec<String>,
    pending: &Vec<String>,
    added: &Vec<(String, String)>,
    kept: &Vec<String>,
    changed: &Vec<bool>,
) -> (v: Vec<SyncEvent>)
    requires
        kept.len() == changed.len(),
    ensures
        v@ == sync_steps(
            current_dims,
            proposed_dims,
            removed@,
            pending@,
            added@,
            changed_ids(kept@, changed@),
        ),
{
    let mut v = dims_events(current_dims, proposed_dims);
    assert(v@ =~= dims_steps(current_dims, proposed_dims));
    push_id_events(&mut v, removed, IdEventKind::Removed);
    push_id_events(&mut v, pending, IdEventKind::Pending);
    let ghost before_added = v@;
    let mut i: usize = 0;
    while i < added.len()
        invariant
            i <= added.len(),
            v@ == before_added + added_events(added@.take(i as int)),
        decreases added.len() - i,
    {
        let id = added[i].0.clone();
        let name = added[i].1.clone();
        v.push(SyncEvent::FileAdded { id, name });
        assert(added_events(added@.take(i + 1)) =~= added_events(added@.take(i as int)).push(
            SyncEvent::FileAdded { id: added@[i as int].0, name: added@[i as int].1 },
        ));
        i = i + 1;
    }
    assert(added@.take(added.len() as int) =~= added@);
    let mut updated: Vec<String> = Vec::new();
    let mut j: usize = 0;
    while j < kept.len()
        invariant
            j <= kept.len(),
            kept.len() == changed.len(),
            updated@ == changed_prefix(kept@, changed@, j as nat),
            updated.len() <= j,
        decreases kept.len() - j,
    {
        if changed[j] {
            updated.push(kept[j].clone());
        }
        j = j + 1;
    }
    push_id_events(&mut v, &updated, IdEventKind::Updated);
    v.push(
        SyncEvent::Done { added: added.len(), removed: removed.len(), updated: updated.len() },
    );
    v
}

/// Nothing changed marks no id as changed.
proof fn lemma_unchanged_prefix(kept: Seq<String>, changed: Seq<bool>, n: nat)
    requires
        n <= changed.len(),
        forall|i: int| 0 <= i < changed.len() ==> !(#[trigger] changed[i]),
    ensures
        changed_prefix(kept, changed, n) == Seq::<String>::empty(),
    decreases n,
{
    if n > 0 {
        lemma_unchanged_prefix(kept, changed, (n - 1) as nat);
    }
}

/// A second synchronisation with nothing changed is quiet: when the data folder and
/// the database hold the same ids, no file is removed or added; when the dimensions
/// agree and no kept file has a new hash, the only events are the files still waiting
/// for embeddings and a final count of zero added, removed and updated.
pub proof fn law_second_sync_quiet(
    fs: Seq<Seq<char>>,
    sql: Seq<Seq<char>>,
    dims: u32,
    pending: Seq<String>,
    kept: Seq<String>,
    changed: Seq<bool>,
)
    requires
        forall|x: Seq<char>| fs.contains(x) <==> sql.contains(x),
        kept.len() == changed.len(),
        forall|i: int| 0 <= i < changed.len() ==> !(#[trigger] changed[i]),
    ensures
        sql.filter(membership(fs, false)).len() == 0,
        fs.filter(membership(sql, false)).len() == 0,
        sync_steps(dims, dims, Seq::empty(), pending, Seq::empty(), changed_ids(kept, changed)) == id_events(
            IdEventKind::Pending,
            pending,
        ).push(SyncEvent::Done { added: 0, removed: 0, updated: 0 }),
{
    let removed = sql.filter(membership(fs, false));
    let added = fs.filter(membership(sql, false));
    if removed.len() > 0 {
        sql.lemma_filter_pred(membership(fs, false), 0);
        sql.lemma_filter_contains_rev(membership(fs, false), removed[0]);
        assert(fs.contains(removed[0]));
    }
    if added.len() > 0 {
        fs.lemma_filter_pred(membership(sql, false), 0);
        fs.lemma_filter_contains_rev(membership(sql, false), added[0]);
        assert(sql.contains(added[0]));
    }
    lemma_unchanged_prefix(kept, changed, kept.len());
    assert(dims_steps(dims, dims) == Seq::<SyncEvent>::empty());
    assert(id_events(IdEventKind::Removed, Seq::empty()) =~= Seq::<SyncEvent>::empty());
    assert(added_events(Seq::empty()) =~= Seq::<SyncEvent>::empty());
    assert(id_events(IdEventKind::Updated, Seq::empty()) =~= Seq::<SyncEvent>::empty());
    assert(Seq::<SyncEvent>::empty() + Seq::<SyncEvent>::empty() + id_events(IdEventKind::Pending, pending)
        + Seq::<SyncEvent>::empty() + Seq::<SyncEvent>::empty() =~= id_events(IdEventKind::Pending, pending));
}

/// Whether a file of type `extension` is text, whose terms are indexed.
pub fn is_text(extension: &str) -> (b: bool)
    ensures
        b == crate::text::starts_with(extension@, "text/"@),
{
    crate::text::chars_start_with(&chars_of(extension), &chars_of("text/"))
}

/// Whether a file whose content now hashes to `current_hash` has changed since the
/// hash `stored_hash` was recorded.
pub fn needs_update(current_hash: &str, stored_hash: &str) -> (b: bool)
    ensures
        b == (current_hash@ != stored_hash@),
{
    !chars_eq(&chars_of(current_hash), &chars_of(stored_hash))
}

} // verus!
