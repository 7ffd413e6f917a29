//! Applying the changes of a diff brings the repository in line with the
//! notes: the diff computed afterwards is empty.
//!
//! The repository is modelled by the manifest's map (note id → filename)
//! and by its files (filename → contents). Applying a change writes the
//! note's rendering to its filename and records that filename, or removes
//! a deleted note's file and entry; `plan_change` and `record_change` do
//! exactly this (`lemma_written_name`).
use vstd::prelude::*;
use vstd::relations::injective_on;
use vstd::set_lib::{lemma_int_range, lemma_len_subset, lemma_map_size, set_int_range};

use crate::db::models::NoteView;
use crate::export::diff::{
    ChangeView, deletions, diff_spec, exported_text, file_contents, has_id, kept_notes,
    lemma_deletions_from, lemma_note_changes_from, modified_spec, note_change, note_changes,
    written_name_ok,
};
use crate::export::filemap::{
    base_name, candidate, entries_map, is_first_free, keys_distinct, lemma_candidate_injective,
    lemma_entries_map_dom, lemma_entries_map_value, name_taken,
};
use crate::config::ExportConfig;

verus! {

/// Files of the repository: filename → contents.
pub type Files = Map<Seq<char>, Seq<char>>;

/// The manifest as a map: note id → filename.
pub type Entries = Map<Seq<char>, Seq<char>>;

/// The contents of a file, if it exists.
pub open spec fn map_get(fs: Files, f: Seq<char>) -> Option<Seq<char>> {
    if fs.contains_key(f) {
        Some(fs[f])
    } else {
        None
    }
}

/// No two notes share a filename.
pub open spec fn filenames_distinct(m: Entries) -> bool {
    forall|a: Seq<char>, b: Seq<char>|
        m.contains_key(a) && m.contains_key(b) && a != b ==> #[trigger] m[a] != #[trigger] m[b]
}

/// No two notes share an id.
pub open spec fn ids_distinct(ns: Seq<NoteView>) -> bool {
    forall|i: int, j: int| 0 <= i < j < ns.len() ==> ns[i].id != ns[j].id
}

/// The listing `files` shows, for every manifest filename, what is on disk.
pub open spec fn files_show(files: Seq<(Seq<char>, Seq<char>)>, m: Entries, fs: Files) -> bool {
    forall|k: Seq<char>| #[trigger] m.contains_key(k) ==> file_contents(files, m[k]) == map_get(fs, m[k])
}

/// `name` is the filename of a note other than `id`.
pub open spec fn map_taken(m: Entries, id: Seq<char>, name: Seq<char>) -> bool {
    exists|k: Seq<char>| m.contains_key(k) && k != id && #[trigger] m[k] == name
}

/// `name` is the first candidate for `base` that no other note uses.
pub open spec fn is_first_free_map(m: Entries, id: Seq<char>, base: Seq<char>, name: Seq<char>) -> bool {
    exists|k: nat|
        #![trigger candidate(base, k)]
        k >= 1 && name == candidate(base, k) && !map_taken(m, id, name) && forall|j: nat|
            1 <= j < k ==> map_taken(m, id, #[trigger] candidate(base, j))
}

/// The filename that generating a name for note `id` gives.
pub open spec fn first_free_name(m: Entries, id: Seq<char>, base: Seq<char>) -> Seq<char> {
    choose|name: Seq<char>| is_first_free_map(m, id, base, name)
}

/// The filename a change writes to.
pub open spec fn written_name(c: ChangeView, m: Entries, cfg: ExportConfig) -> Seq<char> {
    match c {
        ChangeView::Added(n) => first_free_name(m, n.id, base_name(n, cfg.filename_strategy)),
        ChangeView::Modified(n) => if m.contains_key(n.id) {
            m[n.id]
        } else {
            first_free_name(m, n.id, base_name(n, cfg.filename_strategy))
        },
        ChangeView::Deleted { filename, .. } => filename,
    }
}

/// The repository after applying one change.
pub open spec fn apply_change_spec(c: ChangeView, m: Entries, fs: Files, cfg: ExportConfig) -> (
    Entries,
    Files,
) {
    match c {
        ChangeView::Added(n) => {
            let f = written_name(c, m, cfg);
            (m.insert(n.id, f), fs.insert(f, exported_text(n, cfg)))
        },
        ChangeView::Modified(n) => {
            let f = written_name(c, m, cfg);
            (m.insert(n.id, f), fs.insert(f, exported_text(n, cfg)))
        },
        ChangeView::Deleted { id, filename } => (m.remove(id), fs.remove(filename)),
    }
}

/// The repository after applying changes in order.
pub open spec fn apply_changes_spec(cs: Seq<ChangeView>, m: Entries, fs: Files, cfg: ExportConfig) -> (
    Entries,
    Files,
)
    decreases cs.len(),
{
    if cs.len() == 0 {
        (m, fs)
    } else {
        let prev = apply_changes_spec(cs.drop_last(), m, fs, cfg);
        apply_change_spec(cs.last(), prev.0, prev.1, cfg)
    }
}

// ---------------------------------------------------------------------
// Generated names
// ---------------------------------------------------------------------

/// With distinct ids, a name is taken in the entry list exactly when it is
/// taken in the map.
pub proof fn lemma_taken_map(e: Seq<(String, String)>, id: Seq<char>, name: Seq<char>)
    requires
        keys_distinct(e),
    ensures
        name_taken(e, id, name) <==> map_taken(entries_map(e), id, name),
{
    let m = entries_map(e);
    if name_taken(e, id, name) {
        let i = choose|i: int| 0 <= i < e.len() && e[i].0@ != id && #[trigger] e[i].1@ == name;
        lemma_entries_map_value(e, i);
        assert(m[e[i].0@] == name);
    }
    if map_taken(m, id, name) {
        let k = choose|k: Seq<char>| m.contains_key(k) && k != id && #[trigger] m[k] == name;
        lemma_entries_map_dom(e, k);
        let i = choose|i: int| 0 <= i < e.len() && #[trigger] e[i].0@ == k;
        lemma_entries_map_value(e, i);
        assert(e[i].1@ == name);
    }
}

/// The first free name of the entry list is the first free name of its map.
pub proof fn lemma_first_free_map(e: Seq<(String, String)>, id: Seq<char>, base: Seq<char>, name: Seq<char>)
    requires
        keys_distinct(e),
        is_first_free(e, id, base, name),
    ensures
        is_first_free_map(entries_map(e), id, base, name),
        name == first_free_name(entries_map(e), id, base),
{
    let m = entries_map(e);
    let k = choose|k: nat|
        #![trigger candidate(base, k)]
        k >= 1 && name == candidate(base, k) && !name_taken(e, id, name) && forall|j: nat|
            1 <= j < k ==> name_taken(e, id, #[trigger] candidate(base, j));
    lemma_taken_map(e, id, name);
    assert forall|j: nat| 1 <= j < k implies map_taken(m, id, #[trigger] candidate(base, j)) by {
        lemma_taken_map(e, id, candidate(base, j));
    }
    assert(is_first_free_map(m, id, base, name));
    lemma_first_free_unique(m, id, base, name, first_free_name(m, id, base));
}

/// There is one first free name.
pub proof fn lemma_first_free_unique(m: Entries, id: Seq<char>, base: Seq<char>, a: Seq<char>, b: Seq<char>)
    requires
        is_first_free_map(m, id, base, a),
        is_first_free_map(m, id, base, b) || b == first_free_name(m, id, base),
    ensures
        a == b,
{
    if !is_first_free_map(m, id, base, b) {
        assert(is_first_free_map(m, id, base, first_free_name(m, id, base)));
    }
    let ka = choose|k: nat|
        #![trigger candidate(base, k)]
        k >= 1 && a == candidate(base, k) && !map_taken(m, id, a) && forall|j: nat|
            1 <= j < k ==> map_taken(m, id, #[trigger] candidate(base, j));
    let kb = choose|k: nat|
        #![trigger candidate(base, k)]
        k >= 1 && b == candidate(base, k) && !map_taken(m, id, b) && forall|j: nat|
            1 <= j < k ==> map_taken(m, id, #[trigger] candidate(base, j));
    if ka < kb {
        assert(map_taken(m, id, candidate(base, ka)));
    } else if kb < ka {
        assert(map_taken(m, id, candidate(base, kb)));
    }
}

/// A generated filename is never another note's filename, so recording it
/// keeps every note's filename its own.
pub proof fn law_generated_name_keeps_filenames_distinct(
    e: Seq<(String, String)>,
    id: Seq<char>,
    base: Seq<char>,
    name: Seq<char>,
)
    requires
        keys_distinct(e),
        filenames_distinct(entries_map(e)),
        is_first_free(e, id, base, name),
    ensures
        !name_taken(e, id, name),
        filenames_distinct(entries_map(e).insert(id, name)),
{
    let m = entries_map(e);
    let m2 = m.insert(id, name);
    lemma_first_free_map(e, id, base, name);
    assert forall|a: Seq<char>, b: Seq<char>|
        m2.contains_key(a) && m2.contains_key(b) && a != b implies #[trigger] m2[a] != #[trigger] m2[b] by {
        if a == id {
            if m2[b] == name {
                assert(m[b] == name);
                assert(map_taken(m, id, name));
            }
        } else if b == id {
            if m2[a] == name {
                assert(m[a] == name);
                assert(map_taken(m, id, name));
            }
        } else {
            assert(m2[a] == m[a] && m2[b] == m[b]);
        }
    }
    lemma_taken_map(e, id, name);
}

/// A note whose own entry already has the stem's first filename gets that
/// filename again: a note never collides with itself.
pub proof fn law_own_name_is_kept(e: Seq<(String, String)>, id: Seq<char>, base: Seq<char>, name: Seq<char>)
    requires
        keys_distinct(e),
        filenames_distinct(entries_map(e)),
        entries_map(e).contains_key(id),
        entries_map(e)[id] == candidate(base, 1),
        is_first_free(e, id, base, name),
    ensures
        name == candidate(base, 1),
{
    let m = entries_map(e);
    let c1 = candidate(base, 1);
    lemma_first_free_map(e, id, base, name);
    if map_taken(m, id, c1) {
        let k = choose|k: Seq<char>| m.contains_key(k) && k != id && #[trigger] m[k] == c1;
        assert(m[k] != m[id]);
    }
    assert(is_first_free_map(m, id, base, c1));
    lemma_first_free_unique(m, id, base, c1, name);
}

/// If the first `k` candidates are all taken, the map has at least `k` ids.
pub proof fn lemma_map_taken_bound(m: Entries, id: Seq<char>, base: Seq<char>, k: nat)
    requires
        m.dom().finite(),
        forall|j: nat| 1 <= j <= k ==> map_taken(m, id, #[trigger] candidate(base, j)),
    ensures
        k <= m.dom().len(),
{
    let xs = set_int_range(1, k + 1 as int);
    lemma_int_range(1, k + 1 as int);
    let f = |j: int| choose|key: Seq<char>| m.contains_key(key) && key != id && #[trigger] m[key] == candidate(base, j as nat);
    assert forall|j: int| xs.contains(j) implies m.contains_key(#[trigger] f(j)) && m[f(j)]
        == candidate(base, j as nat) by {
        assert(map_taken(m, id, candidate(base, j as nat)));
    }
    assert(injective_on(f, xs)) by {
        assert forall|a: int, b: int| xs.contains(a) && xs.contains(b) && #[trigger] f(a) == #[trigger] f(
            b,
        ) implies a == b by {
            lemma_candidate_injective(base, a as nat, b as nat);
        }
    }
    let ys = xs.map(f);
    lemma_map_size(xs, ys, f);
    assert(ys.subset_of(m.dom()));
    lemma_len_subset(ys, m.dom());
}

/// Some candidate is free, so the first free name exists.
pub proof fn lemma_first_free_exists(m: Entries, id: Seq<char>, base: Seq<char>)
    requires
        m.dom().finite(),
    ensures
        is_first_free_map(m, id, base, first_free_name(m, id, base)),
{
    lemma_first_free_search(m, id, base, 0);
}

/// Searching from `k + 1`, with the first `k` candidates taken, finds a free one.
proof fn lemma_first_free_search(m: Entries, id: Seq<char>, base: Seq<char>, k: nat)
    requires
        m.dom().finite(),
        forall|j: nat| 1 <= j <= k ==> map_taken(m, id, #[trigger] candidate(base, j)),
    ensures
        is_first_free_map(m, id, base, first_free_name(m, id, base)),
    decreases m.dom().len() + 1 - k,
{
    lemma_map_taken_bound(m, id, base, k);
    let next = candidate(base, k + 1);
    if !map_taken(m, id, next) {
        assert(is_first_free_map(m, id, base, next)) by {
            assert(forall|j: nat| 1 <= j < k + 1 ==> map_taken(m, id, #[trigger] candidate(base, j)));
        }
    } else {
        assert forall|j: nat| 1 <= j <= k + 1 implies map_taken(m, id, #[trigger] candidate(base, j)) by {
            if j == k + 1 {
                assert(candidate(base, j) == next);
            }
        }
        lemma_map_taken_bound(m, id, base, k + 1);
        lemma_first_free_search(m, id, base, k + 1);
    }
}

/// The filename that `plan_change` writes a note to is the one the model
/// applies.
pub proof fn lemma_written_name(c: ChangeView, e: Seq<(String, String)>, cfg: ExportConfig, f: Seq<char>)
    requires
        keys_distinct(e),
        written_name_ok(c, e, cfg, f),
    ensures
        f == written_name(c, entries_map(e), cfg),
{
    match c {
        ChangeView::Added(n) => {
            lemma_first_free_map(e, n.id, base_name(n, cfg.filename_strategy), f);
        },
        ChangeView::Modified(n) => {
            if !entries_map(e).contains_key(n.id) {
                lemma_first_free_map(e, n.id, base_name(n, cfg.filename_strategy), f);
            }
        },
        ChangeView::Deleted { .. } => {},
    }
}

// ---------------------------------------------------------------------
// Convergence
// ---------------------------------------------------------------------

/// Applying `a` then `b` is applying `a + b`.
pub proof fn lemma_apply_concat(a: Seq<ChangeView>, b: Seq<ChangeView>, m: Entries, fs: Files, cfg: ExportConfig)
    ensures
        apply_changes_spec(a + b, m, fs, cfg) == {
            let mid = apply_changes_spec(a, m, fs, cfg);
            apply_changes_spec(b, mid.0, mid.1, cfg)
        },
    decreases b.len(),
{
    if b.len() == 0 {
        assert(a + b == a);
    } else {
        lemma_apply_concat(a, b.drop_last(), m, fs, cfg);
        assert((a + b).drop_last() == a + b.drop_last());
        assert((a + b).last() == b.last());
    }
}

/// Recording the first free name of a note keeps filenames distinct.
proof fn lemma_insert_first_free(m: Entries, id: Seq<char>, base: Seq<char>)
    requires
        m.dom().finite(),
        filenames_distinct(m),
    ensures
        filenames_distinct(m.insert(id, first_free_name(m, id, base))),
{
    let name = first_free_name(m, id, base);
    lemma_first_free_exists(m, id, base);
    let m2 = m.insert(id, name);
    assert forall|a: Seq<char>, b: Seq<char>|
        m2.contains_key(a) && m2.contains_key(b) && a != b implies #[trigger] m2[a] != #[trigger] m2[b] by {
        if a == id {
            if m2[b] == name {
                assert(m[b] == name);
                assert(map_taken(m, id, name));
            }
        } else if b == id {
            if m2[a] == name {
                assert(m[a] == name);
                assert(map_taken(m, id, name));
            }
        } else {
            assert(m2[a] == m[a] && m2[b] == m[b]);
        }
    }
}

/// Applying any changes keeps every note's filename its own: notes are
/// written under their recorded name or under a name no other note uses,
/// and deletions only drop entries. So the precondition of
/// `law_sync_converges` holds again after every sync.
pub proof fn law_apply_keeps_filenames_distinct(cs: Seq<ChangeView>, m: Entries, fs: Files, cfg: ExportConfig)
    requires
        m.dom().finite(),
        filenames_distinct(m),
    ensures
        apply_changes_spec(cs, m, fs, cfg).0.dom().finite(),
        filenames_distinct(apply_changes_spec(cs, m, fs, cfg).0),
    decreases cs.len(),
{
    if cs.len() > 0 {
        law_apply_keeps_filenames_distinct(cs.drop_last(), m, fs, cfg);
        let prev = apply_changes_spec(cs.drop_last(), m, fs, cfg);
        let pm = prev.0;
        match cs.last() {
            ChangeView::Added(n) => {
                lemma_insert_first_free(pm, n.id, base_name(n, cfg.filename_strategy));
            },
            ChangeView::Modified(n) => {
                if pm.contains_key(n.id) {
                    let m2 = pm.insert(n.id, pm[n.id]);
                    assert(m2 == pm);
                } else {
                    lemma_insert_first_free(pm, n.id, base_name(n, cfg.filename_strategy));
                }
            },
            ChangeView::Deleted { id, .. } => {
                let m2 = pm.remove(id);
                assert forall|a: Seq<char>, b: Seq<char>|
                    m2.contains_key(a) && m2.contains_key(b) && a != b implies #[trigger] m2[a]
                    != #[trigger] m2[b] by {
                    assert(pm[a] != pm[b]);
                }
            },
        }
    }
}

/// The note id a change is about.
pub open spec fn change_id(c: ChangeView) -> Seq<char> {
    match c {
        ChangeView::Added(n) => n.id,
        ChangeView::Modified(n) => n.id,
        ChangeView::Deleted { id, .. } => id,
    }
}

/// The note a change writes, if it writes one.
pub open spec fn written_note(c: ChangeView) -> Option<NoteView> {
    match c {
        ChangeView::Added(n) => Some(n),
        ChangeView::Modified(n) => Some(n),
        ChangeView::Deleted { .. } => None,
    }
}

/// Changes in the shape `compute_diff` gives them, from manifest `m`: each
/// note id occurs once, every deletion comes after every write, and each
/// deletion names the recorded filename of a recorded note.
pub open spec fn diff_shaped(cs: Seq<ChangeView>, m: Entries) -> bool {
    &&& forall|i: int, j: int| 0 <= i < j < cs.len() ==> change_id(cs[i]) != change_id(cs[j])
    &&& forall|i: int, j: int|
        #![trigger cs[i], written_note(cs[j])]
        0 <= i < j < cs.len() && cs[i] is Deleted ==> written_note(cs[j]) is None
    &&& forall|i: int|
        0 <= i < cs.len() ==> match #[trigger] cs[i] {
            ChangeView::Deleted { id, filename } => m.contains_key(id) && m[id] == filename,
            _ => true,
        }
}

/// No change is about note `k`.
pub open spec fn untouched(cs: Seq<ChangeView>, k: Seq<char>) -> bool {
    forall|i: int| 0 <= i < cs.len() ==> change_id(#[trigger] cs[i]) != k
}

/// What applying changes leaves: every written note's file holds its
/// rendering under its recorded filename (a modified note that had a
/// filename keeps it), every deleted note has neither entry nor file, and
/// every other note keeps its entry.
pub open spec fn applied_as_promised(cs: Seq<ChangeView>, m: Entries, mf: Entries, ff: Files, cfg: ExportConfig) -> bool {
    &&& forall|i: int|
        #![trigger written_note(cs[i])]
        0 <= i < cs.len() && written_note(cs[i]) is Some ==> {
            let n = written_note(cs[i])->0;
            &&& mf.contains_key(n.id)
            &&& ff.contains_key(mf[n.id])
            &&& ff[mf[n.id]] == exported_text(n, cfg)
            &&& cs[i] is Modified && m.contains_key(n.id) ==> mf[n.id] == m[n.id]
        }
    &&& forall|i: int|
        0 <= i < cs.len() ==> match #[trigger] cs[i] {
            ChangeView::Deleted { id, filename } => !mf.contains_key(id) && !ff.contains_key(filename),
            _ => true,
        }
    &&& forall|k: Seq<char>|
        #![trigger untouched(cs, k)]
        untouched(cs, k) ==> {
            &&& (mf.contains_key(k) <==> m.contains_key(k))
            &&& m.contains_key(k) ==> mf[k] == m[k]
        }
}

/// Two writes of the diff's first part come from notes in the same order.
proof fn lemma_note_changes_order(
    ns: Seq<NoteView>,
    m: Entries,
    files: Seq<(Seq<char>, Seq<char>)>,
    cfg: ExportConfig,
    k1: int,
    k2: int,
)
    requires
        0 <= k1 < k2 < note_changes(ns, m, files, cfg).len(),
    ensures
        exists|j1: int, j2: int|
            0 <= j1 < j2 < ns.len() && change_id(note_changes(ns, m, files, cfg)[k1]) == ns[j1].id
                && change_id(note_changes(ns, m, files, cfg)[k2]) == ns[j2].id,
    decreases ns.len(),
{
    let p = ns.drop_last();
    let prev = note_changes(p, m, files, cfg);
    let nc = note_changes(ns, m, files, cfg);
    assert(nc == prev + note_change(ns.last(), m, files, cfg));
    if k2 < prev.len() {
        lemma_note_changes_order(p, m, files, cfg, k1, k2);
        let (j1, j2) = choose|j1: int, j2: int|
            0 <= j1 < j2 < p.len() && change_id(prev[k1]) == p[j1].id && change_id(prev[k2]) == p[j2].id;
        assert(ns[j1] == p[j1] && ns[j2] == p[j2]);
    } else {
        lemma_note_changes_from(p, m, files, cfg, k1);
        let j1 = choose|j: int|
            0 <= j < p.len() && (prev[k1] == ChangeView::Added(p[j]) || prev[k1] == ChangeView::Modified(p[j]));
        assert(ns[j1] == p[j1]);
        assert(change_id(nc[k2]) == ns[ns.len() - 1].id);
    }
}

/// Two deletions come from manifest entries in the same order.
proof fn lemma_deletions_order(e: Seq<(String, String)>, live: Seq<NoteView>, k1: int, k2: int)
    requires
        0 <= k1 < k2 < deletions(e, live).len(),
    ensures
        exists|i1: int, i2: int|
            0 <= i1 < i2 < e.len() && change_id(deletions(e, live)[k1]) == e[i1].0@
                && change_id(deletions(e, live)[k2]) == e[i2].0@,
    decreases e.len(),
{
    let p = e.drop_last();
    let prev = deletions(p, live);
    if has_id(live, e.last().0@) {
        lemma_deletions_order(p, live, k1, k2);
        let (i1, i2) = choose|i1: int, i2: int|
            0 <= i1 < i2 < p.len() && change_id(prev[k1]) == p[i1].0@ && change_id(prev[k2]) == p[i2].0@;
        assert(e[i1] == p[i1] && e[i2] == p[i2]);
    } else if k2 < prev.len() {
        lemma_deletions_order(p, live, k1, k2);
        let (i1, i2) = choose|i1: int, i2: int|
            0 <= i1 < i2 < p.len() && change_id(prev[k1]) == p[i1].0@ && change_id(prev[k2]) == p[i2].0@;
        assert(e[i1] == p[i1] && e[i2] == p[i2]);
    } else {
        lemma_deletions_from(p, live, k1);
        let i1 = choose|i: int|
            0 <= i < p.len() && prev[k1] == (ChangeView::Deleted { id: p[i].0@, filename: p[i].1@ })
                && !has_id(live, p[i].0@);
        assert(e[i1] == p[i1]);
        assert(e[e.len() - 1] == e.last());
    }
}

/// The diff has the shape `law_apply_final_state` asks for, when the
/// manifest records each id once and the exported notes have distinct ids.
pub proof fn lemma_diff_shaped(
    notes: Seq<NoteView>,
    e: Seq<(String, String)>,
    files: Seq<(Seq<char>, Seq<char>)>,
    exclude: Seq<Seq<char>>,
    cfg: ExportConfig,
)
    requires
        keys_distinct(e),
        ids_distinct(kept_notes(notes, exclude)),
    ensures
        diff_shaped(diff_spec(notes, e, files, exclude, cfg), entries_map(e)),
{
    let live = kept_notes(notes, exclude);
    let m = entries_map(e);
    let nc = note_changes(live, m, files, cfg);
    let dels = deletions(e, live);
    let d = diff_spec(notes, e, files, exclude, cfg);
    assert(d == nc + dels);
    assert forall|i: int| 0 <= i < nc.len() implies (#[trigger] written_note(nc[i])) is Some && has_id(
        live,
        change_id(nc[i]),
    ) by {
        lemma_note_changes_from(live, m, files, cfg, i);
        let j = choose|j: int|
            0 <= j < live.len() && (nc[i] == ChangeView::Added(live[j]) || nc[i] == ChangeView::Modified(live[j]));
        assert(live[j].id == change_id(nc[i]));
    }
    assert forall|i: int| 0 <= i < dels.len() implies match #[trigger] dels[i] {
        ChangeView::Deleted { id, filename } => m.contains_key(id) && m[id] == filename && !has_id(live, id),
        _ => false,
    } by {
        lemma_deletions_from(e, live, i);
        let k = choose|k: int|
            0 <= k < e.len() && dels[i] == (ChangeView::Deleted { id: e[k].0@, filename: e[k].1@ })
                && !has_id(live, e[k].0@);
        lemma_entries_map_value(e, k);
    }
    assert forall|i: int, j: int| 0 <= i < j < d.len() implies change_id(d[i]) != change_id(d[j]) by {
        if j < nc.len() {
            assert(d[i] == nc[i] && d[j] == nc[j]);
            lemma_note_changes_order(live, m, files, cfg, i, j);
        } else if i < nc.len() {
            assert(d[i] == nc[i] && d[j] == dels[j - nc.len()]);
            assert(written_note(nc[i]) is Some);
            assert(has_id(live, change_id(nc[i])));
        } else {
            assert(d[i] == dels[i - nc.len()] && d[j] == dels[j - nc.len()]);
            lemma_deletions_order(e, live, i - nc.len(), j - nc.len());
        }
    }
    assert forall|i: int, j: int|
        #![trigger d[i], written_note(d[j])]
        0 <= i < j < d.len() && d[i] is Deleted implies written_note(d[j]) is None by {
        if i < nc.len() {
            assert(d[i] == nc[i]);
            assert(written_note(nc[i]) is Some);
        } else {
            assert(d[j] == dels[j - nc.len()]);
            assert(match dels[j - nc.len()] { ChangeView::Deleted { .. } => true, _ => false });
        }
    }
    assert forall|i: int| 0 <= i < d.len() implies match #[trigger] d[i] {
        ChangeView::Deleted { id, filename } => m.contains_key(id) && m[id] == filename,
        _ => true,
    } by {
        if i < nc.len() {
            assert(d[i] == nc[i]);
            assert(written_note(nc[i]) is Some);
        } else {
            assert(d[i] == dels[i - nc.len()]);
            assert(match dels[i - nc.len()] {
                ChangeView::Deleted { id, filename } => m.contains_key(id) && m[id] == filename && !has_id(live, id),
                _ => false,
            });
        }
    }
}

/// A note no change is about keeps its entry.
proof fn lemma_untouched_kept(cs: Seq<ChangeView>, m: Entries, mf: Entries, ff: Files, cfg: ExportConfig, k: Seq<char>)
    requires
        applied_as_promised(cs, m, mf, ff, cfg),
        untouched(cs, k),
    ensures
        mf.contains_key(k) == m.contains_key(k),
        m.contains_key(k) ==> mf[k] == m[k],
{
}

/// The filename a change writes is its recorded one, or else one no other
/// note uses.
proof fn lemma_written_name_free(c: ChangeView, m: Entries, cfg: ExportConfig)
    requires
        m.dom().finite(),
        written_note(c) is Some,
    ensures
        ({
            let n = written_note(c)->0;
            let f = written_name(c, m, cfg);
            &&& c is Modified && m.contains_key(n.id) ==> f == m[n.id]
            &&& !(c is Modified && m.contains_key(n.id)) ==> !map_taken(m, n.id, f)
        }),
{
    let n = written_note(c)->0;
    lemma_first_free_exists(m, n.id, base_name(n, cfg.filename_strategy));
}

/// Applying changes shaped as a diff, from a manifest that gives distinct
/// notes distinct filenames, does what `apply_changes` promises
/// (`applied_as_promised`).
#[verifier::spinoff_prover]
pub proof fn law_apply_final_state(cs: Seq<ChangeView>, m: Entries, fs: Files, cfg: ExportConfig)
    requires
        m.dom().finite(),
        filenames_distinct(m),
        diff_shaped(cs, m),
    ensures
        applied_as_promised(cs, m, apply_changes_spec(cs, m, fs, cfg).0, apply_changes_spec(cs, m, fs, cfg).1, cfg),
    decreases cs.len(),
{
    let (mf, ff) = apply_changes_spec(cs, m, fs, cfg);
    if cs.len() == 0 {
        return;
    }
    let p = cs.drop_last();
    let c = cs.last();
    let last = cs.len() - 1;
    assert forall|i: int| 0 <= i < p.len() implies #[trigger] p[i] == cs[i] by {}
    assert(diff_shaped(p, m)) by {
        assert forall|i: int, j: int| 0 <= i < j < p.len() implies change_id(p[i]) != change_id(p[j]) by {
            assert(p[i] == cs[i] && p[j] == cs[j]);
        }
        assert forall|i: int, j: int|
            #![trigger p[i], written_note(p[j])]
            0 <= i < j < p.len() && p[i] is Deleted implies written_note(p[j]) is None by {
            assert(p[i] == cs[i] && p[j] == cs[j]);
            assert(written_note(cs[j]) is None);
        }
        assert forall|i: int| 0 <= i < p.len() implies match #[trigger] p[i] {
            ChangeView::Deleted { id, filename } => m.contains_key(id) && m[id] == filename,
            _ => true,
        } by {
            assert(p[i] == cs[i]);
        }
    }
    law_apply_final_state(p, m, fs, cfg);
    law_apply_keeps_filenames_distinct(p, m, fs, cfg);
    let (pm, pf) = apply_changes_spec(p, m, fs, cfg);
    assert(c == cs[last]);
    // The note of the last change is not touched by the earlier ones.
    assert forall|i: int| 0 <= i < p.len() implies change_id(#[trigger] p[i]) != change_id(c) by {
        assert(p[i] == cs[i]);
    }
    let cid = change_id(c);
    assert(untouched(p, cid));
    lemma_untouched_kept(p, m, pm, pf, cfg, cid);
    assert(pm.contains_key(cid) == m.contains_key(cid) && (m.contains_key(cid) ==> pm[cid] == m[cid]));
    match c {
        ChangeView::Deleted { id, filename } => {
            assert(mf == pm.remove(id) && ff == pf.remove(filename));
            // No earlier change wrote: deletions come after writes.
            assert forall|i: int| #![trigger written_note(cs[i])]
                0 <= i < cs.len() && written_note(cs[i]) is Some implies {
                    let n = written_note(cs[i])->0;
                    &&& mf.contains_key(n.id)
                    &&& ff.contains_key(mf[n.id])
                    &&& ff[mf[n.id]] == exported_text(n, cfg)
                    &&& cs[i] is Modified && m.contains_key(n.id) ==> mf[n.id] == m[n.id]
                } by {
                if i == last {
                    assert(written_note(cs[last]) is None);
                } else {
                    let n = written_note(cs[i])->0;
                    assert(p[i] == cs[i]);
                    assert(written_note(p[i]) is Some);
                    assert(change_id(cs[i]) == n.id);
                    assert(n.id != id);
                    assert(pm.contains_key(id) && pm[id] == filename);
                    assert(pm[n.id] != pm[id]);
                }
            }
            assert forall|i: int| 0 <= i < cs.len() implies match #[trigger] cs[i] {
                ChangeView::Deleted { id, filename } => !mf.contains_key(id) && !ff.contains_key(filename),
                _ => true,
            } by {
                if i < last {
                    assert(p[i] == cs[i]);
                }
            }
            assert forall|k: Seq<char>|
                #![trigger untouched(cs, k)]
                untouched(cs, k) implies {
                    &&& (mf.contains_key(k) <==> m.contains_key(k))
                    &&& m.contains_key(k) ==> mf[k] == m[k]
                } by {
                assert(change_id(cs[last]) != k);
                assert forall|i: int| 0 <= i < p.len() implies change_id(#[trigger] p[i]) != k by {
                    assert(p[i] == cs[i]);
                    assert(change_id(cs[i]) != k);
                }
                assert(untouched(p, k));
                lemma_untouched_kept(p, m, pm, pf, cfg, k);
                assert(pm.contains_key(k) == m.contains_key(k));
            }
        },
        _ => {
            let n = written_note(c)->0;
            let f = written_name(c, pm, cfg);
            assert(mf == pm.insert(n.id, f) && ff == pf.insert(f, exported_text(n, cfg)));
            lemma_written_name_free(c, pm, cfg);
            assert forall|i: int| #![trigger written_note(cs[i])]
                0 <= i < cs.len() && written_note(cs[i]) is Some implies {
                    let ni = written_note(cs[i])->0;
                    &&& mf.contains_key(ni.id)
                    &&& ff.contains_key(mf[ni.id])
                    &&& ff[mf[ni.id]] == exported_text(ni, cfg)
                    &&& cs[i] is Modified && m.contains_key(ni.id) ==> mf[ni.id] == m[ni.id]
                } by {
                if i < last {
                    let ni = written_note(cs[i])->0;
                    assert(p[i] == cs[i]);
                    assert(written_note(p[i]) is Some);
                    assert(change_id(cs[i]) == ni.id);
                    assert(ni.id != n.id);
                    assert(pm.contains_key(ni.id));
                    if c is Modified && pm.contains_key(n.id) {
                        assert(pm[ni.id] != pm[n.id]);
                    } else {
                        if pm[ni.id] == f {
                            assert(map_taken(pm, n.id, f));
                        }
                    }
                }
            }
            assert forall|i: int| 0 <= i < cs.len() implies match #[trigger] cs[i] {
                ChangeView::Deleted { id, filename } => !mf.contains_key(id) && !ff.contains_key(filename),
                _ => true,
            } by {
                if i < last {
                    assert(p[i] == cs[i]);
                    // A deletion before a write cannot be.
                    assert(written_note(cs[last]) is Some);
                }
            }
            assert forall|k: Seq<char>|
                #![trigger untouched(cs, k)]
                untouched(cs, k) implies {
                    &&& (mf.contains_key(k) <==> m.contains_key(k))
                    &&& m.contains_key(k) ==> mf[k] == m[k]
                } by {
                assert(change_id(cs[last]) != k);
                assert forall|i: int| 0 <= i < p.len() implies change_id(#[trigger] p[i]) != k by {
                    assert(p[i] == cs[i]);
                    assert(change_id(cs[i]) != k);
                }
                assert(untouched(p, k));
                lemma_untouched_kept(p, m, pm, pf, cfg, k);
                assert(pm.contains_key(k) == m.contains_key(k));
            }
        },
    }
}

/// The state after handling the first `k` exported notes.
pub open spec fn notes_handled(
    live: Seq<NoteView>,
    k: int,
    m: Entries,
    fs: Files,
    mk: Entries,
    fsk: Files,
    cfg: ExportConfig,
) -> bool {
    &&& mk.dom().finite()
    &&& filenames_distinct(mk)
    &&& forall|id: Seq<char>| #[trigger] mk.contains_key(id) <==> (m.contains_key(id) || has_id(live.take(k), id))
    &&& forall|id: Seq<char>| #[trigger] m.contains_key(id) ==> mk[id] == m[id]
    &&& forall|j: int| 0 <= j < k ==> map_get(fsk, mk[#[trigger] live[j].id]) == Some(exported_text(live[j], cfg))
    &&& forall|id: Seq<char>|
        #[trigger] m.contains_key(id) && !has_id(live.take(k), id) ==> map_get(fsk, m[id]) == map_get(fs, m[id])
}

/// Handling one more exported note keeps `notes_handled`.
proof fn lemma_handle_note(
    live: Seq<NoteView>,
    k: int,
    m: Entries,
    fs: Files,
    files: Seq<(Seq<char>, Seq<char>)>,
    mk: Entries,
    fsk: Files,
    cfg: ExportConfig,
)
    requires
        0 <= k < live.len(),
        ids_distinct(live),
        files_show(files, m, fs),
        notes_handled(live, k, m, fs, mk, fsk, cfg),
    ensures
        ({
            let next = apply_changes_spec(note_change(live[k], m, files, cfg), mk, fsk, cfg);
            notes_handled(live, k + 1, m, fs, next.0, next.1, cfg)
        }),
{
    let n = live[k];
    let c = note_change(n, m, files, cfg);
    let next = apply_changes_spec(c, mk, fsk, cfg);
    let (m2, fs2) = next;
    assert forall|id: Seq<char>| has_id(live.take(k + 1), id) <==> (has_id(live.take(k), id) || id == n.id) by {
        if has_id(live.take(k + 1), id) {
            let i = choose|i: int| 0 <= i < live.take(k + 1).len() && #[trigger] live.take(k + 1)[i].id == id;
            if i < k {
                assert(live.take(k)[i].id == id);
            }
        }
        if has_id(live.take(k), id) {
            let i = choose|i: int| 0 <= i < live.take(k).len() && #[trigger] live.take(k)[i].id == id;
            assert(live.take(k + 1)[i].id == id);
        }
        if id == n.id {
            assert(live.take(k + 1)[k].id == id);
        }
    }
    assert(!has_id(live.take(k), n.id)) by {
        if has_id(live.take(k), n.id) {
            let i = choose|i: int| 0 <= i < live.take(k).len() && #[trigger] live.take(k)[i].id == n.id;
            assert(live[i].id == n.id);
        }
    }
    if c.len() == 0 {
        // Unchanged: the note has a file and it already holds the rendering.
        assert(m.contains_key(n.id));
        assert(!modified_spec(n, file_contents(files, m[n.id]), cfg));
        assert(file_contents(files, m[n.id]) == map_get(fs, m[n.id]));
        assert(m2 == mk && fs2 == fsk);
        assert forall|j: int| 0 <= j < k + 1 implies map_get(fs2, m2[#[trigger] live[j].id]) == Some(
            exported_text(live[j], cfg),
        ) by {
            if j == k {
                assert(mk[n.id] == m[n.id]);
            }
        }
    } else {
        let ch = c[0];
        assert(c.drop_last() == Seq::<ChangeView>::empty());
        assert(apply_changes_spec(c.drop_last(), mk, fsk, cfg) == (mk, fsk));
        let f = written_name(ch, mk, cfg);
        let text = exported_text(n, cfg);
        assert(m2 == mk.insert(n.id, f));
        assert(fs2 == fsk.insert(f, text));
        // `f` is the note's own filename or one that no other note uses.
        let fresh = !m.contains_key(n.id);
        if fresh {
            assert(!mk.contains_key(n.id));
            lemma_first_free_exists(mk, n.id, base_name(n, cfg.filename_strategy));
            assert(f == first_free_name(mk, n.id, base_name(n, cfg.filename_strategy)));
            assert(!map_taken(mk, n.id, f));
        } else {
            assert(mk.contains_key(n.id) && f == mk[n.id]);
        }
        assert forall|id: Seq<char>| #[trigger] mk.contains_key(id) && id != n.id implies mk[id] != f by {
            if fresh {
                if mk[id] == f {
                    assert(map_taken(mk, n.id, f));
                }
            }
        }
        assert(m2.dom().finite());
        assert forall|a: Seq<char>, b: Seq<char>|
            m2.contains_key(a) && m2.contains_key(b) && a != b implies #[trigger] m2[a] != #[trigger] m2[b] by {
            if a != n.id && b != n.id {
                assert(mk[a] != mk[b]);
            }
        }
        assert forall|j: int| 0 <= j < k + 1 implies map_get(fs2, m2[#[trigger] live[j].id]) == Some(
            exported_text(live[j], cfg),
        ) by {
            if j < k {
                assert(live[j].id != n.id);
                assert(has_id(live.take(k), live[j].id)) by {
                    assert(live.take(k)[j].id == live[j].id);
                }
                assert(mk.contains_key(live[j].id));
                assert(mk[live[j].id] != f);
            }
        }
        assert forall|id: Seq<char>|
            #[trigger] m.contains_key(id) && !has_id(live.take(k + 1), id) implies map_get(fs2, m[id])
            == map_get(fs, m[id]) by {
            assert(id != n.id);
            assert(mk[id] == m[id]);
            assert(mk[id] != f);
        }
    }
}

/// After the additions and modifications, every exported note's file holds
/// its rendering.
proof fn lemma_notes_applied(
    live: Seq<NoteView>,
    k: int,
    m: Entries,
    fs: Files,
    files: Seq<(Seq<char>, Seq<char>)>,
    cfg: ExportConfig,
)
    requires
        0 <= k <= live.len(),
        ids_distinct(live),
        m.dom().finite(),
        filenames_distinct(m),
        files_show(files, m, fs),
    ensures
        ({
            let st = apply_changes_spec(note_changes(live.take(k), m, files, cfg), m, fs, cfg);
            notes_handled(live, k, m, fs, st.0, st.1, cfg)
        }),
    decreases k,
{
    if k == 0 {
        assert(live.take(0) == Seq::<NoteView>::empty());
        assert forall|id: Seq<char>| !has_id(live.take(0), id) by {}
    } else {
        lemma_notes_applied(live, k - 1, m, fs, files, cfg);
        let prev = apply_changes_spec(note_changes(live.take(k - 1), m, files, cfg), m, fs, cfg);
        lemma_handle_note(live, k - 1, m, fs, files, prev.0, prev.1, cfg);
        assert(live.take(k).drop_last() == live.take(k - 1));
        assert(live.take(k).last() == live[k - 1]);
        lemma_apply_concat(
            note_changes(live.take(k - 1), m, files, cfg),
            note_change(live[k - 1], m, files, cfg),
            m,
            fs,
            cfg,
        );
    }
}

/// The state after the deletions of the first `i` manifest entries.
pub open spec fn deletions_done(
    live: Seq<NoteView>,
    e: Seq<(String, String)>,
    i: int,
    mn: Entries,
    md: Entries,
    fsd: Files,
    cfg: ExportConfig,
) -> bool {
    &&& md.dom().finite()
    &&& filenames_distinct(md)
    &&& forall|id: Seq<char>| #[trigger] md.contains_key(id) ==> mn.contains_key(id) && md[id] == mn[id]
    &&& forall|id: Seq<char>|
        #[trigger] mn.contains_key(id) && !md.contains_key(id) ==> !has_id(live, id)
    &&& forall|j: int| 0 <= j < live.len() ==> #[trigger] md.contains_key(live[j].id) && map_get(
        fsd,
        md[live[j].id],
    ) == Some(exported_text(live[j], cfg))
    &&& forall|j: int| 0 <= j < i && !has_id(live, e[j].0@) ==> !#[trigger] md.contains_key(e[j].0@)
}

/// Applying the deletions removes every entry without an exported note and
/// keeps the files of the exported notes.
proof fn lemma_deletions_applied(
    live: Seq<NoteView>,
    e: Seq<(String, String)>,
    i: int,
    mn: Entries,
    fsn: Files,
    cfg: ExportConfig,
)
    requires
        0 <= i <= e.len(),
        keys_distinct(e),
        forall|k: Seq<char>| #[trigger] entries_map(e).contains_key(k) ==> mn.contains_key(k) && mn[k]
            == entries_map(e)[k],
        deletions_done(live, e, 0, mn, mn, fsn, cfg),
    ensures
        ({
            let st = apply_changes_spec(deletions(e.take(i), live), mn, fsn, cfg);
            deletions_done(live, e, i, mn, st.0, st.1, cfg)
        }),
    decreases i,
{
    if i == 0 {
        assert(e.take(0) == Seq::<(String, String)>::empty());
    } else {
        lemma_deletions_applied(live, e, i - 1, mn, fsn, cfg);
        let prev = apply_changes_spec(deletions(e.take(i - 1), live), mn, fsn, cfg);
        let (md, fsd) = prev;
        assert(e.take(i).drop_last() == e.take(i - 1));
        assert(e.take(i).last() == e[i - 1]);
        let id = e[i - 1].0@;
        if !has_id(live, id) {
            let f = e[i - 1].1@;
            let d = ChangeView::Deleted { id, filename: f };
            assert(deletions(e.take(i), live) == deletions(e.take(i - 1), live).push(d));
            let ds = deletions(e.take(i), live);
            assert(ds.drop_last() == deletions(e.take(i - 1), live));
            assert(ds.last() == d);
            let st = apply_changes_spec(ds, mn, fsn, cfg);
            assert(st == apply_change_spec(d, md, fsd, cfg));
            assert(st == (md.remove(id), fsd.remove(f)));
            lemma_entries_map_value(e, i - 1);
            assert(mn[id] == f);
            assert forall|j: int| 0 <= j < live.len() implies #[trigger] md.remove(id).contains_key(
                live[j].id,
            ) && map_get(fsd.remove(f), md.remove(id)[live[j].id]) == Some(exported_text(live[j], cfg)) by {
                assert(live[j].id != id);
                assert(md.contains_key(live[j].id));
                if md.contains_key(id) {
                    assert(md[id] == mn[id]);
                    assert(md[live[j].id] != md[id]);
                }
                else {
                    assert(mn.contains_key(live[j].id));
                    assert(md[live[j].id] == mn[live[j].id]);
                    assert(mn[live[j].id] != mn[id]) by {
                        assert(mn.contains_key(id));
                    }
                }
            }
            assert forall|j: int| 0 <= j < i && !has_id(live, e[j].0@) implies !#[trigger] md.remove(
                id,
            ).contains_key(e[j].0@) by {}
            assert forall|a: Seq<char>, b: Seq<char>|
                md.remove(id).contains_key(a) && md.remove(id).contains_key(b) && a != b implies
                #[trigger] md.remove(id)[a] != #[trigger] md.remove(id)[b] by {
                assert(md[a] != md[b]);
            }
        } else {
            assert(deletions(e.take(i), live) == deletions(e.take(i - 1), live));
        }
    }
}

/// The additions and modifications of a second diff are empty when every
/// exported note's file holds its rendering.
proof fn lemma_no_note_changes(
    live: Seq<NoteView>,
    k: int,
    m2: Entries,
    files2: Seq<(Seq<char>, Seq<char>)>,
    fs2: Files,
    cfg: ExportConfig,
)
    requires
        0 <= k <= live.len(),
        files_show(files2, m2, fs2),
        forall|j: int| 0 <= j < live.len() ==> #[trigger] m2.contains_key(live[j].id) && map_get(
            fs2,
            m2[live[j].id],
        ) == Some(exported_text(live[j], cfg)),
    ensures
        note_changes(live.take(k), m2, files2, cfg) == Seq::<ChangeView>::empty(),
    decreases k,
{
    if k > 0 {
        lemma_no_note_changes(live, k - 1, m2, files2, fs2, cfg);
        assert(live.take(k).drop_last() == live.take(k - 1));
        assert(live.take(k).last() == live[k - 1]);
        assert(m2.contains_key(live[k - 1].id));
        assert(note_change(live[k - 1], m2, files2, cfg) == Seq::<ChangeView>::empty());
    } else {
        assert(live.take(0) == Seq::<NoteView>::empty());
    }
}

/// The deletions of a second diff are empty when every manifest entry
/// belongs to an exported note.
proof fn lemma_no_deletions(e2: Seq<(String, String)>, i: int, live: Seq<NoteView>)
    requires
        0 <= i <= e2.len(),
        forall|j: int| 0 <= j < e2.len() ==> has_id(live, #[trigger] e2[j].0@),
    ensures
        deletions(e2.take(i), live) == Seq::<ChangeView>::empty(),
    decreases i,
{
    if i > 0 {
        lemma_no_deletions(e2, i - 1, live);
        assert(e2.take(i).drop_last() == e2.take(i - 1));
        assert(e2.take(i).last() == e2[i - 1]);
    } else {
        assert(e2.take(0) == Seq::<(String, String)>::empty());
    }
}

/// The manifest's map is finite.
pub proof fn lemma_entries_map_finite(e: Seq<(String, String)>)
    ensures
        entries_map(e).dom().finite(),
    decreases e.len(),
{
    if e.len() > 0 {
        lemma_entries_map_finite(e.drop_last());
    }
}

/// Syncing converges: apply the changes of a diff to the repository (write
/// each added or modified note's rendering to its filename and record it,
/// remove each deleted note's file and entry); the diff computed afterwards,
/// over the files then on disk, is empty. This holds when the exported notes
/// have distinct ids and the manifest gives distinct notes distinct
/// filenames, and `files` and `files2` show what is on disk for the
/// manifest's filenames before and after.
pub proof fn law_sync_converges(
    notes: Seq<NoteView>,
    e: Seq<(String, String)>,
    files: Seq<(Seq<char>, Seq<char>)>,
    fs: Files,
    exclude: Seq<Seq<char>>,
    cfg: ExportConfig,
    e2: Seq<(String, String)>,
    files2: Seq<(Seq<char>, Seq<char>)>,
)
    requires
        keys_distinct(e),
        filenames_distinct(entries_map(e)),
        ids_distinct(kept_notes(notes, exclude)),
        files_show(files, entries_map(e), fs),
        keys_distinct(e2),
        entries_map(e2) == apply_changes_spec(diff_spec(notes, e, files, exclude, cfg), entries_map(e), fs, cfg).0,
        files_show(
            files2,
            entries_map(e2),
            apply_changes_spec(diff_spec(notes, e, files, exclude, cfg), entries_map(e), fs, cfg).1,
        ),
    ensures
        diff_spec(notes, e2, files2, exclude, cfg) == Seq::<ChangeView>::empty(),
{
    let live = kept_notes(notes, exclude);
    let m = entries_map(e);
    lemma_entries_map_finite(e);
    lemma_notes_applied(live, live.len() as int, m, fs, files, cfg);
    assert(live.take(live.len() as int) == live);
    let nc = note_changes(live, m, files, cfg);
    let st = apply_changes_spec(nc, m, fs, cfg);
    let (mn, fsn) = st;
    let dels = deletions(e, live);
    lemma_apply_concat(nc, dels, m, fs, cfg);
    assert(diff_spec(notes, e, files, exclude, cfg) == nc + dels);
    // The deletion phase starts from the handled notes.
    assert forall|j: int| 0 <= j < live.len() implies #[trigger] mn.contains_key(live[j].id) by {
        assert(live.take(live.len() as int)[j].id == live[j].id);
    }
    assert forall|id: Seq<char>| #[trigger] mn.contains_key(id) && !mn.contains_key(id) implies !has_id(
        live,
        id,
    ) by {}
    assert(deletions_done(live, e, 0, mn, mn, fsn, cfg));
    lemma_deletions_applied(live, e, e.len() as int, mn, fsn, cfg);
    assert(e.take(e.len() as int) == e);
    let fin = apply_changes_spec(dels, mn, fsn, cfg);
    let (m2, fs2) = fin;
    assert(m2 == entries_map(e2));
    // Every exported note keeps its file.
    lemma_no_note_changes(live, live.len() as int, m2, files2, fs2, cfg);
    // Every entry left belongs to an exported note.
    assert forall|j: int| 0 <= j < e2.len() implies has_id(live, #[trigger] e2[j].0@) by {
        let id = e2[j].0@;
        lemma_entries_map_dom(e2, id);
        assert(m2.contains_key(id));
        assert(mn.contains_key(id));
        if !has_id(live, id) {
            // An id that is not exported came from the manifest and was deleted.
            assert(!has_id(live.take(live.len() as int), id));
            assert(m.contains_key(id));
            lemma_entries_map_dom(e, id);
            let i = choose|i: int| 0 <= i < e.len() && #[trigger] e[i].0@ == id;
            assert(!m2.contains_key(e[i].0@));
        }
    }
    lemma_no_deletions(e2, e2.len() as int, live);
    assert(e2.take(e2.len() as int) == e2);
    assert(live.take(live.len() as int) == live);
}

} // verus!
