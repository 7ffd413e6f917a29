//! Planning a whole sync: the file operations that apply a list of changes,
//! in order, and the manifest they leave. The plan is exactly the model of
//! `convergence` (`apply_changes_spec`), so the program that performs the
//! operations carries its laws.
use vstd::prelude::*;

use crate::config::{AttachmentMode, ExportConfig, FilenameStrategy};
use crate::db::models::NoteView;
use crate::export::convergence::{
    Entries, Files, applied_as_promised, apply_change_spec, apply_changes_spec, files_show,
    filenames_distinct, ids_distinct, law_apply_final_state, law_apply_keeps_filenames_distinct,
    law_sync_converges, lemma_diff_shaped, lemma_entries_map_finite, lemma_written_name,
};
use crate::export::diff::{
    Change, ChangeView, FileOp, change_views, copy_assets_id, diff_spec, export_ready, kept_notes,
    opt_string, plan_change, plan_defined, record_change,
};
use crate::export::filemap::{Manifest, entries_map, filename_defined, keys_distinct};
use crate::text::{byte_prefix, can_cut};

verus! {

/// What one file operation does to the repository's files.
pub open spec fn op_effect(op: FileOp, fs: Files) -> Files {
    match op {
        FileOp::Write { filename, content, .. } => fs.insert(filename@, content@),
        FileOp::Remove { filename, .. } => fs.remove(filename@),
    }
}

/// What file operations, performed in order, do to the repository's files.
pub open spec fn ops_effect(ops: Seq<FileOp>, fs: Files) -> Files
    decreases ops.len(),
{
    if ops.len() == 0 {
        fs
    } else {
        op_effect(ops.last(), ops_effect(ops.drop_last(), fs))
    }
}

/// The manifest after applying changes.
pub open spec fn planned_state(cs: Seq<ChangeView>, m: Entries, cfg: ExportConfig) -> Entries {
    apply_changes_spec(cs, m, Map::empty(), cfg).0
}

/// Each of the first `k` changes can be planned in the state the ones
/// before it leave.
pub open spec fn plannable(cs: Seq<ChangeView>, m: Entries, cfg: ExportConfig, k: int) -> bool {
    forall|i: int| 0 <= i < k ==> plan_defined(#[trigger] cs[i], planned_state(cs.take(i), m, cfg), cfg)
}

/// The operation of a change is of its kind and names the assets folder
/// that copy mode copies to or removes.
pub open spec fn op_matches(c: ChangeView, op: FileOp, cfg: ExportConfig) -> bool {
    match (c, op) {
        (ChangeView::Deleted { id, .. }, FileOp::Remove { assets_id, .. }) => opt_string(assets_id) == (
        if cfg.attachment_mode == AttachmentMode::Copy {
            Some(byte_prefix(id, 8))
        } else {
            None
        }),
        (ChangeView::Added(n), FileOp::Write { assets_id, .. }) => opt_string(assets_id)
            == copy_assets_id(n.id, n.attachments.len() > 0, cfg),
        (ChangeView::Modified(n), FileOp::Write { assets_id, .. }) => opt_string(assets_id)
            == copy_assets_id(n.id, n.attachments.len() > 0, cfg),
        _ => false,
    }
}

/// `ops` and `m2` are the plan of changes `cv` from manifest `m`: the
/// changes are planned in order up to the first that cannot be; the
/// operations, performed in order, do to any files what the model applies,
/// each names the assets folder of its change, and `m2` is the model's
/// manifest.
pub open spec fn is_plan(cv: Seq<ChangeView>, m: Entries, cfg: ExportConfig, ops: Seq<FileOp>, m2: Manifest) -> bool {
    let k = ops.len() as int;
    &&& k <= cv.len()
    &&& plannable(cv, m, cfg, k)
    &&& k < cv.len() ==> !plan_defined(cv[k], planned_state(cv.take(k), m, cfg), cfg)
    &&& m2.wf()
    &&& m2@ == planned_state(cv.take(k), m, cfg)
    &&& forall|fs: Files|
        #![trigger ops_effect(ops, fs)]
        ops_effect(ops, fs) == apply_changes_spec(cv.take(k), m, fs, cfg).1
    &&& forall|i: int| 0 <= i < k ==> op_matches(cv[i], #[trigger] ops[i], cfg)
}

/// The manifest the changes leave does not depend on the files.
pub proof fn lemma_state_ignores_files(cs: Seq<ChangeView>, m: Entries, fs: Files, cfg: ExportConfig)
    ensures
        apply_changes_spec(cs, m, fs, cfg).0 == planned_state(cs, m, cfg),
    decreases cs.len(),
{
    if cs.len() > 0 {
        lemma_state_ignores_files(cs.drop_last(), m, fs, cfg);
    }
}

/// Whether a change can be planned (see `plan_defined`).
pub fn plan_ready(change: &Change, manifest: &Manifest, export_config: &ExportConfig) -> (b: bool)
    requires
        manifest.wf(),
    ensures
        b == plan_defined(change@, manifest@, *export_config),
{
    let title_uuid = export_config.filename_strategy == FilenameStrategy::TitleUuid;
    match change {
        Change::Added(note) => {
            let named = !title_uuid || can_cut(note.id.as_str(), 6);
            proof {
                assert(named == filename_defined(note@, export_config.filename_strategy));
            }
            named && export_ready(note, export_config)
        },
        Change::Modified(note) => {
            let named = manifest.filename_for(note.id.as_str()).is_some() || !title_uuid || can_cut(
                note.id.as_str(),
                6,
            );
            named && export_ready(note, export_config)
        },
        Change::Deleted { id, .. } => export_config.attachment_mode != AttachmentMode::Copy || can_cut(
            id.as_str(),
            8,
        ),
    }
}

/// Plans the changes in order: each one's file operation (as `plan_change`
/// gives it) and its record in the manifest (as `record_change` makes it).
/// Planning stops at the first change that cannot be planned, where the
/// operation would cut an id or a link path inside a character; the
/// operations before it are returned, so the caller performs them and then
/// fails. Performed in order, the operations do to any files exactly what
/// the model applies, and the manifest returned is the model's.
pub fn plan_changes(changes: &[Change], manifest: Manifest, export_config: &ExportConfig) -> (r: (
    Vec<FileOp>,
    Manifest,
))
    requires
        manifest.wf(),
    ensures
        is_plan(change_views(changes@), manifest@, *export_config, r.0@, r.1),
{
    let ghost cv = change_views(changes@);
    let ghost m0 = manifest@;
    let cfg = *export_config;
    let mut m = manifest;
    let mut ops: Vec<FileOp> = Vec::new();
    let mut i: usize = 0;
    proof {
        assert(cv.take(0) == Seq::<ChangeView>::empty());
        assert forall|fs: Files| #![trigger ops_effect(ops@, fs)]
            ops_effect(ops@, fs) == apply_changes_spec(cv.take(0), m0, fs, cfg).1 by {}
    }
    while i < changes.len()
        invariant
            i <= changes.len(),
            i == ops.len(),
            cv == change_views(changes@),
            cfg == *export_config,
            m.wf(),
            m@ == planned_state(cv.take(i as int), m0, cfg),
            plannable(cv, m0, cfg, i as int),
            forall|fs: Files|
                #![trigger ops_effect(ops@, fs)]
                ops_effect(ops@, fs) == apply_changes_spec(cv.take(i as int), m0, fs, cfg).1,
            forall|j: int| 0 <= j < i ==> op_matches(cv[j], #[trigger] ops@[j], cfg),
        ensures
            i < changes.len() ==> !plan_defined(cv[i as int], planned_state(cv.take(i as int), m0, cfg), cfg),
        decreases changes.len() - i,
    {
        let change = &changes[i];
        assert(cv[i as int] == change@);
        if !plan_ready(change, &m, export_config) {
            break;
        }
        let ghost before = m@;
        let ghost e_before = m.entries@;
        let ghost ops_before = ops@;
        let op = plan_change(change, &m, export_config);
        let filename = match &op {
            FileOp::Write { filename, .. } => filename.clone(),
            FileOp::Remove { filename, .. } => filename.clone(),
        };
        record_change(change, &filename, &mut m);
        proof {
            let c = cv[i as int];
            let pre = cv.take(i as int);
            assert(cv.take(i + 1) == pre.push(c));
            assert(pre.push(c).drop_last() == pre);
            match c {
                ChangeView::Deleted { .. } => {},
                _ => {
                    lemma_written_name(c, e_before, cfg, filename@);
                },
            }
            assert forall|fs: Files| #![trigger ops_effect(ops_before.push(op), fs)]
                ops_effect(ops_before.push(op), fs) == apply_changes_spec(cv.take(i + 1), m0, fs, cfg).1 by {
                assert(ops_before.push(op).drop_last() == ops_before);
                lemma_state_ignores_files(pre, m0, fs, cfg);
                let prev = apply_changes_spec(pre, m0, fs, cfg);
                assert(ops_effect(ops_before, fs) == prev.1);
                assert(apply_changes_spec(cv.take(i + 1), m0, fs, cfg) == apply_change_spec(c, prev.0, prev.1, cfg));
            }
            lemma_state_ignores_files(pre, m0, Map::empty(), cfg);
            assert(m@ == planned_state(cv.take(i + 1), m0, cfg));
            assert forall|j: int| 0 <= j < i + 1 implies plan_defined(
                #[trigger] cv[j],
                planned_state(cv.take(j), m0, cfg),
                cfg,
            ) by {
                if j == i {
                    assert(before == planned_state(cv.take(j), m0, cfg));
                }
            }
        }
        ops.push(op);
        proof {
            assert(ops@ == ops_before.push(op));
            assert forall|j: int| 0 <= j < i + 1 implies op_matches(cv[j], #[trigger] ops@[j], cfg) by {
                if j < i {
                    assert(ops@[j] == ops_before[j]);
                }
            }
        }
        i += 1;
    }
    (ops, m)
}

/// The manifest a plan leaves gives distinct notes distinct filenames, when
/// the one it starts from does.
pub proof fn law_planned_manifest_keeps_filenames_distinct(cs: Seq<ChangeView>, m: Entries, cfg: ExportConfig)
    requires
        m.dom().finite(),
        filenames_distinct(m),
    ensures
        filenames_distinct(planned_state(cs, m, cfg)),
{
    law_apply_keeps_filenames_distinct(cs, m, Map::empty(), cfg);
}

/// Performing the planned operations of a diff, and recording the planned
/// manifest, leaves nothing to change: the next diff is empty (under the
/// conditions of `law_sync_converges`). `ops` are operations that do what
/// `plan_changes` promises of a complete plan of the diff.
pub proof fn law_planned_sync_converges(
    notes: Seq<NoteView>,
    e: Seq<(String, String)>,
    files: Seq<(Seq<char>, Seq<char>)>,
    fs: Files,
    exclude: Seq<Seq<char>>,
    cfg: ExportConfig,
    ops: Seq<FileOp>,
    e2: Seq<(String, String)>,
    files2: Seq<(Seq<char>, Seq<char>)>,
)
    requires
        keys_distinct(e),
        filenames_distinct(entries_map(e)),
        ids_distinct(kept_notes(notes, exclude)),
        files_show(files, entries_map(e), fs),
        forall|fs0: Files|
            #![trigger ops_effect(ops, fs0)]
            ops_effect(ops, fs0) == apply_changes_spec(diff_spec(notes, e, files, exclude, cfg), entries_map(e), fs0, cfg).1,
        keys_distinct(e2),
        entries_map(e2) == planned_state(diff_spec(notes, e, files, exclude, cfg), entries_map(e), cfg),
        files_show(files2, entries_map(e2), ops_effect(ops, fs)),
    ensures
        diff_spec(notes, e2, files2, exclude, cfg) == Seq::<ChangeView>::empty(),
{
    let d = diff_spec(notes, e, files, exclude, cfg);
    lemma_state_ignores_files(d, entries_map(e), fs, cfg);
    assert(ops_effect(ops, fs) == apply_changes_spec(d, entries_map(e), fs, cfg).1);
    law_sync_converges(notes, e, files, fs, exclude, cfg, e2, files2);
}

/// A complete plan of a diff, performed on any files, does what applying
/// the changes promises: each added or modified note's file holds its
/// rendering under the filename the manifest records (a modified note keeps
/// the one it had), each deleted note has neither entry nor file, and every
/// other note keeps its entry. This holds when the manifest records each id
/// once, gives distinct notes distinct filenames, and the exported notes
/// have distinct ids.
pub proof fn law_planned_diff_applied(
    notes: Seq<NoteView>,
    e: Seq<(String, String)>,
    files: Seq<(Seq<char>, Seq<char>)>,
    exclude: Seq<Seq<char>>,
    cfg: ExportConfig,
    ops: Seq<FileOp>,
    m2: Manifest,
    fs: Files,
)
    requires
        keys_distinct(e),
        filenames_distinct(entries_map(e)),
        ids_distinct(kept_notes(notes, exclude)),
        is_plan(diff_spec(notes, e, files, exclude, cfg), entries_map(e), cfg, ops, m2),
        ops.len() == diff_spec(notes, e, files, exclude, cfg).len(),
    ensures
        applied_as_promised(diff_spec(notes, e, files, exclude, cfg), entries_map(e), m2@, ops_effect(ops, fs), cfg),
{
    let d = diff_spec(notes, e, files, exclude, cfg);
    let m = entries_map(e);
    lemma_entries_map_finite(e);
    lemma_diff_shaped(notes, e, files, exclude, cfg);
    assert(d.take(d.len() as int) == d);
    law_apply_final_state(d, m, fs, cfg);
    lemma_state_ignores_files(d, m, fs, cfg);
    assert(ops_effect(ops, fs) == apply_changes_spec(d, m, fs, cfg).1);
}

} // verus!
