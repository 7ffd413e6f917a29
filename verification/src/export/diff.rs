//! Change detection between Bear's notes and the exported repository, and
//! the file operations that bring the repository in line.
use vstd::prelude::*;

use crate::config::{AttachmentMode, ExportConfig, FilenameStrategy};
use crate::db::models::{BearNote, NoteView, string_views};
use crate::export::filemap::{
    Manifest, base_name, entries_map, filename_defined, is_first_free, keys_distinct,
    lemma_entries_map_value,
};
use crate::export::markdown::{embeds_decodable, render, render_spec, render_ready, strip_title_heading_spec};
use crate::text::{byte_prefix, byte_prefix_of, can_cut, cut_ok, str_eq};

verus! {

/// One difference between the notes and the repository.
#[derive(Debug)]
pub enum Change {
    Added(BearNote),
    Modified(BearNote),
    Deleted { id: String, filename: String },
}

/// Mathematical value of a change.
pub enum ChangeView {
    Added(NoteView),
    Modified(NoteView),
    Deleted { id: Seq<char>, filename: Seq<char> },
}

impl View for Change {
    type V = ChangeView;

    open spec fn view(&self) -> ChangeView {
        match self {
            Change::Added(n) => ChangeView::Added(n@),
            Change::Modified(n) => ChangeView::Modified(n@),
            Change::Deleted { id, filename } => ChangeView::Deleted { id: id@, filename: filename@ },
        }
    }
}

/// The views of a sequence of changes.
pub open spec fn change_views(v: Seq<Change>) -> Seq<ChangeView> {
    v.map_values(|c: Change| c@)
}

/// A file of the repository as it is on disk: its name (relative to the
/// repository) and its contents.
#[derive(Debug)]
pub struct RepoFile {
    pub filename: String,
    pub contents: String,
}

/// The views of a sequence of repository files.
pub open spec fn file_views(v: Seq<RepoFile>) -> Seq<(Seq<char>, Seq<char>)> {
    v.map_values(|f: RepoFile| (f.filename@, f.contents@))
}

/// Contents of the first file named `name`, if any.
pub open spec fn file_contents(files: Seq<(Seq<char>, Seq<char>)>, name: Seq<char>) -> Option<
    Seq<char>,
>
    decreases files.len(),
{
    if files.len() == 0 {
        None
    } else if files[0].0 == name {
        Some(files[0].1)
    } else {
        file_contents(files.drop_first(), name)
    }
}

// ---------------------------------------------------------------------
// Specification of the diff
// ---------------------------------------------------------------------

/// A note is exported unless it has tags and every one of them is excluded.
pub open spec fn kept(n: NoteView, exclude: Seq<Seq<char>>) -> bool {
    n.tags.len() == 0 || exists|i: int| 0 <= i < n.tags.len() && !exclude.contains(#[trigger] n.tags[i])
}

/// The notes that are exported, in their order.
pub open spec fn kept_notes(ns: Seq<NoteView>, exclude: Seq<Seq<char>>) -> Seq<NoteView>
    decreases ns.len(),
{
    if ns.len() == 0 {
        seq![]
    } else if kept(ns.last(), exclude) {
        kept_notes(ns.drop_last(), exclude).push(ns.last())
    } else {
        kept_notes(ns.drop_last(), exclude)
    }
}

/// The assets folder of a note with attachments: `_assets/` and the first 8
/// bytes of its id.
pub open spec fn assets_subdir_spec(n: NoteView) -> Option<Seq<char>> {
    if n.attachments.len() == 0 {
        None
    } else {
        Some("_assets/"@ + byte_prefix(n.id, 8))
    }
}

/// The exported file of a note.
pub open spec fn exported_text(n: NoteView, cfg: ExportConfig) -> Seq<char> {
    render_spec(n, cfg.frontmatter, cfg.attachment_mode, assets_subdir_spec(n))
}

/// Exporting a note is defined: for a note with attachments, the first 8
/// bytes of its id end on a character boundary and, in copy mode, every link
/// path of its body can be decoded.
pub open spec fn exported_defined(n: NoteView, cfg: ExportConfig) -> bool {
    n.attachments.len() > 0 ==> {
        &&& cut_ok(n.id, 8)
        &&& cfg.attachment_mode == AttachmentMode::Copy ==> embeds_decodable(
            strip_title_heading_spec(n.text, n.title),
        )
    }
}

/// A note's file differs from what it renders to (a missing file differs).
pub open spec fn modified_spec(n: NoteView, on_disk: Option<Seq<char>>, cfg: ExportConfig) -> bool {
    match on_disk {
        None => true,
        Some(c) => c != exported_text(n, cfg),
    }
}

/// What one exported note contributes to the diff.
pub open spec fn note_change(
    n: NoteView,
    m: Map<Seq<char>, Seq<char>>,
    files: Seq<(Seq<char>, Seq<char>)>,
    cfg: ExportConfig,
) -> Seq<ChangeView> {
    if !m.contains_key(n.id) {
        seq![ChangeView::Added(n)]
    } else if modified_spec(n, file_contents(files, m[n.id]), cfg) {
        seq![ChangeView::Modified(n)]
    } else {
        seq![]
    }
}

/// The additions and modifications, in the order of the notes.
pub open spec fn note_changes(
    ns: Seq<NoteView>,
    m: Map<Seq<char>, Seq<char>>,
    files: Seq<(Seq<char>, Seq<char>)>,
    cfg: ExportConfig,
) -> Seq<ChangeView>
    decreases ns.len(),
{
    if ns.len() == 0 {
        seq![]
    } else {
        note_changes(ns.drop_last(), m, files, cfg) + note_change(ns.last(), m, files, cfg)
    }
}

/// Some note has this id.
pub open spec fn has_id(ns: Seq<NoteView>, id: Seq<char>) -> bool {
    exists|i: int| 0 <= i < ns.len() && #[trigger] ns[i].id == id
}

/// The deletions: entries of the manifest whose note is not exported, in the
/// order of the manifest.
pub open spec fn deletions(e: Seq<(String, String)>, live: Seq<NoteView>) -> Seq<ChangeView>
    decreases e.len(),
{
    if e.len() == 0 {
        seq![]
    } else if has_id(live, e.last().0@) {
        deletions(e.drop_last(), live)
    } else {
        deletions(e.drop_last(), live).push(
            ChangeView::Deleted { id: e.last().0@, filename: e.last().1@ },
        )
    }
}

/// The changes that bring the repository in line with the notes.
pub open spec fn diff_spec(
    notes: Seq<NoteView>,
    e: Seq<(String, String)>,
    files: Seq<(Seq<char>, Seq<char>)>,
    exclude: Seq<Seq<char>>,
    cfg: ExportConfig,
) -> Seq<ChangeView> {
    let live = kept_notes(notes, exclude);
    note_changes(live, entries_map(e), files, cfg) + deletions(e, live)
}

/// Computing the diff is defined: every exported note that has a file can
/// be exported (see `exported_defined`).
pub open spec fn diff_defined(
    notes: Seq<NoteView>,
    m: Map<Seq<char>, Seq<char>>,
    exclude: Seq<Seq<char>>,
    cfg: ExportConfig,
) -> bool {
    forall|i: int|
        0 <= i < notes.len() && kept(#[trigger] notes[i], exclude) && m.contains_key(notes[i].id)
            ==> exported_defined(notes[i], cfg)
}

// ---------------------------------------------------------------------
// Executable code
// ---------------------------------------------------------------------

/// Whether `t` is one of the excluded tags.
fn is_excluded(t: &String, exclude_tags: &[String]) -> (b: bool)
    ensures
        b == string_views(exclude_tags@).contains(t@),
{
    let ghost ex = string_views(exclude_tags@);
    let mut j: usize = 0;
    while j < exclude_tags.len()
        invariant
            j <= exclude_tags.len(),
            ex == string_views(exclude_tags@),
            forall|k: int| 0 <= k < j ==> ex[k] != t@,
        decreases exclude_tags.len() - j,
    {
        if exclude_tags[j] == *t {
            assert(ex[j as int] == t@);
            return true;
        }
        j += 1;
    }
    false
}

/// Notes where all tags are in the exclude list are filtered out; notes with
/// at least one other tag, and notes without tags, pass through.
fn is_kept(note: &BearNote, exclude_tags: &[String]) -> (b: bool)
    ensures
        b == kept(note@, string_views(exclude_tags@)),
{
    let ghost ex = string_views(exclude_tags@);
    if note.tags.len() == 0 {
        return true;
    }
    let mut i: usize = 0;
    while i < note.tags.len()
        invariant
            i <= note.tags.len(),
            ex == string_views(exclude_tags@),
            forall|k: int| 0 <= k < i ==> ex.contains(#[trigger] note@.tags[k]),
        decreases note.tags.len() - i,
    {
        if !is_excluded(&note.tags[i], exclude_tags) {
            assert(!ex.contains(note@.tags[i as int]));
            return true;
        }
        i += 1;
    }
    false
}

/// The exported notes (see `kept`), in their order.
pub fn filter_excluded<'a>(notes: &'a [BearNote], exclude_tags: &[String]) -> (r: Vec<&'a BearNote>)
    ensures
        r@.map_values(|n: &BearNote| n@) == kept_notes(
            notes@.map_values(|n: BearNote| n@),
            string_views(exclude_tags@),
        ),
{
    let ghost ex = string_views(exclude_tags@);
    let ghost ns = notes@.map_values(|n: BearNote| n@);
    let mut r: Vec<&'a BearNote> = Vec::new();
    let mut i: usize = 0;
    while i < notes.len()
        invariant
            i <= notes.len(),
            ex == string_views(exclude_tags@),
            ns == notes@.map_values(|n: BearNote| n@),
            r@.map_values(|n: &BearNote| n@) == kept_notes(ns.take(i as int), ex),
        decreases notes.len() - i,
    {
        assert(ns.take(i + 1).drop_last() == ns.take(i as int));
        assert(ns.take(i + 1).last() == notes@[i as int]@);
        if is_kept(&notes[i], exclude_tags) {
            let ghost before = r@;
            r.push(&notes[i]);
            assert(r@.map_values(|n: &BearNote| n@) == before.map_values(|n: &BearNote| n@).push(
                notes@[i as int]@,
            ));
        }
        i += 1;
    }
    assert(ns.take(notes.len() as int) == ns);
    r
}

/// The contents of the first file named `name`, if any.
fn lookup_file<'a>(files: &'a [RepoFile], name: &String) -> (r: Option<&'a String>)
    ensures
        r matches Some(c) ==> file_contents(file_views(files@), name@) == Some(c@),
        r is None ==> file_contents(file_views(files@), name@) is None,
{
    let ghost fv = file_views(files@);
    let mut i: usize = 0;
    assert(fv.skip(0) == fv);
    while i < files.len()
        invariant
            i <= files.len(),
            fv == file_views(files@),
            file_contents(fv, name@) == file_contents(fv.skip(i as int), name@),
        decreases files.len() - i,
    {
        assert(fv.skip(i as int)[0] == (files@[i as int].filename@, files@[i as int].contents@));
        if files[i].filename == *name {
            return Some(&files[i].contents);
        }
        assert(fv.skip(i as int).drop_first() == fv.skip(i + 1));
        i += 1;
    }
    assert(fv.skip(files.len() as int).len() == 0);
    None
}

/// The assets folder of a note with attachments (`_assets/` and the first
/// 8 bytes of its id); none for a note without attachments.
pub fn assets_subdir_for(note: &BearNote) -> (r: Option<String>)
    requires
        note.attachments.len() > 0 ==> cut_ok(note.id@, 8),
    ensures
        r matches Some(s) ==> assets_subdir_spec(note@) == Some(s@),
        r is None ==> assets_subdir_spec(note@) is None,
{
    if note.attachments.len() == 0 {
        None
    } else {
        let mut s = String::new();
        s.append("_assets/");
        let short = byte_prefix_of(note.id.as_str(), 8);
        s.append(short.as_str());
        Some(s)
    }
}

/// Renders a note as it is exported.
pub fn exported_content(note: &BearNote, export_config: &ExportConfig) -> (r: String)
    requires
        exported_defined(note@, *export_config),
    ensures
        r@ == exported_text(note@, *export_config),
{
    let sub = assets_subdir_for(note);
    match sub {
        Some(s) => render(note, export_config.frontmatter, &export_config.attachment_mode, Some(s.as_str())),
        None => render(note, export_config.frontmatter, &export_config.attachment_mode, None),
    }
}

/// Whether a note's file differs from its rendering (a missing file does).
pub fn is_modified(note: &BearNote, on_disk: Option<&String>, export_config: &ExportConfig) -> (b: bool)
    requires
        on_disk is Some ==> exported_defined(note@, *export_config),
    ensures
        b == modified_spec(note@, match on_disk { Some(c) => Some(c@), None => None }, *export_config),
{
    match on_disk {
        None => true,
        Some(existing) => {
            let rendered = exported_content(note, export_config);
            !(*existing == rendered)
        },
    }
}

/// Whether some note of `live` has the id `id`.
fn has_note_id(live: &Vec<&BearNote>, id: &String) -> (b: bool)
    ensures
        b == has_id(live@.map_values(|n: &BearNote| n@), id@),
{
    let ghost lv = live@.map_values(|n: &BearNote| n@);
    let mut i: usize = 0;
    while i < live.len()
        invariant
            i <= live.len(),
            lv == live@.map_values(|n: &BearNote| n@),
            forall|k: int| 0 <= k < i ==> lv[k].id != id@,
        decreases live.len() - i,
    {
        if live[i].id == *id {
            assert(lv[i as int].id == id@);
            return true;
        }
        i += 1;
    }
    false
}

/// Computes the changes that bring the repository in sync with the notes:
/// every exported note without a manifest entry is added, every one whose
/// file differs from its rendering is modified, and every manifest entry
/// without an exported note is deleted. `files` holds the repository files
/// that exist, by their manifest names.
pub fn compute_diff(
    notes: &[BearNote],
    manifest: &Manifest,
    files: &[RepoFile],
    exclude_tags: &[String],
    export_config: &ExportConfig,
) -> (r: Vec<Change>)
    requires
        manifest.wf(),
        diff_defined(
            notes@.map_values(|n: BearNote| n@),
            manifest@,
            string_views(exclude_tags@),
            *export_config,
        ),
    ensures
        change_views(r@) == diff_spec(
            notes@.map_values(|n: BearNote| n@),
            manifest.entries@,
            file_views(files@),
            string_views(exclude_tags@),
            *export_config,
        ),
{
    let ghost ns = notes@.map_values(|n: BearNote| n@);
    let ghost ex = string_views(exclude_tags@);
    let ghost fv = file_views(files@);
    let ghost m = manifest@;
    let cfg = *export_config;
    let live = filter_excluded(notes, exclude_tags);
    let ghost lv = live@.map_values(|n: &BearNote| n@);
    proof {
        assert forall|k: int| 0 <= k < lv.len() && m.contains_key(lv[k].id)
            implies exported_defined(#[trigger] lv[k], cfg) by {
            lemma_kept_notes_from(ns, ex, k);
        }
    }
    let mut changes: Vec<Change> = Vec::new();
    let mut i: usize = 0;
    while i < live.len()
        invariant
            i <= live.len(),
            manifest.wf(),
            m == manifest@,
            lv == live@.map_values(|n: &BearNote| n@),
            fv == file_views(files@),
            cfg == *export_config,
            forall|k: int| 0 <= k < lv.len() && m.contains_key(lv[k].id)
                ==> exported_defined(#[trigger] lv[k], cfg),
            change_views(changes@) == note_changes(lv.take(i as int), m, fv, cfg),
        decreases live.len() - i,
    {
        let note = live[i];
        assert(lv.take(i + 1).drop_last() == lv.take(i as int));
        assert(lv.take(i + 1).last() == note@);
        assert(lv[i as int] == note@);
        let ghost before = changes@;
        match manifest.filename_for(note.id.as_str()) {
            None => {
                changes.push(Change::Added(note.clone()));
                assert(change_views(changes@) == change_views(before).push(ChangeView::Added(note@)));
            },
            Some(filename) => {
                let on_disk = lookup_file(files, filename);
                assert(note@.attachments.len() == note.attachments@.len());
                assert(m.contains_key(lv[i as int].id));
                assert(exported_defined(lv[i as int], cfg));
                if is_modified(note, on_disk, export_config) {
                    changes.push(Change::Modified(note.clone()));
                    assert(change_views(changes@) == change_views(before).push(
                        ChangeView::Modified(note@),
                    ));
                } else {
                    assert(change_views(changes@) == change_views(before) + Seq::<ChangeView>::empty());
                }
            },
        }
        i += 1;
    }
    assert(lv.take(live.len() as int) == lv);
    let ghost e = manifest.entries@;
    let ghost first = changes@;
    let mut j: usize = 0;
    while j < manifest.entries.len()
        invariant
            j <= manifest.entries.len(),
            e == manifest.entries@,
            lv == live@.map_values(|n: &BearNote| n@),
            change_views(changes@) == change_views(first) + deletions(e.take(j as int), lv),
        decreases manifest.entries.len() - j,
    {
        assert(e.take(j + 1).drop_last() == e.take(j as int));
        assert(e.take(j + 1).last() == e[j as int]);
        let ghost before = changes@;
        if !has_note_id(&live, &manifest.entries[j].0) {
            changes.push(
                Change::Deleted {
                    id: manifest.entries[j].0.clone(),
                    filename: manifest.entries[j].1.clone(),
                },
            );
            assert(change_views(changes@) == change_views(before).push(
                ChangeView::Deleted { id: e[j as int].0@, filename: e[j as int].1@ },
            ));
        }
        j += 1;
    }
    assert(e.take(manifest.entries.len() as int) == e);
    changes
}

// ---------------------------------------------------------------------
// Applying changes
// ---------------------------------------------------------------------

/// What applying one change does to the repository's files.
#[derive(Debug)]
pub enum FileOp {
    /// Write `content` to `filename`; when `assets_id` is given, the note's
    /// attachments are copied to `_assets/<assets_id>`.
    Write { filename: String, content: String, assets_id: Option<String> },
    /// Remove `filename`; when `assets_id` is given, also the folder
    /// `_assets/<assets_id>`.
    Remove { filename: String, assets_id: Option<String> },
}

/// The folder id of a note's copied attachments in copy mode.
pub open spec fn copy_assets_id(id: Seq<char>, has_attachments: bool, cfg: ExportConfig) -> Option<Seq<char>> {
    if cfg.attachment_mode == AttachmentMode::Copy && has_attachments {
        Some(byte_prefix(id, 8))
    } else {
        None
    }
}

/// An optional string, by value.
pub open spec fn opt_string(o: Option<String>) -> Option<Seq<char>> {
    match o {
        Some(s) => Some(s@),
        None => None,
    }
}

/// The filename a written note goes to: its manifest entry for a
/// modification that has one, otherwise the first free generated name.
pub open spec fn written_name_ok(
    c: ChangeView,
    e: Seq<(String, String)>,
    cfg: ExportConfig,
    f: Seq<char>,
) -> bool {
    match c {
        ChangeView::Added(n) => is_first_free(e, n.id, base_name(n, cfg.filename_strategy), f),
        ChangeView::Modified(n) => if entries_map(e).contains_key(n.id) {
            f == entries_map(e)[n.id]
        } else {
            is_first_free(e, n.id, base_name(n, cfg.filename_strategy), f)
        },
        ChangeView::Deleted { .. } => false,
    }
}

/// Planning a change is defined: generated names and assets folders can be
/// cut from the note's id, and a written note can be exported.
pub open spec fn plan_defined(c: ChangeView, m: Map<Seq<char>, Seq<char>>, cfg: ExportConfig) -> bool {
    match c {
        ChangeView::Added(n) => filename_defined(n, cfg.filename_strategy) && exported_defined(n, cfg),
        ChangeView::Modified(n) => (!m.contains_key(n.id) ==> filename_defined(
            n,
            cfg.filename_strategy,
        )) && exported_defined(n, cfg),
        ChangeView::Deleted { id, .. } => cfg.attachment_mode == AttachmentMode::Copy ==> cut_ok(id, 8),
    }
}

/// The file operation of one change: an added or modified note is written
/// (to its recorded name, or to a newly generated one) with its rendering;
/// a deleted note's file is removed. In copy mode the attachments folder is
/// named as well.
pub fn plan_change(change: &Change, manifest: &Manifest, export_config: &ExportConfig) -> (r: FileOp)
    requires
        manifest.wf(),
        plan_defined(change@, manifest@, *export_config),
    ensures
        match (change@, r) {
            (ChangeView::Deleted { id, filename }, FileOp::Remove { filename: f, assets_id: a }) => f@
                == filename && opt_string(a) == (if export_config.attachment_mode
                == AttachmentMode::Copy {
                Some(byte_prefix(id, 8))
            } else {
                None
            }),
            (ChangeView::Added(n), FileOp::Write { filename: f, content: c, assets_id: a }) => {
                &&& written_name_ok(change@, manifest.entries@, *export_config, f@)
                &&& c@ == exported_text(n, *export_config)
                &&& opt_string(a) == copy_assets_id(n.id, n.attachments.len() > 0, *export_config)
            },
            (ChangeView::Modified(n), FileOp::Write { filename: f, content: c, assets_id: a }) => {
                &&& written_name_ok(change@, manifest.entries@, *export_config, f@)
                &&& c@ == exported_text(n, *export_config)
                &&& opt_string(a) == copy_assets_id(n.id, n.attachments.len() > 0, *export_config)
            },
            _ => false,
        },
{
    let copy = export_config.attachment_mode == AttachmentMode::Copy;
    match change {
        Change::Added(note) | Change::Modified(note) => {
            proof {
                assert(note@.attachments.len() == note.attachments@.len());
            }
            let filename = match change {
                Change::Added(_) => manifest.generate_filename(note, &export_config.filename_strategy),
                _ => match manifest.filename_for(note.id.as_str()) {
                    Some(f) => f.clone(),
                    None => manifest.generate_filename(note, &export_config.filename_strategy),
                },
            };
            let content = exported_content(note, export_config);
            let assets_id = if copy && note.attachments.len() > 0 {
                Some(byte_prefix_of(note.id.as_str(), 8))
            } else {
                None
            };
            FileOp::Write { filename, content, assets_id }
        },
        Change::Deleted { id, filename } => {
            let assets_id = if copy {
                Some(byte_prefix_of(id.as_str(), 8))
            } else {
                None
            };
            FileOp::Remove { filename: filename.clone(), assets_id }
        },
    }
}

/// Records an applied change in the manifest: a written note now has
/// `filename`; a deleted note has no entry.
pub fn record_change(change: &Change, filename: &String, manifest: &mut Manifest)
    requires
        old(manifest).wf(),
    ensures
        final(manifest).wf(),
        final(manifest)@ == match change@ {
            ChangeView::Added(n) => old(manifest)@.insert(n.id, filename@),
            ChangeView::Modified(n) => old(manifest)@.insert(n.id, filename@),
            ChangeView::Deleted { id, .. } => old(manifest)@.remove(id),
        },
{
    match change {
        Change::Added(note) | Change::Modified(note) => {
            manifest.set(note.id.clone(), filename.clone());
        },
        Change::Deleted { id, .. } => {
            let _ = manifest.remove(id.as_str());
        },
    }
}

/// Whether a note can be exported (see `exported_defined`).
pub fn export_ready(note: &BearNote, export_config: &ExportConfig) -> (b: bool)
    ensures
        b == exported_defined(note@, *export_config),
{
    if note.attachments.len() == 0 {
        return true;
    }
    if !can_cut(note.id.as_str(), 8) {
        return false;
    }
    render_ready(note, &export_config.attachment_mode, Some("_assets"))
}

/// Whether computing the diff is defined (see `diff_defined`).
pub fn diff_ready(
    notes: &[BearNote],
    manifest: &Manifest,
    exclude_tags: &[String],
    export_config: &ExportConfig,
) -> (b: bool)
    requires
        manifest.wf(),
    ensures
        b == diff_defined(
            notes@.map_values(|n: BearNote| n@),
            manifest@,
            string_views(exclude_tags@),
            *export_config,
        ),
{
    let ghost ns = notes@.map_values(|n: BearNote| n@);
    let ghost ex = string_views(exclude_tags@);
    let ghost m = manifest@;
    let mut i: usize = 0;
    while i < notes.len()
        invariant
            i <= notes.len(),
            manifest.wf(),
            ns == notes@.map_values(|n: BearNote| n@),
            ex == string_views(exclude_tags@),
            m == manifest@,
            forall|k: int|
                0 <= k < i && kept(#[trigger] ns[k], ex) && m.contains_key(ns[k].id)
                    ==> exported_defined(ns[k], *export_config),
        decreases notes.len() - i,
    {
        assert(ns[i as int] == notes@[i as int]@);
        if is_kept(&notes[i], exclude_tags) && manifest.filename_for(notes[i].id.as_str()).is_some()
            && !export_ready(&notes[i], export_config) {
            return false;
        }
        i += 1;
    }
    true
}

/// Every exported note is one of the notes and is kept.
pub proof fn lemma_kept_notes_from(ns: Seq<NoteView>, ex: Seq<Seq<char>>, k: int)
    requires
        0 <= k < kept_notes(ns, ex).len(),
    ensures
        exists|i: int| 0 <= i < ns.len() && ns[i] == kept_notes(ns, ex)[k] && kept(ns[i], ex),
    decreases ns.len(),
{
    if ns.len() > 0 {
        let prev = kept_notes(ns.drop_last(), ex);
        if kept(ns.last(), ex) && k == prev.len() {
            assert(ns[ns.len() - 1] == ns.last());
        } else {
            lemma_kept_notes_from(ns.drop_last(), ex, k);
            let i = choose|i: int|
                0 <= i < ns.drop_last().len() && ns.drop_last()[i] == prev[k] && kept(
                    ns.drop_last()[i],
                    ex,
                );
            assert(ns[i] == ns.drop_last()[i]);
        }
    }
}


/// Every addition or modification is one of the given notes.
pub proof fn lemma_note_changes_from(
    ns: Seq<NoteView>,
    m: Map<Seq<char>, Seq<char>>,
    files: Seq<(Seq<char>, Seq<char>)>,
    cfg: ExportConfig,
    k: int,
)
    requires
        0 <= k < note_changes(ns, m, files, cfg).len(),
    ensures
        exists|j: int|
            0 <= j < ns.len() && (note_changes(ns, m, files, cfg)[k] == ChangeView::Added(ns[j])
                || note_changes(ns, m, files, cfg)[k] == ChangeView::Modified(ns[j])),
    decreases ns.len(),
{
    let prev = note_changes(ns.drop_last(), m, files, cfg);
    let last = note_change(ns.last(), m, files, cfg);
    assert(note_changes(ns, m, files, cfg) == prev + last);
    if k < prev.len() {
        lemma_note_changes_from(ns.drop_last(), m, files, cfg, k);
        let j = choose|j: int|
            0 <= j < ns.drop_last().len() && (prev[k] == ChangeView::Added(ns.drop_last()[j])
                || prev[k] == ChangeView::Modified(ns.drop_last()[j]));
        assert(ns[j] == ns.drop_last()[j]);
    } else {
        assert(ns[ns.len() - 1] == ns.last());
    }
}

/// Every deletion is a manifest entry whose note is not exported.
pub proof fn lemma_deletions_from(e: Seq<(String, String)>, live: Seq<NoteView>, k: int)
    requires
        0 <= k < deletions(e, live).len(),
    ensures
        exists|i: int|
            0 <= i < e.len() && deletions(e, live)[k] == (ChangeView::Deleted {
                id: e[i].0@,
                filename: e[i].1@,
            }) && !has_id(live, e[i].0@),
    decreases e.len(),
{
    let prev = deletions(e.drop_last(), live);
    if k < prev.len() {
        lemma_deletions_from(e.drop_last(), live, k);
        let i = choose|i: int|
            0 <= i < e.drop_last().len() && prev[k] == (ChangeView::Deleted {
                id: e.drop_last()[i].0@,
                filename: e.drop_last()[i].1@,
            }) && !has_id(live, e.drop_last()[i].0@);
        assert(e[i] == e.drop_last()[i]);
    } else {
        assert(e[e.len() - 1] == e.last());
    }
}

/// The diff only ever adds or modifies exported notes (never one whose tags
/// are all excluded), and only ever deletes a recorded note, under its
/// recorded filename, that is not exported.
pub proof fn law_diff_changes_are_justified(
    notes: Seq<NoteView>,
    e: Seq<(String, String)>,
    files: Seq<(Seq<char>, Seq<char>)>,
    exclude: Seq<Seq<char>>,
    cfg: ExportConfig,
    k: int,
)
    requires
        keys_distinct(e),
        0 <= k < diff_spec(notes, e, files, exclude, cfg).len(),
    ensures
        diff_spec(notes, e, files, exclude, cfg)[k] matches ChangeView::Added(n) ==> exists|i: int|
            0 <= i < notes.len() && notes[i] == n && kept(n, exclude),
        diff_spec(notes, e, files, exclude, cfg)[k] matches ChangeView::Modified(n) ==> exists|i: int|
            0 <= i < notes.len() && notes[i] == n && kept(n, exclude),
        diff_spec(notes, e, files, exclude, cfg)[k] matches ChangeView::Deleted { id, filename } ==> {
            &&& entries_map(e).contains_key(id)
            &&& entries_map(e)[id] == filename
            &&& !has_id(kept_notes(notes, exclude), id)
        },
{
    let live = kept_notes(notes, exclude);
    let nc = note_changes(live, entries_map(e), files, cfg);
    let d = diff_spec(notes, e, files, exclude, cfg);
    if k < nc.len() {
        assert(d[k] == nc[k]);
        lemma_note_changes_from(live, entries_map(e), files, cfg, k);
        let j = choose|j: int|
            0 <= j < live.len() && (nc[k] == ChangeView::Added(live[j]) || nc[k]
                == ChangeView::Modified(live[j]));
        lemma_kept_notes_from(notes, exclude, j);
    } else {
        let dels = deletions(e, live);
        assert(d[k] == dels[k - nc.len()]);
        lemma_deletions_from(e, live, k - nc.len());
        let i = choose|i: int|
            0 <= i < e.len() && dels[k - nc.len()] == (ChangeView::Deleted {
                id: e[i].0@,
                filename: e[i].1@,
            }) && !has_id(live, e[i].0@);
        lemma_entries_map_value(e, i);
    }
}

/// The exported notes are the given notes, in order, without those that
/// have tags all of which are excluded: a note with no tags, or with some
/// tag outside the list, is exported.
pub proof fn law_exported_notes(ns: Seq<NoteView>, exclude: Seq<Seq<char>>)
    ensures
        kept_notes(ns, exclude) == ns.filter(
            |n: NoteView|
                !(n.tags.len() > 0 && forall|j: int| 0 <= j < n.tags.len() ==> exclude.contains(n.tags[j])),
        ),
    decreases ns.len(),
{
    reveal(Seq::filter);
    let pred = |n: NoteView|
        !(n.tags.len() > 0 && forall|j: int| 0 <= j < n.tags.len() ==> exclude.contains(n.tags[j]));
    if ns.len() > 0 {
        law_exported_notes(ns.drop_last(), exclude);
        let n = ns.last();
        assert(kept(n, exclude) == pred(n));
    }
}

/// Without a manifest entry, every note changes by being added.
proof fn lemma_note_changes_unrecorded(
    ns: Seq<NoteView>,
    files: Seq<(Seq<char>, Seq<char>)>,
    cfg: ExportConfig,
)
    ensures
        note_changes(ns, Map::empty(), files, cfg) == ns.map_values(|n: NoteView| ChangeView::Added(n)),
    decreases ns.len(),
{
    if ns.len() > 0 {
        lemma_note_changes_unrecorded(ns.drop_last(), files, cfg);
        assert(ns.map_values(|n: NoteView| ChangeView::Added(n)) == ns.drop_last().map_values(
            |n: NoteView| ChangeView::Added(n),
        ).push(ChangeView::Added(ns.last())));
    } else {
        assert(ns.map_values(|n: NoteView| ChangeView::Added(n)) == Seq::<ChangeView>::empty());
    }
}

/// Against an empty manifest, the diff adds every exported note, in order,
/// and nothing else.
pub proof fn law_first_sync_adds_every_exported_note(
    notes: Seq<NoteView>,
    files: Seq<(Seq<char>, Seq<char>)>,
    exclude: Seq<Seq<char>>,
    cfg: ExportConfig,
)
    ensures
        diff_spec(notes, seq![], files, exclude, cfg) == kept_notes(notes, exclude).map_values(
            |n: NoteView| ChangeView::Added(n),
        ),
{
    let live = kept_notes(notes, exclude);
    let e: Seq<(String, String)> = seq![];
    assert(entries_map(e) == Map::<Seq<char>, Seq<char>>::empty());
    lemma_note_changes_unrecorded(live, files, cfg);
    assert(deletions(e, live) == Seq::<ChangeView>::empty());
    assert(diff_spec(notes, e, files, exclude, cfg) == note_changes(live, entries_map(e), files, cfg)
        + Seq::<ChangeView>::empty());
}

} // verus!
