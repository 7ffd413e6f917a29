use denote::config::{AttachmentMode, ExportConfig, FilenameStrategy};
use denote::db::models::{BearAttachment, BearNote};
use denote::export::apply::{plan_changes, plan_ready};
use denote::export::diff::{compute_diff, Change, FileOp, RepoFile};
use denote::export::filemap::Manifest;
use denote::export::markdown::render;

fn note(id: &str, title: &str) -> BearNote {
    BearNote {
        id: id.into(),
        title: title.into(),
        text: format!("body of {id}"),
        tags: vec![],
        created: 0,
        modified: 0,
        is_trashed: false,
        is_archived: false,
        is_pinned: false,
        attachments: vec![],
    }
}

fn perform(ops: &[FileOp], files: &mut Vec<RepoFile>) {
    for op in ops {
        match op {
            FileOp::Write { filename, content, .. } => {
                files.retain(|f| &f.filename != filename);
                files.push(RepoFile { filename: filename.clone(), contents: content.clone() });
            }
            FileOp::Remove { filename, .. } => files.retain(|f| &f.filename != filename),
        }
    }
}

#[test]
fn planned_sync_converges() {
    let cfg = ExportConfig { frontmatter: true, attachment_mode: AttachmentMode::Copy, filename_strategy: FilenameStrategy::Title };
    let mut manifest = Manifest::default();
    manifest.set("OLD".into(), "old.md".into());
    let mut files = vec![RepoFile { filename: "old.md".into(), contents: "x".into() }];
    let mut a = note("AAAAAAAAAA", "Same");
    a.attachments.push(BearAttachment { uuid: "U".into(), filename: "p.png".into(), is_image: true });
    let notes = vec![a, note("B", "Same"), note("C", "Same")];

    let changes = compute_diff(&notes, &manifest, &files, &[], &cfg);
    assert_eq!(changes.len(), 4);
    let (ops, planned) = plan_changes(&changes, manifest, &cfg);
    assert_eq!(ops.len(), 4);
    assert!(matches!(&ops[0], FileOp::Write { filename, assets_id: Some(id), .. } if filename == "same.md" && id == "AAAAAAAA"));
    assert!(matches!(&ops[1], FileOp::Write { filename, assets_id: None, .. } if filename == "same-2.md"));
    assert!(matches!(&ops[2], FileOp::Write { filename, .. } if filename == "same-3.md"));
    assert!(matches!(&ops[3], FileOp::Remove { filename, assets_id: Some(id) } if filename == "old.md" && id == "OLD"));
    assert_eq!(planned.entries.len(), 3);
    assert!(planned.filename_for("OLD").is_none());
    assert!(planned.is_wf());

    perform(&ops, &mut files);
    assert!(compute_diff(&notes, &planned, &files, &[], &cfg).is_empty());
}

#[test]
fn planning_stops_where_an_id_would_be_cut() {
    let cfg = ExportConfig { frontmatter: false, attachment_mode: AttachmentMode::Placeholder, filename_strategy: FilenameStrategy::TitleUuid };
    let changes = vec![
        Change::Added(note("GOOD-ID", "a")),
        Change::Added(note("ABCDE\u{e9}", "b")),
        Change::Added(note("LATER", "c")),
    ];
    assert!(plan_ready(&changes[0], &Manifest::default(), &cfg));
    assert!(!plan_ready(&changes[1], &Manifest::default(), &cfg));
    let (ops, planned) = plan_changes(&changes, Manifest::default(), &cfg);
    assert_eq!(ops.len(), 1);
    assert_eq!(planned.filename_for("GOOD-ID").map(|s| s.as_str()), Some("a-good-i.md"));
    assert!(planned.filename_for("LATER").is_none());
}

#[test]
fn modified_note_with_entry_needs_no_new_name() {
    let cfg = ExportConfig { frontmatter: false, attachment_mode: AttachmentMode::Placeholder, filename_strategy: FilenameStrategy::TitleUuid };
    let mut m = Manifest::default();
    m.set("ABCDE\u{e9}".into(), "kept.md".into());
    let change = Change::Modified(note("ABCDE\u{e9}", "b"));
    assert!(plan_ready(&change, &m, &cfg));
    let (ops, planned) = plan_changes(&[change], m, &cfg);
    assert!(matches!(&ops[0], FileOp::Write { filename, .. } if filename == "kept.md"));
    assert_eq!(planned.entries.len(), 1);
    let del = Change::Deleted { id: "ABCDEFG\u{e9}".into(), filename: "x.md".into() };
    let copy = ExportConfig { attachment_mode: AttachmentMode::Copy, ..cfg };
    assert!(!plan_ready(&del, &Manifest::default(), &copy));
    assert!(plan_ready(&del, &Manifest::default(), &cfg));
}

#[test]
fn applied_diff_final_state() {
    let cfg = ExportConfig { frontmatter: false, attachment_mode: AttachmentMode::Placeholder, filename_strategy: FilenameStrategy::Title };
    let mut manifest = Manifest::default();
    manifest.set("KEEP".into(), "keep.md".into());
    manifest.set("MOD".into(), "mine.md".into());
    manifest.set("GONE".into(), "gone.md".into());
    let keep = note("KEEP", "Keep");
    let mut files = vec![
        RepoFile { filename: "keep.md".into(), contents: render(&keep, false, &AttachmentMode::Placeholder, None) },
        RepoFile { filename: "mine.md".into(), contents: "stale".into() },
        RepoFile { filename: "gone.md".into(), contents: "x".into() },
    ];
    let notes = vec![keep, note("MOD", "Renamed"), note("NEW", "Mine")];
    let changes = compute_diff(&notes, &manifest, &files, &[], &cfg);
    assert_eq!(changes.len(), 3);
    let (ops, planned) = plan_changes(&changes, manifest, &cfg);
    perform(&ops, &mut files);
    let content = |name: &str| files.iter().find(|f| f.filename == name).map(|f| f.contents.clone());
    assert_eq!(planned.filename_for("KEEP").unwrap(), "keep.md");
    assert_eq!(planned.filename_for("MOD").unwrap(), "mine.md");
    assert_eq!(content("mine.md"), Some(render(&notes[1], false, &AttachmentMode::Placeholder, None)));
    assert_eq!(planned.filename_for("NEW").unwrap(), "mine-2.md");
    assert_eq!(content("mine-2.md"), Some(render(&notes[2], false, &AttachmentMode::Placeholder, None)));
    assert!(planned.filename_for("GONE").is_none());
    assert_eq!(content("gone.md"), None);
}
