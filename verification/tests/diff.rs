use denote::config::{AttachmentMode, ExportConfig, FilenameStrategy};
use denote::db::models::{BearAttachment, BearNote};
use denote::export::diff::{
    assets_subdir_for, compute_diff, diff_ready, export_ready, exported_content, filter_excluded,
    is_modified, plan_change, record_change, Change, FileOp, RepoFile,
};
use denote::export::filemap::Manifest;
use denote::export::markdown::render;

fn note(id: &str, title: &str, tags: Vec<&str>) -> BearNote {
    BearNote {
        id: id.into(),
        title: title.into(),
        text: format!("# {title}\n\nContent for {id}\n"),
        tags: tags.into_iter().map(String::from).collect(),
        created: 0,
        modified: 0,
        is_trashed: false,
        is_archived: false,
        is_pinned: false,
        attachments: vec![],
    }
}

#[test]
fn test_all_new_notes() {
    let notes = vec![note("A", "Alpha", vec!["work"]), note("B", "Beta", vec!["home"])];
    let manifest = Manifest::default();
    let export_config = ExportConfig::default();
    let changes = compute_diff(&notes, &manifest, &[], &[], &export_config);

    let added_count = changes
        .iter()
        .filter(|c| matches!(c, Change::Added(_)))
        .count();
    assert_eq!(added_count, 2);
}

#[test]
fn test_deleted_note() {
    let notes: Vec<BearNote> = vec![];
    let mut manifest = Manifest::default();
    manifest.set("OLD-ID".into(), "old-note.md".into());
    let export_config = ExportConfig::default();

    let changes = compute_diff(&notes, &manifest, &[], &[], &export_config);
    assert_eq!(changes.len(), 1);
    assert!(matches!(&changes[0], Change::Deleted { id, .. } if id == "OLD-ID"));
}

#[test]
fn test_exclude_tags_all_excluded() {
    let notes = vec![note("A", "Private", vec!["private", "scratch"])];
    let manifest = Manifest::default();
    let exclude = vec!["private".to_string(), "scratch".to_string()];
    let export_config = ExportConfig::default();

    let changes = compute_diff(&notes, &manifest, &[], &exclude, &export_config);
    assert!(changes.is_empty());
}

#[test]
fn test_exclude_tags_partial() {
    let notes = vec![note("A", "Semi-private", vec!["private", "work"])];
    let manifest = Manifest::default();
    let exclude = vec!["private".to_string()];
    let export_config = ExportConfig::default();

    let changes = compute_diff(&notes, &manifest, &[], &exclude, &export_config);
    assert_eq!(changes.len(), 1);
    assert!(matches!(&changes[0], Change::Added(_)));
}

/// Applies changes to an in-memory repository, as the program does on disk.
fn apply(changes: &[Change], manifest: &mut Manifest, files: &mut Vec<RepoFile>, cfg: &ExportConfig) -> usize {
    let mut count = 0;
    for change in changes {
        match plan_change(change, manifest, cfg) {
            FileOp::Write { filename, content, .. } => {
                files.retain(|f| f.filename != filename);
                files.push(RepoFile { filename: filename.clone(), contents: content });
                record_change(change, &filename, manifest);
            }
            FileOp::Remove { filename, .. } => {
                files.retain(|f| f.filename != filename);
                record_change(change, &filename, manifest);
            }
        }
        count += 1;
    }
    count
}

#[test]
fn test_apply_changes_roundtrip() {
    let notes = vec![note("A", "Alpha", vec!["work"])];
    let mut manifest = Manifest::default();
    let export_config = ExportConfig {
        frontmatter: true,
        attachment_mode: AttachmentMode::Placeholder,
        filename_strategy: FilenameStrategy::TitleUuid,
    };
    let mut files: Vec<RepoFile> = vec![];

    let changes = compute_diff(&notes, &manifest, &files, &[], &export_config);
    let count = apply(&changes, &mut manifest, &mut files, &export_config);
    assert_eq!(count, 1);
    assert!(manifest.filename_for("A").is_some());

    // Second sync — no changes
    let changes = compute_diff(&notes, &manifest, &files, &[], &export_config);
    assert!(changes.is_empty());
}

#[test]
fn sync_converges_after_mixed_changes() {
    let cfg = ExportConfig::default();
    let mut manifest = Manifest::default();
    manifest.set("GONE".into(), "gone.md".into());
    manifest.set("B".into(), "beta-b.md".into());
    let mut files = vec![
        RepoFile { filename: "gone.md".into(), contents: "old".into() },
        RepoFile { filename: "beta-b.md".into(), contents: "stale".into() },
    ];
    let notes = vec![note("A", "Alpha", vec![]), note("B", "Beta", vec![]), note("C", "Alpha", vec![])];
    let changes = compute_diff(&notes, &manifest, &files, &[], &cfg);
    assert_eq!(changes.len(), 4);
    assert!(matches!(&changes[0], Change::Added(n) if n.id == "A"));
    assert!(matches!(&changes[1], Change::Modified(n) if n.id == "B"));
    assert!(matches!(&changes[2], Change::Added(n) if n.id == "C"));
    assert!(matches!(&changes[3], Change::Deleted { id, filename } if id == "GONE" && filename == "gone.md"));
    assert_eq!(apply(&changes, &mut manifest, &mut files, &cfg), 4);
    assert_eq!(manifest.filename_for("A").unwrap(), "alpha-a.md");
    assert_eq!(manifest.filename_for("C").unwrap(), "alpha-c.md");
    assert!(manifest.filename_for("GONE").is_none());
    assert!(compute_diff(&notes, &manifest, &files, &[], &cfg).is_empty());
}

#[test]
fn unchanged_file_is_not_modified_and_missing_file_is() {
    let cfg = ExportConfig::default();
    let n = note("A", "Alpha", vec![]);
    let mut manifest = Manifest::default();
    manifest.set("A".into(), "alpha.md".into());
    let current = exported_content(&n, &cfg);
    let files = vec![RepoFile { filename: "alpha.md".into(), contents: current.clone() }];
    assert!(compute_diff(&[n.clone()], &manifest, &files, &[], &cfg).is_empty());
    let changes = compute_diff(&[n.clone()], &manifest, &[], &[], &cfg);
    assert!(matches!(&changes[0], Change::Modified(_)));
    assert!(!is_modified(&n, Some(&current), &cfg));
    assert!(is_modified(&n, Some(&"x".to_string()), &cfg));
    assert!(is_modified(&n, None, &cfg));
}

#[test]
fn excluded_recorded_note_is_deleted() {
    let cfg = ExportConfig::default();
    let mut manifest = Manifest::default();
    manifest.set("P".into(), "p.md".into());
    let notes = vec![note("P", "Private", vec!["private"])];
    let changes = compute_diff(&notes, &manifest, &[], &["private".to_string()], &cfg);
    assert_eq!(changes.len(), 1);
    assert!(matches!(&changes[0], Change::Deleted { id, filename } if id == "P" && filename == "p.md"));
}

#[test]
fn filter_keeps_untagged_and_partly_excluded() {
    let notes = vec![
        note("A", "a", vec![]),
        note("B", "b", vec!["x"]),
        note("C", "c", vec!["x", "y"]),
    ];
    let ex = vec!["x".to_string()];
    let kept: Vec<&str> = filter_excluded(&notes, &ex).iter().map(|n| n.id.as_str()).collect();
    assert_eq!(kept, vec!["A", "C"]);
    let all: Vec<&str> = filter_excluded(&notes, &[]).iter().map(|n| n.id.as_str()).collect();
    assert_eq!(all, vec!["A", "B", "C"]);
}

#[test]
fn assets_folder_from_id() {
    let mut n = note("ABCDEFGHIJ", "t", vec![]);
    assert_eq!(assets_subdir_for(&n), None);
    n.attachments.push(BearAttachment { uuid: "U".into(), filename: "f.png".into(), is_image: true });
    assert_eq!(assets_subdir_for(&n), Some("_assets/ABCDEFGH".to_string()));
    n.id = "SHORT".into();
    assert_eq!(assets_subdir_for(&n), Some("_assets/SHORT".to_string()));
}

#[test]
fn exported_content_is_render_with_assets_folder() {
    let cfg = ExportConfig { frontmatter: false, attachment_mode: AttachmentMode::Copy, filename_strategy: FilenameStrategy::Title };
    let mut n = note("ABCDEFGHIJ", "t", vec![]);
    n.text = "![](f.png)".into();
    n.attachments.push(BearAttachment { uuid: "U".into(), filename: "f.png".into(), is_image: true });
    assert_eq!(exported_content(&n, &cfg), "![](_assets/ABCDEFGH/f.png)\n");
    assert_eq!(exported_content(&n, &cfg), render(&n, false, &AttachmentMode::Copy, Some("_assets/ABCDEFGH")));
}

#[test]
fn plan_names_files_and_assets() {
    let cfg = ExportConfig { frontmatter: false, attachment_mode: AttachmentMode::Copy, filename_strategy: FilenameStrategy::Title };
    let mut manifest = Manifest::default();
    manifest.set("X".into(), "alpha.md".into());
    let mut n = note("ABCDEFGHIJ", "Alpha", vec![]);
    n.attachments.push(BearAttachment { uuid: "U".into(), filename: "f.png".into(), is_image: true });
    match plan_change(&Change::Added(n.clone()), &manifest, &cfg) {
        FileOp::Write { filename, content, assets_id } => {
            assert_eq!(filename, "alpha-2.md");
            assert_eq!(content, exported_content(&n, &cfg));
            assert_eq!(assets_id, Some("ABCDEFGH".to_string()));
        }
        FileOp::Remove { .. } => panic!("expected a write"),
    }
    manifest.set("ABCDEFGHIJ".into(), "kept.md".into());
    match plan_change(&Change::Modified(n.clone()), &manifest, &cfg) {
        FileOp::Write { filename, .. } => assert_eq!(filename, "kept.md"),
        FileOp::Remove { .. } => panic!("expected a write"),
    }
    let del = Change::Deleted { id: "ABCDEFGHIJ".into(), filename: "kept.md".into() };
    match plan_change(&del, &manifest, &cfg) {
        FileOp::Remove { filename, assets_id } => {
            assert_eq!(filename, "kept.md");
            assert_eq!(assets_id, Some("ABCDEFGH".to_string()));
        }
        FileOp::Write { .. } => panic!("expected a removal"),
    }
    let placeholder = ExportConfig { attachment_mode: AttachmentMode::Placeholder, ..cfg };
    match plan_change(&del, &manifest, &placeholder) {
        FileOp::Remove { assets_id, .. } => assert_eq!(assets_id, None),
        FileOp::Write { .. } => panic!("expected a removal"),
    }
    record_change(&del, &"kept.md".to_string(), &mut manifest);
    assert!(manifest.filename_for("ABCDEFGHIJ").is_none());
}

#[test]
fn readiness_checks() {
    let cfg = ExportConfig { frontmatter: false, attachment_mode: AttachmentMode::Copy, filename_strategy: FilenameStrategy::Title };
    let mut n = note("ABCDEFG\u{e9}", "t", vec![]);
    assert!(export_ready(&n, &cfg));
    n.attachments.push(BearAttachment { uuid: "U".into(), filename: "f".into(), is_image: false });
    assert!(!export_ready(&n, &cfg));
    let mut manifest = Manifest::default();
    assert!(diff_ready(&[n.clone()], &manifest, &[], &cfg));
    manifest.set(n.id.clone(), "x.md".into());
    assert!(!diff_ready(&[n.clone()], &manifest, &[], &cfg));
    n.id = "ABCDEFGH".into();
    n.text = "[a](%a\u{e9})".into();
    assert!(!export_ready(&n, &cfg));
    n.text = "[a](%41)".into();
    assert!(export_ready(&n, &cfg));
}
