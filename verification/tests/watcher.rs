use denote::config::{DenoteConfig, ExportConfig};
use denote::db::models::BearNote;
use denote::errors::DenoteError;
use denote::export::diff::{Change, FileOp, RepoFile};
use denote::export::filemap::Manifest;
use denote::watcher::{commit_message, sync_cycle, SyncAction, SyncEvent};

fn config() -> DenoteConfig {
    DenoteConfig {
        bear_db: "/db".into(),
        repo_path: "/repo".into(),
        remote: "origin".into(),
        branch: "main".into(),
        push_on_sync: true,
        debounce_secs: 5,
        exclude_tags: vec!["private".into()],
        include_trashed: false,
        include_archived: false,
        commit_template: "denote: synced {count} notes".into(),
        export: ExportConfig::default(),
    }
}

fn note(id: &str, tags: Vec<&str>) -> BearNote {
    BearNote {
        id: id.into(),
        title: "T".into(),
        text: "body".into(),
        tags: tags.into_iter().map(String::from).collect(),
        created: 0,
        modified: 0,
        is_trashed: false,
        is_archived: false,
        is_pinned: false,
        attachments: vec![],
    }
}

#[test]
fn commit_message_fills_count() {
    assert_eq!(commit_message("denote: synced {count} notes", 3), "denote: synced 3 notes");
    assert_eq!(commit_message("{count}/{count}", 10), "10/10");
    assert_eq!(commit_message("no count", 4), "no count");
}

#[test]
fn cycle_without_changes_finishes() {
    let c = config();
    let ev = SyncEvent::Loaded { notes: vec![note("P", vec!["private"])], manifest: Manifest::default(), files: vec![] };
    assert!(matches!(sync_cycle(&c, ev), SyncAction::Finish { count: 0 }));
}

#[test]
fn cycle_applies_commits_and_finishes() {
    let c = config();
    let ev = SyncEvent::Loaded { notes: vec![note("A", vec![])], manifest: Manifest::default(), files: Vec::<RepoFile>::new() };
    match sync_cycle(&c, ev) {
        SyncAction::Apply { changes, ops, manifest, count } => {
            assert_eq!(changes.len(), 1);
            assert_eq!(count, 1);
            assert!(matches!(&changes[0], Change::Added(n) if n.id == "A"));
            assert_eq!(ops.len(), 1);
            assert!(matches!(&ops[0], FileOp::Write { filename, .. } if filename == "t-a.md"));
            assert_eq!(manifest.filename_for("A").map(|s| s.as_str()), Some("t-a.md"));
        }
        other => panic!("unexpected {other:?}"),
    }
    match sync_cycle(&c, SyncEvent::Applied { count: 1 }) {
        SyncAction::Commit { message, remote, branch, push, count } => {
            assert_eq!(message, "denote: synced 1 notes");
            assert_eq!(remote, "origin");
            assert_eq!(branch, "main");
            assert!(push);
            assert_eq!(count, 1);
        }
        other => panic!("unexpected {other:?}"),
    }
    assert!(matches!(sync_cycle(&c, SyncEvent::Committed { count: 1 }), SyncAction::Finish { count: 1 }));
}

#[test]
fn cycle_starts_by_checking_the_database() {
    let c = config();
    match sync_cycle(&c, SyncEvent::Start { db_exists: false }) {
        SyncAction::Fail { error: DenoteError::DbNotFound(p) } => assert_eq!(p, "/db"),
        other => panic!("unexpected {other:?}"),
    }
    match sync_cycle(&c, SyncEvent::Start { db_exists: true }) {
        SyncAction::Read { reader } => assert_eq!(reader.db_path(), "/db"),
        other => panic!("unexpected {other:?}"),
    }
}
