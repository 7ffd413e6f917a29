use rusqlite::Connection;

use denote::config::{AttachmentMode, ExportConfig, FilenameStrategy};
use denote::db::models::BearNote;
use denote::db::reader::{
    attachments_query, files_table_query, junction_schema, junction_tables_query, note_from_row, notes_query, table_info_sql, AttachmentRow, NoteRow, SchemaInfo,
};
use denote::export::diff::{compute_diff, plan_change, record_change, Change, FileOp, RepoFile};
use denote::export::filemap::Manifest;
use denote::export::markdown::render;

/// A small in-memory database with Bear's schema: three live notes and one
/// in the trash, without a table of note files.
fn fixture() -> Connection {
    let conn = Connection::open_in_memory().unwrap();
    conn.execute_batch(
        "
        CREATE TABLE ZSFNOTE (
            Z_PK INTEGER PRIMARY KEY,
            ZUNIQUEIDENTIFIER TEXT NOT NULL,
            ZTITLE TEXT,
            ZTEXT TEXT,
            ZCREATIONDATE REAL,
            ZMODIFICATIONDATE REAL,
            ZPINNED INTEGER DEFAULT 0,
            ZTRASHED INTEGER DEFAULT 0,
            ZARCHIVED INTEGER DEFAULT 0
        );
        CREATE TABLE ZSFNOTETAG (
            Z_PK INTEGER PRIMARY KEY,
            ZTITLE TEXT NOT NULL
        );
        CREATE TABLE Z_5TAGS (
            Z_5NOTES INTEGER,
            Z_13TAGS INTEGER
        );
        ",
    )
    .unwrap();
    let created_ts: f64 = 795443400.0;
    let modified_ts: f64 = 796504920.0;
    let notes = [
        (1, "NOTE-UUID-AAAA", "Project Notes", "# Project Notes\n\nThis is a test note about the project.\n", 1, 0),
        (2, "NOTE-UUID-BBBB", "Weekly Standup", "# Weekly Standup\n\nMonday: reviewed PRs\nTuesday: shipped feature\n", 0, 0),
        (3, "NOTE-UUID-CCCC", "Private Stuff", "# Private Stuff\n\nSecret content.\n", 0, 0),
        (4, "NOTE-UUID-DDDD", "Trashed Note", "# Trashed Note\n\nIn the trash.\n", 0, 1),
    ];
    for (pk, id, title, text, pinned, trashed) in notes {
        conn.execute(
            "INSERT INTO ZSFNOTE (Z_PK, ZUNIQUEIDENTIFIER, ZTITLE, ZTEXT, ZCREATIONDATE, ZMODIFICATIONDATE, ZPINNED, ZTRASHED, ZARCHIVED)
             VALUES (?1, ?2, ?3, ?4, ?5, ?6, ?7, ?8, 0)",
            (pk, id, title, text, created_ts, modified_ts, pinned, trashed),
        )
        .unwrap();
    }
    conn.execute_batch(
        "
        INSERT INTO ZSFNOTETAG (Z_PK, ZTITLE) VALUES (1, 'work');
        INSERT INTO ZSFNOTETAG (Z_PK, ZTITLE) VALUES (2, 'meeting');
        INSERT INTO ZSFNOTETAG (Z_PK, ZTITLE) VALUES (3, 'private');
        INSERT INTO Z_5TAGS (Z_5NOTES, Z_13TAGS) VALUES (1, 1);
        INSERT INTO Z_5TAGS (Z_5NOTES, Z_13TAGS) VALUES (2, 1);
        INSERT INTO Z_5TAGS (Z_5NOTES, Z_13TAGS) VALUES (2, 2);
        INSERT INTO Z_5TAGS (Z_5NOTES, Z_13TAGS) VALUES (3, 3);
        ",
    )
    .unwrap();
    conn
}

/// The fixture with a table of note files holding attachments.
fn fixture_with_files() -> Connection {
    let conn = fixture();
    conn.execute_batch(
        "
        CREATE TABLE ZSFNOTEFILE (
            Z_PK INTEGER PRIMARY KEY,
            ZNOTE INTEGER,
            ZUNIQUEIDENTIFIER TEXT,
            ZFILENAME TEXT,
            ZNORMALIZEDFILEEXTENSION TEXT,
            ZPERMANENTLYDELETED INTEGER DEFAULT 0
        );
        INSERT INTO ZSFNOTEFILE VALUES (1, 1, 'F1', 'pic.PNG', 'PNG', 0);
        INSERT INTO ZSFNOTEFILE VALUES (2, 1, 'F2', 'gone.pdf', 'pdf', 1);
        INSERT INTO ZSFNOTEFILE VALUES (3, NULL, 'F3', 'loose.png', 'png', 0);
        INSERT INTO ZSFNOTEFILE VALUES (4, 2, 'F4', 'minutes.pdf', 'pdf', 0);
        ",
    )
    .unwrap();
    conn
}

fn schema(conn: &Connection) -> SchemaInfo {
    let mut stmt = conn
        .prepare(&junction_tables_query())
        .unwrap();
    let tables: Vec<String> = stmt.query_map([], |r| r.get(0)).unwrap().map(|r| r.unwrap()).collect();
    for t in &tables {
        let mut p = conn.prepare(&table_info_sql(t)).unwrap();
        let cols: Vec<String> = p.query_map([], |r| r.get::<_, String>(1)).unwrap().map(|r| r.unwrap()).collect();
        if let Some(s) = junction_schema(t, &cols) {
            return s;
        }
    }
    panic!("no junction table");
}

/// Reads the notes as the program does, through the library's query and row decoding.
fn fetch(conn: &Connection, include_trashed: bool, include_archived: bool) -> Vec<BearNote> {
    let s = schema(conn);
    let has_files = conn.prepare(&files_table_query()).unwrap().exists([]).unwrap();
    let atts: Vec<AttachmentRow> = if has_files {
        let mut a = conn.prepare(&attachments_query()).unwrap();
        let rows: Vec<AttachmentRow> = a
            .query_map([], |r| {
                Ok(AttachmentRow { note_pk: r.get(0)?, uuid: r.get(1)?, filename: r.get(2)?, extension: r.get(3)? })
            })
            .unwrap()
            .map(|r| r.unwrap())
            .collect();
        rows
    } else {
        Vec::new()
    };
    let mut stmt = conn.prepare(&notes_query(&s, include_trashed, include_archived)).unwrap();
    let rows: Vec<NoteRow> = stmt
        .query_map([], |r| {
            Ok(NoteRow {
                id: r.get(0)?,
                title: r.get(1)?,
                text: r.get(2)?,
                created: r.get(3)?,
                modified: r.get(4)?,
                is_trashed: r.get(5)?,
                is_archived: r.get(6)?,
                is_pinned: r.get(7)?,
                tags: r.get(8)?,
                z_pk: r.get(9)?,
            })
        })
        .unwrap()
        .map(|r| r.unwrap())
        .collect();
    rows.into_iter().map(|r| note_from_row(r, &atts).unwrap()).collect()
}

fn default_export_config() -> ExportConfig {
    ExportConfig {
        frontmatter: true,
        attachment_mode: AttachmentMode::Placeholder,
        filename_strategy: FilenameStrategy::TitleUuid,
    }
}

/// Applies changes to an in-memory repository.
fn apply_changes(changes: &[Change], manifest: &mut Manifest, files: &mut Vec<RepoFile>, cfg: &ExportConfig) -> usize {
    let mut count = 0;
    for change in changes {
        let filename = match plan_change(change, manifest, cfg) {
            FileOp::Write { filename, content, .. } => {
                files.retain(|f| f.filename != filename);
                files.push(RepoFile { filename: filename.clone(), contents: content });
                filename
            }
            FileOp::Remove { filename, .. } => {
                files.retain(|f| f.filename != filename);
                filename
            }
        };
        record_change(change, &filename, manifest);
        count += 1;
    }
    count
}

#[test]
fn test_read_notes_from_fixture_db() {
    let conn = fixture();
    let notes = fetch(&conn, false, false);
    assert_eq!(notes.len(), 3, "Should get 3 non-trashed notes");

    let project = notes.iter().find(|n| n.id == "NOTE-UUID-AAAA").unwrap();
    assert_eq!(project.title, "Project Notes");
    assert!(project.is_pinned);
    assert!(project.tags.contains(&"work".to_string()));

    let standup = notes.iter().find(|n| n.id == "NOTE-UUID-BBBB").unwrap();
    assert_eq!(standup.tags.len(), 2);
    assert!(standup.tags.contains(&"work".to_string()));
    assert!(standup.tags.contains(&"meeting".to_string()));
}

#[test]
fn test_read_notes_include_trashed() {
    let conn = fixture();
    let notes = fetch(&conn, true, false);
    assert_eq!(notes.len(), 4, "Should get all 4 notes including trashed");
}

#[test]
fn test_render_exported_note() {
    let conn = fixture();
    let notes = fetch(&conn, false, false);

    let project = notes.iter().find(|n| n.id == "NOTE-UUID-AAAA").unwrap();
    let rendered = render(project, true, &AttachmentMode::Placeholder, None);

    assert!(rendered.starts_with("---\n"));
    assert!(rendered.contains("id: \"NOTE-UUID-AAAA\""));
    assert!(rendered.contains("title: \"Project Notes\""));
    assert!(rendered.contains("tags: [\"work\"]"));
    assert!(rendered.contains("pinned: true"));
    assert!(rendered.contains("This is a test note about the project."));
    // Title heading should be stripped since it duplicates the title
    assert!(!rendered.contains("# Project Notes"));
}

#[test]
fn test_full_export_with_filenames() {
    let conn = fixture();
    let notes = fetch(&conn, false, false);

    let mut manifest = Manifest::default();
    let export = default_export_config();
    let mut files: Vec<RepoFile> = vec![];

    for note in &notes {
        let filename = manifest.generate_filename(note, &export.filename_strategy);
        let content = render(note, export.frontmatter, &export.attachment_mode, None);
        files.push(RepoFile { filename: filename.clone(), contents: content });
        manifest.set(note.id.clone(), filename);
    }

    let saved = serde_json::to_string_pretty(
        &manifest.entries.iter().cloned().collect::<std::collections::BTreeMap<String, String>>(),
    )
    .unwrap();

    assert_eq!(manifest.entries.len(), 3);
    let reread: std::collections::BTreeMap<String, String> = serde_json::from_str(&saved).unwrap();
    assert_eq!(reread.len(), 3);

    // Verify each note was written
    for (_, filename) in &manifest.entries {
        assert!(files.iter().any(|f| &f.filename == filename));
    }
    assert!(manifest.filename_for("NOTE-UUID-AAAA").unwrap() == "project-notes-note-u.md");
}

#[test]
fn test_diff_all_new() {
    let conn = fixture();
    let notes = fetch(&conn, false, false);
    let manifest = Manifest::default();
    let changes = compute_diff(&notes, &manifest, &[], &[], &default_export_config());
    let added = changes.iter().filter(|c| matches!(c, Change::Added(_))).count();
    assert_eq!(added, 3);
}

#[test]
fn test_diff_no_changes_after_apply() {
    let conn = fixture();
    let notes = fetch(&conn, false, false);
    let mut manifest = Manifest::default();
    let export_config = default_export_config();
    let mut files: Vec<RepoFile> = vec![];

    // First pass: apply all changes
    let changes = compute_diff(&notes, &manifest, &files, &[], &export_config);
    let count = apply_changes(&changes, &mut manifest, &mut files, &export_config);
    assert_eq!(count, 3);

    // Second pass: no changes
    let changes = compute_diff(&notes, &manifest, &files, &[], &export_config);
    assert!(changes.is_empty(), "Expected no changes after applying all");
}

#[test]
fn test_diff_with_tag_exclusion() {
    let conn = fixture();
    let notes = fetch(&conn, false, false);
    let manifest = Manifest::default();
    let exclude = vec!["private".to_string()];
    let changes = compute_diff(&notes, &manifest, &[], &exclude, &default_export_config());
    let added = changes.iter().filter(|c| matches!(c, Change::Added(_))).count();
    // "Private Stuff" has only the "private" tag, so it should be excluded
    assert_eq!(added, 2);
}

#[test]
fn test_diff_detects_modification() {
    let conn = fixture();
    let notes = fetch(&conn, false, false);
    let mut manifest = Manifest::default();
    let export_config = default_export_config();
    let mut files: Vec<RepoFile> = vec![];

    let changes = compute_diff(&notes, &manifest, &files, &[], &export_config);
    apply_changes(&changes, &mut manifest, &mut files, &export_config);

    // Tamper with a file to simulate modification
    let project_filename = manifest.filename_for("NOTE-UUID-AAAA").unwrap().clone();
    for f in files.iter_mut() {
        if f.filename == project_filename {
            f.contents = "stale content".into();
        }
    }

    let changes = compute_diff(&notes, &manifest, &files, &[], &export_config);
    assert_eq!(changes.len(), 1);
    assert!(matches!(&changes[0], Change::Modified(n) if n.id == "NOTE-UUID-AAAA"));
}

#[test]
fn test_diff_detects_deletion() {
    let conn = fixture();
    let notes = fetch(&conn, false, false);
    let mut manifest = Manifest::default();
    let export_config = default_export_config();
    let mut files: Vec<RepoFile> = vec![];

    let changes = compute_diff(&notes, &manifest, &files, &[], &export_config);
    apply_changes(&changes, &mut manifest, &mut files, &export_config);

    // Simulate a note being trashed: remove it from the notes list
    let notes_without_project: Vec<_> = notes.into_iter().filter(|n| n.id != "NOTE-UUID-AAAA").collect();

    let changes = compute_diff(&notes_without_project, &manifest, &files, &[], &export_config);
    let deleted = changes
        .iter()
        .filter(|c| matches!(c, Change::Deleted { id, .. } if id == "NOTE-UUID-AAAA"))
        .count();
    assert_eq!(deleted, 1);

    let count = apply_changes(&changes, &mut manifest, &mut files, &export_config);
    assert_eq!(count, 1);
    assert!(manifest.filename_for("NOTE-UUID-AAAA").is_none());
}

#[test]
fn dates_come_from_core_data_seconds() {
    let conn = fixture();
    let notes = fetch(&conn, false, false);
    let project = notes.iter().find(|n| n.id == "NOTE-UUID-AAAA").unwrap();
    assert_eq!(project.created, 795443400 + 978307200);
    assert_eq!(project.modified, 796504920 + 978307200);
    // Newest first: all share one modification date, so only the count is fixed.
    assert_eq!(notes.len(), 3);
}

#[test]
fn attachments_read_from_the_files_table() {
    let conn = fixture_with_files();
    let notes = fetch(&conn, false, false);
    let project = notes.iter().find(|n| n.id == "NOTE-UUID-AAAA").unwrap();
    assert_eq!(project.attachments.len(), 1);
    assert_eq!(project.attachments[0].uuid, "F1");
    assert!(project.attachments[0].is_image);
    let standup = notes.iter().find(|n| n.id == "NOTE-UUID-BBBB").unwrap();
    assert_eq!(standup.attachments.len(), 1);
    assert!(!standup.attachments[0].is_image);
    let private = notes.iter().find(|n| n.id == "NOTE-UUID-CCCC").unwrap();
    assert!(private.attachments.is_empty());
}

#[test]
fn database_without_files_table_has_no_attachments() {
    let conn = fixture();
    let notes = fetch(&conn, true, true);
    assert_eq!(notes.len(), 4);
    assert!(notes.iter().all(|n| n.attachments.is_empty()));
}
