use denote::db::models::BearAttachment;
use denote::db::reader::{
    attachments_for, discover_schema_in, is_image_extension, is_image_lowercase, junction_schema, note_from_row,
    note_with_dates, notes_query, split_tags, table_info_sql, upper_column_matches, AttachmentRow,
    BearReader, NoteRow, SchemaInfo,
};
use denote::errors::DenoteError;

fn row(created: &str, modified: &str) -> NoteRow {
    NoteRow {
        id: "NOTE-UUID-AAAA".into(),
        title: "Project Notes".into(),
        text: "# Project Notes\n\nBody".into(),
        created: created.into(),
        modified: modified.into(),
        is_trashed: 0,
        is_archived: 2,
        is_pinned: 1,
        tags: Some("work||meeting".into()),
        z_pk: 7,
    }
}

fn att(pk: i64, uuid: &str, name: &str, ext: Option<&str>) -> AttachmentRow {
    AttachmentRow { note_pk: pk, uuid: uuid.into(), filename: name.into(), extension: ext.map(String::from) }
}

#[test]
fn reader_requires_existing_database() {
    match BearReader::new("/no/such.sqlite", false) {
        Err(DenoteError::DbNotFound(p)) => assert_eq!(p, "/no/such.sqlite"),
        other => panic!("unexpected {other:?}"),
    }
    let r = BearReader::new("/db.sqlite", true).unwrap();
    assert_eq!(r.db_path(), "/db.sqlite");
}

#[test]
fn tags_split_on_double_bar() {
    assert_eq!(split_tags(Some("work||meeting")), vec!["work", "meeting"]);
    assert_eq!(split_tags(Some("solo")), vec!["solo"]);
    assert_eq!(split_tags(Some("")), vec![""]);
    assert_eq!(split_tags(Some("a|||b")), vec!["a", "|b"]);
    assert!(split_tags(None).is_empty());
}

#[test]
fn image_extensions_ignore_case() {
    assert!(is_image_extension(Some("PNG")));
    assert!(is_image_extension(Some("jpeg")));
    assert!(is_image_extension(Some("Svg")));
    assert!(!is_image_extension(Some("pdf")));
    assert!(!is_image_extension(None));
    assert!(is_image_lowercase("heic"));
    assert!(!is_image_lowercase("HEIC"));
}

#[test]
fn junction_table_recognised_case_insensitively() {
    let cols = vec!["Z_PK".to_string(), "z_5notes".to_string(), "Z_13TAGS".to_string(), "Z_9NOTES".to_string()];
    let s = junction_schema("Z_5TAGS", &cols).unwrap();
    assert_eq!(s.junction_table, "Z_5TAGS");
    assert_eq!(s.note_col, "z_5notes");
    assert_eq!(s.tag_col, "Z_13TAGS");
    assert!(junction_schema("Z_5TAGS", &vec!["Z_5NOTES".to_string()]).is_none());
    assert!(junction_schema("T", &vec!["ZNOTES".to_string(), "Z_TAGS".to_string()]).is_none());
    assert!(upper_column_matches("Z_5NOTES", "NOTES"));
    assert!(!upper_column_matches("z_5notes", "NOTES"));
}

#[test]
fn queries() {
    assert_eq!(table_info_sql("Z_5TAGS"), "PRAGMA table_info(\"Z_5TAGS\")");
    let s = SchemaInfo { junction_table: "Z_5TAGS".into(), note_col: "Z_5NOTES".into(), tag_col: "Z_13TAGS".into() };
    let q = notes_query(&s, false, false);
    assert!(q.contains("LEFT JOIN Z_5TAGS jt ON jt.Z_5NOTES = n.Z_PK"));
    assert!(q.contains("LEFT JOIN ZSFNOTETAG t ON t.Z_PK = jt.Z_13TAGS"));
    assert!(q.contains("WHERE n.ZTRASHED = 0 AND n.ZARCHIVED = 0"));
    assert!(q.contains("datetime(n.ZCREATIONDATE + 978307200, 'unixepoch')"));
    assert!(notes_query(&s, true, false).contains("WHERE n.ZARCHIVED = 0\n"));
    assert!(notes_query(&s, false, true).contains("WHERE n.ZTRASHED = 0\n"));
    assert!(!notes_query(&s, true, true).contains("WHERE"));
}

#[test]
fn rows_become_notes() {
    let atts = vec![
        att(7, "A1", "img.PNG", Some("PNG")),
        att(8, "B1", "other.pdf", Some("pdf")),
        att(7, "A2", "doc.pdf", None),
    ];
    let n = note_from_row(row("2023-01-01 00:00:00", "2023-11-14 22:13:20"), &atts).unwrap();
    assert_eq!(n.id, "NOTE-UUID-AAAA");
    assert_eq!(n.created, 1_672_531_200);
    assert_eq!(n.modified, 1_700_000_000);
    assert_eq!(n.tags, vec!["work", "meeting"]);
    assert!(!n.is_trashed && n.is_archived && n.is_pinned);
    assert_eq!(n.attachments.len(), 2);
    assert_eq!(n.attachments[0].uuid, "A1");
    assert!(n.attachments[0].is_image);
    assert_eq!(n.attachments[1].filename, "doc.pdf");
    assert!(!n.attachments[1].is_image);
    let m = note_with_dates(row("x", "y"), 5, 6, &[]);
    assert_eq!((m.created, m.modified), (5, 6));
    assert!(m.attachments.is_empty());
}

#[test]
fn bad_dates_name_their_column() {
    let e = note_from_row(row("not a date", "also not"), &[]).unwrap_err();
    assert_eq!(e.column, 3);
    assert!(!e.reason.is_empty());
    let e = note_from_row(row("2023-01-01 00:00:00", "2023-13-01 00:00:00"), &[]).unwrap_err();
    assert_eq!(e.column, 4);
}

#[test]
fn attachments_of_one_note() {
    let atts = vec![att(1, "a", "x.gif", Some("gif")), att(2, "b", "y", None)];
    let v = attachments_for(&atts, 2);
    assert_eq!(v.len(), 1);
    assert_eq!(v[0].uuid, "b");
    assert!(attachments_for(&atts, 3).is_empty());
}

#[test]
fn attachment_source_paths() {
    let img = BearAttachment { uuid: "U1".into(), filename: "a.png".into(), is_image: true };
    let file = BearAttachment { uuid: "U2".into(), filename: "b.pdf".into(), is_image: false };
    assert_eq!(img.source_path("/data/database.sqlite"), "/data/Local Files/Note Images/U1/a.png");
    assert_eq!(file.source_path("/data/database.sqlite"), "/data/Local Files/Note Files/U2/b.pdf");
    assert_eq!(img.source_path("database.sqlite"), "Local Files/Note Images/U1/a.png");
    assert_eq!(img.source_path("/"), "./Local Files/Note Images/U1/a.png");
    assert_eq!(img.source_path_under(Some("/x")), "/x/Local Files/Note Images/U1/a.png");
    assert_eq!(img.source_path_under(None), "./Local Files/Note Images/U1/a.png");
}

#[test]
fn schema_from_the_first_matching_table() {
    let tables = vec![
        ("Z_1TAGS".to_string(), vec!["Z_PK".to_string()]),
        ("Z_5TAGS".to_string(), vec!["Z_5NOTES".to_string(), "Z_13TAGS".to_string()]),
        ("Z_7TAGS".to_string(), vec!["Z_7NOTES".to_string(), "Z_8TAGS".to_string()]),
    ];
    let s = discover_schema_in(&tables).unwrap();
    assert_eq!((s.junction_table.as_str(), s.note_col.as_str(), s.tag_col.as_str()), ("Z_5TAGS", "Z_5NOTES", "Z_13TAGS"));
    match discover_schema_in(&tables[..1]) {
        Err(DenoteError::Config(m)) => {
            assert_eq!(m, "Could not discover Bear's junction table schema. Is this a valid Bear database?")
        }
        other => panic!("unexpected {other:?}"),
    }
    assert!(discover_schema_in(&[]).is_err());
}
