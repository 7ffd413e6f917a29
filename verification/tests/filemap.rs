use denote::config::FilenameStrategy;
use denote::db::models::BearNote;
use denote::export::filemap::{stem_or_untitled, title_uuid_stem, Manifest};

fn note(id: &str, title: &str) -> BearNote {
    BearNote {
        id: id.into(),
        title: title.into(),
        text: String::new(),
        tags: vec![],
        created: 0,
        modified: 0,
        is_trashed: false,
        is_archived: false,
        is_pinned: false,
        attachments: vec![],
    }
}

#[test]
fn test_title_strategy() {
    let m = Manifest::default();
    let n = note("ABC-123", "My Project Notes");
    let f = m.generate_filename(&n, &FilenameStrategy::Title);
    assert_eq!(f, "my-project-notes.md");
}

#[test]
fn test_uuid_strategy() {
    let m = Manifest::default();
    let n = note("ABC-123", "My Project Notes");
    let f = m.generate_filename(&n, &FilenameStrategy::Uuid);
    assert_eq!(f, "ABC-123.md");
}

#[test]
fn test_title_uuid_strategy() {
    let m = Manifest::default();
    let n = note("ABCDEF-123456", "My Project Notes");
    let f = m.generate_filename(&n, &FilenameStrategy::TitleUuid);
    assert_eq!(f, "my-project-notes-abcdef.md");
}

#[test]
fn test_collision_handling() {
    let mut m = Manifest::default();
    m.set("OTHER-ID".into(), "my-notes.md".into());

    let n = note("NEW-ID", "My Notes");
    let f = m.generate_filename(&n, &FilenameStrategy::Title);
    assert_eq!(f, "my-notes-2.md");
}

#[test]
fn test_empty_title() {
    let m = Manifest::default();
    let n = note("ABC-123", "");
    let f = m.generate_filename(&n, &FilenameStrategy::Title);
    assert_eq!(f, "untitled.md");
}

#[test]
fn test_same_uuid_no_collision() {
    let mut m = Manifest::default();
    m.set("ABC-123".into(), "my-notes.md".into());

    let n = note("ABC-123", "My Notes");
    let f = m.generate_filename(&n, &FilenameStrategy::Title);
    // Same UUID should not collide with itself
    assert_eq!(f, "my-notes.md");
}

#[test]
fn collisions_count_upwards() {
    let mut m = Manifest::default();
    m.set("A".into(), "n.md".into());
    m.set("B".into(), "n-2.md".into());
    m.set("C".into(), "n-4.md".into());
    assert_eq!(m.free_filename("D", "n"), "n-3.md");
    m.set("D".into(), "n-3.md".into());
    assert_eq!(m.free_filename("E", "n"), "n-5.md");
    // Each note keeps its own name.
    assert_eq!(m.free_filename("C", "n"), "n-4.md");
}

#[test]
fn generated_name_is_never_another_notes_file() {
    let mut m = Manifest::default();
    for (id, title) in [("A", "Same"), ("B", "Same"), ("C", "Same"), ("D", "same!")] {
        let f = m.generate_filename(&note(id, title), &FilenameStrategy::Title);
        for (other, file) in &m.entries {
            assert!(other == id || *file != f);
        }
        m.set(id.into(), f);
    }
    let names: Vec<&String> = m.entries.iter().map(|(_, f)| f).collect();
    assert_eq!(names, vec!["same.md", "same-2.md", "same-3.md", "same-4.md"]);
    assert!(m.is_wf());
}

#[test]
fn own_name_is_kept_on_regeneration() {
    let mut m = Manifest::default();
    m.set("X".into(), "other.md".into());
    m.set("A".into(), "title.md".into());
    let f = m.generate_filename(&note("A", "Title"), &FilenameStrategy::Title);
    assert_eq!(f, "title.md");
}

#[test]
fn set_lookup_remove() {
    let mut m = Manifest::default();
    assert_eq!(m.filename_for("A"), None);
    m.set("A".into(), "a.md".into());
    m.set("B".into(), "b.md".into());
    assert_eq!(m.filename_for("A").map(|s| s.as_str()), Some("a.md"));
    m.set("A".into(), "a2.md".into());
    assert_eq!(m.filename_for("A").map(|s| s.as_str()), Some("a2.md"));
    assert_eq!(m.filename_for("B").map(|s| s.as_str()), Some("b.md"));
    assert_eq!(m.entries.len(), 2);
    assert_eq!(m.entries[0].0, "A");
    assert_eq!(m.remove("A"), Some("a2.md".to_string()));
    assert_eq!(m.filename_for("A"), None);
    assert_eq!(m.remove("A"), None);
    assert_eq!(m.filename_for("B").map(|s| s.as_str()), Some("b.md"));
}

#[test]
fn manifest_well_formedness_check() {
    let m = Manifest { entries: vec![("A".into(), "a.md".into()), ("A".into(), "b.md".into())] };
    assert!(!m.is_wf());
    let m = Manifest { entries: vec![("A".into(), "a.md".into()), ("B".into(), "a.md".into())] };
    assert!(m.is_wf());
}

#[test]
fn stems() {
    assert_eq!(stem_or_untitled(String::new()), "untitled");
    assert_eq!(stem_or_untitled("x".into()), "x");
    assert_eq!(title_uuid_stem("t", "ab"), "t-ab");
}

#[test]
fn slug_and_lowercase_in_title_uuid() {
    let m = Manifest::default();
    let n = note("ÄBCDEFGH", "Héllo, Wörld!");
    let f = m.generate_filename(&n, &FilenameStrategy::TitleUuid);
    assert_eq!(f, "hello-world-äbcde.md");
    let n = note("AB", "");
    let f = m.generate_filename(&n, &FilenameStrategy::TitleUuid);
    assert_eq!(f, "-ab.md");
}
