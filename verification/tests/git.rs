use denote::git::{
    commit_step, commit_time_text, credential_kind, has_md_extension, push_refspec, repo_status_from,
    signature_identity, ssh_user, status_report, trimmed_message, CommitStep, CredentialKind, RepoStatus,
};

#[test]
fn refspec_pushes_same_branch() {
    assert_eq!(push_refspec("main"), "refs/heads/main:refs/heads/main");
}

#[test]
fn commit_decisions() {
    assert_eq!(commit_step(Some(true), true), CommitStep::Skip);
    assert_eq!(commit_step(Some(false), true), CommitStep::Commit { with_parent: true, push: true });
    assert_eq!(commit_step(None, false), CommitStep::Commit { with_parent: false, push: false });
}

#[test]
fn signature_falls_back() {
    assert_eq!(signature_identity(None), ("denote".to_string(), "denote@localhost".to_string()));
    assert_eq!(
        signature_identity(Some((Some("Ann".into()), None))),
        ("Ann".to_string(), "denote@localhost".to_string())
    );
    assert_eq!(
        signature_identity(Some((None, Some("a@b".into())))),
        ("denote".to_string(), "a@b".to_string())
    );
}

#[test]
fn messages_are_trimmed() {
    assert_eq!(trimmed_message("  denote: synced 3 notes\n"), "denote: synced 3 notes");
    assert_eq!(trimmed_message("\n\t "), "");
}

#[test]
fn markdown_extension() {
    assert!(has_md_extension("note.md"));
    assert!(has_md_extension("a.b.md"));
    assert!(!has_md_extension(".md"));
    assert!(!has_md_extension("note.mdx"));
    assert!(!has_md_extension("note.MD"));
    assert!(!has_md_extension("md"));
    assert!(has_md_extension("..md"));
}

#[test]
fn status_lines() {
    let s = RepoStatus {
        head_commit_message: Some("denote: synced 2 notes".into()),
        head_commit_time: Some("2024-01-01T00:00:00Z".into()),
        file_count: 12,
        is_dirty: false,
    };
    assert_eq!(
        status_report(&s),
        "denote status\n─────────────\nLast sync:    2024-01-01T00:00:00Z\nLast commit:  denote: synced 2 notes\nExported:     12 notes\nRepo state:   clean\n"
    );
    let s = RepoStatus { head_commit_message: None, head_commit_time: None, file_count: 0, is_dirty: true };
    assert_eq!(
        status_report(&s),
        "denote status\n─────────────\nLast sync:    never\nExported:     0 notes\nRepo state:   uncommitted changes\n"
    );
}

#[test]
fn commit_times_in_rfc3339() {
    assert_eq!(commit_time_text(0), "1970-01-01T00:00:00Z");
    assert_eq!(commit_time_text(1_700_000_000), "2023-11-14T22:13:20Z");
    assert_eq!(commit_time_text(i64::MAX), "");
}

#[test]
fn credentials_by_what_is_allowed() {
    assert_eq!(credential_kind(true, true), CredentialKind::SshAgent);
    assert_eq!(credential_kind(false, true), CredentialKind::Helper);
    assert_eq!(credential_kind(false, false), CredentialKind::Default);
    assert_eq!(ssh_user(None), "git");
    assert_eq!(ssh_user(Some("deploy")), "deploy");
}

#[test]
fn status_from_repository_facts() {
    let names: Vec<String> = ["a.md", "b.md", "notes.json", "_assets", ".md", "c.txt"]
        .iter()
        .map(|s| s.to_string())
        .collect();
    let s = repo_status_from(Some((Some("  synced 2 notes\n".into()), 0)), &names, 3);
    assert_eq!(s.file_count, 2);
    assert!(s.is_dirty);
    assert_eq!(s.head_commit_message.as_deref(), Some("synced 2 notes"));
    assert_eq!(s.head_commit_time.as_deref(), Some("1970-01-01T00:00:00Z"));
    let s = repo_status_from(None, &[], 0);
    assert!(s.head_commit_message.is_none() && s.head_commit_time.is_none());
    assert_eq!(s.file_count, 0);
    assert!(!s.is_dirty);
    let s = repo_status_from(Some((None, 60)), &[], 0);
    assert!(s.head_commit_message.is_none());
    assert_eq!(s.head_commit_time.as_deref(), Some("1970-01-01T00:01:00Z"));
}
