//! What the exporter decides around git: the push refspec, the commit
//! identity, and the status report.
use vstd::prelude::*;

use crate::db::models::string_views;
use crate::export::markdown::{format_rfc3339, rfc3339_text};
use crate::text::{chars_of, decimal, push_decimal, trim, trim_str};

verus! {

/// Describe the current repo state for `denote status`.
#[derive(Debug)]
pub struct RepoStatus {
    pub head_commit_message: Option<String>,
    pub head_commit_time: Option<String>,
    pub file_count: usize,
    pub is_dirty: bool,
}

/// The refspec that pushes a branch to the branch of the same name.
pub fn push_refspec(branch: &str) -> (r: String)
    ensures
        r@ == "refs/heads/"@ + branch@ + ":refs/heads/"@ + branch@,
{
    let mut s = "refs/heads/".to_owned();
    s.append(branch);
    s.append(":refs/heads/");
    s.append(branch);
    s
}

/// What committing does once the index is written.
#[derive(Debug, PartialEq, Eq, Structural)]
pub enum CommitStep {
    /// The tree equals the head commit's tree: nothing to commit, no push.
    Skip,
    /// Commit (on top of the head when `with_parent`), then push when `push`.
    Commit { with_parent: bool, push: bool },
}

/// The commit decision. `head_tree_same` is `None` when the repository has
/// no head commit yet, and otherwise whether the written tree is the head
/// commit's tree.
pub fn commit_step(head_tree_same: Option<bool>, push: bool) -> (r: CommitStep)
    ensures
        r == (match head_tree_same {
            Some(true) => CommitStep::Skip,
            Some(false) => CommitStep::Commit { with_parent: true, push },
            None => CommitStep::Commit { with_parent: false, push },
        }),
{
    match head_tree_same {
        Some(true) => CommitStep::Skip,
        Some(false) => CommitStep::Commit { with_parent: true, push },
        None => CommitStep::Commit { with_parent: false, push },
    }
}

/// The credential a push offers, by what the remote allows.
#[derive(Debug, PartialEq, Eq, Structural)]
pub enum CredentialKind {
    /// A key from the SSH agent.
    SshAgent,
    /// User and password from git's credential helper.
    Helper,
    /// git's default credential.
    Default,
}

/// Which credential to offer: the SSH agent where SSH keys are allowed,
/// else the credential helper where user and password are, else the default.
pub fn credential_kind(ssh_key_allowed: bool, user_pass_allowed: bool) -> (r: CredentialKind)
    ensures
        r == (if ssh_key_allowed {
            CredentialKind::SshAgent
        } else if user_pass_allowed {
            CredentialKind::Helper
        } else {
            CredentialKind::Default
        }),
{
    if ssh_key_allowed {
        CredentialKind::SshAgent
    } else if user_pass_allowed {
        CredentialKind::Helper
    } else {
        CredentialKind::Default
    }
}

/// The user the SSH agent is asked for: the one in the URL, else `git`.
pub fn ssh_user(from_url: Option<&str>) -> (r: String)
    ensures
        r@ == (match from_url {
            Some(u) => u@,
            None => "git"@,
        }),
{
    match from_url {
        Some(u) => u.to_owned(),
        None => "git".to_owned(),
    }
}

/// The name and e-mail that commits are made with: those of git's
/// configuration where it has them, `denote` and `denote@localhost`
/// otherwise. `configured` is git's signature (its name and e-mail where
/// they are valid text), if git has one.
pub fn signature_identity(configured: Option<(Option<String>, Option<String>)>) -> (r: (String, String))
    ensures
        r.0@ == (match configured {
            Some((Some(n), _)) => n@,
            _ => "denote"@,
        }),
        r.1@ == (match configured {
            Some((_, Some(e))) => e@,
            _ => "denote@localhost"@,
        }),
{
    match configured {
        Some((name, email)) => {
            let n = match name {
                Some(n) => n,
                None => "denote".to_owned(),
            };
            let e = match email {
                Some(e) => e,
                None => "denote@localhost".to_owned(),
            };
            (n, e)
        },
        None => ("denote".to_owned(), "denote@localhost".to_owned()),
    }
}

/// A commit's time as the status shows it: RFC 3339, empty where the
/// instant cannot be written.
pub fn commit_time_text(unix_secs: i64) -> (r: String)
    ensures
        r@ == rfc3339_text(unix_secs),
{
    format_rfc3339(unix_secs)
}

/// A commit message as the status shows it: trimmed.
pub fn trimmed_message(message: &str) -> (r: String)
    ensures
        r@ == trim(message@),
{
    trim_str(message)
}

/// Index of the last `.` of a name, if any.
pub open spec fn last_dot(name: Seq<char>) -> Option<int>
    decreases name.len(),
{
    if name.len() == 0 {
        None
    } else if name.last() == '.' {
        Some(name.len() - 1)
    } else {
        last_dot(name.drop_last())
    }
}

/// `Path::extension` of a file name is `md`: the part after the last `.`,
/// where that `.` is not the first character of the name.
pub open spec fn has_md_extension_spec(name: Seq<char>) -> bool {
    match last_dot(name) {
        Some(k) => k > 0 && name.skip(k + 1) == "md"@,
        None => false,
    }
}

/// Whether a file name has the extension `md`.
pub fn has_md_extension(file_name: &str) -> (b: bool)
    ensures
        b == has_md_extension_spec(file_name@),
{
    let cs = chars_of(file_name);
    let mut k: usize = cs.len();
    assert(cs@.take(k as int) == cs@);
    while k > 0 && cs[k - 1] != '.'
        invariant
            cs@ == file_name@,
            k <= cs.len(),
            last_dot(file_name@) == last_dot(cs@.take(k as int)),
        decreases k,
    {
        assert(cs@.take(k as int).drop_last() == cs@.take(k - 1));
        k -= 1;
    }
    if k == 0 {
        assert(cs@.take(0).len() == 0);
        return false;
    }
    assert(cs@.take(k as int).last() == '.');
    let dot: usize = k - 1;
    if dot == 0 {
        return false;
    }
    let md = chars_of("md");
    let r = crate::text::range_eq(&cs, k, cs.len(), &md, 0, md.len());
    proof {
        assert(md@.subrange(0, md@.len() as int) == md@);
        assert(cs@.subrange(k as int, cs@.len() as int) == file_name@.skip(dot + 1));
    }
    r
}

/// How many of the names have the extension `md`.
pub open spec fn md_count(names: Seq<Seq<char>>) -> nat
    decreases names.len(),
{
    if names.len() == 0 {
        0
    } else if has_md_extension_spec(names.last()) {
        md_count(names.drop_last()) + 1
    } else {
        md_count(names.drop_last())
    }
}

/// The state `denote status` reports. `head` is the head commit's message
/// (where it is valid text) and time in Unix seconds, none when the branch
/// has no commit yet; `file_names` are the names of the entries directly in
/// the repository folder; `changed_entries` is how many entries git's status
/// lists.
pub fn repo_status_from(
    head: Option<(Option<String>, i64)>,
    file_names: &[String],
    changed_entries: usize,
) -> (r: RepoStatus)
    ensures
        match head {
            None => r.head_commit_message is None && r.head_commit_time is None,
            Some((m, t)) => {
                &&& match (m, r.head_commit_message) {
                    (Some(a), Some(b)) => b@ == trim(a@),
                    (None, None) => true,
                    _ => false,
                }
                &&& r.head_commit_time matches Some(x) && x@ == rfc3339_text(t)
            },
        },
        r.file_count == md_count(string_views(file_names@)),
        r.is_dirty == (changed_entries > 0),
{
    let (head_commit_message, head_commit_time) = match head {
        Some((m, t)) => {
            let msg = match m {
                Some(a) => Some(trim_str(a.as_str())),
                None => None,
            };
            (msg, Some(commit_time_text(t)))
        },
        None => (None, None),
    };
    let ghost names = string_views(file_names@);
    let mut count: usize = 0;
    let mut i: usize = 0;
    while i < file_names.len()
        invariant
            i <= file_names.len(),
            names == string_views(file_names@),
            count == md_count(names.take(i as int)),
            count <= i,
        decreases file_names.len() - i,
    {
        assert(names.take(i + 1).drop_last() == names.take(i as int));
        assert(names.take(i + 1).last() == file_names@[i as int]@);
        if has_md_extension(file_names[i].as_str()) {
            count += 1;
        }
        i += 1;
    }
    assert(names.take(file_names.len() as int) == names);
    RepoStatus { head_commit_message, head_commit_time, file_count: count, is_dirty: changed_entries > 0 }
}

/// The report of `denote status`.
pub open spec fn status_report_spec(s: RepoStatus) -> Seq<char> {
    "denote status\n"@ + "─────────────\n"@ + (match s.head_commit_time {
        Some(t) => "Last sync:    "@ + t@ + "\n"@,
        None => "Last sync:    never\n"@,
    }) + (match s.head_commit_message {
        Some(m) => "Last commit:  "@ + m@ + "\n"@,
        None => Seq::<char>::empty(),
    }) + "Exported:     "@ + decimal(s.file_count as nat) + " notes\n"@ + (if s.is_dirty {
        "Repo state:   uncommitted changes\n"@
    } else {
        "Repo state:   clean\n"@
    })
}

/// The lines `denote status` prints for a repository state.
pub fn status_report(status: &RepoStatus) -> (r: String)
    ensures
        r@ == status_report_spec(*status),
{
    let mut out = "denote status\n".to_owned();
    out.append("─────────────\n");
    match &status.head_commit_time {
        Some(t) => {
            out.append("Last sync:    ");
            out.append(t.as_str());
            out.append("\n");
        },
        None => {
            out.append("Last sync:    never\n");
        },
    }
    match &status.head_commit_message {
        Some(m) => {
            out.append("Last commit:  ");
            out.append(m.as_str());
            out.append("\n");
        },
        None => {},
    }
    out.append("Exported:     ");
    push_decimal(&mut out, status.file_count as u128);
    out.append(" notes\n");
    if status.is_dirty {
        out.append("Repo state:   uncommitted changes\n");
    } else {
        out.append("Repo state:   clean\n");
    }
    out
}

} // verus!
