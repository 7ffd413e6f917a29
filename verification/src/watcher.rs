//! The decisions of a sync cycle: read notes, diff, write, commit, push.
//! The caller performs each action and reports what happened.
use vstd::prelude::*;

use crate::config::DenoteConfig;
use crate::db::models::{BearNote, string_views};
use crate::db::reader::BearReader;
use crate::errors::DenoteError;
use crate::export::apply::{is_plan, plan_changes, plannable};
use crate::export::diff::{
    Change, FileOp, RepoFile, change_views, compute_diff, diff_defined, diff_spec, file_views,
};
use crate::export::filemap::Manifest;
use crate::text::{decimal, push_decimal, replace_all, replace_str};

verus! {

/// What happened since the last step of a sync cycle.
#[derive(Debug)]
pub enum SyncEvent {
    /// A cycle begins; whether a file exists at Bear's database path.
    Start { db_exists: bool },
    /// Bear's notes were read, the manifest loaded, and the manifest's files
    /// that exist were read.
    Loaded { notes: Vec<BearNote>, manifest: Manifest, files: Vec<RepoFile> },
    /// The planned operations were performed and the manifest saved; how
    /// many changes they applied.
    Applied { count: usize },
    /// The commit (and the push, when asked) went through; how many notes it holds.
    Committed { count: usize },
}

/// What the caller does next.
#[derive(Debug)]
pub enum SyncAction {
    /// Read the notes through this reader, load the manifest and read the
    /// manifest's files.
    Read { reader: BearReader },
    /// The cycle fails with this error before anything is touched.
    Fail { error: DenoteError },
    /// Perform `ops` in order (copying a written note's attachments to the
    /// assets folder its operation names), then save `manifest`. When there
    /// are fewer operations than changes, the change after the last one
    /// cannot be planned: fail after performing them. Otherwise report
    /// `count`, the number of changes, once they are applied.
    Apply { changes: Vec<Change>, ops: Vec<FileOp>, manifest: Manifest, count: usize },
    /// Commit with this message and, when `push` holds, push the branch to the remote.
    Commit { message: String, remote: String, branch: String, push: bool, count: usize },
    /// The cycle is over; this many notes were synced.
    Finish { count: usize },
}

/// The commit message for a number of synced notes: every `{count}` of the
/// template replaced by the number.
pub open spec fn commit_message_spec(template: Seq<char>, count: nat) -> Seq<char> {
    replace_all(template, "{count}"@, decimal(count))
}

/// The commit message for a number of synced notes.
pub fn commit_message(template: &str, count: usize) -> (r: String)
    ensures
        r@ == commit_message_spec(template@, count as nat),
{
    let mut n = String::new();
    push_decimal(&mut n, count as u128);
    proof {
        reveal_strlit("{count}");
    }
    replace_str(template, "{count}", n.as_str())
}

/// A loaded event can be diffed: the manifest is well-formed and the notes'
/// ids can be cut where the diff names assets folders.
pub open spec fn sync_step_defined(config: &DenoteConfig, event: &SyncEvent) -> bool {
    match event {
        SyncEvent::Loaded { notes, manifest, .. } => manifest.wf() && diff_defined(
            notes@.map_values(|n: BearNote| n@),
            manifest@,
            string_views(config.exclude_tags@),
            config.export,
        ),
        _ => true,
    }
}

/// One step of a sync cycle. At the start, the cycle fails unless Bear's
/// database exists, and otherwise reads it. After loading, the diff is
/// computed: with no changes the cycle ends with 0, otherwise the changes
/// are planned and applied. After applying `count` changes, the repository
/// is committed with the template's message (and pushed when `push_on_sync`
/// holds). After the commit, the cycle ends with `count`.
pub fn sync_cycle(config: &DenoteConfig, event: SyncEvent) -> (r: SyncAction)
    requires
        sync_step_defined(config, &event),
    ensures
        match event {
            SyncEvent::Start { db_exists } => {
                &&& db_exists ==> (r matches SyncAction::Read { reader } && reader@ == config.bear_db@)
                &&& !db_exists ==> (r matches SyncAction::Fail { error: DenoteError::DbNotFound(p) }
                    && p@ == config.bear_db@)
            },
            SyncEvent::Loaded { notes, manifest, files } => {
                let d = diff_spec(
                    notes@.map_values(|n: BearNote| n@),
                    manifest.entries@,
                    file_views(files@),
                    string_views(config.exclude_tags@),
                    config.export,
                );
                &&& d.len() == 0 ==> r == (SyncAction::Finish { count: 0 })
                &&& d.len() > 0 ==> (r matches SyncAction::Apply { changes, ops, manifest: m, count }
                    && change_views(changes@) == d && is_plan(d, manifest@, config.export, ops@, m)
                    && count == ops.len()
                    && (count == changes.len() <==> plannable(d, manifest@, config.export, d.len() as int)))
            },
            SyncEvent::Applied { count } => r matches SyncAction::Commit {
                message,
                remote,
                branch,
                push,
                count: c,
            } && message@ == commit_message_spec(config.commit_template@, count as nat) && remote@
                == config.remote@ && branch@ == config.branch@ && push == config.push_on_sync && c
                == count,
            SyncEvent::Committed { count } => r == (SyncAction::Finish { count }),
        },
{
    match event {
        SyncEvent::Start { db_exists } => match BearReader::new(config.bear_db.as_str(), db_exists) {
            Ok(reader) => SyncAction::Read { reader },
            Err(error) => SyncAction::Fail { error },
        },
        SyncEvent::Loaded { notes, manifest, files } => {
            let changes = compute_diff(
                notes.as_slice(),
                &manifest,
                files.as_slice(),
                config.exclude_tags.as_slice(),
                &config.export,
            );
            if changes.len() == 0 {
                SyncAction::Finish { count: 0 }
            } else {
                let (ops, planned) = plan_changes(changes.as_slice(), manifest, &config.export);
                let count = ops.len();
                SyncAction::Apply { changes, ops, manifest: planned, count }
            }
        },
        SyncEvent::Applied { count } => {
            let message = commit_message(config.commit_template.as_str(), count);
            SyncAction::Commit {
                message,
                remote: config.remote.clone(),
                branch: config.branch.clone(),
                push: config.push_on_sync,
                count,
            }
        },
        SyncEvent::Committed { count } => SyncAction::Finish { count },
    }
}

} // verus!
