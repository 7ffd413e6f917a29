use vstd::prelude::*;

use crate::text::{join_path, path_join};

verus! {

/// A file or image attached to a note.
#[derive(Debug)]
pub struct BearAttachment {
    /// UUID of the attachment (used as folder name in Bear's Local Files)
    pub uuid: String,
    /// Original filename as stored by Bear (e.g. "image.png", "report.pdf")
    pub filename: String,
    /// Whether this is an image (vs a generic file)
    pub is_image: bool,
}

/// Mathematical value of an attachment.
pub struct AttachmentView {
    pub uuid: Seq<char>,
    pub filename: Seq<char>,
    pub is_image: bool,
}

impl View for BearAttachment {
    type V = AttachmentView;

    open spec fn view(&self) -> AttachmentView {
        AttachmentView { uuid: self.uuid@, filename: self.filename@, is_image: self.is_image }
    }
}

/// The directory part of a path as `Path::parent` gives it.
pub uninterp spec fn path_parent(path: Seq<char>) -> Option<Seq<char>>;

/// `Path::parent`. Claimed: the result is the named value `path_parent(path)`,
/// and, as documented, the empty path has no parent.
#[verifier::external_body]
fn parent_of(path: &str) -> (r: Option<String>)
    ensures
        r matches Some(q) ==> path_parent(path@) == Some(q@),
        r is None ==> path_parent(path@) is None,
        path@.len() == 0 ==> r is None,
{
    match std::path::Path::new(path).parent() {
        Some(p) => Some(p.to_string_lossy().into_owned()),
        None => None,
    }
}

/// Where Bear keeps an attachment, given the directory the database is in
/// (`.` when it has none): `Local Files/Note Images` (or `Note Files`)
/// there, then the attachment's UUID and name.
pub open spec fn source_path_in(a: AttachmentView, parent: Option<Seq<char>>) -> Seq<char> {
    let dir = match parent {
        Some(p) => p,
        None => "."@,
    };
    let sub = if a.is_image {
        "Note Images"@
    } else {
        "Note Files"@
    };
    path_join(path_join(path_join(path_join(dir, "Local Files"@), sub), a.uuid), a.filename)
}

/// Where Bear keeps an attachment of the database at `bear_db`.
pub open spec fn source_path_spec(a: AttachmentView, bear_db: Seq<char>) -> Seq<char> {
    source_path_in(a, path_parent(bear_db))
}

impl BearAttachment {
    /// Resolve the full path to this attachment in Bear's local storage.
    pub fn source_path(&self, bear_db: &str) -> (r: String)
        ensures
            r@ == source_path_spec(self@, bear_db@),
    {
        match parent_of(bear_db) {
            Some(p) => self.source_path_under(Some(p.as_str())),
            None => self.source_path_under(None),
        }
    }

    /// The attachment's path when the database's directory is `parent`.
    pub fn source_path_under(&self, parent: Option<&str>) -> (r: String)
        ensures
            r@ == source_path_in(self@, match parent { Some(p) => Some(p@), None => None }),
    {
        let dir = match parent {
            Some(p) => p,
            None => ".",
        };
        let local_files = join_path(dir, "Local Files");
        let subdir = if self.is_image {
            "Note Images"
        } else {
            "Note Files"
        };
        let sub = join_path(local_files.as_str(), subdir);
        let with_uuid = join_path(sub.as_str(), self.uuid.as_str());
        join_path(with_uuid.as_str(), self.filename.as_str())
    }
}

impl Clone for BearAttachment {
    fn clone(&self) -> (r: Self)
        ensures
            r@ == self@,
    {
        BearAttachment {
            uuid: self.uuid.clone(),
            filename: self.filename.clone(),
            is_image: self.is_image,
        }
    }
}

/// A note as read from Bear. Times are seconds since the Unix epoch, UTC.
#[derive(Debug)]
pub struct BearNote {
    pub id: String,
    pub title: String,
    pub text: String,
    pub tags: Vec<String>,
    pub created: i64,
    pub modified: i64,
    pub is_trashed: bool,
    pub is_archived: bool,
    pub is_pinned: bool,
    pub attachments: Vec<BearAttachment>,
}

/// Mathematical value of a note.
pub struct NoteView {
    pub id: Seq<char>,
    pub title: Seq<char>,
    pub text: Seq<char>,
    pub tags: Seq<Seq<char>>,
    pub created: i64,
    pub modified: i64,
    pub is_trashed: bool,
    pub is_archived: bool,
    pub is_pinned: bool,
    pub attachments: Seq<AttachmentView>,
}

/// The views of a sequence of strings.
pub open spec fn string_views(v: Seq<String>) -> Seq<Seq<char>> {
    v.map_values(|s: String| s@)
}

/// The views of a sequence of attachments.
pub open spec fn attachment_views(v: Seq<BearAttachment>) -> Seq<AttachmentView> {
    v.map_values(|a: BearAttachment| a@)
}

impl View for BearNote {
    type V = NoteView;

    open spec fn view(&self) -> NoteView {
        NoteView {
            id: self.id@,
            title: self.title@,
            text: self.text@,
            tags: string_views(self.tags@),
            created: self.created,
            modified: self.modified,
            is_trashed: self.is_trashed,
            is_archived: self.is_archived,
            is_pinned: self.is_pinned,
            attachments: attachment_views(self.attachments@),
        }
    }
}

/// A copy of a list of strings with the same characters.
pub fn clone_strings(v: &Vec<String>) -> (r: Vec<String>)
    ensures
        string_views(r@) == string_views(v@),
{
    let mut r: Vec<String> = Vec::new();
    let mut i: usize = 0;
    while i < v.len()
        invariant
            i <= v.len(),
            r@.len() == i,
            forall|j: int| 0 <= j < i ==> #[trigger] r@[j]@ == v@[j]@,
        decreases v.len() - i,
    {
        r.push(v[i].clone());
        i += 1;
    }
    assert(string_views(r@) =~= string_views(v@));
    r
}

/// A copy of a list of attachments with the same values.
pub fn clone_attachments(v: &Vec<BearAttachment>) -> (r: Vec<BearAttachment>)
    ensures
        attachment_views(r@) == attachment_views(v@),
{
    let mut r: Vec<BearAttachment> = Vec::new();
    let mut i: usize = 0;
    while i < v.len()
        invariant
            i <= v.len(),
            r@.len() == i,
            forall|j: int| 0 <= j < i ==> #[trigger] r@[j]@ == v@[j]@,
        decreases v.len() - i,
    {
        r.push(v[i].clone());
        i += 1;
    }
    assert(attachment_views(r@) =~= attachment_views(v@));
    r
}

impl Clone for BearNote {
    fn clone(&self) -> (r: Self)
        ensures
            r@ == self@,
    {
        BearNote {
            id: self.id.clone(),
            title: self.title.clone(),
            text: self.text.clone(),
            tags: clone_strings(&self.tags),
            created: self.created,
            modified: self.modified,
            is_trashed: self.is_trashed,
            is_archived: self.is_archived,
            is_pinned: self.is_pinned,
            attachments: clone_attachments(&self.attachments),
        }
    }
}

} // verus!
