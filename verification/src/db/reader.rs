//! What the exporter takes from Bear's SQLite database: the query it runs,
//! how a junction table is recognised, and how rows become notes.
use vstd::prelude::*;

use crate::db::models::{AttachmentView, BearAttachment, BearNote, NoteView, string_views};
use crate::export::filemap::{lowercase, to_lowercase};
use crate::errors::DenoteError;
use crate::text::{chars_of, has_prefix, has_prefix_at, split_by, split_str, str_eq};

verus! {

// ---------------------------------------------------------------------
// Outside calls
// ---------------------------------------------------------------------

/// The string that `str::to_uppercase` makes of `s`.
pub uninterp spec fn uppercase(s: Seq<char>) -> Seq<char>;

/// `str::to_uppercase`. Claimed: the result is the named value `uppercase(s)`.
#[verifier::external_body]
fn to_uppercase(s: &str) -> (r: String)
    ensures
        r@ == uppercase(s@),
{
    s.to_uppercase()
}

/// The instant, in seconds since the Unix epoch, that `time` reads from a
/// SQLite `datetime()` text (`[year]-[month]-[day] [hour]:[minute]:[second]`,
/// taken as UTC), or none where it does not parse.
pub uninterp spec fn sqlite_datetime_secs(s: Seq<char>) -> Option<i64>;

/// `time::PrimitiveDateTime::parse` with the format
/// `[year]-[month]-[day] [hour]:[minute]:[second]`, then `assume_utc` and
/// `unix_timestamp`. Claimed: success and its value are the named
/// `sqlite_datetime_secs(s)`; on failure the result holds `time`'s message.
#[verifier::external_body]
fn parse_sqlite_datetime(s: &str) -> (r: Result<i64, String>)
    ensures
        r matches Ok(v) ==> sqlite_datetime_secs(s@) == Some(v),
        r is Err ==> sqlite_datetime_secs(s@) is None,
{
    let format = match time::format_description::parse(
        "[year]-[month]-[day] [hour]:[minute]:[second]",
    ) {
        Ok(f) => f,
        Err(e) => return Err(e.to_string()),
    };
    match time::PrimitiveDateTime::parse(s, &format) {
        Ok(pdt) => Ok(pdt.assume_utc().unix_timestamp()),
        Err(e) => Err(e.to_string()),
    }
}

// ---------------------------------------------------------------------
// The reader
// ---------------------------------------------------------------------

/// A Bear database that exists at a path.
#[derive(Debug)]
pub struct BearReader {
    db_path: String,
}

impl View for BearReader {
    type V = Seq<char>;

    /// The database path.
    closed spec fn view(&self) -> Seq<char> {
        self.db_path@
    }
}

impl BearReader {
    /// A reader for the database at `db_path`, provided a file exists there.
    pub fn new(db_path: &str, exists: bool) -> (r: Result<BearReader, DenoteError>)
        ensures
            exists ==> (r matches Ok(b) && b@ == db_path@),
            !exists ==> (r matches Err(DenoteError::DbNotFound(p)) && p@ == db_path@),
    {
        if !exists {
            return Err(DenoteError::DbNotFound(db_path.to_owned()));
        }
        Ok(BearReader { db_path: db_path.to_owned() })
    }

    /// The path of the database.
    pub fn db_path(&self) -> (r: &str)
        ensures
            r@ == self@,
    {
        self.db_path.as_str()
    }
}

/// Where Bear keeps the tags of notes: the junction table and its columns.
#[derive(Debug)]
pub struct SchemaInfo {
    pub junction_table: String,
    pub note_col: String,
    pub tag_col: String,
}

/// `s` ends with `p`.
pub open spec fn has_suffix(s: Seq<char>, p: Seq<char>) -> bool {
    p.len() <= s.len() && s.skip(s.len() - p.len()) == p
}

/// A column name that, in upper case, starts with `Z_` and ends with `suffix`.
pub open spec fn column_matches(c: Seq<char>, suffix: Seq<char>) -> bool {
    has_prefix(uppercase(c), "Z_"@) && has_suffix(uppercase(c), suffix)
}

/// Index of the first column that matches, if any.
pub open spec fn first_column(cols: Seq<Seq<char>>, suffix: Seq<char>) -> Option<int>
    decreases cols.len(),
{
    if cols.len() == 0 {
        None
    } else if column_matches(cols[0], suffix) {
        Some(0)
    } else {
        match first_column(cols.drop_first(), suffix) {
            Some(i) => Some(i + 1),
            None => None,
        }
    }
}

/// Whether `s` ends with `p`.
fn ends_with(s: &Vec<char>, p: &Vec<char>) -> (b: bool)
    ensures
        b == has_suffix(s@, p@),
{
    if p.len() > s.len() {
        return false;
    }
    let r = has_prefix_at(s, s.len() - p.len(), p);
    proof {
        assert(s@.skip(s@.len() - p@.len()).take(p@.len() as int) == s@.skip(s@.len() - p@.len()));
    }
    r
}

/// Whether an upper-cased column name starts with `Z_` and ends with `suffix`.
pub fn upper_column_matches(upper: &str, suffix: &str) -> (b: bool)
    ensures
        b == (has_prefix(upper@, "Z_"@) && has_suffix(upper@, suffix@)),
{
    let cu = chars_of(upper);
    let pre = chars_of("Z_");
    let suf = chars_of(suffix);
    assert(cu@.skip(0) == cu@);
    has_prefix_at(&cu, 0, &pre) && ends_with(&cu, &suf)
}

/// Index of the first column whose upper-case name starts with `Z_` and ends with `suffix`.
fn find_column(cols: &Vec<String>, suffix: &str) -> (r: Option<usize>)
    ensures
        match r {
            Some(i) => first_column(crate::db::models::string_views(cols@), suffix@) == Some(i as int),
            None => first_column(crate::db::models::string_views(cols@), suffix@) is None,
        },
        r matches Some(i) ==> i < cols.len(),
{
    let ghost cv = crate::db::models::string_views(cols@);
    let mut i: usize = 0;
    assert(cv.skip(0) == cv);
    while i < cols.len()
        invariant
            i <= cols.len(),
            cv == crate::db::models::string_views(cols@),
            first_column(cv, suffix@) == match first_column(cv.skip(i as int), suffix@) {
                Some(k) => Some(k + i),
                None => None,
            },
        decreases cols.len() - i,
    {
        let up = to_uppercase(cols[i].as_str());
        assert(cv.skip(i as int)[0] == cols@[i as int]@);
        if upper_column_matches(up.as_str(), suffix) {
            return Some(i);
        }
        assert(cv.skip(i as int).drop_first() == cv.skip(i + 1));
        i += 1;
    }
    None
}

/// Recognises Bear's junction table from its name and columns: the first
/// column that ends with `NOTES` and the first that ends with `TAGS` (both
/// starting with `Z_`, compared in upper case).
pub fn junction_schema(table_name: &str, columns: &Vec<String>) -> (r: Option<SchemaInfo>)
    ensures
        ({
            let cv = crate::db::models::string_views(columns@);
            match (first_column(cv, "NOTES"@), first_column(cv, "TAGS"@)) {
                (Some(a), Some(b)) => r matches Some(s) && s.junction_table@ == table_name@
                    && s.note_col@ == cv[a] && s.tag_col@ == cv[b],
                _ => r is None,
            }
        }),
{
    match (find_column(columns, "NOTES"), find_column(columns, "TAGS")) {
        (Some(a), Some(b)) => Some(
            SchemaInfo {
                junction_table: table_name.to_owned(),
                note_col: columns[a].clone(),
                tag_col: columns[b].clone(),
            },
        ),
        _ => None,
    }
}

/// The columns name a junction: one ends with `NOTES`, one with `TAGS`.
pub open spec fn names_junction(cols: Seq<Seq<char>>) -> bool {
    first_column(cols, "NOTES"@) is Some && first_column(cols, "TAGS"@) is Some
}

/// Index of the first table whose columns name a junction, if any.
pub open spec fn first_junction(tables: Seq<(String, Vec<String>)>) -> Option<int>
    decreases tables.len(),
{
    if tables.len() == 0 {
        None
    } else if names_junction(crate::db::models::string_views(tables[0].1@)) {
        Some(0)
    } else {
        match first_junction(tables.drop_first()) {
            Some(k) => Some(k + 1),
            None => None,
        }
    }
}

/// Finds Bear's junction table among the candidate tables (each with its
/// column names), taking the first that names a junction; an error when
/// none does.
pub fn discover_schema_in(tables: &[(String, Vec<String>)]) -> (r: Result<SchemaInfo, DenoteError>)
    ensures
        match first_junction(tables@) {
            Some(k) => {
                let cv = crate::db::models::string_views(tables@[k].1@);
                r matches Ok(s) && s.junction_table@ == tables@[k].0@
                    && s.note_col@ == cv[first_column(cv, "NOTES"@)->0]
                    && s.tag_col@ == cv[first_column(cv, "TAGS"@)->0]
            },
            None => r matches Err(DenoteError::Config(m)) && m@
                == "Could not discover Bear's junction table schema. Is this a valid Bear database?"@,
        },
{
    let mut i: usize = 0;
    assert(tables@.skip(0) == tables@);
    while i < tables.len()
        invariant
            i <= tables.len(),
            first_junction(tables@) == match first_junction(tables@.skip(i as int)) {
                Some(k) => Some(k + i),
                None => None,
            },
        decreases tables.len() - i,
    {
        assert(tables@.skip(i as int)[0] == tables@[i as int]);
        match junction_schema(tables[i].0.as_str(), &tables[i].1) {
            Some(s) => {
                return Ok(s);
            },
            None => {},
        }
        assert(tables@.skip(i as int).drop_first() == tables@.skip(i + 1));
        i += 1;
    }
    assert(tables@.skip(tables.len() as int).len() == 0);
    Err(
        DenoteError::Config(
            "Could not discover Bear's junction table schema. Is this a valid Bear database?".to_owned(),
        ),
    )
}

/// The statement that lists the tables that may join notes to tags.
pub fn junction_tables_query() -> (r: String)
    ensures
        r@ == "SELECT name FROM sqlite_master WHERE type = 'table' AND name LIKE 'Z_%TAGS'"@,
{
    "SELECT name FROM sqlite_master WHERE type = 'table' AND name LIKE 'Z_%TAGS'".to_owned()
}

/// The statement that tells whether the database has a table of note files
/// (a database without one has no attachments).
pub fn files_table_query() -> (r: String)
    ensures
        r@ == "SELECT name FROM sqlite_master WHERE type = 'table' AND name = 'ZSFNOTEFILE'"@,
{
    "SELECT name FROM sqlite_master WHERE type = 'table' AND name = 'ZSFNOTEFILE'".to_owned()
}

/// The statement that lists the attachments of notes: note key, UUID, file
/// name and extension of every file not deleted for good that belongs to a
/// note.
pub fn attachments_query() -> (r: String)
    ensures
        r@
            == "SELECT ZNOTE, ZUNIQUEIDENTIFIER, ZFILENAME, ZNORMALIZEDFILEEXTENSION FROM ZSFNOTEFILE WHERE ZPERMANENTLYDELETED = 0 AND ZNOTE IS NOT NULL"@,
{
    "SELECT ZNOTE, ZUNIQUEIDENTIFIER, ZFILENAME, ZNORMALIZEDFILEEXTENSION FROM ZSFNOTEFILE WHERE ZPERMANENTLYDELETED = 0 AND ZNOTE IS NOT NULL".to_owned()
}

/// The statement that lists a table's columns.
pub fn table_info_sql(table_name: &str) -> (r: String)
    ensures
        r@ == "PRAGMA table_info(\""@ + table_name@ + "\")"@,
{
    let mut s = "PRAGMA table_info(\"".to_owned();
    s.append(table_name);
    s.append("\")");
    s
}

/// The filter of the notes query.
pub open spec fn where_sql(include_trashed: bool, include_archived: bool) -> Seq<char> {
    if !include_trashed && !include_archived {
        "WHERE n.ZTRASHED = 0 AND n.ZARCHIVED = 0"@
    } else if !include_trashed {
        "WHERE n.ZTRASHED = 0"@
    } else if !include_archived {
        "WHERE n.ZARCHIVED = 0"@
    } else {
        Seq::<char>::empty()
    }
}

/// The notes query: every note with its tags joined by `||`, newest first.
pub open spec fn notes_query_spec(s: SchemaInfo, include_trashed: bool, include_archived: bool) -> Seq<char> {
    "\n            SELECT\n                n.ZUNIQUEIDENTIFIER,\n                COALESCE(n.ZTITLE, ''),\n                COALESCE(n.ZTEXT, ''),\n                datetime(n.ZCREATIONDATE + 978307200, 'unixepoch'),\n                datetime(n.ZMODIFICATIONDATE + 978307200, 'unixepoch'),\n                COALESCE(n.ZTRASHED, 0),\n                COALESCE(n.ZARCHIVED, 0),\n                COALESCE(n.ZPINNED, 0),\n                GROUP_CONCAT(t.ZTITLE, '||'),\n                n.Z_PK\n            FROM ZSFNOTE n\n            LEFT JOIN "@ + s.junction_table@ + " jt ON jt."@ + s.note_col@ + " = n.Z_PK\n            LEFT JOIN ZSFNOTETAG t ON t.Z_PK = jt."@ + s.tag_col@ + "\n            "@ + where_sql(include_trashed, include_archived) + "\n            GROUP BY n.ZUNIQUEIDENTIFIER\n            ORDER BY n.ZMODIFICATIONDATE DESC\n            "@
}

/// The notes query for a schema, leaving out trashed and archived notes
/// unless they are included.
pub fn notes_query(schema: &SchemaInfo, include_trashed: bool, include_archived: bool) -> (r: String)
    ensures
        r@ == notes_query_spec(*schema, include_trashed, include_archived),
{
    let mut q = "\n            SELECT\n                n.ZUNIQUEIDENTIFIER,\n                COALESCE(n.ZTITLE, ''),\n                COALESCE(n.ZTEXT, ''),\n                datetime(n.ZCREATIONDATE + 978307200, 'unixepoch'),\n                datetime(n.ZMODIFICATIONDATE + 978307200, 'unixepoch'),\n                COALESCE(n.ZTRASHED, 0),\n                COALESCE(n.ZARCHIVED, 0),\n                COALESCE(n.ZPINNED, 0),\n                GROUP_CONCAT(t.ZTITLE, '||'),\n                n.Z_PK\n            FROM ZSFNOTE n\n            LEFT JOIN ".to_owned();
    q.append(schema.junction_table.as_str());
    q.append(" jt ON jt.");
    q.append(schema.note_col.as_str());
    q.append(" = n.Z_PK\n            LEFT JOIN ZSFNOTETAG t ON t.Z_PK = jt.");
    q.append(schema.tag_col.as_str());
    q.append("\n            ");
    if !include_trashed && !include_archived {
        q.append("WHERE n.ZTRASHED = 0 AND n.ZARCHIVED = 0");
    } else if !include_trashed {
        q.append("WHERE n.ZTRASHED = 0");
    } else if !include_archived {
        q.append("WHERE n.ZARCHIVED = 0");
    }
    q.append("\n            GROUP BY n.ZUNIQUEIDENTIFIER\n            ORDER BY n.ZMODIFICATIONDATE DESC\n            ");
    q
}

/// A row of the notes query.
#[derive(Debug)]
pub struct NoteRow {
    pub id: String,
    pub title: String,
    pub text: String,
    pub created: String,
    pub modified: String,
    pub is_trashed: i32,
    pub is_archived: i32,
    pub is_pinned: i32,
    pub tags: Option<String>,
    pub z_pk: i64,
}

/// A row of Bear's attachment table.
#[derive(Debug)]
pub struct AttachmentRow {
    pub note_pk: i64,
    pub uuid: String,
    pub filename: String,
    pub extension: Option<String>,
}

/// A date column of the notes query that `time` could not read.
#[derive(Debug)]
pub struct BadDate {
    pub column: usize,
    pub reason: String,
}

/// An optional string, by value.
pub open spec fn opt_seq(o: Option<String>) -> Option<Seq<char>> {
    match o {
        Some(s) => Some(s@),
        None => None,
    }
}

/// The tags of a note: the `||`-joined list split apart, none without one.
pub open spec fn tags_spec(raw: Option<Seq<char>>) -> Seq<Seq<char>> {
    match raw {
        Some(s) => split_by(s, "||"@),
        None => Seq::empty(),
    }
}

/// Splits the `||`-joined tag list of a row.
pub fn split_tags(raw: Option<&str>) -> (r: Vec<String>)
    ensures
        string_views(r@) == tags_spec(match raw { Some(s) => Some(s@), None => None }),
{
    match raw {
        Some(s) => {
            proof {
                reveal_strlit("||");
            }
            split_str(s, "||")
        },
        None => {
            let v: Vec<String> = Vec::new();
            assert(string_views(v@) == Seq::<Seq<char>>::empty());
            v
        },
    }
}

/// The file extensions that mark an attachment as an image.
pub open spec fn image_extensions() -> Seq<Seq<char>> {
    seq!["png"@, "jpg"@, "jpeg"@, "gif"@, "heic"@, "webp"@, "tiff"@, "tif"@, "bmp"@, "svg"@]
}

/// An attachment is an image when its extension, in lower case, is one of
/// the image extensions.
pub open spec fn is_image_spec(ext: Option<Seq<char>>) -> bool {
    match ext {
        Some(e) => image_extensions().contains(lowercase(e)),
        None => false,
    }
}

/// An attachment is an image exactly when its extension, in lower case, is
/// png, jpg, jpeg, gif, heic, webp, tiff, tif, bmp or svg; one without an
/// extension is not.
pub proof fn law_image_extensions(e: Seq<char>)
    ensures
        is_image_spec(Some(e)) <==> {
            let l = lowercase(e);
            ||| l == "png"@
            ||| l == "jpg"@
            ||| l == "jpeg"@
            ||| l == "gif"@
            ||| l == "heic"@
            ||| l == "webp"@
            ||| l == "tiff"@
            ||| l == "tif"@
            ||| l == "bmp"@
            ||| l == "svg"@
        },
        !is_image_spec(None),
{
    let l = lowercase(e);
    let exts = image_extensions();
    if exts.contains(l) {
        let k = choose|k: int| 0 <= k < exts.len() && exts[k] == l;
        assert(0 <= k < 10);
    }
    if l == "png"@ { assert(exts[0] == l); }
    if l == "jpg"@ { assert(exts[1] == l); }
    if l == "jpeg"@ { assert(exts[2] == l); }
    if l == "gif"@ { assert(exts[3] == l); }
    if l == "heic"@ { assert(exts[4] == l); }
    if l == "webp"@ { assert(exts[5] == l); }
    if l == "tiff"@ { assert(exts[6] == l); }
    if l == "tif"@ { assert(exts[7] == l); }
    if l == "bmp"@ { assert(exts[8] == l); }
    if l == "svg"@ { assert(exts[9] == l); }
}

/// An attachment row becomes an attachment with the row's UUID and file
/// name, which is an image exactly when the row has an image extension.
pub proof fn law_row_attachment(r: AttachmentRow)
    ensures
        attachment_of_row(r).uuid == r.uuid@,
        attachment_of_row(r).filename == r.filename@,
        r.extension is None ==> !attachment_of_row(r).is_image,
        r.extension matches Some(e) ==> (attachment_of_row(r).is_image <==> is_image_spec(Some(e@))),
{
    if let Some(e) = r.extension {
        law_image_extensions(e@);
    }
}

/// Whether a lower-cased extension is one of the image extensions.
pub fn is_image_lowercase(low: &str) -> (b: bool)
    ensures
        b == image_extensions().contains(low@),
{
    let ghost exts = image_extensions();
    let r = str_eq(low, "png") || str_eq(low, "jpg") || str_eq(low, "jpeg") || str_eq(low, "gif")
        || str_eq(low, "heic") || str_eq(low, "webp") || str_eq(low, "tiff") || str_eq(low, "tif")
        || str_eq(low, "bmp") || str_eq(low, "svg");
    proof {
        if r {
            assert(exts.contains(low@)) by {
                if low@ == "png"@ { assert(exts[0] == low@); }
                else if low@ == "jpg"@ { assert(exts[1] == low@); }
                else if low@ == "jpeg"@ { assert(exts[2] == low@); }
                else if low@ == "gif"@ { assert(exts[3] == low@); }
                else if low@ == "heic"@ { assert(exts[4] == low@); }
                else if low@ == "webp"@ { assert(exts[5] == low@); }
                else if low@ == "tiff"@ { assert(exts[6] == low@); }
                else if low@ == "tif"@ { assert(exts[7] == low@); }
                else if low@ == "bmp"@ { assert(exts[8] == low@); }
                else { assert(exts[9] == low@); }
            }
        } else {
            assert(!exts.contains(low@)) by {
                if exts.contains(low@) {
                    let k = choose|k: int| 0 <= k < exts.len() && exts[k] == low@;
                    assert(0 <= k < 10);
                }
            }
        }
    }
    r
}

/// Whether an attachment's extension marks it as an image.
pub fn is_image_extension(ext: Option<&str>) -> (b: bool)
    ensures
        b == is_image_spec(match ext { Some(e) => Some(e@), None => None }),
{
    match ext {
        None => false,
        Some(e) => {
            let low = to_lowercase(e);
            is_image_lowercase(low.as_str())
        },
    }
}

/// The attachment a row describes.
pub open spec fn attachment_of_row(r: AttachmentRow) -> AttachmentView {
    AttachmentView { uuid: r.uuid@, filename: r.filename@, is_image: is_image_spec(opt_seq(r.extension)) }
}

/// The attachments of the note with key `pk`, in the order of the rows.
pub open spec fn attachments_of(rows: Seq<AttachmentRow>, pk: i64) -> Seq<AttachmentView>
    decreases rows.len(),
{
    if rows.len() == 0 {
        Seq::empty()
    } else if rows.last().note_pk == pk {
        attachments_of(rows.drop_last(), pk).push(attachment_of_row(rows.last()))
    } else {
        attachments_of(rows.drop_last(), pk)
    }
}

/// The attachments of the note with key `note_pk`.
pub fn attachments_for(rows: &[AttachmentRow], note_pk: i64) -> (r: Vec<BearAttachment>)
    ensures
        crate::db::models::attachment_views(r@) == attachments_of(rows@, note_pk),
{
    let mut r: Vec<BearAttachment> = Vec::new();
    let mut i: usize = 0;
    while i < rows.len()
        invariant
            i <= rows.len(),
            crate::db::models::attachment_views(r@) == attachments_of(rows@.take(i as int), note_pk),
        decreases rows.len() - i,
    {
        assert(rows@.take(i + 1).drop_last() == rows@.take(i as int));
        assert(rows@.take(i + 1).last() == rows@[i as int]);
        if rows[i].note_pk == note_pk {
            let is_image = match &rows[i].extension {
                Some(e) => is_image_extension(Some(e.as_str())),
                None => is_image_extension(None),
            };
            let a = BearAttachment {
                uuid: rows[i].uuid.clone(),
                filename: rows[i].filename.clone(),
                is_image,
            };
            let ghost before = r@;
            r.push(a);
            assert(crate::db::models::attachment_views(r@) == crate::db::models::attachment_views(
                before,
            ).push(attachment_of_row(rows@[i as int])));
        }
        i += 1;
    }
    assert(rows@.take(rows.len() as int) == rows@);
    r
}

/// The note a row of the notes query describes, with its attachments.
pub open spec fn note_of_row(row: NoteRow, created: i64, modified: i64, attachments: Seq<AttachmentRow>) -> NoteView {
    NoteView {
        id: row.id@,
        title: row.title@,
        text: row.text@,
        tags: tags_spec(opt_seq(row.tags)),
        created,
        modified,
        is_trashed: row.is_trashed != 0,
        is_archived: row.is_archived != 0,
        is_pinned: row.is_pinned != 0,
        attachments: attachments_of(attachments, row.z_pk),
    }
}

/// Turns a row of the notes query into a note: tags split, flags read,
/// dates read as UTC, attachments gathered. A date that does not parse is
/// reported with its column (3 for the creation date, 4 for the modification
/// date; the creation date is read first).
pub fn note_from_row(row: NoteRow, attachments: &[AttachmentRow]) -> (r: Result<BearNote, BadDate>)
    ensures
        match (sqlite_datetime_secs(row.created@), sqlite_datetime_secs(row.modified@)) {
            (None, _) => r matches Err(e) && e.column == 3,
            (Some(_), None) => r matches Err(e) && e.column == 4,
            (Some(c), Some(m)) => r matches Ok(n) && n@ == note_of_row(row, c, m, attachments@),
        },
{
    let created = match parse_sqlite_datetime(row.created.as_str()) {
        Ok(v) => v,
        Err(reason) => return Err(BadDate { column: 3, reason }),
    };
    let modified = match parse_sqlite_datetime(row.modified.as_str()) {
        Ok(v) => v,
        Err(reason) => return Err(BadDate { column: 4, reason }),
    };
    Ok(note_with_dates(row, created, modified, attachments))
}

/// Turns a row of the notes query, whose dates have been read as `created`
/// and `modified` (seconds since the Unix epoch), into a note.
pub fn note_with_dates(row: NoteRow, created: i64, modified: i64, attachments: &[AttachmentRow]) -> (r: BearNote)
    ensures
        r@ == note_of_row(row, created, modified, attachments@),
{
    let tags = match &row.tags {
        Some(t) => split_tags(Some(t.as_str())),
        None => split_tags(None),
    };
    let atts = attachments_for(attachments, row.z_pk);
    BearNote {
        id: row.id,
        title: row.title,
        text: row.text,
        tags,
        created,
        modified,
        is_trashed: row.is_trashed != 0,
        is_archived: row.is_archived != 0,
        is_pinned: row.is_pinned != 0,
        attachments: atts,
    }
}

} // verus!
