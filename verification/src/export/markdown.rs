//! Rendering of a note as a markdown file with optional YAML frontmatter.
use vstd::prelude::*;
use vstd::utf8::*;
use vstd::string::StringSliceAdditionalSpecFns;

use crate::config::AttachmentMode;
use crate::db::models::{BearNote, NoteView};
use crate::text::{
    byte_prefix, byte_prefix_of, can_cut, chars_of, cut_ok, find_char, find_char_in, has_prefix,
    has_prefix_at, lemma_find_char_bound, push_range, range_eq, replace_all, replace_str,
    lemma_ws_prefix_bound, skip_ws, skip_ws_back, string_of_range, trim, trim_start, ws_prefix_len,
};

verus! {

// ---------------------------------------------------------------------
// Outside calls
// ---------------------------------------------------------------------

/// The text that `time` writes for the UTC instant `unix_secs` with its
/// RFC 3339 formatter, or the empty string where it cannot.
pub uninterp spec fn rfc3339_text(unix_secs: i64) -> Seq<char>;

/// `time::OffsetDateTime::from_unix_timestamp` followed by
/// `OffsetDateTime::format(&Rfc3339)`; a failure of either gives "".
/// Claimed: the result is the named value `rfc3339_text(unix_secs)`.
#[verifier::external_body]
pub(crate) fn format_rfc3339(unix_secs: i64) -> (r: String)
    ensures
        r@ == rfc3339_text(unix_secs),
{
    match time::OffsetDateTime::from_unix_timestamp(unix_secs) {
        Ok(t) => t.format(&time::format_description::well_known::Rfc3339).unwrap_or_default(),
        Err(_) => String::new(),
    }
}

/// The string that `String::from_utf8_lossy` makes of `bytes`.
pub uninterp spec fn utf8_lossy(bytes: Seq<u8>) -> Seq<char>;

/// `String::from_utf8_lossy`. Claimed: the result is the named value
/// `utf8_lossy(bytes)`, and for valid UTF-8 it is the decoded text (as its
/// documentation states: only invalid sequences are replaced).
#[verifier::external_body]
fn from_utf8_lossy(bytes: &[u8]) -> (r: String)
    ensures
        r@ == utf8_lossy(bytes@),
        valid_utf8(bytes@) ==> r@ == decode_utf8(bytes@),
{
    String::from_utf8_lossy(bytes).into_owned()
}

// ---------------------------------------------------------------------
// Frontmatter
// ---------------------------------------------------------------------

/// `s.replace('\\', "\\\\").replace('"', "\\\"")`.
pub open spec fn escape_yaml_spec(s: Seq<char>) -> Seq<char> {
    replace_all(replace_all(s, "\\"@, "\\\\"@), "\""@, "\\\""@)
}

/// A tag written as a quoted YAML string.
pub open spec fn quoted_tag(t: Seq<char>) -> Seq<char> {
    "\""@ + escape_yaml_spec(t) + "\""@
}

/// The quoted tags separated by ", ".
pub open spec fn tag_list(tags: Seq<Seq<char>>) -> Seq<char>
    decreases tags.len(),
{
    if tags.len() == 0 {
        seq![]
    } else if tags.len() == 1 {
        quoted_tag(tags[0])
    } else {
        tag_list(tags.drop_last()) + ", "@ + quoted_tag(tags.last())
    }
}

/// The YAML frontmatter block of a note whose dates read `created` and
/// `modified`.
pub open spec fn frontmatter_text(n: NoteView, created: Seq<char>, modified: Seq<char>) -> Seq<char> {
    "---\n"@ + "id: \""@ + n.id + "\"\n"@ + "title: \""@ + escape_yaml_spec(n.title) + "\"\n"@
        + "tags: ["@ + tag_list(n.tags) + "]\n"@ + "created: \""@ + created
        + "\"\n"@ + "modified: \""@ + modified + "\"\n"@ + (if n.is_pinned {
        "pinned: true\n"@
    } else {
        Seq::<char>::empty()
    }) + "---\n\n"@
}

/// The YAML frontmatter block of a note, its dates in RFC 3339.
pub open spec fn frontmatter_spec(n: NoteView) -> Seq<char> {
    frontmatter_text(n, rfc3339_text(n.created), rfc3339_text(n.modified))
}

// ---------------------------------------------------------------------
// Title heading
// ---------------------------------------------------------------------

/// Bear starts the text with `# Title`. When the first line after leading
/// whitespace is that heading (compared after trimming both), the body is
/// what follows its line; otherwise the body is the whole text.
pub open spec fn strip_title_heading_spec(text: Seq<char>, title: Seq<char>) -> Seq<char> {
    let trimmed = trim_start(text);
    if trimmed.len() >= 2 && trimmed[0] == '#' && trimmed[1] == ' ' {
        let rest = trimmed.skip(2);
        let line_end = find_char(rest, '\n');
        if trim(rest.take(line_end as int)) == trim(title) {
            let after = rest.skip(line_end as int);
            if after.len() > 0 && after[0] == '\n' {
                after.skip(1)
            } else {
                after
            }
        } else {
            text
        }
    } else {
        text
    }
}

// ---------------------------------------------------------------------
// Attachment markers: `[image:...]` and `[file:...]`
// ---------------------------------------------------------------------

/// Length of the marker opening (`[image:` or `[file:`) at the start of `s`, or 0.
pub open spec fn marker_head(s: Seq<char>) -> nat {
    if has_prefix(s, "[image:"@) {
        "[image:"@.len()
    } else if has_prefix(s, "[file:"@) {
        "[file:"@.len()
    } else {
        0
    }
}

/// Length of the attachment marker at the start of `s` (through the first
/// `]` after its opening), or 0 when none starts there.
pub open spec fn marker_len(s: Seq<char>) -> nat {
    let h = marker_head(s);
    if h == 0 {
        0
    } else {
        let close = h + find_char(s.skip(h as int), ']');
        if close < s.len() {
            close + 1
        } else {
            0
        }
    }
}

/// `s` with every attachment marker removed, markers found from the left
/// without overlapping.
pub open spec fn strip_markers(s: Seq<char>) -> Seq<char>
    decreases s.len(),
{
    if s.len() == 0 {
        seq![]
    } else if 0 < marker_len(s) <= s.len() {
        strip_markers(s.skip(marker_len(s) as int))
    } else {
        seq![s[0]] + strip_markers(s.skip(1))
    }
}

// ---------------------------------------------------------------------
// Markdown links `[display](path)` with an optional `<!-- {...} -->`
// ---------------------------------------------------------------------

/// Index in `s` of the first `]` after the opening `[`.
pub open spec fn embed_close(s: Seq<char>) -> int {
    1 + find_char(s.skip(1), ']') as int
}

/// Index in `s` of the first `)` after the `](`.
pub open spec fn embed_path_end(s: Seq<char>) -> int {
    let d = embed_close(s);
    d + 2 + find_char(s.skip(d + 2), ')')
}

/// A link `[display](path)` with a non-empty path starts `s`.
pub open spec fn is_embed(s: Seq<char>) -> bool {
    &&& s.len() > 0
    &&& s[0] == '['
    &&& embed_close(s) + 1 < s.len()
    &&& s[embed_close(s) + 1] == '('
    &&& embed_close(s) + 2 < embed_path_end(s) < s.len()
}

/// Length of a `<!-- {...} -->` comment at the start of `s`, or 0.
pub open spec fn comment_len(s: Seq<char>) -> nat {
    if !has_prefix(s, "<!--"@) {
        0
    } else {
        let a = "<!--"@.len() + ws_prefix_len(s.skip("<!--"@.len() as int));
        if a < s.len() && s[a as int] == '{' {
            let b = a + 1 + find_char(s.skip(a + 1 as int), '}');
            if b < s.len() {
                let c = b + 1 + ws_prefix_len(s.skip(b + 1 as int));
                if has_prefix(s.skip(c as int), "-->"@) {
                    (c + "-->"@.len()) as nat
                } else {
                    0
                }
            } else {
                0
            }
        } else {
            0
        }
    }
}

/// Length of the link (with its comment, if one follows) at the start of `s`, or 0.
pub open spec fn embed_len(s: Seq<char>) -> nat {
    if is_embed(s) {
        let p = embed_path_end(s);
        (p + 1 + comment_len(s.skip(p + 1))) as nat
    } else {
        0
    }
}

/// Value of an ASCII hexadecimal digit.
pub open spec fn hex_val(b: u8) -> Option<u8> {
    if 0x30 <= b <= 0x39 {
        Some((b - 0x30) as u8)
    } else if 0x61 <= b <= 0x66 {
        Some((b - 0x57) as u8)
    } else if 0x41 <= b <= 0x46 {
        Some((b - 0x37) as u8)
    } else {
        None
    }
}

/// `u8::from_str_radix` in base 16 of the two characters `b1 b2`: two hex
/// digits, or `+` and one hex digit.
pub open spec fn hex_pair(b1: u8, b2: u8) -> Option<u8> {
    if b1 == 0x2B {
        hex_val(b2)
    } else {
        match (hex_val(b1), hex_val(b2)) {
            (Some(x), Some(y)) => Some((16 * x + y) as u8),
            _ => None,
        }
    }
}

/// Percent-decoding of bytes: `%` followed by a decodable pair (and not in
/// the last two bytes) becomes the byte it names; every other byte is kept.
pub open spec fn percent_bytes(b: Seq<u8>) -> Seq<u8>
    decreases b.len(),
{
    if b.len() == 0 {
        seq![]
    } else if b[0] == 0x25 && b.len() > 2 && hex_pair(b[1], b[2]) is Some {
        seq![hex_pair(b[1], b[2])->0] + percent_bytes(b.skip(3))
    } else {
        seq![b[0]] + percent_bytes(b.skip(1))
    }
}

/// Bytes read back as text: decoded when they are valid UTF-8, otherwise
/// with invalid sequences replaced (`String::from_utf8_lossy`).
pub open spec fn lossy_text(b: Seq<u8>) -> Seq<char> {
    if valid_utf8(b) {
        decode_utf8(b)
    } else {
        utf8_lossy(b)
    }
}

/// The percent-decoded form of a path, read back as text.
pub open spec fn percent_decode_spec(s: Seq<char>) -> Seq<char> {
    lossy_text(percent_bytes(encode_utf8(s)))
}

/// Decoding a path does not cut a character: every `%` that has two bytes
/// after it is followed by two bytes that end on a character boundary (the
/// decoder takes those two bytes as a string slice).
pub open spec fn percent_decodable(s: Seq<char>) -> bool {
    let b = encode_utf8(s);
    forall|i: int| 0 <= i && i + 2 < b.len() && #[trigger] b[i] == 0x25u8 ==> is_char_boundary(b, i + 3)
}

/// Every link path that rewriting decodes can be decoded.
pub open spec fn embeds_decodable(s: Seq<char>) -> bool
    decreases s.len(),
{
    if s.len() == 0 {
        true
    } else if 0 < embed_len(s) <= s.len() {
        percent_decodable(s.subrange(embed_close(s) + 2, embed_path_end(s))) && embeds_decodable(
            s.skip(embed_len(s) as int),
        )
    } else {
        embeds_decodable(s.skip(1))
    }
}

/// The link at the start of `s` pointed into the assets folder when its
/// decoded path names an attachment; otherwise the link as it stands.
pub open spec fn rewritten_embed(s: Seq<char>, prefix: Seq<char>, names: Seq<Seq<char>>) -> Seq<
    char,
> {
    let d = embed_close(s);
    let p = embed_path_end(s);
    let e = embed_len(s) as int;
    let raw = s.subrange(d + 2, p);
    if names.contains(percent_decode_spec(raw)) {
        "["@ + s.subrange(1, d) + "]("@ + prefix + raw + ")"@ + s.subrange(p + 1, e)
    } else {
        s.take(e)
    }
}

/// Every link of `s`, found from the left without overlapping, rewritten.
pub open spec fn rewrite_embeds(s: Seq<char>, prefix: Seq<char>, names: Seq<Seq<char>>) -> Seq<char>
    decreases s.len(),
{
    if s.len() == 0 {
        seq![]
    } else if 0 < embed_len(s) <= s.len() {
        rewritten_embed(s, prefix, names) + rewrite_embeds(
            s.skip(embed_len(s) as int),
            prefix,
            names,
        )
    } else {
        seq![s[0]] + rewrite_embeds(s.skip(1), prefix, names)
    }
}

/// The filenames of a note's attachments.
pub open spec fn attachment_names(n: NoteView) -> Seq<Seq<char>> {
    n.attachments.map_values(|a: crate::db::models::AttachmentView| a.filename)
}

/// The folder prefix that copied attachments are referenced under.
pub open spec fn copy_prefix(n: NoteView, assets_subdir: Option<Seq<char>>) -> Seq<char> {
    match assets_subdir {
        Some(sub) => sub + "/"@,
        None => "_assets/"@ + byte_prefix(n.id, 8) + "/"@,
    }
}

/// The body after attachment handling.
pub open spec fn process_attachments_spec(
    body: Seq<char>,
    mode: AttachmentMode,
    n: NoteView,
    assets_subdir: Option<Seq<char>>,
) -> Seq<char> {
    match mode {
        AttachmentMode::Ignore => strip_markers(body),
        AttachmentMode::Placeholder => body,
        AttachmentMode::Copy => if n.attachments.len() == 0 {
            body
        } else {
            rewrite_embeds(body, copy_prefix(n, assets_subdir), attachment_names(n))
        },
    }
}

/// `s`, with a newline appended unless it already ends with one.
pub open spec fn ensure_newline(s: Seq<char>) -> Seq<char> {
    if s.len() > 0 && s.last() == '\n' {
        s
    } else {
        s.push('\n')
    }
}

/// The markdown file of a note.
pub open spec fn render_spec(
    n: NoteView,
    frontmatter: bool,
    mode: AttachmentMode,
    assets_subdir: Option<Seq<char>>,
) -> Seq<char> {
    let head = if frontmatter {
        frontmatter_spec(n)
    } else {
        Seq::<char>::empty()
    };
    let body = strip_title_heading_spec(n.text, n.title);
    ensure_newline(head + process_attachments_spec(body, mode, n, assets_subdir))
}

/// Rendering is defined: in copy mode, for a note with attachments, the
/// first 8 bytes of the id end on a character boundary where the assets
/// folder is derived from the id, and every link path can be decoded.
pub open spec fn render_defined(n: NoteView, mode: AttachmentMode, assets_subdir: Option<Seq<char>>) -> bool {
    (mode == AttachmentMode::Copy && n.attachments.len() > 0) ==> {
        &&& assets_subdir is None ==> cut_ok(n.id, 8)
        &&& embeds_decodable(strip_title_heading_spec(n.text, n.title))
    }
}

/// An optional string, by value.
pub open spec fn opt_view(o: Option<&str>) -> Option<Seq<char>> {
    match o {
        Some(s) => Some(s@),
        None => None,
    }
}

// ---------------------------------------------------------------------
// Executable code
// ---------------------------------------------------------------------

/// `s.replace('\\', "\\\\").replace('"', "\\\"")`: escapes a string for a
/// double-quoted YAML scalar.
pub fn escape_yaml(s: &str) -> (r: String)
    ensures
        r@ == escape_yaml_spec(s@),
{
    proof {
        reveal_strlit("\\");
        reveal_strlit("\"");
    }
    let once = replace_str(s, "\\", "\\\\");
    replace_str(once.as_str(), "\"", "\\\"")
}

/// Appends the frontmatter block of `note`.
fn write_frontmatter(out: &mut String, note: &BearNote)
    ensures
        final(out)@ == old(out)@ + frontmatter_spec(note@),
{
    let created = format_rfc3339(note.created);
    let modified = format_rfc3339(note.modified);
    let block = frontmatter_block(note, created.as_str(), modified.as_str());
    out.append(block.as_str());
}

/// The frontmatter block of `note`, with its dates written as `created` and
/// `modified`.
pub fn frontmatter_block(note: &BearNote, created: &str, modified: &str) -> (r: String)
    ensures
        r@ == frontmatter_text(note@, created@, modified@),
{
    let mut block = String::new();
    let out = &mut block;
    let ghost start = out@;
    out.append("---\n");
    out.append("id: \"");
    out.append(note.id.as_str());
    out.append("\"\n");
    out.append("title: \"");
    let title = escape_yaml(note.title.as_str());
    out.append(title.as_str());
    out.append("\"\n");
    out.append("tags: [");
    let ghost before_tags = out@;
    let mut i: usize = 0;
    while i < note.tags.len()
        invariant
            i <= note.tags.len(),
            out@ == before_tags + tag_list(note@.tags.take(i as int)),
        decreases note.tags.len() - i,
    {
        let ghost prev = out@;
        if i > 0 {
            out.append(", ");
        }
        out.append("\"");
        let t = escape_yaml(note.tags[i].as_str());
        out.append(t.as_str());
        out.append("\"");
        proof {
            let tags = note@.tags;
            assert(tags.take(i + 1).drop_last() == tags.take(i as int));
            assert(tags.take(i + 1).last() == note.tags@[i as int]@);
            if i == 0 {
                assert(tags.take(1)[0] == note.tags@[0]@);
            }
        }
        i += 1;
    }
    assert(note@.tags.take(note.tags.len() as int) == note@.tags);
    out.append("]\n");
    out.append("created: \"");
    out.append(created);
    out.append("\"\n");
    out.append("modified: \"");
    out.append(modified);
    out.append("\"\n");
    if note.is_pinned {
        out.append("pinned: true\n");
    }
    out.append("---\n\n");
    assert(out@ == start + frontmatter_text(note@, created@, modified@));
    block
}

/// Drops a leading `# Title` line that repeats the note's title.
#[verifier::spinoff_prover]
pub fn strip_title_heading(text: &str, title: &str) -> (r: String)
    ensures
        r@ == strip_title_heading_spec(text@, title@),
{
    let cs = chars_of(text);
    let n: usize = cs.len();
    let w: usize = skip_ws(&cs, 0, n);
    proof {
        assert(cs@.subrange(0, n as int) == text@);
        assert(trim_start(text@) == cs@.subrange(w as int, n as int));
    }
    if n - w >= 2 && cs[w] == '#' && cs[w + 1] == ' ' {
        let rs: usize = w + 2;
        let e: usize = find_char_in(&cs, '\n', rs, n);
        let h0: usize = skip_ws(&cs, rs, e);
        let h1: usize = skip_ws_back(&cs, h0, e);
        let ts = chars_of(title);
        let tn: usize = ts.len();
        let t0: usize = skip_ws(&ts, 0, tn);
        let t1: usize = skip_ws_back(&ts, t0, tn);
        let ghost trimmed = trim_start(text@);
        let ghost rest = trimmed.skip(2);
        proof {
            assert(rest == cs@.subrange(rs as int, n as int));
            assert(rest.take(e - rs) == cs@.subrange(rs as int, e as int));
            assert(trim_start(cs@.subrange(rs as int, e as int)) == cs@.subrange(h0 as int, e as int));
            assert(trim(rest.take(e - rs)) == cs@.subrange(h0 as int, h1 as int));
            assert(ts@.subrange(0, tn as int) == title@);
            assert(trim_start(title@) == ts@.subrange(t0 as int, tn as int));
            assert(trim(title@) == ts@.subrange(t0 as int, t1 as int));
        }
        if range_eq(&cs, h0, h1, &ts, t0, t1) {
            proof {
                lemma_find_char_bound(cs@.subrange(rs as int, n as int), '\n');
                assert(rest.skip(e - rs) == cs@.subrange(e as int, n as int));
            }
            if e < n {
                proof {
                    assert(cs@[e as int] == '\n');
                    assert(rest.skip(e - rs).skip(1) == cs@.subrange(e + 1, n as int));
                }
                return string_of_range(&cs, e + 1, n);
            } else {
                return string_of_range(&cs, e, n);
            }
        }
    }
    text.to_owned()
}

/// Whether `s` ends with a newline.
fn ends_with_newline(s: &String) -> (b: bool)
    ensures
        b == (s@.len() > 0 && s@.last() == '\n'),
{
    let cs = chars_of(s.as_str());
    cs.len() > 0 && cs[cs.len() - 1] == '\n'
}

/// Percent-decodes a link path (`%20` and the like) and reads the bytes
/// back as text, replacing invalid UTF-8.
pub fn percent_decode(s: &str) -> (r: String)
    requires
        percent_decodable(s@),
    ensures
        r@ == percent_decode_spec(s@),
{
    let bytes = s.as_bytes();
    let n: usize = bytes.len();
    let mut out: Vec<u8> = Vec::new();
    let mut i: usize = 0;
    let ghost b = bytes@;
    assert(b.skip(0) == b);
    while i < n
        invariant
            b == bytes@,
            b == encode_utf8(s@),
            n == b.len(),
            i <= n,
            percent_bytes(b) == out@ + percent_bytes(b.skip(i as int)),
        decreases n - i,
    {
        let ghost rest = b.skip(i as int);
        let mut decoded: Option<u8> = None;
        if bytes[i] == 0x25 && n >= 3 && i < n - 2 {
            decoded = hex_pair_exec(bytes[i + 1], bytes[i + 2]);
        }
        match decoded {
            Some(v) => {
                out.push(v);
                assert(rest.skip(3) == b.skip(i + 3));
                i += 3;
            },
            None => {
                out.push(bytes[i]);
                assert(rest.skip(1) == b.skip(i + 1));
                i += 1;
            },
        }
    }
    assert(b.skip(n as int) == Seq::<u8>::empty());
    from_utf8_lossy(out.as_slice())
}

/// Whether decoding `s` cuts no character (see `percent_decodable`).
pub fn is_percent_decodable(s: &str) -> (b: bool)
    ensures
        b == percent_decodable(s@),
{
    let bytes = s.as_bytes();
    let n: usize = bytes.len();
    let ghost bs = bytes@;
    proof {
        assert(s.spec_bytes() == encode_utf8(s@));
    }
    let mut i: usize = 0;
    while i < n
        invariant
            bs == bytes@,
            bs == encode_utf8(s@),
            bs == s.spec_bytes(),
            n == bs.len(),
            i <= n,
            forall|j: int| 0 <= j < i && j + 2 < n && #[trigger] bs[j] == 0x25u8 ==> is_char_boundary(bs, j + 3),
        decreases n - i,
    {
        if bytes[i] == 0x25 && n >= 3 && i < n - 2 {
            if !s.is_char_boundary(i + 3) {
                return false;
            }
        }
        i += 1;
    }
    true
}

/// Whether every link path of `text` that rewriting decodes can be decoded.
pub fn links_decodable(text: &str) -> (b: bool)
    ensures
        b == embeds_decodable(text@),
{
    let cs = chars_of(text);
    let open = chars_of("<!--");
    let close = chars_of("-->");
    let n: usize = cs.len();
    let mut i: usize = 0;
    assert(cs@.skip(0) == cs@);
    while i < n
        invariant
            cs@ == text@,
            open@ == "<!--"@,
            close@ == "-->"@,
            n == cs.len(),
            i <= n,
            embeds_decodable(text@) == embeds_decodable(cs@.skip(i as int)),
        decreases n - i,
    {
        let ghost rest = cs@.skip(i as int);
        let (m, d, p) = embed_at(&cs, i, &open, &close);
        if m > 0 {
            let raw = string_of_range(&cs, d + 2, p);
            assert(rest.subrange(embed_close(rest) + 2, embed_path_end(rest)) == cs@.subrange(d + 2, p as int));
            if !is_percent_decodable(raw.as_str()) {
                return false;
            }
            assert(rest.skip(m as int) == cs@.skip(i + m));
            i += m;
        } else {
            assert(rest.skip(1) == cs@.skip(i + 1));
            i += 1;
        }
    }
    assert(cs@.skip(n as int) == Seq::<char>::empty());
    true
}

/// Value of an ASCII hexadecimal digit.
fn hex_val_exec(b: u8) -> (r: Option<u8>)
    ensures
        r == hex_val(b),
{
    if 0x30 <= b && b <= 0x39 {
        Some(b - 0x30)
    } else if 0x61 <= b && b <= 0x66 {
        Some(b - 0x57)
    } else if 0x41 <= b && b <= 0x46 {
        Some(b - 0x37)
    } else {
        None
    }
}

/// `u8::from_str_radix` in base 16 of the two characters `b1 b2`.
fn hex_pair_exec(b1: u8, b2: u8) -> (r: Option<u8>)
    ensures
        r == hex_pair(b1, b2),
{
    if b1 == 0x2B {
        hex_val_exec(b2)
    } else {
        match (hex_val_exec(b1), hex_val_exec(b2)) {
            (Some(x), Some(y)) => Some(16 * x + y),
            _ => None,
        }
    }
}

/// Length of the attachment marker at `cs[i..]`, or 0.
fn marker_len_at(cs: &Vec<char>, i: usize, img: &Vec<char>, fil: &Vec<char>) -> (r: usize)
    requires
        i <= cs.len(),
        img@ == "[image:"@,
        fil@ == "[file:"@,
    ensures
        r == marker_len(cs@.skip(i as int)),
{
    let ghost s = cs@.skip(i as int);
    let h: usize = if has_prefix_at(cs, i, img) {
        img.len()
    } else if has_prefix_at(cs, i, fil) {
        fil.len()
    } else {
        0
    };
    if h == 0 {
        return 0;
    }
    let n: usize = cs.len();
    let close: usize = find_char_in(cs, ']', i + h, n);
    proof {
        assert(s.skip(h as int) == cs@.subrange(i + h, n as int));
    }
    if close < n {
        close + 1 - i
    } else {
        0
    }
}

/// Removes every `[image:...]` and `[file:...]` marker.
pub fn strip_attachment_markers(text: &str) -> (r: String)
    ensures
        r@ == strip_markers(text@),
{
    let cs = chars_of(text);
    let img = chars_of("[image:");
    let fil = chars_of("[file:");
    let n: usize = cs.len();
    let mut out = String::new();
    let mut i: usize = 0;
    assert(cs@.skip(0) == cs@);
    while i < n
        invariant
            cs@ == text@,
            img@ == "[image:"@,
            fil@ == "[file:"@,
            n == cs.len(),
            i <= n,
            strip_markers(text@) == out@ + strip_markers(cs@.skip(i as int)),
        decreases n - i,
    {
        let ghost rest = cs@.skip(i as int);
        let m: usize = marker_len_at(&cs, i, &img, &fil);
        if m > 0 && m <= n - i {
            assert(rest.skip(m as int) == cs@.skip(i + m));
            i += m;
        } else {
            out.push(cs[i]);
            assert(rest.skip(1) == cs@.skip(i + 1));
            i += 1;
        }
    }
    assert(cs@.skip(n as int) == Seq::<char>::empty());
    out
}

/// Length of the `<!-- {...} -->` comment at `cs[j..]`, or 0.
fn comment_len_at(cs: &Vec<char>, j: usize, open: &Vec<char>, close: &Vec<char>) -> (r: usize)
    requires
        j <= cs.len(),
        open@ == "<!--"@,
        close@ == "-->"@,
    ensures
        r == comment_len(cs@.skip(j as int)),
        j + r <= cs.len(),
{
    let ghost s = cs@.skip(j as int);
    let n: usize = cs.len();
    if !has_prefix_at(cs, j, open) {
        return 0;
    }
    let a: usize = skip_ws(cs, j + open.len(), n);
    proof {
        assert(s.skip(open@.len() as int) == cs@.subrange(j + open.len(), n as int));
    }
    if !(a < n && cs[a] == '{') {
        return 0;
    }
    let b: usize = find_char_in(cs, '}', a + 1, n);
    proof {
        assert(s.skip(a - j + 1) == cs@.subrange(a + 1, n as int));
    }
    if !(b < n) {
        return 0;
    }
    let c: usize = skip_ws(cs, b + 1, n);
    proof {
        assert(s.skip(b - j + 1) == cs@.subrange(b + 1, n as int));
        assert(s.skip(c - j) == cs@.skip(c as int));
    }
    if has_prefix_at(cs, c, close) {
        c + close.len() - j
    } else {
        0
    }
}

/// The link at `cs[i..]`: `(embed_len, index of ']', index of ')')`, the
/// last two meaningful only when the length is positive.
fn embed_at(cs: &Vec<char>, i: usize, open: &Vec<char>, close: &Vec<char>) -> (r: (usize, usize, usize))
    requires
        i < cs.len(),
        open@ == "<!--"@,
        close@ == "-->"@,
    ensures
        r.0 == embed_len(cs@.skip(i as int)),
        r.0 > 0 ==> r.1 == i + embed_close(cs@.skip(i as int)),
        r.0 > 0 ==> r.2 == i + embed_path_end(cs@.skip(i as int)),
        r.0 > 0 ==> i < r.1 && r.1 + 2 < r.2 && r.2 < i + r.0 <= cs.len(),
{
    let ghost s = cs@.skip(i as int);
    let n: usize = cs.len();
    if cs[i] != '[' {
        return (0, 0, 0);
    }
    let d: usize = find_char_in(cs, ']', i + 1, n);
    proof {
        assert(s.skip(1) == cs@.subrange(i + 1, n as int));
    }
    if !(d < n - 1 && cs[d + 1] == '(') {
        return (0, 0, 0);
    }
    let p: usize = find_char_in(cs, ')', d + 2, n);
    proof {
        assert(s.skip(d - i + 2) == cs@.subrange(d + 2, n as int));
    }
    if !(d + 2 < p && p < n) {
        return (0, 0, 0);
    }
    let c: usize = comment_len_at(cs, p + 1, open, close);
    proof {
        assert(s.skip(p - i + 1) == cs@.skip(p + 1));
    }
    (p + 1 + c - i, d, p)
}

/// Whether `name` is the filename of one of the note's attachments.
fn is_attachment_name(note: &BearNote, name: &String) -> (b: bool)
    ensures
        b == attachment_names(note@).contains(name@),
{
    let ghost names = attachment_names(note@);
    let mut k: usize = 0;
    while k < note.attachments.len()
        invariant
            k <= note.attachments.len(),
            names == attachment_names(note@),
            forall|j: int| 0 <= j < k ==> names[j] != name@,
        decreases note.attachments.len() - k,
    {
        if note.attachments[k].filename == *name {
            assert(names[k as int] == name@);
            return true;
        }
        k += 1;
    }
    false
}

/// Appends the rewritten form of the link of length `m` at `cs[i..]`.
fn push_rewritten(
    out: &mut String,
    cs: &Vec<char>,
    i: usize,
    m: usize,
    d: usize,
    p: usize,
    prefix: &String,
    note: &BearNote,
)
    requires
        i < cs.len(),
        m > 0,
        m == embed_len(cs@.skip(i as int)),
        d == i + embed_close(cs@.skip(i as int)),
        p == i + embed_path_end(cs@.skip(i as int)),
        i < d && d + 2 < p && p < i + m <= cs.len(),
        percent_decodable(cs@.subrange(d + 2, p as int)),
    ensures
        final(out)@ == old(out)@ + rewritten_embed(cs@.skip(i as int), prefix@, attachment_names(note@)),
{
    let ghost rest = cs@.skip(i as int);
    let ghost names = attachment_names(note@);
    let raw = string_of_range(cs, d + 2, p);
    let decoded = percent_decode(raw.as_str());
    proof {
        assert(rest.subrange(embed_close(rest) + 2, embed_path_end(rest)) == cs@.subrange(d + 2, p as int));
    }
    if is_attachment_name(note, &decoded) {
        out.append("[");
        push_range(out, cs, i + 1, d);
        out.append("](");
        out.append(prefix.as_str());
        push_range(out, cs, d + 2, p);
        out.append(")");
        push_range(out, cs, p + 1, i + m);
        proof {
            assert(rest.subrange(1, embed_close(rest)) == cs@.subrange(i + 1, d as int));
            assert(rest.subrange(embed_path_end(rest) + 1, m as int) == cs@.subrange(p + 1, i + m));
        }
    } else {
        push_range(out, cs, i, i + m);
        proof {
            assert(rest.take(m as int) == cs@.subrange(i as int, i + m));
        }
    }
}

/// In copy mode, points links that name an attachment into the assets folder.
#[verifier::spinoff_prover]
#[verifier::rlimit(40)]
pub fn rewrite_attachment_paths(text: &str, note: &BearNote, assets_subdir: Option<&str>) -> (r:
    String)
    requires
        note.attachments.len() > 0 && assets_subdir is None ==> cut_ok(note.id@, 8),
        note.attachments.len() > 0 ==> embeds_decodable(text@),
    ensures
        r@ == (if note.attachments.len() == 0 {
            text@
        } else {
            rewrite_embeds(text@, copy_prefix(note@, opt_view(assets_subdir)), attachment_names(note@))
        }),
{
    if note.attachments.len() == 0 {
        return text.to_owned();
    }
    let prefix = match assets_subdir {
        Some(sub) => {
            let mut p = sub.to_owned();
            p.append("/");
            p
        },
        None => {
            let mut p = String::new();
            p.append("_assets/");
            let short = byte_prefix_of(note.id.as_str(), 8);
            p.append(short.as_str());
            p.append("/");
            p
        },
    };
    let ghost pre = copy_prefix(note@, opt_view(assets_subdir));
    let ghost names = attachment_names(note@);
    assert(prefix@ == pre);
    let cs = chars_of(text);
    let open = chars_of("<!--");
    let close = chars_of("-->");
    let n: usize = cs.len();
    let mut out = String::new();
    let mut i: usize = 0;
    assert(cs@.skip(0) == cs@);
    while i < n
        invariant
            cs@ == text@,
            open@ == "<!--"@,
            close@ == "-->"@,
            n == cs.len(),
            i <= n,
            prefix@ == pre,
            names == attachment_names(note@),
            rewrite_embeds(text@, pre, names) == out@ + rewrite_embeds(cs@.skip(i as int), pre, names),
            embeds_decodable(cs@.skip(i as int)),
        decreases n - i,
    {
        let ghost rest = cs@.skip(i as int);
        let (m, d, p) = embed_at(&cs, i, &open, &close);
        if m > 0 {
            assert(rest.subrange(embed_close(rest) + 2, embed_path_end(rest)) == cs@.subrange(d + 2, p as int));
            push_rewritten(&mut out, &cs, i, m, d, p, &prefix, note);
            assert(rest.skip(m as int) == cs@.skip(i + m));
            i += m;
        } else {
            out.push(cs[i]);
            assert(rest.skip(1) == cs@.skip(i + 1));
            i += 1;
        }
    }
    assert(cs@.skip(n as int) == Seq::<char>::empty());
    out
}

/// The body after attachment handling for `mode`.
fn process_attachments(
    text: &str,
    mode: &AttachmentMode,
    note: &BearNote,
    assets_subdir: Option<&str>,
) -> (r: String)
    requires
        *mode == AttachmentMode::Copy && note.attachments.len() > 0 ==> {
            &&& assets_subdir is None ==> cut_ok(note.id@, 8)
            &&& embeds_decodable(text@)
        },
    ensures
        r@ == process_attachments_spec(text@, *mode, note@, opt_view(assets_subdir)),
{
    match mode {
        AttachmentMode::Ignore => strip_attachment_markers(text),
        AttachmentMode::Placeholder => text.to_owned(),
        AttachmentMode::Copy => rewrite_attachment_paths(text, note, assets_subdir),
    }
}

// ---------------------------------------------------------------------
// Laws
// ---------------------------------------------------------------------

/// The UTF-8 bytes of a character other than `%` are never `%`.
proof fn lemma_scalar_no_percent(c: u32)
    requires
        c != 0x25,
    ensures
        forall|j: int| 0 <= j < encode_scalar(c).len() ==> #[trigger] encode_scalar(c)[j] != 0x25u8,
{
    let e = encode_scalar(c);
    if has_width_1_encoding(c) {
        assert(e[0] == leading_byte_width_1(c));
        assert((c & 0x7F) as u8 != 0x25u8) by (bit_vector)
            requires
                c <= 0x7F,
                c != 0x25,
        ;
    } else {
        assert((0x80 | (c & 0x3F) as u8) as u8 != 0x25u8) by (bit_vector);
        assert((0x80 | ((c >> 6) & 0x3F) as u8) as u8 != 0x25u8) by (bit_vector);
        assert((0x80 | ((c >> 12) & 0x3F) as u8) as u8 != 0x25u8) by (bit_vector);
        assert((0xC0 | ((c >> 6) & 0x1F) as u8) as u8 != 0x25u8) by (bit_vector);
        assert((0xE0 | ((c >> 12) & 0x0F) as u8) as u8 != 0x25u8) by (bit_vector);
        assert((0xF0 | ((c >> 18) & 0x7) as u8) as u8 != 0x25u8) by (bit_vector);
    }
}

/// Text without `%` encodes to bytes without `%`.
proof fn lemma_encode_no_percent(s: Seq<char>)
    requires
        forall|i: int| 0 <= i < s.len() ==> #[trigger] s[i] != '%',
    ensures
        forall|j: int| 0 <= j < encode_utf8(s).len() ==> #[trigger] encode_utf8(s)[j] != 0x25u8,
    decreases s.len(),
{
    if s.len() > 0 {
        lemma_encode_no_percent(s.drop_first());
        let c = s[0] as u32;
        if c == 0x25 {
            char_u32_cast(s[0], c);
            char_u32_cast('%', c);
            assert(s[0] == '%');
        }
        lemma_scalar_no_percent(c);
        let a = encode_scalar(c);
        let b = encode_utf8(s.drop_first());
        assert(encode_utf8(s) == a + b);
        assert forall|j: int| 0 <= j < encode_utf8(s).len() implies #[trigger] encode_utf8(s)[j] != 0x25u8 by {
            if j < a.len() {
                assert(encode_utf8(s)[j] == a[j]);
            } else {
                assert(encode_utf8(s)[j] == b[j - a.len()]);
            }
        }
    }
}

/// Percent-decoding leaves bytes without `%` unchanged.
proof fn lemma_percent_bytes_plain(b: Seq<u8>)
    requires
        forall|j: int| 0 <= j < b.len() ==> #[trigger] b[j] != 0x25u8,
    ensures
        percent_bytes(b) == b,
    decreases b.len(),
{
    if b.len() > 0 {
        assert(b[0] != 0x25u8);
        lemma_percent_bytes_plain(b.skip(1));
        assert(seq![b[0]] + b.skip(1) == b);
    }
}

/// A link path without `%` decodes to itself.
pub proof fn law_percent_decode_plain(s: Seq<char>)
    requires
        forall|i: int| 0 <= i < s.len() ==> #[trigger] s[i] != '%',
    ensures
        percent_decode_spec(s) == s,
{
    lemma_encode_no_percent(s);
    lemma_percent_bytes_plain(encode_utf8(s));
    encode_utf8_valid_utf8(s);
    encode_utf8_decode_utf8(s);
}

/// What a YAML reader makes of the text between the quotes of a
/// double-quoted scalar that uses the `\\` and `\"` escapes: `None` where a
/// bare `"` would end the scalar early or a `\` is left dangling.
pub open spec fn yaml_quoted_body(t: Seq<char>) -> Option<Seq<char>>
    decreases t.len(),
{
    if t.len() == 0 {
        Some(seq![])
    } else if t[0] == '\\' {
        if t.len() >= 2 && (t[1] == '\\' || t[1] == '"') {
            match yaml_quoted_body(t.skip(2)) {
                Some(r) => Some(seq![t[1]] + r),
                None => None,
            }
        } else {
            None
        }
    } else if t[0] == '"' {
        None
    } else {
        match yaml_quoted_body(t.skip(1)) {
            Some(r) => Some(seq![t[0]] + r),
            None => None,
        }
    }
}

/// Replacing a one-character pattern works character by character.
proof fn lemma_replace_char_step(s: Seq<char>, p: char, rep: Seq<char>)
    requires
        s.len() > 0,
    ensures
        replace_all(s, seq![p], rep) == (if s[0] == p {
            rep
        } else {
            seq![s[0]]
        }) + replace_all(s.skip(1), seq![p], rep),
{
    if s[0] == p {
        assert(s.take(1) == seq![p]);
    } else {
        assert(s.take(1) != seq![p]) by {
            assert(s.take(1)[0] == s[0]);
        }
    }
}

/// Replacing a one-character pattern distributes over concatenation.
proof fn lemma_replace_char_concat(a: Seq<char>, b: Seq<char>, p: char, rep: Seq<char>)
    ensures
        replace_all(a + b, seq![p], rep) == replace_all(a, seq![p], rep) + replace_all(b, seq![p], rep),
    decreases a.len(),
{
    if a.len() == 0 {
        assert(a + b == b);
        assert(replace_all(a, seq![p], rep) == Seq::<char>::empty());
    } else {
        lemma_replace_char_step(a + b, p, rep);
        lemma_replace_char_step(a, p, rep);
        assert((a + b).skip(1) == a.skip(1) + b);
        assert((a + b)[0] == a[0]);
        lemma_replace_char_concat(a.skip(1), b, p, rep);
    }
}

/// Escaping works character by character: a backslash becomes `\\`, a
/// quote `\"`, any other character stays.
proof fn lemma_escape_step(s: Seq<char>)
    requires
        s.len() > 0,
    ensures
        escape_yaml_spec(s) == (if s[0] == '\\' {
            seq!['\\', '\\']
        } else if s[0] == '"' {
            seq!['\\', '"']
        } else {
            seq![s[0]]
        }) + escape_yaml_spec(s.skip(1)),
{
    reveal_strlit("\\");
    reveal_strlit("\\\\");
    reveal_strlit("\"");
    reveal_strlit("\\\"");
    let c = s[0];
    let bs = seq!['\\'];
    let bb = seq!['\\', '\\'];
    let q = seq!['"'];
    let bq = seq!['\\', '"'];
    assert("\\"@ == bs);
    assert("\\\\"@ == bb);
    assert("\""@ == q);
    assert("\\\""@ == bq);
    lemma_replace_char_step(s, '\\', bb);
    let first = if c == '\\' {
        bb
    } else {
        seq![c]
    };
    let rest1 = replace_all(s.skip(1), bs, bb);
    assert(replace_all(s, bs, bb) == first + rest1);
    lemma_replace_char_concat(first, rest1, '"', bq);
    assert(escape_yaml_spec(s) == replace_all(first, q, bq) + replace_all(rest1, q, bq));
    assert(escape_yaml_spec(s.skip(1)) == replace_all(rest1, q, bq));
    let empty = Seq::<char>::empty();
    assert(replace_all(empty, q, bq) == empty);
    lemma_replace_char_step(first, '"', bq);
    if c == '\\' {
        lemma_replace_char_step(first.skip(1), '"', bq);
        assert(first.skip(1).skip(1) == empty);
        assert(replace_all(first, q, bq) == bb);
    } else {
        assert(first.skip(1) == empty);
    }
}

/// A YAML reader gets back exactly the text that was escaped: the title and
/// tags written into the frontmatter read back unchanged.
pub proof fn law_yaml_escape_roundtrip(s: Seq<char>)
    ensures
        yaml_quoted_body(escape_yaml_spec(s)) == Some(s),
    decreases s.len(),
{
    if s.len() == 0 {
        reveal_strlit("\\");
        reveal_strlit("\"");
        assert(replace_all(s, "\\"@, "\\\\"@) == s);
        assert(escape_yaml_spec(s) == s);
    } else {
        lemma_escape_step(s);
        law_yaml_escape_roundtrip(s.skip(1));
        let e = escape_yaml_spec(s);
        let tail = escape_yaml_spec(s.skip(1));
        let c = s[0];
        if c == '\\' || c == '"' {
            assert(e.skip(2) == tail);
        } else {
            assert(e.skip(1) == tail);
        }
        assert(seq![c] + s.skip(1) == s);
    }
}

/// Some link of `s` (found as rewriting finds them) decodes to one of `names`.
pub open spec fn names_a_link(s: Seq<char>, names: Seq<Seq<char>>) -> bool
    decreases s.len(),
{
    if s.len() == 0 {
        false
    } else if 0 < embed_len(s) <= s.len() {
        names.contains(percent_decode_spec(s.subrange(embed_close(s) + 2, embed_path_end(s))))
            || names_a_link(s.skip(embed_len(s) as int), names)
    } else {
        names_a_link(s.skip(1), names)
    }
}

/// Rewriting leaves text alone where no link names an attachment: external
/// URLs and links to other files are kept as they stand.
pub proof fn law_rewrite_keeps_other_links(s: Seq<char>, prefix: Seq<char>, names: Seq<Seq<char>>)
    requires
        !names_a_link(s, names),
    ensures
        rewrite_embeds(s, prefix, names) == s,
    decreases s.len(),
{
    if s.len() > 0 {
        if 0 < embed_len(s) <= s.len() {
            let e = embed_len(s) as int;
            law_rewrite_keeps_other_links(s.skip(e), prefix, names);
            assert(s.take(e) + s.skip(e) == s);
        } else {
            law_rewrite_keeps_other_links(s.skip(1), prefix, names);
            assert(seq![s[0]] + s.skip(1) == s);
        }
    }
}

/// Reads a double-quoted YAML scalar from just after its opening quote: the
/// text it stands for and the index of its closing quote, or `None` where
/// no quote closes it.
pub open spec fn scan_quoted(s: Seq<char>) -> Option<(Seq<char>, int)>
    decreases s.len(),
{
    if s.len() == 0 {
        None
    } else if s[0] == '"' {
        Some((seq![], 0))
    } else if s[0] == '\\' {
        if s.len() >= 2 {
            match scan_quoted(s.skip(2)) {
                Some((b, k)) => Some((seq![s[1]] + b, k + 2)),
                None => None,
            }
        } else {
            None
        }
    } else {
        match scan_quoted(s.skip(1)) {
            Some((b, k)) => Some((seq![s[0]] + b, k + 1)),
            None => None,
        }
    }
}

/// Reads the items of a non-empty YAML flow list body, `"a", "b"`: quoted
/// scalars separated by `, `.
pub open spec fn read_items(s: Seq<char>) -> Option<Seq<Seq<char>>>
    decreases s.len(),
{
    if s.len() == 0 || s[0] != '"' {
        None
    } else {
        match scan_quoted(s.skip(1)) {
            None => None,
            Some((b, k)) => if 0 <= k && k + 2 <= s.len() {
                let rest = s.skip(k + 2);
                if rest.len() == 0 {
                    Some(seq![b])
                } else if rest.len() >= 2 && rest[0] == ',' && rest[1] == ' ' {
                    match read_items(rest.skip(2)) {
                        Some(l) => Some(seq![b] + l),
                        None => None,
                    }
                } else {
                    None
                }
            } else {
                None
            },
        }
    }
}

/// Reads the body of a YAML flow list of quoted scalars (between `[` and `]`).
pub open spec fn read_list(s: Seq<char>) -> Option<Seq<Seq<char>>> {
    if s.len() == 0 {
        Some(seq![])
    } else {
        read_items(s)
    }
}

/// An escaped text followed by a quote reads back as the text, the quote
/// closing it.
proof fn lemma_scan_escaped(t: Seq<char>, r: Seq<char>)
    ensures
        scan_quoted(escape_yaml_spec(t) + seq!['"'] + r) == Some((t, escape_yaml_spec(t).len() as int)),
    decreases t.len(),
{
    let e = escape_yaml_spec(t);
    let s = e + seq!['"'] + r;
    if t.len() == 0 {
        reveal_strlit("\\");
        reveal_strlit("\\\\");
        assert(replace_all(t, "\\"@, "\\\\"@) == t);
        assert(e == t);
        assert(s[0] == '"');
    } else {
        lemma_escape_step(t);
        let t1 = t.skip(1);
        let e1 = escape_yaml_spec(t1);
        lemma_scan_escaped(t1, r);
        assert(seq![t[0]] + t1 == t);
        if t[0] == '\\' || t[0] == '"' {
            assert(s[0] == '\\');
            assert(s[1] == t[0]);
            assert(s.skip(2) == e1 + seq!['"'] + r);
        } else {
            assert(s[0] == t[0]);
            assert(s.skip(1) == e1 + seq!['"'] + r);
        }
    }
}

/// A list of one or more tags is its first quoted tag, then `, ` and the
/// list of the others when there are any.
proof fn lemma_tag_list_front(tags: Seq<Seq<char>>)
    requires
        tags.len() > 0,
    ensures
        tag_list(tags) == if tags.len() == 1 {
            quoted_tag(tags[0])
        } else {
            quoted_tag(tags[0]) + ", "@ + tag_list(tags.skip(1))
        },
    decreases tags.len(),
{
    if tags.len() >= 2 {
        let dl = tags.drop_last();
        let s1 = tags.skip(1);
        let sep = ", "@;
        assert(s1.last() == tags.last());
        assert(dl[0] == tags[0]);
        assert(tag_list(tags) == tag_list(dl) + sep + quoted_tag(tags.last()));
        if dl.len() == 1 {
            assert(s1.len() == 1);
            assert(s1[0] == tags.last());
            assert(tag_list(dl) == quoted_tag(tags[0]));
            assert(tag_list(s1) == quoted_tag(tags.last()));
        } else {
            lemma_tag_list_front(dl);
            let a = quoted_tag(tags[0]);
            let mid = tag_list(dl.skip(1));
            let z = quoted_tag(tags.last());
            assert(s1.drop_last() == dl.skip(1));
            assert(tag_list(s1) == mid + sep + z);
            assert(tag_list(dl) == a + sep + mid);
            assert((a + sep + mid) + sep + z == a + sep + (mid + sep + z));
        }
    }
}

/// The frontmatter's tag list reads back as the tags it was made of, one
/// item per tag, in order.
pub proof fn law_tag_list_reads_back(tags: Seq<Seq<char>>)
    ensures
        read_list(tag_list(tags)) == Some(tags),
    decreases tags.len(),
{
    reveal_strlit("\"");
    reveal_strlit(", ");
    if tags.len() == 0 {
        assert(tags == Seq::<Seq<char>>::empty());
    } else {
        lemma_tag_list_front(tags);
        let t0 = tags[0];
        let e0 = escape_yaml_spec(t0);
        let rr: Seq<char> = if tags.len() == 1 {
            seq![]
        } else {
            ", "@ + tag_list(tags.skip(1))
        };
        let s = tag_list(tags);
        assert(s == seq!['"'] + (e0 + seq!['"'] + rr));
        assert(s.skip(1) == e0 + seq!['"'] + rr);
        lemma_scan_escaped(t0, rr);
        assert(s.skip(e0.len() + 2 as int) == rr);
        if tags.len() == 1 {
            assert(seq![t0] == tags);
        } else {
            let s1 = tags.skip(1);
            law_tag_list_reads_back(s1);
            lemma_tag_list_front(s1);
            assert(rr.skip(2) == tag_list(s1));
            assert(tag_list(s1).len() > 0);
            assert(seq![t0] + s1 == tags);
        }
    }
}

/// The frontmatter's `tags:` line, right after the `id:` and `title:` lines,
/// lists every tag of the note: its bracketed body reads back as the tags.
pub proof fn law_frontmatter_lists_every_tag(n: NoteView, created: Seq<char>, modified: Seq<char>)
    ensures
        ({
            let head = "---\n"@ + "id: \""@ + n.id + "\"\n"@ + "title: \""@ + escape_yaml_spec(n.title)
                + "\"\n"@;
            exists|l: Seq<char>|
                read_list(l) == Some(n.tags) && has_prefix(
                    frontmatter_text(n, created, modified).skip(head.len() as int),
                    "tags: ["@ + l + "]\n"@,
                )
        }),
{
    let head = "---\n"@ + "id: \""@ + n.id + "\"\n"@ + "title: \""@ + escape_yaml_spec(n.title) + "\"\n"@;
    let l = tag_list(n.tags);
    law_tag_list_reads_back(n.tags);
    let line = "tags: ["@ + l + "]\n"@;
    let fm = frontmatter_text(n, created, modified);
    let tail = "created: \""@ + created + "\"\n"@ + "modified: \""@ + modified + "\"\n"@ + (if n.is_pinned {
        "pinned: true\n"@
    } else {
        Seq::<char>::empty()
    }) + "---\n\n"@;
    assert(fm == head + line + tail);
    assert(fm.skip(head.len() as int) == line + tail);
    assert((line + tail).take(line.len() as int) == line);
}

/// Every rendered file is non-empty and ends with a newline.
pub proof fn law_render_ends_with_newline(
    n: NoteView,
    frontmatter: bool,
    mode: AttachmentMode,
    assets_subdir: Option<Seq<char>>,
)
    ensures
        render_spec(n, frontmatter, mode, assets_subdir).len() > 0,
        render_spec(n, frontmatter, mode, assets_subdir).last() == '\n',
{
}

/// With frontmatter, a rendered file starts with the `---` line that opens it.
pub proof fn law_render_opens_frontmatter(
    n: NoteView,
    mode: AttachmentMode,
    assets_subdir: Option<Seq<char>>,
)
    ensures
        has_prefix(render_spec(n, true, mode, assets_subdir), "---\n"@),
{
    let body = process_attachments_spec(strip_title_heading_spec(n.text, n.title), mode, n, assets_subdir);
    let whole = frontmatter_spec(n) + body;
    let p = "---\n"@;
    assert(frontmatter_spec(n).take(p.len() as int) == p);
    assert(whole.take(p.len() as int) == p);
    assert(ensure_newline(whole).take(p.len() as int) == p);
}

/// The body kept after the title heading is the end of the note's text.
pub proof fn law_strip_title_heading_suffix(text: Seq<char>, title: Seq<char>)
    ensures
        exists|k: int| 0 <= k <= text.len() && strip_title_heading_spec(text, title) == text.skip(k),
{
    let r = strip_title_heading_spec(text, title);
    let w = ws_prefix_len(text) as int;
    lemma_ws_prefix_bound(text);
    let trimmed = trim_start(text);
    if r == text {
        assert(text.skip(0) == text);
    } else {
        let rest = trimmed.skip(2);
        let line_end = find_char(rest, '\n') as int;
        lemma_find_char_bound(rest, '\n');
        let after = rest.skip(line_end);
        assert(rest == text.skip(w + 2));
        assert(after == text.skip(w + 2 + line_end));
        if after.len() > 0 && after[0] == '\n' {
            assert(after.skip(1) == text.skip(w + 2 + line_end + 1));
        }
    }
}

/// Renders a note as a markdown file: frontmatter (when asked), the body
/// without its title heading and with attachments handled per `mode`, and
/// a final newline.
pub fn render(
    note: &BearNote,
    frontmatter: bool,
    attachment_mode: &AttachmentMode,
    assets_subdir: Option<&str>,
) -> (r: String)
    requires
        render_defined(note@, *attachment_mode, opt_view(assets_subdir)),
    ensures
        r@ == render_spec(note@, frontmatter, *attachment_mode, opt_view(assets_subdir)),
{
    let mut out = String::new();
    if frontmatter {
        write_frontmatter(&mut out, note);
    }
    let body = strip_title_heading(note.text.as_str(), note.title.as_str());
    let body = process_attachments(body.as_str(), attachment_mode, note, assets_subdir);
    out.append(body.as_str());
    if !ends_with_newline(&out) {
        out.push('\n');
    }
    out
}

/// Whether `render` is defined for these arguments (see `render_defined`).
pub fn render_ready(note: &BearNote, attachment_mode: &AttachmentMode, assets_subdir: Option<&str>) -> (b: bool)
    ensures
        b == render_defined(note@, *attachment_mode, opt_view(assets_subdir)),
{
    if !(*attachment_mode == AttachmentMode::Copy && note.attachments.len() > 0) {
        return true;
    }
    if assets_subdir.is_none() && !can_cut(note.id.as_str(), 8) {
        return false;
    }
    let body = strip_title_heading(note.text.as_str(), note.title.as_str());
    links_decodable(body.as_str())
}

} // verus!
