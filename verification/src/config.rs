//! Configuration: defaults, environment overrides, `~` expansion, validation
//! and the text of the default configuration file.
use vstd::prelude::*;

use crate::errors::DenoteError;
use crate::db::models::string_views;
use crate::text::{
    chars_of, decimal, digit_char, join_path, lemma_decimal_len, path_join, split_by, split_str, str_eq,
    trim, trim_str,
};

verus! {

/// What to do with attachment references in exported markdown.
#[derive(Debug, Clone, Copy, PartialEq, Eq, Structural)]
pub enum AttachmentMode {
    Ignore,
    Placeholder,
    Copy,
}

impl Default for AttachmentMode {
    fn default() -> (r: Self)
        ensures
            r == AttachmentMode::Placeholder,
    {
        AttachmentMode::Placeholder
    }
}

/// How exported files are named.
#[derive(Debug, Clone, Copy, PartialEq, Eq, Structural)]
pub enum FilenameStrategy {
    Title,
    Uuid,
    TitleUuid,
}

impl Default for FilenameStrategy {
    fn default() -> (r: Self)
        ensures
            r == FilenameStrategy::TitleUuid,
    {
        FilenameStrategy::TitleUuid
    }
}

/// Settings of the markdown export.
#[derive(Debug, Clone, Copy, PartialEq, Eq, Structural)]
pub struct ExportConfig {
    pub frontmatter: bool,
    pub attachment_mode: AttachmentMode,
    pub filename_strategy: FilenameStrategy,
}

impl Default for ExportConfig {
    fn default() -> (r: Self)
        ensures
            r == (ExportConfig {
                frontmatter: true,
                attachment_mode: AttachmentMode::Placeholder,
                filename_strategy: FilenameStrategy::TitleUuid,
            }),
    {
        ExportConfig {
            frontmatter: true,
            attachment_mode: AttachmentMode::default(),
            filename_strategy: FilenameStrategy::default(),
        }
    }
}

/// Where `HOME` is unset, the home directory that paths are built on.
pub open spec fn home_or_default(home: Option<Seq<char>>) -> Seq<char> {
    match home {
        Some(h) => h,
        None => "/Users/unknown"@,
    }
}

/// The home directory: the value of `HOME`, or `/Users/unknown` without one.
pub fn home_dir(home_var: Option<String>) -> (r: String)
    ensures
        r@ == home_or_default(match home_var { Some(h) => Some(h@), None => None }),
{
    match home_var {
        Some(h) => h,
        None => "/Users/unknown".to_owned(),
    }
}

/// Bear's database below a home directory.
pub open spec fn default_bear_db_spec(home: Seq<char>) -> Seq<char> {
    path_join(
        home,
        "Library/Group Containers/9K33E3U3T4.net.shinyfrog.bear/Application Data/database.sqlite"@,
    )
}

/// The default location of Bear's database, below the home directory.
pub fn default_bear_db(home: &str) -> (r: String)
    ensures
        r@ == default_bear_db_spec(home@),
{
    join_path(
        home,
        "Library/Group Containers/9K33E3U3T4.net.shinyfrog.bear/Application Data/database.sqlite",
    )
}

/// The default git remote.
pub fn default_remote() -> (r: String)
    ensures
        r@ == "origin"@,
{
    "origin".to_owned()
}

/// The default branch.
pub fn default_branch() -> (r: String)
    ensures
        r@ == "main"@,
{
    "main".to_owned()
}

/// Pushing after each commit is on by default.
pub fn default_push_on_sync() -> (r: bool)
    ensures
        r,
{
    true
}

/// The default debounce delay, in seconds.
pub fn default_debounce_secs() -> (r: u64)
    ensures
        r == 5,
{
    5
}

/// The default commit message template.
pub fn default_commit_template() -> (r: String)
    ensures
        r@ == "denote: synced {count} notes"@,
{
    "denote: synced {count} notes".to_owned()
}

/// The default export settings.
pub fn default_export_config() -> (r: ExportConfig)
    ensures
        r == (ExportConfig {
            frontmatter: true,
            attachment_mode: AttachmentMode::Placeholder,
            filename_strategy: FilenameStrategy::TitleUuid,
        }),
{
    ExportConfig::default()
}

/// `true`, the default of `frontmatter`.
pub fn default_true() -> (r: bool)
    ensures
        r,
{
    true
}

/// The whole configuration.
#[derive(Debug)]
pub struct DenoteConfig {
    pub bear_db: String,
    pub repo_path: String,
    pub remote: String,
    pub branch: String,
    pub push_on_sync: bool,
    pub debounce_secs: u64,
    pub exclude_tags: Vec<String>,
    pub include_trashed: bool,
    pub include_archived: bool,
    pub commit_template: String,
    pub export: ExportConfig,
}

/// The values of the `DENOTE_*` environment variables that are set: each
/// field holds the variable of the same name (`DENOTE_EXPORT__...` for the
/// `export_` ones).
#[derive(Debug)]
pub struct EnvOverrides {
    pub bear_db: Option<String>,
    pub repo_path: Option<String>,
    pub remote: Option<String>,
    pub branch: Option<String>,
    pub push_on_sync: Option<String>,
    pub debounce_secs: Option<String>,
    pub exclude_tags: Option<String>,
    pub include_trashed: Option<String>,
    pub include_archived: Option<String>,
    pub commit_template: Option<String>,
    pub export_frontmatter: Option<String>,
    pub export_attachment_mode: Option<String>,
    pub export_filename_strategy: Option<String>,
}

/// `bool::from_str`: exactly `true` or `false`.
pub open spec fn parse_bool_spec(s: Seq<char>) -> Option<bool> {
    if s == "true"@ {
        Some(true)
    } else if s == "false"@ {
        Some(false)
    } else {
        None
    }
}

/// Value of a decimal digit character.
pub open spec fn digit_value(c: char) -> nat {
    ((c as u32) - ('0' as u32)) as nat
}

/// Value of a string of decimal digits.
pub open spec fn digits_value(d: Seq<char>) -> nat
    decreases d.len(),
{
    if d.len() == 0 {
        0
    } else {
        digits_value(d.drop_last()) * 10 + digit_value(d.last())
    }
}

/// Every character is an ASCII digit.
pub open spec fn all_digits(d: Seq<char>) -> bool {
    forall|i: int| 0 <= i < d.len() ==> '0' <= #[trigger] d[i] <= '9'
}

/// `u64::from_str`: an optional `+`, then at least one decimal digit, and a
/// value that fits.
pub open spec fn parse_u64_spec(s: Seq<char>) -> Option<u64> {
    let d = if s.len() > 0 && s[0] == '+' {
        s.skip(1)
    } else {
        s
    };
    if d.len() > 0 && all_digits(d) && digits_value(d) <= u64::MAX {
        Some(digits_value(d) as u64)
    } else {
        None
    }
}

/// Appending a digit never makes the value smaller.
proof fn lemma_digits_value_prefix(d: Seq<char>, k: int)
    requires
        0 <= k <= d.len(),
    ensures
        digits_value(d.take(k)) <= digits_value(d),
    decreases d.len() - k,
{
    if k < d.len() {
        lemma_digits_value_prefix(d, k + 1);
        assert(d.take(k + 1).drop_last() == d.take(k));
    } else {
        assert(d.take(k) == d);
    }
}

/// A digit's character has the digit's value.
proof fn lemma_digit_char_value(d: nat)
    requires
        d < 10,
    ensures
        '0' <= digit_char(d) <= '9',
        digit_value(digit_char(d)) == d,
{
}

/// The decimal digits of a number are digits, and read back as the number.
proof fn lemma_decimal_value(n: nat)
    ensures
        all_digits(decimal(n)),
        digits_value(decimal(n)) == n,
    decreases n,
{
    let s = decimal(n);
    if n < 10 {
        lemma_digit_char_value(n);
        assert(s.drop_last() == Seq::<char>::empty());
        assert(s.last() == digit_char(n));
        assert(digits_value(s) == digits_value(s.drop_last()) * 10 + digit_value(s.last()));
        assert(digits_value(Seq::<char>::empty()) == 0);
    } else {
        lemma_decimal_value(n / 10);
        lemma_digit_char_value(n % 10);
        assert(s.drop_last() == decimal(n / 10));
        assert(s.last() == digit_char(n % 10));
        assert forall|i: int| 0 <= i < s.len() implies '0' <= #[trigger] s[i] <= '9' by {
            if i < s.len() - 1 {
                assert(s[i] == decimal(n / 10)[i]);
            }
        }
        assert(digits_value(s) == digits_value(s.drop_last()) * 10 + digit_value(s.last()));
        assert((n / 10) * 10 + n % 10 == n) by (nonlinear_arith);
    }
}

/// A boolean override that reads `true` or `false` sets the setting to that
/// value, whatever it was; any other text leaves the setting as it was.
pub proof fn law_bool_override_sets_value(v: Option<String>, cur: bool)
    ensures
        v matches Some(s) && s@ == "true"@ ==> override_bool(v, cur) == true,
        v matches Some(s) && s@ == "false"@ ==> override_bool(v, cur) == false,
        v matches Some(s) && s@ != "true"@ && s@ != "false"@ ==> override_bool(v, cur) == cur,
        v is None ==> override_bool(v, cur) == cur,
{
    reveal_strlit("true");
    reveal_strlit("false");
    assert("true"@ != "false"@) by {
        assert("true"@.len() != "false"@.len());
    }
}

/// In a loaded configuration, each boolean variable that reads `true` or
/// `false` decides its setting, whatever the file said.
pub proof fn law_loaded_bool_overrides(r: DenoteConfig, c: DenoteConfig, env: EnvOverrides, home: Seq<char>)
    requires
        finished_from(r, c, env, home),
    ensures
        env.push_on_sync matches Some(s) ==> (s@ == "true"@ || s@ == "false"@ ==> r.push_on_sync == (s@
            == "true"@)),
        env.include_trashed matches Some(s) ==> (s@ == "true"@ || s@ == "false"@ ==> r.include_trashed
            == (s@ == "true"@)),
        env.include_archived matches Some(s) ==> (s@ == "true"@ || s@ == "false"@ ==> r.include_archived
            == (s@ == "true"@)),
        env.export_frontmatter matches Some(s) ==> (s@ == "true"@ || s@ == "false"@
            ==> r.export.frontmatter == (s@ == "true"@)),
{
    law_bool_override_sets_value(env.push_on_sync, c.push_on_sync);
    law_bool_override_sets_value(env.include_trashed, c.include_trashed);
    law_bool_override_sets_value(env.include_archived, c.include_archived);
    law_bool_override_sets_value(env.export_frontmatter, c.export.frontmatter);
}

/// A number written out in decimal parses back to itself, so a numeric
/// override given as the digits of `n` sets the setting to `n`.
pub proof fn law_number_override_roundtrip(n: u64, v: Option<String>, cur: u64)
    requires
        v matches Some(s) && s@ == decimal(n as nat),
    ensures
        parse_u64_spec(decimal(n as nat)) == Some(n),
        override_u64(v, cur) == n,
{
    lemma_decimal_value(n as nat);
    lemma_decimal_len(n as nat);
    let d = decimal(n as nat);
    assert('0' <= d[0] <= '9');
}

/// With no `DENOTE_*` variable set, loading changes nothing but the `~/` of
/// the two paths.
pub proof fn law_no_overrides_keep_settings(r: DenoteConfig, c: DenoteConfig, env: EnvOverrides, home: Seq<char>)
    requires
        env.bear_db is None,
        env.repo_path is None,
        env.remote is None,
        env.branch is None,
        env.push_on_sync is None,
        env.debounce_secs is None,
        env.exclude_tags is None,
        env.include_trashed is None,
        env.include_archived is None,
        env.commit_template is None,
        env.export_frontmatter is None,
        env.export_attachment_mode is None,
        env.export_filename_strategy is None,
        finished_from(r, c, env, home),
    ensures
        r.bear_db@ == expand_tilde_spec(c.bear_db@, home),
        r.repo_path@ == expand_tilde_spec(c.repo_path@, home),
        r.remote@ == c.remote@,
        r.branch@ == c.branch@,
        r.push_on_sync == c.push_on_sync,
        r.debounce_secs == c.debounce_secs,
        string_views(r.exclude_tags@) == string_views(c.exclude_tags@),
        r.include_trashed == c.include_trashed,
        r.include_archived == c.include_archived,
        r.commit_template@ == c.commit_template@,
        r.export == c.export,
{
}

/// Parses a boolean as `str::parse::<bool>` does.
pub fn parse_bool(s: &str) -> (r: Option<bool>)
    ensures
        r == parse_bool_spec(s@),
{
    if str_eq(s, "true") {
        Some(true)
    } else if str_eq(s, "false") {
        Some(false)
    } else {
        None
    }
}

/// Parses an unsigned integer as `str::parse::<u64>` does.
pub fn parse_u64(s: &str) -> (r: Option<u64>)
    ensures
        r == parse_u64_spec(s@),
{
    let cs = chars_of(s);
    let n: usize = cs.len();
    let start: usize = if n > 0 && cs[0] == '+' {
        1
    } else {
        0
    };
    let ghost d = if s@.len() > 0 && s@[0] == '+' {
        s@.skip(1)
    } else {
        s@
    };
    assert(d == cs@.subrange(start as int, n as int));
    if start == n {
        return None;
    }
    let mut val: u64 = 0;
    let mut i: usize = start;
    while i < n
        invariant
            cs@ == s@,
            n == cs.len(),
            d == (if s@.len() > 0 && s@[0] == '+' {
                s@.skip(1)
            } else {
                s@
            }),
            d == cs@.subrange(start as int, n as int),
            start <= i <= n,
            all_digits(cs@.subrange(start as int, i as int)),
            val as nat == digits_value(cs@.subrange(start as int, i as int)),
        decreases n - i,
    {
        let c = cs[i];
        let ghost pre = cs@.subrange(start as int, i as int);
        let ghost next = cs@.subrange(start as int, i + 1);
        assert(next.drop_last() == pre);
        assert(next.last() == c);
        assert(d.take(i + 1 - start) == next);
        if !('0' <= c && c <= '9') {
            assert(!all_digits(d)) by {
                assert(d[i - start] == c);
            }
            return None;
        }
        let dig: u64 = ((c as u32) - ('0' as u32)) as u64;
        assert(dig as nat == digit_value(c));
        assert(digits_value(next) == digits_value(pre) * 10 + digit_value(c));
        match val.checked_mul(10) {
            None => {
                proof {
                    lemma_digits_value_prefix(d, i + 1 - start);
                }
                return None;
            },
            Some(t) => match t.checked_add(dig) {
                None => {
                    proof {
                        lemma_digits_value_prefix(d, i + 1 - start);
                    }
                    return None;
                },
                Some(v) => {
                    val = v;
                },
            },
        }
        i += 1;
    }
    Some(val)
}

/// An overridden string setting.
pub open spec fn override_str(v: Option<String>, cur: Seq<char>) -> Seq<char> {
    match v {
        Some(s) => s@,
        None => cur,
    }
}

/// An overridden boolean setting: kept unless the variable parses.
pub open spec fn override_bool(v: Option<String>, cur: bool) -> bool {
    match v {
        Some(s) => match parse_bool_spec(s@) {
            Some(b) => b,
            None => cur,
        },
        None => cur,
    }
}

/// An overridden number setting: kept unless the variable parses.
pub open spec fn override_u64(v: Option<String>, cur: u64) -> u64 {
    match v {
        Some(s) => match parse_u64_spec(s@) {
            Some(n) => n,
            None => cur,
        },
        None => cur,
    }
}

/// An overridden attachment mode: `ignore`, `placeholder` or `copy`.
pub open spec fn override_mode(v: Option<String>, cur: AttachmentMode) -> AttachmentMode {
    match v {
        Some(s) => if s@ == "ignore"@ {
            AttachmentMode::Ignore
        } else if s@ == "placeholder"@ {
            AttachmentMode::Placeholder
        } else if s@ == "copy"@ {
            AttachmentMode::Copy
        } else {
            cur
        },
        None => cur,
    }
}

/// An overridden filename strategy: `title`, `uuid` or `title-uuid`.
pub open spec fn override_strategy(v: Option<String>, cur: FilenameStrategy) -> FilenameStrategy {
    match v {
        Some(s) => if s@ == "title"@ {
            FilenameStrategy::Title
        } else if s@ == "uuid"@ {
            FilenameStrategy::Uuid
        } else if s@ == "title-uuid"@ {
            FilenameStrategy::TitleUuid
        } else {
            cur
        },
        None => cur,
    }
}

/// The tags of an exclusion list: its comma-separated parts, each trimmed,
/// the empty ones dropped.
pub open spec fn tags_from_parts(parts: Seq<Seq<char>>) -> Seq<Seq<char>>
    decreases parts.len(),
{
    if parts.len() == 0 {
        seq![]
    } else if trim(parts.last()).len() == 0 {
        tags_from_parts(parts.drop_last())
    } else {
        tags_from_parts(parts.drop_last()).push(trim(parts.last()))
    }
}

/// The tags that a `DENOTE_EXCLUDE_TAGS` value lists, such as `private, scratch`.
pub open spec fn tag_list_spec(s: Seq<char>) -> Seq<Seq<char>> {
    tags_from_parts(split_by(s, ","@))
}

/// An overridden list of excluded tags.
pub open spec fn override_tags(v: Option<String>, cur: Seq<Seq<char>>) -> Seq<Seq<char>> {
    match v {
        Some(s) => tag_list_spec(s@),
        None => cur,
    }
}

/// Reads a comma-separated list of tags: each part trimmed, empty parts dropped.
pub fn parse_tag_list(s: &str) -> (r: Vec<String>)
    ensures
        string_views(r@) == tag_list_spec(s@),
{
    proof {
        reveal_strlit(",");
    }
    let parts = split_str(s, ",");
    let ghost ps = parts@.map_values(|p: String| p@);
    let mut r: Vec<String> = Vec::new();
    let mut i: usize = 0;
    while i < parts.len()
        invariant
            i <= parts.len(),
            ps == parts@.map_values(|p: String| p@),
            ps == split_by(s@, ","@),
            string_views(r@) == tags_from_parts(ps.take(i as int)),
        decreases parts.len() - i,
    {
        assert(ps.take(i + 1).drop_last() == ps.take(i as int));
        assert(ps.take(i + 1).last() == parts@[i as int]@);
        let t = trim_str(parts[i].as_str());
        if !t.as_str().is_empty() {
            let ghost before = r@;
            r.push(t);
            assert(string_views(r@) == string_views(before).push(t@));
        }
        i += 1;
    }
    assert(ps.take(parts.len() as int) == ps);
    r
}

/// `~/rest` becomes `rest` below the home directory; other paths stay.
pub open spec fn expand_tilde_spec(path: Seq<char>, home: Seq<char>) -> Seq<char> {
    if path.len() >= 2 && path[0] == '~' && path[1] == '/' {
        path_join(home, path.skip(2))
    } else {
        path
    }
}

/// `r` is `c` with the environment overrides applied and both paths expanded.
pub open spec fn finished_from(r: DenoteConfig, c: DenoteConfig, env: EnvOverrides, home: Seq<char>) -> bool {
    &&& r.bear_db@ == expand_tilde_spec(override_str(env.bear_db, c.bear_db@), home)
    &&& r.repo_path@ == expand_tilde_spec(override_str(env.repo_path, c.repo_path@), home)
    &&& r.remote@ == override_str(env.remote, c.remote@)
    &&& r.branch@ == override_str(env.branch, c.branch@)
    &&& r.push_on_sync == override_bool(env.push_on_sync, c.push_on_sync)
    &&& r.debounce_secs == override_u64(env.debounce_secs, c.debounce_secs)
    &&& string_views(r.exclude_tags@) == override_tags(env.exclude_tags, string_views(c.exclude_tags@))
    &&& r.include_trashed == override_bool(env.include_trashed, c.include_trashed)
    &&& r.include_archived == override_bool(env.include_archived, c.include_archived)
    &&& r.commit_template@ == override_str(env.commit_template, c.commit_template@)
    &&& r.export.frontmatter == override_bool(env.export_frontmatter, c.export.frontmatter)
    &&& r.export.attachment_mode == override_mode(env.export_attachment_mode, c.export.attachment_mode)
    &&& r.export.filename_strategy == override_strategy(
        env.export_filename_strategy,
        c.export.filename_strategy,
    )
}

/// A configuration file as the loader found it.
#[derive(Debug)]
pub enum ConfigSource {
    /// There is no file at the path.
    Missing,
    /// The file could not be read; the reason.
    Unreadable(String),
    /// The file is not a valid configuration; the reason.
    Invalid(String),
    /// The settings the file holds, defaults filled in.
    Parsed(DenoteConfig),
}

/// Overrides a string setting in place.
fn apply_str(v: &Option<String>, cur: &mut String)
    ensures
        final(cur)@ == override_str(*v, old(cur)@),
{
    if let Some(s) = v {
        *cur = s.clone();
    }
}

/// Overrides the excluded tags in place.
fn apply_tags(v: &Option<String>, cur: &mut Vec<String>)
    ensures
        string_views(final(cur)@) == override_tags(*v, string_views(old(cur)@)),
        v is None ==> *final(cur) == *old(cur),
{
    if let Some(s) = v {
        *cur = parse_tag_list(s.as_str());
    }
}

/// Overrides a boolean setting in place.
fn apply_bool(v: &Option<String>, cur: &mut bool)
    ensures
        *final(cur) == override_bool(*v, *old(cur)),
{
    if let Some(s) = v {
        if let Some(b) = parse_bool(s.as_str()) {
            *cur = b;
        }
    }
}

/// `~` expansion of a path (see `expand_tilde_spec`).
fn expand_tilde(path: &str, home: &str) -> (r: String)
    ensures
        r@ == expand_tilde_spec(path@, home@),
{
    let cs = chars_of(path);
    if cs.len() >= 2 && cs[0] == '~' && cs[1] == '/' {
        let mut rest = String::new();
        crate::text::push_range(&mut rest, &cs, 2, cs.len());
        assert(rest@ == path@.skip(2));
        join_path(home, rest.as_str())
    } else {
        path.to_owned()
    }
}

/// `~/rest` → `rest` below the home directory; other paths unchanged.
pub fn expand_tilde_pub(path: &str, home: &str) -> (r: String)
    ensures
        r@ == expand_tilde_spec(path@, home@),
{
    expand_tilde(path, home)
}

/// The configuration file: the given path, or `.config/denote/config.toml`
/// below the home directory.
pub open spec fn config_path_spec(path: Option<Seq<char>>, home: Seq<char>) -> Seq<char> {
    match path {
        Some(p) => p,
        None => path_join(home, ".config/denote/config.toml"@),
    }
}

/// The default configuration file below the home directory.
pub fn default_config_path(home: &str) -> (r: String)
    ensures
        r@ == config_path_spec(None, home@),
{
    join_path(home, ".config/denote/config.toml")
}

/// The configuration file to use.
pub fn config_path(path: Option<&str>, home: &str) -> (r: String)
    ensures
        r@ == config_path_spec(match path { Some(p) => Some(p@), None => None }, home@),
{
    match path {
        Some(p) => p.to_owned(),
        None => default_config_path(home),
    }
}

impl DenoteConfig {
    /// Applies the `DENOTE_*` environment variables. Booleans and numbers
    /// that do not parse, and unknown mode names, leave the setting as it is;
    /// `DENOTE_EXCLUDE_TAGS` is a comma-separated list (see `tag_list_spec`).
    #[verifier::spinoff_prover]
    pub fn apply_env_overrides(&mut self, env: &EnvOverrides)
        ensures
            final(self).bear_db@ == override_str(env.bear_db, old(self).bear_db@),
            final(self).repo_path@ == override_str(env.repo_path, old(self).repo_path@),
            final(self).remote@ == override_str(env.remote, old(self).remote@),
            final(self).branch@ == override_str(env.branch, old(self).branch@),
            final(self).push_on_sync == override_bool(env.push_on_sync, old(self).push_on_sync),
            final(self).debounce_secs == override_u64(env.debounce_secs, old(self).debounce_secs),
            string_views(final(self).exclude_tags@) == override_tags(
                env.exclude_tags,
                string_views(old(self).exclude_tags@),
            ),
            env.exclude_tags is None ==> final(self).exclude_tags == old(self).exclude_tags,
            final(self).include_trashed == override_bool(env.include_trashed, old(self).include_trashed),
            final(self).include_archived == override_bool(
                env.include_archived,
                old(self).include_archived,
            ),
            final(self).commit_template@ == override_str(env.commit_template, old(self).commit_template@),
            final(self).export.frontmatter == override_bool(
                env.export_frontmatter,
                old(self).export.frontmatter,
            ),
            final(self).export.attachment_mode == override_mode(
                env.export_attachment_mode,
                old(self).export.attachment_mode,
            ),
            final(self).export.filename_strategy == override_strategy(
                env.export_filename_strategy,
                old(self).export.filename_strategy,
            ),
    {
        apply_str(&env.bear_db, &mut self.bear_db);
        apply_str(&env.repo_path, &mut self.repo_path);
        apply_str(&env.remote, &mut self.remote);
        apply_str(&env.branch, &mut self.branch);
        apply_bool(&env.push_on_sync, &mut self.push_on_sync);
        if let Some(v) = &env.debounce_secs {
            if let Some(n) = parse_u64(v.as_str()) {
                self.debounce_secs = n;
            }
        }
        apply_tags(&env.exclude_tags, &mut self.exclude_tags);
        apply_bool(&env.include_trashed, &mut self.include_trashed);
        apply_bool(&env.include_archived, &mut self.include_archived);
        apply_str(&env.commit_template, &mut self.commit_template);
        apply_bool(&env.export_frontmatter, &mut self.export.frontmatter);
        if let Some(v) = &env.export_attachment_mode {
            if str_eq(v.as_str(), "ignore") {
                self.export.attachment_mode = AttachmentMode::Ignore;
            } else if str_eq(v.as_str(), "placeholder") {
                self.export.attachment_mode = AttachmentMode::Placeholder;
            } else if str_eq(v.as_str(), "copy") {
                self.export.attachment_mode = AttachmentMode::Copy;
            }
        }
        if let Some(v) = &env.export_filename_strategy {
            if str_eq(v.as_str(), "title") {
                self.export.filename_strategy = FilenameStrategy::Title;
            } else if str_eq(v.as_str(), "uuid") {
                self.export.filename_strategy = FilenameStrategy::Uuid;
            } else if str_eq(v.as_str(), "title-uuid") {
                self.export.filename_strategy = FilenameStrategy::TitleUuid;
            }
        }
    }

    /// Expands `~` in both paths.
    pub fn expand_paths(&mut self, home: &str)
        ensures
            final(self).bear_db@ == expand_tilde_spec(old(self).bear_db@, home@),
            final(self).repo_path@ == expand_tilde_spec(old(self).repo_path@, home@),
            final(self).remote == old(self).remote,
            final(self).branch == old(self).branch,
            final(self).push_on_sync == old(self).push_on_sync,
            final(self).debounce_secs == old(self).debounce_secs,
            final(self).exclude_tags == old(self).exclude_tags,
            final(self).include_trashed == old(self).include_trashed,
            final(self).include_archived == old(self).include_archived,
            final(self).commit_template == old(self).commit_template,
            final(self).export == old(self).export,
    {
        self.bear_db = expand_tilde(self.bear_db.as_str(), home);
        self.repo_path = expand_tilde(self.repo_path.as_str(), home);
    }

    /// The repository path must be set.
    pub fn validate(&self) -> (r: Result<(), DenoteError>)
        ensures
            self.repo_path@.len() == 0 ==> (r matches Err(DenoteError::Config(m)) && m@
                == "repo_path is required"@),
            self.repo_path@.len() > 0 ==> r is Ok,
    {
        if self.repo_path.as_str().is_empty() {
            return Err(DenoteError::Config("repo_path is required".to_owned()));
        }
        Ok(())
    }

    /// Finishes loading: what the configuration file held (or why it could
    /// not be used) becomes the configuration, with environment overrides
    /// applied, `~` expanded and the result validated. `explicit` tells
    /// whether the path was given by the user.
    pub fn load(
        explicit: bool,
        config_path: &str,
        source: ConfigSource,
        env: &EnvOverrides,
        home: &str,
    ) -> (r: Result<DenoteConfig, DenoteError>)
        ensures
            source matches ConfigSource::Missing ==> r matches Err(DenoteError::Config(m)) && m@
                == (if explicit {
                "Config file not found: "@ + config_path@
            } else {
                "No config file found. Run `denote init` to create one."@
            }),
            source matches ConfigSource::Unreadable(e) ==> r matches Err(DenoteError::Config(m))
                && m@ == "Failed to read config at "@ + config_path@ + ": "@ + e@,
            source matches ConfigSource::Invalid(e) ==> r matches Err(DenoteError::Config(m)) && m@
                == "Failed to parse config: "@ + e@,
            source matches ConfigSource::Parsed(c) ==> {
                let repo = expand_tilde_spec(override_str(env.repo_path, c.repo_path@), home@);
                &&& repo.len() == 0 ==> (r matches Err(DenoteError::Config(m)) && m@
                    == "repo_path is required"@)
                &&& repo.len() > 0 ==> (r matches Ok(d) && finished_from(d, c, *env, home@))
            },
    {
        match source {
            ConfigSource::Missing => {
                if explicit {
                    let mut m = "Config file not found: ".to_owned();
                    m.append(config_path);
                    Err(DenoteError::Config(m))
                } else {
                    Err(
                        DenoteError::Config(
                            "No config file found. Run `denote init` to create one.".to_owned(),
                        ),
                    )
                }
            },
            ConfigSource::Unreadable(e) => {
                let mut m = "Failed to read config at ".to_owned();
                m.append(config_path);
                m.append(": ");
                m.append(e.as_str());
                Err(DenoteError::Config(m))
            },
            ConfigSource::Invalid(e) => {
                let mut m = "Failed to parse config: ".to_owned();
                m.append(e.as_str());
                Err(DenoteError::Config(m))
            },
            ConfigSource::Parsed(c) => {
                let mut config = c;
                config.apply_env_overrides(env);
                config.expand_paths(home);
                match config.validate() {
                    Err(e) => Err(e),
                    Ok(()) => Ok(config),
                }
            },
        }
    }
}

/// The text of the default configuration file.
pub open spec fn default_config_text_spec(repo_path: Seq<char>, has_remote: bool) -> Seq<char> {
    "# denote configuration\n\n# Path to Bear's SQLite database.\n# bear_db = \"~/Library/Group Containers/9K33E3U3T4.net.shinyfrog.bear/Application Data/database.sqlite\"\n\n# Local path to the git repository where notes are exported.\nrepo_path = \""@
        + repo_path + "\"\n\n# Git remote name and branch to push to.\n"@ + (if has_remote {
        "remote = \"origin\""@
    } else {
        "# remote = \"origin\""@
    })
        + "\nbranch = \"main\"\n\n# Whether to push after each commit.\npush_on_sync = true\n\n# Seconds to wait after a database change before syncing.\ndebounce_secs = 5\n\n# Tags to exclude from export.\nexclude_tags = []\n\n# Include trashed or archived notes.\ninclude_trashed = false\ninclude_archived = false\n\n# Commit message template. Supports {count} placeholder.\ncommit_template = \"denote: synced {count} notes\"\n\n[export]\nfrontmatter = true\nattachment_mode = \"placeholder\"\nfilename_strategy = \"title-uuid\"\n"@
}

/// The text of the default configuration file for a repository; the remote
/// line is active when a remote was given.
pub fn default_config_text(repo_path: &str, has_remote: bool) -> (r: String)
    ensures
        r@ == default_config_text_spec(repo_path@, has_remote),
{
    let mut out = "# denote configuration\n\n# Path to Bear's SQLite database.\n# bear_db = \"~/Library/Group Containers/9K33E3U3T4.net.shinyfrog.bear/Application Data/database.sqlite\"\n\n# Local path to the git repository where notes are exported.\nrepo_path = \"".to_owned();
    out.append(repo_path);
    out.append("\"\n\n# Git remote name and branch to push to.\n");
    if has_remote {
        out.append("remote = \"origin\"");
    } else {
        out.append("# remote = \"origin\"");
    }
    out.append("\nbranch = \"main\"\n\n# Whether to push after each commit.\npush_on_sync = true\n\n# Seconds to wait after a database change before syncing.\ndebounce_secs = 5\n\n# Tags to exclude from export.\nexclude_tags = []\n\n# Include trashed or archived notes.\ninclude_trashed = false\ninclude_archived = false\n\n# Commit message template. Supports {count} placeholder.\ncommit_template = \"denote: synced {count} notes\"\n\n[export]\nfrontmatter = true\nattachment_mode = \"placeholder\"\nfilename_strategy = \"title-uuid\"\n");
    out
}

/// The default configuration file to write: its path (the given one, or
/// the default below the home directory) and its text.
pub fn default_config_file(path: Option<&str>, home: &str, repo_path: &str, has_remote: bool) -> (r: (
    String,
    String,
))
    ensures
        r.0@ == config_path_spec(match path { Some(p) => Some(p@), None => None }, home@),
        r.1@ == default_config_text_spec(repo_path@, has_remote),
{
    (config_path(path, home), default_config_text(repo_path, has_remote))
}

} // verus!
