//! The manifest: which exported file holds which note, and how new
//! filenames are chosen without colliding with other notes' files.
use vstd::prelude::*;
use vstd::relations::injective_on;
use vstd::set_lib::{lemma_int_range, lemma_len_subset, lemma_map_size, set_int_range};

use crate::config::FilenameStrategy;
use crate::db::models::{BearNote, NoteView};
use crate::text::{
    byte_prefix, byte_prefix_of, cut_ok, decimal, lemma_decimal_injective, lemma_decimal_len,
    push_decimal, str_eq,
};

verus! {

// ---------------------------------------------------------------------
// Outside calls
// ---------------------------------------------------------------------

/// The slug that `slug::slugify` makes of `s`.
pub uninterp spec fn slug_of(s: Seq<char>) -> Seq<char>;

/// `slug::slugify`. Claimed: the result is the named value `slug_of(s)`;
/// as the crate documents, it consists of `a-z`, `0-9` and `-`, never holds
/// two `-` in a row and never starts or ends with `-`; the slug of the
/// empty string is empty.
#[verifier::external_body]
fn slugify(s: &str) -> (r: String)
    ensures
        r@ == slug_of(s@),
        forall|i: int|
            0 <= i < r@.len() ==> ('a' <= #[trigger] r@[i] <= 'z' || '0' <= r@[i] <= '9' || r@[i]
                == '-'),
        forall|i: int| 0 <= i < r@.len() - 1 ==> !(#[trigger] r@[i] == '-' && r@[i + 1] == '-'),
        r@.len() > 0 ==> r@[0] != '-' && r@.last() != '-',
        s@.len() == 0 ==> r@.len() == 0,
{
    slug::slugify(s)
}

/// The string that `str::to_lowercase` makes of `s`.
pub uninterp spec fn lowercase(s: Seq<char>) -> Seq<char>;

/// `str::to_lowercase`. Claimed: the result is the named value `lowercase(s)`.
#[verifier::external_body]
pub(crate) fn to_lowercase(s: &str) -> (r: String)
    ensures
        r@ == lowercase(s@),
{
    s.to_lowercase()
}

// ---------------------------------------------------------------------
// The manifest
// ---------------------------------------------------------------------

/// Note id → exported filename, in the order the entries were made.
#[derive(Debug)]
pub struct Manifest {
    pub entries: Vec<(String, String)>,
}

/// The map that a list of (id, filename) entries describes.
pub open spec fn entries_map(e: Seq<(String, String)>) -> Map<Seq<char>, Seq<char>>
    decreases e.len(),
{
    if e.len() == 0 {
        Map::empty()
    } else {
        entries_map(e.drop_last()).insert(e.last().0@, e.last().1@)
    }
}

/// No id occurs twice.
pub open spec fn keys_distinct(e: Seq<(String, String)>) -> bool {
    forall|i: int, j: int| 0 <= i < j < e.len() ==> e[i].0@ != e[j].0@
}

impl View for Manifest {
    type V = Map<Seq<char>, Seq<char>>;

    open spec fn view(&self) -> Map<Seq<char>, Seq<char>> {
        entries_map(self.entries@)
    }
}

impl Manifest {
    /// Well-formed: each note id has one entry.
    pub open spec fn wf(&self) -> bool {
        keys_distinct(self.entries@)
    }
}

/// An id has an entry exactly when some pair holds it.
pub proof fn lemma_entries_map_dom(e: Seq<(String, String)>, k: Seq<char>)
    ensures
        entries_map(e).contains_key(k) <==> exists|j: int| 0 <= j < e.len() && #[trigger] e[j].0@ == k,
    decreases e.len(),
{
    if e.len() > 0 {
        lemma_entries_map_dom(e.drop_last(), k);
        if entries_map(e.drop_last()).contains_key(k) {
            let j = choose|j: int| 0 <= j < e.drop_last().len() && #[trigger] e.drop_last()[j].0@ == k;
            assert(e[j].0@ == k);
        }
        if exists|j: int| 0 <= j < e.len() && #[trigger] e[j].0@ == k {
            let j = choose|j: int| 0 <= j < e.len() && #[trigger] e[j].0@ == k;
            if j < e.len() - 1 {
                assert(e.drop_last()[j].0@ == k);
            }
        }
    }
}

/// With distinct ids, the value of an id is the filename of its pair.
pub proof fn lemma_entries_map_value(e: Seq<(String, String)>, j: int)
    requires
        keys_distinct(e),
        0 <= j < e.len(),
    ensures
        entries_map(e).contains_key(e[j].0@),
        entries_map(e)[e[j].0@] == e[j].1@,
    decreases e.len(),
{
    if j < e.len() - 1 {
        assert(e.drop_last()[j] == e[j]);
        lemma_entries_map_value(e.drop_last(), j);
        assert(e.last().0@ != e[j].0@);
    }
}

impl Default for Manifest {
    fn default() -> (r: Self)
        ensures
            r.entries@.len() == 0,
            r.wf(),
            r@ == Map::<Seq<char>, Seq<char>>::empty(),
    {
        Manifest { entries: Vec::new() }
    }
}

/// A filename with this number is already used by a note other than `id`.
pub open spec fn name_taken(e: Seq<(String, String)>, id: Seq<char>, name: Seq<char>) -> bool {
    exists|i: int| 0 <= i < e.len() && e[i].0@ != id && #[trigger] e[i].1@ == name
}

/// The filename stem a strategy gives a note, `untitled` when it is empty.
pub open spec fn base_name(n: NoteView, strategy: FilenameStrategy) -> Seq<char> {
    let b = match strategy {
        FilenameStrategy::Title => slug_of(n.title),
        FilenameStrategy::Uuid => n.id,
        FilenameStrategy::TitleUuid => slug_of(n.title) + "-"@ + lowercase(byte_prefix(n.id, 6)),
    };
    if b.len() == 0 {
        "untitled"@
    } else {
        b
    }
}

/// The `k`-th filename tried for a stem: `base.md`, then `base-2.md`, `base-3.md`, ...
pub open spec fn candidate(base: Seq<char>, k: nat) -> Seq<char> {
    if k <= 1 {
        base + ".md"@
    } else {
        base + "-"@ + decimal(k) + ".md"@
    }
}

/// `name` is the first candidate for `base` that no other note uses.
pub open spec fn is_first_free(e: Seq<(String, String)>, id: Seq<char>, base: Seq<char>, name: Seq<
    char,
>) -> bool {
    exists|k: nat|
        #![trigger candidate(base, k)]
        k >= 1 && name == candidate(base, k) && !name_taken(e, id, name) && forall|j: nat|
            1 <= j < k ==> name_taken(e, id, #[trigger] candidate(base, j))
}

/// Generating a filename is defined: for `title-uuid`, the first 6 bytes of
/// the id end on a character boundary.
pub open spec fn filename_defined(n: NoteView, strategy: FilenameStrategy) -> bool {
    strategy == FilenameStrategy::TitleUuid ==> cut_ok(n.id, 6)
}

/// Distinct numbers give distinct candidates.
pub proof fn lemma_candidate_injective(base: Seq<char>, a: nat, b: nat)
    requires
        a >= 1,
        b >= 1,
        candidate(base, a) == candidate(base, b),
    ensures
        a == b,
{
    reveal_strlit("-");
    reveal_strlit(".md");
    lemma_decimal_len(a);
    lemma_decimal_len(b);
    let ca = candidate(base, a);
    if a >= 2 && b >= 2 {
        let lo = base.len() + 1;
        assert(ca.subrange(lo as int, ca.len() - 3) == decimal(a));
        assert(candidate(base, b).subrange(lo as int, candidate(base, b).len() - 3) == decimal(b));
        lemma_decimal_injective(a, b);
    } else if a >= 2 || b >= 2 {
        assert(candidate(base, a).len() != candidate(base, b).len());
    }
}

/// If the first `k` candidates are all taken, there are at least `k` entries.
pub proof fn lemma_taken_bound(e: Seq<(String, String)>, id: Seq<char>, base: Seq<char>, k: nat)
    requires
        forall|j: nat| 1 <= j <= k ==> name_taken(e, id, #[trigger] candidate(base, j)),
    ensures
        k <= e.len(),
{
    let xs = set_int_range(1, k + 1 as int);
    lemma_int_range(1, k + 1 as int);
    let f = |j: int|
        choose|i: int| 0 <= i < e.len() && e[i].0@ != id && #[trigger] e[i].1@ == candidate(
            base,
            j as nat,
        );
    assert forall|j: int| xs.contains(j) implies 0 <= #[trigger] f(j) < e.len() && e[f(j)].1@
        == candidate(base, j as nat) by {
        assert(name_taken(e, id, candidate(base, j as nat)));
    }
    assert(injective_on(f, xs)) by {
        assert forall|a: int, b: int| xs.contains(a) && xs.contains(b) && #[trigger] f(a) == #[trigger] f(
            b,
        ) implies a == b by {
            lemma_candidate_injective(base, a as nat, b as nat);
        }
    }
    let ys = xs.map(f);
    lemma_map_size(xs, ys, f);
    let range = set_int_range(0, e.len() as int);
    lemma_int_range(0, e.len() as int);
    assert(ys.subset_of(range));
    lemma_len_subset(ys, range);
}

impl Manifest {
    /// The filename recorded for a note id, if any.
    pub fn filename_for(&self, uuid: &str) -> (r: Option<&String>)
        requires
            self.wf(),
        ensures
            r matches Some(f) ==> self@.contains_key(uuid@) && f@ == self@[uuid@],
            r is None ==> !self@.contains_key(uuid@),
    {
        let mut i: usize = 0;
        while i < self.entries.len()
            invariant
                self.wf(),
                i <= self.entries.len(),
                forall|j: int| 0 <= j < i ==> (#[trigger] self.entries@[j]).0@ != uuid@,
            decreases self.entries.len() - i,
        {
            if str_eq(self.entries[i].0.as_str(), uuid) {
                proof {
                    lemma_entries_map_value(self.entries@, i as int);
                }
                return Some(&self.entries[i].1);
            }
            i += 1;
        }
        proof {
            lemma_entries_map_dom(self.entries@, uuid@);
        }
        None
    }

    /// Whether each note id has one entry (see `wf`).
    pub fn is_wf(&self) -> (b: bool)
        ensures
            b == self.wf(),
    {
        let n = self.entries.len();
        let mut i: usize = 0;
        while i < n
            invariant
                n == self.entries.len(),
                i <= n,
                forall|a: int, c: int| 0 <= a < i && a < c < n ==> self.entries@[a].0@ != self.entries@[c].0@,
            decreases n - i,
        {
            let mut j: usize = i + 1;
            while j < n
                invariant
                    n == self.entries.len(),
                    i < n,
                    i + 1 <= j <= n,
                    forall|c: int| i < c < j ==> self.entries@[i as int].0@ != self.entries@[c].0@,
                decreases n - j,
            {
                if str_eq(self.entries[i].0.as_str(), self.entries[j].0.as_str()) {
                    return false;
                }
                j += 1;
            }
            i += 1;
        }
        true
    }

    /// Position of the entry for `uuid`.
    fn index_of(&self, uuid: &str) -> (r: Option<usize>)
        ensures
            r matches Some(i) ==> i < self.entries.len() && self.entries@[i as int].0@ == uuid@,
            r is None ==> forall|j: int| 0 <= j < self.entries.len() ==> (#[trigger] self.entries@[j]).0@ != uuid@,
    {
        let mut i: usize = 0;
        while i < self.entries.len()
            invariant
                i <= self.entries.len(),
                forall|j: int| 0 <= j < i ==> (#[trigger] self.entries@[j]).0@ != uuid@,
            decreases self.entries.len() - i,
        {
            if str_eq(self.entries[i].0.as_str(), uuid) {
                return Some(i);
            }
            i += 1;
        }
        None
    }

    /// Records (or replaces) the filename of a note. An existing entry keeps
    /// its place; a new one goes last.
    pub fn set(&mut self, uuid: String, filename: String)
        requires
            old(self).wf(),
        ensures
            final(self).wf(),
            final(self)@ == old(self)@.insert(uuid@, filename@),
            old(self)@.contains_key(uuid@) ==> exists|i: int|
                0 <= i < old(self).entries.len() && old(self).entries@[i].0@ == uuid@
                    && final(self).entries@ == old(self).entries@.update(i, (uuid, filename)),
            !old(self)@.contains_key(uuid@) ==> final(self).entries@ == old(self).entries@.push(
                (uuid, filename),
            ),
    {
        let ghost old_e = self.entries@;
        let ghost u = uuid;
        let ghost f = filename;
        proof {
            lemma_entries_map_dom(old_e, uuid@);
        }
        match self.index_of(uuid.as_str()) {
            Some(i) => {
                self.entries.set(i, (uuid, filename));
                let ghost new_e = self.entries@;
                proof {
                    assert(keys_distinct(new_e));
                    assert forall|k: Seq<char>| entries_map(new_e).contains_key(k) <==> entries_map(
                        old_e,
                    ).insert(u@, f@).contains_key(k) by {
                        lemma_entries_map_dom(new_e, k);
                        lemma_entries_map_dom(old_e, k);
                        if exists|j: int| 0 <= j < old_e.len() && #[trigger] old_e[j].0@ == k {
                            let j = choose|j: int| 0 <= j < old_e.len() && #[trigger] old_e[j].0@ == k;
                            assert(new_e[j].0@ == k);
                        }
                        if exists|j: int| 0 <= j < new_e.len() && #[trigger] new_e[j].0@ == k {
                            let j = choose|j: int| 0 <= j < new_e.len() && #[trigger] new_e[j].0@ == k;
                            if j != i {
                                assert(old_e[j].0@ == k);
                            }
                        }
                    }
                    assert forall|k: Seq<char>| #[trigger] entries_map(new_e).contains_key(k) implies entries_map(new_e)[k]
                        == entries_map(old_e).insert(u@, f@)[k] by {
                        lemma_entries_map_dom(new_e, k);
                        let j = choose|j: int| 0 <= j < new_e.len() && #[trigger] new_e[j].0@ == k;
                        lemma_entries_map_value(new_e, j);
                        if j != i {
                            lemma_entries_map_value(old_e, j);
                        }
                    }
                    assert(entries_map(new_e) =~= entries_map(old_e).insert(u@, f@));
                }
            },
            None => {
                self.entries.push((uuid, filename));
                proof {
                    assert(self.entries@.drop_last() == old_e);
                }
            },
        }
    }

    /// Drops the entry of a note and gives back its filename.
    pub fn remove(&mut self, uuid: &str) -> (r: Option<String>)
        requires
            old(self).wf(),
        ensures
            final(self).wf(),
            final(self)@ == old(self)@.remove(uuid@),
            r matches Some(f) ==> old(self)@.contains_key(uuid@) && f@ == old(self)@[uuid@],
            r is None ==> !old(self)@.contains_key(uuid@),
            r is Some ==> exists|i: int|
                0 <= i < old(self).entries.len() && old(self).entries@[i].0@ == uuid@
                    && final(self).entries@ == old(self).entries@.remove(i),
            r is None ==> final(self).entries@ == old(self).entries@,
    {
        let ghost old_e = self.entries@;
        proof {
            lemma_entries_map_dom(old_e, uuid@);
        }
        match self.index_of(uuid) {
            Some(i) => {
                proof {
                    lemma_entries_map_value(old_e, i as int);
                }
                let (_, f) = self.entries.remove(i);
                let ghost new_e = self.entries@;
                proof {
                    assert(new_e == old_e.remove(i as int));
                    assert forall|a: int, b: int| 0 <= a < b < new_e.len() implies new_e[a].0@
                        != new_e[b].0@ by {
                        let oa = if a < i { a } else { a + 1 };
                        let ob = if b < i { b } else { b + 1 };
                        assert(new_e[a] == old_e[oa]);
                        assert(new_e[b] == old_e[ob]);
                    }
                    assert forall|k: Seq<char>| entries_map(new_e).contains_key(k) <==> entries_map(
                        old_e,
                    ).remove(uuid@).contains_key(k) by {
                        lemma_entries_map_dom(new_e, k);
                        lemma_entries_map_dom(old_e, k);
                        if exists|j: int| 0 <= j < old_e.len() && #[trigger] old_e[j].0@ == k {
                            let j = choose|j: int| 0 <= j < old_e.len() && #[trigger] old_e[j].0@ == k;
                            if j < i {
                                assert(new_e[j] == old_e[j]);
                            } else if j > i {
                                assert(new_e[j - 1] == old_e[j]);
                            }
                        }
                        if exists|j: int| 0 <= j < new_e.len() && #[trigger] new_e[j].0@ == k {
                            let j = choose|j: int| 0 <= j < new_e.len() && #[trigger] new_e[j].0@ == k;
                            let oj = if j < i { j } else { j + 1 };
                            assert(new_e[j] == old_e[oj]);
                        }
                    }
                    assert forall|k: Seq<char>| #[trigger] entries_map(new_e).contains_key(k) implies entries_map(new_e)[k]
                        == entries_map(old_e).remove(uuid@)[k] by {
                        lemma_entries_map_dom(new_e, k);
                        let j = choose|j: int| 0 <= j < new_e.len() && #[trigger] new_e[j].0@ == k;
                        lemma_entries_map_value(new_e, j);
                        let oj = if j < i { j } else { j + 1 };
                        assert(new_e[j] == old_e[oj]);
                        lemma_entries_map_value(old_e, oj);
                    }
                    assert(entries_map(new_e) =~= entries_map(old_e).remove(uuid@));
                }
                Some(f)
            },
            None => {
                proof {
                    assert(entries_map(old_e).remove(uuid@) =~= entries_map(old_e));
                }
                None
            },
        }
    }

    /// Whether `name` is the filename of a note other than `id`.
    fn is_taken(&self, id: &str, name: &String) -> (b: bool)
        ensures
            b == name_taken(self.entries@, id@, name@),
    {
        let mut i: usize = 0;
        while i < self.entries.len()
            invariant
                i <= self.entries.len(),
                forall|j: int|
                    0 <= j < i ==> !((#[trigger] self.entries@[j]).0@ != id@ && self.entries@[j].1@
                        == name@),
            decreases self.entries.len() - i,
        {
            if !str_eq(self.entries[i].0.as_str(), id) && self.entries[i].1 == *name {
                return true;
            }
            i += 1;
        }
        false
    }

    /// The first filename for stem `base` that no note other than `id`
    /// uses: `base.md`, then `base-2.md`, `base-3.md`, ...
    pub fn free_filename(&self, id: &str, base: &str) -> (r: String)
        ensures
            is_first_free(self.entries@, id@, base@, r@),
    {
        let ghost bv = base@;
        let ghost e = self.entries@;
        let mut first = base.to_owned();
        first.append(".md");
        assert(first@ == candidate(bv, 1));
        if !self.is_taken(id, &first) {
            assert(is_first_free(e, id@, bv, first@)) by {
                assert(first@ == candidate(bv, 1));
            }
            return first;
        }
        let mut k: u128 = 2;
        loop
            invariant
                e == self.entries@,
                base@ == bv,
                2 <= k <= e.len() + 1,
                forall|j: nat| 1 <= j < k ==> name_taken(e, id@, #[trigger] candidate(bv, j)),
            decreases e.len() + 2 - k,
        {
            let mut c = base.to_owned();
            c.append("-");
            push_decimal(&mut c, k);
            c.append(".md");
            assert(c@ == candidate(bv, k as nat));
            if !self.is_taken(id, &c) {
                assert(is_first_free(e, id@, bv, c@)) by {
                    let kk: nat = k as nat;
                    assert(c@ == candidate(bv, kk));
                    assert(!name_taken(e, id@, c@));
                    assert(forall|j: nat| 1 <= j < kk ==> name_taken(e, id@, #[trigger] candidate(bv, j)));
                }
                return c;
            }
            proof {
                lemma_taken_bound(e, id@, bv, k as nat);
                assert(e.len() == self.entries.len());
            }
            k += 1;
        }
    }

    /// Generates a filename for a note: the strategy's stem (or `untitled`),
    /// then `.md`, `-2.md`, `-3.md`, ... until no other note uses the name.
    pub fn generate_filename(&self, note: &BearNote, strategy: &FilenameStrategy) -> (r: String)
        requires
            filename_defined(note@, *strategy),
        ensures
            is_first_free(self.entries@, note.id@, base_name(note@, *strategy), r@),
    {
        let stem = match strategy {
            FilenameStrategy::Title => slugify(note.title.as_str()),
            FilenameStrategy::Uuid => note.id.clone(),
            FilenameStrategy::TitleUuid => {
                let slug = slugify(note.title.as_str());
                let short = byte_prefix_of(note.id.as_str(), 6);
                let low = to_lowercase(short.as_str());
                title_uuid_stem(slug.as_str(), low.as_str())
            },
        };
        let base = stem_or_untitled(stem);
        self.free_filename(note.id.as_str(), base.as_str())
    }
}

/// The stem of the `title-uuid` strategy: the title's slug, `-`, and the
/// lower-cased start of the id.
pub fn title_uuid_stem(slug: &str, short_id: &str) -> (r: String)
    ensures
        r@ == slug@ + "-"@ + short_id@,
{
    let mut b = slug.to_owned();
    b.append("-");
    b.append(short_id);
    b
}

/// A filename stem, `untitled` where it is empty.
pub fn stem_or_untitled(stem: String) -> (r: String)
    ensures
        r@ == (if stem@.len() == 0 {
            "untitled"@
        } else {
            stem@
        }),
{
    if stem.as_str().is_empty() {
        "untitled".to_owned()
    } else {
        stem
    }
}


/// After `set`, looking the note up gives the recorded filename, and every
/// other note's entry is as it was.
pub proof fn law_set_then_lookup(
    before: Manifest,
    after: Manifest,
    uuid: Seq<char>,
    filename: Seq<char>,
    other: Seq<char>,
)
    requires
        before.wf(),
        after@ == before@.insert(uuid, filename),
        other != uuid,
    ensures
        after@.contains_key(uuid),
        after@[uuid] == filename,
        after@.contains_key(other) == before@.contains_key(other),
        before@.contains_key(other) ==> after@[other] == before@[other],
{
}

/// After `remove`, the note has no entry and every other note's entry is as
/// it was; removing right after `set` gives back the recorded filename and
/// leaves the manifest as a plain removal would.
pub proof fn law_remove_after_set(m: Map<Seq<char>, Seq<char>>, uuid: Seq<char>, filename: Seq<char>, other: Seq<char>)
    requires
        other != uuid,
    ensures
        !m.remove(uuid).contains_key(uuid),
        m.remove(uuid).contains_key(other) == m.contains_key(other),
        m.contains_key(other) ==> m.remove(uuid)[other] == m[other],
        m.insert(uuid, filename).contains_key(uuid),
        m.insert(uuid, filename)[uuid] == filename,
        m.insert(uuid, filename).remove(uuid) == m.remove(uuid),
{
    assert(m.insert(uuid, filename).remove(uuid) =~= m.remove(uuid));
}

/// The filename of a note when no other note uses its first candidate: the
/// whole id under the uuid strategy, the title's slug under the title
/// strategy, slug, `-` and the lower-cased first 6 bytes of the id under the
/// title-uuid strategy, each with `.md`; `untitled.md` when that stem is
/// empty.
pub proof fn law_first_candidate_filename(
    e: Seq<(String, String)>,
    n: NoteView,
    strategy: FilenameStrategy,
    name: Seq<char>,
)
    requires
        is_first_free(e, n.id, base_name(n, strategy), name),
        !name_taken(e, n.id, candidate(base_name(n, strategy), 1)),
    ensures
        strategy == FilenameStrategy::Uuid && n.id.len() > 0 ==> name == n.id + ".md"@,
        strategy == FilenameStrategy::Title && slug_of(n.title).len() > 0 ==> name == slug_of(n.title)
            + ".md"@,
        strategy == FilenameStrategy::TitleUuid ==> name == slug_of(n.title) + "-"@ + lowercase(
            byte_prefix(n.id, 6),
        ) + ".md"@,
        (strategy == FilenameStrategy::Uuid && n.id.len() == 0) || (strategy == FilenameStrategy::Title
            && slug_of(n.title).len() == 0) ==> name == "untitled.md"@,
{
    reveal_strlit("-");
    reveal_strlit("untitled");
    reveal_strlit("untitled.md");
    reveal_strlit(".md");
    let base = base_name(n, strategy);
    let k = choose|k: nat|
        #![trigger candidate(base, k)]
        k >= 1 && name == candidate(base, k) && !name_taken(e, n.id, name) && forall|j: nat|
            1 <= j < k ==> name_taken(e, n.id, #[trigger] candidate(base, j));
    if k > 1 {
        assert(name_taken(e, n.id, candidate(base, 1)));
    }
    assert(name == base + ".md"@);
    if strategy == FilenameStrategy::TitleUuid {
        assert((slug_of(n.title) + "-"@ + lowercase(byte_prefix(n.id, 6))).len() > 0);
    }
}

/// Under the uuid strategy the generated name starts with the note's whole
/// id, however long, and has at least `.md` after it.
pub proof fn law_uuid_name_keeps_whole_id(e: Seq<(String, String)>, n: NoteView, name: Seq<char>)
    requires
        n.id.len() > 0,
        is_first_free(e, n.id, base_name(n, FilenameStrategy::Uuid), name),
    ensures
        name.take(n.id.len() as int) == n.id,
        name.len() >= n.id.len() + 3,
{
    reveal_strlit(".md");
    reveal_strlit("-");
    let base = base_name(n, FilenameStrategy::Uuid);
    assert(base == n.id);
    let k = choose|k: nat|
        #![trigger candidate(base, k)]
        k >= 1 && name == candidate(base, k) && !name_taken(e, n.id, name) && forall|j: nat|
            1 <= j < k ==> name_taken(e, n.id, #[trigger] candidate(base, j));
    if k <= 1 {
        assert(name.take(n.id.len() as int) == n.id);
    } else {
        assert(name == n.id + "-"@ + decimal(k) + ".md"@);
        assert(name.take(n.id.len() as int) == n.id);
    }
}

} // verus!
