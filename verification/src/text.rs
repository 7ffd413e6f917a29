//! Character-level helpers shared by the exporter: whitespace, trimming,
//! searching, decimal formatting and byte-prefixes of identifiers.
use vstd::prelude::*;
use vstd::utf8::*;
use vstd::string::StringSliceAdditionalSpecFns;

verus! {

/// `String::push` appends one character at the end of the string.
pub assume_specification[ String::push ](string: &mut String, ch: char)
    ensures
        final(string)@ == old(string)@.push(ch),
;

// ---------------------------------------------------------------------
// Specifications
// ---------------------------------------------------------------------

/// Unicode `White_Space`: the characters that `char::is_whitespace` accepts,
/// which are also the characters that `\s` matches in a Unicode regex.
pub open spec fn is_ws(c: char) -> bool {
    let u = c as u32;
    ||| 0x09 <= u <= 0x0D
    ||| u == 0x20
    ||| u == 0x85
    ||| u == 0xA0
    ||| u == 0x1680
    ||| 0x2000 <= u <= 0x200A
    ||| u == 0x2028
    ||| u == 0x2029
    ||| u == 0x202F
    ||| u == 0x205F
    ||| u == 0x3000
}

/// Number of leading whitespace characters.
pub open spec fn ws_prefix_len(s: Seq<char>) -> nat
    decreases s.len(),
{
    if s.len() > 0 && is_ws(s[0]) {
        1 + ws_prefix_len(s.skip(1))
    } else {
        0
    }
}

/// Number of trailing whitespace characters.
pub open spec fn ws_suffix_len(s: Seq<char>) -> nat
    decreases s.len(),
{
    if s.len() > 0 && is_ws(s.last()) {
        1 + ws_suffix_len(s.drop_last())
    } else {
        0
    }
}

/// `str::trim_start`.
pub open spec fn trim_start(s: Seq<char>) -> Seq<char> {
    s.skip(ws_prefix_len(s) as int)
}

/// `str::trim_end`.
pub open spec fn trim_end(s: Seq<char>) -> Seq<char> {
    s.take(s.len() - ws_suffix_len(s))
}

/// `str::trim`.
pub open spec fn trim(s: Seq<char>) -> Seq<char> {
    trim_end(trim_start(s))
}

/// Index of the first occurrence of `c` in `s`, or `s.len()` when there is none.
pub open spec fn find_char(s: Seq<char>, c: char) -> nat
    decreases s.len(),
{
    if s.len() == 0 {
        0
    } else if s[0] == c {
        0
    } else {
        1 + find_char(s.skip(1), c)
    }
}

/// `s` begins with `p`.
pub open spec fn has_prefix<A>(s: Seq<A>, p: Seq<A>) -> bool {
    p.len() <= s.len() && s.take(p.len() as int) == p
}

/// The decimal digit character for `d < 10`.
pub open spec fn digit_char(d: nat) -> char {
    if d == 0 {
        '0'
    } else if d == 1 {
        '1'
    } else if d == 2 {
        '2'
    } else if d == 3 {
        '3'
    } else if d == 4 {
        '4'
    } else if d == 5 {
        '5'
    } else if d == 6 {
        '6'
    } else if d == 7 {
        '7'
    } else if d == 8 {
        '8'
    } else {
        '9'
    }
}

/// The decimal representation of `n`, as `u64::to_string` writes it.
pub open spec fn decimal(n: nat) -> Seq<char>
    decreases n,
{
    if n < 10 {
        seq![digit_char(n)]
    } else {
        decimal(n / 10).push(digit_char(n % 10))
    }
}

/// `s.replace(pat, rep)` for a non-empty pattern: occurrences are found from
/// the left and do not overlap.
pub open spec fn replace_all(s: Seq<char>, pat: Seq<char>, rep: Seq<char>) -> Seq<char>
    decreases s.len(),
{
    if pat.len() == 0 || s.len() < pat.len() {
        s
    } else if s.take(pat.len() as int) == pat {
        rep + replace_all(s.skip(pat.len() as int), pat, rep)
    } else {
        seq![s[0]] + replace_all(s.skip(1), pat, rep)
    }
}

/// The pieces of `cur + s` separated by the non-empty separator `sep`, as
/// `str::split` yields them.
pub open spec fn split_from(s: Seq<char>, sep: Seq<char>, cur: Seq<char>) -> Seq<Seq<char>>
    decreases s.len(),
{
    if sep.len() == 0 || s.len() == 0 {
        seq![cur]
    } else if has_prefix(s, sep) {
        seq![cur] + split_from(s.skip(sep.len() as int), sep, seq![])
    } else {
        split_from(s.skip(1), sep, cur.push(s[0]))
    }
}

/// `s.split(sep)`.
pub open spec fn split_by(s: Seq<char>, sep: Seq<char>) -> Seq<Seq<char>> {
    split_from(s, sep, seq![])
}

/// Byte length of the first `n` bytes of `s`, clamped to the encoded length.
pub open spec fn clamped_cut(s: Seq<char>, n: nat) -> int {
    let b = encode_utf8(s);
    if b.len() < n {
        b.len() as int
    } else {
        n as int
    }
}

/// Cutting `s` after `min(byte_len, n)` bytes lands on a character boundary,
/// so that `&s[..s.len().min(n)]` is defined.
pub open spec fn cut_ok(s: Seq<char>, n: nat) -> bool {
    is_char_boundary(encode_utf8(s), clamped_cut(s, n))
}

/// The characters of `&s[..s.len().min(n)]`.
pub open spec fn byte_prefix(s: Seq<char>, n: nat) -> Seq<char> {
    decode_utf8(encode_utf8(s).take(clamped_cut(s, n)))
}

/// `Path::join` on Unix: an absolute `rel` replaces `base`; otherwise a
/// separator is put between them unless `base` is empty or already ends
/// with one.
pub open spec fn path_join(base: Seq<char>, rel: Seq<char>) -> Seq<char> {
    if rel.len() > 0 && rel[0] == '/' {
        rel
    } else if base.len() > 0 && base.last() != '/' {
        base + seq!['/'] + rel
    } else {
        base + rel
    }
}

// ---------------------------------------------------------------------
// Lemmas
// ---------------------------------------------------------------------

/// `find_char` is the least index holding `c`.
pub proof fn lemma_find_char(s: Seq<char>, c: char, r: int)
    requires
        0 <= r <= s.len(),
        forall|j: int| 0 <= j < r ==> s[j] != c,
        r == s.len() || s[r] == c,
    ensures
        find_char(s, c) == r,
    decreases r,
{
    if r > 0 {
        assert(s[0] != c);
        lemma_find_char(s.skip(1), c, r - 1);
    }
}

/// `find_char` stays within the sequence.
pub proof fn lemma_find_char_bound(s: Seq<char>, c: char)
    ensures
        find_char(s, c) <= s.len(),
        find_char(s, c) < s.len() ==> s[find_char(s, c) as int] == c,
        forall|j: int| 0 <= j < find_char(s, c) ==> s[j] != c,
    decreases s.len(),
{
    if s.len() > 0 && s[0] != c {
        lemma_find_char_bound(s.skip(1), c);
        assert forall|j: int| 0 <= j < find_char(s, c) implies s[j] != c by {
            if j > 0 {
                assert(s[j] == s.skip(1)[j - 1]);
            }
        }
    }
}

/// `ws_prefix_len` is the length of the longest whitespace prefix.
pub proof fn lemma_ws_prefix(s: Seq<char>, r: int)
    requires
        0 <= r <= s.len(),
        forall|j: int| 0 <= j < r ==> is_ws(s[j]),
        r == s.len() || !is_ws(s[r]),
    ensures
        ws_prefix_len(s) == r,
    decreases r,
{
    if r > 0 {
        lemma_ws_prefix(s.skip(1), r - 1);
    }
}

/// The whitespace prefix lies within the sequence.
pub proof fn lemma_ws_prefix_bound(s: Seq<char>)
    ensures
        ws_prefix_len(s) <= s.len(),
    decreases s.len(),
{
    if s.len() > 0 && is_ws(s[0]) {
        lemma_ws_prefix_bound(s.skip(1));
    }
}

/// `ws_suffix_len` is the length of the longest whitespace suffix.
pub proof fn lemma_ws_suffix(s: Seq<char>, r: int)
    requires
        0 <= r <= s.len(),
        forall|j: int| s.len() - r <= j < s.len() ==> is_ws(s[j]),
        r == s.len() || !is_ws(s[s.len() - r - 1]),
    ensures
        ws_suffix_len(s) == r,
    decreases r,
{
    if r > 0 {
        lemma_ws_suffix(s.drop_last(), r - 1);
    }
}

/// A decimal representation is never empty.
pub proof fn lemma_decimal_len(n: nat)
    ensures
        decimal(n).len() >= 1,
        n >= 10 ==> decimal(n).len() >= 2,
    decreases n,
{
    if n >= 10 {
        lemma_decimal_len(n / 10);
    }
}

/// Different digits have different characters.
pub proof fn lemma_digit_char_injective(a: nat, b: nat)
    requires
        a < 10,
        b < 10,
        digit_char(a) == digit_char(b),
    ensures
        a == b,
{
}

/// Different numbers have different decimal representations.
pub proof fn lemma_decimal_injective(n: nat, m: nat)
    requires
        decimal(n) == decimal(m),
    ensures
        n == m,
    decreases n,
{
    lemma_decimal_len(n);
    lemma_decimal_len(m);
    if n < 10 && m < 10 {
        assert(decimal(n) == seq![digit_char(n)]);
        assert(decimal(m) == seq![digit_char(m)]);
        assert(seq![digit_char(n)][0] == digit_char(n));
        assert(seq![digit_char(m)][0] == digit_char(m));
        assert(decimal(n)[0] == decimal(m)[0]);
        lemma_digit_char_injective(n, m);
    } else if n >= 10 && m >= 10 {
        assert(decimal(n) == decimal(n / 10).push(digit_char(n % 10)));
        assert(decimal(m) == decimal(m / 10).push(digit_char(m % 10)));
        assert(decimal(n).drop_last() == decimal(n / 10));
        assert(decimal(m).drop_last() == decimal(m / 10));
        lemma_decimal_injective(n / 10, m / 10);
        assert(decimal(n).last() == digit_char(n % 10));
        assert(decimal(m).last() == digit_char(m % 10));
        lemma_digit_char_injective(n % 10, m % 10);
        assert(n % 10 == m % 10);
        assert(n == 10 * (n / 10) + n % 10);
        assert(m == 10 * (m / 10) + m % 10);
    } else if n < 10 {
        assert(decimal(n).len() == 1);
    } else {
        assert(decimal(m).len() == 1);
    }
}

// ---------------------------------------------------------------------
// Executable helpers
// ---------------------------------------------------------------------

/// The characters of `s`, in order.
pub fn chars_of(s: &str) -> (v: Vec<char>)
    ensures
        v@ == s@,
{
    let mut v: Vec<char> = Vec::new();
    for c in it: s.chars()
        invariant
            v@ == it.seq().take(it.index() as int),
    {
        v.push(c);
    }
    v
}

/// Appends `cs[lo..hi]` to `out`.
pub fn push_range(out: &mut String, cs: &Vec<char>, lo: usize, hi: usize)
    requires
        lo <= hi <= cs.len(),
    ensures
        final(out)@ == old(out)@ + cs@.subrange(lo as int, hi as int),
{
    let ghost start = out@;
    let mut i: usize = lo;
    while i < hi
        invariant
            lo <= i <= hi <= cs.len(),
            out@ == start + cs@.subrange(lo as int, i as int),
        decreases hi - i,
    {
        out.push(cs[i]);
        i += 1;
        assert(cs@.subrange(lo as int, i as int) == cs@.subrange(lo as int, i - 1 as int).push(
            cs@[i - 1],
        ));
    }
}

/// A new string holding `cs[lo..hi]`.
pub fn string_of_range(cs: &Vec<char>, lo: usize, hi: usize) -> (r: String)
    requires
        lo <= hi <= cs.len(),
    ensures
        r@ == cs@.subrange(lo as int, hi as int),
{
    let mut r = String::new();
    push_range(&mut r, cs, lo, hi);
    r
}

/// `char::is_whitespace`.
pub fn is_whitespace(c: char) -> (b: bool)
    ensures
        b == is_ws(c),
{
    let u: u32 = c as u32;
    (0x09 <= u && u <= 0x0D) || u == 0x20 || u == 0x85 || u == 0xA0 || u == 0x1680 || (0x2000
        <= u && u <= 0x200A) || u == 0x2028 || u == 0x2029 || u == 0x202F || u == 0x205F || u
        == 0x3000
}

/// End of the whitespace run that starts at `lo`, looking no further than `hi`.
pub fn skip_ws(cs: &Vec<char>, lo: usize, hi: usize) -> (r: usize)
    requires
        lo <= hi <= cs.len(),
    ensures
        r == lo + ws_prefix_len(cs@.subrange(lo as int, hi as int)),
        lo <= r <= hi,
{
    let mut i: usize = lo;
    while i < hi && is_whitespace(cs[i])
        invariant
            lo <= i <= hi <= cs.len(),
            forall|j: int| lo <= j < i ==> is_ws(cs@[j]),
        decreases hi - i,
    {
        i += 1;
    }
    proof {
        lemma_ws_prefix(cs@.subrange(lo as int, hi as int), i - lo);
    }
    i
}

/// Start of the whitespace run that ends at `hi`, looking no further back than `lo`.
pub fn skip_ws_back(cs: &Vec<char>, lo: usize, hi: usize) -> (r: usize)
    requires
        lo <= hi <= cs.len(),
    ensures
        r == hi - ws_suffix_len(cs@.subrange(lo as int, hi as int)),
        lo <= r <= hi,
{
    let mut i: usize = hi;
    while i > lo && is_whitespace(cs[i - 1])
        invariant
            lo <= i <= hi <= cs.len(),
            forall|j: int| i <= j < hi ==> is_ws(cs@[j]),
        decreases i,
    {
        i -= 1;
    }
    proof {
        lemma_ws_suffix(cs@.subrange(lo as int, hi as int), hi - i);
    }
    i
}

/// Index of the first `c` in `cs[lo..hi]` (relative to `cs`), or `hi`.
pub fn find_char_in(cs: &Vec<char>, c: char, lo: usize, hi: usize) -> (r: usize)
    requires
        lo <= hi <= cs.len(),
    ensures
        r == lo + find_char(cs@.subrange(lo as int, hi as int), c),
        lo <= r <= hi,
{
    let mut i: usize = lo;
    while i < hi && cs[i] != c
        invariant
            lo <= i <= hi <= cs.len(),
            forall|j: int| lo <= j < i ==> cs@[j] != c,
        decreases hi - i,
    {
        i += 1;
    }
    proof {
        lemma_find_char(cs@.subrange(lo as int, hi as int), c, i - lo);
    }
    i
}

/// Whether `cs[i..]` begins with `p`.
pub fn has_prefix_at(cs: &Vec<char>, i: usize, p: &Vec<char>) -> (b: bool)
    requires
        i <= cs.len(),
    ensures
        b == has_prefix(cs@.skip(i as int), p@),
{
    if p.len() > cs.len() - i {
        return false;
    }
    let mut j: usize = 0;
    while j < p.len()
        invariant
            i + p.len() <= cs.len(),
            0 <= j <= p.len(),
            forall|k: int| 0 <= k < j ==> cs@[i + k] == p@[k],
        decreases p.len() - j,
    {
        if cs[i + j] != p[j] {
            assert(cs@.skip(i as int).take(p@.len() as int)[j as int] != p@[j as int]);
            return false;
        }
        j += 1;
    }
    assert(cs@.skip(i as int).take(p@.len() as int) == p@);
    true
}

/// Whether `a[alo..ahi]` and `b[blo..bhi]` hold the same characters.
pub fn range_eq(a: &Vec<char>, alo: usize, ahi: usize, b: &Vec<char>, blo: usize, bhi: usize) -> (r:
    bool)
    requires
        alo <= ahi <= a.len(),
        blo <= bhi <= b.len(),
    ensures
        r == (a@.subrange(alo as int, ahi as int) == b@.subrange(blo as int, bhi as int)),
{
    if ahi - alo != bhi - blo {
        assert(a@.subrange(alo as int, ahi as int).len() != b@.subrange(blo as int, bhi as int).len());
        return false;
    }
    let n: usize = ahi - alo;
    let mut k: usize = 0;
    while k < n
        invariant
            n == ahi - alo == bhi - blo,
            alo <= ahi <= a.len(),
            blo <= bhi <= b.len(),
            0 <= k <= n,
            forall|j: int| 0 <= j < k ==> #[trigger] a@.subrange(alo as int, ahi as int)[j] == b@.subrange(blo as int, bhi as int)[j],
        decreases n - k,
    {
        if a[alo + k] != b[blo + k] {
            assert(a@.subrange(alo as int, ahi as int)[k as int] != b@.subrange(
                blo as int,
                bhi as int,
            )[k as int]);
            return false;
        }
        k += 1;
    }
    assert(a@.subrange(alo as int, ahi as int) == b@.subrange(blo as int, bhi as int));
    true
}

/// Whether two strings are equal.
pub fn str_eq(a: &str, b: &str) -> (r: bool)
    ensures
        r == (a@ == b@),
{
    let ca = chars_of(a);
    let cb = chars_of(b);
    let r = range_eq(&ca, 0, ca.len(), &cb, 0, cb.len());
    proof {
        assert(ca@.subrange(0, ca@.len() as int) == ca@);
        assert(cb@.subrange(0, cb@.len() as int) == cb@);
    }
    r
}

/// Appends the decimal representation of `n` (as `to_string` writes it).
pub fn push_decimal(out: &mut String, n: u128)
    ensures
        final(out)@ == old(out)@ + decimal(n as nat),
    decreases n,
{
    if n >= 10 {
        push_decimal(out, n / 10);
    }
    let d: u128 = n % 10;
    let c: char = if d == 0 {
        '0'
    } else if d == 1 {
        '1'
    } else if d == 2 {
        '2'
    } else if d == 3 {
        '3'
    } else if d == 4 {
        '4'
    } else if d == 5 {
        '5'
    } else if d == 6 {
        '6'
    } else if d == 7 {
        '7'
    } else if d == 8 {
        '8'
    } else {
        '9'
    };
    out.push(c);
    proof {
        assert(c == digit_char((n % 10) as nat));
        if n >= 10 {
            assert(decimal(n as nat) == decimal((n / 10) as nat).push(digit_char((n % 10) as nat)));
        }
    }
}

/// `s.replace(pat, rep)` for a non-empty pattern.
pub fn replace_str(s: &str, pat: &str, rep: &str) -> (r: String)
    requires
        pat@.len() > 0,
    ensures
        r@ == replace_all(s@, pat@, rep@),
{
    let cs = chars_of(s);
    let ps = chars_of(pat);
    let n: usize = cs.len();
    let m: usize = ps.len();
    let mut out = String::new();
    let mut i: usize = 0;
    assert(cs@.skip(0) == cs@);
    while i < n
        invariant
            cs@ == s@,
            ps@ == pat@,
            n == cs.len(),
            m == ps.len(),
            m > 0,
            i <= n,
            replace_all(s@, pat@, rep@) == out@ + replace_all(cs@.skip(i as int), pat@, rep@),
        decreases n - i,
    {
        let ghost rest = cs@.skip(i as int);
        if m <= n - i && has_prefix_at(&cs, i, &ps) {
            out.append(rep);
            assert(rest.skip(m as int) == cs@.skip((i + m) as int));
            i += m;
        } else {
            if n - i < m {
                // No further occurrence fits: the rest is copied as it stands.
                push_range(&mut out, &cs, i, n);
                assert(rest == cs@.subrange(i as int, n as int));
                i = n;
                assert(cs@.skip(n as int) =~= Seq::<char>::empty());
            } else {
                out.push(cs[i]);
                assert(rest.skip(1) == cs@.skip((i + 1) as int));
                assert(seq![rest[0]] + replace_all(rest.skip(1), pat@, rep@) == replace_all(
                    rest,
                    pat@,
                    rep@,
                ));
                i += 1;
            }
        }
    }
    assert(cs@.skip(n as int) =~= Seq::<char>::empty());
    out
}

/// `s.split(sep)` for a non-empty separator, as owned strings.
pub fn split_str(s: &str, sep: &str) -> (r: Vec<String>)
    requires
        sep@.len() > 0,
    ensures
        r@.map_values(|p: String| p@) == split_by(s@, sep@),
{
    let cs = chars_of(s);
    let ps = chars_of(sep);
    let n: usize = cs.len();
    let mut pieces: Vec<String> = Vec::new();
    let mut start: usize = 0;
    let mut i: usize = 0;
    assert(cs@.skip(0) == cs@);
    assert(cs@.subrange(0, 0) == Seq::<char>::empty());
    while i < n
        invariant
            cs@ == s@,
            ps@ == sep@,
            sep@.len() > 0,
            n == cs.len(),
            start <= i <= n,
            split_by(s@, sep@) == pieces@.map_values(|p: String| p@) + split_from(
                cs@.skip(i as int),
                sep@,
                cs@.subrange(start as int, i as int),
            ),
        decreases n - i,
    {
        let ghost rest = cs@.skip(i as int);
        let ghost cur = cs@.subrange(start as int, i as int);
        if has_prefix_at(&cs, i, &ps) {
            let piece = string_of_range(&cs, start, i);
            let ghost before = pieces@;
            pieces.push(piece);
            assert(pieces@.map_values(|p: String| p@) == before.map_values(|p: String| p@).push(cur));
            assert(rest.skip(ps@.len() as int) == cs@.skip(i + ps.len()));
            i += ps.len();
            start = i;
            assert(cs@.subrange(start as int, i as int) == Seq::<char>::empty());
        } else {
            assert(rest.skip(1) == cs@.skip(i + 1));
            assert(cur.push(rest[0]) == cs@.subrange(start as int, i + 1));
            i += 1;
        }
    }
    let ghost cur = cs@.subrange(start as int, n as int);
    let last = string_of_range(&cs, start, n);
    let ghost before = pieces@;
    pieces.push(last);
    assert(cs@.skip(n as int) == Seq::<char>::empty());
    assert(pieces@.map_values(|p: String| p@) == before.map_values(|p: String| p@).push(cur));
    pieces
}

/// `Path::new(base).join(rel)` on Unix (see `path_join`).
pub fn join_path(base: &str, rel: &str) -> (r: String)
    ensures
        r@ == path_join(base@, rel@),
{
    let bs = chars_of(base);
    let rs = chars_of(rel);
    if rs.len() > 0 && rs[0] == '/' {
        return rel.to_owned();
    }
    let mut out = base.to_owned();
    if bs.len() > 0 && bs[bs.len() - 1] != '/' {
        out.push('/');
    }
    out.append(rel);
    out
}

/// `str::trim`, as an owned string.
pub fn trim_str(s: &str) -> (r: String)
    ensures
        r@ == trim(s@),
{
    let cs = chars_of(s);
    let n: usize = cs.len();
    let a: usize = skip_ws(&cs, 0, n);
    let b: usize = skip_ws_back(&cs, a, n);
    proof {
        assert(cs@.subrange(0, n as int) == s@);
        assert(trim_start(s@) == cs@.subrange(a as int, n as int));
    }
    string_of_range(&cs, a, b)
}

/// Whether the first `n` bytes of `s` (all of it when shorter) end on a
/// character boundary, so that `&s[..s.len().min(n)]` does not panic.
pub fn can_cut(s: &str, n: usize) -> (b: bool)
    ensures
        b == cut_ok(s@, n as nat),
{
    let len: usize = s.as_bytes().len();
    let k: usize = if len < n {
        len
    } else {
        n
    };
    proof {
        assert(s.spec_bytes() == encode_utf8(s@));
        assert(k == clamped_cut(s@, n as nat));
    }
    s.is_char_boundary(k)
}

/// `&s[..s.len().min(n)]`, as an owned string.
pub fn byte_prefix_of(s: &str, n: usize) -> (r: String)
    requires
        cut_ok(s@, n as nat),
    ensures
        r@ == byte_prefix(s@, n as nat),
{
    let bytes = s.as_bytes();
    let len: usize = bytes.len();
    let k: usize = if len < n {
        len
    } else {
        n
    };
    proof {
        assert(s.spec_bytes() == encode_utf8(s@));
        assert(k == clamped_cut(s@, n as nat));
        broadcast use encode_utf8_valid_utf8;
    }
    let (a, _b) = s.split_at(k);
    proof {
        encode_utf8_decode_utf8(a@);
        assert(a.spec_bytes() == encode_utf8(a@));
    }
    a.to_owned()
}

} // verus!
