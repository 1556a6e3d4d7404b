//! Character classes, runs and trimming over source text viewed as a
//! sequence of characters.

use vstd::prelude::*;
use vstd::string::StrSliceExecFns;

verus! {

/// Unicode `White_Space`: the class of `\s` and of `str::trim`.
pub open spec fn is_ws(c: char) -> bool {
    ('\t' <= c && c <= '\r') || c == ' ' || c == '\u{85}' || c == '\u{a0}' || c == '\u{1680}'
        || ('\u{2000}' <= c && c <= '\u{200a}') || c == '\u{2028}' || c == '\u{2029}'
        || c == '\u{202f}' || c == '\u{205f}' || c == '\u{3000}'
}

/// An identifier character: an ASCII letter, digit or underscore.
pub open spec fn is_word(c: char) -> bool {
    ('a' <= c && c <= 'z') || ('A' <= c && c <= 'Z') || ('0' <= c && c <= '9') || c == '_'
}

/// End of the run of whitespace that starts at `i`.
pub open spec fn ws_end(t: Seq<char>, i: int) -> int
    decreases t.len() - i,
{
    if 0 <= i < t.len() && is_ws(t[i]) {
        ws_end(t, i + 1)
    } else {
        i
    }
}

/// End of the run of identifier characters that starts at `i`.
pub open spec fn word_end(t: Seq<char>, i: int) -> int
    decreases t.len() - i,
{
    if 0 <= i < t.len() && is_word(t[i]) {
        word_end(t, i + 1)
    } else {
        i
    }
}

/// Start of the run of whitespace that ends at `j`, scanning backwards but
/// not past `lo`.
pub open spec fn ws_start(t: Seq<char>, lo: int, j: int) -> int
    decreases j - lo,
{
    if lo < j && j <= t.len() && is_ws(t[j - 1]) {
        ws_start(t, lo, j - 1)
    } else {
        j
    }
}

/// Smallest index at or after `i` that holds `c`, or the length if none does.
pub open spec fn find_from(t: Seq<char>, i: int, c: char) -> int
    decreases t.len() - i,
{
    if 0 <= i < t.len() {
        if t[i] == c {
            i
        } else {
            find_from(t, i + 1, c)
        }
    } else {
        t.len() as int
    }
}

/// `lit` stands in `t` at position `i`.
pub open spec fn has_at(t: Seq<char>, i: int, lit: Seq<char>) -> bool {
    0 <= i && i + lit.len() <= t.len() && t.subrange(i, i + lit.len()) == lit
}

/// `s` without the whitespace at its two ends.
pub open spec fn trim(s: Seq<char>) -> Seq<char> {
    let lo = ws_end(s, 0);
    if lo >= s.len() {
        Seq::empty()
    } else {
        s.subrange(lo, ws_start(s, lo, s.len() as int))
    }
}

pub proof fn lemma_ws_end_bounds(t: Seq<char>, i: int)
    requires
        0 <= i <= t.len(),
    ensures
        i <= ws_end(t, i) <= t.len(),
        ws_end(t, i) < t.len() ==> !is_ws(t[ws_end(t, i)]),
        forall|k: int| i <= k < ws_end(t, i) ==> is_ws(#[trigger] t[k]),
    decreases t.len() - i,
{
    if i < t.len() && is_ws(t[i]) {
        lemma_ws_end_bounds(t, i + 1);
    }
}

pub proof fn lemma_word_end_bounds(t: Seq<char>, i: int)
    requires
        0 <= i <= t.len(),
    ensures
        i <= word_end(t, i) <= t.len(),
        word_end(t, i) < t.len() ==> !is_word(t[word_end(t, i)]),
        forall|k: int| i <= k < word_end(t, i) ==> is_word(#[trigger] t[k]),
    decreases t.len() - i,
{
    if i < t.len() && is_word(t[i]) {
        lemma_word_end_bounds(t, i + 1);
    }
}

pub proof fn lemma_find_from_bounds(t: Seq<char>, i: int, c: char)
    requires
        0 <= i <= t.len(),
    ensures
        i <= find_from(t, i, c) <= t.len(),
        find_from(t, i, c) < t.len() ==> t[find_from(t, i, c)] == c,
    decreases t.len() - i,
{
    if i < t.len() && t[i] != c {
        lemma_find_from_bounds(t, i + 1, c);
    }
}

pub fn is_ws_char(c: char) -> (r: bool)
    ensures
        r == is_ws(c),
{
    ('\t' <= c && c <= '\r') || c == ' ' || c == '\u{85}' || c == '\u{a0}' || c == '\u{1680}'
        || ('\u{2000}' <= c && c <= '\u{200a}') || c == '\u{2028}' || c == '\u{2029}'
        || c == '\u{202f}' || c == '\u{205f}' || c == '\u{3000}'
}

pub fn is_word_char(c: char) -> (r: bool)
    ensures
        r == is_word(c),
{
    ('a' <= c && c <= 'z') || ('A' <= c && c <= 'Z') || ('0' <= c && c <= '9') || c == '_'
}

/// End of the run of whitespace that starts at `i`.
pub fn skip_ws(t: &Vec<char>, i: usize) -> (r: usize)
    requires
        i <= t@.len(),
    ensures
        r == ws_end(t@, i as int),
{
    let mut j: usize = i;
    while j < t.len() && is_ws_char(t[j])
        invariant
            i <= j <= t@.len(),
            ws_end(t@, j as int) == ws_end(t@, i as int),
        decreases t@.len() - j,
    {
        j = j + 1;
    }
    j
}

/// End of the run of identifier characters that starts at `i`.
pub fn skip_word(t: &Vec<char>, i: usize) -> (r: usize)
    requires
        i <= t@.len(),
    ensures
        r == word_end(t@, i as int),
{
    let mut j: usize = i;
    while j < t.len() && is_word_char(t[j])
        invariant
            i <= j <= t@.len(),
            word_end(t@, j as int) == word_end(t@, i as int),
        decreases t@.len() - j,
    {
        j = j + 1;
    }
    j
}

/// Smallest index at or after `i` that holds `c`, or the length.
pub fn find_char(t: &Vec<char>, i: usize, c: char) -> (r: usize)
    requires
        i <= t@.len(),
    ensures
        r == find_from(t@, i as int, c),
{
    let mut j: usize = i;
    while j < t.len() && t[j] != c
        invariant
            i <= j <= t@.len(),
            find_from(t@, j as int, c) == find_from(t@, i as int, c),
        decreases t@.len() - j,
    {
        j = j + 1;
    }
    j
}

/// Whether `lit` stands in `t` at position `i`.
pub fn lit_at(t: &Vec<char>, i: usize, lit: &[char]) -> (r: bool)
    ensures
        r == has_at(t@, i as int, lit@),
{
    if i > t.len() || lit.len() > t.len() - i {
        return false;
    }
    let n: usize = t.len();
    let mut k: usize = 0;
    while k < lit.len()
        invariant
            n == t@.len(),
            k <= lit@.len(),
            i + lit@.len() <= t@.len(),
            forall|m: int| 0 <= m < k ==> t@[i + m] == lit@[m],
        decreases lit@.len() - k,
    {
        if t[i + k] != lit[k] {
            assert(t@.subrange(i as int, i + lit@.len())[k as int] != lit@[k as int]);
            return false;
        }
        k = k + 1;
    }
    assert(t@.subrange(i as int, i + lit@.len()) =~= lit@);
    true
}

/// Bounds of `trim` applied to the part of `t` between `a` and `b`.
pub fn trim_bounds(t: &Vec<char>, a: usize, b: usize) -> (r: (usize, usize))
    requires
        a <= b <= t@.len(),
    ensures
        a <= r.0 <= r.1 <= b,
        t@.subrange(r.0 as int, r.1 as int) == trim(t@.subrange(a as int, b as int)),
{
    let ghost s = t@.subrange(a as int, b as int);
    let mut lo: usize = a;
    while lo < b && is_ws_char(t[lo])
        invariant
            a <= lo <= b <= t@.len(),
            s == t@.subrange(a as int, b as int),
            ws_end(s, lo - a) == ws_end(s, 0),
        decreases b - lo,
    {
        lo = lo + 1;
    }
    if lo == b {
        assert(t@.subrange(b as int, b as int) =~= Seq::<char>::empty());
        return (b, b);
    }
    let mut hi: usize = b;
    while hi > lo && is_ws_char(t[hi - 1])
        invariant
            a <= lo < hi <= b <= t@.len(),
            !is_ws(t@[lo as int]),
            s == t@.subrange(a as int, b as int),
            ws_start(s, lo - a, hi - a) == ws_start(s, lo - a, b - a),
        decreases hi - lo,
    {
        hi = hi - 1;
    }
    assert(t@.subrange(lo as int, hi as int) =~= s.subrange(lo - a, hi - a));
    (lo, hi)
}

/// The part of `s` between character positions `a` and `b`.
pub fn string_of(s: &str, a: usize, b: usize) -> (r: String)
    requires
        a <= b <= s@.len(),
    ensures
        r@ == s@.subrange(a as int, b as int),
{
    s.substring_char(a, b).to_owned()
}

/// `a` followed by the entries of `b` that are not already present, each
/// checked against what has been kept so far.
pub open spec fn append_new(a: Seq<Seq<char>>, b: Seq<Seq<char>>) -> Seq<Seq<char>>
    decreases b.len(),
{
    if b.len() == 0 {
        a
    } else {
        let r = append_new(a, b.drop_last());
        if r.contains(b.last()) {
            r
        } else {
            r.push(b.last())
        }
    }
}

/// `s` with every entry after its first occurrence left out.
pub open spec fn dedup(s: Seq<Seq<char>>) -> Seq<Seq<char>> {
    append_new(Seq::empty(), s)
}

/// Appending new entries keeps a sequence free of duplicates.
pub proof fn lemma_append_new_no_duplicates(a: Seq<Seq<char>>, b: Seq<Seq<char>>)
    requires
        a.no_duplicates(),
    ensures
        append_new(a, b).no_duplicates(),
    decreases b.len(),
{
    if b.len() > 0 {
        lemma_append_new_no_duplicates(a, b.drop_last());
        let r = append_new(a, b.drop_last());
        if !r.contains(b.last()) {
            assert forall|i: int, j: int|
                0 <= i < r.push(b.last()).len() && 0 <= j < r.push(b.last()).len() && i != j
                implies r.push(b.last())[i] != r.push(b.last())[j] by {
                if i == r.len() {
                    assert(r[j] == r.push(b.last())[j]);
                } else if j == r.len() {
                    assert(r[i] == r.push(b.last())[i]);
                }
            }
        }
    }
}

/// Every entry of `dedup(s)` occurs once.
pub proof fn lemma_dedup_no_duplicates(s: Seq<Seq<char>>)
    ensures
        dedup(s).no_duplicates(),
{
    lemma_append_new_no_duplicates(Seq::empty(), s);
}

/// Whether `v` holds a string equal to `s`.
pub fn contains_string(v: &Vec<String>, s: &String) -> (r: bool)
    ensures
        r == v.deep_view().contains(s@),
{
    let mut i: usize = 0;
    while i < v.len()
        invariant
            i <= v@.len(),
            forall|k: int| 0 <= k < i ==> v.deep_view()[k] != s@,
        decreases v@.len() - i,
    {
        if v[i] == *s {
            assert(v.deep_view()[i as int] == s@);
            return true;
        }
        i = i + 1;
    }
    false
}

/// Appends `s` to `v` unless `v` already holds it.
pub(crate) fn push_new(
    v: &mut Vec<String>,
    s: String,
    Ghost(base): Ghost<Seq<Seq<char>>>,
    Ghost(seen): Ghost<Seq<Seq<char>>>,
)
    requires
        old(v).deep_view() == append_new(base, seen),
    ensures
        final(v).deep_view() == append_new(base, seen.push(s@)),
{
    assert(seen.push(s@).drop_last() =~= seen);
    if !contains_string(v, &s) {
        let ghost before = v.deep_view();
        v.push(s);
        assert(v.deep_view() =~= before.push(s@));
    }
}

/// The characters of `s`, in order.
pub fn chars_of(s: &str) -> (r: Vec<char>)
    ensures
        r@ == s@,
{
    let mut r: Vec<char> = Vec::new();
    for c in it: s.chars()
        invariant
            r@ == it.seq().take(it.index() as int),
    {
        r.push(c);
    }
    r
}

} // verus!
