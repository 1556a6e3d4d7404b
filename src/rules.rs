//! The matching rules: where each kind of function unit, address parameter
//! and zero-address check starts and ends in a text.
//!
//! Each rule is stated as a spec function giving the match that starts at a
//! position, if any; the matches of a text are found by trying positions
//! from left to right and resuming after the end of each match.

use vstd::prelude::*;
use crate::text::{
    dedup, find_from, push_new, trim, trim_bounds,
    chars_of, string_of,
    is_word_char, lit_at, skip_word, skip_ws,
    has_at, is_word, is_ws, lemma_word_end_bounds, lemma_ws_end_bounds, word_end, ws_end,
};

verus! {

pub open spec fn kw_address() -> Seq<char> {
    seq!['a', 'd', 'd', 'r', 'e', 's', 's']
}

pub open spec fn kw_brackets() -> Seq<char> {
    seq!['[', ']']
}

pub open spec fn kw_memory() -> Seq<char> {
    seq!['m', 'e', 'm', 'o', 'r', 'y']
}

pub open spec fn kw_storage() -> Seq<char> {
    seq!['s', 't', 'o', 'r', 'a', 'g', 'e']
}

pub open spec fn kw_calldata() -> Seq<char> {
    seq!['c', 'a', 'l', 'l', 'd', 'a', 't', 'a']
}

/// Length of the storage-location keyword at `w`, or 0 if none stands there.
pub open spec fn location_len(t: Seq<char>, w: int) -> int {
    if has_at(t, w, kw_memory()) {
        6
    } else if has_at(t, w, kw_storage()) {
        7
    } else if has_at(t, w, kw_calldata()) {
        8
    } else {
        0
    }
}

/// An address parameter found at some start: its declared type runs from the
/// start to `type_end`, its name from `name_start` to `name_end`.
pub struct AddrMatch {
    pub type_end: int,
    pub name_start: int,
    pub name_end: int,
}

/// The address parameter that starts at `p`: the word `address`, optionally
/// `[]`, optionally whitespace and a storage location, then whitespace and an
/// identifier. Where the location is not followed by whitespace and an
/// identifier, the declaration is read without it.
pub open spec fn address_match_at(t: Seq<char>, p: int) -> Option<AddrMatch> {
    if has_at(t, p, kw_address()) {
        let i = if has_at(t, p + 7, kw_brackets()) {
            p + 9
        } else {
            p + 7
        };
        let w = ws_end(t, i);
        let kl = location_len(t, w);
        let n = ws_end(t, w + kl);
        if w > i && kl > 0 && n > w + kl && n < t.len() && is_word(t[n]) {
            Some(AddrMatch { type_end: w + kl, name_start: n, name_end: word_end(t, n) })
        } else if w > i && w < t.len() && is_word(t[w]) {
            Some(AddrMatch { type_end: i, name_start: w, name_end: word_end(t, w) })
        } else {
            None
        }
    } else {
        None
    }
}

pub proof fn lemma_address_match_bounds(t: Seq<char>, p: int)
    requires
        0 <= p < t.len(),
        address_match_at(t, p) is Some,
    ensures
        ({
            let m = address_match_at(t, p)->0;
            &&& p < m.type_end < m.name_start < m.name_end <= t.len()
            &&& forall|k: int| m.name_start <= k < m.name_end ==> is_word(#[trigger] t[k])
            &&& is_ws(t[m.name_start - 1])
            &&& m.name_end < t.len() ==> !is_word(t[m.name_end])
        }),
{
    let i = if has_at(t, p + 7, kw_brackets()) {
        p + 9
    } else {
        p + 7
    };
    lemma_ws_end_bounds(t, i);
    let w = ws_end(t, i);
    let kl = location_len(t, w);
    if w + kl <= t.len() {
        lemma_ws_end_bounds(t, w + kl);
        let n = ws_end(t, w + kl);
        if w > i && kl > 0 && n > w + kl && n < t.len() && is_word(t[n]) {
            lemma_word_end_bounds(t, n);
            return;
        }
    }
    lemma_word_end_bounds(t, w);
}

/// The address parameters of `t` from position `from` on, each as its
/// declared type and its name, in textual order.
pub open spec fn address_params_from(t: Seq<char>, from: int) -> Seq<(Seq<char>, Seq<char>)>
    decreases t.len() - from,
{
    if 0 <= from < t.len() {
        match address_match_at(t, from) {
            Some(m) => {
                proof {
                    lemma_address_match_bounds(t, from);
                }
                seq![(t.subrange(from, m.type_end), t.subrange(m.name_start, m.name_end))]
                    + address_params_from(t, m.name_end)
            },
            None => address_params_from(t, from + 1),
        }
    } else {
        Seq::empty()
    }
}

/// The address parameters declared in a parameter list.
pub open spec fn address_params(t: Seq<char>) -> Seq<(Seq<char>, Seq<char>)> {
    address_params_from(t, 0)
}

fn address_match(t: &Vec<char>, p: usize) -> (r: Option<(usize, usize, usize)>)
    requires
        p < t@.len(),
    ensures
        match r {
            Some(x) => address_match_at(t@, p as int) == Some(
                AddrMatch { type_end: x.0 as int, name_start: x.1 as int, name_end: x.2 as int },
            ),
            None => address_match_at(t@, p as int) is None,
        },
{
    proof {
        assert(['a', 'd', 'd', 'r', 'e', 's', 's']@ == kw_address());
        assert(['[', ']']@ == kw_brackets());
        assert(['m', 'e', 'm', 'o', 'r', 'y']@ == kw_memory());
        assert(['s', 't', 'o', 'r', 'a', 'g', 'e']@ == kw_storage());
        assert(['c', 'a', 'l', 'l', 'd', 'a', 't', 'a']@ == kw_calldata());
    }
    if t.len() - p < 7 || !lit_at(t, p, &['a', 'd', 'd', 'r', 'e', 's', 's']) {
        return None;
    }
    let i: usize = if t.len() - (p + 7) >= 2 && lit_at(t, p + 7, &['[', ']']) {
        p + 9
    } else {
        p + 7
    };
    let w = skip_ws(t, i);
    proof {
        lemma_ws_end_bounds(t@, i as int);
    }
    let kl: usize = if lit_at(t, w, &['m', 'e', 'm', 'o', 'r', 'y']) {
        6
    } else if lit_at(t, w, &['s', 't', 'o', 'r', 'a', 'g', 'e']) {
        7
    } else if lit_at(t, w, &['c', 'a', 'l', 'l', 'd', 'a', 't', 'a']) {
        8
    } else {
        0
    };
    if w > i && kl > 0 {
        let n = skip_ws(t, w + kl);
        if n > w + kl && n < t.len() && is_word_char(t[n]) {
            let e = skip_word(t, n);
            return Some((w + kl, n, e));
        }
    }
    if w > i && w < t.len() && is_word_char(t[w]) {
        let e = skip_word(t, w);
        return Some((i, w, e));
    }
    None
}


/// The address parameters declared in `s`, each as its declared type and
/// its name, in textual order.
pub fn address_parameters(s: &str) -> (r: Vec<(String, String)>)
    ensures
        r.deep_view() == address_params(s@),
{
    let t = chars_of(s);
    let mut r: Vec<(String, String)> = Vec::new();
    let mut pos: usize = 0;
    while pos < t.len()
        invariant
            pos <= t@.len(),
            t@ == s@,
            r.deep_view() + address_params_from(t@, pos as int) == address_params(t@),
        decreases t@.len() - pos,
    {
        match address_match(&t, pos) {
            Some((te, ns, ne)) => {
                proof {
                    lemma_address_match_bounds(t@, pos as int);
                }
                let ty = string_of(s, pos, te);
                let name = string_of(s, ns, ne);
                let ghost old_r = r.deep_view();
                r.push((ty, name));
                assert(r.deep_view() =~= old_r.push((ty@, name@)));
                pos = ne;
            },
            None => {
                pos = pos + 1;
            },
        }
    }
    assert(r.deep_view() + address_params_from(t@, pos as int) =~= r.deep_view());
    r
}


/// `name` stands in `t` as a whole identifier: non-empty, made of identifier
/// characters, preceded by whitespace and not followed by an identifier
/// character.
pub open spec fn is_token_of(t: Seq<char>, name: Seq<char>) -> bool {
    exists|i: int|
        #![trigger t.subrange(i, i + name.len())]
        0 < i && i + name.len() <= t.len() && t.subrange(i, i + name.len()) == name
            && is_ws(t[i - 1]) && (i + name.len() == t.len() || !is_word(t[i + name.len()]))
            && name.len() > 0 && (forall|k: int| 0 <= k < name.len() ==> is_word(#[trigger] name[k]))
}

proof fn lemma_address_names_from(t: Seq<char>, from: int)
    requires
        0 <= from,
    ensures
        forall|k: int|
            0 <= k < address_params_from(t, from).len() ==> is_token_of(
                t,
                (#[trigger] address_params_from(t, from)[k]).1,
            ),
    decreases t.len() - from,
{
    if 0 <= from < t.len() {
        match address_match_at(t, from) {
            Some(m) => {
                lemma_address_match_bounds(t, from);
                lemma_address_names_from(t, m.name_end);
                let name = t.subrange(m.name_start, m.name_end);
                assert(t.subrange(m.name_start, m.name_start + name.len()) == name);
                assert(is_token_of(t, name));
                let s = address_params_from(t, from);
                let rest = address_params_from(t, m.name_end);
                assert(s == seq![(t.subrange(from, m.type_end), name)] + rest);
                assert forall|k: int| 0 <= k < s.len() implies is_token_of(t, (#[trigger] s[k]).1) by {
                    if k > 0 {
                        assert(s[k] == rest[k - 1]);
                    } else {
                        assert(s[k].1 == name);
                    }
                }
            },
            None => {
                lemma_address_names_from(t, from + 1);
                assert(address_params_from(t, from) == address_params_from(t, from + 1));
            },
        }
    }
}

/// Every name captured as an address parameter stands verbatim in the
/// parameter text, as a whole identifier.
pub proof fn lemma_address_names_appear(params: Seq<char>)
    ensures
        forall|k: int|
            0 <= k < address_params(params).len() ==> is_token_of(
                params,
                (#[trigger] address_params(params)[k]).1,
            ),
{
    lemma_address_names_from(params, 0);
}


pub open spec fn kw_eq() -> Seq<char> {
    seq!['=', '=']
}

pub open spec fn kw_ne() -> Seq<char> {
    seq!['!', '=']
}

pub open spec fn kw_zero() -> Seq<char> {
    seq!['a', 'd', 'd', 'r', 'e', 's', 's', '(', '0', ')']
}

pub open spec fn kw_require() -> Seq<char> {
    seq!['r', 'e', 'q', 'u', 'i', 'r', 'e']
}

/// Where a comparison with the zero address that starts at `g` ends: optional
/// whitespace, `==` or `!=`, optional whitespace, then `address(0)`.
pub open spec fn zero_check_end(t: Seq<char>, g: int) -> Option<int> {
    let h = ws_end(t, g);
    if has_at(t, h, kw_eq()) || has_at(t, h, kw_ne()) {
        let k = ws_end(t, h + 2);
        if has_at(t, k, kw_zero()) {
            Some(k + 10)
        } else {
            None
        }
    } else {
        None
    }
}

/// A checked variable found at some start: captured from `cap_start` to
/// `cap_end`; the whole match ends at `end`.
pub struct VarMatch {
    pub cap_start: int,
    pub cap_end: int,
    pub end: int,
}

/// The equality check that starts at `p`: an identifier compared with the
/// zero address.
pub open spec fn equality_match_at(t: Seq<char>, p: int) -> Option<VarMatch> {
    if 0 <= p < t.len() && is_word(t[p]) {
        let e = word_end(t, p);
        match zero_check_end(t, e) {
            Some(end) => Some(VarMatch { cap_start: p, cap_end: e, end }),
            None => None,
        }
    } else {
        None
    }
}

/// End of the run of characters other than `,` and `)` that starts at `i`.
pub open spec fn operand_end(t: Seq<char>, i: int) -> int
    decreases t.len() - i,
{
    if 0 <= i < t.len() && t[i] != ',' && t[i] != ')' {
        operand_end(t, i + 1)
    } else {
        i
    }
}

/// The largest `g` with `lo < g <= hi` at which a zero comparison starts.
pub open spec fn last_zero_check(t: Seq<char>, lo: int, hi: int) -> Option<int>
    decreases hi - lo,
{
    if hi <= lo {
        None
    } else if zero_check_end(t, hi) is Some {
        Some(hi)
    } else {
        last_zero_check(t, lo, hi - 1)
    }
}

/// The `require` check that starts at `p`: `require`, optional whitespace,
/// `(`, then a first argument of characters other than `,` and `)` compared
/// with the zero address. The argument is taken as long as it can be; where
/// only an empty one fits after the leading whitespace, the last whitespace
/// character is taken as the argument.
pub open spec fn require_match_at(t: Seq<char>, p: int) -> Option<VarMatch> {
    if has_at(t, p, kw_require()) {
        let o = ws_end(t, p + 7);
        if o < t.len() && t[o] == '(' {
            let w = ws_end(t, o + 1);
            match last_zero_check(t, w, operand_end(t, o + 1)) {
                Some(g) => Some(VarMatch { cap_start: w, cap_end: g, end: zero_check_end(t, g)->0 }),
                None => if w > o + 1 && zero_check_end(t, w) is Some {
                    Some(VarMatch { cap_start: w - 1, cap_end: w, end: zero_check_end(t, w)->0 })
                } else {
                    None
                },
            }
        } else {
            None
        }
    } else {
        None
    }
}

pub proof fn lemma_zero_check_end_bounds(t: Seq<char>, g: int)
    requires
        0 <= g <= t.len(),
        zero_check_end(t, g) is Some,
    ensures
        g < zero_check_end(t, g)->0 <= t.len(),
{
    lemma_ws_end_bounds(t, g);
    lemma_ws_end_bounds(t, ws_end(t, g) + 2);
}

pub proof fn lemma_operand_end_bounds(t: Seq<char>, i: int)
    requires
        0 <= i <= t.len(),
    ensures
        i <= operand_end(t, i) <= t.len(),
    decreases t.len() - i,
{
    if i < t.len() && t[i] != ',' && t[i] != ')' {
        lemma_operand_end_bounds(t, i + 1);
    }
}

pub proof fn lemma_last_zero_check_bounds(t: Seq<char>, lo: int, hi: int)
    ensures
        last_zero_check(t, lo, hi) matches Some(g) ==> lo < g <= hi && zero_check_end(t, g) is Some,
    decreases hi - lo,
{
    if hi > lo && zero_check_end(t, hi) is None {
        lemma_last_zero_check_bounds(t, lo, hi - 1);
    }
}

pub proof fn lemma_equality_match_bounds(t: Seq<char>, p: int)
    requires
        0 <= p < t.len(),
        equality_match_at(t, p) is Some,
    ensures
        ({
            let m = equality_match_at(t, p)->0;
            p == m.cap_start <= m.cap_end < m.end <= t.len()
        }),
{
    lemma_word_end_bounds(t, p);
    lemma_zero_check_end_bounds(t, word_end(t, p));
}

pub proof fn lemma_require_match_bounds(t: Seq<char>, p: int)
    requires
        0 <= p < t.len(),
        require_match_at(t, p) is Some,
    ensures
        ({
            let m = require_match_at(t, p)->0;
            p < m.cap_start <= m.cap_end < m.end <= t.len()
        }),
{
    lemma_ws_end_bounds(t, p + 7);
    let o = ws_end(t, p + 7);
    lemma_ws_end_bounds(t, o + 1);
    lemma_operand_end_bounds(t, o + 1);
    let w = ws_end(t, o + 1);
    lemma_last_zero_check_bounds(t, w, operand_end(t, o + 1));
    match last_zero_check(t, w, operand_end(t, o + 1)) {
        Some(g) => lemma_zero_check_end_bounds(t, g),
        None => lemma_zero_check_end_bounds(t, w),
    }
}

/// The identifiers compared with the zero address in `t` from `from` on, in
/// textual order, repeats included.
pub open spec fn equality_caps_from(t: Seq<char>, from: int) -> Seq<Seq<char>>
    decreases t.len() - from,
{
    if 0 <= from < t.len() {
        match equality_match_at(t, from) {
            Some(m) => {
                proof {
                    lemma_equality_match_bounds(t, from);
                }
                seq![t.subrange(m.cap_start, m.cap_end)] + equality_caps_from(t, m.end)
            },
            None => equality_caps_from(t, from + 1),
        }
    } else {
        Seq::empty()
    }
}

/// The first arguments of the `require` checks against the zero address in
/// `t` from `from` on, trimmed, in textual order, repeats included.
pub open spec fn require_caps_from(t: Seq<char>, from: int) -> Seq<Seq<char>>
    decreases t.len() - from,
{
    if 0 <= from < t.len() {
        match require_match_at(t, from) {
            Some(m) => {
                proof {
                    lemma_require_match_bounds(t, from);
                }
                seq![trim(t.subrange(m.cap_start, m.cap_end))] + require_caps_from(t, m.end)
            },
            None => require_caps_from(t, from + 1),
        }
    } else {
        Seq::empty()
    }
}

/// The variables that `code` compares with the zero address, each once, in
/// order of first occurrence.
pub open spec fn equality_vars(code: Seq<char>) -> Seq<Seq<char>> {
    dedup(equality_caps_from(code, 0))
}

/// The variables that `code` checks against the zero address in `require`,
/// each once, in order of first occurrence.
pub open spec fn require_vars(code: Seq<char>) -> Seq<Seq<char>> {
    dedup(require_caps_from(code, 0))
}


fn zero_check(t: &Vec<char>, g: usize) -> (r: Option<usize>)
    requires
        g <= t@.len(),
    ensures
        r matches Some(e) ==> zero_check_end(t@, g as int) == Some(e as int),
        r is None ==> zero_check_end(t@, g as int) is None,
{
    proof {
        assert(['=', '=']@ == kw_eq());
        assert(['!', '=']@ == kw_ne());
        assert(['a', 'd', 'd', 'r', 'e', 's', 's', '(', '0', ')']@ == kw_zero());
        lemma_ws_end_bounds(t@, g as int);
    }
    let h = skip_ws(t, g);
    if t.len() - h >= 2 && (lit_at(t, h, &['=', '=']) || lit_at(t, h, &['!', '='])) {
        proof {
            lemma_ws_end_bounds(t@, h + 2);
        }
        let k = skip_ws(t, h + 2);
        if t.len() - k >= 10 && lit_at(t, k, &['a', 'd', 'd', 'r', 'e', 's', 's', '(', '0', ')']) {
            return Some(k + 10);
        }
    }
    None
}

fn equality_match(t: &Vec<char>, p: usize) -> (r: Option<(usize, usize)>)
    requires
        p < t@.len(),
    ensures
        match r {
            Some(x) => equality_match_at(t@, p as int) == Some(
                VarMatch { cap_start: p as int, cap_end: x.0 as int, end: x.1 as int },
            ),
            None => equality_match_at(t@, p as int) is None,
        },
{
    if !is_word_char(t[p]) {
        return None;
    }
    let e = skip_word(t, p);
    proof {
        lemma_word_end_bounds(t@, p as int);
    }
    match zero_check(t, e) {
        Some(end) => Some((e, end)),
        None => None,
    }
}

fn skip_operand(t: &Vec<char>, i: usize) -> (r: usize)
    requires
        i <= t@.len(),
    ensures
        r == operand_end(t@, i as int),
{
    let mut j: usize = i;
    while j < t.len() && t[j] != ',' && t[j] != ')'
        invariant
            i <= j <= t@.len(),
            operand_end(t@, j as int) == operand_end(t@, i as int),
        decreases t@.len() - j,
    {
        j = j + 1;
    }
    j
}

fn find_last_zero_check(t: &Vec<char>, lo: usize, hi: usize) -> (r: Option<(usize, usize)>)
    requires
        lo <= hi <= t@.len(),
    ensures
        match r {
            Some(x) => last_zero_check(t@, lo as int, hi as int) == Some(x.0 as int)
                && zero_check_end(t@, x.0 as int) == Some(x.1 as int),
            None => last_zero_check(t@, lo as int, hi as int) is None,
        },
{
    let mut g: usize = hi;
    while g > lo
        invariant
            lo <= g <= hi <= t@.len(),
            last_zero_check(t@, lo as int, g as int) == last_zero_check(t@, lo as int, hi as int),
        decreases g - lo,
    {
        match zero_check(t, g) {
            Some(end) => {
                return Some((g, end));
            },
            None => {
                g = g - 1;
            },
        }
    }
    None
}

fn require_match(t: &Vec<char>, p: usize) -> (r: Option<(usize, usize, usize)>)
    requires
        p < t@.len(),
    ensures
        match r {
            Some(x) => require_match_at(t@, p as int) == Some(
                VarMatch { cap_start: x.0 as int, cap_end: x.1 as int, end: x.2 as int },
            ),
            None => require_match_at(t@, p as int) is None,
        },
{
    proof {
        assert(['r', 'e', 'q', 'u', 'i', 'r', 'e']@ == kw_require());
    }
    if t.len() - p < 7 || !lit_at(t, p, &['r', 'e', 'q', 'u', 'i', 'r', 'e']) {
        return None;
    }
    let o = skip_ws(t, p + 7);
    proof {
        lemma_ws_end_bounds(t@, p + 7);
    }
    if o >= t.len() || t[o] != '(' {
        return None;
    }
    let w = skip_ws(t, o + 1);
    let oe = skip_operand(t, o + 1);
    proof {
        lemma_ws_end_bounds(t@, o + 1);
        lemma_operand_end_bounds(t@, o + 1);
    }
    let w2 = if w <= oe { w } else { oe };
    proof {
        if w > oe {
            assert(last_zero_check(t@, w as int, oe as int) is None);
        }
    }
    match find_last_zero_check(t, w2, oe) {
        Some((g, end)) => {
            assert(w <= oe);
            Some((w, g, end))
        },
        None => {
            if w > o + 1 {
                match zero_check(t, w) {
                    Some(end) => Some((w - 1, w, end)),
                    None => None,
                }
            } else {
                None
            }
        },
    }
}


/// The variables that `s` compares with the zero address, each once, in
/// order of first occurrence.
pub fn equality_variables(s: &str) -> (r: Vec<String>)
    ensures
        r.deep_view() == equality_vars(s@),
{
    let t = chars_of(s);
    let mut r: Vec<String> = Vec::new();
    let mut pos: usize = 0;
    let ghost seen: Seq<Seq<char>> = Seq::empty();
    while pos < t.len()
        invariant
            pos <= t@.len(),
            t@ == s@,
            seen + equality_caps_from(t@, pos as int) == equality_caps_from(t@, 0),
            r.deep_view() == dedup(seen),
        decreases t@.len() - pos,
    {
        match equality_match(&t, pos) {
            Some((e, end)) => {
                proof {
                    lemma_equality_match_bounds(t@, pos as int);
                }
                let name = string_of(s, pos, e);
                push_new(&mut r, name, Ghost(Seq::empty()), Ghost(seen));
                proof {
                    assert(seen.push(name@) + equality_caps_from(t@, end as int) =~= seen
                        + equality_caps_from(t@, pos as int));
                    seen = seen.push(name@);
                }
                pos = end;
            },
            None => {
                pos = pos + 1;
            },
        }
    }
    assert(seen + equality_caps_from(t@, pos as int) =~= seen);
    r
}

/// The variables that `s` checks against the zero address in `require`,
/// each once, in order of first occurrence.
pub fn require_variables(s: &str) -> (r: Vec<String>)
    ensures
        r.deep_view() == require_vars(s@),
{
    let t = chars_of(s);
    let mut r: Vec<String> = Vec::new();
    let mut pos: usize = 0;
    let ghost seen: Seq<Seq<char>> = Seq::empty();
    while pos < t.len()
        invariant
            pos <= t@.len(),
            t@ == s@,
            seen + require_caps_from(t@, pos as int) == require_caps_from(t@, 0),
            r.deep_view() == dedup(seen),
        decreases t@.len() - pos,
    {
        match require_match(&t, pos) {
            Some((cs, ce, end)) => {
                proof {
                    lemma_require_match_bounds(t@, pos as int);
                }
                let (lo, hi) = trim_bounds(&t, cs, ce);
                let name = string_of(s, lo, hi);
                push_new(&mut r, name, Ghost(Seq::empty()), Ghost(seen));
                proof {
                    assert(seen.push(name@) + require_caps_from(t@, end as int) =~= seen
                        + require_caps_from(t@, pos as int));
                    seen = seen.push(name@);
                }
                pos = end;
            },
            None => {
                pos = pos + 1;
            },
        }
    }
    assert(seen + require_caps_from(t@, pos as int) =~= seen);
    r
}

} // verus!
