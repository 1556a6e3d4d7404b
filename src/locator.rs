//! Locating function units in source text: constructors, functions named
//! `initialize`, and any function.

use vstd::prelude::*;
use crate::text::{
    find_char, find_from, has_at, is_word, is_word_char, lemma_find_from_bounds,
    lemma_word_end_bounds, lemma_ws_end_bounds, lit_at, skip_word, skip_ws, word_end, ws_end,
};

verus! {

/// The rules that locate function units.
#[derive(Debug, Clone, Copy, PartialEq, Eq, Structural)]
pub enum UnitRule {
    /// `constructor(...) {...}`.
    Constructor,
    /// `function initialize(...) ... {...}`.
    Initializer,
    /// `function name(...) ... {...}`.
    AnyFunction,
}

pub open spec fn kw_constructor() -> Seq<char> {
    seq!['c', 'o', 'n', 's', 't', 'r', 'u', 'c', 't', 'o', 'r']
}

pub open spec fn kw_function() -> Seq<char> {
    seq!['f', 'u', 'n', 'c', 't', 'i', 'o', 'n']
}

pub open spec fn kw_initialize() -> Seq<char> {
    seq!['i', 'n', 'i', 't', 'i', 'a', 'l', 'i', 'z', 'e']
}

/// A function unit found at some start: its name (empty for the fixed
/// kinds), its parameter text, its body text, and where the match ends.
pub struct UnitMatch {
    pub name_start: int,
    pub name_end: int,
    pub args_start: int,
    pub args_end: int,
    pub body_start: int,
    pub body_end: int,
}

/// The first `)` at or after `k` that is followed, after optional
/// whitespace, by `{`; the length if there is none.
pub open spec fn close_before_brace(t: Seq<char>, k: int) -> int
    decreases t.len() - k,
{
    if 0 <= k < t.len() {
        if t[k] == ')' && ws_end(t, k + 1) < t.len() && t[ws_end(t, k + 1)] == '{' {
            k
        } else {
            close_before_brace(t, k + 1)
        }
    } else {
        t.len() as int
    }
}

/// The parameter list opened just before `a`, then anything but `{`, then a
/// body that ends at the first `}`: the parameter list ends at the first `)`.
pub open spec fn block_after(t: Seq<char>, a: int, name_start: int, name_end: int) -> Option<
    UnitMatch,
> {
    let q = find_from(t, a, ')');
    let b = find_from(t, q + 1, '{');
    let e = find_from(t, b + 1, '}');
    if q < t.len() && b < t.len() && e < t.len() {
        Some(
            UnitMatch {
                name_start,
                name_end,
                args_start: a,
                args_end: q,
                body_start: b + 1,
                body_end: e,
            },
        )
    } else {
        None
    }
}

/// The function unit that `rule` finds at `p`. A body ends at the first `}`
/// after its `{`, whatever blocks it opens before.
pub open spec fn unit_match_at(rule: UnitRule, t: Seq<char>, p: int) -> Option<UnitMatch> {
    match rule {
        UnitRule::Constructor => if has_at(t, p, kw_constructor()) {
            let o = ws_end(t, p + 11);
            if o < t.len() && t[o] == '(' {
                let q = close_before_brace(t, o + 1);
                let b = ws_end(t, q + 1);
                let e = find_from(t, b + 1, '}');
                if q < t.len() && e < t.len() {
                    Some(
                        UnitMatch {
                            name_start: p,
                            name_end: p,
                            args_start: o + 1,
                            args_end: q,
                            body_start: b + 1,
                            body_end: e,
                        },
                    )
                } else {
                    None
                }
            } else {
                None
            }
        } else {
            None
        },
        UnitRule::Initializer => if has_at(t, p, kw_function()) {
            let s = ws_end(t, p + 8);
            if s > p + 8 && has_at(t, s, kw_initialize()) {
                let o = ws_end(t, s + 10);
                if o < t.len() && t[o] == '(' {
                    block_after(t, o + 1, p, p)
                } else {
                    None
                }
            } else {
                None
            }
        } else {
            None
        },
        UnitRule::AnyFunction => if has_at(t, p, kw_function()) {
            let s = ws_end(t, p + 8);
            if s > p + 8 && s < t.len() && is_word(t[s]) {
                let ne = word_end(t, s);
                let o = ws_end(t, ne);
                if o < t.len() && t[o] == '(' {
                    block_after(t, o + 1, s, ne)
                } else {
                    None
                }
            } else {
                None
            }
        } else {
            None
        },
    }
}

pub proof fn lemma_close_before_brace_bounds(t: Seq<char>, k: int)
    requires
        0 <= k <= t.len(),
    ensures
        k <= close_before_brace(t, k) <= t.len(),
        close_before_brace(t, k) < t.len() ==> t[close_before_brace(t, k)] == ')' && ws_end(
            t,
            close_before_brace(t, k) + 1,
        ) < t.len() && t[ws_end(t, close_before_brace(t, k) + 1)] == '{',
    decreases t.len() - k,
{
    if k < t.len() && !(t[k] == ')' && ws_end(t, k + 1) < t.len() && t[ws_end(t, k + 1)] == '{') {
        lemma_close_before_brace_bounds(t, k + 1);
    }
}

proof fn lemma_block_after_bounds(t: Seq<char>, a: int, ns: int, ne: int)
    requires
        0 <= a <= t.len(),
        block_after(t, a, ns, ne) is Some,
    ensures
        ({
            let m = block_after(t, a, ns, ne)->0;
            a <= m.args_end < m.body_start <= m.body_end < t.len()
        }),
{
    lemma_find_from_bounds(t, a, ')');
    let q = find_from(t, a, ')');
    lemma_find_from_bounds(t, q + 1, '{');
    let b = find_from(t, q + 1, '{');
    lemma_find_from_bounds(t, b + 1, '}');
}

pub proof fn lemma_unit_match_bounds(rule: UnitRule, t: Seq<char>, p: int)
    requires
        0 <= p < t.len(),
        unit_match_at(rule, t, p) is Some,
    ensures
        ({
            let m = unit_match_at(rule, t, p)->0;
            &&& p <= m.name_start <= m.name_end < m.args_start <= m.args_end < m.body_start
                <= m.body_end < t.len()
            &&& rule != UnitRule::AnyFunction ==> m.name_start == m.name_end
        }),
{
    match rule {
        UnitRule::Constructor => {
            lemma_ws_end_bounds(t, p + 11);
            let o = ws_end(t, p + 11);
            lemma_close_before_brace_bounds(t, o + 1);
            let q = close_before_brace(t, o + 1);
            lemma_ws_end_bounds(t, q + 1);
            let b = ws_end(t, q + 1);
            lemma_find_from_bounds(t, b + 1, '}');
        },
        UnitRule::Initializer => {
            lemma_ws_end_bounds(t, p + 8);
            let s = ws_end(t, p + 8);
            lemma_ws_end_bounds(t, s + 10);
            lemma_block_after_bounds(t, ws_end(t, s + 10) + 1, p, p);
        },
        UnitRule::AnyFunction => {
            lemma_ws_end_bounds(t, p + 8);
            let s = ws_end(t, p + 8);
            lemma_word_end_bounds(t, s);
            let ne = word_end(t, s);
            lemma_ws_end_bounds(t, ne);
            lemma_block_after_bounds(t, ws_end(t, ne) + 1, s, ne);
        },
    }
}

fn close_brace_scan(t: &Vec<char>, k: usize) -> (r: usize)
    requires
        k <= t@.len(),
    ensures
        r == close_before_brace(t@, k as int),
{
    let mut j: usize = k;
    while j < t.len()
        invariant
            k <= j <= t@.len(),
            close_before_brace(t@, j as int) == close_before_brace(t@, k as int),
        decreases t@.len() - j,
    {
        if t[j] == ')' {
            let w = skip_ws(t, j + 1);
            if w < t.len() && t[w] == '{' {
                return j;
            }
        }
        j = j + 1;
    }
    j
}

fn block_scan(t: &Vec<char>, a: usize, ns: usize, ne: usize) -> (r: Option<(usize, usize, usize)>)
    requires
        a <= t@.len(),
    ensures
        match r {
            Some(x) => block_after(t@, a as int, ns as int, ne as int) == Some(
                UnitMatch {
                    name_start: ns as int,
                    name_end: ne as int,
                    args_start: a as int,
                    args_end: x.0 as int,
                    body_start: x.1 as int,
                    body_end: x.2 as int,
                },
            ),
            None => block_after(t@, a as int, ns as int, ne as int) is None,
        },
{
    let q = find_char(t, a, ')');
    if q >= t.len() {
        return None;
    }
    let b = find_char(t, q + 1, '{');
    if b >= t.len() {
        return None;
    }
    let e = find_char(t, b + 1, '}');
    if e >= t.len() {
        return None;
    }
    Some((q, b + 1, e))
}

/// The unit that `rule` finds at `p`, as name start and end, parameter start
/// and end, body start and end.
pub fn unit_match(rule: UnitRule, t: &Vec<char>, p: usize) -> (r: Option<
    (usize, usize, usize, usize, usize, usize),
>)
    requires
        p < t@.len(),
    ensures
        match r {
            Some(x) => unit_match_at(rule, t@, p as int) == Some(
                UnitMatch {
                    name_start: x.0 as int,
                    name_end: x.1 as int,
                    args_start: x.2 as int,
                    args_end: x.3 as int,
                    body_start: x.4 as int,
                    body_end: x.5 as int,
                },
            ),
            None => unit_match_at(rule, t@, p as int) is None,
        },
{
    proof {
        assert(['c', 'o', 'n', 's', 't', 'r', 'u', 'c', 't', 'o', 'r']@ == kw_constructor());
        assert(['f', 'u', 'n', 'c', 't', 'i', 'o', 'n']@ == kw_function());
        assert(['i', 'n', 'i', 't', 'i', 'a', 'l', 'i', 'z', 'e']@ == kw_initialize());
    }
    match rule {
        UnitRule::Constructor => {
            if t.len() - p < 11 || !lit_at(
                t,
                p,
                &['c', 'o', 'n', 's', 't', 'r', 'u', 'c', 't', 'o', 'r'],
            ) {
                return None;
            }
            let o = skip_ws(t, p + 11);
            proof {
                lemma_ws_end_bounds(t@, p + 11);
            }
            if o >= t.len() || t[o] != '(' {
                return None;
            }
            let q = close_brace_scan(t, o + 1);
            proof {
                lemma_close_before_brace_bounds(t@, o + 1);
            }
            if q >= t.len() {
                return None;
            }
            let b = skip_ws(t, q + 1);
            let e = find_char(t, b + 1, '}');
            if e >= t.len() {
                return None;
            }
            Some((p, p, o + 1, q, b + 1, e))
        },
        _ => {
            if t.len() - p < 8 || !lit_at(t, p, &['f', 'u', 'n', 'c', 't', 'i', 'o', 'n']) {
                return None;
            }
            let s = skip_ws(t, p + 8);
            proof {
                lemma_ws_end_bounds(t@, p + 8);
            }
            if s <= p + 8 {
                return None;
            }
            let (ns, ne, o) = if rule == UnitRule::Initializer {
                if t.len() - s < 10 || !lit_at(
                    t,
                    s,
                    &['i', 'n', 'i', 't', 'i', 'a', 'l', 'i', 'z', 'e'],
                ) {
                    return None;
                }
                proof {
                    lemma_ws_end_bounds(t@, s + 10);
                }
                (p, p, skip_ws(t, s + 10))
            } else {
                if s >= t.len() || !is_word_char(t[s]) {
                    return None;
                }
                let ne = skip_word(t, s);
                proof {
                    lemma_word_end_bounds(t@, s as int);
                    lemma_ws_end_bounds(t@, ne as int);
                }
                (s, ne, skip_ws(t, ne))
            };
            if o >= t.len() || t[o] != '(' {
                return None;
            }
            match block_scan(t, o + 1, ns, ne) {
                Some((q, bs, e)) => Some((ns, ne, o + 1, q, bs, e)),
                None => None,
            }
        },
    }
}

} // verus!
