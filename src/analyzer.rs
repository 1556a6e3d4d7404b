//! Classification of function units, and the analysis of whole sources.

use vstd::prelude::*;
use crate::rules::{
    address_parameters, address_params, equality_variables, equality_vars, require_variables,
    require_vars,
};
use crate::text::{
    append_new, lemma_append_new_no_duplicates, lemma_dedup_no_duplicates, chars_of, contains_string, push_new, find_char, find_from, string_of, trim, trim_bounds};
use crate::locator::{lemma_unit_match_bounds, unit_match, unit_match_at, UnitMatch, UnitRule};
use crate::types::{
    AnalysisResult, AnalysisView, ConstructorAnalyzerError, FunctionKindView, FunctionType,
    ValidationType,
};

verus! {

/// Largest index below `j` that holds `c`, or -1 if none does.
pub open spec fn rfind_before(t: Seq<char>, j: int, c: char) -> int
    decreases j,
{
    if j <= 0 {
        -1
    } else if j <= t.len() && t[j - 1] == c {
        j - 1
    } else {
        rfind_before(t, j - 1, c)
    }
}

/// The text that is scanned for checks: what stands between the first `{`
/// and the last `}` of `code`, trimmed; all of `code` where it has no such
/// pair in that order.
pub open spec fn body_of(code: Seq<char>) -> Seq<char> {
    let a = find_from(code, 0, '{');
    let b = rfind_before(code, code.len() as int, '}');
    if a < code.len() && a < b {
        trim(code.subrange(a + 1, b))
    } else {
        code
    }
}

/// The variables checked against the zero address: the equality checks'
/// variables, then those of `require` checks not already among them.
pub open spec fn validated_of(body: Seq<char>) -> Seq<Seq<char>> {
    append_new(equality_vars(body), require_vars(body))
}

/// The names of `params` that `validated` does not hold, in order.
pub open spec fn missing_of(params: Seq<(Seq<char>, Seq<char>)>, validated: Seq<Seq<char>>) -> Seq<
    Seq<char>,
>
    decreases params.len(),
{
    if params.len() == 0 {
        Seq::empty()
    } else {
        let m = missing_of(params.drop_last(), validated);
        if validated.contains(params.last().1) {
            m
        } else {
            m.push(params.last().1)
        }
    }
}

/// `EqualityCheck` if equality checks were found, then `RequireStatement` if
/// `require` checks were.
pub open spec fn tags_of(body: Seq<char>) -> Seq<ValidationType> {
    (if equality_vars(body).len() > 0 {
        seq![ValidationType::EqualityCheck]
    } else {
        Seq::empty()
    }) + (if require_vars(body).len() > 0 {
        seq![ValidationType::RequireStatement]
    } else {
        Seq::empty()
    })
}

/// The analysis of a function unit with the given kind, file, parameter list
/// and code.
pub open spec fn analysis_of(
    kind: FunctionKindView,
    file_name: Seq<char>,
    arguments: Seq<char>,
    code: Seq<char>,
) -> AnalysisView {
    let body = body_of(code);
    let params = address_params(arguments);
    let validated = validated_of(body);
    AnalysisView {
        kind,
        file_name,
        arguments,
        code,
        address_arguments: params,
        validated,
        missing: missing_of(params, validated),
        tags: tags_of(body),
    }
}

/// The names of `params`, in order.
pub open spec fn names_of(params: Seq<(Seq<char>, Seq<char>)>) -> Seq<Seq<char>> {
    params.map_values(|p: (Seq<char>, Seq<char>)| p.1)
}

/// `s` is `t` with some entries left out, the rest in the same order.
pub open spec fn is_subsequence(s: Seq<Seq<char>>, t: Seq<Seq<char>>) -> bool {
    exists|idx: Seq<int>| is_embedding(idx, s, t)
}

/// `idx` places each entry of `s` at a position of `t` holding it, in
/// increasing order.
pub open spec fn is_embedding(idx: Seq<int>, s: Seq<Seq<char>>, t: Seq<Seq<char>>) -> bool {
    &&& idx.len() == s.len()
    &&& forall|k: int| 0 <= k < idx.len() ==> 0 <= #[trigger] idx[k] < t.len() && t[idx[k]] == s[k]
    &&& forall|k: int, l: int| 0 <= k < l < idx.len() ==> #[trigger] idx[k] < #[trigger] idx[l]
}

proof fn lemma_missing_embedding(params: Seq<(Seq<char>, Seq<char>)>, validated: Seq<Seq<char>>) -> (idx:
    Seq<int>)
    ensures
        is_embedding(idx, missing_of(params, validated), names_of(params)),
        forall|k: int|
            0 <= k < missing_of(params, validated).len() ==> !validated.contains(
                #[trigger] missing_of(params, validated)[k],
            ),
    decreases params.len(),
{
    if params.len() == 0 {
        Seq::empty()
    } else {
        let init = params.drop_last();
        let prev = lemma_missing_embedding(init, validated);
        let m = missing_of(init, validated);
        assert(names_of(init) =~= names_of(params).drop_last());
        if validated.contains(params.last().1) {
            prev
        } else {
            let idx = prev.push(params.len() - 1);
            let mm = m.push(params.last().1);
            assert forall|k: int| 0 <= k < mm.len() implies !validated.contains(#[trigger] mm[k]) by {
                if k < m.len() {
                    assert(mm[k] == m[k]);
                }
            }
            assert forall|k: int| 0 <= k < idx.len() implies 0 <= #[trigger] idx[k] < names_of(
                params,
            ).len() && names_of(params)[idx[k]] == mm[k] by {
                if k < prev.len() {
                    assert(idx[k] == prev[k]);
                    assert(names_of(params)[idx[k]] == names_of(init)[prev[k]]);
                }
            }
            assert forall|k: int, l: int| 0 <= k < l < idx.len() implies #[trigger] idx[k]
                < #[trigger] idx[l] by {
                assert(idx[k] == prev[k]);
                if l < prev.len() {
                    assert(idx[l] == prev[l]);
                }
            }
            idx
        }
    }
}

/// The parameters found unchecked are the address parameters' names with
/// some left out, in the same order, and none of them is among the checked
/// variables.
pub proof fn lemma_missing_within_parameters(
    kind: FunctionKindView,
    file_name: Seq<char>,
    arguments: Seq<char>,
    code: Seq<char>,
)
    ensures
        ({
            let a = analysis_of(kind, file_name, arguments, code);
            &&& is_subsequence(a.missing, names_of(a.address_arguments))
            &&& forall|k: int| 0 <= k < a.missing.len() ==> !a.validated.contains(#[trigger] a.missing[k])
        }),
{
    let a = analysis_of(kind, file_name, arguments, code);
    let idx = lemma_missing_embedding(a.address_arguments, a.validated);
    assert(is_embedding(idx, a.missing, names_of(a.address_arguments)));
}

/// The checked variables hold no name twice, however often a variable is
/// checked.
pub proof fn lemma_validated_distinct(
    kind: FunctionKindView,
    file_name: Seq<char>,
    arguments: Seq<char>,
    code: Seq<char>,
)
    ensures
        analysis_of(kind, file_name, arguments, code).validated.no_duplicates(),
{
    let body = body_of(code);
    lemma_dedup_no_duplicates(crate::rules::equality_caps_from(body, 0));
    lemma_append_new_no_duplicates(equality_vars(body), require_vars(body));
}

/// Classifying the same function unit twice gives the same result.
pub proof fn lemma_classification_repeatable(
    kind: FunctionKindView,
    file_name: Seq<char>,
    arguments: Seq<char>,
    code: Seq<char>,
    first: AnalysisResult,
    second: AnalysisResult,
)
    requires
        first@ == analysis_of(kind, file_name, arguments, code),
        second@ == analysis_of(kind, file_name, arguments, code),
    ensures
        first@ == second@,
{
}

/// The analyzer. Its matching rules are fixed: building one cannot fail.
pub struct ConstructorAnalyzer {}

impl ConstructorAnalyzer {
    pub fn new() -> (r: Result<ConstructorAnalyzer, ConstructorAnalyzerError>)
        ensures
            r is Ok,
    {
        Ok(ConstructorAnalyzer {  })
    }

    /// The address parameters of a parameter list, as declared type and
    /// name, in declaration order.
    pub fn extract_address_arguments(&self, args: &str) -> (r: Vec<(String, String)>)
        ensures
            r.deep_view() == address_params(args@),
    {
        address_parameters(args)
    }

    /// Variables compared with the zero address by `==` or `!=`, each once.
    pub fn extract_equality_checked_variables(&self, code: &str) -> (r: Vec<String>)
        ensures
            r.deep_view() == equality_vars(code@),
    {
        equality_variables(code)
    }

    /// Variables checked against the zero address in `require`, each once.
    pub fn extract_require_checked_variables(&self, code: &str) -> (r: Vec<String>)
        ensures
            r.deep_view() == require_vars(code@),
    {
        require_variables(code)
    }

    /// Classifies one function unit.
    pub fn analyze_function(
        &self,
        function_type: FunctionType,
        file_name: String,
        arguments: &str,
        full_function_code: &str,
    ) -> (r: AnalysisResult)
        ensures
            r@ == analysis_of(function_type@, file_name@, arguments@, full_function_code@),
    {
        let address_arguments = address_parameters(arguments);
        let body = function_body(full_function_code);
        let eq_vars = equality_variables(body.as_str());
        let req_vars = require_variables(body.as_str());
        let ghost eq = eq_vars.deep_view();
        let mut validated_variables: Vec<String> = Vec::new();
        let mut i: usize = 0;
        while i < eq_vars.len()
            invariant
                i <= eq_vars@.len(),
                eq == eq_vars.deep_view(),
                validated_variables.deep_view() == eq.take(i as int),
            decreases eq_vars@.len() - i,
        {
            let ghost before = validated_variables.deep_view();
            let v = eq_vars[i].clone();
            assert(v@ == eq[i as int]);
            validated_variables.push(v);
            assert(validated_variables.deep_view() =~= before.push(eq[i as int]));
            assert(eq.take(i + 1) =~= eq.take(i as int).push(eq[i as int]));
            i = i + 1;
        }
        assert(eq.take(i as int) =~= eq);
        let ghost req = req_vars.deep_view();
        let mut j: usize = 0;
        while j < req_vars.len()
            invariant
                j <= req_vars@.len(),
                eq == eq_vars.deep_view(),
                req == req_vars.deep_view(),
                validated_variables.deep_view() == append_new(eq, req.take(j as int)),
            decreases req_vars@.len() - j,
        {
            let v = req_vars[j].clone();
            assert(req.take(j + 1) =~= req.take(j as int).push(v@));
            push_new(&mut validated_variables, v, Ghost(eq), Ghost(req.take(j as int)));
            j = j + 1;
        }
        assert(req.take(j as int) =~= req);
        let mut missing_validations: Vec<String> = Vec::new();
        let ghost params = address_arguments.deep_view();
        let ghost validated = validated_variables.deep_view();
        let mut k: usize = 0;
        while k < address_arguments.len()
            invariant
                k <= address_arguments@.len(),
                params == address_arguments.deep_view(),
                validated == validated_variables.deep_view(),
                missing_validations.deep_view() == missing_of(params.take(k as int), validated),
            decreases address_arguments@.len() - k,
        {
            assert(params.take(k + 1).drop_last() =~= params.take(k as int));
            let name = &address_arguments[k].1;
            if !contains_string(&validated_variables, name) {
                let ghost before = missing_validations.deep_view();
                missing_validations.push(name.clone());
                assert(missing_validations.deep_view() =~= before.push(name@));
            }
            k = k + 1;
        }
        assert(params.take(k as int) =~= params);
        let mut validation_types: Vec<ValidationType> = Vec::new();
        if eq_vars.len() > 0 {
            validation_types.push(ValidationType::EqualityCheck);
        }
        if req_vars.len() > 0 {
            validation_types.push(ValidationType::RequireStatement);
        }
        assert(validation_types@ =~= tags_of(body@));
        AnalysisResult {
            function_type,
            file_name,
            arguments: arguments.to_owned(),
            code: full_function_code.to_owned(),
            address_arguments,
            validated_variables,
            missing_validations,
            validation_types,
        }
    }
}

fn rfind_char(t: &Vec<char>, c: char) -> (r: Option<usize>)
    ensures
        match r {
            Some(b) => rfind_before(t@, t@.len() as int, c) == b as int && b < t@.len(),
            None => rfind_before(t@, t@.len() as int, c) == -1,
        },
{
    let mut j: usize = t.len();
    while j > 0 && t[j - 1] != c
        invariant
            j <= t@.len(),
            rfind_before(t@, j as int, c) == rfind_before(t@, t@.len() as int, c),
        decreases j,
    {
        j = j - 1;
    }
    if j == 0 {
        None
    } else {
        Some(j - 1)
    }
}

/// The part of `code` that is scanned for checks.
fn function_body(code: &str) -> (r: String)
    ensures
        r@ == body_of(code@),
{
    let t = chars_of(code);
    let a = find_char(&t, 0, '{');
    match rfind_char(&t, '}') {
        Some(b) => {
            if a < t.len() && a < b {
                let (lo, hi) = trim_bounds(&t, a + 1, b);
                return string_of(code, lo, hi);
            }
        },
        None => {},
    }
    code.to_owned()
}


pub open spec fn unit_args(t: Seq<char>, m: UnitMatch) -> Seq<char> {
    trim(t.subrange(m.args_start, m.args_end))
}

pub open spec fn unit_body(t: Seq<char>, m: UnitMatch) -> Seq<char> {
    trim(t.subrange(m.body_start, m.body_end))
}

pub open spec fn unit_name(t: Seq<char>, m: UnitMatch) -> Seq<char> {
    t.subrange(m.name_start, m.name_end)
}

/// `(args) {`, a line break, the body, a line break and `}`.
pub open spec fn unit_tail(args: Seq<char>, body: Seq<char>) -> Seq<char> {
    seq!['('] + args + seq![')', ' ', '{', '\n'] + body + seq!['\n', '}']
}

/// The code of a unit as reconstructed from its signature and body.
pub open spec fn unit_code(rule: UnitRule, t: Seq<char>, m: UnitMatch) -> Seq<char> {
    let tail = unit_tail(unit_args(t, m), unit_body(t, m));
    match rule {
        UnitRule::Constructor => seq!['c', 'o', 'n', 's', 't', 'r', 'u', 'c', 't', 'o', 'r'] + tail,
        UnitRule::Initializer => seq![
            'f', 'u', 'n', 'c', 't', 'i', 'o', 'n', ' ', 'i', 'n', 'i', 't', 'i', 'a', 'l', 'i', 'z', 'e'
        ] + tail,
        UnitRule::AnyFunction => seq!['f', 'u', 'n', 'c', 't', 'i', 'o', 'n', ' '] + unit_name(t, m)
            + tail,
    }
}

pub open spec fn unit_kind(rule: UnitRule, t: Seq<char>, m: UnitMatch) -> FunctionKindView {
    match rule {
        UnitRule::Constructor => FunctionKindView::Constructor,
        UnitRule::Initializer => FunctionKindView::Initialize,
        UnitRule::AnyFunction => FunctionKindView::Regular(unit_name(t, m)),
    }
}

/// Whether a unit is reported: a unit found by the rule for any function is
/// reported only when it is not named `initialize` and has address
/// parameters.
pub open spec fn unit_kept(rule: UnitRule, t: Seq<char>, m: UnitMatch) -> bool {
    rule != UnitRule::AnyFunction || (unit_name(t, m) != crate::locator::kw_initialize()
        && address_params(unit_args(t, m)).len() > 0)
}

/// The results for the units that `rule` finds in `t` from `from` on, in
/// textual order.
pub open spec fn rule_results_from(rule: UnitRule, t: Seq<char>, file_name: Seq<char>, from: int) -> Seq<
    AnalysisView,
>
    decreases t.len() - from,
{
    if 0 <= from < t.len() {
        match unit_match_at(rule, t, from) {
            Some(m) => {
                proof {
                    lemma_unit_match_bounds(rule, t, from);
                }
                let rest = rule_results_from(rule, t, file_name, m.body_end + 1);
                if unit_kept(rule, t, m) {
                    seq![
                        analysis_of(
                            unit_kind(rule, t, m),
                            file_name,
                            unit_args(t, m),
                            unit_code(rule, t, m),
                        ),
                    ] + rest
                } else {
                    rest
                }
            },
            None => rule_results_from(rule, t, file_name, from + 1),
        }
    } else {
        Seq::empty()
    }
}

/// The results for a whole source text: its constructors, then its
/// `initialize` functions, then, when asked for, its other functions with
/// address parameters.
pub open spec fn source_results(t: Seq<char>, file_name: Seq<char>, all_functions: bool) -> Seq<
    AnalysisView,
> {
    rule_results_from(UnitRule::Constructor, t, file_name, 0) + rule_results_from(
        UnitRule::Initializer,
        t,
        file_name,
        0,
    ) + if all_functions {
        rule_results_from(UnitRule::AnyFunction, t, file_name, 0)
    } else {
        Seq::empty()
    }
}

pub open spec fn views_of(r: Seq<AnalysisResult>) -> Seq<AnalysisView> {
    r.map_values(|x: AnalysisResult| x@)
}


fn build_code(rule: UnitRule, name: &str, args: &str, body: &str) -> (r: String)
    ensures
        r@ == match rule {
            UnitRule::Constructor => seq!['c', 'o', 'n', 's', 't', 'r', 'u', 'c', 't', 'o', 'r']
                + unit_tail(args@, body@),
            UnitRule::Initializer => seq![
                'f', 'u', 'n', 'c', 't', 'i', 'o', 'n', ' ', 'i', 'n', 'i', 't', 'i', 'a', 'l', 'i', 'z', 'e'
            ] + unit_tail(args@, body@),
            UnitRule::AnyFunction => seq!['f', 'u', 'n', 'c', 't', 'i', 'o', 'n', ' '] + name@
                + unit_tail(args@, body@),
        },
{
    proof {
        reveal_strlit("constructor(");
        reveal_strlit("function initialize(");
        reveal_strlit("function ");
        reveal_strlit("(");
        reveal_strlit(") {\n");
        reveal_strlit("\n}");
    }
    let mut r = match rule {
        UnitRule::Constructor => String::from_str("constructor("),
        UnitRule::Initializer => String::from_str("function initialize("),
        UnitRule::AnyFunction => {
            let mut f = String::from_str("function ");
            f.append(name);
            f.append("(");
            f
        },
    };
    r.append(args);
    r.append(") {\n");
    r.append(body);
    r.append("\n}");
    proof {
        match rule {
            UnitRule::Constructor => {
                assert(r@ =~= seq!['c', 'o', 'n', 's', 't', 'r', 'u', 'c', 't', 'o', 'r']
                    + unit_tail(args@, body@));
            },
            UnitRule::Initializer => {
                assert(r@ =~= seq![
                    'f', 'u', 'n', 'c', 't', 'i', 'o', 'n', ' ', 'i', 'n', 'i', 't', 'i', 'a', 'l', 'i', 'z', 'e'
                ] + unit_tail(args@, body@));
            },
            UnitRule::AnyFunction => {
                assert(r@ =~= seq!['f', 'u', 'n', 'c', 't', 'i', 'o', 'n', ' '] + name@
                    + unit_tail(args@, body@));
            },
        }
    }
    r
}


fn is_initialize(name: &String) -> (r: bool)
    ensures
        r == (name@ == crate::locator::kw_initialize()),
{
    let k = String::from_str("initialize");
    proof {
        reveal_strlit("initialize");
        assert(k@ =~= crate::locator::kw_initialize());
    }
    *name == k
}

impl ConstructorAnalyzer {
    /// Appends the results for the units that `rule` finds in `s`.
    fn analyze_rule(
        &self,
        rule: UnitRule,
        s: &str,
        t: &Vec<char>,
        file_name: &String,
        results: &mut Vec<AnalysisResult>,
    )
        requires
            t@ == s@,
        ensures
            views_of(final(results)@) == views_of(old(results)@) + rule_results_from(
                rule,
                s@,
                file_name@,
                0,
            ),
    {
        let ghost start = views_of(results@);
        let mut pos: usize = 0;
        while pos < t.len()
            invariant
                t@ == s@,
                pos <= t@.len(),
                views_of(results@) + rule_results_from(rule, t@, file_name@, pos as int) == start
                    + rule_results_from(rule, t@, file_name@, 0),
            decreases t@.len() - pos,
        {
            match unit_match(rule, t, pos) {
                Some((ns, ne, a0, a1, b0, b1)) => {
                    proof {
                        lemma_unit_match_bounds(rule, t@, pos as int);
                    }
                    let ghost m = unit_match_at(rule, t@, pos as int)->0;
                    let (al, ah) = trim_bounds(t, a0, a1);
                    let args = string_of(s, al, ah);
                    let (bl, bh) = trim_bounds(t, b0, b1);
                    let body = string_of(s, bl, bh);
                    let name = string_of(s, ns, ne);
                    assert(args@ == unit_args(t@, m));
                    assert(body@ == unit_body(t@, m));
                    assert(name@ == unit_name(t@, m));
                    let keep = match rule {
                        UnitRule::AnyFunction => !is_initialize(&name) && address_parameters(
                            args.as_str(),
                        ).len() > 0,
                        _ => true,
                    };
                    let ghost before = views_of(results@);
                    if keep {
                        let code = build_code(rule, name.as_str(), args.as_str(), body.as_str());
                        let kind = match rule {
                            UnitRule::Constructor => FunctionType::Constructor,
                            UnitRule::Initializer => FunctionType::Initialize,
                            UnitRule::AnyFunction => FunctionType::Regular(name),
                        };
                        let r = self.analyze_function(
                            kind,
                            file_name.clone(),
                            args.as_str(),
                            code.as_str(),
                        );
                        results.push(r);
                        assert(views_of(results@) =~= before.push(r@));
                        assert(before.push(r@) + rule_results_from(rule, t@, file_name@, b1 + 1)
                            =~= before + rule_results_from(rule, t@, file_name@, pos as int));
                    }
                    pos = b1 + 1;
                },
                None => {
                    pos = pos + 1;
                },
            }
        }
        assert(views_of(results@) + rule_results_from(rule, t@, file_name@, pos as int)
            =~= views_of(results@));
    }

    /// The analysis of one source text: its constructors, then its
    /// `initialize` functions, then, with `all_functions`, every other
    /// function that has address parameters; each result names `file_name`.
    pub fn analyze_source(&self, file_name: &String, contents: &str, all_functions: bool) -> (r: Vec<
        AnalysisResult,
    >)
        ensures
            views_of(r@) == source_results(contents@, file_name@, all_functions),
    {
        let t = chars_of(contents);
        let mut results: Vec<AnalysisResult> = Vec::new();
        assert(views_of(results@) =~= Seq::empty());
        self.analyze_rule(UnitRule::Constructor, contents, &t, file_name, &mut results);
        self.analyze_rule(UnitRule::Initializer, contents, &t, file_name, &mut results);
        if all_functions {
            self.analyze_rule(UnitRule::AnyFunction, contents, &t, file_name, &mut results);
        }
        assert(views_of(results@) =~= source_results(contents@, file_name@, all_functions));
        results
    }
}


/// The results for several source texts, each given as file name and
/// contents: each text's results in its own order, texts in the given order.
pub open spec fn sources_results(files: Seq<(Seq<char>, Seq<char>)>, all_functions: bool) -> Seq<
    AnalysisView,
>
    decreases files.len(),
{
    if files.len() == 0 {
        Seq::empty()
    } else {
        sources_results(files.drop_last(), all_functions) + source_results(
            files.last().1,
            files.last().0,
            all_functions,
        )
    }
}

impl ConstructorAnalyzer {
    /// The analysis of several source texts, given as file name and
    /// contents, concatenated in the order given.
    pub fn analyze_sources(&self, files: &Vec<(String, String)>, all_functions: bool) -> (r: Vec<
        AnalysisResult,
    >)
        ensures
            views_of(r@) == sources_results(files.deep_view(), all_functions),
    {
        let ghost fs = files.deep_view();
        let mut results: Vec<AnalysisResult> = Vec::new();
        let mut k: usize = 0;
        assert(views_of(results@) =~= sources_results(fs.take(0), all_functions));
        while k < files.len()
            invariant
                k <= files@.len(),
                fs == files.deep_view(),
                views_of(results@) == sources_results(fs.take(k as int), all_functions),
            decreases files@.len() - k,
        {
            let (name, contents) = &files[k];
            let mut part = self.analyze_source(name, contents.as_str(), all_functions);
            let ghost before = results@;
            let ghost added = part@;
            results.append(&mut part);
            assert(fs.take(k + 1).drop_last() =~= fs.take(k as int));
            assert(views_of(results@) =~= views_of(before) + views_of(added));
            k = k + 1;
        }
        assert(fs.take(k as int) =~= fs);
        results
    }
}

/// In the results for several files, the results of each file stand
/// together, in that file's own order, after those of the files before it.
pub proof fn lemma_file_results_in_order(
    files: Seq<(Seq<char>, Seq<char>)>,
    all_functions: bool,
    i: int,
)
    requires
        0 <= i < files.len(),
    ensures
        ({
            let whole = sources_results(files, all_functions);
            let off = sources_results(files.take(i), all_functions).len() as int;
            let own = source_results(files[i].1, files[i].0, all_functions);
            &&& off + own.len() <= whole.len()
            &&& whole.subrange(off, off + own.len()) == own
        }),
    decreases files.len(),
{
    let whole = sources_results(files, all_functions);
    let prev = sources_results(files.drop_last(), all_functions);
    let own = source_results(files[i].1, files[i].0, all_functions);
    if i == files.len() - 1 {
        assert(files.take(i) =~= files.drop_last());
        assert(whole.subrange(prev.len() as int, (prev.len() + own.len()) as int) =~= own);
    } else {
        lemma_file_results_in_order(files.drop_last(), all_functions, i);
        assert(files.drop_last().take(i) =~= files.take(i));
        assert(files.drop_last()[i] == files[i]);
        let off = sources_results(files.take(i), all_functions).len() as int;
        assert(whole.subrange(off, off + own.len()) =~= prev.subrange(off, off + own.len()));
    }
}

} // verus!
