//! Counts over a set of results, by how completely each function validates
//! its address parameters.

use vstd::prelude::*;
use crate::analyzer::views_of;
use crate::types::{AnalysisResult, AnalysisView};

verus! {

/// How many entries of `s` satisfy `f`.
pub open spec fn count_where(s: Seq<AnalysisView>, f: spec_fn(AnalysisView) -> bool) -> nat
    decreases s.len(),
{
    if s.len() == 0 {
        0
    } else {
        count_where(s.drop_last(), f) + if f(s.last()) {
            1nat
        } else {
            0nat
        }
    }
}

pub open spec fn has_address_arguments(v: AnalysisView) -> bool {
    v.address_arguments.len() > 0
}

/// Every address parameter is checked.
pub open spec fn is_fully_validated(v: AnalysisView) -> bool {
    has_address_arguments(v) && v.missing.len() == 0
}

/// Some variable is checked, yet some address parameter is not.
pub open spec fn is_partially_validated(v: AnalysisView) -> bool {
    has_address_arguments(v) && v.missing.len() > 0 && v.validated.len() > 0
}

/// Address parameters, and no variable checked at all.
pub open spec fn is_unvalidated(v: AnalysisView) -> bool {
    has_address_arguments(v) && v.validated.len() == 0
}

/// Counts of a set of results.
#[derive(Debug, Clone, Copy, PartialEq, Eq, Structural)]
pub struct Summary {
    pub total: usize,
    pub with_address_arguments: usize,
    pub fully_validated: usize,
    pub partially_validated: usize,
    pub unvalidated: usize,
}

/// The counts of `results`: all of them, those with address parameters, and
/// among these the fully, partially and not validated ones.
pub fn summarize(results: &Vec<AnalysisResult>) -> (r: Summary)
    ensures
        r.total == results@.len(),
        r.with_address_arguments == count_where(
            views_of(results@),
            |v: AnalysisView| has_address_arguments(v),
        ),
        r.fully_validated == count_where(views_of(results@), |v: AnalysisView| is_fully_validated(v)),
        r.partially_validated == count_where(
            views_of(results@),
            |v: AnalysisView| is_partially_validated(v),
        ),
        r.unvalidated == count_where(views_of(results@), |v: AnalysisView| is_unvalidated(v)),
{
    let ghost vs = views_of(results@);
    let mut with_address_arguments: usize = 0;
    let mut fully_validated: usize = 0;
    let mut partially_validated: usize = 0;
    let mut unvalidated: usize = 0;
    let mut k: usize = 0;
    while k < results.len()
        invariant
            k <= results@.len(),
            vs == views_of(results@),
            with_address_arguments <= k,
            fully_validated <= k,
            partially_validated <= k,
            unvalidated <= k,
            with_address_arguments == count_where(
                vs.take(k as int),
                |v: AnalysisView| has_address_arguments(v),
            ),
            fully_validated == count_where(vs.take(k as int), |v: AnalysisView| is_fully_validated(v)),
            partially_validated == count_where(
                vs.take(k as int),
                |v: AnalysisView| is_partially_validated(v),
            ),
            unvalidated == count_where(vs.take(k as int), |v: AnalysisView| is_unvalidated(v)),
        decreases results@.len() - k,
    {
        let r = &results[k];
        assert(vs.take(k + 1).drop_last() =~= vs.take(k as int));
        assert(vs.take(k + 1).last() == r@);
        if r.address_arguments.len() > 0 {
            with_address_arguments = with_address_arguments + 1;
            if r.missing_validations.len() == 0 {
                fully_validated = fully_validated + 1;
            }
            if r.missing_validations.len() > 0 && r.validated_variables.len() > 0 {
                partially_validated = partially_validated + 1;
            }
            if r.validated_variables.len() == 0 {
                unvalidated = unvalidated + 1;
            }
        }
        k = k + 1;
    }
    assert(vs.take(k as int) =~= vs);
    Summary {
        total: results.len(),
        with_address_arguments,
        fully_validated,
        partially_validated,
        unvalidated,
    }
}

} // verus!
