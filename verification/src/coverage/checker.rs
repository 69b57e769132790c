//! The coverage gate: which files it checks, and the verdict on each file.
//!
//! The percentages and the threshold are floating-point numbers; their
//! comparisons are made by the caller, and the verdict is decided here from
//! their outcomes.
use vstd::prelude::*;

use crate::coverage::lcov::FileCoverage;
use crate::path_map::PathMap;
use crate::util::{excluded_by, is_excluded};

verus! {

/// The verdict of the coverage gate on one file.
#[derive(Debug, Clone, Copy, PartialEq, Eq, Structural)]
pub enum Verdict {
    /// At or above the threshold.
    Pass,
    /// Below the threshold, but with a baseline it has not fallen below.
    Legacy,
    /// Below the threshold, with no baseline.
    BelowThreshold,
    /// Fallen below its baseline while the ratchet is on.
    Regressed,
}

/// The verdict on a file: `has_baseline` tells whether a baseline is
/// recorded for it, `regressed` whether its percentage is below that
/// baseline, `meets_threshold` whether it reaches the required percentage.
pub open spec fn spec_verdict(
    has_baseline: bool,
    regressed: bool,
    meets_threshold: bool,
    ratchet: bool,
    fail_on_regression: bool,
) -> Verdict {
    if !has_baseline {
        if meets_threshold {
            Verdict::Pass
        } else {
            Verdict::BelowThreshold
        }
    } else if ratchet && fail_on_regression && regressed {
        Verdict::Regressed
    } else if meets_threshold {
        Verdict::Pass
    } else {
        Verdict::Legacy
    }
}

/// Decides the verdict on one file of the coverage gate.
pub fn coverage_verdict(
    has_baseline: bool,
    regressed: bool,
    meets_threshold: bool,
    ratchet: bool,
    fail_on_regression: bool,
) -> (r: Verdict)
    ensures
        r == spec_verdict(has_baseline, regressed, meets_threshold, ratchet, fail_on_regression),
{
    if !has_baseline {
        if meets_threshold {
            Verdict::Pass
        } else {
            Verdict::BelowThreshold
        }
    } else {
        if ratchet && fail_on_regression && regressed {
            return Verdict::Regressed;
        }
        if meets_threshold {
            Verdict::Pass
        } else {
            Verdict::Legacy
        }
    }
}

impl Verdict {
    /// Whether the verdict fails the coverage threshold check.
    pub fn is_failure(&self) -> (r: bool)
        ensures
            r == (*self == Verdict::BelowThreshold || *self == Verdict::Regressed),
    {
        match self {
            Verdict::BelowThreshold | Verdict::Regressed => true,
            _ => false,
        }
    }
}

/// A file fails the coverage threshold check exactly when it has no baseline and misses the
/// threshold, or when the ratchet catches it below its baseline; a file with
/// a baseline that it keeps never fails, whatever its percentage.
pub proof fn lemma_verdict_failure(
    has_baseline: bool,
    regressed: bool,
    meets_threshold: bool,
    ratchet: bool,
    fail_on_regression: bool,
)
    ensures
        ({
            let v = spec_verdict(has_baseline, regressed, meets_threshold, ratchet, fail_on_regression);
            &&& (v == Verdict::BelowThreshold || v == Verdict::Regressed) <==> ((!has_baseline
                && !meets_threshold) || (has_baseline && ratchet && fail_on_regression
                && regressed))
            &&& !has_baseline ==> v != Verdict::Legacy && v != Verdict::Regressed
            &&& !(ratchet && fail_on_regression) ==> v != Verdict::Regressed
            &&& meets_threshold && !(has_baseline && ratchet && fail_on_regression && regressed)
                ==> v == Verdict::Pass
        }),
{
}

/// The coverage records of the files the coverage check covers: those whose path no
/// exclusion pattern matches, in the order of `keys`.
pub open spec fn spec_checked_files(
    keys: Seq<Seq<char>>,
    m: Map<Seq<char>, (Seq<char>, u64, u64)>,
    exclude: Seq<Seq<char>>,
) -> Seq<(Seq<char>, u64, u64)>
    decreases keys.len(),
{
    if keys.len() == 0 {
        seq![]
    } else {
        let rest = spec_checked_files(keys.drop_last(), m, exclude);
        let fc = m[keys.last()];
        if exists|i: int| 0 <= i < exclude.len() && excluded_by(fc.0, #[trigger] exclude[i]) {
            rest
        } else {
            rest.push(fc)
        }
    }
}

/// The views of a sequence of coverage records.
pub open spec fn file_cov_views(v: Seq<FileCoverage>) -> Seq<(Seq<char>, u64, u64)> {
    v.map_values(|f: FileCoverage| f@)
}

/// The files the coverage gate checks, in the order of the map.
pub fn checked_files(coverage: &PathMap<FileCoverage>, exclude: &[String]) -> (r: Vec<FileCoverage>)
    ensures
        file_cov_views(r@) == spec_checked_files(
            coverage.keys(),
            coverage@,
            crate::config::strings_view(exclude@),
        ),
{
    let es = coverage.entries();
    let ghost keys = coverage.keys();
    let ghost ev = crate::config::strings_view(exclude@);
    let mut out: Vec<FileCoverage> = Vec::new();
    let mut i: usize = 0;
    while i < es.len()
        invariant
            i <= es@.len(),
            es@.map_values(|e: (String, FileCoverage)| e.0@) == keys,
            forall|k: int| 0 <= k < es@.len() ==> coverage@.contains_key(#[trigger] es@[k].0@)
                && coverage@[es@[k].0@] == es@[k].1@,
            ev == crate::config::strings_view(exclude@),
            file_cov_views(out@) == spec_checked_files(keys.take(i as int), coverage@, ev),
        decreases es@.len() - i,
    {
        assert(keys.take(i + 1).drop_last() =~= keys.take(i as int));
        assert(keys[i as int] == es@[i as int].0@);
        let fc = &es[i].1;
        let ex = is_excluded(fc.path.as_str(), exclude);
        proof {
            let p = coverage@[keys[i as int]].0;
            assert(p == fc.path@);
            if ex {
                let j = choose|j: int| 0 <= j < exclude@.len() && excluded_by(fc.path@, #[trigger] exclude@[j]@);
                assert(ev[j] == exclude@[j]@);
            } else {
                assert forall|j: int| 0 <= j < ev.len() implies !excluded_by(p, #[trigger] ev[j]) by {
                    assert(ev[j] == exclude@[j]@);
                }
            }
        }
        if !ex {
            let ghost before = file_cov_views(out@);
            out.push(fc.clone_coverage());
            assert(file_cov_views(out@) =~= before.push(coverage@[keys[i as int]]));
        }
        i = i + 1;
    }
    assert(keys.take(i as int) =~= keys);
    out
}

} // verus!
