//! The reuse gate's decision: which of the most similar registered
//! functions, if any, a new function is held against.
//!
//! Similarity scores are floating-point numbers; the caller compares each
//! score with the configured limits and hands over the outcomes.
use vstd::prelude::*;

use crate::scanner::regex_scanner::{FunctionInfo, FunctionModel};
use crate::text::{chars_eq, chars_of};

verus! {

/// A registered function found similar to the one being checked, most
/// similar first, with how its score compares with the limits.
#[derive(Debug, Clone)]
pub struct SimilarityCandidate {
    pub name: String,
    pub file: String,
    /// Whether the score reaches the blocking limit.
    pub at_block: bool,
    /// Whether the score reaches the warning limit.
    pub at_warn: bool,
}

/// The outcome of the reuse gate: clear, or a warning or a block naming the
/// candidate (by its position) that caused it.
#[derive(Debug, Clone, Copy, PartialEq, Eq, Structural)]
pub enum SimilarityVerdict {
    Clear,
    Warning(usize),
    Blocked(usize),
}

/// Whether a candidate is the checked function itself: same name, same file.
pub open spec fn is_self(func: FunctionModel, c: SimilarityCandidate) -> bool {
    c.name@ == func.name && c.file@ == func.file
}

/// The verdict from the candidates at `i` onwards: the first candidate that
/// is not the function itself and reaches a limit decides.
pub open spec fn verdict_from(func: FunctionModel, cands: Seq<SimilarityCandidate>, i: int) -> SimilarityVerdict
    decreases cands.len() - i,
{
    if i < 0 || i >= cands.len() {
        SimilarityVerdict::Clear
    } else if is_self(func, cands[i]) {
        verdict_from(func, cands, i + 1)
    } else if cands[i].at_block {
        SimilarityVerdict::Blocked(i as usize)
    } else if cands[i].at_warn {
        SimilarityVerdict::Warning(i as usize)
    } else {
        verdict_from(func, cands, i + 1)
    }
}

/// Decides the reuse gate's outcome for `func`.
pub fn similarity_verdict(func: &FunctionInfo, candidates: &[SimilarityCandidate]) -> (r: SimilarityVerdict)
    ensures
        r == verdict_from(func@, candidates@, 0),
{
    let fname = chars_of(func.name.as_str());
    let ffile = chars_of(func.file.as_str());
    let mut i: usize = 0;
    while i < candidates.len()
        invariant
            i <= candidates@.len(),
            fname@ == func.name@,
            ffile@ == func.file@,
            verdict_from(func@, candidates@, 0) == verdict_from(func@, candidates@, i as int),
        decreases candidates@.len() - i,
    {
        let c = &candidates[i];
        let same = chars_eq(&chars_of(c.name.as_str()), &fname) && chars_eq(&chars_of(c.file.as_str()), &ffile);
        if !same {
            if c.at_block {
                return SimilarityVerdict::Blocked(i);
            }
            if c.at_warn {
                return SimilarityVerdict::Warning(i);
            }
        }
        i = i + 1;
    }
    SimilarityVerdict::Clear
}

/// The reuse check never holds a function against itself, and only a candidate that
/// reaches a limit can hold it.
pub proof fn lemma_verdict_names_other(func: FunctionModel, cands: Seq<SimilarityCandidate>, i: int)
    requires
        0 <= i,
        cands.len() <= usize::MAX,
    ensures
        match verdict_from(func, cands, i) {
            SimilarityVerdict::Clear => true,
            SimilarityVerdict::Blocked(k) => i <= k < cands.len() && !is_self(func, cands[k as int])
                && cands[k as int].at_block,
            SimilarityVerdict::Warning(k) => i <= k < cands.len() && !is_self(func, cands[k as int])
                && cands[k as int].at_warn && !cands[k as int].at_block,
        },
    decreases cands.len() - i,
{
    if i < cands.len() && (is_self(func, cands[i]) || (!cands[i].at_block && !cands[i].at_warn)) {
        lemma_verdict_names_other(func, cands, i + 1);
    }
}

proof fn lemma_verdict_skips_selves(func: FunctionModel, cands: Seq<SimilarityCandidate>, i: int, k: int)
    requires
        0 <= i <= k < cands.len(),
        forall|j: int| i <= j < k ==> (#[trigger] cands[j]).name@ == func.name && cands[j].file@ == func.file,
    ensures
        verdict_from(func, cands, i) == verdict_from(func, cands, k),
    decreases k - i,
{
    if i < k {
        lemma_verdict_skips_selves(func, cands, i + 1, k);
    }
}

/// Only a candidate with both the name and the file of the checked function
/// is skipped as the function itself: the first candidate that differs in
/// name or in file decides, blocking when it reaches the block limit and
/// warning when it reaches only the warning limit.
pub proof fn lemma_first_other_candidate_decides(func: FunctionModel, cands: Seq<SimilarityCandidate>, k: int)
    requires
        0 <= k < cands.len(),
        cands.len() <= usize::MAX,
        forall|j: int| 0 <= j < k ==> (#[trigger] cands[j]).name@ == func.name && cands[j].file@ == func.file,
        cands[k].name@ != func.name || cands[k].file@ != func.file,
    ensures
        cands[k].at_block ==> verdict_from(func, cands, 0) == SimilarityVerdict::Blocked(k as usize),
        !cands[k].at_block && cands[k].at_warn ==> verdict_from(func, cands, 0) == SimilarityVerdict::Warning(
            k as usize,
        ),
{
    lemma_verdict_skips_selves(func, cands, 0, k);
}

/// With no candidate reaching the warning limit, the reuse check is clear.
pub proof fn lemma_clear_below_limits(func: FunctionModel, cands: Seq<SimilarityCandidate>, i: int)
    requires
        0 <= i,
        forall|k: int| 0 <= k < cands.len() ==> !(#[trigger] cands[k]).at_warn && !cands[k].at_block,
    ensures
        verdict_from(func, cands, i) == SimilarityVerdict::Clear,
    decreases cands.len() - i,
{
    if i < cands.len() {
        lemma_clear_below_limits(func, cands, i + 1);
    }
}

} // verus!
