//! What spec-store reads from git's output, and the worktree checks made on it.
use vstd::prelude::*;

use crate::config::strings_view;
use crate::store::structured::{worktree_views, Worktree, WorktreeModel};
use crate::text::{
    chars_of, lines, push_chars, push_str, split_lines, starts_with, string_of, strip_prefix,
    strip_prefix_str, trim, trimmed,
};

verus! {

// ---------------------------------------------------------------------------
// Staged files and the current branch
// ---------------------------------------------------------------------------
/// The staged files listed by `git diff --cached --name-only`: one path per
/// line of its output.
pub fn staged_files_from_output(stdout: &str) -> (r: Vec<String>)
    ensures
        strings_view(r@) == lines(stdout@),
{
    let ls = split_lines(&chars_of(stdout));
    let mut out: Vec<String> = Vec::new();
    let mut i: usize = 0;
    while i < ls.len()
        invariant
            i <= ls@.len(),
            ls.deep_view() == lines(stdout@),
            strings_view(out@) == ls.deep_view().take(i as int),
        decreases ls@.len() - i,
    {
        let ghost before = strings_view(out@);
        out.push(string_of(&ls[i]));
        assert(strings_view(out@) =~= ls.deep_view().take(i + 1)) by {
            assert(ls.deep_view()[i as int] == ls@[i as int]@);
            assert(strings_view(out@) =~= before.push(ls@[i as int]@));
        }
        i = i + 1;
    }
    assert(ls.deep_view().take(i as int) =~= ls.deep_view());
    out
}

/// The branch named by `git branch --show-current`: its output trimmed, and
/// no branch when nothing is left.
pub open spec fn spec_current_branch(stdout: Seq<char>) -> Option<Seq<char>> {
    if trim(stdout).len() == 0 {
        None
    } else {
        Some(trim(stdout))
    }
}

/// Reads the current branch from the output of `git branch --show-current`.
pub fn current_branch_from_output(stdout: &str) -> (r: Option<String>)
    ensures
        match r {
            Some(b) => spec_current_branch(stdout@) == Some(b@),
            None => spec_current_branch(stdout@) is None,
        },
{
    let t = trimmed(&chars_of(stdout));
    if t.len() == 0 {
        None
    } else {
        Some(string_of(&t))
    }
}

// ---------------------------------------------------------------------------
// Conflicts between staged files and claimed worktrees
// ---------------------------------------------------------------------------
/// The owner shown in a conflict: the worktree's owner, or `unassigned`.
pub open spec fn owner_or_unassigned(owner: Option<Seq<char>>) -> Seq<char> {
    match owner {
        Some(o) => o,
        None => "unassigned"@,
    }
}

/// The message reporting that `file` conflicts with worktree `w`.
pub open spec fn conflict_msg(file: Seq<char>, w: WorktreeModel) -> Seq<char> {
    file + " conflicts with worktree '"@ + w.branch + "' ("@ + owner_or_unassigned(w.owner) + ")"@
}

/// Whether a staged file and a contract path overlap: one is a prefix of
/// the other.
pub open spec fn overlaps(file: Seq<char>, contract: Seq<char>) -> bool {
    contract.is_prefix_of(file) || file.is_prefix_of(contract)
}

/// The conflicts of the staged files with worktree `w` claimed on `contract`,
/// in the order of the staged files.
pub open spec fn file_conflicts(staged: Seq<Seq<char>>, w: WorktreeModel, contract: Seq<char>) -> Seq<
    Seq<char>,
>
    decreases staged.len(),
{
    if staged.len() == 0 {
        seq![]
    } else {
        let rest = file_conflicts(staged.drop_last(), w, contract);
        if overlaps(staged.last(), contract) {
            rest.push(conflict_msg(staged.last(), w))
        } else {
            rest
        }
    }
}

/// The conflicts of one worktree: none for the current branch's own
/// worktree or for a worktree without a contract.
pub open spec fn worktree_conflicts(
    staged: Seq<Seq<char>>,
    w: WorktreeModel,
    current: Option<Seq<char>>,
) -> Seq<Seq<char>> {
    if current == Some(w.branch) {
        seq![]
    } else {
        match w.contract {
            Some(c) => file_conflicts(staged, w, c),
            None => seq![],
        }
    }
}

/// The conflicts of the staged files with the worktrees, worktree by worktree.
pub open spec fn spec_conflicts(
    staged: Seq<Seq<char>>,
    wts: Seq<WorktreeModel>,
    current: Option<Seq<char>>,
) -> Seq<Seq<char>>
    decreases wts.len(),
{
    if wts.len() == 0 {
        seq![]
    } else {
        spec_conflicts(staged, wts.drop_last(), current) + worktree_conflicts(
            staged,
            wts.last(),
            current,
        )
    }
}

/// The view of an optional branch name.
pub open spec fn opt_branch(o: Option<&str>) -> Option<Seq<char>> {
    match o {
        Some(s) => Some(s@),
        None => None,
    }
}

/// The message reporting a conflict of `file` with `wt`.
fn make_conflict_msg(file: &String, wt: &Worktree) -> (r: String)
    ensures
        r@ == conflict_msg(file@, wt@),
{
    let mut m: Vec<char> = Vec::new();
    push_str(&mut m, file.as_str());
    push_str(&mut m, " conflicts with worktree '");
    push_str(&mut m, wt.branch.as_str());
    push_str(&mut m, "' (");
    match &wt.owner {
        Some(o) => push_str(&mut m, o.as_str()),
        None => push_str(&mut m, "unassigned"),
    }
    push_str(&mut m, ")");
    string_of(&m)
}

/// Check if any staged files overlap with claimed worktree contracts.
///
/// A staged file conflicts with a worktree of another branch when the
/// file's path and the worktree's contract path overlap.
pub fn staged_files_conflict_with_worktrees(
    staged: &[String],
    worktrees: &[Worktree],
    current_branch: Option<&str>,
) -> (r: Vec<String>)
    ensures
        strings_view(r@) == spec_conflicts(
            strings_view(staged@),
            worktree_views(worktrees@),
            opt_branch(current_branch),
        ),
{
    let ghost sv = strings_view(staged@);
    let ghost wv = worktree_views(worktrees@);
    let ghost cur = opt_branch(current_branch);
    let mut conflicts: Vec<String> = Vec::new();
    let mut i: usize = 0;
    while i < worktrees.len()
        invariant
            i <= worktrees@.len(),
            sv == strings_view(staged@),
            wv == worktree_views(worktrees@),
            cur == opt_branch(current_branch),
            strings_view(conflicts@) == spec_conflicts(sv, wv.take(i as int), cur),
        decreases worktrees@.len() - i,
    {
        assert(wv.take(i + 1).drop_last() =~= wv.take(i as int));
        assert(wv[i as int] == worktrees@[i as int]@);
        let wt = &worktrees[i];
        let own = match current_branch {
            Some(b) => {
                let bv = chars_of(b);
                let wb = chars_of(wt.branch.as_str());
                crate::text::chars_eq(&bv, &wb)
            },
            None => false,
        };
        if !own {
            if let Some(contract) = &wt.contract {
                let cv = chars_of(contract.as_str());
                let ghost base = strings_view(conflicts@);
                let mut j: usize = 0;
                while j < staged.len()
                    invariant
                        j <= staged@.len(),
                        sv == strings_view(staged@),
                        cv@ == contract@,
                        wt@ == wv[i as int],
                        wt.contract == Some(*contract),
                        strings_view(conflicts@) == base + file_conflicts(sv.take(j as int), wt@, cv@),
                    decreases staged@.len() - j,
                {
                    assert(sv.take(j + 1).drop_last() =~= sv.take(j as int));
                    assert(sv[j as int] == staged@[j as int]@);
                    let fv = chars_of(staged[j].as_str());
                    if starts_with(&fv, &cv) || starts_with(&cv, &fv) {
                        let ghost before = strings_view(conflicts@);
                        conflicts.push(make_conflict_msg(&staged[j], wt));
                        assert(strings_view(conflicts@) =~= before.push(conflict_msg(sv[j as int], wt@)));
                    }
                    j = j + 1;
                }
                assert(sv.take(j as int) =~= sv);
            } else {
                assert(worktree_conflicts(sv, wv[i as int], cur) =~= Seq::<Seq<char>>::empty());
            }
        } else {
            assert(worktree_conflicts(sv, wv[i as int], cur) =~= Seq::<Seq<char>>::empty());
        }
        assert(strings_view(conflicts@) =~= spec_conflicts(sv, wv.take(i as int), cur)
            + worktree_conflicts(sv, wv[i as int], cur));
        i = i + 1;
    }
    assert(wv.take(i as int) =~= wv);
    conflicts
}

/// The current branch's own worktree never reports a conflict.
pub proof fn lemma_own_worktree_never_conflicts(
    staged: Seq<Seq<char>>,
    w: WorktreeModel,
    current: Option<Seq<char>>,
)
    requires
        current == Some(w.branch),
    ensures
        worktree_conflicts(staged, w, current) == Seq::<Seq<char>>::empty(),
{
}

/// No worktrees, no conflicts; and a worktree without a contract adds none.
pub proof fn lemma_conflicts_need_contracts(
    staged: Seq<Seq<char>>,
    wts: Seq<WorktreeModel>,
    current: Option<Seq<char>>,
)
    requires
        forall|i: int| 0 <= i < wts.len() ==> (#[trigger] wts[i]).contract is None,
    ensures
        spec_conflicts(staged, wts, current) == Seq::<Seq<char>>::empty(),
    decreases wts.len(),
{
    if wts.len() > 0 {
        lemma_conflicts_need_contracts(staged, wts.drop_last(), current);
        assert(wts.last().contract is None);
        assert(spec_conflicts(staged, wts, current) =~= Seq::<Seq<char>>::empty());
    }
}

// ---------------------------------------------------------------------------
// Worktrees known to git
// ---------------------------------------------------------------------------
/// What has been read of `git worktree list --porcelain`: the branches of
/// the finished entries, and the branch of the entry being read.
pub open spec fn porcelain_fold(ls: Seq<Seq<char>>) -> (Seq<Seq<char>>, Option<Seq<char>>)
    decreases ls.len(),
{
    if ls.len() == 0 {
        (seq![], None)
    } else {
        let (done, cur) = porcelain_fold(ls.drop_last());
        let line = ls.last();
        match strip_prefix(line, "branch refs/heads/"@) {
            Some(b) => (done, Some(b)),
            None => if line.len() == 0 {
                match cur {
                    Some(b) => (done.push(b), None),
                    None => (done, cur),
                }
            } else {
                (done, cur)
            },
        }
    }
}

/// The branches of the entries of `git worktree list --porcelain` that are
/// on a branch, in order; the last entry counts without a blank line after it.
pub open spec fn porcelain_branches(stdout: Seq<char>) -> Seq<Seq<char>> {
    let (done, cur) = porcelain_fold(lines(stdout));
    match cur {
        Some(b) => done.push(b),
        None => done,
    }
}

/// The record of a worktree that git knows and spec-store does not track.
pub open spec fn git_worktree(branch: Seq<char>) -> WorktreeModel {
    WorktreeModel { branch: branch, contract: None, owner: Some("git-worktree"@), claimed_at: seq![] }
}

/// A worktree found by git on `branch`.
fn make_git_worktree(branch: Vec<char>) -> (r: Worktree)
    ensures
        r@ == git_worktree(branch@),
{
    let w = Worktree {
        branch: string_of(&branch),
        contract: None,
        owner: Some(string_of(&chars_of("git-worktree"))),
        claimed_at: string_of(&Vec::new()),
    };
    assert(w.claimed_at@ =~= Seq::<char>::empty());
    w
}

proof fn lemma_push_git_worktree(out: Seq<Worktree>, w: Worktree, done: Seq<Seq<char>>, b: Seq<char>)
    requires
        worktree_views(out) == done.map_values(|b: Seq<char>| git_worktree(b)),
        w@ == git_worktree(b),
    ensures
        worktree_views(out.push(w)) == done.push(b).map_values(|b: Seq<char>| git_worktree(b)),
{
    let l = worktree_views(out.push(w));
    let r = done.push(b).map_values(|b: Seq<char>| git_worktree(b));
    assert(out.len() == done.len()) by {
        assert(worktree_views(out).len() == out.len());
    }
    assert forall|k: int| 0 <= k < l.len() implies l[k] == r[k] by {
        if k < out.len() {
            assert(out.push(w)[k] == out[k]);
            assert(worktree_views(out)[k] == out[k]@);
        }
    }
    assert(l =~= r);
}

/// The worktrees listed by `git worktree list --porcelain`, one per entry
/// that is on a branch.
pub fn parse_worktree_list(stdout: &str) -> (r: Vec<Worktree>)
    ensures
        worktree_views(r@) == porcelain_branches(stdout@).map_values(|b: Seq<char>| git_worktree(b)),
{
    let ls = split_lines(&chars_of(stdout));
    let ghost lv = ls.deep_view();
    let mut out: Vec<Worktree> = Vec::new();
    let mut cur: Option<Vec<char>> = None;
    let mut i: usize = 0;
    while i < ls.len()
        invariant
            i <= ls@.len(),
            lv == ls.deep_view(),
            lv == lines(stdout@),
            worktree_views(out@) == porcelain_fold(lv.take(i as int)).0.map_values(
                |b: Seq<char>| git_worktree(b),
            ),
            crate::coverage::lcov::opt_chars(cur) == porcelain_fold(lv.take(i as int)).1,
        decreases ls@.len() - i,
    {
        assert(lv.take(i + 1).drop_last() =~= lv.take(i as int));
        assert(lv[i as int] == ls@[i as int]@);
        let ghost done = porcelain_fold(lv.take(i as int)).0;
        match strip_prefix_str(&ls[i], "branch refs/heads/") {
            Some(b) => {
                cur = Some(b);
            },
            None => {
                if ls[i].len() == 0 {
                    match cur {
                        Some(b) => {
                            let ghost bv = b@;
                            let w = make_git_worktree(b);
                            proof {
                                lemma_push_git_worktree(out@, w, done, bv);
                            }
                            out.push(w);
                            cur = None;
                        },
                        None => {},
                    }
                }
            },
        }
        i = i + 1;
    }
    assert(lv.take(i as int) =~= lv);
    let ghost done = porcelain_fold(lv).0;
    match cur {
        Some(b) => {
            let ghost bv = b@;
            let w = make_git_worktree(b);
            proof {
                lemma_push_git_worktree(out@, w, done, bv);
            }
            out.push(w);
        },
        None => {},
    }
    out
}

/// Whether a branch is among the branches of `wts`.
pub open spec fn has_branch(wts: Seq<WorktreeModel>, branch: Seq<char>) -> bool {
    exists|i: int| 0 <= i < wts.len() && (#[trigger] wts[i]).branch == branch
}

/// The worktrees of `git` whose branch none of `claimed` has, in order.
pub open spec fn untracked(git: Seq<WorktreeModel>, claimed: Seq<WorktreeModel>) -> Seq<WorktreeModel>
    decreases git.len(),
{
    if git.len() == 0 {
        seq![]
    } else {
        let rest = untracked(git.drop_last(), claimed);
        if has_branch(claimed, git.last().branch) {
            rest
        } else {
            rest.push(git.last())
        }
    }
}

/// The claimed worktrees, followed by the worktrees that git knows on other
/// branches.
pub fn list_worktrees(claimed: Vec<Worktree>, git: Vec<Worktree>) -> (r: Vec<Worktree>)
    ensures
        worktree_views(r@) == worktree_views(claimed@) + untracked(
            worktree_views(git@),
            worktree_views(claimed@),
        ),
{
    let ghost cv = worktree_views(claimed@);
    let ghost gv = worktree_views(git@);
    let n_claimed = claimed.len();
    let mut out = claimed;
    let mut i: usize = 0;
    while i < git.len()
        invariant
            i <= git@.len(),
            gv == worktree_views(git@),
            n_claimed == cv.len(),
            out@.len() >= cv.len(),
            worktree_views(out@).take(cv.len() as int) == cv,
            worktree_views(out@) == cv + untracked(gv.take(i as int), cv),
        decreases git@.len() - i,
    {
        assert(gv.take(i + 1).drop_last() =~= gv.take(i as int));
        assert(gv[i as int] == git@[i as int]@);
        let gb = chars_of(git[i].branch.as_str());
        let mut found = false;
        let mut k: usize = 0;
        while k < n_claimed
            invariant
                k <= cv.len(),
                n_claimed == cv.len(),
                cv.len() <= out@.len(),
                worktree_views(out@).take(cv.len() as int) == cv,
                gb@ == gv[i as int].branch,
                found <==> exists|j: int| 0 <= j < k && cv[j].branch == gb@,
            decreases cv.len() - k,
        {
            assert(cv[k as int] == out@[k as int]@) by {
                assert(worktree_views(out@).take(cv.len() as int)[k as int] == worktree_views(out@)[k as int]);
            }
            let ob = chars_of(out[k].branch.as_str());
            if crate::text::chars_eq(&ob, &gb) {
                found = true;
            }
            k = k + 1;
        }
        assert(found == has_branch(cv, gb@)) by {
            if has_branch(cv, gb@) {
                let j = choose|j: int| 0 <= j < cv.len() && (#[trigger] cv[j]).branch == gb@;
                assert(0 <= j < k);
            }
        }
        if !found {
            let ghost before = worktree_views(out@);
            out.push(git[i].clone_worktree());
            assert(worktree_views(out@) =~= before.push(gv[i as int]));
            assert(worktree_views(out@).take(cv.len() as int) =~= before.take(cv.len() as int));
        }
        i = i + 1;
    }
    assert(gv.take(i as int) =~= gv);
    out
}

/// Listing keeps every claimed worktree, and adds only worktrees on branches
/// that no claim holds.
pub proof fn lemma_list_worktrees_keeps_claims(git: Seq<WorktreeModel>, claimed: Seq<WorktreeModel>)
    ensures
        forall|i: int| 0 <= i < untracked(git, claimed).len() ==> !has_branch(
            claimed,
            (#[trigger] untracked(git, claimed)[i]).branch,
        ),
        untracked(git, claimed).len() <= git.len(),
    decreases git.len(),
{
    if git.len() > 0 {
        lemma_list_worktrees_keeps_claims(git.drop_last(), claimed);
    }
}

} // verus!
