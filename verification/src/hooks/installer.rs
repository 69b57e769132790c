//! The git hooks that run spec-store's gates, and the check that they are in place.
use vstd::prelude::*;

use crate::text::{chars_eq, chars_of};

verus! {

pub const PRE_COMMIT: &'static str = r#"#!/usr/bin/env bash
set -euo pipefail
echo "spec-store: running quality gates on staged files..."
spec-store quality check --staged || exit 1
spec-store catchup --staged --fail-on-missing || exit 1
"#;

pub const PRE_PUSH: &'static str = r#"#!/usr/bin/env bash
set -euo pipefail
echo "spec-store: checking worktree conflicts..."
spec-store worktree verify || exit 1
if [ -f lcov.info ]; then
  echo "spec-store: checking coverage gates..."
  spec-store coverage check || exit 1
else
  echo "spec-store: lcov.info not found, skipping coverage check (run cargo llvm-cov to generate)"
fi
"#;

pub const POST_MERGE: &'static str = r#"#!/usr/bin/env bash
set -euo pipefail
echo "spec-store: updating registry after merge..."
spec-store catchup --auto-register
spec-store coverage baseline --update
"#;

pub const POST_CHECKOUT: &'static str = r#"#!/usr/bin/env bash
set -euo pipefail
PREV=$1; NEW=$2; IS_BRANCH=$3
if [ "$IS_BRANCH" = "1" ] && [ "$PREV" != "$NEW" ]; then
  echo "spec-store: regenerating agent context for $(git branch --show-current)..."
  spec-store context --output AGENTS.md
fi
"#;

/// The scripts of the four hooks.
pub struct HookSet {
    pub pre_commit: &'static str,
    pub pre_push: &'static str,
    pub post_merge: &'static str,
    pub post_checkout: &'static str,
}

impl Default for HookSet {
    fn default() -> (r: Self)
        ensures
            r.pre_commit@ == PRE_COMMIT@,
            r.pre_push@ == PRE_PUSH@,
            r.post_merge@ == POST_MERGE@,
            r.post_checkout@ == POST_CHECKOUT@,
    {
        Self {
            pre_commit: PRE_COMMIT,
            pre_push: PRE_PUSH,
            post_merge: POST_MERGE,
            post_checkout: POST_CHECKOUT,
        }
    }
}

/// The file names of the hooks, in the order they are installed.
pub open spec fn hook_names() -> Seq<Seq<char>> {
    seq!["pre-commit"@, "pre-push"@, "post-merge"@, "post-checkout"@]
}

/// The files to write into the hooks directory: each hook's file name with
/// its script.
pub fn hook_files(hooks: &HookSet) -> (r: Vec<(&'static str, &'static str)>)
    ensures
        r@.len() == 4,
        forall|i: int| 0 <= i < 4 ==> (#[trigger] r@[i]).0@ == hook_names()[i],
        r@[0].1 == hooks.pre_commit,
        r@[1].1 == hooks.pre_push,
        r@[2].1 == hooks.post_merge,
        r@[3].1 == hooks.post_checkout,
{
    let mut v: Vec<(&'static str, &'static str)> = Vec::new();
    v.push(("pre-commit", hooks.pre_commit));
    v.push(("pre-push", hooks.pre_push));
    v.push(("post-merge", hooks.post_merge));
    v.push(("post-checkout", hooks.post_checkout));
    v
}

/// Whether `name` is one of `present`.
pub open spec fn is_present(present: Seq<String>, name: Seq<char>) -> bool {
    exists|i: int| 0 <= i < present.len() && (#[trigger] present[i])@ == name
}

fn present_exec(present: &[String], name: &str) -> (r: bool)
    ensures
        r == is_present(present@, name@),
{
    let nv = chars_of(name);
    let mut i: usize = 0;
    while i < present.len()
        invariant
            i <= present@.len(),
            nv@ == name@,
            forall|k: int| 0 <= k < i ==> (#[trigger] present@[k])@ != name@,
        decreases present@.len() - i,
    {
        let pv = chars_of(present[i].as_str());
        if chars_eq(&pv, &nv) {
            return true;
        }
        i = i + 1;
    }
    false
}

/// Whether every hook is installed, given the names of the files present in
/// the hooks directory.
pub fn verify_hooks_installed(present: &[String]) -> (r: bool)
    ensures
        r == forall|i: int| 0 <= i < 4 ==> is_present(present@, #[trigger] hook_names()[i]),
{
    let a = present_exec(present, "pre-commit");
    let b = present_exec(present, "pre-push");
    let c = present_exec(present, "post-merge");
    let d = present_exec(present, "post-checkout");
    proof {
        assert(hook_names()[0] == "pre-commit"@);
        assert(hook_names()[1] == "pre-push"@);
        assert(hook_names()[2] == "post-merge"@);
        assert(hook_names()[3] == "post-checkout"@);
    }
    a && b && c && d
}

} // verus!
