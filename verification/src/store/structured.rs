//! The records of the structured store: decisions, worktree claims and
//! registered functions, and the rule by which a worktree is claimed.
use vstd::prelude::*;

use crate::error::SpecStoreError;
use crate::text::{chars_of, opt_string, push_str, string_of};

verus! {

#[derive(Debug, Clone)]
pub struct Decision {
    pub id: String,
    pub text: String,
    pub tags: Vec<String>,
    pub created_at: String,
}

#[derive(Debug, Clone)]
pub struct Worktree {
    pub branch: String,
    pub contract: Option<String>,
    pub owner: Option<String>,
    pub claimed_at: String,
}

#[derive(Debug, Clone)]
pub struct RegisteredFn {
    pub id: String,
    pub name: String,
    pub file: String,
    pub line: usize,
    pub description: String,
    pub is_test: bool,
    pub created_at: String,
}

/// The mathematical content of a [`Worktree`].
pub struct WorktreeModel {
    pub branch: Seq<char>,
    pub contract: Option<Seq<char>>,
    pub owner: Option<Seq<char>>,
    pub claimed_at: Seq<char>,
}

impl View for Worktree {
    type V = WorktreeModel;

    open spec fn view(&self) -> WorktreeModel {
        WorktreeModel {
            branch: self.branch@,
            contract: opt_string(self.contract),
            owner: opt_string(self.owner),
            claimed_at: self.claimed_at@,
        }
    }
}

/// The views of a sequence of worktrees.
pub open spec fn worktree_views(v: Seq<Worktree>) -> Seq<WorktreeModel> {
    v.map_values(|w: Worktree| w@)
}

/// The view of an optional string slice.
pub open spec fn opt_str(o: Option<&str>) -> Option<Seq<char>> {
    match o {
        Some(s) => Some(s@),
        None => None,
    }
}

/// An owned copy of an optional string slice.
pub fn owned_opt(o: Option<&str>) -> (r: Option<String>)
    ensures
        opt_string(r) == opt_str(o),
{
    match o {
        Some(s) => Some(string_of(&chars_of(s))),
        None => None,
    }
}

impl Worktree {
    /// A copy of this worktree.
    pub fn clone_worktree(&self) -> (r: Worktree)
        ensures
            r@ == self@,
    {
        Worktree {
            branch: self.branch.clone(),
            contract: match &self.contract {
                Some(c) => Some(c.clone()),
                None => None,
            },
            owner: match &self.owner {
                Some(o) => Some(o.clone()),
                None => None,
            },
            claimed_at: self.claimed_at.clone(),
        }
    }
}

/// The message of a refused claim of `branch`.
pub open spec fn already_claimed_msg(branch: Seq<char>) -> Seq<char> {
    "Worktree '"@ + branch + "' is already claimed"@
}

/// Claims the worktree of `branch` for `owner`, working on `contract`, at
/// the time `claimed_at`.
///
/// `existing` is what the store holds for `branch`. A branch that is
/// already claimed is refused with a worktree conflict; otherwise the
/// result is the record to store.
pub fn claim_worktree(
    branch: &str,
    contract: Option<&str>,
    owner: Option<&str>,
    existing: &Option<Worktree>,
    claimed_at: String,
) -> (r: Result<Worktree, SpecStoreError>)
    ensures
        r is Ok <==> existing is None,
        match r {
            Ok(w) => w@ == WorktreeModel {
                branch: branch@,
                contract: opt_str(contract),
                owner: opt_str(owner),
                claimed_at: claimed_at@,
            },
            Err(e) => e matches SpecStoreError::WorktreeConflict(m) && m@ == already_claimed_msg(branch@),
        },
{
    if existing.is_some() {
        let mut msg: Vec<char> = Vec::new();
        push_str(&mut msg, "Worktree '");
        push_str(&mut msg, branch);
        push_str(&mut msg, "' is already claimed");
        return Err(SpecStoreError::WorktreeConflict(string_of(&msg)));
    }
    Ok(
        Worktree {
            branch: string_of(&chars_of(branch)),
            contract: owned_opt(contract),
            owner: owned_opt(owner),
            claimed_at,
        },
    )
}

} // verus!
