pub mod structured;
pub mod vector;

pub use structured::{Decision, RegisteredFn, Worktree};
