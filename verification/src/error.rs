use vstd::prelude::*;

verus! {

/// Errors raised by the library's own operations.
///
/// The command-line front end wraps these together with its I/O errors and
/// the coverage-gate failures, which carry floating-point percentages.
#[derive(Debug)]
pub enum SpecStoreError {
    Config(String),
    Store(String),
    Coverage(String),
    QualityGate,
    HookInstall(String),
    Scanner(String),
    WorktreeConflict(String),
    Database(String),
}

} // verus!
