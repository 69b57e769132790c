pub mod checker;
pub mod fn_coverage;
pub mod lcov;

pub use fn_coverage::{compute_fn_coverage, FnCoverageResult};
pub use lcov::{parse_content, parse_detail_content, FileCoverage, LineCoverage};
pub use checker::{checked_files, coverage_verdict, Verdict};
