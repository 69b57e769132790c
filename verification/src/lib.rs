pub mod config;
pub mod coverage;
pub mod error;
pub mod git;
pub mod hooks;
pub mod ops;
pub mod text;
pub mod util;
pub mod path_map;
pub mod report;
pub mod reuse;
pub mod scanner;
pub mod store;
