pub mod block_measure;
pub mod language;
pub mod patterns;
pub mod quality;
pub mod regex_scanner;
pub mod test_detect;
pub mod test_mapper;

pub use block_measure::measure_block;
pub use language::{detect_language, is_source_path, profile_for, profile_for_path, Language, LanguageProfile};
pub use regex_scanner::{scan_source, FunctionInfo};
