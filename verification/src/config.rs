//! The quality-gate settings and the legacy configuration sections.
use vstd::prelude::*;

verus! {

#[derive(Debug, Clone)]
pub struct QualityConfig {
    pub max_file_lines: usize,
    pub max_fn_lines: usize,
    pub max_fn_complexity: usize,
    pub max_fns_per_file: usize,
    pub max_fn_params: usize,
    pub warn_only: bool,
    pub exclude: Vec<String>,
}

/// The views of a list of strings.
pub open spec fn strings_view(v: Seq<String>) -> Seq<Seq<char>> {
    v.map_values(|s: String| s@)
}

/// Legacy: AI is handled by the calling agent; the section is kept so that
/// old configuration files still load.
#[derive(Debug, Clone, Default)]
pub struct AiConfig {
    pub provider: String,
    pub model: String,
    pub lightllm: Option<LightllmConfig>,
}

#[derive(Debug, Clone)]
pub struct LightllmConfig {
    pub base_url: String,
    pub model: String,
}

/// Legacy: embeddings use a local word bag; the section is ignored.
#[derive(Debug, Clone, Default)]
pub struct EmbeddingsConfig {
    pub provider: String,
    pub model: String,
}

} // verus!
