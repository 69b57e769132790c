pub mod enforcer;

pub use enforcer::{similarity_verdict, SimilarityCandidate, SimilarityVerdict};
