//! Choosing tokens during text generation.
pub mod config;
pub mod sampler;

pub use config::GenerationConfig;
pub use sampler::greedy_next_token;
pub mod generate;

pub use generate::{check_vocab_sizes, reply_budget, GreedyRun};
