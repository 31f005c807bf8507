//! Verified core of an LLM content-generation backend: prompt-template
//! expansion, worker output parsing, retry bookkeeping, credential leasing,
//! module status aggregation, and the job orchestration state model.
//!
//! Everything that decides or computes lives here and carries a contract;
//! the broker, database, and HTTP shells around it hand this crate plain
//! values and apply the effects it returns.

pub mod config;
pub mod credential;
pub mod expand;
pub mod jobs;
pub mod llm;
pub mod orchestrator;
pub mod output;
pub mod queue;
pub mod status;
pub mod system;
pub mod text;
pub mod worker;

pub use text::chars_of_str;
pub use text::string_of_chars;
