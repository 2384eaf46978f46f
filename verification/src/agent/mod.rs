//! Agents that pick tools step by step before answering.
pub mod config;
pub mod decision;
pub mod prompt;
pub mod trace;

pub use config::AgentConfig;
pub use decision::{parse_agent_decision, AgentDecision};
pub use trace::{AgentStep, AgentTrace};
pub use prompt::{build_agent_decision_prompt, build_agent_final_prompt};
pub mod run;
