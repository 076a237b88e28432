//! Session discovery, agent messaging, job and subagent bookkeeping, and the
//! editor bridge protocol for Pi coding agents, with their rules verified.
pub mod ids;
pub mod text;
pub mod seqs;
pub mod paths;
pub mod path_order;
pub mod project;
pub mod registry;
pub mod jobs;
pub mod subagent;
pub mod agents;
pub mod background_agents;
pub mod bridge;
pub mod cli;
