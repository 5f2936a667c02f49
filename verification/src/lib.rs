//! Verified core of an unattended-runner harness for an agent backend:
//! session orchestration as a state machine, durable per-session event logs
//! with resumable pagination, isolated git-worktree planning, and a
//! workspace-slug registry.

pub mod config;
pub mod history;
pub mod memory;
pub mod numfmt;
pub mod orchestrator;
pub mod prompt;
pub mod registry;
pub mod session_view;
pub mod skills;
pub mod text;
pub mod timefmt;
pub mod workspace;
pub mod worktree;
