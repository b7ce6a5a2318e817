//! Hierarchical agent orchestration: agents, the tree that relates them,
//! the session that owns them and the dispatcher that drives a session.

pub mod agent;
pub mod channel;
pub mod error;
pub mod hierarchy;
pub mod orchestrator;
pub mod protocol;
pub mod session;
