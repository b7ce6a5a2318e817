//! Error kinds of the orchestration core.

use vstd::prelude::*;
use crate::protocol::AgentId;

verus! {

/// Errors that session, agent and dispatcher operations return.
#[derive(Debug)]
pub enum GoblinError {
    /// No session has been configured.
    NoActiveSession,
    /// The session has no root agent.
    NoOrchestrator,
    /// No agent with this identity is in the table.
    AgentNotFound(AgentId),
    /// The prospective parent may not have another child.
    SpawnDenied(String),
    /// A task failed.
    TaskError(String),
    /// A tool call failed.
    ToolError(String),
    /// The sandbox refused or failed.
    SandboxError(String),
    /// A malformed command or event.
    ProtocolError(String),
    /// The transport failed.
    ChannelError(String),
    /// The configuration is invalid.
    ConfigError(String),
}

} // verus!
