//! Identifiers and payload shapes exchanged with callers: commands in,
//! events out, and the tree view handed to observers.

use vstd::prelude::*;

verus! {

/// Identity of an agent: the 128 bits of its UUID.
pub type AgentId = u128;

/// Identity of a task.
pub type TaskId = u128;

/// Identity of a session.
pub type SessionId = u128;

/// Correlation token that links a command to the events it causes.
pub type SubmissionId = String;

/// Identity of a tool call awaiting approval.
pub type CallId = u128;

/// Draws a new identity, for an agent, a task or a session alike. The
/// call is `warhorn::AgentId::new`, which takes a random version-4
/// UUID; the UUID's 128 bits come back. Nothing is claimed of the
/// value: two calls may give any two numbers, equal ones included.
#[verifier::external_body]
pub(crate) fn fresh_identity() -> (id: u128) {
    warhorn::AgentId::new().as_uuid().as_u128()
}

/// Place of an agent in the hierarchy.
#[derive(Debug)]
pub enum AgentRole {
    /// The root of a session's tree.
    Orchestrator,
    /// A labelled sub-root.
    DomainLead { domain: String },
    /// A leaf worker.
    Worker,
    /// A worker with a named specialty.
    Specialist { specialty: String },
    /// An explorer.
    Scout,
    /// One that inspects the work of other agents.
    Reviewer,
    /// A role named by the caller.
    Custom { name: String },
}

impl Clone for AgentRole {
    fn clone(&self) -> (r: Self)
        ensures
            r == *self,
    {
        match self {
            AgentRole::Orchestrator => AgentRole::Orchestrator,
            AgentRole::DomainLead { domain } => AgentRole::DomainLead { domain: domain.clone() },
            AgentRole::Worker => AgentRole::Worker,
            AgentRole::Specialist { specialty } => AgentRole::Specialist {
                specialty: specialty.clone(),
            },
            AgentRole::Scout => AgentRole::Scout,
            AgentRole::Reviewer => AgentRole::Reviewer,
            AgentRole::Custom { name } => AgentRole::Custom { name: name.clone() },
        }
    }
}

impl Default for AgentRole {
    fn default() -> (r: Self)
        ensures
            r == AgentRole::Worker,
    {
        AgentRole::Worker
    }
}

/// Lifecycle tag of an agent. `Terminated` is final.
#[derive(Debug, PartialEq, Eq)]
pub enum AgentStatus {
    Spawning,
    Initializing,
    Running,
    Waiting { reason: String },
    Completed,
    Failed,
    Terminated,
}

impl Clone for AgentStatus {
    fn clone(&self) -> (r: Self)
        ensures
            r == *self,
    {
        match self {
            AgentStatus::Spawning => AgentStatus::Spawning,
            AgentStatus::Initializing => AgentStatus::Initializing,
            AgentStatus::Running => AgentStatus::Running,
            AgentStatus::Waiting { reason } => AgentStatus::Waiting { reason: reason.clone() },
            AgentStatus::Completed => AgentStatus::Completed,
            AgentStatus::Failed => AgentStatus::Failed,
            AgentStatus::Terminated => AgentStatus::Terminated,
        }
    }
}

impl Default for AgentStatus {
    fn default() -> (r: Self)
        ensures
            r == AgentStatus::Spawning,
    {
        AgentStatus::Spawning
    }
}

/// Kind of a message emitted by an agent.
#[derive(Debug, Clone, Copy, PartialEq, Eq, Structural)]
pub enum MessageType {
    Text,
    Thinking,
    Code,
    Error,
    Status,
    Progress,
}

/// Token counters of one agent; `total_tokens` is the sum of the other two.
#[derive(Debug, Clone, Copy, PartialEq, Eq, Structural)]
pub struct TokenUsage {
    pub input_tokens: u64,
    pub output_tokens: u64,
    pub total_tokens: u64,
}

/// Copies an optional text.
pub fn clone_text(t: &Option<String>) -> (r: Option<String>)
    ensures
        r == *t,
{
    match t {
        Some(s) => Some(s.clone()),
        None => None,
    }
}

/// What an agent is created with.
#[derive(Debug)]
pub struct AgentConfig {
    pub role: AgentRole,
    pub model: Option<String>,
    pub cwd: Option<String>,
    /// Whether the agent may have children at all.
    pub can_spawn: bool,
    /// Cap on the number of live children, if any.
    pub max_children: Option<usize>,
}

impl Clone for AgentConfig {
    fn clone(&self) -> (r: Self)
        ensures
            r == *self,
    {
        AgentConfig {
            role: self.role.clone(),
            model: clone_text(&self.model),
            cwd: clone_text(&self.cwd),
            can_spawn: self.can_spawn,
            max_children: self.max_children,
        }
    }
}

impl Default for AgentConfig {
    fn default() -> (r: Self)
        ensures
            r == (AgentConfig {
                role: AgentRole::Worker,
                model: None,
                cwd: None,
                can_spawn: false,
                max_children: None,
            }),
    {
        AgentConfig {
            role: AgentRole::Worker,
            model: None,
            cwd: None,
            can_spawn: false,
            max_children: None,
        }
    }
}

/// What a session is configured with.
#[derive(Debug)]
pub struct SessionConfig {
    pub model: Option<String>,
    pub cwd: Option<String>,
    /// Cap on the children of the session's root agent.
    pub max_parallel_agents: usize,
}

impl Clone for SessionConfig {
    fn clone(&self) -> (r: Self)
        ensures
            r == *self,
    {
        SessionConfig {
            model: clone_text(&self.model),
            cwd: clone_text(&self.cwd),
            max_parallel_agents: self.max_parallel_agents,
        }
    }
}

impl Default for SessionConfig {
    fn default() -> (r: Self)
        ensures
            r == (SessionConfig { model: None, cwd: None, max_parallel_agents: 0 }),
    {
        SessionConfig { model: None, cwd: None, max_parallel_agents: 0 }
    }
}

/// Caller-supplied context of a task.
#[derive(Debug)]
pub struct TaskContext {
    pub cwd: Option<String>,
}

/// Inbound commands.
#[allow(inconsistent_fields)]
#[derive(Debug)]
pub enum Op {
    ConfigureSession { sub_id: SubmissionId, config: SessionConfig },
    UserInput { sub_id: SubmissionId, prompt: String, context: TaskContext },
    Interrupt { sub_id: SubmissionId, task_id: Option<TaskId> },
    SpawnAgent { sub_id: SubmissionId, config: AgentConfig, parent_id: Option<AgentId> },
    TerminateAgent { sub_id: SubmissionId, agent_id: AgentId, reason: Option<String> },
    ExecApproval { sub_id: SubmissionId, call_id: CallId, approved: bool },
    /// Any other command; the dispatcher does not act on it.
    Other { sub_id: SubmissionId },
}

impl Op {
    /// The submission identifier carried by a command.
    pub open spec fn spec_sub_id(&self) -> SubmissionId {
        match *self {
            Op::ConfigureSession { sub_id, .. } => sub_id,
            Op::UserInput { sub_id, .. } => sub_id,
            Op::Interrupt { sub_id, .. } => sub_id,
            Op::SpawnAgent { sub_id, .. } => sub_id,
            Op::TerminateAgent { sub_id, .. } => sub_id,
            Op::ExecApproval { sub_id, .. } => sub_id,
            Op::Other { sub_id } => sub_id,
        }
    }

    /// The submission identifier carried by a command.
    pub fn sub_id(&self) -> (s: &SubmissionId)
        ensures
            *s == self.spec_sub_id(),
    {
        match self {
            Op::ConfigureSession { sub_id, .. } => sub_id,
            Op::UserInput { sub_id, .. } => sub_id,
            Op::Interrupt { sub_id, .. } => sub_id,
            Op::SpawnAgent { sub_id, .. } => sub_id,
            Op::TerminateAgent { sub_id, .. } => sub_id,
            Op::ExecApproval { sub_id, .. } => sub_id,
            Op::Other { sub_id } => sub_id,
        }
    }
}

/// Outbound events.
#[allow(inconsistent_fields)]
#[derive(Debug)]
pub enum Event {
    SessionConfigured { sub_id: SubmissionId, session_id: SessionId, config: SessionConfig },
    TaskStarted { sub_id: SubmissionId, task_id: TaskId, prompt: String },
    TaskInterrupted { sub_id: SubmissionId, task_id: TaskId },
    AgentSpawned {
        sub_id: SubmissionId,
        agent_id: AgentId,
        parent_id: Option<AgentId>,
        role: AgentRole,
        config: AgentConfig,
    },
    AgentStatusChanged { sub_id: SubmissionId, agent_id: AgentId, status: AgentStatus },
    AgentMessage {
        sub_id: SubmissionId,
        agent_id: AgentId,
        content: String,
        streaming: bool,
        message_type: MessageType,
    },
    AgentTerminated { sub_id: SubmissionId, agent_id: AgentId, reason: String },
    Warning { sub_id: SubmissionId, message: String, details: Option<String> },
}

/// Tree view of a session's agents, as handed to observers.
#[derive(Debug)]
pub struct AgentTree {
    pub agent_id: AgentId,
    pub role: AgentRole,
    pub status: AgentStatus,
    pub task_summary: Option<String>,
    pub children: Vec<AgentTree>,
}

} // verus!
