//! A single worker: identity, role, status, children, task and usage.

use vstd::prelude::*;
use crate::error::GoblinError;
use crate::hierarchy::{clone_ids, without};
use crate::protocol::{
    fresh_identity, AgentConfig, AgentId, AgentRole, AgentStatus, Event, MessageType, SubmissionId, TaskId,
    TokenUsage,
};

verus! {

/// Mathematical model of an agent.
pub ghost struct AgentView {
    pub id: AgentId,
    pub role: AgentRole,
    pub status: AgentStatus,
    pub config: AgentConfig,
    pub parent_id: Option<AgentId>,
    pub children: Seq<AgentId>,
    pub current_task: Option<TaskId>,
    pub usage: TokenUsage,
}

impl AgentView {
    /// The total counter is the sum of the other two.
    pub open spec fn usage_consistent(self) -> bool {
        self.usage.total_tokens == self.usage.input_tokens + self.usage.output_tokens
    }

    /// Whether the agent may take another child: spawning is enabled and
    /// the cap on children, if there is one, is not reached.
    pub open spec fn can_spawn(self) -> bool {
        self.config.can_spawn && match self.config.max_children {
            Some(max) => self.children.len() < max,
            None => true,
        }
    }
}

/// The status of an agent after `asked` has been asked for: `asked`,
/// unless the agent was terminated, which it then stays.
pub open spec fn next_status(current: AgentStatus, asked: AgentStatus) -> AgentStatus {
    if current is Terminated {
        AgentStatus::Terminated
    } else {
        asked
    }
}

/// The event that reports a status change.
pub open spec fn status_event(sub_id: SubmissionId, agent_id: AgentId, status: AgentStatus) -> Event {
    Event::AgentStatusChanged { sub_id, agent_id, status }
}

/// The events of one termination: the status change, then the notice.
pub open spec fn termination_events(sub_id: SubmissionId, agent_id: AgentId, reason: String) -> Seq<Event> {
    seq![
        status_event(sub_id, agent_id, AgentStatus::Terminated),
        Event::AgentTerminated { sub_id, agent_id, reason },
    ]
}

/// Whether `first` and `second` report the termination of `agent_id`
/// for a reason that reads `reason`.
pub open spec fn reports_termination(
    first: Event,
    second: Event,
    sub_id: SubmissionId,
    agent_id: AgentId,
    reason: Seq<char>,
) -> bool {
    &&& first == status_event(sub_id, agent_id, AgentStatus::Terminated)
    &&& second matches Event::AgentTerminated { sub_id: s, agent_id: a, reason: r } && s == sub_id
        && a == agent_id && r@ == reason
}

/// In a list without repetition, taking out the first occurrence of a
/// value takes out every occurrence.
pub proof fn lemma_remove_value_without(s: Seq<AgentId>, id: AgentId)
    requires
        s.no_duplicates(),
    ensures
        s.remove_value(id) == without(s, id),
    decreases s.len(),
{
    reveal(Seq::filter);
    s.index_of_first_ensures(id);
    if s.len() == 0 {
    } else {
        let t = s.drop_last();
        let x = s.last();
        assert(s =~= t.push(x));
        t.index_of_first_ensures(id);
        lemma_remove_value_without(t, id);
        if x == id {
            assert(!t.contains(id));
            assert(s.index_of_first(id) == Some(s.len() - 1));
            assert(s.remove(s.len() - 1) =~= t);
        } else {
            if t.contains(id) {
                let i = t.index_of_first(id).unwrap();
                assert(s[i] == id);
                assert(s.index_of_first(id) == Some(i));
                assert(s.remove(i) =~= t.remove(i).push(x));
            } else {
                assert(!s.contains(id));
            }
        }
    }
}

/// A single worker.
pub struct Agent {
    id: AgentId,
    role: AgentRole,
    status: AgentStatus,
    config: AgentConfig,
    parent_id: Option<AgentId>,
    children: Vec<AgentId>,
    current_task: Option<TaskId>,
    usage: TokenUsage,
}

impl View for Agent {
    type V = AgentView;

    closed spec fn view(&self) -> AgentView {
        AgentView {
            id: self.id,
            role: self.role,
            status: self.status,
            config: self.config,
            parent_id: self.parent_id,
            children: self.children@,
            current_task: self.current_task,
            usage: self.usage,
        }
    }
}

impl Agent {
    /// A new agent under a newly drawn identity, in status `Spawning`,
    /// without children, task or usage.
    pub fn new(config: AgentConfig, parent_id: Option<AgentId>) -> (a: Self)
        ensures
            a@ == (AgentView {
                id: a@.id,
                role: config.role,
                status: AgentStatus::Spawning,
                config,
                parent_id,
                children: Seq::empty(),
                current_task: None,
                usage: TokenUsage { input_tokens: 0, output_tokens: 0, total_tokens: 0 },
            }),
    {
        Agent::with_id(fresh_identity(), config, parent_id)
    }

    /// A new agent under the identity `id`, in status `Spawning`, without
    /// children, task or usage.
    pub fn with_id(id: AgentId, config: AgentConfig, parent_id: Option<AgentId>) -> (a: Self)
        ensures
            a@ == (AgentView {
                id,
                role: config.role,
                status: AgentStatus::Spawning,
                config,
                parent_id,
                children: Seq::empty(),
                current_task: None,
                usage: TokenUsage { input_tokens: 0, output_tokens: 0, total_tokens: 0 },
            }),
    {
        Agent {
            id,
            role: config.role.clone(),
            status: AgentStatus::Spawning,
            config,
            parent_id,
            children: Vec::new(),
            current_task: None,
            usage: TokenUsage { input_tokens: 0, output_tokens: 0, total_tokens: 0 },
        }
    }

    /// The agent's identity.
    pub fn id(&self) -> (r: AgentId)
        ensures
            r == self@.id,
    {
        self.id
    }

    /// The agent's role.
    pub fn role(&self) -> (r: &AgentRole)
        ensures
            *r == self@.role,
    {
        &self.role
    }

    /// What the agent was created with.
    pub fn config(&self) -> (r: &AgentConfig)
        ensures
            *r == self@.config,
    {
        &self.config
    }

    /// The agent's parent, if it has one.
    pub fn parent_id(&self) -> (r: Option<AgentId>)
        ensures
            r == self@.parent_id,
    {
        self.parent_id
    }

    /// Current status.
    pub fn status(&self) -> (s: AgentStatus)
        ensures
            s == self@.status,
    {
        self.status.clone()
    }

    /// Sets the status and hands back the event that reports the status
    /// the agent has then. `Terminated` is final: a terminated agent
    /// stays terminated whatever is asked for.
    pub fn set_status(&mut self, status: AgentStatus, sub_id: &SubmissionId) -> (e: Event)
        ensures
            final(self)@ == (AgentView {
                status: next_status(old(self)@.status, status),
                ..old(self)@
            }),
            e == status_event(*sub_id, old(self)@.id, next_status(old(self)@.status, status)),
    {
        let terminated = match &self.status {
            AgentStatus::Terminated => true,
            _ => false,
        };
        if !terminated {
            self.status = status;
        }
        Event::AgentStatusChanged {
            sub_id: sub_id.clone(),
            agent_id: self.id,
            status: self.status.clone(),
        }
    }

    /// Brings the agent through `Initializing` to `Running`; the two
    /// status events come back in that order. A terminated agent stays
    /// terminated, and both events say so.
    pub fn initialize(&mut self, sub_id: &SubmissionId) -> (r: Result<Vec<Event>, GoblinError>)
        ensures
            final(self)@ == (AgentView {
                status: next_status(old(self)@.status, AgentStatus::Running),
                ..old(self)@
            }),
            r is Ok,
            r->Ok_0@ == seq![
                status_event(
                    *sub_id,
                    old(self)@.id,
                    next_status(old(self)@.status, AgentStatus::Initializing),
                ),
                status_event(
                    *sub_id,
                    old(self)@.id,
                    next_status(old(self)@.status, AgentStatus::Running),
                ),
            ],
    {
        let mut events: Vec<Event> = Vec::new();
        let first = self.set_status(AgentStatus::Initializing, sub_id);
        events.push(first);
        let second = self.set_status(AgentStatus::Running, sub_id);
        events.push(second);
        proof {
            assert(events@ =~= seq![
                status_event(
                    *sub_id,
                    old(self)@.id,
                    next_status(old(self)@.status, AgentStatus::Initializing),
                ),
                status_event(
                    *sub_id,
                    old(self)@.id,
                    next_status(old(self)@.status, AgentStatus::Running),
                ),
            ]);
        }
        Ok(events)
    }

    /// Assigns a task.
    pub fn assign_task(&mut self, task_id: TaskId)
        ensures
            final(self)@ == (AgentView { current_task: Some(task_id), ..old(self)@ }),
    {
        self.current_task = Some(task_id);
    }

    /// The assigned task, if any.
    pub fn current_task(&self) -> (t: Option<TaskId>)
        ensures
            t == self@.current_task,
    {
        self.current_task
    }

    /// Appends a child.
    pub fn add_child(&mut self, child_id: AgentId)
        ensures
            final(self)@ == (AgentView {
                children: old(self)@.children.push(child_id),
                ..old(self)@
            }),
    {
        self.children.push(child_id);
    }

    /// Takes out the first occurrence of a child; says whether there was one.
    pub fn remove_child(&mut self, child_id: &AgentId) -> (removed: bool)
        ensures
            removed == old(self)@.children.contains(*child_id),
            final(self)@ == (AgentView {
                children: old(self)@.children.remove_value(*child_id),
                ..old(self)@
            }),
    {
        let mut pos: usize = 0;
        while pos < self.children.len()
            invariant
                pos <= self.children.len(),
                *self == *old(self),
                forall|j: int| 0 <= j < pos ==> self.children@[j] != *child_id,
            decreases self.children.len() - pos,
        {
            if self.children[pos] == *child_id {
                proof {
                    self.children@.index_of_first_ensures(*child_id);
                    let k = self.children@.index_of_first(*child_id);
                    assert(self.children@.contains(*child_id));
                    assert(k == Some(pos as int));
                }
                self.children.remove(pos);
                return true;
            }
            pos += 1;
        }
        proof {
            self.children@.index_of_first_ensures(*child_id);
        }
        false
    }

    /// The children in insertion order.
    pub fn children(&self) -> (c: Vec<AgentId>)
        ensures
            c@ == self@.children,
    {
        clone_ids(&self.children)
    }

    /// Whether the agent may take another child.
    pub fn can_spawn(&self) -> (b: bool)
        ensures
            b == self@.can_spawn(),
    {
        if !self.config.can_spawn {
            return false;
        }
        if let Some(max) = self.config.max_children {
            return self.children.len() < max;
        }
        true
    }

    /// Adds to the token counters and recomputes the total.
    pub fn add_usage(&mut self, input: u64, output: u64)
        requires
            old(self)@.usage.input_tokens + input + old(self)@.usage.output_tokens + output
                <= u64::MAX,
        ensures
            final(self)@ == (AgentView {
                usage: TokenUsage {
                    input_tokens: (old(self)@.usage.input_tokens + input) as u64,
                    output_tokens: (old(self)@.usage.output_tokens + output) as u64,
                    total_tokens: (old(self)@.usage.input_tokens + input
                        + old(self)@.usage.output_tokens + output) as u64,
                },
                ..old(self)@
            }),
            final(self)@.usage_consistent(),
    {
        let input_tokens: u64 = self.usage.input_tokens + input;
        let output_tokens: u64 = self.usage.output_tokens + output;
        self.usage = TokenUsage {
            input_tokens,
            output_tokens,
            total_tokens: input_tokens + output_tokens,
        };
    }

    /// The token counters.
    pub fn usage(&self) -> (u: TokenUsage)
        ensures
            u == self@.usage,
    {
        self.usage
    }

    /// The event that carries a text message of this agent.
    pub fn emit_message(&self, sub_id: &SubmissionId, content: String, streaming: bool) -> (e: Event)
        ensures
            e == (Event::AgentMessage {
                sub_id: *sub_id,
                agent_id: self@.id,
                content,
                streaming,
                message_type: MessageType::Text,
            }),
    {
        Event::AgentMessage {
            sub_id: sub_id.clone(),
            agent_id: self.id,
            content,
            streaming,
            message_type: MessageType::Text,
        }
    }

    /// Marks the agent terminated; the status event and the termination
    /// notice come back in that order.
    pub fn terminate(&mut self, sub_id: &SubmissionId, reason: String) -> (events: Vec<Event>)
        ensures
            final(self)@ == (AgentView { status: AgentStatus::Terminated, ..old(self)@ }),
            events@ == termination_events(*sub_id, old(self)@.id, reason),
    {
        let mut events: Vec<Event> = Vec::new();
        let changed = self.set_status(AgentStatus::Terminated, sub_id);
        events.push(changed);
        events.push(Event::AgentTerminated { sub_id: sub_id.clone(), agent_id: self.id, reason });
        proof {
            assert(events@ =~= termination_events(*sub_id, old(self)@.id, reason));
        }
        events
    }
}

} // verus!
