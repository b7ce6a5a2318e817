//! The dispatcher: turns each inbound command into changes of the active
//! session and into the events that report them.

use vstd::prelude::*;
use std::collections::HashMap;
use vstd::std_specs::hash::spec_keys_iter;
use vstd::std_specs::iter::IteratorSpec;
use vstd::string::StringExecFns;
use crate::agent::termination_events;
use crate::error::GoblinError;
use crate::protocol::{
    clone_text, fresh_identity, AgentConfig, AgentId, AgentRole, CallId, Event, MessageType, Op,
    SessionConfig, SessionId, SubmissionId, TaskContext, TaskId,
};
use crate::session::{cascade_reported, spawn_event, Session, SessionView};

verus! {

broadcast use vstd::std_specs::hash::group_hash_axioms;

/// What handling one command gave: the events to send, in order, the
/// error that ended the handling, if one did, and the session that the
/// command acted on, if it acted on one.
pub struct Dispatch {
    pub events: Vec<Event>,
    pub error: Option<GoblinError>,
    pub session: Option<SessionId>,
}

/// Identities that handling a command may need.
#[derive(Clone, Copy)]
pub struct FreshIds {
    pub session_id: SessionId,
    pub agent_id: AgentId,
    pub task_id: TaskId,
}

/// The configuration of the root agent of a session.
pub open spec fn root_config(config: SessionConfig) -> AgentConfig {
    AgentConfig {
        role: AgentRole::Orchestrator,
        model: config.model,
        cwd: config.cwd,
        can_spawn: true,
        max_children: Some(config.max_parallel_agents),
    }
}

/// A freshly configured session: empty but for its root agent.
pub open spec fn configured_session(ids: FreshIds, config: SessionConfig) -> SessionView {
    (SessionView {
        id: ids.session_id,
        config,
        agents: Map::empty(),
        hierarchy: crate::hierarchy::HierarchyView::empty(),
        current_task: None,
    }).spawn(ids.agent_id, root_config(config), None)
}

/// A freshly configured session holds its root agent alone: without
/// parent or children, spawning enabled, children capped at the
/// session's `max_parallel_agents`; so the root can take a child if and
/// only if that cap is above zero.
pub proof fn lemma_configured_root(ids: FreshIds, config: SessionConfig)
    ensures
        configured_session(ids, config).agents.dom() == Set::<AgentId>::empty().insert(
            ids.agent_id,
        ),
        configured_session(ids, config).agents[ids.agent_id] == crate::session::spawned_agent(
            ids.agent_id,
            root_config(config),
            None,
        ),
        configured_session(ids, config).hierarchy.root == Some(ids.agent_id),
        configured_session(ids, config).agents[ids.agent_id].can_spawn()
            <==> config.max_parallel_agents > 0,
{
    assert(configured_session(ids, config).agents.dom() =~= Set::<AgentId>::empty().insert(
        ids.agent_id,
    ));
}

/// The text that tells the root agent of a task.
pub open spec fn received_text(prompt: Seq<char>) -> Seq<char> {
    "Received task: "@ + prompt
}

/// Whether `e` is the message that forwards `prompt` to agent `root`.
pub open spec fn is_forward(e: Event, sub_id: SubmissionId, root: AgentId, prompt: Seq<char>) -> bool {
    match e {
        Event::AgentMessage { sub_id: s, agent_id, content, streaming, message_type } => s == sub_id
            && agent_id == root && content@ == received_text(prompt) && !streaming && message_type
            == MessageType::Text,
        _ => false,
    }
}

/// Whether `text` is the reason given, or the empty text where none is.
pub open spec fn given_reason(reason: Option<String>, text: String) -> bool {
    match reason {
        Some(r) => text == r,
        None => text@ == Seq::<char>::empty(),
    }
}

/// The root agent of a session, if the hierarchy names one that is in
/// the table.
pub open spec fn root_agent(s: SessionView) -> Option<AgentId> {
    match s.hierarchy.root {
        Some(r) => if s.agents.contains_key(r) {
            Some(r)
        } else {
            None
        },
        None => None,
    }
}

/// What a command that needs a session leaves where there is none:
/// nothing but `NoActiveSession`.
pub open spec fn no_session(
    before: Map<SessionId, SessionView>,
    after: Map<SessionId, SessionView>,
    out: Dispatch,
) -> bool {
    &&& forall|k: SessionId| !before.contains_key(k)
    &&& after == before
    &&& out.events@.len() == 0
    &&& out.error == Some(GoblinError::NoActiveSession)
}

/// What handling a session configuration leaves: the new session,
/// with its root agent, registered under its identity, and the spawn
/// and the configuration reported in that order.
pub open spec fn configure_done(
    before: Map<SessionId, SessionView>,
    after: Map<SessionId, SessionView>,
    out: Dispatch,
    config: SessionConfig,
    ids: FreshIds,
    sub_id: SubmissionId,
) -> bool {
    &&& after == before.insert(ids.session_id, configured_session(ids, config))
    &&& out.session == Some(ids.session_id)
    &&& out.error is None
    &&& out.events@ == seq![
        spawn_event(sub_id, ids.agent_id, root_config(config), None),
        Event::SessionConfigured { sub_id, session_id: ids.session_id, config },
    ]
}

/// What handling a user input leaves: without a session, nothing but
/// `NoActiveSession`; without a root agent in the active session,
/// nothing but `NoOrchestrator`; else the task recorded and reported and
/// the prompt forwarded to the root agent.
pub open spec fn user_input_done(
    before: Map<SessionId, SessionView>,
    after: Map<SessionId, SessionView>,
    out: Dispatch,
    prompt: Seq<char>,
    ids: FreshIds,
    sub_id: SubmissionId,
) -> bool {
    match out.session {
        None => no_session(before, after, out),
        Some(k) => before.contains_key(k) && match root_agent(before[k]) {
            None => after == before && out.events@.len() == 0 && out.error == Some(
                GoblinError::NoOrchestrator,
            ),
            Some(root) => {
                &&& after == before.insert(
                    k,
                    SessionView { current_task: Some(ids.task_id), ..before[k] },
                )
                &&& out.error is None
                &&& out.events@.len() == 2
                &&& out.events@[0] matches Event::TaskStarted { sub_id: s, task_id, prompt: p }
                    && s == sub_id && task_id == ids.task_id && p@ == prompt
                &&& is_forward(out.events@[1], sub_id, root, prompt)
            },
        },
    }
}

/// What handling an interrupt leaves: without a session, nothing but
/// `NoActiveSession`; else the task named, or the current one, reported
/// as interrupted and the current task cleared; with neither, nothing.
pub open spec fn interrupt_done(
    before: Map<SessionId, SessionView>,
    after: Map<SessionId, SessionView>,
    out: Dispatch,
    task_id: Option<TaskId>,
    sub_id: SubmissionId,
) -> bool {
    match out.session {
        None => no_session(before, after, out),
        Some(k) => before.contains_key(k) && out.error is None && match (if task_id is Some {
            task_id
        } else {
            before[k].current_task
        }) {
            Some(tid) => after == before.insert(k, SessionView { current_task: None, ..before[k] })
                && out.events@ == seq![Event::TaskInterrupted { sub_id, task_id: tid }],
            None => after == before && out.events@.len() == 0,
        },
    }
}

/// What handling a spawn leaves: without a session, nothing but
/// `NoActiveSession`; where the parent cannot take a child, nothing but
/// the error that says why; where the identity offered is in use in the
/// active session, nothing but `SpawnDenied`; else what the active
/// session's spawn gives.
pub open spec fn spawn_done(
    before: Map<SessionId, SessionView>,
    after: Map<SessionId, SessionView>,
    out: Dispatch,
    config: AgentConfig,
    parent_id: Option<AgentId>,
    ids: FreshIds,
    sub_id: SubmissionId,
) -> bool {
    match out.session {
        None => no_session(before, after, out),
        Some(k) => before.contains_key(k) && match parent_id {
            Some(p) if !before[k].agents.contains_key(p) => after == before && out.events@.len()
                == 0 && out.error == Some(GoblinError::AgentNotFound(p)),
            Some(p) if !before[k].agents[p].can_spawn() => after == before && out.events@.len()
                == 0 && (out.error matches Some(GoblinError::SpawnDenied(text)) && text@
                == "Parent agent cannot spawn more children"@),
            _ => if before[k].agents.contains_key(ids.agent_id) {
                after == before && out.events@.len() == 0 && (out.error matches Some(
                    GoblinError::SpawnDenied(text),
                ) && text@ == "Agent identity already in use"@)
            } else {
                after == before.insert(k, before[k].spawn(ids.agent_id, config, parent_id))
                    && out.error is None && out.events@ == seq![
                    spawn_event(sub_id, ids.agent_id, config, parent_id),
                ]
            },
        },
    }
}

/// What handling a termination leaves: without a session, nothing but
/// `NoActiveSession`; else what the active session's termination gives.
pub open spec fn terminate_done(
    before: Map<SessionId, SessionView>,
    after: Map<SessionId, SessionView>,
    out: Dispatch,
    agent_id: AgentId,
    reason: Option<String>,
    sub_id: SubmissionId,
) -> bool {
    match out.session {
        None => no_session(before, after, out),
        Some(k) => before.contains_key(k) && if !before[k].agents.contains_key(agent_id) {
            after == before && out.events@.len() == 0 && out.error == Some(
                GoblinError::AgentNotFound(agent_id),
            )
        } else {
            &&& out.error is None
            &&& after.contains_key(k)
            &&& after == before.insert(k, after[k])
            &&& before[k].subtree_gone(after[k], agent_id)
            &&& out.events@.len() + 2 * after[k].agents.dom().len() == 2
                * before[k].agents.dom().len()
            &&& out.events@.len() >= 2
            &&& exists|order: Seq<AgentId>| #[trigger]
                cascade_reported(
                    order,
                    out.events@,
                    0,
                    before[k].agents,
                    after[k].agents,
                    agent_id,
                    sub_id,
                )
            &&& exists|text: String| #[trigger]
                given_reason(reason, text) && out.events@.subrange(
                    out.events@.len() - 2,
                    out.events@.len() as int,
                ) == termination_events(sub_id, agent_id, text)
        },
    }
}

/// What handling `op` with the identities `ids` leaves behind.
pub open spec fn op_done(
    before: Map<SessionId, SessionView>,
    after: Map<SessionId, SessionView>,
    out: Dispatch,
    op: Op,
    ids: FreshIds,
) -> bool {
    match op {
        Op::ConfigureSession { sub_id, config } => configure_done(
            before,
            after,
            out,
            config,
            ids,
            sub_id,
        ),
        Op::UserInput { sub_id, prompt, context } => user_input_done(
            before,
            after,
            out,
            prompt@,
            ids,
            sub_id,
        ),
        Op::Interrupt { sub_id, task_id } => interrupt_done(before, after, out, task_id, sub_id),
        Op::SpawnAgent { sub_id, config, parent_id } => spawn_done(
            before,
            after,
            out,
            config,
            parent_id,
            ids,
            sub_id,
        ),
        Op::TerminateAgent { sub_id, agent_id, reason } => terminate_done(
            before,
            after,
            out,
            agent_id,
            reason,
            sub_id,
        ),
        _ => after == before && out.events@.len() == 0 && out.error is None && out.session is None,
    }
}

/// The dispatcher's state: the sessions configured so far, by identity.
/// Commands act on the active session: any one of them.
pub struct Orchestrator {
    sessions: HashMap<SessionId, Session>,
}

impl Orchestrator {
    /// The sessions by identity.
    pub closed spec fn view(&self) -> Map<SessionId, SessionView> {
        Map::new(|k: SessionId| self.sessions@.contains_key(k), |k: SessionId| self.sessions@[k]@)
    }

    /// Every session is well-formed.
    pub open spec fn wf(&self) -> bool {
        forall|k: SessionId| #[trigger] self@.contains_key(k) ==> self@[k].wf()
    }

    /// A dispatcher without sessions.
    pub fn new() -> (o: Self)
        ensures
            o@ == Map::<SessionId, SessionView>::empty(),
            o.wf(),
    {
        let o = Orchestrator { sessions: HashMap::new() };
        proof {
            assert(o@ =~= Map::<SessionId, SessionView>::empty());
        }
        o
    }

    /// The session with this identity, if there is one.
    pub fn get_session(&self, id: &SessionId) -> (s: Option<&Session>)
        ensures
            s is Some == self@.contains_key(*id),
            s is Some ==> s.unwrap()@ == self@[*id],
    {
        self.sessions.get(id)
    }

    /// The identities of the sessions, each once, in no particular order.
    pub fn session_ids(&self) -> (ids: Vec<SessionId>)
        ensures
            ids@.no_duplicates(),
            forall|k: SessionId| ids@.contains(k) <==> self@.contains_key(k),
    {
        let mut r: Vec<SessionId> = Vec::new();
        let ghost all = spec_keys_iter(&self.sessions).remaining();
        for k in it: self.sessions.keys()
            invariant
                it.seq() == all,
                all.no_duplicates(),
                all.unref().to_set() == self.sessions@.dom(),
                r@.len() == it.index(),
                forall|i: int| 0 <= i < r@.len() ==> #[trigger] r@[i] == *all[i],
        {
            r.push(*k);
        }
        proof {
            assert forall|id: SessionId| r@.contains(id) <==> self@.contains_key(id) by {
                if r@.contains(id) {
                    let i = choose|i: int| 0 <= i < r@.len() && r@[i] == id;
                    assert(all.unref()[i] == id);
                    assert(all.unref().to_set().contains(id));
                }
                if self@.contains_key(id) {
                    assert(all.unref().to_set().contains(id));
                    let j = choose|j: int| 0 <= j < all.unref().len() && all.unref()[j] == id;
                    assert(r@[j] == id);
                }
            }
            assert forall|i: int, j: int| 0 <= i < j < r@.len() implies r@[i] != r@[j] by {
                assert(all[i] != all[j]);
            }
        }
        r
    }

    /// The active session: the one that a walk over the sessions meets
    /// first; none where there is no session.
    pub fn active(&self) -> (r: Option<SessionId>)
        ensures
            match r {
                Some(k) => self@.contains_key(k),
                None => forall|k: SessionId| !self@.contains_key(k),
            },
    {
        let ghost all = spec_keys_iter(&self.sessions).remaining();
        for k in it: self.sessions.keys()
            invariant
                it.seq() == all,
                all.unref().to_set() == self.sessions@.dom(),
                it.index() == 0,
        {
            proof {
                assert(all.unref()[0] == *k);
                assert(all.unref().to_set().contains(*k));
            }
            return Some(*k);
        }
        proof {
            assert forall|k: SessionId| !self@.contains_key(k) by {
                if self@.contains_key(k) {
                    assert(all.unref().to_set().contains(k));
                }
            }
        }
        None
    }

    /// Creates a session, registers it under its identity, and spawns
    /// its root agent: spawning enabled, children capped at the session's
    /// `max_parallel_agents`. The spawn event and the session-configured
    /// event come back in that order.
    pub fn configure_session(&mut self, config: SessionConfig, ids: FreshIds, sub_id: &SubmissionId) -> (out:
        Dispatch)
        requires
            old(self).wf(),
        ensures
            final(self).wf(),
            configure_done(old(self)@, final(self)@, out, config, ids, *sub_id),
    {
        let mut session = Session::with_id(ids.session_id, config.clone());
        let orchestrator_config = AgentConfig {
            role: AgentRole::Orchestrator,
            model: clone_text(&config.model),
            cwd: clone_text(&config.cwd),
            can_spawn: true,
            max_children: Some(config.max_parallel_agents),
        };
        let mut events: Vec<Event> = Vec::new();
        let mut error: Option<GoblinError> = None;
        match session.spawn_agent_as(ids.agent_id, orchestrator_config, None, sub_id) {
            Ok(e) => {
                events.push(e);
            },
            Err(e) => {
                error = Some(e);
            },
        }
        self.sessions.insert(ids.session_id, session);
        events.push(
            Event::SessionConfigured {
                sub_id: sub_id.clone(),
                session_id: ids.session_id,
                config,
            },
        );
        proof {
            assert(self@ =~= old(self)@.insert(ids.session_id, configured_session(ids, config)));
            assert(events@ =~= seq![
                spawn_event(*sub_id, ids.agent_id, root_config(config), None),
                Event::SessionConfigured { sub_id: *sub_id, session_id: ids.session_id, config },
            ]);
            assert forall|k: SessionId| #[trigger] self@.contains_key(k) implies self@[k].wf() by {
                if k != ids.session_id {
                    assert(old(self)@.contains_key(k));
                }
            }
        }
        Dispatch { events, error, session: Some(ids.session_id) }
    }

    /// Takes the session `id` out of the registry, to work on it; it
    /// goes back with `put_session`.
    pub fn take_session(&mut self, id: &SessionId) -> (r: Option<Session>)
        requires
            old(self).wf(),
        ensures
            final(self).wf(),
            match r {
                Some(s) => old(self)@.contains_key(*id) && s@ == old(self)@[*id] && s@.wf()
                    && final(self)@ == old(self)@.remove(*id),
                None => !old(self)@.contains_key(*id) && final(self)@ == old(self)@,
            },
    {
        let taken = self.sessions.remove(id);
        proof {
            if taken is Some {
                assert(self@ =~= old(self)@.remove(*id));
                assert(old(self)@.contains_key(*id));
            } else {
                assert(self@ =~= old(self)@);
            }
            assert forall|j: SessionId| #[trigger] self@.contains_key(j) implies self@[j].wf() by {
                assert(old(self)@.contains_key(j));
            }
        }
        taken
    }

    /// Registers a session under the key `id`, in place of any that
    /// stood there.
    pub fn put_session(&mut self, id: SessionId, session: Session)
        requires
            old(self).wf(),
            session@.wf(),
        ensures
            final(self).wf(),
            final(self)@ == old(self)@.insert(id, session@),
    {
        self.put_back(id, session);
    }

    /// Takes the active session out of the registry, if there is one.
    fn take_active(&mut self) -> (r: Option<(SessionId, Session)>)
        requires
            old(self).wf(),
        ensures
            match r {
                Some((k, s)) => old(self)@.contains_key(k) && s@ == old(self)@[k] && final(self)@
                    == old(self)@.remove(k) && s@.wf(),
                None => final(self)@ == old(self)@ && forall|k: SessionId|
                    !old(self)@.contains_key(k),
            },
            final(self).wf(),
    {
        match self.active() {
            Some(k) => {
                let taken = self.sessions.remove(&k);
                proof {
                    assert(self@ =~= old(self)@.remove(k));
                    assert(old(self)@[k].wf());
                    assert forall|j: SessionId| #[trigger] self@.contains_key(j) implies self@[j].wf() by {
                        assert(old(self)@.contains_key(j));
                    }
                }
                match taken {
                    Some(s) => Some((k, s)),
                    None => None,
                }
            },
            None => None,
        }
    }

    /// Puts a session back under its key.
    fn put_back(&mut self, k: SessionId, session: Session)
        requires
            old(self).wf(),
            session@.wf(),
        ensures
            final(self).wf(),
            final(self)@ == old(self)@.insert(k, session@),
    {
        self.sessions.insert(k, session);
        proof {
            assert(self@ =~= old(self)@.insert(k, session@));
            assert forall|j: SessionId| #[trigger] self@.contains_key(j) implies self@[j].wf() by {
                if j != k {
                    assert(old(self)@.contains_key(j));
                }
            }
        }
    }

    /// Starts a task: records `ids.task_id` as the active session's
    /// current task, reports the start, and forwards the prompt to the
    /// root agent as a message. Without a session nothing happens and
    /// `NoActiveSession` comes back; without a root agent nothing
    /// happens and `NoOrchestrator` comes back.
    pub fn handle_user_input(
        &mut self,
        prompt: &str,
        context: TaskContext,
        ids: FreshIds,
        sub_id: &SubmissionId,
    ) -> (out: Dispatch)
        requires
            old(self).wf(),
        ensures
            final(self).wf(),
            user_input_done(old(self)@, final(self)@, out, prompt@, ids, *sub_id),
    {
        let mut events: Vec<Event> = Vec::new();
        let (k, mut session) = match self.take_active() {
            Some(pair) => pair,
            None => {
                return Dispatch {
                    events,
                    error: Some(GoblinError::NoActiveSession),
                    session: None,
                };
            },
        };
        let forward = match session.orchestrator() {
            Some(agent) => {
                let content = String::from_str("Received task: ").concat(prompt);
                Some(agent.emit_message(sub_id, content, false))
            },
            None => None,
        };
        let error = match forward {
            Some(message) => {
                session.set_current_task(Some(ids.task_id));
                events.push(
                    Event::TaskStarted {
                        sub_id: sub_id.clone(),
                        task_id: ids.task_id,
                        prompt: String::from_str(prompt),
                    },
                );
                events.push(message);
                None
            },
            None => Some(GoblinError::NoOrchestrator),
        };
        self.put_back(k, session);
        proof {
            if error is None {
                assert(self@ =~= old(self)@.insert(
                    k,
                    SessionView { current_task: Some(ids.task_id), ..old(self)@[k] },
                ));
            } else {
                assert(self@ =~= old(self)@);
            }
        }
        Dispatch { events, error, session: Some(k) }
    }

    /// Interrupts the task named, or else the active session's current
    /// task: reports the interruption and clears the current task. With
    /// neither, nothing happens. Without a session `NoActiveSession`
    /// comes back.
    pub fn handle_interrupt(&mut self, task_id: Option<TaskId>, sub_id: &SubmissionId) -> (out:
        Dispatch)
        requires
            old(self).wf(),
        ensures
            final(self).wf(),
            interrupt_done(old(self)@, final(self)@, out, task_id, *sub_id),
    {
        let mut events: Vec<Event> = Vec::new();
        let (k, mut session) = match self.take_active() {
            Some(pair) => pair,
            None => {
                return Dispatch {
                    events,
                    error: Some(GoblinError::NoActiveSession),
                    session: None,
                };
            },
        };
        let current = match task_id {
            Some(t) => Some(t),
            None => session.current_task(),
        };
        if let Some(tid) = current {
            events.push(Event::TaskInterrupted { sub_id: sub_id.clone(), task_id: tid });
            session.set_current_task(None);
        }
        self.put_back(k, session);
        proof {
            if current is Some {
                assert(self@ =~= old(self)@.insert(
                    k,
                    SessionView { current_task: None, ..old(self)@[k] },
                ));
                assert(events@ =~= seq![
                    Event::TaskInterrupted { sub_id: *sub_id, task_id: current.unwrap() },
                ]);
            } else {
                assert(self@ =~= old(self)@);
            }
        }
        Dispatch { events, error: None, session: Some(k) }
    }

    /// Spawns the agent `ids.agent_id` in the active session; the
    /// session's answer comes back as it is. A parent that cannot take a
    /// child gives its error first; an identity that the session already
    /// holds gives `SpawnDenied`; both change nothing. Without a session
    /// `NoActiveSession` comes back.
    pub fn spawn_agent(
        &mut self,
        config: AgentConfig,
        parent_id: Option<AgentId>,
        ids: FreshIds,
        sub_id: &SubmissionId,
    ) -> (out: Dispatch)
        requires
            old(self).wf(),
        ensures
            final(self).wf(),
            spawn_done(old(self)@, final(self)@, out, config, parent_id, ids, *sub_id),
    {
        let mut events: Vec<Event> = Vec::new();
        let (k, mut session) = match self.take_active() {
            Some(pair) => pair,
            None => {
                return Dispatch {
                    events,
                    error: Some(GoblinError::NoActiveSession),
                    session: None,
                };
            },
        };
        let refusal = session.parent_refusal(parent_id);
        let error = if refusal.is_some() {
            refusal
        } else if session.get_agent(&ids.agent_id).is_some() {
            Some(GoblinError::SpawnDenied("Agent identity already in use".to_string()))
        } else {
            match session.spawn_agent_as(ids.agent_id, config, parent_id, sub_id) {
                Ok(e) => {
                    events.push(e);
                    None
                },
                Err(e) => Some(e),
            }
        };
        self.put_back(k, session);
        proof {
            if error is Some {
                assert(self@ =~= old(self)@);
            } else {
                assert(events@ =~= seq![spawn_event(*sub_id, ids.agent_id, config, parent_id)]);
                assert(self@ =~= old(self)@.insert(
                    k,
                    old(self)@[k].spawn(ids.agent_id, config, parent_id),
                ));
            }
        }
        Dispatch { events, error, session: Some(k) }
    }

    /// Terminates an agent of the active session with everything below
    /// it; a missing reason is the empty text. Without a session
    /// `NoActiveSession` comes back.
    pub fn terminate_agent(
        &mut self,
        agent_id: &AgentId,
        reason: Option<String>,
        sub_id: &SubmissionId,
    ) -> (out: Dispatch)
        requires
            old(self).wf(),
        ensures
            final(self).wf(),
            terminate_done(old(self)@, final(self)@, out, *agent_id, reason, *sub_id),
    {
        let mut events: Vec<Event> = Vec::new();
        let (k, mut session) = match self.take_active() {
            Some(pair) => pair,
            None => {
                return Dispatch {
                    events,
                    error: Some(GoblinError::NoActiveSession),
                    session: None,
                };
            },
        };
        let text = match reason {
            Some(r) => r,
            None => String::from_str(""),
        };
        let ghost given = text;
        proof {
            reveal_strlit("");
            assert(text@ =~= Seq::<char>::empty() || reason is Some);
            assert(given_reason(reason, given));
        }
        let error = match session.terminate_agent(agent_id, text, sub_id) {
            Ok(es) => {
                events = es;
                None
            },
            Err(e) => Some(e),
        };
        self.put_back(k, session);
        proof {
            if error is Some {
                assert(self@ =~= old(self)@);
            } else {
                assert(self@ =~= old(self)@.insert(k, self@[k]));
            }
        }
        Dispatch { events, error, session: Some(k) }
    }

    /// Takes note of an approval; nothing is routed to any agent.
    pub fn handle_exec_approval(&mut self, call_id: CallId, approved: bool, sub_id: &SubmissionId) -> (out:
        Dispatch)
        ensures
            final(self)@ == old(self)@,
            out.events@.len() == 0,
            out.error is None,
            out.session is None,
    {
        Dispatch { events: Vec::new(), error: None, session: None }
    }

    /// Handles one command under newly drawn identities and says what
    /// to send, together with the identities drawn.
    pub fn handle_op(&mut self, op: Op) -> (r: (FreshIds, Dispatch))
        requires
            old(self).wf(),
        ensures
            final(self).wf(),
            op_done(old(self)@, final(self)@, r.1, op, r.0),
    {
        let ids = FreshIds {
            session_id: fresh_identity(),
            agent_id: fresh_identity(),
            task_id: fresh_identity(),
        };
        let out = self.handle_op_with(op, ids);
        (ids, out)
    }

    /// Handles one command with the identities `ids` and says what to
    /// send. Commands that the dispatcher does not know change nothing
    /// and send nothing.
    pub fn handle_op_with(&mut self, op: Op, ids: FreshIds) -> (out: Dispatch)
        requires
            old(self).wf(),
        ensures
            final(self).wf(),
            op_done(old(self)@, final(self)@, out, op, ids),
    {
        match op {
            Op::ConfigureSession { sub_id, config } => self.configure_session(config, ids, &sub_id),
            Op::UserInput { sub_id, prompt, context } => self.handle_user_input(
                prompt.as_str(),
                context,
                ids,
                &sub_id,
            ),
            Op::Interrupt { sub_id, task_id } => self.handle_interrupt(task_id, &sub_id),
            Op::SpawnAgent { sub_id, config, parent_id } => self.spawn_agent(
                config,
                parent_id,
                ids,
                &sub_id,
            ),
            Op::TerminateAgent { sub_id, agent_id, reason } => self.terminate_agent(
                &agent_id,
                reason,
                &sub_id,
            ),
            Op::ExecApproval { sub_id, call_id, approved } => self.handle_exec_approval(
                call_id,
                approved,
                &sub_id,
            ),
            _ => Dispatch { events: Vec::new(), error: None, session: None },
        }
    }
}

} // verus!
