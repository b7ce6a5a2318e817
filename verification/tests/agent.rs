use cabal::agent::Agent;
use cabal::protocol::{AgentConfig, AgentId, AgentRole, AgentStatus, Event, MessageType, TokenUsage};

fn sub(n: u32) -> String {
    n.to_string()
}

fn create_test_agent() -> Agent {
    let config = AgentConfig { role: AgentRole::Worker, can_spawn: false, ..Default::default() };
    Agent::with_id(1, config, None)
}

fn create_new_agent() -> Agent {
    let config = AgentConfig { role: AgentRole::Worker, can_spawn: false, ..Default::default() };
    Agent::new(config, None)
}

#[test]
fn test_agent_creation() {
    let agent = create_new_agent();
    assert_eq!(agent.status(), AgentStatus::Spawning);
    assert!(agent.parent_id().is_none());
}

#[test]
fn new_agents_get_distinct_identities() {
    let a = create_new_agent();
    let b = create_new_agent();
    assert_ne!(a.id(), b.id());
    assert!(a.children().is_empty());
    assert!(a.current_task().is_none());
}

#[test]
fn test_agent_children() {
    let mut agent = create_new_agent();
    let child_id: AgentId = 2;

    agent.add_child(child_id);
    assert_eq!(agent.children().len(), 1);

    assert!(agent.remove_child(&child_id));
    assert_eq!(agent.children().len(), 0);
}

#[test]
fn remove_child_takes_the_first_occurrence_only() {
    let mut agent = create_test_agent();
    agent.add_child(2);
    agent.add_child(3);
    agent.add_child(2);
    assert!(agent.remove_child(&2));
    assert_eq!(agent.children(), vec![3, 2]);
    assert!(!agent.remove_child(&9));
    assert_eq!(agent.children(), vec![3, 2]);
}

#[test]
fn can_spawn_follows_flag_and_cap() {
    let mut a = Agent::with_id(1, AgentConfig { can_spawn: false, max_children: None, ..Default::default() }, None);
    assert!(!a.can_spawn());
    a = Agent::with_id(1, AgentConfig { can_spawn: true, max_children: None, ..Default::default() }, None);
    assert!(a.can_spawn());
    a = Agent::with_id(1, AgentConfig { can_spawn: true, max_children: Some(1), ..Default::default() }, None);
    assert!(a.can_spawn());
    a.add_child(2);
    assert!(!a.can_spawn());
    a = Agent::with_id(1, AgentConfig { can_spawn: true, max_children: Some(0), ..Default::default() }, None);
    assert!(!a.can_spawn());
}

#[test]
fn add_usage_accumulates_and_totals() {
    let mut a = create_test_agent();
    assert_eq!(a.usage(), TokenUsage { input_tokens: 0, output_tokens: 0, total_tokens: 0 });
    a.add_usage(10, 5);
    a.add_usage(1, 2);
    assert_eq!(a.usage(), TokenUsage { input_tokens: 11, output_tokens: 7, total_tokens: 18 });
}

#[test]
fn set_status_reports_the_change() {
    let mut a = create_test_agent();
    let e = a.set_status(AgentStatus::Running, &sub(7));
    assert_eq!(a.status(), AgentStatus::Running);
    assert!(matches!(&e, Event::AgentStatusChanged { sub_id, agent_id: 1, status: AgentStatus::Running } if sub_id == "7"));
}

#[test]
fn initialize_runs_through_two_states() {
    let mut a = create_test_agent();
    let events = a.initialize(&sub(7)).unwrap();
    assert_eq!(a.status(), AgentStatus::Running);
    assert_eq!(events.len(), 2);
    assert!(matches!(&events[0], Event::AgentStatusChanged { sub_id, agent_id: 1, status: AgentStatus::Initializing } if sub_id == "7"));
    assert!(matches!(&events[1], Event::AgentStatusChanged { sub_id, agent_id: 1, status: AgentStatus::Running } if sub_id == "7"));
}

#[test]
fn terminate_reports_status_then_termination() {
    let mut a = create_test_agent();
    let events = a.terminate(&sub(7), "done".to_string());
    assert_eq!(a.status(), AgentStatus::Terminated);
    assert_eq!(events.len(), 2);
    assert!(matches!(&events[0], Event::AgentStatusChanged { sub_id, agent_id: 1, status: AgentStatus::Terminated } if sub_id == "7"));
    assert!(matches!(&events[1], Event::AgentTerminated { sub_id, agent_id: 1, reason } if sub_id == "7" && reason == "done"));
}

#[test]
fn emit_message_is_a_text_message() {
    let a = create_test_agent();
    let e = a.emit_message(&sub(7), "hello".to_string(), true);
    assert!(matches!(&e, Event::AgentMessage { sub_id, agent_id: 1, content, streaming: true, message_type: MessageType::Text } if sub_id == "7" && content == "hello"));
}

#[test]
fn tasks_are_assigned_and_read_back() {
    let mut a = create_test_agent();
    assert!(a.current_task().is_none());
    a.assign_task(42);
    assert_eq!(a.current_task(), Some(42));
    assert_eq!(a.id(), 1);
    assert!(matches!(a.role(), AgentRole::Worker));
    assert!(!a.config().can_spawn);
}

#[test]
fn status_may_carry_a_reason() {
    let mut a = create_test_agent();
    let e = a.set_status(AgentStatus::Waiting { reason: "approval".to_string() }, &sub(7));
    assert_eq!(a.status(), AgentStatus::Waiting { reason: "approval".to_string() });
    assert!(matches!(&e, Event::AgentStatusChanged { sub_id, agent_id: 1, status: AgentStatus::Waiting { reason } } if sub_id == "7" && reason == "approval"));
}

#[test]
fn terminated_is_final() {
    let mut a = create_test_agent();
    let _ = a.terminate(&sub(7), "done".to_string());
    let e = a.set_status(AgentStatus::Running, &sub(8));
    assert_eq!(a.status(), AgentStatus::Terminated);
    assert!(matches!(&e, Event::AgentStatusChanged { sub_id, agent_id: 1, status: AgentStatus::Terminated } if sub_id == "8"));
    let events = a.initialize(&sub(9)).unwrap();
    assert_eq!(a.status(), AgentStatus::Terminated);
    assert_eq!(events.len(), 2);
    assert!(matches!(&events[0], Event::AgentStatusChanged { status: AgentStatus::Terminated, .. }));
    assert!(matches!(&events[1], Event::AgentStatusChanged { status: AgentStatus::Terminated, .. }));
}
