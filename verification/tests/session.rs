use cabal::error::GoblinError;
use cabal::protocol::{AgentConfig, AgentId, AgentRole, AgentStatus, Event, SessionConfig};
use cabal::session::Session;

fn sub(n: u32) -> String {
    n.to_string()
}

fn create_test_session() -> Session {
    Session::with_id(100, SessionConfig::default())
}

fn spawner(max: Option<usize>) -> AgentConfig {
    AgentConfig { role: AgentRole::Orchestrator, can_spawn: true, max_children: max, ..Default::default() }
}

#[test]
fn test_session_creation() {
    let session = Session::new(SessionConfig::default());
    assert_eq!(session.agent_count(), 0);
}

#[test]
fn test_spawn_agent() {
    let mut session = Session::new(SessionConfig::default());
    let sub_id = sub(9);

    let config = AgentConfig { role: AgentRole::Orchestrator, ..Default::default() };

    let result = session.spawn_agent(config, None, &sub_id);
    assert!(result.is_ok());
    assert_eq!(session.agent_count(), 1);

    let event = result;
    assert!(matches!(event, Ok(Event::AgentSpawned { .. })));
}

#[test]
fn spawn_under_unknown_parent_is_agent_not_found() {
    let mut session = create_test_session();
    let r = session.spawn_agent_as(2, AgentConfig::default(), Some(1), &sub(9));
    assert!(matches!(r, Err(GoblinError::AgentNotFound(1))));
    assert_eq!(session.agent_count(), 0);
    assert!(session.orchestrator().is_none());
}

#[test]
fn spawn_under_parent_that_cannot_spawn_is_denied() {
    let mut session = create_test_session();
    session.spawn_agent_as(1, AgentConfig::default(), None, &sub(9)).unwrap();
    let r = session.spawn_agent_as(2, AgentConfig::default(), Some(1), &sub(9));
    assert!(matches!(&r, Err(GoblinError::SpawnDenied(text)) if text == "Parent agent cannot spawn more children"));
    assert_eq!(session.agent_count(), 1);
    assert!(session.get_agent(&1).unwrap().children().is_empty());
}

#[test]
fn spawn_adds_one_agent_and_one_child() {
    let mut session = create_test_session();
    session.spawn_agent_as(1, spawner(None), None, &sub(9)).unwrap();
    session.spawn_agent_as(2, AgentConfig::default(), Some(1), &sub(9)).unwrap();
    let before = session.agent_count();
    let kids = session.get_agent(&1).unwrap().children().len();
    let e = session.spawn_agent_as(3, AgentConfig::default(), Some(1), &sub(11)).unwrap();
    assert_eq!(session.agent_count(), before + 1);
    assert_eq!(session.get_agent(&1).unwrap().children().len(), kids + 1);
    assert_eq!(session.get_agent(&1).unwrap().children(), vec![2, 3]);
    assert!(matches!(&e, Event::AgentSpawned { sub_id, agent_id: 3, parent_id: Some(1), role: AgentRole::Worker, .. } if sub_id == "11"));
    let a = session.get_agent(&3).unwrap();
    assert_eq!(a.status(), AgentStatus::Spawning);
    assert_eq!(a.parent_id(), Some(1));
    assert_eq!(a.id(), 3);
    let tree = session.hierarchy_with(0);
    assert_eq!(tree.agent_id, 1);
    assert_eq!(tree.children.len(), 2);
    assert_eq!(tree.children[1].agent_id, 3);
    assert_eq!(session.orchestrator().unwrap().id(), 1);
}

#[test]
fn spawn_cap_round_trip() {
    let mut session = create_test_session();
    session.spawn_agent_as(1, spawner(Some(2)), None, &sub(9)).unwrap();
    assert!(session.spawn_agent_as(2, AgentConfig::default(), Some(1), &sub(9)).is_ok());
    assert!(session.spawn_agent_as(3, AgentConfig::default(), Some(1), &sub(9)).is_ok());
    assert!(matches!(
        session.spawn_agent_as(4, AgentConfig::default(), Some(1), &sub(9)),
        Err(GoblinError::SpawnDenied(_))
    ));
    assert!(session.terminate_agent(&2, "done".to_string(), &sub(9)).is_ok());
    assert!(session.spawn_agent_as(4, AgentConfig::default(), Some(1), &sub(9)).is_ok());
    assert_eq!(session.get_agent(&1).unwrap().children(), vec![3, 4]);
    assert_eq!(session.agent_count(), 3);
}

#[test]
fn terminate_removes_the_whole_subtree() {
    let mut session = create_test_session();
    session.spawn_agent_as(1, spawner(None), None, &sub(9)).unwrap();
    session.spawn_agent_as(2, spawner(None), Some(1), &sub(9)).unwrap();
    session.spawn_agent_as(3, AgentConfig::default(), Some(1), &sub(9)).unwrap();
    session.spawn_agent_as(4, spawner(None), Some(2), &sub(9)).unwrap();
    session.spawn_agent_as(5, AgentConfig::default(), Some(4), &sub(9)).unwrap();
    session.spawn_agent_as(6, AgentConfig::default(), Some(2), &sub(9)).unwrap();

    let events = session.terminate_agent(&2, "stop".to_string(), &sub(12)).unwrap();

    assert_eq!(session.agent_count(), 2);
    let mut ids = session.agent_ids();
    ids.sort();
    assert_eq!(ids, vec![1, 3]);
    for gone in [2u128, 4, 5, 6] {
        assert!(session.get_agent(&gone).is_none());
    }
    assert_eq!(session.get_agent(&1).unwrap().children(), vec![3]);
    let tree = session.hierarchy_with(0);
    assert_eq!(tree.children.len(), 1);
    assert_eq!(tree.children[0].agent_id, 3);

    assert_eq!(events.len(), 8);
    let order: Vec<AgentId> = events
        .iter()
        .filter_map(|e| match e {
            Event::AgentTerminated { agent_id, .. } => Some(*agent_id),
            _ => None,
        })
        .collect();
    assert_eq!(order, vec![5, 4, 6, 2]);
    assert!(matches!(&events[7], Event::AgentTerminated { sub_id, agent_id: 2, reason } if sub_id == "12" && reason == "stop"));
    assert!(matches!(&events[6], Event::AgentStatusChanged { sub_id, agent_id: 2, status: AgentStatus::Terminated } if sub_id == "12"));
    assert!(matches!(&events[1], Event::AgentTerminated { sub_id, agent_id: 5, reason } if sub_id == "12" && reason == "Parent terminated"));
}

#[test]
fn second_termination_is_agent_not_found() {
    let mut session = create_test_session();
    session.spawn_agent_as(1, spawner(None), None, &sub(9)).unwrap();
    session.spawn_agent_as(2, AgentConfig::default(), Some(1), &sub(9)).unwrap();
    assert!(session.terminate_agent(&2, String::new(), &sub(9)).is_ok());
    let count = session.agent_count();
    let r = session.terminate_agent(&2, String::new(), &sub(9));
    assert!(matches!(r, Err(GoblinError::AgentNotFound(2))));
    assert_eq!(session.agent_count(), count);
    assert!(session.get_agent(&1).unwrap().children().is_empty());
}

#[test]
fn terminating_the_root_clears_the_session() {
    let mut session = create_test_session();
    session.spawn_agent_as(1, spawner(None), None, &sub(9)).unwrap();
    session.spawn_agent_as(2, AgentConfig::default(), Some(1), &sub(9)).unwrap();
    let events = session.terminate_agent(&1, "bye".to_string(), &sub(9)).unwrap();
    assert_eq!(events.len(), 4);
    assert_eq!(session.agent_count(), 0);
    assert!(session.orchestrator().is_none());
    let tree = session.hierarchy_with(55);
    assert_eq!(tree.agent_id, 55);
    assert!(tree.children.is_empty());
}

#[test]
fn current_task_is_set_and_cleared() {
    let mut session = create_test_session();
    assert!(session.current_task().is_none());
    session.set_current_task(Some(3));
    assert_eq!(session.current_task(), Some(3));
    session.set_current_task(None);
    assert!(session.current_task().is_none());
    assert_eq!(session.id(), 100);
    assert_eq!(session.config().max_parallel_agents, 0);
}

#[test]
fn spawn_draws_an_unused_identity() {
    let mut session = Session::new(SessionConfig::default());
    let root = match session.spawn_agent(spawner(Some(2)), None, &sub(9)).unwrap() {
        Event::AgentSpawned { agent_id, parent_id: None, .. } => agent_id,
        _ => panic!("not a spawn event"),
    };
    let child = match session.spawn_agent(AgentConfig::default(), Some(root), &sub(9)).unwrap() {
        Event::AgentSpawned { agent_id, parent_id, .. } => {
            assert_eq!(parent_id, Some(root));
            agent_id
        },
        _ => panic!("not a spawn event"),
    };
    assert_ne!(root, child);
    assert_eq!(session.agent_count(), 2);
    assert_eq!(session.get_agent(&root).unwrap().children(), vec![child]);
    assert_eq!(session.hierarchy().agent_id, root);
    assert!(matches!(
        session.spawn_agent(AgentConfig::default(), Some(child), &sub(9)),
        Err(GoblinError::SpawnDenied(_))
    ));
    assert!(matches!(
        session.spawn_agent(AgentConfig::default(), Some(root ^ 1), &sub(9)),
        Err(GoblinError::AgentNotFound(_))
    ) || child == root ^ 1);
}

#[test]
fn sessions_get_distinct_identities() {
    let a = Session::new(SessionConfig::default());
    let b = Session::new(SessionConfig::default());
    assert_ne!(a.id(), b.id());
    assert!(a.hierarchy().children.is_empty());
}

#[test]
fn a_live_agent_changes_through_its_session() {
    let mut session = create_test_session();
    session.spawn_agent_as(1, spawner(None), None, &sub(9)).unwrap();
    session.spawn_agent_as(2, AgentConfig::default(), Some(1), &sub(9)).unwrap();

    let e = session.set_agent_status(&2, AgentStatus::Running, &sub(3)).unwrap();
    assert!(matches!(&e, Event::AgentStatusChanged { sub_id, agent_id: 2, status: AgentStatus::Running } if sub_id == "3"));
    assert_eq!(session.get_agent(&2).unwrap().status(), AgentStatus::Running);
    assert_eq!(session.hierarchy().children[0].status, AgentStatus::Running);

    let events = session.initialize_agent(&1, &sub(4)).unwrap();
    assert_eq!(events.len(), 2);
    assert_eq!(session.get_agent(&1).unwrap().status(), AgentStatus::Running);

    assert!(session.assign_task(&2, 77));
    assert_eq!(session.get_agent(&2).unwrap().current_task(), Some(77));

    assert!(session.add_usage(&2, 10, 5));
    assert!(session.add_usage(&2, 1, 1));
    let u = session.get_agent(&2).unwrap().usage();
    assert_eq!((u.input_tokens, u.output_tokens, u.total_tokens), (11, 6, 17));

    let ended = session.mark_terminated(&2, "stop".to_string(), &sub(5)).unwrap();
    assert_eq!(ended.len(), 2);
    assert!(matches!(&ended[1], Event::AgentTerminated { sub_id, agent_id: 2, reason } if sub_id == "5" && reason == "stop"));
    assert_eq!(session.get_agent(&2).unwrap().status(), AgentStatus::Terminated);
    let kept = session.set_agent_status(&2, AgentStatus::Running, &sub(6)).unwrap();
    assert!(matches!(&kept, Event::AgentStatusChanged { status: AgentStatus::Terminated, .. }));
    assert_eq!(session.get_agent(&2).unwrap().status(), AgentStatus::Terminated);
    assert_eq!(session.agent_count(), 2);
    assert_eq!(session.get_agent(&1).unwrap().children(), vec![2]);
}

#[test]
fn changes_to_an_unknown_agent_do_nothing() {
    let mut session = create_test_session();
    session.spawn_agent_as(1, spawner(None), None, &sub(9)).unwrap();
    assert!(session.set_agent_status(&5, AgentStatus::Running, &sub(3)).is_none());
    assert!(session.initialize_agent(&5, &sub(3)).is_none());
    assert!(!session.assign_task(&5, 7));
    assert!(!session.add_usage(&5, 1, 1));
    assert!(session.mark_terminated(&5, String::new(), &sub(3)).is_none());
    assert_eq!(session.agent_count(), 1);
    assert_eq!(session.get_agent(&1).unwrap().status(), AgentStatus::Spawning);
}
