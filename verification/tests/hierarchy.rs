use cabal::agent::Agent;
use cabal::hierarchy::AgentHierarchy;
use cabal::protocol::{AgentConfig, AgentId, AgentRole, AgentStatus};
use std::collections::HashMap;

#[test]
fn test_hierarchy_creation() {
    let hierarchy = AgentHierarchy::new();
    assert!(hierarchy.is_empty());
    assert!(hierarchy.root().is_none());
}

#[test]
fn test_hierarchy_default() {
    let hierarchy: AgentHierarchy = Default::default();
    assert!(hierarchy.is_empty());
    assert_eq!(hierarchy.len(), 0);
}

#[test]
fn test_add_root_agent() {
    let mut hierarchy = AgentHierarchy::new();
    let root_id: AgentId = 1;

    hierarchy.add_agent(root_id, AgentRole::Orchestrator, None);

    assert_eq!(hierarchy.len(), 1);
    assert_eq!(hierarchy.root(), Some(root_id));
    assert!(!hierarchy.is_empty());
}

#[test]
fn test_add_agents_with_children() {
    let mut hierarchy = AgentHierarchy::new();

    let root_id: AgentId = 1;
    let child1_id: AgentId = 2;
    let child2_id: AgentId = 3;

    hierarchy.add_agent(root_id, AgentRole::Orchestrator, None);
    hierarchy.add_agent(child1_id, AgentRole::Worker, Some(root_id));
    hierarchy.add_agent(child2_id, AgentRole::Worker, Some(root_id));

    assert_eq!(hierarchy.len(), 3);
    assert_eq!(hierarchy.root(), Some(root_id));
    assert_eq!(hierarchy.children(&root_id).len(), 2);
}

#[test]
fn test_add_grandchildren() {
    let mut hierarchy = AgentHierarchy::new();

    let root_id: AgentId = 1;
    let child_id: AgentId = 2;
    let grandchild_id: AgentId = 3;

    hierarchy.add_agent(root_id, AgentRole::Orchestrator, None);
    hierarchy.add_agent(
        child_id,
        AgentRole::DomainLead { domain: "frontend".into() },
        Some(root_id),
    );
    hierarchy.add_agent(grandchild_id, AgentRole::Worker, Some(child_id));

    assert_eq!(hierarchy.len(), 3);
    assert_eq!(hierarchy.children(&root_id).len(), 1);
    assert_eq!(hierarchy.children(&child_id).len(), 1);
    assert_eq!(hierarchy.children(&grandchild_id).len(), 0);
}

#[test]
fn test_remove_agent() {
    let mut hierarchy = AgentHierarchy::new();

    let root_id: AgentId = 1;
    let child_id: AgentId = 2;

    hierarchy.add_agent(root_id, AgentRole::Orchestrator, None);
    hierarchy.add_agent(child_id, AgentRole::Worker, Some(root_id));

    assert!(hierarchy.remove_agent(&child_id));
    assert_eq!(hierarchy.len(), 1);
    assert!(hierarchy.children(&root_id).is_empty());
}

#[test]
fn test_remove_root_agent() {
    let mut hierarchy = AgentHierarchy::new();
    let root_id: AgentId = 1;

    hierarchy.add_agent(root_id, AgentRole::Orchestrator, None);

    assert!(hierarchy.remove_agent(&root_id));
    assert!(hierarchy.root().is_none());
    assert!(hierarchy.is_empty());
}

#[test]
fn test_remove_nonexistent_agent() {
    let mut hierarchy = AgentHierarchy::new();
    let fake_id: AgentId = 99;

    assert!(!hierarchy.remove_agent(&fake_id));
}

#[test]
fn test_remove_updates_parent_children() {
    let mut hierarchy = AgentHierarchy::new();

    let root_id: AgentId = 1;
    let child1_id: AgentId = 2;
    let child2_id: AgentId = 3;

    hierarchy.add_agent(root_id, AgentRole::Orchestrator, None);
    hierarchy.add_agent(child1_id, AgentRole::Worker, Some(root_id));
    hierarchy.add_agent(child2_id, AgentRole::Worker, Some(root_id));

    hierarchy.remove_agent(&child1_id);

    let children = hierarchy.children(&root_id);
    assert_eq!(children.len(), 1);
    assert!(children.contains(&child2_id));
    assert!(!children.contains(&child1_id));
}

#[test]
fn test_depth_root() {
    let mut hierarchy = AgentHierarchy::new();
    let root_id: AgentId = 1;

    hierarchy.add_agent(root_id, AgentRole::Orchestrator, None);

    assert_eq!(hierarchy.depth(&root_id), 0);
}

#[test]
fn test_depth_children() {
    let mut hierarchy = AgentHierarchy::new();

    let root_id: AgentId = 1;
    let child_id: AgentId = 2;

    hierarchy.add_agent(root_id, AgentRole::Orchestrator, None);
    hierarchy.add_agent(child_id, AgentRole::Worker, Some(root_id));

    assert_eq!(hierarchy.depth(&root_id), 0);
    assert_eq!(hierarchy.depth(&child_id), 1);
}

#[test]
fn test_depth_grandchildren() {
    let mut hierarchy = AgentHierarchy::new();

    let root_id: AgentId = 1;
    let child_id: AgentId = 2;
    let grandchild_id: AgentId = 3;

    hierarchy.add_agent(root_id, AgentRole::Orchestrator, None);
    hierarchy.add_agent(child_id, AgentRole::DomainLead { domain: "test".into() }, Some(root_id));
    hierarchy.add_agent(grandchild_id, AgentRole::Worker, Some(child_id));

    assert_eq!(hierarchy.depth(&root_id), 0);
    assert_eq!(hierarchy.depth(&child_id), 1);
    assert_eq!(hierarchy.depth(&grandchild_id), 2);
}

#[test]
fn test_depth_nonexistent() {
    let hierarchy = AgentHierarchy::new();
    let fake_id: AgentId = 99;

    assert_eq!(hierarchy.depth(&fake_id), 0);
}

#[test]
fn test_agents_at_depth_0() {
    let mut hierarchy = AgentHierarchy::new();

    let root_id: AgentId = 1;
    let child_id: AgentId = 2;

    hierarchy.add_agent(root_id, AgentRole::Orchestrator, None);
    hierarchy.add_agent(child_id, AgentRole::Worker, Some(root_id));

    let agents = hierarchy.agents_at_depth(0);
    assert_eq!(agents.len(), 1);
    assert!(agents.contains(&root_id));
}

#[test]
fn test_agents_at_depth_1() {
    let mut hierarchy = AgentHierarchy::new();

    let root_id: AgentId = 1;
    let child1_id: AgentId = 2;
    let child2_id: AgentId = 3;

    hierarchy.add_agent(root_id, AgentRole::Orchestrator, None);
    hierarchy.add_agent(child1_id, AgentRole::Worker, Some(root_id));
    hierarchy.add_agent(child2_id, AgentRole::Worker, Some(root_id));

    let agents = hierarchy.agents_at_depth(1);
    assert_eq!(agents.len(), 2);
    assert!(agents.contains(&child1_id));
    assert!(agents.contains(&child2_id));
}

#[test]
fn test_agents_at_depth_empty() {
    let mut hierarchy = AgentHierarchy::new();
    let root_id: AgentId = 1;

    hierarchy.add_agent(root_id, AgentRole::Orchestrator, None);

    let agents = hierarchy.agents_at_depth(5);
    assert!(agents.is_empty());
}

#[test]
fn test_parent_root() {
    let mut hierarchy = AgentHierarchy::new();
    let root_id: AgentId = 1;

    hierarchy.add_agent(root_id, AgentRole::Orchestrator, None);

    assert!(hierarchy.parent(&root_id).is_none());
}

#[test]
fn test_parent_child() {
    let mut hierarchy = AgentHierarchy::new();

    let root_id: AgentId = 1;
    let child_id: AgentId = 2;

    hierarchy.add_agent(root_id, AgentRole::Orchestrator, None);
    hierarchy.add_agent(child_id, AgentRole::Worker, Some(root_id));

    assert_eq!(hierarchy.parent(&child_id), Some(root_id));
}

#[test]
fn test_parent_nonexistent() {
    let hierarchy = AgentHierarchy::new();
    let fake_id: AgentId = 99;

    assert!(hierarchy.parent(&fake_id).is_none());
}

#[test]
fn test_children_empty() {
    let mut hierarchy = AgentHierarchy::new();
    let root_id: AgentId = 1;

    hierarchy.add_agent(root_id, AgentRole::Orchestrator, None);

    assert!(hierarchy.children(&root_id).is_empty());
}

#[test]
fn test_children_multiple() {
    let mut hierarchy = AgentHierarchy::new();

    let root_id: AgentId = 1;
    let child1_id: AgentId = 2;
    let child2_id: AgentId = 3;
    let child3_id: AgentId = 4;

    hierarchy.add_agent(root_id, AgentRole::Orchestrator, None);
    hierarchy.add_agent(child1_id, AgentRole::Worker, Some(root_id));
    hierarchy.add_agent(child2_id, AgentRole::Worker, Some(root_id));
    hierarchy.add_agent(child3_id, AgentRole::Worker, Some(root_id));

    let children = hierarchy.children(&root_id);
    assert_eq!(children.len(), 3);
}

#[test]
fn test_children_nonexistent() {
    let hierarchy = AgentHierarchy::new();
    let fake_id: AgentId = 99;

    assert!(hierarchy.children(&fake_id).is_empty());
}

#[test]
fn test_complex_hierarchy() {
    let mut hierarchy = AgentHierarchy::new();

    let root: AgentId = 1;
    let lead1: AgentId = 2;
    let lead2: AgentId = 3;
    let worker1: AgentId = 4;
    let worker2: AgentId = 5;
    let worker3: AgentId = 6;

    hierarchy.add_agent(root, AgentRole::Orchestrator, None);
    hierarchy.add_agent(lead1, AgentRole::DomainLead { domain: "frontend".into() }, Some(root));
    hierarchy.add_agent(lead2, AgentRole::DomainLead { domain: "backend".into() }, Some(root));
    hierarchy.add_agent(worker1, AgentRole::Worker, Some(lead1));
    hierarchy.add_agent(worker2, AgentRole::Worker, Some(lead1));
    hierarchy.add_agent(worker3, AgentRole::Worker, Some(lead2));

    assert_eq!(hierarchy.len(), 6);
    assert_eq!(hierarchy.agents_at_depth(0).len(), 1);
    assert_eq!(hierarchy.agents_at_depth(1).len(), 2);
    assert_eq!(hierarchy.agents_at_depth(2).len(), 3);
}

#[test]
fn test_to_tree_empty() {
    let hierarchy = AgentHierarchy::new();
    let agents: HashMap<AgentId, Agent> = HashMap::new();

    let tree = hierarchy.to_tree(&agents);

    assert!(tree.children.is_empty());
}

#[test]
fn test_to_tree_with_agents() {
    let mut hierarchy = AgentHierarchy::new();
    let agents: HashMap<AgentId, Agent> = HashMap::new();

    let root_id: AgentId = 1;
    let child_id: AgentId = 2;

    hierarchy.add_agent(root_id, AgentRole::Orchestrator, None);
    hierarchy.add_agent(child_id, AgentRole::Worker, Some(root_id));

    let root_config = AgentConfig { role: AgentRole::Orchestrator, ..Default::default() };
    let _root_agent = Agent::new(root_config, None);

    let tree = hierarchy.to_tree(&agents);
    assert!(tree.children.is_empty() || !tree.children.is_empty());
}

#[test]
fn to_tree_placeholder_is_a_terminated_worker() {
    let hierarchy = AgentHierarchy::new();
    let agents: HashMap<AgentId, Agent> = HashMap::new();
    let tree = hierarchy.to_tree_with(&agents, 77);
    assert_eq!(tree.agent_id, 77);
    assert!(matches!(tree.role, AgentRole::Worker));
    assert_eq!(tree.status, AgentStatus::Terminated);
    assert!(tree.task_summary.is_none());
}

#[test]
fn to_tree_projects_roles_status_and_order() {
    let mut hierarchy = AgentHierarchy::new();
    hierarchy.add_agent(1, AgentRole::Orchestrator, None);
    hierarchy.add_agent(2, AgentRole::DomainLead { domain: "ui".into() }, Some(1));
    hierarchy.add_agent(3, AgentRole::Worker, Some(1));
    hierarchy.add_agent(4, AgentRole::Worker, Some(2));

    let mut agents: HashMap<AgentId, Agent> = HashMap::new();
    let mut root = Agent::with_id(1, AgentConfig { role: AgentRole::Orchestrator, ..Default::default() }, None);
    let _ = root.set_status(AgentStatus::Running, &"5".to_string());
    agents.insert(1, root);
    agents.insert(2, Agent::with_id(2, AgentConfig::default(), Some(1)));

    let tree = hierarchy.to_tree_with(&agents, 77);
    assert_eq!(tree.agent_id, 1);
    assert!(matches!(tree.role, AgentRole::Orchestrator));
    assert_eq!(tree.status, AgentStatus::Running);
    assert_eq!(tree.children.len(), 2);
    assert_eq!(tree.children[0].agent_id, 2);
    assert!(matches!(&tree.children[0].role, AgentRole::DomainLead { domain } if domain == "ui"));
    assert_eq!(tree.children[0].status, AgentStatus::Spawning);
    assert_eq!(tree.children[1].agent_id, 3);
    assert_eq!(tree.children[1].status, AgentStatus::Terminated);
    assert_eq!(tree.children[0].children.len(), 1);
    assert_eq!(tree.children[0].children[0].agent_id, 4);
    assert!(tree.children[1].children.is_empty());
}

#[test]
fn second_parentless_insert_takes_over_the_root() {
    let mut hierarchy = AgentHierarchy::new();
    hierarchy.add_agent(1, AgentRole::Orchestrator, None);
    hierarchy.add_agent(2, AgentRole::Orchestrator, None);
    assert_eq!(hierarchy.root(), Some(2));
    assert_eq!(hierarchy.len(), 2);
    assert!(hierarchy.parent(&1).is_none());
}

#[test]
fn dangling_parent_insert_creates_the_node() {
    let mut hierarchy = AgentHierarchy::new();
    hierarchy.add_agent(2, AgentRole::Worker, Some(1));
    assert_eq!(hierarchy.len(), 1);
    assert_eq!(hierarchy.parent(&2), Some(1));
    assert!(hierarchy.children(&1).is_empty());
    assert_eq!(hierarchy.depth(&2), 1);
    assert!(hierarchy.root().is_none());
}

#[test]
fn removing_a_node_orphans_its_children() {
    let mut hierarchy = AgentHierarchy::new();
    hierarchy.add_agent(1, AgentRole::Orchestrator, None);
    hierarchy.add_agent(2, AgentRole::Worker, Some(1));
    hierarchy.add_agent(3, AgentRole::Worker, Some(2));
    assert!(hierarchy.remove_agent(&2));
    assert_eq!(hierarchy.len(), 2);
    assert_eq!(hierarchy.parent(&3), Some(2));
    assert_eq!(hierarchy.depth(&3), 1);
    assert!(hierarchy.children(&1).is_empty());
    assert_eq!(hierarchy.root(), Some(1));
}

#[test]
fn children_and_parent_agree() {
    let mut hierarchy = AgentHierarchy::new();
    hierarchy.add_agent(1, AgentRole::Orchestrator, None);
    hierarchy.add_agent(2, AgentRole::Worker, Some(1));
    hierarchy.add_agent(3, AgentRole::Worker, Some(1));
    hierarchy.add_agent(4, AgentRole::Worker, Some(3));
    for p in 0u128..6 {
        for c in 0u128..6 {
            assert_eq!(hierarchy.children(&p).contains(&c), hierarchy.parent(&c) == Some(p));
        }
    }
    assert_eq!(hierarchy.children(&1), vec![2, 3]);
    for c in 2u128..5 {
        let p = hierarchy.parent(&c).unwrap();
        assert_eq!(hierarchy.depth(&c), hierarchy.depth(&p) + 1);
    }
}

#[test]
fn to_tree_draws_a_placeholder_for_an_empty_hierarchy() {
    let hierarchy = AgentHierarchy::new();
    let agents: HashMap<AgentId, Agent> = HashMap::new();
    let a = hierarchy.to_tree(&agents);
    let b = hierarchy.to_tree(&agents);
    assert_ne!(a.agent_id, b.agent_id);
    assert!(matches!(a.role, AgentRole::Worker));
    assert_eq!(a.status, AgentStatus::Terminated);
    assert!(a.task_summary.is_none());
}

#[test]
fn to_tree_of_a_rooted_hierarchy_starts_at_the_root() {
    let mut hierarchy = AgentHierarchy::new();
    hierarchy.add_agent(1, AgentRole::Orchestrator, None);
    hierarchy.add_agent(2, AgentRole::Scout, Some(1));
    let agents: HashMap<AgentId, Agent> = HashMap::new();
    let tree = hierarchy.to_tree(&agents);
    assert_eq!(tree.agent_id, 1);
    assert_eq!(tree.children.len(), 1);
    assert!(matches!(tree.children[0].role, AgentRole::Scout));
}
