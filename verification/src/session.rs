//! The live container of one orchestration run: the agent table, the
//! hierarchy that mirrors it, and the task in progress.

use vstd::prelude::*;
use std::collections::HashMap;
use crate::agent::{
    lemma_remove_value_without, next_status, reports_termination, status_event,
    termination_events, Agent, AgentView,
};
use crate::error::GoblinError;
use vstd::std_specs::hash::spec_keys_iter;
use vstd::std_specs::iter::IteratorSpec;
use crate::hierarchy::{
    is_placeholder, is_tree_of, shown_status, without, AgentHierarchy, HierarchyView, NodeView,
};
use crate::protocol::{
    fresh_identity, AgentConfig, AgentId, AgentStatus, AgentTree, Event, SessionConfig, SessionId, SubmissionId,
    TaskId, TokenUsage,
};

verus! {

broadcast use vstd::std_specs::hash::group_hash_axioms;

/// Mathematical model of a session.
pub ghost struct SessionView {
    pub id: SessionId,
    pub config: SessionConfig,
    pub agents: Map<AgentId, AgentView>,
    pub hierarchy: HierarchyView,
    pub current_task: Option<TaskId>,
}

/// The agent that a spawn creates.
pub open spec fn spawned_agent(id: AgentId, config: AgentConfig, parent: Option<AgentId>) -> AgentView {
    AgentView {
        id,
        role: config.role,
        status: AgentStatus::Spawning,
        config,
        parent_id: parent,
        children: Seq::empty(),
        current_task: None,
        usage: TokenUsage { input_tokens: 0, output_tokens: 0, total_tokens: 0 },
    }
}

/// The event that reports a spawn.
pub open spec fn spawn_event(
    sub_id: SubmissionId,
    id: AgentId,
    config: AgentConfig,
    parent: Option<AgentId>,
) -> Event {
    Event::AgentSpawned { sub_id, agent_id: id, parent_id: parent, role: config.role, config }
}

/// The reason given to the agents that go with their parent.
pub open spec fn cascade_reason() -> Seq<char> {
    "Parent terminated"@
}

/// Whether `events` holds, from `start` on, one pair of events for each
/// entry of `order`, in that order, and each pair reports the entry's
/// termination for the cascade reason.
pub open spec fn reported(
    events: Seq<Event>,
    start: int,
    order: Seq<AgentId>,
    sub_id: SubmissionId,
) -> bool {
    &&& events.len() >= start + 2 * order.len()
    &&& forall|j: int|
        0 <= j < order.len() ==> reports_termination(
            events[start + 2 * j],
            events[start + 2 * j + 1],
            sub_id,
            #[trigger] order[j],
            cascade_reason(),
        )
}

/// Whether `order` lists, each once, the agents that are in `before`
/// and not in `after`.
pub open spec fn lists_gone(
    order: Seq<AgentId>,
    before: Map<AgentId, AgentView>,
    after: Map<AgentId, AgentView>,
) -> bool {
    &&& order.no_duplicates()
    &&& forall|a: AgentId| #[trigger]
        order.contains(a) <==> before.contains_key(a) && !after.contains_key(a)
}

/// Whether each of the first `upto` entries of `order` stands before
/// the entry that is its parent, if its parent is an entry.
pub open spec fn children_first(
    order: Seq<AgentId>,
    before: Map<AgentId, AgentView>,
    upto: int,
) -> bool {
    forall|i: int, k: int|
        #![trigger order[i], order[k]]
        0 <= i < upto && 0 <= k < order.len() && before.contains_key(order[i])
            && before[order[i]].parent_id == Some(order[k]) ==> i < k
}

/// Whether `events` reports the termination of `agent_id` and of all
/// that went with it along `order`: every agent that left once,
/// children before their parents, those that went with a parent for the
/// cascade reason, `agent_id` itself last.
pub open spec fn cascade_reported(
    order: Seq<AgentId>,
    events: Seq<Event>,
    start: int,
    before: Map<AgentId, AgentView>,
    after: Map<AgentId, AgentView>,
    agent_id: AgentId,
    sub_id: SubmissionId,
) -> bool {
    &&& lists_gone(order, before, after)
    &&& order.len() >= 1
    &&& order.last() == agent_id
    &&& events.len() == start + 2 * order.len()
    &&& reported(events, start, order.drop_last(), sub_id)
    &&& children_first(order, before, order.len() - 1)
}

/// What the hierarchy records of an agent.
pub open spec fn node_of(a: AgentView) -> NodeView {
    NodeView { role: a.role, parent: a.parent_id, children: a.children }
}

impl SessionView {
    /// Table and hierarchy hold the same identities, every agent stands
    /// under its own identity, and the hierarchy records of every agent
    /// the role, parent and children that the agent itself holds.
    pub open spec fn mirrors(self) -> bool {
        &&& self.hierarchy.nodes.dom() =~= self.agents.dom()
        &&& forall|x: AgentId| #[trigger]
            self.agents.contains_key(x) ==> self.agents[x].id == x && self.hierarchy.nodes[x]
                == node_of(self.agents[x])
    }

    /// What holds between any two steps of a spawn or a termination.
    pub open spec fn consistent(self) -> bool {
        &&& self.agents.dom().finite()
        &&& self.mirrors()
        &&& self.hierarchy.children_linked()
        &&& self.hierarchy.parents_linked()
        &&& self.hierarchy.acyclic()
        &&& self.hierarchy.root_known()
    }

    /// What holds of a session whenever no operation is under way: table
    /// and hierarchy agree, parent and children links agree, every parent
    /// is in the table, and the parent links form no cycle.
    pub open spec fn wf(self) -> bool {
        self.consistent() && self.hierarchy.no_dangling()
    }

    /// The session after a successful spawn.
    pub open spec fn spawn(self, id: AgentId, config: AgentConfig, parent: Option<AgentId>) -> SessionView {
        let linked = match parent {
            Some(p) => if self.agents.contains_key(p) {
                self.agents.insert(
                    p,
                    AgentView { children: self.agents[p].children.push(id), ..self.agents[p] },
                )
            } else {
                self.agents
            },
            None => self.agents,
        };
        SessionView {
            agents: linked.insert(id, spawned_agent(id, config, parent)),
            hierarchy: self.hierarchy.add(id, config.role, parent),
            ..self
        }
    }

    /// The session after `id` alone has left table and hierarchy and has
    /// been taken out of its parent's children.
    pub open spec fn detach(self, id: AgentId) -> SessionView {
        if !self.agents.contains_key(id) {
            self
        } else {
            let rest = self.agents.remove(id);
            let unlinked = match self.agents[id].parent_id {
                Some(p) => if rest.contains_key(p) {
                    rest.insert(
                        p,
                        AgentView { children: rest[p].children.remove_value(id), ..rest[p] },
                    )
                } else {
                    rest
                },
                None => rest,
            };
            SessionView { agents: unlinked, hierarchy: self.hierarchy.remove(id), ..self }
        }
    }

    /// `after` is `self` with `id` and everything below it gone, and
    /// nothing else touched but the children list of the parent of `id`.
    pub open spec fn subtree_gone(self, after: SessionView, id: AgentId) -> bool {
        &&& after.id == self.id
        &&& after.config == self.config
        &&& after.current_task == self.current_task
        &&& !after.agents.contains_key(id)
        &&& after.agents.dom().subset_of(self.agents.dom())
        &&& forall|x: AgentId| #[trigger]
            after.agents.contains_key(x) ==> after.agents[x] == self.detach(id).agents[x]
        &&& forall|x: AgentId, i: int|
            self.agents.contains_key(x) && !after.agents.contains_key(x) && 0 <= i
                < self.agents[x].children.len() ==> !after.agents.contains_key(
                #[trigger] self.agents[x].children[i],
            )
        &&& forall|x: AgentId| #[trigger]
            self.agents.contains_key(x) && !after.agents.contains_key(x) && x != id
                ==> match self.agents[x].parent_id {
                Some(p) => self.agents.contains_key(p) && !after.agents.contains_key(p),
                None => false,
            }
        &&& after.hierarchy.root == match self.hierarchy.root {
            Some(r) => if after.agents.contains_key(r) {
                Some(r)
            } else {
                None
            },
            None => None,
        }
    }
}

impl SessionView {
    /// Taking one agent out keeps a consistent session consistent.
    pub proof fn lemma_detach_consistent(self, id: AgentId)
        requires
            self.consistent(),
            self.agents.contains_key(id),
        ensures
            self.detach(id).consistent(),
            self.detach(id).agents.dom().len() == self.agents.dom().len() - 1,
            !self.detach(id).agents.contains_key(id),
            self.hierarchy.single_rooted() ==> self.detach(id).hierarchy.single_rooted(),
    {
        let d = self.detach(id);
        self.hierarchy.lemma_remove_preserves(id);
        assert(d.agents.dom() =~= self.agents.dom().remove(id));
        assert(d.hierarchy.nodes.dom() =~= d.agents.dom());
        assert forall|x: AgentId| #[trigger] d.agents.contains_key(x) implies d.agents[x].id == x
            && d.hierarchy.nodes[x] == node_of(d.agents[x]) by {
            assert(self.agents.contains_key(x));
            assert(self.hierarchy.nodes.contains_key(x));
            if self.agents[id].parent_id == Some(x) {
                lemma_remove_value_without(self.agents[x].children, id);
            }
        }
    }

    /// In a consistent session every entry of an agent's children list
    /// is, if it is in the table at all, an agent that names it as parent.
    pub proof fn lemma_child_of(self, id: AgentId, i: int)
        requires
            self.consistent(),
            self.agents.contains_key(id),
            0 <= i < self.agents[id].children.len(),
        ensures
            self.agents.contains_key(self.agents[id].children[i]),
            self.agents[self.agents[id].children[i]].parent_id == Some(id),
            self.agents[id].children[i] != id ==> self.detach(id).agents.contains_key(
                self.agents[id].children[i],
            ) && self.detach(id).agents[self.agents[id].children[i]].parent_id == Some(id),
    {
        let c = self.hierarchy.nodes[id].children[i];
        assert(self.hierarchy.nodes.contains_key(c));
        assert(self.agents.contains_key(c));
    }

    /// Puts together what one termination leaves behind: `id` detached,
    /// then every child's subtree gone, is the subtree of `id` gone.
    pub proof fn lemma_subtree_gone(self, after: SessionView, id: AgentId)
        requires
            self.consistent(),
            self.agents.contains_key(id),
            after.id == self.id,
            after.config == self.config,
            after.current_task == self.current_task,
            after.agents.dom().subset_of(self.detach(id).agents.dom()),
            forall|x: AgentId| #[trigger]
                after.agents.contains_key(x) ==> after.agents[x] == self.detach(id).agents[x],
            forall|x: AgentId, j: int|
                self.detach(id).agents.contains_key(x) && !after.agents.contains_key(x) && 0 <= j
                    < self.detach(id).agents[x].children.len() ==> !after.agents.contains_key(
                    #[trigger] self.detach(id).agents[x].children[j],
                ),
            forall|x: AgentId| #[trigger]
                self.detach(id).agents.contains_key(x) && !after.agents.contains_key(x)
                    ==> match self.detach(id).agents[x].parent_id {
                    Some(p) => p == id || (self.detach(id).agents.contains_key(p)
                        && !after.agents.contains_key(p)),
                    None => false,
                },
            forall|j: int|
                0 <= j < self.agents[id].children.len() ==> !after.agents.contains_key(
                    #[trigger] self.agents[id].children[j],
                ),
            after.hierarchy.root == match self.detach(id).hierarchy.root {
                Some(r) => if after.agents.contains_key(r) {
                    Some(r)
                } else {
                    None
                },
                None => None,
            },
        ensures
            self.subtree_gone(after, id),
    {
        let d = self.detach(id);
        self.lemma_detach_consistent(id);
        assert forall|x: AgentId, i: int|
            self.agents.contains_key(x) && !after.agents.contains_key(x) && 0 <= i
                < self.agents[x].children.len() implies !after.agents.contains_key(
            #[trigger] self.agents[x].children[i],
        ) by {
            let c = self.agents[x].children[i];
            if x != id && c != id {
                assert(d.agents.contains_key(x));
                if self.agents[id].parent_id == Some(x) {
                    assert(self.agents[x].children.contains(c));
                    lemma_remove_value_without(self.agents[x].children, id);
                    crate::hierarchy::lemma_without_contains(self.agents[x].children, id, c);
                    let j = choose|j: int|
                        0 <= j < d.agents[x].children.len() && d.agents[x].children[j] == c;
                    assert(!after.agents.contains_key(d.agents[x].children[j]));
                } else {
                    assert(d.agents[x] == self.agents[x]);
                    assert(!after.agents.contains_key(d.agents[x].children[i]));
                }
            }
        }
        assert forall|x: AgentId| #[trigger]
            self.agents.contains_key(x) && !after.agents.contains_key(x) && x != id
            implies match self.agents[x].parent_id {
            Some(p) => self.agents.contains_key(p) && !after.agents.contains_key(p),
            None => false,
        } by {
            assert(d.agents.contains_key(x));
            assert(d.agents[x].parent_id == self.agents[x].parent_id);
        }
    }
}

impl SessionView {
    /// Where a whole subtree has left a well-formed session, no agent
    /// that stays names a parent that left.
    pub proof fn lemma_no_dangling_after(self, after: SessionView, id: AgentId)
        requires
            self.wf(),
            self.agents.contains_key(id),
            self.subtree_gone(after, id),
            after.mirrors(),
        ensures
            after.hierarchy.no_dangling(),
    {
        assert forall|c: AgentId| #[trigger] after.hierarchy.nodes.contains_key(c)
            implies match after.hierarchy.nodes[c].parent {
            Some(p) => after.hierarchy.nodes.contains_key(p),
            None => true,
        } by {
            assert(after.agents.contains_key(c));
            assert(self.agents.contains_key(c));
            assert(self.hierarchy.nodes.contains_key(c));
            assert(after.agents[c] == self.detach(id).agents[c]);
            match self.agents[c].parent_id {
                Some(p) => {
                    assert(self.hierarchy.nodes.contains_key(p));
                    assert(self.agents.contains_key(p));
                    if !after.agents.contains_key(p) {
                        assert(self.hierarchy.nodes[p].children.contains(c));
                        let j = choose|j: int|
                            0 <= j < self.agents[p].children.len() && self.agents[p].children[j]
                                == c;
                        assert(!after.agents.contains_key(self.agents[p].children[j]));
                    }
                },
                None => {},
            }
        }
    }

    /// `x` reaches `id` by following at most `fuel` parent links through
    /// the table.
    pub open spec fn descends(self, x: AgentId, id: AgentId, fuel: nat) -> bool
        decreases fuel,
    {
        x == id || (fuel > 0 && self.agents.contains_key(x) && match self.agents[x].parent_id {
            Some(p) => self.descends(p, id, (fuel - 1) as nat),
            None => false,
        })
    }

    /// After a termination of `id`, neither `id` nor any agent below it
    /// is in the table or in the hierarchy; a second termination of `id`
    /// therefore finds nothing.
    pub proof fn lemma_descendants_gone(self, after: SessionView, id: AgentId, x: AgentId, fuel: nat)
        requires
            self.wf(),
            self.agents.contains_key(id),
            self.subtree_gone(after, id),
            after.mirrors(),
            self.descends(x, id, fuel),
        ensures
            !after.agents.contains_key(x),
            !after.hierarchy.contains(x),
        decreases fuel,
    {
        if x != id {
            let p = self.agents[x].parent_id.unwrap();
            self.lemma_descendants_gone(after, id, p, (fuel - 1) as nat);
            assert(self.hierarchy.nodes.contains_key(x));
            assert(self.hierarchy.nodes.contains_key(p));
            assert(self.agents.contains_key(p));
            assert(self.hierarchy.nodes[p].children.contains(x));
            let j = choose|j: int|
                0 <= j < self.agents[p].children.len() && self.agents[p].children[j] == x;
            assert(!after.agents.contains_key(self.agents[p].children[j]));
        }
    }

    /// After a termination of `id`, every agent that left the table
    /// stood below `id`.
    pub proof fn lemma_only_descendants_gone(self, after: SessionView, id: AgentId, x: AgentId)
        requires
            self.wf(),
            self.agents.contains_key(id),
            self.subtree_gone(after, id),
            self.agents.contains_key(x),
            !after.agents.contains_key(x),
        ensures
            exists|fuel: nat| self.descends(x, id, fuel),
    {
        let rank = choose|rank: spec_fn(AgentId) -> nat| self.hierarchy.ranked(rank);
        self.lemma_climb(after, id, x, rank);
    }

    /// The induction behind `lemma_only_descendants_gone`, along a rank
    /// that grows from parent to child.
    pub proof fn lemma_climb(
        self,
        after: SessionView,
        id: AgentId,
        x: AgentId,
        rank: spec_fn(AgentId) -> nat,
    )
        requires
            self.wf(),
            self.hierarchy.ranked(rank),
            self.agents.contains_key(id),
            self.subtree_gone(after, id),
            self.agents.contains_key(x),
            !after.agents.contains_key(x),
        ensures
            exists|fuel: nat| self.descends(x, id, fuel),
        decreases rank(x),
    {
        if x == id {
            assert(self.descends(x, id, 0));
        } else {
            let p = self.agents[x].parent_id.unwrap();
            assert(self.hierarchy.nodes.contains_key(x));
            assert(self.hierarchy.nodes.contains_key(p));
            self.lemma_climb(after, id, p, rank);
            let f = choose|fuel: nat| self.descends(p, id, fuel);
            assert(self.descends(x, id, f + 1));
        }
    }
}

impl SessionView {
    /// In a well-formed session an agent stands in the children of
    /// exactly the agent that it names as its parent, in the agents' own
    /// fields as in the hierarchy.
    pub proof fn lemma_children_iff_parent(self, parent: AgentId, child: AgentId)
        requires
            self.wf(),
        ensures
            (self.agents.contains_key(parent) && self.agents[parent].children.contains(child)) <==> (
            self.agents.contains_key(child) && self.agents[child].parent_id == Some(parent)),
            self.hierarchy.children(parent).contains(child) <==> self.hierarchy.parent(child)
                == Some(parent),
    {
        self.hierarchy.lemma_children_iff_parent(parent, child);
        if self.agents.contains_key(parent) {
            assert(self.hierarchy.nodes.contains_key(parent));
        }
        if self.agents.contains_key(child) {
            assert(self.hierarchy.nodes.contains_key(child));
        }
    }

    /// In a well-formed session every agent that has a parent is one
    /// level below it, and an agent without a parent is at depth 0.
    pub proof fn lemma_depths(self, child: AgentId)
        requires
            self.wf(),
            self.agents.contains_key(child),
        ensures
            match self.agents[child].parent_id {
                Some(p) => self.hierarchy.depth(child) == self.hierarchy.depth(p) + 1,
                None => self.hierarchy.depth(child) == 0,
            },
    {
        assert(self.hierarchy.nodes.contains_key(child));
        assert(self.hierarchy.nodes.dom() =~= self.agents.dom());
        match self.agents[child].parent_id {
            Some(p) => {
                self.hierarchy.lemma_depth_of_child(child, p);
            },
            None => {
                self.hierarchy.lemma_depth_of_root(child);
            },
        }
    }
}

impl SessionView {
    /// The session with the agent under `id` replaced by `a`.
    pub open spec fn with_agent(self, id: AgentId, a: AgentView) -> SessionView {
        SessionView { agents: self.agents.insert(id, a), ..self }
    }

    /// Replacing an agent by one with the same identity, role, parent
    /// and children keeps a session well-formed.
    pub proof fn lemma_same_links(self, id: AgentId, a: AgentView)
        requires
            self.wf(),
            self.agents.contains_key(id),
            a.id == self.agents[id].id,
            a.role == self.agents[id].role,
            a.parent_id == self.agents[id].parent_id,
            a.children == self.agents[id].children,
        ensures
            self.with_agent(id, a).wf(),
    {
        let t = self.with_agent(id, a);
        assert(t.agents.dom() =~= self.agents.dom());
        assert forall|x: AgentId| #[trigger] t.agents.contains_key(x) implies t.agents[x].id == x
            && t.hierarchy.nodes[x] == node_of(t.agents[x]) by {
            assert(self.agents.contains_key(x));
        }
    }

    /// A spawn that is allowed adds exactly one agent: every agent that
    /// was there stays, the new one is there, and a parent has it as its
    /// last child.
    pub proof fn lemma_spawn_grows(self, id: AgentId, config: AgentConfig, parent: Option<AgentId>)
        requires
            self.wf(),
            !self.agents.contains_key(id),
            parent matches Some(p) ==> self.agents.contains_key(p),
        ensures
            self.spawn(id, config, parent).agents.dom() == self.agents.dom().insert(id),
            self.spawn(id, config, parent).agents.dom().len() == self.agents.dom().len() + 1,
            self.spawn(id, config, parent).agents[id] == spawned_agent(id, config, parent),
            parent matches Some(p) ==> self.spawn(id, config, parent).agents[p].children
                == self.agents[p].children.push(id),
            forall|x: AgentId|
                self.agents.contains_key(x) && parent != Some(x) ==> #[trigger] self.spawn(
                    id,
                    config,
                    parent,
                ).agents[x] == self.agents[x],
            parent matches Some(p) ==> (self.spawn(id, config, parent).agents[p].can_spawn() <==> (
            self.agents[p].config.can_spawn && match self.agents[p].config.max_children {
                Some(max) => self.agents[p].children.len() + 1 < max,
                None => true,
            })),
    {
        assert(self.spawn(id, config, parent).agents.dom() =~= self.agents.dom().insert(id));
    }
}

/// A session: agent table, hierarchy and current task.
pub struct Session {
    id: SessionId,
    config: SessionConfig,
    agents: HashMap<AgentId, Agent>,
    hierarchy: AgentHierarchy,
    current_task: Option<TaskId>,
}

impl View for Session {
    type V = SessionView;

    closed spec fn view(&self) -> SessionView {
        SessionView {
            id: self.id,
            config: self.config,
            agents: Map::new(
                |k: AgentId| self.agents@.contains_key(k),
                |k: AgentId| self.agents@[k]@,
            ),
            hierarchy: self.hierarchy@,
            current_task: self.current_task,
        }
    }
}

impl Session {
    /// An empty session under a newly drawn identity.
    pub fn new(config: SessionConfig) -> (s: Self)
        ensures
            s@ == (SessionView {
                id: s@.id,
                config,
                agents: Map::empty(),
                hierarchy: HierarchyView::empty(),
                current_task: None,
            }),
            s@.wf(),
    {
        Session::with_id(fresh_identity(), config)
    }

    /// An empty session under the identity `id`.
    pub fn with_id(id: SessionId, config: SessionConfig) -> (s: Self)
        ensures
            s@ == (SessionView {
                id,
                config,
                agents: Map::empty(),
                hierarchy: HierarchyView::empty(),
                current_task: None,
            }),
            s@.wf(),
    {
        let s = Session {
            id,
            config,
            agents: HashMap::new(),
            hierarchy: AgentHierarchy::new(),
            current_task: None,
        };
        proof {
            assert(s@.agents =~= Map::<AgentId, AgentView>::empty());
            let rank = |x: AgentId| 0nat;
            assert(s@.hierarchy.ranked(rank));
        }
        s
    }

    /// The session's identity.
    pub fn id(&self) -> (r: SessionId)
        ensures
            r == self@.id,
    {
        self.id
    }

    /// What the session was configured with.
    pub fn config(&self) -> (r: &SessionConfig)
        ensures
            *r == self@.config,
    {
        &self.config
    }

    /// The agent with this identity, if it is in the table.
    pub fn get_agent(&self, id: &AgentId) -> (a: Option<&Agent>)
        ensures
            a is Some == self@.agents.contains_key(*id),
            a is Some ==> a.unwrap()@ == self@.agents[*id],
    {
        self.agents.get(id)
    }

    /// The identities in the table, each once, in no particular order.
    pub fn agent_ids(&self) -> (r: Vec<AgentId>)
        ensures
            r@.no_duplicates(),
            forall|id: AgentId| r@.contains(id) <==> self@.agents.contains_key(id),
    {
        let mut r: Vec<AgentId> = Vec::new();
        let ghost all = spec_keys_iter(&self.agents).remaining();
        for k in it: self.agents.keys()
            invariant
                it.seq() == all,
                all.no_duplicates(),
                all.unref().to_set() == self.agents@.dom(),
                r@.len() == it.index(),
                forall|i: int| 0 <= i < r@.len() ==> #[trigger] r@[i] == *all[i],
        {
            r.push(*k);
        }
        proof {
            assert forall|id: AgentId| r@.contains(id) <==> self@.agents.contains_key(id) by {
                if r@.contains(id) {
                    let i = choose|i: int| 0 <= i < r@.len() && r@[i] == id;
                    assert(all.unref()[i] == id);
                    assert(all.unref().to_set().contains(id));
                }
                if self@.agents.contains_key(id) {
                    assert(all.unref().to_set().contains(id));
                    let j = choose|j: int| 0 <= j < all.unref().len() && all.unref()[j] == id;
                    assert(r@[j] == id);
                }
            }
            assert forall|i: int, j: int| 0 <= i < j < r@.len() implies r@[i] != r@[j] by {
                assert(all[i] != all[j]);
            }
        }
        r
    }

    /// The tree of the session's agents with the status of each. A
    /// session without a root gives a single terminated worker under a
    /// newly drawn identity.
    pub fn hierarchy(&self) -> (t: AgentTree)
        ensures
            match self@.hierarchy.root {
                Some(r) => is_tree_of(
                    t,
                    self@.hierarchy,
                    self.table(),
                    r,
                    self@.hierarchy.nodes.dom().len(),
                ),
                None => is_placeholder(t, t.agent_id),
            },
            forall|id: AgentId|
                shown_status(self.table(), id) == if self@.agents.contains_key(id) {
                    self@.agents[id].status
                } else {
                    AgentStatus::Terminated
                },
    {
        self.hierarchy.to_tree(&self.agents)
    }

    /// The tree of the session's agents with the status of each. A
    /// session without a root gives a single terminated worker under the
    /// identity `placeholder`.
    pub fn hierarchy_with(&self, placeholder: AgentId) -> (t: AgentTree)
        ensures
            match self@.hierarchy.root {
                Some(r) => is_tree_of(
                    t,
                    self@.hierarchy,
                    self.table(),
                    r,
                    self@.hierarchy.nodes.dom().len(),
                ),
                None => is_placeholder(t, placeholder),
            },
            forall|id: AgentId|
                shown_status(self.table(), id) == if self@.agents.contains_key(id) {
                    self@.agents[id].status
                } else {
                    AgentStatus::Terminated
                },
    {
        self.hierarchy.to_tree_with(&self.agents, placeholder)
    }

    /// The agents by identity.
    pub closed spec fn table(&self) -> Map<AgentId, Agent> {
        self.agents@
    }

    /// Sets the status of the agent `id` and hands back the event that
    /// reports it; a terminated agent stays terminated. An identity that
    /// is not in the table gives `None` and changes nothing.
    pub fn set_agent_status(&mut self, id: &AgentId, status: AgentStatus, sub_id: &SubmissionId) -> (r:
        Option<Event>)
        requires
            old(self)@.wf(),
        ensures
            final(self)@.wf(),
            final(self)@.hierarchy == old(self)@.hierarchy,
            !old(self)@.agents.contains_key(*id) ==> r is None && final(self)@ == old(self)@,
            old(self)@.agents.contains_key(*id) ==> {
                let now = next_status(old(self)@.agents[*id].status, status);
                &&& r == Some(status_event(*sub_id, *id, now))
                &&& final(self)@ == old(self)@.with_agent(
                    *id,
                    AgentView { status: now, ..old(self)@.agents[*id] },
                )
            },
    {
        match self.agents.remove(id) {
            None => {
                proof {
                    assert(self@.agents =~= old(self)@.agents);
                }
                None
            },
            Some(agent) => {
                let mut agent = agent;
                let e = agent.set_status(status, sub_id);
                proof {
                    old(self)@.lemma_same_links(*id, agent@);
                }
                self.agents.insert(*id, agent);
                proof {
                    assert(self@.agents =~= old(self)@.agents.insert(*id, agent@));
                }
                Some(e)
            },
        }
    }

    /// Brings the agent `id` through `Initializing` to `Running` and
    /// hands back the two status events; a terminated agent stays
    /// terminated. An identity that is not in the table gives `None` and
    /// changes nothing.
    pub fn initialize_agent(&mut self, id: &AgentId, sub_id: &SubmissionId) -> (r: Option<
        Vec<Event>,
    >)
        requires
            old(self)@.wf(),
        ensures
            final(self)@.wf(),
            final(self)@.hierarchy == old(self)@.hierarchy,
            !old(self)@.agents.contains_key(*id) ==> r is None && final(self)@ == old(self)@,
            old(self)@.agents.contains_key(*id) ==> {
                let was = old(self)@.agents[*id].status;
                &&& r is Some
                &&& r.unwrap()@ == seq![
                    status_event(*sub_id, *id, next_status(was, AgentStatus::Initializing)),
                    status_event(*sub_id, *id, next_status(was, AgentStatus::Running)),
                ]
                &&& final(self)@ == old(self)@.with_agent(
                    *id,
                    AgentView {
                        status: next_status(was, AgentStatus::Running),
                        ..old(self)@.agents[*id]
                    },
                )
            },
    {
        match self.agents.remove(id) {
            None => {
                proof {
                    assert(self@.agents =~= old(self)@.agents);
                }
                None
            },
            Some(agent) => {
                let mut agent = agent;
                let events = match agent.initialize(sub_id) {
                    Ok(events) => events,
                    Err(_) => Vec::new(),
                };
                proof {
                    old(self)@.lemma_same_links(*id, agent@);
                }
                self.agents.insert(*id, agent);
                proof {
                    assert(self@.agents =~= old(self)@.agents.insert(*id, agent@));
                }
                Some(events)
            },
        }
    }

    /// Assigns a task to the agent `id`; says whether the agent is in
    /// the table, and changes nothing if it is not.
    pub fn assign_task(&mut self, id: &AgentId, task_id: TaskId) -> (found: bool)
        requires
            old(self)@.wf(),
        ensures
            final(self)@.wf(),
            final(self)@.hierarchy == old(self)@.hierarchy,
            found == old(self)@.agents.contains_key(*id),
            !found ==> final(self)@ == old(self)@,
            found ==> final(self)@ == old(self)@.with_agent(
                *id,
                AgentView { current_task: Some(task_id), ..old(self)@.agents[*id] },
            ),
    {
        match self.agents.remove(id) {
            None => {
                proof {
                    assert(self@.agents =~= old(self)@.agents);
                }
                false
            },
            Some(agent) => {
                let mut agent = agent;
                agent.assign_task(task_id);
                proof {
                    old(self)@.lemma_same_links(*id, agent@);
                }
                self.agents.insert(*id, agent);
                proof {
                    assert(self@.agents =~= old(self)@.agents.insert(*id, agent@));
                }
                true
            },
        }
    }

    /// Adds to the token counters of the agent `id`; says whether the
    /// agent is in the table, and changes nothing if it is not.
    pub fn add_usage(&mut self, id: &AgentId, input: u64, output: u64) -> (found: bool)
        requires
            old(self)@.wf(),
            old(self)@.agents.contains_key(*id) ==> old(self)@.agents[*id].usage.input_tokens + input
                + old(self)@.agents[*id].usage.output_tokens + output <= u64::MAX,
        ensures
            final(self)@.wf(),
            final(self)@.hierarchy == old(self)@.hierarchy,
            found == old(self)@.agents.contains_key(*id),
            !found ==> final(self)@ == old(self)@,
            found ==> {
                let was = old(self)@.agents[*id].usage;
                final(self)@ == old(self)@.with_agent(
                    *id,
                    AgentView {
                        usage: TokenUsage {
                            input_tokens: (was.input_tokens + input) as u64,
                            output_tokens: (was.output_tokens + output) as u64,
                            total_tokens: (was.input_tokens + input + was.output_tokens
                                + output) as u64,
                        },
                        ..old(self)@.agents[*id]
                    },
                )
            },
    {
        match self.agents.remove(id) {
            None => {
                proof {
                    assert(self@.agents =~= old(self)@.agents);
                }
                false
            },
            Some(agent) => {
                let mut agent = agent;
                agent.add_usage(input, output);
                proof {
                    old(self)@.lemma_same_links(*id, agent@);
                }
                self.agents.insert(*id, agent);
                proof {
                    assert(self@.agents =~= old(self)@.agents.insert(*id, agent@));
                }
                true
            },
        }
    }

    /// Marks the agent `id` terminated without taking it out of the
    /// session, and hands back the status event and the termination
    /// notice. An identity that is not in the table gives `None` and
    /// changes nothing.
    pub fn mark_terminated(&mut self, id: &AgentId, reason: String, sub_id: &SubmissionId) -> (r:
        Option<Vec<Event>>)
        requires
            old(self)@.wf(),
        ensures
            final(self)@.wf(),
            final(self)@.hierarchy == old(self)@.hierarchy,
            !old(self)@.agents.contains_key(*id) ==> r is None && final(self)@ == old(self)@,
            old(self)@.agents.contains_key(*id) ==> {
                &&& r is Some
                &&& r.unwrap()@ == termination_events(*sub_id, *id, reason)
                &&& final(self)@ == old(self)@.with_agent(
                    *id,
                    AgentView { status: AgentStatus::Terminated, ..old(self)@.agents[*id] },
                )
            },
    {
        match self.agents.remove(id) {
            None => {
                proof {
                    assert(self@.agents =~= old(self)@.agents);
                }
                None
            },
            Some(agent) => {
                let mut agent = agent;
                let events = agent.terminate(sub_id, reason);
                proof {
                    old(self)@.lemma_same_links(*id, agent@);
                }
                self.agents.insert(*id, agent);
                proof {
                    assert(self@.agents =~= old(self)@.agents.insert(*id, agent@));
                }
                Some(events)
            },
        }
    }

    /// Number of agents in the table.
    pub fn agent_count(&self) -> (n: usize)
        ensures
            n == self@.agents.dom().len(),
    {
        proof {
            assert(self@.agents.dom() =~= self.agents@.dom());
        }
        self.agents.len()
    }

    /// Sets or clears the current task.
    pub fn set_current_task(&mut self, task_id: Option<TaskId>)
        ensures
            final(self)@ == (SessionView { current_task: task_id, ..old(self)@ }),
    {
        self.current_task = task_id;
    }

    /// The current task, if any.
    pub fn current_task(&self) -> (t: Option<TaskId>)
        ensures
            t == self@.current_task,
    {
        self.current_task
    }

    /// The agent at the hierarchy's root, if there is one.
    pub fn orchestrator(&self) -> (a: Option<&Agent>)
        ensures
            a is Some == (self@.hierarchy.root is Some && self@.agents.contains_key(
                self@.hierarchy.root.unwrap(),
            )),
            a is Some ==> a.unwrap()@ == self@.agents[self@.hierarchy.root.unwrap()],
    {
        match self.hierarchy.root() {
            Some(id) => self.get_agent(&id),
            None => None,
        }
    }

    /// Why `parent_id` cannot take a child, if it cannot: `AgentNotFound`
    /// where it is not in the table, `SpawnDenied` where spawning is
    /// disabled for it or its cap on children is reached.
    pub fn parent_refusal(&self, parent_id: Option<AgentId>) -> (e: Option<GoblinError>)
        ensures
            match parent_id {
                Some(p) => if !self@.agents.contains_key(p) {
                    e == Some(GoblinError::AgentNotFound(p))
                } else if !self@.agents[p].can_spawn() {
                    e matches Some(GoblinError::SpawnDenied(text)) && text@
                        == "Parent agent cannot spawn more children"@
                } else {
                    e is None
                },
                None => e is None,
            },
    {
        if let Some(pid) = parent_id {
            match self.agents.get(&pid) {
                None => {
                    return Some(GoblinError::AgentNotFound(pid));
                },
                Some(parent) => {
                    if !parent.can_spawn() {
                        return Some(
                            GoblinError::SpawnDenied(
                                "Parent agent cannot spawn more children".to_string(),
                            ),
                        );
                    }
                },
            }
        }
        None
    }

    /// Creates an agent under a newly drawn identity below `parent_id`,
    /// or as the root where there is no parent. A parent that cannot take
    /// a child gives the error of `parent_refusal`; an identity drawn
    /// that the table already holds gives `SpawnDenied`; either leaves
    /// the session as it was. Otherwise the agent enters table, hierarchy
    /// and the parent's children, and the event that reports the spawn
    /// comes back.
    pub fn spawn_agent(
        &mut self,
        config: AgentConfig,
        parent_id: Option<AgentId>,
        sub_id: &SubmissionId,
    ) -> (r: Result<Event, GoblinError>)
        requires
            old(self)@.wf(),
        ensures
            final(self)@.wf(),
            old(self)@.hierarchy.single_rooted() && (parent_id is Some || old(self)@.hierarchy.root
                is None) ==> final(self)@.hierarchy.single_rooted(),
            r is Err ==> final(self)@ == old(self)@,
            match parent_id {
                Some(p) => !old(self)@.agents.contains_key(p) ==> r == Err::<Event, GoblinError>(
                    GoblinError::AgentNotFound(p),
                ),
                None => true,
            },
            match parent_id {
                Some(p) => old(self)@.agents.contains_key(p) && !old(self)@.agents[p].can_spawn()
                    ==> (r matches Err(GoblinError::SpawnDenied(text)) && text@
                    == "Parent agent cannot spawn more children"@),
                None => true,
            },
            (match parent_id {
                Some(p) => old(self)@.agents.contains_key(p) && old(self)@.agents[p].can_spawn(),
                None => true,
            }) && r is Err ==> (r matches Err(GoblinError::SpawnDenied(text)) && text@
                == "Agent identity already in use"@),
            parent_id is None && old(self)@.agents.dom().len() == 0 ==> r is Ok,
            (r matches Err(GoblinError::SpawnDenied(text)) && text@
                == "Agent identity already in use"@) ==> old(self)@.agents.dom().len() > 0,
            r matches Ok(event) ==> {
                &&& event matches Event::AgentSpawned { agent_id, .. }
                    && !old(self)@.agents.contains_key(agent_id) && event == spawn_event(
                    *sub_id,
                    agent_id,
                    config,
                    parent_id,
                ) && final(self)@ == old(self)@.spawn(agent_id, config, parent_id)
                &&& final(self)@.agents.dom().len() == old(self)@.agents.dom().len() + 1
                &&& parent_id matches Some(p) ==> final(self)@.agents[p].children.len()
                    == old(self)@.agents[p].children.len() + 1
            },
    {
        if let Some(e) = self.parent_refusal(parent_id) {
            return Err(e);
        }
        let agent_id = fresh_identity();
        if self.agents.contains_key(&agent_id) {
            proof {
                assert(self@.agents.contains_key(agent_id));
                vstd::set_lib::lemma_len_subset(
                    Set::<AgentId>::empty().insert(agent_id),
                    self@.agents.dom(),
                );
            }
            return Err(GoblinError::SpawnDenied("Agent identity already in use".to_string()));
        }
        self.spawn_agent_as(agent_id, config, parent_id, sub_id)
    }

    /// Creates the agent `agent_id` below `parent_id`, or as the root
    /// where there is no parent. A parent that is not in the table gives
    /// `AgentNotFound`, one that may not take another child gives
    /// `SpawnDenied`, and either leaves the session as it was. Otherwise
    /// the agent enters table and hierarchy and the parent's children,
    /// and the event that reports the spawn comes back.
    pub fn spawn_agent_as(
        &mut self,
        agent_id: AgentId,
        config: AgentConfig,
        parent_id: Option<AgentId>,
        sub_id: &SubmissionId,
    ) -> (r: Result<Event, GoblinError>)
        requires
            old(self)@.wf(),
            !old(self)@.agents.contains_key(agent_id),
        ensures
            final(self)@.wf(),
            old(self)@.hierarchy.single_rooted() && (parent_id is Some || old(self)@.hierarchy.root
                is None) ==> final(self)@.hierarchy.single_rooted(),
            match parent_id {
                Some(p) => !old(self)@.agents.contains_key(p) ==> r == Err::<Event, GoblinError>(
                    GoblinError::AgentNotFound(p),
                ) && final(self)@ == old(self)@,
                None => true,
            },
            match parent_id {
                Some(p) => old(self)@.agents.contains_key(p) && !old(self)@.agents[p].can_spawn()
                    ==> final(self)@ == old(self)@ && (r matches Err(GoblinError::SpawnDenied(text))
                    && text@ == "Parent agent cannot spawn more children"@),
                None => true,
            },
            (match parent_id {
                Some(p) => old(self)@.agents.contains_key(p) && old(self)@.agents[p].can_spawn(),
                None => true,
            }) ==> {
                &&& r == Ok::<Event, GoblinError>(spawn_event(*sub_id, agent_id, config, parent_id))
                &&& final(self)@ == old(self)@.spawn(agent_id, config, parent_id)
                &&& final(self)@.agents.dom().len() == old(self)@.agents.dom().len() + 1
                &&& parent_id matches Some(p) ==> final(self)@.agents[p].children.len()
                    == old(self)@.agents[p].children.len() + 1
            },
    {
        if let Some(e) = self.parent_refusal(parent_id) {
            return Err(e);
        }
        let ghost before = self@;
        let agent = Agent::with_id(agent_id, config.clone(), parent_id);
        self.agents.insert(agent_id, agent);
        self.hierarchy.add_agent(agent_id, config.role.clone(), parent_id);
        if let Some(pid) = parent_id {
            match self.agents.remove(&pid) {
                Some(parent) => {
                    let mut parent = parent;
                    parent.add_child(agent_id);
                    self.agents.insert(pid, parent);
                },
                None => {},
            }
        }
        proof {
            let after = before.spawn(agent_id, config, parent_id);
            assert(self@.agents =~= after.agents);
            assert(before.hierarchy.is_fresh(agent_id)) by {
                assert forall|c: AgentId| #[trigger] before.hierarchy.nodes.contains_key(c)
                    implies before.hierarchy.nodes[c].parent != Some(agent_id) by {
                    if before.hierarchy.nodes[c].parent == Some(agent_id) {
                        assert(before.hierarchy.nodes.contains_key(agent_id));
                    }
                }
            }
            before.hierarchy.lemma_add_preserves(agent_id, config.role, parent_id);
            assert(after.mirrors()) by {
                assert(after.hierarchy.nodes.dom() =~= after.agents.dom());
                assert forall|x: AgentId| #[trigger] after.agents.contains_key(x) implies after.agents[x].id
                    == x && after.hierarchy.nodes[x] == node_of(after.agents[x]) by {
                    if x != agent_id {
                        assert(before.agents.contains_key(x));
                    }
                }
            }
        }
        Ok(
            Event::AgentSpawned {
                sub_id: sub_id.clone(),
                agent_id,
                parent_id,
                role: config.role.clone(),
                config,
            },
        )
    }

    /// Takes `agent_id` and everything below it out of table and
    /// hierarchy, children before parents, and appends the termination
    /// events of each agent that left to `events`. Says whether
    /// `agent_id` was in the table; if not, nothing changes.
    fn terminate_subtree(
        &mut self,
        agent_id: AgentId,
        reason: String,
        sub_id: &SubmissionId,
        events: &mut Vec<Event>,
    ) -> (r: (bool, Ghost<Seq<AgentId>>))
        requires
            old(self)@.consistent(),
        ensures
            r.0 == old(self)@.agents.contains_key(agent_id),
            !r.0 ==> final(self)@ == old(self)@ && final(events)@ == old(events)@,
            r.0 ==> old(self)@.subtree_gone(final(self)@, agent_id),
            final(self)@.consistent(),
            old(self)@.hierarchy.single_rooted() ==> final(self)@.hierarchy.single_rooted(),
            final(events)@.len() + 2 * final(self)@.agents.dom().len() == old(events)@.len() + 2
                * old(self)@.agents.dom().len(),
            final(events)@.subrange(0, old(events)@.len() as int) == old(events)@,
            r.0 ==> final(events)@.len() >= old(events)@.len() + 2,
            r.0 ==> final(events)@.subrange(final(events)@.len() - 2, final(events)@.len() as int)
                == termination_events(*sub_id, agent_id, reason),
            r.0 ==> cascade_reported(
                r.1@,
                final(events)@,
                old(events)@.len() as int,
                old(self)@.agents,
                final(self)@.agents,
                agent_id,
                *sub_id,
            ),
            !r.0 ==> r.1@.len() == 0,
        decreases old(self)@.agents.dom().len(),
    {
        let ghost s0 = self@;
        let ghost e0 = events@;
        proof {
            assert(s0.agents.dom() =~= self.agents@.dom());
        }
        let removed = self.agents.remove(&agent_id);
        let mut agent = match removed {
            Some(agent) => agent,
            None => {
                proof {
                    assert(self@.agents =~= s0.agents);
                    assert(events@.subrange(0, e0.len() as int) =~= e0);
                }
                return (false, Ghost(Seq::empty()));
            },
        };
        if let Some(pid) = agent.parent_id() {
            match self.agents.remove(&pid) {
                Some(parent) => {
                    let mut parent = parent;
                    parent.remove_child(&agent_id);
                    self.agents.insert(pid, parent);
                },
                None => {},
            }
        }
        self.hierarchy.remove_agent(&agent_id);
        let ghost s1 = self@;
        proof {
            assert(s1.agents.dom() =~= self.agents@.dom());
            assert(s1.agents =~= s0.detach(agent_id).agents);
            assert(s1 == s0.detach(agent_id));
            s0.lemma_detach_consistent(agent_id);
        }
        let kids = agent.children();
        let mut i: usize = 0;
        let ghost mut order: Seq<AgentId> = Seq::empty();
        while i < kids.len()
            invariant
                i <= kids.len(),
                s0 == old(self)@,
                s0.consistent(),
                s0.agents.contains_key(agent_id),
                kids@ == s0.agents[agent_id].children,
                s1 == s0.detach(agent_id),
                s1.consistent(),
                self@.consistent(),
                s0.hierarchy.single_rooted() ==> self@.hierarchy.single_rooted(),
                self@.id == s1.id,
                self@.config == s1.config,
                self@.current_task == s1.current_task,
                self@.agents.dom().subset_of(s1.agents.dom()),
                self@.agents.dom().len() <= s1.agents.dom().len(),
                s1.agents.dom().len() < s0.agents.dom().len(),
                forall|x: AgentId| #[trigger]
                    self@.agents.contains_key(x) ==> self@.agents[x] == s1.agents[x],
                forall|x: AgentId, j: int|
                    s1.agents.contains_key(x) && !self@.agents.contains_key(x) && 0 <= j
                        < s1.agents[x].children.len() ==> !self@.agents.contains_key(
                        #[trigger] s1.agents[x].children[j],
                    ),
                forall|x: AgentId| #[trigger]
                    s1.agents.contains_key(x) && !self@.agents.contains_key(x)
                        ==> match s1.agents[x].parent_id {
                        Some(p) => p == agent_id || (s1.agents.contains_key(p)
                            && !self@.agents.contains_key(p)),
                        None => false,
                    },
                forall|j: int| 0 <= j < i ==> !self@.agents.contains_key(#[trigger] kids@[j]),
                self@.hierarchy.root == match s1.hierarchy.root {
                    Some(r) => if self@.agents.contains_key(r) {
                        Some(r)
                    } else {
                        None
                    },
                    None => None,
                },
                events@.len() == e0.len() + 2 * (s1.agents.dom().len() - self@.agents.dom().len()),
                events@.subrange(0, e0.len() as int) == e0,
                order.len() == s1.agents.dom().len() - self@.agents.dom().len(),
                lists_gone(order, s1.agents, self@.agents),
                reported(events@, e0.len() as int, order, *sub_id),
                children_first(order, s1.agents, order.len() as int),
            decreases kids.len() - i,
        {
            let ghost pre = self@;
            let ghost pre_events = events@;
            let kid = kids[i];
            proof {
                s0.lemma_child_of(agent_id, i as int);
                vstd::set_lib::lemma_len_subset(pre.agents.dom(), s1.agents.dom());
            }
            let ghost earlier = order;
            let r = self.terminate_subtree(kid, "Parent terminated".to_string(), sub_id, events);
            let found = r.0;
            let ghost below = r.1@;
            proof {
                order = earlier + below;
                let post = self@;
                vstd::set_lib::lemma_len_subset(post.agents.dom(), pre.agents.dom());
                assert(events@.subrange(0, e0.len() as int) =~= pre_events.subrange(
                    0,
                    e0.len() as int,
                )) by {
                    assert(events@.subrange(0, pre_events.len() as int) == pre_events);
                    assert forall|k: int| 0 <= k < e0.len() implies events@[k] == pre_events[k] by {
                        assert(events@.subrange(0, pre_events.len() as int)[k] == events@[k]);
                    }
                }
                if found {
                    let start = e0.len() as int;
                    let mid = pre_events.len() as int;
                    assert(mid == start + 2 * earlier.len());
                    assert forall|p: int, q: int|
                        0 <= p < earlier.len() && 0 <= q < below.len() implies earlier[p]
                        != below[q] by {
                        assert(earlier.contains(earlier[p]));
                        assert(below.contains(below[q]));
                    }
                    vstd::seq_lib::lemma_no_dup_in_concat(earlier, below);
                    assert forall|a: AgentId| #[trigger]
                        order.contains(a) <==> s1.agents.contains_key(a)
                            && !post.agents.contains_key(a) by {
                        if order.contains(a) {
                            let p = choose|p: int| 0 <= p < order.len() && order[p] == a;
                            if p < earlier.len() {
                                assert(earlier[p] == a);
                                assert(earlier.contains(a));
                            } else {
                                assert(below[p - earlier.len()] == a);
                                assert(below.contains(a));
                            }
                        }
                        if s1.agents.contains_key(a) && !post.agents.contains_key(a) {
                            if pre.agents.contains_key(a) {
                                assert(below.contains(a));
                                let q = choose|q: int| 0 <= q < below.len() && below[q] == a;
                                assert(order[earlier.len() + q] == a);
                            } else {
                                assert(earlier.contains(a));
                                let p = choose|p: int| 0 <= p < earlier.len() && earlier[p] == a;
                                assert(order[p] == a);
                            }
                        }
                    }
                    assert forall|j: int| 0 <= j < order.len() implies reports_termination(
                        events@[start + 2 * j],
                        events@[start + 2 * j + 1],
                        *sub_id,
                        #[trigger] order[j],
                        cascade_reason(),
                    ) by {
                        if j < earlier.len() {
                            assert(order[j] == earlier[j]);
                            assert(events@.subrange(0, mid)[start + 2 * j] == events@[start + 2 * j]);
                            assert(events@.subrange(0, mid)[start + 2 * j + 1] == events@[start + 2
                                * j + 1]);
                        } else if j < order.len() - 1 {
                            let j2 = j - earlier.len();
                            assert(order[j] == below.drop_last()[j2]);
                            assert(mid + 2 * j2 == start + 2 * j);
                        } else {
                            let last = events@.subrange(events@.len() - 2, events@.len() as int);
                            assert(last[0] == events@[start + 2 * j]);
                            assert(last[1] == events@[start + 2 * j + 1]);
                            assert(order[j] == below.last());
                        }
                    }
                    assert forall|p: int, q: int|
                        #![trigger order[p], order[q]]
                        0 <= p < order.len() && 0 <= q < order.len() && s1.agents.contains_key(
                            order[p],
                        ) && s1.agents[order[p]].parent_id == Some(order[q]) implies p < q by {
                        let n = earlier.len() as int;
                        if p < n && q < n {
                            assert(order[p] == earlier[p] && order[q] == earlier[q]);
                        } else if p >= n && q >= n {
                            let p2 = p - n;
                            let q2 = q - n;
                            assert(order[p] == below[p2] && order[q] == below[q2]);
                            assert(below.contains(below[p2]));
                            assert(pre.agents[below[p2]] == s1.agents[below[p2]]);
                            if p2 == below.len() - 1 {
                                assert(s1.agents[kid].parent_id == Some(agent_id));
                                assert(below.contains(below[q2]));
                                assert(false);
                            }
                        } else if p >= n && q < n {
                            let x = below[p - n];
                            let up = earlier[q];
                            assert(order[p] == x && order[q] == up);
                            assert(below.contains(x));
                            assert(earlier.contains(up));
                            assert(pre.agents[x] == s1.agents[x]);
                            assert(s1.hierarchy.nodes.contains_key(x));
                            assert(s1.hierarchy.nodes.contains_key(up));
                            assert(s1.hierarchy.nodes[up].children.contains(x));
                            let at = choose|at: int|
                                0 <= at < s1.agents[up].children.len() && s1.agents[up].children[at]
                                    == x;
                            assert(!pre.agents.contains_key(s1.agents[up].children[at]));
                            assert(false);
                        }
                    }
                    assert(pre.agents[kid].parent_id == Some(agent_id));
                    assert(!pre.agents.contains_key(agent_id));
                    assert forall|x: AgentId| #[trigger] post.agents.contains_key(x) implies post.agents[x]
                        == s1.agents[x] by {
                        assert(pre.agents.contains_key(x));
                        assert(post.agents[x] == pre.detach(kid).agents[x]);
                    }
                    assert forall|x: AgentId, j: int|
                        s1.agents.contains_key(x) && !post.agents.contains_key(x) && 0 <= j
                            < s1.agents[x].children.len() implies !post.agents.contains_key(
                        #[trigger] s1.agents[x].children[j],
                    ) by {
                        if pre.agents.contains_key(x) {
                            assert(pre.agents[x] == s1.agents[x]);
                            assert(!post.agents.contains_key(pre.agents[x].children[j]));
                        } else {
                            assert(!pre.agents.contains_key(s1.agents[x].children[j]));
                        }
                    }
                    assert forall|x: AgentId| #[trigger]
                        s1.agents.contains_key(x) && !post.agents.contains_key(x)
                        implies match s1.agents[x].parent_id {
                        Some(p) => p == agent_id || (s1.agents.contains_key(p)
                            && !post.agents.contains_key(p)),
                        None => false,
                    } by {
                        if pre.agents.contains_key(x) {
                            assert(pre.agents[x] == s1.agents[x]);
                        }
                    }
                }
            }
            proof {
                if !found {
                    assert(order =~= earlier);
                }
            }
            i += 1;
        }
        let ghost s2 = self@;
        let ghost e2 = events@;
        let mut own = agent.terminate(sub_id, reason);
        events.append(&mut own);
        proof {
            assert(events@.subrange(0, e0.len() as int) =~= e2.subrange(0, e0.len() as int));
            assert(events@.subrange(events@.len() - 2, events@.len() as int) =~= termination_events(
                *sub_id,
                agent_id,
                reason,
            ));
            s0.lemma_subtree_gone(s2, agent_id);
            let whole = order.push(agent_id);
            assert(whole.drop_last() =~= order);
            assert forall|a: AgentId| #[trigger]
                whole.contains(a) <==> s0.agents.contains_key(a) && !s2.agents.contains_key(a) by {
                if whole.contains(a) {
                    let p = choose|p: int| 0 <= p < whole.len() && whole[p] == a;
                    if p < order.len() {
                        assert(order[p] == a);
                        assert(order.contains(a));
                    }
                }
                if s0.agents.contains_key(a) && !s2.agents.contains_key(a) {
                    if a == agent_id {
                        assert(whole[order.len() as int] == a);
                    } else {
                        assert(s1.agents.contains_key(a));
                        assert(order.contains(a));
                        let p = choose|p: int| 0 <= p < order.len() && order[p] == a;
                        assert(whole[p] == a);
                    }
                }
            }
            assert forall|p: int, q: int| 0 <= p < q < whole.len() implies whole[p] != whole[q] by {
                if q == order.len() {
                    assert(order.contains(order[p]));
                }
            }
            let start = e0.len() as int;
            assert forall|j: int| 0 <= j < order.len() implies reports_termination(
                events@[start + 2 * j],
                events@[start + 2 * j + 1],
                *sub_id,
                #[trigger] order[j],
                cascade_reason(),
            ) by {
                assert(events@[start + 2 * j] == e2[start + 2 * j]);
                assert(events@[start + 2 * j + 1] == e2[start + 2 * j + 1]);
            }
            assert forall|p: int, q: int|
                #![trigger whole[p], whole[q]]
                0 <= p < order.len() && 0 <= q < whole.len() && s0.agents.contains_key(whole[p])
                    && s0.agents[whole[p]].parent_id == Some(whole[q]) implies p < q by {
                if q < order.len() {
                    assert(whole[p] == order[p] && whole[q] == order[q]);
                    assert(order.contains(order[p]));
                    assert(s1.agents[order[p]].parent_id == s0.agents[order[p]].parent_id);
                }
            }
        }
        (true, Ghost(order.push(agent_id)))
    }

    /// Terminates `agent_id` and every agent below it. An identity that
    /// is not in the table gives `AgentNotFound` and changes nothing.
    /// Otherwise the whole subtree leaves table and hierarchy, the parent
    /// loses `agent_id` from its children, and the termination events
    /// come back, those of `agent_id` itself last.
    pub fn terminate_agent(&mut self, agent_id: &AgentId, reason: String, sub_id: &SubmissionId) -> (r:
        Result<Vec<Event>, GoblinError>)
        requires
            old(self)@.wf(),
        ensures
            final(self)@.wf(),
            old(self)@.hierarchy.single_rooted() ==> final(self)@.hierarchy.single_rooted(),
            !old(self)@.agents.contains_key(*agent_id) ==> r == Err::<Vec<Event>, GoblinError>(
                GoblinError::AgentNotFound(*agent_id),
            ) && final(self)@ == old(self)@,
            old(self)@.agents.contains_key(*agent_id) ==> {
                &&& r is Ok
                &&& old(self)@.subtree_gone(final(self)@, *agent_id)
                &&& r->Ok_0@.len() + 2 * final(self)@.agents.dom().len() == 2 * old(self)@.agents.dom().len()
                &&& r->Ok_0@.len() >= 2
                &&& r->Ok_0@.subrange(r->Ok_0@.len() - 2, r->Ok_0@.len() as int)
                    == termination_events(*sub_id, *agent_id, reason)
                &&& exists|order: Seq<AgentId>| #[trigger]
                    cascade_reported(
                        order,
                        r->Ok_0@,
                        0,
                        old(self)@.agents,
                        final(self)@.agents,
                        *agent_id,
                        *sub_id,
                    )
            },
    {
        let mut events: Vec<Event> = Vec::new();
        let r = self.terminate_subtree(*agent_id, reason, sub_id, &mut events);
        if !r.0 {
            return Err(GoblinError::AgentNotFound(*agent_id));
        }
        proof {
            old(self)@.lemma_no_dangling_after(self@, *agent_id);
        }
        Ok(events)
    }
}

} // verus!
