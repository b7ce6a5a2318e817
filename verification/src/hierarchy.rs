//! The tree index over agent identities: who is whose parent, who is root.

use vstd::prelude::*;
use std::collections::HashMap;
use vstd::std_specs::hash::spec_keys_iter;
use vstd::std_specs::iter::IteratorSpec;
use crate::agent::Agent;
use crate::protocol::{fresh_identity, AgentId, AgentRole, AgentStatus, AgentTree};

verus! {

broadcast use vstd::std_specs::hash::group_hash_axioms;

/// What the hierarchy records about one agent.
pub ghost struct NodeView {
    pub role: AgentRole,
    pub parent: Option<AgentId>,
    pub children: Seq<AgentId>,
}

/// Mathematical model of a hierarchy: its nodes by identity and its root.
pub ghost struct HierarchyView {
    pub nodes: Map<AgentId, NodeView>,
    pub root: Option<AgentId>,
}

/// `s` with every occurrence of `id` taken out.
pub open spec fn without(s: Seq<AgentId>, id: AgentId) -> Seq<AgentId> {
    s.filter(other_than(id))
}

/// The predicate "is not `id`".
pub open spec fn other_than(id: AgentId) -> spec_fn(AgentId) -> bool {
    |c: AgentId| c != id
}

impl HierarchyView {
    /// The hierarchy with no node and no root.
    pub open spec fn empty() -> HierarchyView {
        HierarchyView { nodes: Map::empty(), root: None }
    }

    pub open spec fn contains(self, id: AgentId) -> bool {
        self.nodes.contains_key(id)
    }

    /// Parent of `id`; `None` for a root and for an unknown id.
    pub open spec fn parent(self, id: AgentId) -> Option<AgentId> {
        if self.nodes.contains_key(id) {
            self.nodes[id].parent
        } else {
            None
        }
    }

    /// Children of `id` in insertion order; empty for an unknown id.
    pub open spec fn children(self, id: AgentId) -> Seq<AgentId> {
        if self.nodes.contains_key(id) {
            self.nodes[id].children
        } else {
            Seq::empty()
        }
    }

    /// The hierarchy after inserting `id` with the given role and parent.
    /// A parentless insert takes over the root; a known parent gets `id`
    /// appended to its children; the node is created in every case.
    pub open spec fn add(self, id: AgentId, role: AgentRole, parent: Option<AgentId>) -> HierarchyView {
        let linked = match parent {
            Some(p) => if self.nodes.contains_key(p) {
                self.nodes.insert(
                    p,
                    NodeView { children: self.nodes[p].children.push(id), ..self.nodes[p] },
                )
            } else {
                self.nodes
            },
            None => self.nodes,
        };
        HierarchyView {
            nodes: linked.insert(id, NodeView { role, parent, children: Seq::empty() }),
            root: if parent is None {
                Some(id)
            } else {
                self.root
            },
        }
    }

    /// The hierarchy after removing `id`: the node goes, a known parent
    /// loses it from its children, and the root pointer is cleared if it
    /// named `id`. The node's own children stay where they are.
    pub open spec fn remove(self, id: AgentId) -> HierarchyView {
        if !self.nodes.contains_key(id) {
            self
        } else {
            let rest = self.nodes.remove(id);
            let unlinked = match self.nodes[id].parent {
                Some(p) => if rest.contains_key(p) {
                    rest.insert(p, NodeView { children: without(rest[p].children, id), ..rest[p] })
                } else {
                    rest
                },
                None => rest,
            };
            HierarchyView {
                nodes: unlinked,
                root: if self.root == Some(id) {
                    None
                } else {
                    self.root
                },
            }
        }
    }

    /// Number of parent links followed from `id` before reaching a node
    /// without a parent or leaving the hierarchy, following at most `fuel`.
    pub open spec fn walk(self, id: AgentId, fuel: nat) -> nat
        decreases fuel,
    {
        if fuel == 0 || !self.nodes.contains_key(id) {
            0
        } else {
            match self.nodes[id].parent {
                Some(p) => 1 + self.walk(p, (fuel - 1) as nat),
                None => 0,
            }
        }
    }

    /// Depth of `id`: the hops from `id` up its parent links. With `n`
    /// nodes no chain without a repetition is longer than `n`.
    pub open spec fn depth(self, id: AgentId) -> nat {
        self.walk(id, self.nodes.dom().len())
    }

    /// Every entry of a children list is a node whose parent is the
    /// list's owner, and no list names a node twice.
    pub open spec fn children_linked(self) -> bool {
        &&& forall|p: AgentId, i: int|
            self.nodes.contains_key(p) && 0 <= i < self.nodes[p].children.len() ==> {
                let c = #[trigger] self.nodes[p].children[i];
                self.nodes.contains_key(c) && self.nodes[c].parent == Some(p)
            }
        &&& forall|p: AgentId| #[trigger]
            self.nodes.contains_key(p) ==> self.nodes[p].children.no_duplicates()
    }

    /// Every node whose parent is a node stands in that parent's children.
    pub open spec fn parents_linked(self) -> bool {
        forall|c: AgentId| #[trigger]
            self.nodes.contains_key(c) ==> match self.nodes[c].parent {
                Some(p) => self.nodes.contains_key(p) ==> self.nodes[p].children.contains(c),
                None => true,
            }
    }

    /// Every parent that a node names is itself a node.
    pub open spec fn no_dangling(self) -> bool {
        forall|c: AgentId| #[trigger]
            self.nodes.contains_key(c) ==> match self.nodes[c].parent {
                Some(p) => self.nodes.contains_key(p),
                None => true,
            }
    }

    /// Parent and children links agree everywhere.
    pub open spec fn linked(self) -> bool {
        self.children_linked() && self.parents_linked() && self.no_dangling()
    }

    /// The root pointer, if set, names a node.
    pub open spec fn root_known(self) -> bool {
        match self.root {
            Some(r) => self.nodes.contains_key(r),
            None => true,
        }
    }

    /// The root pointer names a parentless node, and no other node is
    /// parentless.
    pub open spec fn single_rooted(self) -> bool {
        &&& self.root_known()
        &&& forall|c: AgentId| #[trigger]
            self.nodes.contains_key(c) ==> (self.nodes[c].parent is None <==> self.root == Some(c))
    }

    /// `rank` grows strictly from every node to each of its children.
    pub open spec fn ranked(self, rank: spec_fn(AgentId) -> nat) -> bool {
        forall|c: AgentId| #[trigger]
            self.nodes.contains_key(c) ==> match self.nodes[c].parent {
                Some(p) => self.nodes.contains_key(p) ==> rank(p) < rank(c),
                None => true,
            }
    }

    /// No chain of parent links comes back to where it started.
    pub open spec fn acyclic(self) -> bool {
        exists|rank: spec_fn(AgentId) -> nat| self.ranked(rank)
    }

    /// `id` is neither a node nor named as a parent by any node.
    pub open spec fn is_fresh(self, id: AgentId) -> bool {
        &&& !self.nodes.contains_key(id)
        &&& forall|c: AgentId| #[trigger]
            self.nodes.contains_key(c) ==> self.nodes[c].parent != Some(id)
    }
}

/// Membership in a list with one value taken out.
pub proof fn lemma_without_contains(s: Seq<AgentId>, id: AgentId, c: AgentId)
    ensures
        without(s, id).contains(c) <==> (s.contains(c) && c != id),
{
    let f = other_than(id);
    if without(s, id).contains(c) {
        s.lemma_filter_contains_rev(f, c);
        let i = choose|i: int| 0 <= i < s.filter(f).len() && s.filter(f)[i] == c;
        s.lemma_filter_pred(f, i);
    }
    if s.contains(c) && c != id {
        let i = choose|i: int| 0 <= i < s.len() && s[i] == c;
        s.lemma_filter_contains(f, i);
    }
}

/// Taking a value out of a list without repetition leaves none.
pub proof fn lemma_without_no_duplicates(s: Seq<AgentId>, id: AgentId)
    requires
        s.no_duplicates(),
    ensures
        without(s, id).no_duplicates(),
    decreases s.len(),
{
    reveal(Seq::filter);
    if s.len() > 0 {
        let t = s.drop_last();
        lemma_without_no_duplicates(t, id);
        if s.last() != id {
            let w = without(t, id);
            assert forall|i: int| 0 <= i < w.len() implies w[i] != s.last() by {
                lemma_without_contains(t, id, w[i]);
                assert(w.contains(w[i]));
                let j = choose|j: int| 0 <= j < t.len() && t[j] == w[i];
                assert(s[j] == t[j]);
            }
        }
    }
}

impl HierarchyView {
    /// What an insert of an unused identity keeps: the links, the
    /// absence of cycles, and the single root unless a second parentless
    /// node comes in.
    pub proof fn lemma_add_preserves(self, id: AgentId, role: AgentRole, parent: Option<AgentId>)
        requires
            self.is_fresh(id),
        ensures
            self.children_linked() ==> self.add(id, role, parent).children_linked(),
            self.children_linked() && self.parents_linked() && parent != Some(id) ==> self.add(
                id,
                role,
                parent,
            ).parents_linked(),
            self.no_dangling() && (parent is None || self.contains(parent.unwrap()))
                ==> self.add(id, role, parent).no_dangling(),
            self.acyclic() && parent != Some(id) ==> self.add(id, role, parent).acyclic(),
            self.root_known() ==> self.add(id, role, parent).root_known(),
            self.single_rooted() && (parent is Some || self.root is None) ==> self.add(
                id,
                role,
                parent,
            ).single_rooted(),
            self.nodes.dom().finite() ==> self.add(id, role, parent).nodes.dom().finite(),
    {
        let h = self.add(id, role, parent);
        if self.children_linked() {
            assert forall|p: AgentId, i: int|
                h.nodes.contains_key(p) && 0 <= i < h.nodes[p].children.len() implies {
                let c = #[trigger] h.nodes[p].children[i];
                h.nodes.contains_key(c) && h.nodes[c].parent == Some(p)
            } by {
                if p != id {
                    if parent == Some(p) && i == self.nodes[p].children.len() {
                    } else {
                        let c = self.nodes[p].children[i];
                        assert(self.nodes.contains_key(c));
                    }
                }
            }
            assert forall|p: AgentId| #[trigger] h.nodes.contains_key(p) implies h.nodes[p].children.no_duplicates() by {
                if p != id && parent == Some(p) {
                    let old_c = self.nodes[p].children;
                    assert forall|i: int| 0 <= i < old_c.len() implies old_c[i] != id by {
                        assert(self.nodes.contains_key(old_c[i]));
                    }
                }
            }
            if self.parents_linked() && parent != Some(id) {
                assert forall|c: AgentId| #[trigger] h.nodes.contains_key(c) implies match h.nodes[c].parent {
                    Some(p) => h.nodes.contains_key(p) ==> h.nodes[p].children.contains(c),
                    None => true,
                } by {
                    if c == id {
                        if parent is Some && self.nodes.contains_key(parent.unwrap()) {
                            let p = parent.unwrap();
                            let k = self.nodes[p].children.len() as int;
                            assert(h.nodes[p].children[k] == id);
                        }
                    } else {
                        assert(self.nodes.contains_key(c));
                        match self.nodes[c].parent {
                            Some(p) => {
                                if self.nodes.contains_key(p) {
                                    let i = choose|i: int| 0 <= i < self.nodes[p].children.len() && self.nodes[p].children[i] == c;
                                    assert(h.nodes[p].children[i] == c);
                                }
                            },
                            None => {},
                        }
                    }
                }
            }
        }
        if self.acyclic() && parent != Some(id) {
            let rank = choose|rank: spec_fn(AgentId) -> nat| self.ranked(rank);
            let top: nat = match parent {
                Some(p) => rank(p) + 1,
                None => 0,
            };
            let rank2 = |x: AgentId| if x == id { top } else { rank(x) };
            assert forall|c: AgentId| #[trigger] h.nodes.contains_key(c) implies match h.nodes[c].parent {
                Some(p) => h.nodes.contains_key(p) ==> rank2(p) < rank2(c),
                None => true,
            } by {
                if c != id {
                    assert(self.nodes.contains_key(c));
                }
            }
            assert(h.ranked(rank2));
        }
        if self.single_rooted() && (parent is Some || self.root is None) {
            assert forall|c: AgentId| #[trigger] h.nodes.contains_key(c) implies (h.nodes[c].parent is None <==> h.root == Some(c)) by {
                if c != id {
                    assert(self.nodes.contains_key(c));
                }
            }
        }
    }

    /// What a removal keeps: the links between the nodes that stay, the
    /// absence of cycles and the single root; and, where the node had no
    /// children, that no node names a missing parent.
    pub proof fn lemma_remove_preserves(self, id: AgentId)
        ensures
            self.children_linked() ==> self.remove(id).children_linked(),
            self.children_linked() && self.parents_linked() ==> self.remove(id).parents_linked(),
            self.linked() && self.children(id).len() == 0 ==> self.remove(id).no_dangling(),
            self.acyclic() ==> self.remove(id).acyclic(),
            self.root_known() ==> self.remove(id).root_known(),
            self.single_rooted() ==> self.remove(id).single_rooted(),
            self.nodes.dom().finite() ==> self.remove(id).nodes.dom().finite(),
    {
        let h = self.remove(id);
        if self.nodes.contains_key(id) {
            let par = self.nodes[id].parent;
            if self.children_linked() {
                assert forall|p: AgentId, i: int|
                    h.nodes.contains_key(p) && 0 <= i < h.nodes[p].children.len() implies {
                    let c = #[trigger] h.nodes[p].children[i];
                    h.nodes.contains_key(c) && h.nodes[c].parent == Some(p)
                } by {
                    let c = h.nodes[p].children[i];
                    assert(h.nodes[p].children.contains(c));
                    lemma_without_contains(self.nodes[p].children, id, c);
                    assert(self.nodes[p].children.contains(c));
                    let j = choose|j: int| 0 <= j < self.nodes[p].children.len() && self.nodes[p].children[j] == c;
                    assert(self.nodes.contains_key(self.nodes[p].children[j]));
                }
                assert forall|p: AgentId| #[trigger] h.nodes.contains_key(p) implies h.nodes[p].children.no_duplicates() by {
                    assert(self.nodes.contains_key(p));
                    lemma_without_no_duplicates(self.nodes[p].children, id);
                }
                if self.parents_linked() {
                    assert forall|c: AgentId| #[trigger] h.nodes.contains_key(c) implies match h.nodes[c].parent {
                        Some(p) => h.nodes.contains_key(p) ==> h.nodes[p].children.contains(c),
                        None => true,
                    } by {
                        assert(self.nodes.contains_key(c));
                        match self.nodes[c].parent {
                            Some(p) => {
                                if h.nodes.contains_key(p) {
                                    lemma_without_contains(self.nodes[p].children, id, c);
                                }
                            },
                            None => {},
                        }
                    }
                    if self.no_dangling() && self.children(id).len() == 0 {
                        assert forall|c: AgentId| #[trigger] h.nodes.contains_key(c) implies match h.nodes[c].parent {
                            Some(p) => h.nodes.contains_key(p),
                            None => true,
                        } by {
                            assert(self.nodes.contains_key(c));
                            if self.nodes[c].parent == Some(id) {
                                assert(self.nodes[id].children.contains(c));
                            }
                        }
                    }
                }
            }
            if self.acyclic() {
                let rank = choose|rank: spec_fn(AgentId) -> nat| self.ranked(rank);
                assert forall|c: AgentId| #[trigger] h.nodes.contains_key(c) implies match h.nodes[c].parent {
                    Some(p) => h.nodes.contains_key(p) ==> rank(p) < rank(c),
                    None => true,
                } by {
                    assert(self.nodes.contains_key(c));
                }
                assert(h.ranked(rank));
            }
            if self.single_rooted() {
                assert forall|c: AgentId| #[trigger] h.nodes.contains_key(c) implies (h.nodes[c].parent is None <==> h.root == Some(c)) by {
                    assert(self.nodes.contains_key(c));
                }
            }
        }
    }

    /// In a linked hierarchy a node stands in the children of exactly
    /// the node that it names as its parent.
    pub proof fn lemma_children_iff_parent(self, parent: AgentId, child: AgentId)
        requires
            self.linked(),
        ensures
            self.children(parent).contains(child) <==> self.parent(child) == Some(parent),
    {
        if self.children(parent).contains(child) {
            let i = choose|i: int| 0 <= i < self.children(parent).len() && self.children(parent)[i] == child;
            assert(self.nodes.contains_key(self.nodes[parent].children[i]));
        }
        if self.parent(child) == Some(parent) {
            assert(self.nodes.contains_key(child));
        }
    }

    /// In a single-rooted hierarchy at most one node has no parent: any
    /// two parentless nodes are the same node, the root.
    pub proof fn lemma_at_most_one_parentless(self, a: AgentId, b: AgentId)
        requires
            self.single_rooted(),
            self.contains(a),
            self.contains(b),
            self.parent(a) is None,
            self.parent(b) is None,
        ensures
            a == b,
            self.root == Some(a),
    {
    }
}

impl HierarchyView {
    /// A walk that ended before its fuel ran out is the same with less.
    pub proof fn lemma_walk_stable(self, id: AgentId, fuel: nat)
        requires
            self.walk(id, fuel + 1) <= fuel,
        ensures
            self.walk(id, fuel + 1) == self.walk(id, fuel),
        decreases fuel,
    {
        if fuel > 0 && self.nodes.contains_key(id) && self.nodes[id].parent is Some {
            let p = self.nodes[id].parent.unwrap();
            assert(self.walk(id, fuel + 1) == 1 + self.walk(p, fuel));
            self.lemma_walk_stable(p, (fuel - 1) as nat);
        }
    }

    /// Without cycles a walk passes no node twice: with the nodes in
    /// `seen` already behind it, all of higher rank than `id`, it cannot
    /// go on for more hops than there are other nodes.
    pub proof fn lemma_walk_bounded(
        self,
        rank: spec_fn(AgentId) -> nat,
        id: AgentId,
        fuel: nat,
        seen: Set<AgentId>,
    )
        requires
            self.nodes.dom().finite(),
            self.ranked(rank),
            seen.subset_of(self.nodes.dom()),
            forall|x: AgentId| seen.contains(x) ==> rank(x) > rank(id),
        ensures
            self.walk(id, fuel) + seen.len() <= self.nodes.dom().len(),
        decreases fuel,
    {
        vstd::set_lib::lemma_len_subset(seen, self.nodes.dom());
        if fuel > 0 && self.nodes.contains_key(id) && self.nodes[id].parent is Some {
            let p = self.nodes[id].parent.unwrap();
            let more = seen.insert(id);
            vstd::set_lib::lemma_len_subset(more, self.nodes.dom());
            if self.nodes.contains_key(p) {
                self.lemma_walk_bounded(rank, p, (fuel - 1) as nat, more);
            } else {
                assert(self.walk(p, (fuel - 1) as nat) == 0);
            }
        }
    }

    /// A node without a parent, and an identity that is no node, has
    /// depth 0.
    pub proof fn lemma_depth_of_root(self, id: AgentId)
        requires
            self.parent(id) is None,
        ensures
            self.depth(id) == 0,
    {
    }

    /// Without cycles every node that has a parent is one level below it.
    pub proof fn lemma_depth_of_child(self, child: AgentId, parent: AgentId)
        requires
            self.nodes.dom().finite(),
            self.acyclic(),
            self.contains(child),
            self.parent(child) == Some(parent),
        ensures
            self.depth(child) == self.depth(parent) + 1,
    {
        let n = self.nodes.dom().len();
        let rank = choose|rank: spec_fn(AgentId) -> nat| self.ranked(rank);
        self.lemma_walk_bounded(rank, child, n + 1, Set::empty());
        assert(self.walk(child, n + 1) == 1 + self.walk(parent, n));
        vstd::set_lib::lemma_len_subset(Set::empty().insert(child), self.nodes.dom());
        assert(n >= 1);
        self.lemma_walk_stable(parent, (n - 1) as nat);
        assert(self.walk(child, n) == 1 + self.walk(parent, (n - 1) as nat));
    }
}

/// The status shown for `id`: that of the live agent, or `Terminated`
/// where the table has none.
pub open spec fn shown_status(agents: Map<AgentId, Agent>, id: AgentId) -> AgentStatus {
    if agents.contains_key(id) {
        agents[id]@.status
    } else {
        AgentStatus::Terminated
    }
}

/// Whether `t` is the tree below `id`, down to `levels` levels of
/// children: each node carries the hierarchy's role and the live
/// status, and its children are those of the hierarchy, in order.
pub open spec fn is_tree_of(
    t: AgentTree,
    h: HierarchyView,
    agents: Map<AgentId, Agent>,
    id: AgentId,
    levels: nat,
) -> bool
    decreases levels,
{
    &&& t.agent_id == id
    &&& t.role == if h.contains(id) {
        h.nodes[id].role
    } else {
        AgentRole::Worker
    }
    &&& t.status == shown_status(agents, id)
    &&& t.task_summary is None
    &&& if levels == 0 {
        t.children@.len() == 0
    } else {
        &&& t.children@.len() == h.children(id).len()
        &&& forall|i: int|
            0 <= i < t.children@.len() ==> is_tree_of(
                #[trigger] t.children@[i],
                h,
                agents,
                h.children(id)[i],
                (levels - 1) as nat,
            )
    }
}

/// Whether `t` is the single node that stands for an empty hierarchy.
pub open spec fn is_placeholder(t: AgentTree, id: AgentId) -> bool {
    &&& t.agent_id == id
    &&& t.role == AgentRole::Worker
    &&& t.status == AgentStatus::Terminated
    &&& t.task_summary is None
    &&& t.children@.len() == 0
}

impl HierarchyView {
    /// Without cycles and without missing parents a walk from a node
    /// passes only nodes, itself included: with the nodes in `seen`
    /// behind it, its hops are fewer than the nodes that are left.
    pub proof fn lemma_walk_strict(
        self,
        rank: spec_fn(AgentId) -> nat,
        id: AgentId,
        fuel: nat,
        seen: Set<AgentId>,
    )
        requires
            self.nodes.dom().finite(),
            self.ranked(rank),
            self.no_dangling(),
            self.contains(id),
            seen.subset_of(self.nodes.dom()),
            forall|x: AgentId| seen.contains(x) ==> rank(x) > rank(id),
        ensures
            self.walk(id, fuel) + seen.len() + 1 <= self.nodes.dom().len(),
        decreases fuel,
    {
        let more = seen.insert(id);
        vstd::set_lib::lemma_len_subset(seen, self.nodes.dom());
        vstd::set_lib::lemma_len_subset(more, self.nodes.dom());
        if fuel > 0 && self.nodes[id].parent is Some {
            let p = self.nodes[id].parent.unwrap();
            self.lemma_walk_strict(rank, p, (fuel - 1) as nat, more);
        }
    }

    /// A tree that reaches `levels` levels below `id` is cut nowhere if
    /// `levels` and the depth of `id` together make up the number of
    /// nodes: it is the tree for one level more as well.
    pub proof fn lemma_levels_suffice(
        self,
        t: AgentTree,
        agents: Map<AgentId, Agent>,
        id: AgentId,
        levels: nat,
    )
        requires
            self.nodes.dom().finite(),
            self.linked(),
            self.acyclic(),
            self.contains(id),
            is_tree_of(t, self, agents, id, levels),
            levels + self.depth(id) >= self.nodes.dom().len(),
        ensures
            is_tree_of(t, self, agents, id, levels + 1),
        decreases levels,
    {
        let rank = choose|rank: spec_fn(AgentId) -> nat| self.ranked(rank);
        self.lemma_walk_strict(rank, id, self.nodes.dom().len(), Set::empty());
        assert(levels > 0);
        assert forall|i: int| 0 <= i < t.children@.len() implies is_tree_of(
            #[trigger] t.children@[i],
            self,
            agents,
            self.children(id)[i],
            levels,
        ) by {
            let c = self.nodes[id].children[i];
            assert(self.nodes.contains_key(c));
            self.lemma_depth_of_child(c, id);
            self.lemma_levels_suffice(t.children@[i], agents, c, (levels - 1) as nat);
        }
    }

    /// In a linked hierarchy without cycles, the tree that reaches as
    /// many levels below a node as there are nodes is the whole tree
    /// below it: it is the tree for every larger number of levels too.
    pub proof fn lemma_tree_is_whole(
        self,
        t: AgentTree,
        agents: Map<AgentId, Agent>,
        id: AgentId,
        extra: nat,
    )
        requires
            self.nodes.dom().finite(),
            self.linked(),
            self.acyclic(),
            self.contains(id),
            is_tree_of(t, self, agents, id, self.nodes.dom().len()),
        ensures
            is_tree_of(t, self, agents, id, self.nodes.dom().len() + extra),
        decreases extra,
    {
        if extra > 0 {
            self.lemma_tree_is_whole(t, agents, id, (extra - 1) as nat);
            self.lemma_levels_suffice(
                t,
                agents,
                id,
                (self.nodes.dom().len() + extra - 1) as nat,
            );
        }
    }
}

/// One node of the hierarchy.
pub struct HierarchyNode {
    pub role: AgentRole,
    pub parent: Option<AgentId>,
    pub children: Vec<AgentId>,
}

impl View for HierarchyNode {
    type V = NodeView;

    open spec fn view(&self) -> NodeView {
        NodeView { role: self.role, parent: self.parent, children: self.children@ }
    }
}

/// Copy of `v` without the entries equal to `id`.
pub fn vec_without(v: &Vec<AgentId>, id: AgentId) -> (r: Vec<AgentId>)
    ensures
        r@ == without(v@, id),
{
    let mut r: Vec<AgentId> = Vec::new();
    let mut i: usize = 0;
    proof {
        reveal(Seq::filter);
        assert(v@.take(0) =~= Seq::<AgentId>::empty());
    }
    while i < v.len()
        invariant
            i <= v.len(),
            r@ == without(v@.take(i as int), id),
        decreases v.len() - i,
    {
        proof {
            assert(v@.take(i as int + 1) =~= v@.take(i as int).push(v@[i as int]));
            v@.take(i as int).lemma_filter_push(v@[i as int], other_than(id));
        }
        if v[i] != id {
            r.push(v[i]);
        }
        i += 1;
    }
    proof {
        assert(v@.take(v.len() as int) =~= v@);
    }
    r
}

/// Copy of a list of identities.
pub fn clone_ids(v: &Vec<AgentId>) -> (r: Vec<AgentId>)
    ensures
        r@ == v@,
{
    let mut r: Vec<AgentId> = Vec::new();
    let mut i: usize = 0;
    while i < v.len()
        invariant
            i <= v.len(),
            r@ == v@.take(i as int),
        decreases v.len() - i,
    {
        r.push(v[i]);
        proof {
            assert(v@.take(i as int + 1) =~= v@.take(i as int).push(v@[i as int]));
        }
        i += 1;
    }
    proof {
        assert(v@.take(v.len() as int) =~= v@);
    }
    r
}

/// The tree index of one session.
pub struct AgentHierarchy {
    nodes: HashMap<AgentId, HierarchyNode>,
    root: Option<AgentId>,
}

impl View for AgentHierarchy {
    type V = HierarchyView;

    closed spec fn view(&self) -> HierarchyView {
        HierarchyView {
            nodes: Map::new(
                |k: AgentId| self.nodes@.contains_key(k),
                |k: AgentId| self.nodes@[k]@,
            ),
            root: self.root,
        }
    }
}

impl AgentHierarchy {
    /// A hierarchy has finitely many nodes.
    pub proof fn lemma_finite(&self)
        ensures
            self@.nodes.dom().finite(),
    {
        assert(self@.nodes.dom() =~= self.nodes@.dom());
    }

    /// An empty hierarchy.
    pub fn new() -> (h: Self)
        ensures
            h@ == HierarchyView::empty(),
    {
        let h = AgentHierarchy { nodes: HashMap::new(), root: None };
        proof {
            assert(h@.nodes =~= Map::<AgentId, NodeView>::empty());
        }
        h
    }

    /// Inserts `agent_id` below `parent_id`, or as the root if there is
    /// no parent.
    pub fn add_agent(&mut self, agent_id: AgentId, role: AgentRole, parent_id: Option<AgentId>)
        ensures
            final(self)@ == old(self)@.add(agent_id, role, parent_id),
    {
        if parent_id.is_none() {
            self.root = Some(agent_id);
        }
        if let Some(pid) = parent_id {
            match self.nodes.remove(&pid) {
                Some(parent) => {
                    let mut parent = parent;
                    parent.children.push(agent_id);
                    self.nodes.insert(pid, parent);
                },
                None => {},
            }
        }
        let node = HierarchyNode { role, parent: parent_id, children: Vec::new() };
        self.nodes.insert(agent_id, node);
        proof {
            assert(final(self)@.nodes =~= old(self)@.add(agent_id, role, parent_id).nodes);
        }
    }

    /// Removes `agent_id`; says whether it was there.
    pub fn remove_agent(&mut self, agent_id: &AgentId) -> (removed: bool)
        ensures
            removed == old(self)@.contains(*agent_id),
            final(self)@ == old(self)@.remove(*agent_id),
    {
        match self.nodes.remove(agent_id) {
            Some(node) => {
                if let Some(pid) = node.parent {
                    match self.nodes.remove(&pid) {
                        Some(parent) => {
                            let mut parent = parent;
                            parent.children = vec_without(&parent.children, *agent_id);
                            self.nodes.insert(pid, parent);
                        },
                        None => {},
                    }
                }
                if self.root == Some(*agent_id) {
                    self.root = None;
                }
                proof {
                    assert(final(self)@.nodes =~= old(self)@.remove(*agent_id).nodes);
                }
                true
            },
            None => {
                proof {
                    assert(final(self)@.nodes =~= old(self)@.nodes);
                }
                false
            },
        }
    }

    /// The root, if any.
    pub fn root(&self) -> (r: Option<AgentId>)
        ensures
            r == self@.root,
    {
        self.root
    }

    /// Parent of `agent_id`; `None` for a root and for an unknown id.
    pub fn parent(&self, agent_id: &AgentId) -> (p: Option<AgentId>)
        ensures
            p == self@.parent(*agent_id),
    {
        match self.nodes.get(agent_id) {
            Some(node) => node.parent,
            None => None,
        }
    }

    /// Children of `agent_id`; empty for an unknown id.
    pub fn children(&self, agent_id: &AgentId) -> (c: Vec<AgentId>)
        ensures
            c@ == self@.children(*agent_id),
    {
        match self.nodes.get(agent_id) {
            Some(node) => clone_ids(&node.children),
            None => Vec::new(),
        }
    }

    /// Depth of `agent_id`: hops up the parent links; 0 for an unknown id.
    pub fn depth(&self, agent_id: &AgentId) -> (d: usize)
        ensures
            d == self@.depth(*agent_id),
    {
        let bound: usize = self.nodes.len();
        let mut depth: usize = 0;
        let mut current: AgentId = *agent_id;
        proof {
            assert(self@.nodes.dom() =~= self.nodes@.dom());
        }
        while depth < bound
            invariant
                bound == self@.nodes.dom().len(),
                depth <= bound,
                depth + self@.walk(current, (bound - depth) as nat) == self@.depth(*agent_id),
            decreases bound - depth,
        {
            let ghost fuel = (bound - depth) as nat;
            match self.nodes.get(&current) {
                Some(node) => match node.parent {
                    Some(p) => {
                        current = p;
                        depth += 1;
                    },
                    None => {
                        return depth;
                    },
                },
                None => {
                    return depth;
                },
            }
        }
        depth
    }

    /// The identities at depth `depth`, each once, in no particular order.
    pub fn agents_at_depth(&self, depth: usize) -> (r: Vec<AgentId>)
        ensures
            r@.no_duplicates(),
            forall|id: AgentId|
                r@.contains(id) <==> self@.contains(id) && self@.depth(id) == depth,
    {
        let mut r: Vec<AgentId> = Vec::new();
        let ghost all = spec_keys_iter(&self.nodes).remaining();
        let ghost mut from: Seq<int> = Seq::empty();
        proof {
            assert(self@.nodes.dom() =~= self.nodes@.dom());
        }
        for k in it: self.nodes.keys()
            invariant
                it.seq() == all,
                all.no_duplicates(),
                all.unref().to_set() == self.nodes@.dom(),
                r@.no_duplicates(),
                from.len() == r@.len(),
                forall|i: int|
                    0 <= i < from.len() ==> 0 <= #[trigger] from[i] < it.index() && *all[from[i]]
                        == r@[i] && self@.depth(r@[i]) == depth,
                forall|j: int|
                    0 <= j < it.index() && self@.depth(*#[trigger] all[j]) == depth ==> exists|i: int|
                        0 <= i < r@.len() && r@[i] == *all[j],
        {
            let ghost idx = it.index();
            let ghost before = r@;
            let ghost before_from = from;
            assert(*k == *all[idx]);
            if self.depth(k) == depth {
                proof {
                    assert forall|i: int| 0 <= i < r@.len() implies r@[i] != *k by {
                        let j = from[i];
                        assert(0 <= j < idx);
                        assert(all[j] != all[idx]);
                    }
                }
                r.push(*k);
                proof {
                    from = from.push(idx);
                    assert forall|i: int| 0 <= i < from.len() implies 0 <= #[trigger] from[i] < idx
                        + 1 && *all[from[i]] == r@[i] && self@.depth(r@[i]) == depth by {
                        if i < before.len() {
                            assert(from[i] == before_from[i]);
                            assert(r@[i] == before[i]);
                        }
                    }
                    assert forall|j: int|
                        0 <= j < idx + 1 && self@.depth(*#[trigger] all[j]) == depth implies exists|
                        i: int,
                    | 0 <= i < r@.len() && r@[i] == *all[j] by {
                        if j < idx {
                            let i = choose|i: int| 0 <= i < before.len() && before[i] == *all[j];
                            assert(r@[i] == *all[j]);
                        } else {
                            assert(r@[before.len() as int] == *all[j]);
                        }
                    }
                }
            }
        }
        proof {
            assert forall|id: AgentId|
                r@.contains(id) <==> self@.contains(id) && self@.depth(id) == depth by {
                if r@.contains(id) {
                    let i = choose|i: int| 0 <= i < r@.len() && r@[i] == id;
                    let j = from[i];
                    assert(all.unref()[j] == id);
                    assert(all.unref().to_set().contains(id));
                }
                if self@.contains(id) && self@.depth(id) == depth {
                    assert(all.unref().to_set().contains(id));
                    let j = choose|j: int| 0 <= j < all.unref().len() && all.unref()[j] == id;
                    assert(*all[j] == id);
                }
            }
        }
        r
    }

    /// The tree below the root with the live status of each agent, as
    /// deep as the hierarchy has nodes. An empty hierarchy gives a single
    /// terminated worker under a newly drawn identity.
    pub fn to_tree(&self, agents: &HashMap<AgentId, Agent>) -> (t: AgentTree)
        ensures
            match self@.root {
                Some(r) => is_tree_of(t, self@, agents@, r, self@.nodes.dom().len()),
                None => is_placeholder(t, t.agent_id),
            },
    {
        let placeholder = match self.root {
            Some(r) => r,
            None => fresh_identity(),
        };
        self.to_tree_with(agents, placeholder)
    }

    /// The tree below the root with the live status of each agent, as
    /// deep as the hierarchy has nodes. An empty hierarchy gives a single
    /// terminated worker under the identity `placeholder`.
    pub fn to_tree_with(&self, agents: &HashMap<AgentId, Agent>, placeholder: AgentId) -> (t:
        AgentTree)
        ensures
            match self@.root {
                Some(r) => is_tree_of(t, self@, agents@, r, self@.nodes.dom().len()),
                None => is_placeholder(t, placeholder),
            },
    {
        proof {
            assert(self@.nodes.dom() =~= self.nodes@.dom());
        }
        match self.root {
            Some(id) => self.build_tree_node(id, agents, self.nodes.len()),
            None => AgentTree {
                agent_id: placeholder,
                role: AgentRole::Worker,
                status: AgentStatus::Terminated,
                task_summary: None,
                children: Vec::new(),
            },
        }
    }

    /// The tree below `id`, down to `levels` levels of children.
    fn build_tree_node(&self, id: AgentId, agents: &HashMap<AgentId, Agent>, levels: usize) -> (t:
        AgentTree)
        ensures
            is_tree_of(t, self@, agents@, id, levels as nat),
        decreases levels,
    {
        let status = match agents.get(&id) {
            Some(agent) => agent.status(),
            None => AgentStatus::Terminated,
        };
        let mut children: Vec<AgentTree> = Vec::new();
        let role = match self.nodes.get(&id) {
            Some(node) => {
                if levels > 0 {
                    let mut i: usize = 0;
                    while i < node.children.len()
                        invariant
                            i <= node.children.len(),
                            levels > 0,
                            node.children@ == self@.children(id),
                            children@.len() == i,
                            forall|j: int|
                                0 <= j < i ==> is_tree_of(
                                    #[trigger] children@[j],
                                    self@,
                                    agents@,
                                    self@.children(id)[j],
                                    (levels - 1) as nat,
                                ),
                        decreases node.children.len() - i,
                    {
                        let child = self.build_tree_node(node.children[i], agents, levels - 1);
                        children.push(child);
                        i += 1;
                    }
                }
                node.role.clone()
            },
            None => AgentRole::default(),
        };
        AgentTree { agent_id: id, role, status, task_summary: None, children }
    }

    /// Number of nodes.
    pub fn len(&self) -> (n: usize)
        ensures
            n == self@.nodes.dom().len(),
    {
        proof {
            assert(self@.nodes.dom() =~= self.nodes@.dom());
        }
        self.nodes.len()
    }

    /// Whether there is no node.
    pub fn is_empty(&self) -> (e: bool)
        ensures
            e == (self@.nodes.dom().len() == 0),
    {
        proof {
            assert(self@.nodes.dom() =~= self.nodes@.dom());
        }
        self.nodes.len() == 0
    }
}

impl Default for AgentHierarchy {
    fn default() -> (h: Self)
        ensures
            h@ == HierarchyView::empty(),
    {
        AgentHierarchy::new()
    }
}

} // verus!
