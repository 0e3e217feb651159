//! The three static archetype trees.
use vstd::prelude::*;
use crate::model::{Behavior, BehaviorTree, BehaviorTreeTrait, EnemyBehaviors, Node, TreeView};
use crate::model::{lookup, children_of, names_child, well_formed_tree};

verus! {

pub open spec fn node(id: u32, name: Behavior, parent: Option<u32>, children: Option<(u32, u32)>) -> Node {
    Node { id, name, parent, children }
}

/// The root shared by all three trees: Idle, with children 1 and 2.
pub open spec fn idle_root() -> Node {
    node(0, Behavior::Idle, None, Some((1u32, 2u32)))
}

pub open spec fn normal_table() -> Seq<Node> {
    seq![
        node(1, Behavior::MoveToRandom, Some(0u32), Some((3u32, 4u32))),
        node(2, Behavior::MoveToPlayer, Some(0u32), Some((5u32, 6u32))),
        node(3, Behavior::AttackRandom, Some(1u32), Some((7u32, 8u32))),
        node(4, Behavior::MoveToPlayer, Some(1u32), Some((9u32, 10u32))),
        node(5, Behavior::Dodge, Some(2u32), None),
        node(6, Behavior::AttackPlayer, Some(2u32), None),
        node(7, Behavior::MoveToPlayer, Some(3u32), None),
        node(8, Behavior::AttackPlayer, Some(3u32), None),
        node(9, Behavior::Dodge, Some(4u32), None),
        node(10, Behavior::AttackPlayer, Some(4u32), None),
    ]
}

pub open spec fn aggressive_table() -> Seq<Node> {
    seq![
        node(1, Behavior::MoveToPlayer, Some(0u32), Some((3u32, 4u32))),
        node(2, Behavior::AttackPlayer, Some(0u32), Some((5u32, 6u32))),
        node(3, Behavior::MoveToRandom, Some(1u32), None),
        node(4, Behavior::AttackPlayer, Some(1u32), None),
        node(5, Behavior::MoveToPlayer, Some(2u32), None),
        node(6, Behavior::AttackPlayer, Some(2u32), None),
    ]
}

pub open spec fn elusive_table() -> Seq<Node> {
    seq![
        node(1, Behavior::RunAway, Some(0u32), Some((3u32, 4u32))),
        node(2, Behavior::Dodge, Some(0u32), Some((5u32, 6u32))),
        node(3, Behavior::MoveToRandom, Some(1u32), None),
        node(4, Behavior::Dodge, Some(1u32), None),
        node(5, Behavior::RunAway, Some(2u32), None),
        node(6, Behavior::AttackPlayer, Some(2u32), None),
    ]
}

/// Normal: a root that branches into repositioning and pursuit, with a
/// third level before the attack leaves.
pub fn get_normal_behaviors() -> (r: EnemyBehaviors)
    ensures
        r.root == idle_root(),
        r.nodes@ == normal_table(),
        well_formed_tree(r.root, r.nodes@),
{
    proof {
        lemma_static_trees_well_formed();
    }
    let nodes = vec![
        Node::new(1, Behavior::MoveToRandom, Some(0), Some((3, 4))),
        Node::new(2, Behavior::MoveToPlayer, Some(0), Some((5, 6))),
        Node::new(3, Behavior::AttackRandom, Some(1), Some((7, 8))),
        Node::new(4, Behavior::MoveToPlayer, Some(1), Some((9, 10))),
        Node::new(5, Behavior::Dodge, Some(2), None),
        Node::new(6, Behavior::AttackPlayer, Some(2), None),
        Node::new(7, Behavior::MoveToPlayer, Some(3), None),
        Node::new(8, Behavior::AttackPlayer, Some(3), None),
        Node::new(9, Behavior::Dodge, Some(4), None),
        Node::new(10, Behavior::AttackPlayer, Some(4), None),
    ];
    assert(nodes@ =~= normal_table());
    EnemyBehaviors { root: Node::new(0, Behavior::Idle, None, Some((1, 2))), nodes }
}

/// Aggressive: attack leaves two hops from the root.
pub fn get_aggressive_enemy_behaviors() -> (r: EnemyBehaviors)
    ensures
        r.root == idle_root(),
        r.nodes@ == aggressive_table(),
        well_formed_tree(r.root, r.nodes@),
{
    proof {
        lemma_static_trees_well_formed();
    }
    let nodes = vec![
        Node::new(1, Behavior::MoveToPlayer, Some(0), Some((3, 4))),
        Node::new(2, Behavior::AttackPlayer, Some(0), Some((5, 6))),
        Node::new(3, Behavior::MoveToRandom, Some(1), None),
        Node::new(4, Behavior::AttackPlayer, Some(1), None),
        Node::new(5, Behavior::MoveToPlayer, Some(2), None),
        Node::new(6, Behavior::AttackPlayer, Some(2), None),
    ];
    assert(nodes@ =~= aggressive_table());
    EnemyBehaviors { root: Node::new(0, Behavior::Idle, None, Some((1, 2))), nodes }
}

/// Elusive: the aggressive shape, with evasive behaviors in place of most
/// direct engagement.
pub fn get_elusive_enemy_behaviors() -> (r: EnemyBehaviors)
    ensures
        r.root == idle_root(),
        r.nodes@ == elusive_table(),
        well_formed_tree(r.root, r.nodes@),
{
    proof {
        lemma_static_trees_well_formed();
    }
    let nodes = vec![
        Node::new(1, Behavior::RunAway, Some(0), Some((3, 4))),
        Node::new(2, Behavior::Dodge, Some(0), Some((5, 6))),
        Node::new(3, Behavior::MoveToRandom, Some(1), None),
        Node::new(4, Behavior::Dodge, Some(1), None),
        Node::new(5, Behavior::RunAway, Some(2), None),
        Node::new(6, Behavior::AttackPlayer, Some(2), None),
    ];
    assert(nodes@ =~= elusive_table());
    EnemyBehaviors { root: Node::new(0, Behavior::Idle, None, Some((1, 2))), nodes }
}

/// The tree of the normal archetype.
pub struct NormalEnemyBehaviorTree {
    tree: BehaviorTree,
}

impl View for NormalEnemyBehaviorTree {
    type V = TreeView;

    closed spec fn view(&self) -> TreeView {
        self.tree@
    }
}

impl NormalEnemyBehaviorTree {
    /// The underlying tree, for a scheduler to own.
    pub fn into_tree(self) -> (r: BehaviorTree)
        ensures
            r@ == self@,
    {
        self.tree
    }
}

impl BehaviorTreeTrait for NormalEnemyBehaviorTree {
    fn new() -> (r: NormalEnemyBehaviorTree)
        ensures
            r@ == (TreeView { root: idle_root(), nodes: normal_table(), current_node: 0 }),
    {
        let b = get_normal_behaviors();
        NormalEnemyBehaviorTree { tree: BehaviorTree::new(b.root, b.nodes) }
    }

    fn get_root(&self) -> (r: &Node)
        ensures
            *r == self@.root,
    {
        self.tree.get_root()
    }

    fn get_next_behaviors(&self, node_id: u32) -> (r: Option<(u32, u32)>)
        ensures
            r == match lookup(self@.nodes, node_id) {
                Some(n) => n.children,
                None => None,
            },
    {
        self.tree.get_next_behaviors(node_id)
    }

    fn get_node(&self, node_id: u32) -> (r: Option<&Node>)
        ensures
            match r {
                Some(n) => lookup(self@.nodes, node_id) == Some(*n),
                None => lookup(self@.nodes, node_id) == None::<Node>,
            },
    {
        self.tree.get_node(node_id)
    }

    fn get_node_name(&self, node_id: u32) -> (r: Option<Behavior>)
        ensures
            r == match lookup(self@.nodes, node_id) {
                Some(n) => Some(n.name),
                None => None,
            },
    {
        self.tree.get_node_name(node_id)
    }

    fn get_node_parent(&self, node_id: u32) -> (r: Option<u32>)
        ensures
            r == match lookup(self@.nodes, node_id) {
                Some(n) => n.parent,
                None => None,
            },
    {
        self.tree.get_node_parent(node_id)
    }

    fn get_node_children(&self, node_id: u32) -> (r: Option<(u32, u32)>)
        ensures
            r == children_of(self@.nodes, node_id),
    {
        self.tree.get_node_children(node_id)
    }

    fn get_current_node(&self) -> (r: u32)
        ensures
            r == self@.current_node,
    {
        self.tree.get_current_node()
    }
}

/// The tree of the aggressive archetype.
pub struct AggressiveEnemyBehaviorTree {
    tree: BehaviorTree,
}

impl View for AggressiveEnemyBehaviorTree {
    type V = TreeView;

    closed spec fn view(&self) -> TreeView {
        self.tree@
    }
}

impl AggressiveEnemyBehaviorTree {
    /// The underlying tree, for a scheduler to own.
    pub fn into_tree(self) -> (r: BehaviorTree)
        ensures
            r@ == self@,
    {
        self.tree
    }
}

impl BehaviorTreeTrait for AggressiveEnemyBehaviorTree {
    fn new() -> (r: AggressiveEnemyBehaviorTree)
        ensures
            r@ == (TreeView { root: idle_root(), nodes: aggressive_table(), current_node: 0 }),
    {
        let b = get_aggressive_enemy_behaviors();
        AggressiveEnemyBehaviorTree { tree: BehaviorTree::new(b.root, b.nodes) }
    }

    fn get_root(&self) -> (r: &Node)
        ensures
            *r == self@.root,
    {
        self.tree.get_root()
    }

    fn get_next_behaviors(&self, node_id: u32) -> (r: Option<(u32, u32)>)
        ensures
            r == match lookup(self@.nodes, node_id) {
                Some(n) => n.children,
                None => None,
            },
    {
        self.tree.get_next_behaviors(node_id)
    }

    fn get_node(&self, node_id: u32) -> (r: Option<&Node>)
        ensures
            match r {
                Some(n) => lookup(self@.nodes, node_id) == Some(*n),
                None => lookup(self@.nodes, node_id) == None::<Node>,
            },
    {
        self.tree.get_node(node_id)
    }

    fn get_node_name(&self, node_id: u32) -> (r: Option<Behavior>)
        ensures
            r == match lookup(self@.nodes, node_id) {
                Some(n) => Some(n.name),
                None => None,
            },
    {
        self.tree.get_node_name(node_id)
    }

    fn get_node_parent(&self, node_id: u32) -> (r: Option<u32>)
        ensures
            r == match lookup(self@.nodes, node_id) {
                Some(n) => n.parent,
                None => None,
            },
    {
        self.tree.get_node_parent(node_id)
    }

    fn get_node_children(&self, node_id: u32) -> (r: Option<(u32, u32)>)
        ensures
            r == children_of(self@.nodes, node_id),
    {
        self.tree.get_node_children(node_id)
    }

    fn get_current_node(&self) -> (r: u32)
        ensures
            r == self@.current_node,
    {
        self.tree.get_current_node()
    }
}

/// The tree of the elusive archetype.
pub struct ElusiveEnemyBehaviorTree {
    tree: BehaviorTree,
}

impl View for ElusiveEnemyBehaviorTree {
    type V = TreeView;

    closed spec fn view(&self) -> TreeView {
        self.tree@
    }
}

impl ElusiveEnemyBehaviorTree {
    /// The underlying tree, for a scheduler to own.
    pub fn into_tree(self) -> (r: BehaviorTree)
        ensures
            r@ == self@,
    {
        self.tree
    }
}

impl BehaviorTreeTrait for ElusiveEnemyBehaviorTree {
    fn new() -> (r: ElusiveEnemyBehaviorTree)
        ensures
            r@ == (TreeView { root: idle_root(), nodes: elusive_table(), current_node: 0 }),
    {
        let b = get_elusive_enemy_behaviors();
        ElusiveEnemyBehaviorTree { tree: BehaviorTree::new(b.root, b.nodes) }
    }

    fn get_root(&self) -> (r: &Node)
        ensures
            *r == self@.root,
    {
        self.tree.get_root()
    }

    fn get_next_behaviors(&self, node_id: u32) -> (r: Option<(u32, u32)>)
        ensures
            r == match lookup(self@.nodes, node_id) {
                Some(n) => n.children,
                None => None,
            },
    {
        self.tree.get_next_behaviors(node_id)
    }

    fn get_node(&self, node_id: u32) -> (r: Option<&Node>)
        ensures
            match r {
                Some(n) => lookup(self@.nodes, node_id) == Some(*n),
                None => lookup(self@.nodes, node_id) == None::<Node>,
            },
    {
        self.tree.get_node(node_id)
    }

    fn get_node_name(&self, node_id: u32) -> (r: Option<Behavior>)
        ensures
            r == match lookup(self@.nodes, node_id) {
                Some(n) => Some(n.name),
                None => None,
            },
    {
        self.tree.get_node_name(node_id)
    }

    fn get_node_parent(&self, node_id: u32) -> (r: Option<u32>)
        ensures
            r == match lookup(self@.nodes, node_id) {
                Some(n) => n.parent,
                None => None,
            },
    {
        self.tree.get_node_parent(node_id)
    }

    fn get_node_children(&self, node_id: u32) -> (r: Option<(u32, u32)>)
        ensures
            r == children_of(self@.nodes, node_id),
    {
        self.tree.get_node_children(node_id)
    }

    fn get_current_node(&self) -> (r: u32)
        ensures
            r == self@.current_node,
    {
        self.tree.get_current_node()
    }
}

/// A table whose ids are `1, 2, ...` in order: looking up `id` finds the
/// entry at `id - 1`.
proof fn lemma_lookup_consecutive(nodes: Seq<Node>, base: int)
    requires
        forall|j: int| 0 <= j < nodes.len() ==> (#[trigger] nodes[j]).id == base + j,
    ensures
        forall|id: u32|
            #![trigger lookup(nodes, id)]
            lookup(nodes, id) == if base <= id < base + nodes.len() {
                Some(nodes[id - base])
            } else {
                None
            },
    decreases nodes.len(),
{
    if nodes.len() > 0 {
        let rest = nodes.drop_first();
        assert forall|j: int| 0 <= j < rest.len() implies (#[trigger] rest[j]).id == (base + 1)
            + j by {
            assert(rest[j] == nodes[j + 1]);
        }
        lemma_lookup_consecutive(rest, base + 1);
        assert forall|id: u32| #[trigger]
            lookup(nodes, id) == if base <= id < base + nodes.len() {
                Some(nodes[id - base])
            } else {
                None
            } by {
            if nodes[0].id != id {
                assert(lookup(nodes, id) == lookup(rest, id));
                if base + 1 <= id < base + nodes.len() {
                    assert(rest[id - (base + 1)] == nodes[id - base]);
                }
            }
        }
    }
}

proof fn lemma_small_index(i: int, n: int)
    requires
        0 <= i < n <= 11,
    ensures
        i == 0 || i == 1 || i == 2 || i == 3 || i == 4 || i == 5 || i == 6 || i == 7 || i == 8
            || i == 9 || i == 10,
{
}

spec fn static_table(t: Seq<Node>) -> bool {
    t == normal_table() || t == aggressive_table() || t == elusive_table()
}

proof fn lemma_table_ids(t: Seq<Node>)
    requires
        static_table(t),
    ensures
        2 <= t.len() <= 10,
        forall|j: int| 0 <= j < t.len() ==> (#[trigger] t[j]).id == j + 1,
        forall|i: int|
            0 <= i <= t.len() ==> #[trigger] (seq![idle_root()] + t)[i] == (if i == 0 {
                idle_root()
            } else {
                t[i - 1]
            }),
        forall|i: int| 0 <= i <= t.len() ==> (#[trigger] (seq![idle_root()] + t)[i]).id == i,
{
    let all = seq![idle_root()] + t;
    assert forall|j: int| 0 <= j < t.len() implies (#[trigger] t[j]).id == j + 1 by {
        lemma_small_index(j, t.len() as int);
    }
    assert forall|i: int| 0 <= i < all.len() implies (#[trigger] all[i]).id == i by {
        if i > 0 {
            assert(all[i] == t[i - 1]);
        }
    }
}

proof fn lemma_table_root_unnamed(t: Seq<Node>)
    requires
        static_table(t),
    ensures
        forall|i: int|
            0 <= i <= t.len() ==> !names_child(#[trigger] (seq![idle_root()] + t)[i], 0),
{
    let all = seq![idle_root()] + t;
    lemma_table_ids(t);
    assert forall|i: int| 0 <= i < all.len() implies !names_child(#[trigger] all[i], 0) by {
        lemma_small_index(i, all.len() as int);
    }
}

proof fn lemma_table_children(t: Seq<Node>)
    requires
        static_table(t),
    ensures
        forall|i: int|
            0 <= i <= t.len() && (#[trigger] (seq![idle_root()] + t)[i]).children is Some ==> {
                let all = seq![idle_root()] + t;
                let (l, r) = all[i].children->0;
                &&& l != r
                &&& lookup(t, l) matches Some(c) && c.parent == Some(all[i].id)
                &&& lookup(t, r) matches Some(c) && c.parent == Some(all[i].id)
            },
{
    let all = seq![idle_root()] + t;
    lemma_table_ids(t);
    lemma_lookup_consecutive(t, 1);
    assert forall|i: int|
        0 <= i < all.len() && (#[trigger] all[i]).children is Some implies {
            let (l, r) = all[i].children->0;
            &&& l != r
            &&& lookup(t, l) matches Some(c) && c.parent == Some(all[i].id)
            &&& lookup(t, r) matches Some(c) && c.parent == Some(all[i].id)
        } by {
        lemma_small_index(i, all.len() as int);
    }
}

proof fn lemma_table_parents(t: Seq<Node>)
    requires
        static_table(t),
    ensures
        forall|k: int|
            0 <= k < t.len() ==> {
                let all = seq![idle_root()] + t;
                &&& (#[trigger] t[k]).parent matches Some(p) && p < t[k].id
                &&& exists|i: int|
                    0 <= i < all.len() && all[i].id == t[k].parent->0
                        && #[trigger] names_child(all[i], t[k].id)
                &&& forall|i: int|
                    0 <= i < all.len() && names_child(#[trigger] all[i], t[k].id)
                        ==> all[i].id == t[k].parent->0
            },
{
    let all = seq![idle_root()] + t;
    lemma_table_ids(t);
    assert forall|k: int| 0 <= k < t.len() implies {
        &&& (#[trigger] t[k]).parent matches Some(p) && p < t[k].id
        &&& exists|i: int|
            0 <= i < all.len() && all[i].id == t[k].parent->0 && #[trigger] names_child(
                all[i],
                t[k].id,
            )
        &&& forall|i: int|
            0 <= i < all.len() && names_child(#[trigger] all[i], t[k].id) ==> all[i].id
                == t[k].parent->0
    } by {
        lemma_small_index(k, t.len() as int);
        let p = t[k].parent->0;
        assert(all[p as int].id == p);
        assert(names_child(all[p as int], t[k].id));
        assert forall|i: int|
            0 <= i < all.len() && names_child(#[trigger] all[i], t[k].id) implies all[i].id
            == p by {
            lemma_small_index(i, all.len() as int);
        }
    }
}

proof fn lemma_table_well_formed(t: Seq<Node>)
    requires
        static_table(t),
    ensures
        well_formed_tree(idle_root(), t),
{
    lemma_table_ids(t);
    lemma_table_root_unnamed(t);
    lemma_table_children(t);
    lemma_table_parents(t);
}

/// Each of the three static trees is well formed: every node is reached
/// from the root exactly once, ids are unique, and every child id names an
/// existing node.
pub proof fn lemma_static_trees_well_formed()
    ensures
        well_formed_tree(idle_root(), normal_table()),
        well_formed_tree(idle_root(), aggressive_table()),
        well_formed_tree(idle_root(), elusive_table()),
{
    lemma_table_well_formed(normal_table());
    lemma_table_well_formed(aggressive_table());
    lemma_table_well_formed(elusive_table());
}

} // verus!
