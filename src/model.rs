//! Behavior tags, tree nodes and the lookups on a behavior tree.
use vstd::prelude::*;

verus! {

/// Which static tree (and rule set) an enemy uses.
#[derive(Debug, Clone, Copy, PartialEq, Eq, Structural)]
pub enum BehaviorTreeType {
    NormalEnemy,
    AggressiveEnemy,
    ElusiveEnemy,
}

/// The closed set of atomic behaviors an enemy can be doing.
#[derive(Debug, Clone, Copy, PartialEq, Eq, Structural)]
pub enum Behavior {
    Idle,
    MoveToPlayer,
    MoveToRandom,
    AttackPlayer,
    AttackRandom,
    RunAway,
    Dodge,
}

/// One node of a behavior tree: its id, its behavior, its parent (none for
/// the root) and its pair of children (none for a leaf).
#[derive(Debug, Clone, Copy)]
pub struct Node {
    pub id: u32,
    pub name: Behavior,
    pub parent: Option<u32>,
    pub children: Option<(u32, u32)>,
}

impl Node {
    pub fn new(id: u32, name: Behavior, parent: Option<u32>, children: Option<(u32, u32)>) -> (r:
        Node)
        ensures
            r == (Node { id, name, parent, children }),
    {
        Node { id, name, parent, children }
    }
}

/// Read access to the parts of a node.
pub trait NodeTrait: Sized {
    fn new(id: u32, name: Behavior, parent: Option<u32>, children: Option<(u32, u32)>) -> Self;

    fn get_id(&self) -> u32;

    fn get_name(&self) -> Behavior;

    fn get_parent(&self) -> Option<u32>;

    fn get_children(&self) -> Option<(u32, u32)>;
}

impl NodeTrait for Node {
    fn new(id: u32, name: Behavior, parent: Option<u32>, children: Option<(u32, u32)>) -> (r: Node)
        ensures
            r == (Node { id, name, parent, children }),
    {
        Node { id, name, parent, children }
    }

    fn get_id(&self) -> (r: u32)
        ensures
            r == self.id,
    {
        self.id
    }

    fn get_name(&self) -> (r: Behavior)
        ensures
            r == self.name,
    {
        self.name
    }

    fn get_parent(&self) -> (r: Option<u32>)
        ensures
            r == self.parent,
    {
        self.parent
    }

    fn get_children(&self) -> (r: Option<(u32, u32)>)
        ensures
            r == self.children,
    {
        self.children
    }
}

/// The root of a tree and the table of its other nodes.
pub struct EnemyBehaviors {
    pub root: Node,
    pub nodes: Vec<Node>,
}

/// The first node of `nodes` whose id is `id`, if any.
pub open spec fn lookup(nodes: Seq<Node>, id: u32) -> Option<Node>
    decreases nodes.len(),
{
    if nodes.len() == 0 {
        None
    } else if nodes[0].id == id {
        Some(nodes[0])
    } else {
        lookup(nodes.drop_first(), id)
    }
}

/// The children of node `id`: the root (id 0) always has children 1 and 2;
/// any other id has the children that its table entry gives, and none when
/// the table has no entry for it.
pub open spec fn children_of(nodes: Seq<Node>, id: u32) -> Option<(u32, u32)> {
    if id == 0 {
        Some((1u32, 2u32))
    } else {
        match lookup(nodes, id) {
            Some(n) => n.children,
            None => None,
        }
    }
}

/// What a behavior tree holds, as plain values.
pub struct TreeView {
    pub root: Node,
    pub nodes: Seq<Node>,
    pub current_node: u32,
}

/// A behavior tree: its root, the table of its other nodes, and the node it
/// starts at.
pub struct BehaviorTree {
    root: Node,
    nodes: Vec<Node>,
    current_node: u32,
}

impl View for BehaviorTree {
    type V = TreeView;

    closed spec fn view(&self) -> TreeView {
        TreeView { root: self.root, nodes: self.nodes@, current_node: self.current_node }
    }
}

impl BehaviorTree {
    pub fn new(root: Node, nodes: Vec<Node>) -> (r: BehaviorTree)
        ensures
            r@ == (TreeView { root, nodes: nodes@, current_node: 0 }),
    {
        BehaviorTree { root, nodes, current_node: 0 }
    }

    /// Index of the first table entry with id `id`, if any.
    fn find_index(&self, node_id: u32) -> (r: Option<usize>)
        ensures
            match r {
                Some(i) => i < self@.nodes.len() && lookup(self@.nodes, node_id) == Some(
                    self@.nodes[i as int],
                ),
                None => lookup(self@.nodes, node_id) == None::<Node>,
            },
    {
        let mut i: usize = 0;
        assert(self.nodes@.subrange(0, self.nodes@.len() as int) =~= self.nodes@);
        while i < self.nodes.len()
            invariant
                i <= self.nodes@.len(),
                lookup(self.nodes@.subrange(i as int, self.nodes@.len() as int), node_id) == lookup(
                    self.nodes@,
                    node_id,
                ),
            decreases self.nodes@.len() - i,
        {
            let ghost rest = self.nodes@.subrange(i as int, self.nodes@.len() as int);
            assert(rest[0] == self.nodes@[i as int]);
            if self.nodes[i].id == node_id {
                return Some(i);
            }
            assert(rest.drop_first() =~= self.nodes@.subrange(i + 1, self.nodes@.len() as int));
            i += 1;
        }
        assert(self.nodes@.subrange(i as int, self.nodes@.len() as int).len() == 0);
        None
    }

    pub fn get_root(&self) -> (r: &Node)
        ensures
            *r == self@.root,
    {
        &self.root
    }

    /// The children that the table gives node `node_id`.
    pub fn get_next_behaviors(&self, node_id: u32) -> (r: Option<(u32, u32)>)
        ensures
            r == match lookup(self@.nodes, node_id) {
                Some(n) => n.children,
                None => None,
            },
    {
        match self.find_index(node_id) {
            Some(i) => self.nodes[i].children,
            None => None,
        }
    }

    pub fn get_node(&self, node_id: u32) -> (r: Option<&Node>)
        ensures
            match r {
                Some(n) => lookup(self@.nodes, node_id) == Some(*n),
                None => lookup(self@.nodes, node_id) == None::<Node>,
            },
    {
        match self.find_index(node_id) {
            Some(i) => Some(&self.nodes[i]),
            None => None,
        }
    }

    pub fn get_node_name(&self, node_id: u32) -> (r: Option<Behavior>)
        ensures
            r == match lookup(self@.nodes, node_id) {
                Some(n) => Some(n.name),
                None => None,
            },
    {
        match self.find_index(node_id) {
            Some(i) => Some(self.nodes[i].name),
            None => None,
        }
    }

    pub fn get_node_parent(&self, node_id: u32) -> (r: Option<u32>)
        ensures
            r == match lookup(self@.nodes, node_id) {
                Some(n) => n.parent,
                None => None,
            },
    {
        match self.find_index(node_id) {
            Some(i) => self.nodes[i].parent,
            None => None,
        }
    }

    pub fn get_node_children(&self, node_id: u32) -> (r: Option<(u32, u32)>)
        ensures
            r == children_of(self@.nodes, node_id),
    {
        if node_id == 0 {
            return Some((1, 2));
        }
        self.get_next_behaviors(node_id)
    }

    pub fn get_current_node(&self) -> (r: u32)
        ensures
            r == self@.current_node,
    {
        self.current_node
    }
}

/// Lookups that every static archetype tree offers.
pub trait BehaviorTreeTrait: Sized {
    fn new() -> Self;

    fn get_root(&self) -> &Node;

    fn get_next_behaviors(&self, node_id: u32) -> Option<(u32, u32)>;

    fn get_node(&self, node_id: u32) -> Option<&Node>;

    fn get_node_name(&self, node_id: u32) -> Option<Behavior>;

    fn get_node_parent(&self, node_id: u32) -> Option<u32>;

    fn get_node_children(&self, node_id: u32) -> Option<(u32, u32)>;

    fn get_current_node(&self) -> u32;
}

/// Lookups on a tree built from a table of one's own rather than one of
/// the static archetype tables.
pub trait CustomBehaviorTreeTrait: Sized {
    fn from(behavior_tree: BehaviorTree) -> Self;

    fn get_root(&self) -> &Node;

    fn get_next_behaviors(&self, node_id: u32) -> Option<(u32, u32)>;

    fn get_node(&self, node_id: u32) -> Option<&Node>;

    fn get_node_name(&self, node_id: u32) -> Option<Behavior>;

    fn get_node_parent(&self, node_id: u32) -> Option<u32>;

    fn get_node_children(&self, node_id: u32) -> Option<(u32, u32)>;

    fn get_current_node(&self) -> u32;
}

/// Whether `node` has `id` as one of its two children.
pub open spec fn names_child(node: Node, id: u32) -> bool {
    match node.children {
        Some((l, r)) => l == id || r == id,
        None => false,
    }
}

/// The well-formedness of a tree given by its root and the table of its
/// other nodes:
/// - ids are unique over the root and the table;
/// - the root has no parent and is nobody's child;
/// - a node has either no children or two distinct ones, each of which is
///   a table entry whose parent is that node;
/// - every table entry has a parent with a smaller id that names it as a
///   child, and no other node names it.
/// So every node is reached from the root along exactly one path, and no
/// path runs in a cycle.
pub open spec fn well_formed_tree(root: Node, nodes: Seq<Node>) -> bool {
    let all = seq![root] + nodes;
    &&& forall|i: int, j: int|
        0 <= i < all.len() && 0 <= j < all.len() && i != j ==> (#[trigger] all[i]).id != (
        #[trigger] all[j]).id
    &&& root.parent is None
    &&& forall|i: int| 0 <= i < all.len() ==> !names_child(#[trigger] all[i], root.id)
    &&& forall|i: int|
        0 <= i < all.len() && (#[trigger] all[i]).children is Some ==> {
            let (l, r) = all[i].children->0;
            &&& l != r
            &&& lookup(nodes, l) matches Some(c) && c.parent == Some(all[i].id)
            &&& lookup(nodes, r) matches Some(c) && c.parent == Some(all[i].id)
        }
    &&& forall|k: int|
        0 <= k < nodes.len() ==> {
            &&& (#[trigger] nodes[k]).parent matches Some(p) && p < nodes[k].id
            &&& exists|i: int|
                0 <= i < all.len() && all[i].id == nodes[k].parent->0 && #[trigger] names_child(
                    all[i],
                    nodes[k].id,
                )
            &&& forall|i: int|
                0 <= i < all.len() && names_child(#[trigger] all[i], nodes[k].id) ==> all[i].id
                    == nodes[k].parent->0
        }
}

} // verus!
