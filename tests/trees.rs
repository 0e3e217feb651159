use enemy_ai::model::{Behavior, BehaviorTree, BehaviorTreeTrait, Node, NodeTrait};
use enemy_ai::trees::{
    get_aggressive_enemy_behaviors, get_elusive_enemy_behaviors, get_normal_behaviors,
    AggressiveEnemyBehaviorTree, ElusiveEnemyBehaviorTree, NormalEnemyBehaviorTree,
};

fn check_tree(root: &Node, nodes: &[Node]) {
    let mut all = vec![*root];
    all.extend_from_slice(nodes);
    // unique ids
    for i in 0..all.len() {
        for j in 0..all.len() {
            if i != j {
                assert_ne!(all[i].id, all[j].id);
            }
        }
    }
    assert_eq!(root.parent, None);
    // every child id resolves to a node whose parent is this node; no unary branching
    for n in &all {
        if let Some((l, r)) = n.children {
            assert_ne!(l, r);
            for c in [l, r] {
                let child = nodes.iter().find(|x| x.id == c).expect("child resolves");
                assert_eq!(child.parent, Some(n.id));
            }
        }
    }
    // every non-root node is named as a child exactly once, by its parent
    for n in nodes {
        let namers: Vec<&Node> = all
            .iter()
            .filter(|p| matches!(p.children, Some((l, r)) if l == n.id || r == n.id))
            .collect();
        assert_eq!(namers.len(), 1);
        assert_eq!(Some(namers[0].id), n.parent);
        assert!(n.parent.unwrap() < n.id);
    }
}

#[test]
fn static_trees_are_well_formed() {
    for b in [get_normal_behaviors(), get_aggressive_enemy_behaviors(), get_elusive_enemy_behaviors()] {
        check_tree(&b.root, &b.nodes);
    }
}

#[test]
fn normal_table_matches_topology() {
    let b = get_normal_behaviors();
    assert_eq!(b.root.name, Behavior::Idle);
    assert_eq!(b.root.children, Some((1, 2)));
    assert_eq!(b.nodes.len(), 10);
    assert_eq!(b.nodes[0].name, Behavior::MoveToRandom);
    assert_eq!(b.nodes[0].children, Some((3, 4)));
    assert_eq!(b.nodes[1].name, Behavior::MoveToPlayer);
    assert_eq!(b.nodes[1].children, Some((5, 6)));
    assert_eq!(b.nodes[2].name, Behavior::AttackRandom);
    assert_eq!(b.nodes[3].name, Behavior::MoveToPlayer);
    assert_eq!(b.nodes[3].children, Some((9, 10)));
    assert_eq!(b.nodes[8].name, Behavior::Dodge);
    assert_eq!(b.nodes[9].name, Behavior::AttackPlayer);
}

#[test]
fn aggressive_and_elusive_share_shape() {
    let a = get_aggressive_enemy_behaviors();
    let e = get_elusive_enemy_behaviors();
    assert_eq!(a.nodes.len(), 6);
    assert_eq!(e.nodes.len(), 6);
    for i in 0..6 {
        assert_eq!(a.nodes[i].id, e.nodes[i].id);
        assert_eq!(a.nodes[i].parent, e.nodes[i].parent);
        assert_eq!(a.nodes[i].children, e.nodes[i].children);
    }
    assert_eq!(a.nodes[0].name, Behavior::MoveToPlayer);
    assert_eq!(a.nodes[1].name, Behavior::AttackPlayer);
    assert_eq!(e.nodes[0].name, Behavior::RunAway);
    assert_eq!(e.nodes[1].name, Behavior::Dodge);
}

#[test]
fn lookups_on_normal_tree() {
    let t = NormalEnemyBehaviorTree::new();
    assert_eq!(t.get_root().get_name(), Behavior::Idle);
    assert_eq!(t.get_root().get_id(), 0);
    assert_eq!(t.get_node_children(0), Some((1, 2)));
    assert_eq!(t.get_node_children(4), Some((9, 10)));
    assert_eq!(t.get_node_children(7), None);
    assert_eq!(t.get_next_behaviors(0), None);
    assert_eq!(t.get_next_behaviors(3), Some((7, 8)));
    assert_eq!(t.get_node_name(3), Some(Behavior::AttackRandom));
    assert_eq!(t.get_node_name(42), None);
    assert_eq!(t.get_node_parent(10), Some(4));
    assert_eq!(t.get_node(5).map(|n| n.get_name()), Some(Behavior::Dodge));
    assert!(t.get_node(0).is_none());
    assert!(t.get_node(11).is_none());
    assert_eq!(t.get_current_node(), 0);
}

#[test]
fn lookups_on_other_trees() {
    let a = AggressiveEnemyBehaviorTree::new();
    assert_eq!(a.get_node_name(4), Some(Behavior::AttackPlayer));
    assert_eq!(a.get_node_children(2), Some((5, 6)));
    assert_eq!(a.get_node_children(5), None);
    let e = ElusiveEnemyBehaviorTree::new();
    assert_eq!(e.get_node_name(1), Some(Behavior::RunAway));
    assert_eq!(e.get_node_parent(6), Some(2));
    assert_eq!(e.get_node_children(99), None);
}

#[test]
fn custom_tree_lookups() {
    let root = Node::new(0, Behavior::Idle, None, Some((1, 2)));
    let nodes = vec![
        <Node as NodeTrait>::new(1, Behavior::RunAway, Some(0), None),
        <Node as NodeTrait>::new(2, Behavior::Dodge, Some(0), None),
        <Node as NodeTrait>::new(2, Behavior::AttackPlayer, Some(0), None),
    ];
    let t = BehaviorTree::new(root, nodes);
    assert_eq!(t.get_root().get_children(), Some((1, 2)));
    // the first entry with an id wins
    assert_eq!(t.get_node_name(2), Some(Behavior::Dodge));
    assert_eq!(t.get_node_children(0), Some((1, 2)));
    assert_eq!(t.get_node_children(1), None);
    assert_eq!(t.get_node_parent(1), Some(0));
    assert_eq!(t.get_current_node(), 0);
}
