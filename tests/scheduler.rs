use enemy_ai::model::{Behavior, BehaviorTreeTrait};
use enemy_ai::scheduler::{
    child_actions_in_order, get_next_child_actions, ActionQueue, ActionScheduler, BehaviorAction,
};
use enemy_ai::trees::NormalEnemyBehaviorTree;

fn action(node_id: u32, last_performed: u128) -> BehaviorAction {
    BehaviorAction { behavior: Behavior::MoveToPlayer, node_id, last_performed }
}

#[test]
fn queue_pops_least_recently_performed_first() {
    let mut q = ActionQueue::new();
    q.push(action(1, 3000));
    q.push(action(2, 1000));
    q.push(action(3, 2000));
    assert_eq!(q.len(), 3);
    assert_eq!(q.pop().map(|a| a.node_id), Some(2));
    assert_eq!(q.pop().map(|a| a.node_id), Some(3));
    assert_eq!(q.pop().map(|a| a.node_id), Some(1));
    assert!(q.is_empty());
    assert_eq!(q.pop(), None);
}

#[test]
fn queue_ties_go_to_last_queued() {
    let mut q = ActionQueue::new();
    q.push(action(1, 0));
    q.push(action(2, 0));
    q.push(action(3, 5));
    q.push(action(4, 0));
    assert_eq!(q.pop().map(|a| a.node_id), Some(4));
    assert_eq!(q.pop().map(|a| a.node_id), Some(2));
    assert_eq!(q.pop().map(|a| a.node_id), Some(1));
    assert_eq!(q.pop().map(|a| a.node_id), Some(3));
}

#[test]
fn drained_queue_yields_idle_fallback() {
    let mut q = ActionQueue::new();
    q.push(action(5, 10));
    q.push(action(6, 20));
    assert_eq!(q.pop_or_idle(777).node_id, 5);
    assert_eq!(q.pop_or_idle(777).node_id, 6);
    let fallback = q.pop_or_idle(777);
    assert_eq!(fallback, BehaviorAction { behavior: Behavior::Idle, node_id: 0, last_performed: 777 });
    assert!(q.is_empty());
}

#[test]
fn child_actions_follow_requested_order() {
    let tree = NormalEnemyBehaviorTree::new().into_tree();
    let cur = BehaviorAction { behavior: Behavior::MoveToRandom, node_id: 1, last_performed: 0 };
    let left = child_actions_in_order(&tree, &cur, 1500, true);
    assert_eq!(
        left,
        vec![
            BehaviorAction { behavior: Behavior::AttackRandom, node_id: 3, last_performed: 1500 },
            BehaviorAction { behavior: Behavior::MoveToPlayer, node_id: 4, last_performed: 1500 },
        ]
    );
    let right = child_actions_in_order(&tree, &cur, 1500, false);
    assert_eq!(right[0].node_id, 4);
    assert_eq!(right[1].node_id, 3);
    let leaf = BehaviorAction { behavior: Behavior::Dodge, node_id: 5, last_performed: 0 };
    assert!(child_actions_in_order(&tree, &leaf, 1500, true).is_empty());
}

#[test]
fn random_child_order_is_one_of_two() {
    let tree = NormalEnemyBehaviorTree::new().into_tree();
    let root = BehaviorAction { behavior: Behavior::Idle, node_id: 0, last_performed: 0 };
    for _ in 0..20 {
        let c = get_next_child_actions(&tree, &root, 42);
        assert_eq!(c.len(), 2);
        let ids = (c[0].node_id, c[1].node_id);
        assert!(ids == (1, 2) || ids == (2, 1));
        assert!(c.iter().all(|a| a.last_performed == 42));
    }
}

#[test]
fn scheduler_seeds_root_and_children() {
    let tree = NormalEnemyBehaviorTree::new().into_tree();
    let s = ActionScheduler::with_order(tree, true);
    assert_eq!(s.current_action(), BehaviorAction { behavior: Behavior::Idle, node_id: 0, last_performed: 0 });
    assert_eq!(s.queued(), 3);
    assert!(!s.is_due(999));
    assert!(s.is_due(1000));
}

#[test]
fn root_children_are_not_pushed_again() {
    let tree = NormalEnemyBehaviorTree::new().into_tree();
    let mut s = ActionScheduler::with_order(tree, true);
    s.advance(1000, true);
    // root re-queued, one action made current: no new children
    assert_eq!(s.queued(), 3);
    // ties among never-performed actions go to the one queued last
    assert_eq!(s.current_action().node_id, 2);
}

#[test]
fn each_node_expands_once() {
    let tree = NormalEnemyBehaviorTree::new().into_tree();
    let mut s = ActionScheduler::with_order(tree, true);
    s.advance(1000, true); // root runs; node 2 current
    assert_eq!(s.current_action().node_id, 2);
    s.advance(2000, true); // node 2 runs and expands: +2 children, +node 2, -1 popped
    assert_eq!(s.queued(), 5);
    // run node 2 again whenever it comes up; its children never come back
    let mut seen_two_again = false;
    for k in 0..40u128 {
        let before = s.queued();
        let cur = s.current_action().node_id;
        s.advance(3000 + k * 1000, k % 2 == 0);
        if cur == 2 {
            seen_two_again = true;
            assert_eq!(s.queued(), before);
        }
    }
    assert!(seen_two_again);
}
