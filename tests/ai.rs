use enemy_ai::ai::{
    execute_behavior, ActionResult, AggressiveEnemyAI, DecisionError, ElusiveEnemyAI, EnemyAi,
    NormalEnemyAI,
};
use enemy_ai::actors::ActorType;
use enemy_ai::model::{Behavior, BehaviorTreeType};

fn dist2(a: (i32, i32), b: (i32, i32)) -> i128 {
    let dx = b.0 as i128 - a.0 as i128;
    let dy = b.1 as i128 - a.1 as i128;
    dx * dx + dy * dy
}

#[test]
fn fresh_normal_ai_first_step() {
    let mut ai = NormalEnemyAI::new();
    assert_eq!(ai.current_action().behavior, Behavior::Idle);
    assert_eq!(ai.queued(), 3);
    // at time 0 the dwell time is not yet up
    let r = ai.perform_action(0, (100, 100), (0, 0), 50, vec![]);
    assert_eq!(r, Ok(ActionResult { enemy_position: (0, 0), enemy_target: (100, 100), is_attacking: false }));
    assert_eq!(ai.current_action().behavior, Behavior::Idle);
    let r = ai.perform_action(1000, (100, 100), (0, 0), 50, vec![]);
    assert_eq!(r, Ok(ActionResult { enemy_position: (0, 0), enemy_target: (100, 100), is_attacking: false }));
    let next = ai.current_action().behavior;
    assert!(next == Behavior::MoveToRandom || next == Behavior::MoveToPlayer);
    assert_eq!(ai.queued(), 3);
}

#[test]
fn attack_player_targets_player() {
    let r = execute_behavior(
        BehaviorTreeType::NormalEnemy,
        Behavior::AttackPlayer,
        (500, 500),
        (0, 0),
        50,
        vec![],
    );
    assert_eq!(r, ActionResult { enemy_position: (0, 0), enemy_target: (500, 500), is_attacking: true });
}

#[test]
fn fixed_rules() {
    let k = BehaviorTreeType::ElusiveEnemy;
    assert_eq!(
        execute_behavior(k, Behavior::Idle, (5, 6), (1, 2), 10, vec![]),
        ActionResult { enemy_position: (1, 2), enemy_target: (5, 6), is_attacking: false }
    );
    assert_eq!(
        execute_behavior(k, Behavior::MoveToPlayer, (5, 6), (1, 2), 10, vec![]),
        ActionResult { enemy_position: (5, 6), enemy_target: (5, 6), is_attacking: false }
    );
    assert_eq!(
        execute_behavior(k, Behavior::RunAway, (30, 40), (0, 0), 10, vec![]),
        ActionResult { enemy_position: (-6, -8), enemy_target: (30, 40), is_attacking: false }
    );
    assert_eq!(
        execute_behavior(k, Behavior::RunAway, (1, 1), (0, 0), 50, vec![]),
        ActionResult { enemy_position: (-35, -35), enemy_target: (1, 1), is_attacking: false }
    );
}

#[test]
fn random_rules_stay_in_their_regions() {
    for _ in 0..100 {
        let r = execute_behavior(BehaviorTreeType::NormalEnemy, Behavior::MoveToRandom, (9, 9), (2500, -50), 10, vec![]);
        assert!(-1000 <= r.enemy_position.0 && r.enemy_position.0 < 3500);
        assert!(-1050 <= r.enemy_position.1 && r.enemy_position.1 < 1080);
        assert_eq!(r.enemy_target, (9, 9));
        assert!(!r.is_attacking);
        let r = execute_behavior(BehaviorTreeType::NormalEnemy, Behavior::AttackRandom, (400, 300), (7, 7), 10, vec![]);
        assert_eq!(r.enemy_position, (7, 7));
        assert!(r.is_attacking);
        assert!(dist2((400, 300), r.enemy_target) <= 500 * 500);
        let r = execute_behavior(BehaviorTreeType::AggressiveEnemy, Behavior::Dodge, (0, 0), (50, 50), 10, vec![(52, 50)]);
        assert!(dist2((50, 50), r.enemy_position) <= 500 * 500);
    }
}

#[test]
fn elusive_dodge_flees_projectile() {
    let r = execute_behavior(BehaviorTreeType::ElusiveEnemy, Behavior::Dodge, (0, 0), (0, 0), 50, vec![(10, 0)]);
    assert_eq!(r, ActionResult { enemy_position: (-50, 0), enemy_target: (0, 0), is_attacking: false });
}

#[test]
fn dwell_time_holds_state() {
    let mut ai = AggressiveEnemyAI::new();
    assert_eq!(ai.last_result(), None);
    // at t = 1000 every never-performed action is due; drive until the
    // current one was performed at t
    let t: u128 = 1000;
    let mut last = None;
    for _ in 0..50 {
        if ai.current_action().last_performed == t {
            break;
        }
        last = Some(ai.perform_action(t, (1, 1), (0, 0), 10, vec![]).unwrap());
    }
    assert_eq!(ai.current_action().last_performed, t);
    assert_eq!(ai.last_result(), last);
    let cur2 = ai.current_action();
    let n2 = ai.queued();
    // within the dwell time the previous result comes back unchanged,
    // whatever the inputs
    let a = ai.perform_action(t + 500, (3, 4), (5, 6), 10, vec![]);
    let b = ai.perform_action(t + 500, (3, 4), (5, 6), 10, vec![]);
    assert_eq!(a, Ok(last.unwrap()));
    assert_eq!(b, Ok(last.unwrap()));
    assert_eq!(ai.current_action(), cur2);
    assert_eq!(ai.queued(), n2);
}

#[test]
fn held_result_before_any_step() {
    let mut ai = NormalEnemyAI::new();
    let r = ai.perform_action(10, (3, 4), (5, 6), 10, vec![]);
    assert_eq!(r, Ok(ActionResult { enemy_position: (5, 6), enemy_target: (3, 4), is_attacking: false }));
    assert_eq!(ai.last_result(), None);
}

#[test]
fn attack_intent_persists_within_dwell_time() {
    let mut found = false;
    for _ in 0..20 {
        let mut ai = AggressiveEnemyAI::new();
        for k in 1..60u128 {
            let t = k * 1000;
            let r = ai.perform_action(t, (500, 500), (0, 0), 10, vec![]).unwrap();
            if r.is_attacking {
                // a time at which the new current action is not yet due
                let t2 = ai.current_action().last_performed + 999;
                let again = ai.perform_action(t2, (500, 500), (0, 0), 10, vec![]);
                assert_eq!(again, Ok(r));
                let again = ai.perform_action(t2, (500, 500), (0, 0), 10, vec![]);
                assert_eq!(again, Ok(r));
                assert!(r.is_attacking);
                found = true;
                break;
            }
        }
        if found {
            break;
        }
    }
    assert!(found);
}

#[test]
fn clock_behind_last_action_is_an_error() {
    let mut ai = ElusiveEnemyAI::new();
    let t: u128 = 1000;
    for _ in 0..50 {
        if ai.current_action().last_performed == t {
            break;
        }
        ai.perform_action(t, (1, 1), (0, 0), 10, vec![]).unwrap();
    }
    assert_eq!(ai.current_action().last_performed, t);
    let before = ai.current_action();
    assert_eq!(ai.perform_action(t - 1, (1, 1), (0, 0), 10, vec![]), Err(DecisionError::TimeBeforeLastAction));
    assert_eq!(ai.current_action(), before);
}

#[test]
fn tagged_ai_dispatches() {
    for kind in [BehaviorTreeType::NormalEnemy, BehaviorTreeType::AggressiveEnemy, BehaviorTreeType::ElusiveEnemy] {
        let mut ai = EnemyAi::new(kind);
        assert_eq!(ai.kind(), kind);
        assert_eq!(ai.current_action().behavior, Behavior::Idle);
        let r = ai.perform_action(1000, (100, 100), (0, 0), 50, vec![]).unwrap();
        assert_eq!(r.enemy_position, (0, 0));
        assert!(ai.current_action().node_id == 1 || ai.current_action().node_id == 2);
        for t in 2..30u128 {
            let r = ai.perform_action(t * 1000, (100, 100), (0, 0), 50, vec![(5, 5)]);
            assert!(r.is_ok());
        }
    }
}

#[test]
fn actor_types_compare() {
    assert_eq!(ActorType::BossEnemy, ActorType::BossEnemy);
    assert_ne!(ActorType::Enemy, ActorType::BossEnemy);
}
