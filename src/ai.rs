//! The decision step of each enemy archetype: gate on the dwell time,
//! perform the current behavior, then let the scheduler move on.
use vstd::prelude::*;
use crate::geometry::{
    calculate_dodge_position, flee_position, flee_target, nearest_threat_in, random_dodge_position,
    step_length_ok, within_radius, DODGE_DISTANCE,
};
use crate::model::{lookup, Behavior, BehaviorTree, BehaviorTreeType, BehaviorTreeTrait, TreeView};
use crate::rng::random_in_range;
use crate::scheduler::{
    advance_spec, copies, earliest_index, expands, initial_scheduler, is_due, lemma_run_single_copies,
    run, tree_ok, ActionScheduler, BehaviorAction, SchedulerView,
};
use crate::trees::{
    aggressive_table, elusive_table, idle_root, lemma_static_trees_well_formed, normal_table,
    AggressiveEnemyBehaviorTree, ElusiveEnemyBehaviorTree, NormalEnemyBehaviorTree,
};

verus! {

/// Width of the nominal arena, in game units.
pub const ARENA_WIDTH: i64 = 1920;

/// Height of the nominal arena, in game units.
pub const ARENA_HEIGHT: i64 = 1080;

/// How far beyond its position a random move may take an enemy.
pub const WANDER_REACH: i64 = 1000;

/// What one decision step proposes: where the enemy should head, where it
/// aims, and whether it wants to attack now.
#[derive(Debug, Clone, Copy, PartialEq, Eq)]
pub struct ActionResult {
    pub enemy_position: (i32, i32),
    pub enemy_target: (i32, i32),
    pub is_attacking: bool,
}

/// Why a decision step could not run.
#[derive(Debug, Clone, Copy, PartialEq, Eq, Structural)]
pub enum DecisionError {
    /// The clock reads earlier than the time the current action was last
    /// performed.
    TimeBeforeLastAction,
}

/// The intent that stands while nothing is decided: stay on the current
/// target, aim at the player, do not attack.
pub open spec fn hold_result(player: (i32, i32), enemy: (i32, i32)) -> ActionResult {
    ActionResult { enemy_position: enemy, enemy_target: player, is_attacking: false }
}

/// Lower end of a random coordinate around `c`: `c - reach`, or 0 when
/// that is larger, kept within `i32`.
pub open spec fn span_low(c: int, reach: int) -> int {
    let v = if c - reach < 0 {
        c - reach
    } else {
        0
    };
    if v < i32::MIN {
        i32::MIN as int
    } else {
        v
    }
}

/// Upper end (exclusive) of a random coordinate around `c`: `c + reach`,
/// or `extent` when that is larger, kept within `i32`.
pub open spec fn span_high(c: int, reach: int, extent: int) -> int {
    let v = if c + reach > extent {
        c + reach
    } else {
        extent
    };
    if v > i32::MAX + 1 {
        i32::MAX + 1
    } else {
        v
    }
}

/// The box a random move from `center` lands in: it reaches `WANDER_REACH`
/// beyond `center` and always covers the arena.
pub open spec fn in_wander_box(p: (i32, i32), center: (i32, i32)) -> bool {
    &&& span_low(center.0 as int, WANDER_REACH as int) <= p.0 < span_high(
        center.0 as int,
        WANDER_REACH as int,
        ARENA_WIDTH as int,
    )
    &&& span_low(center.1 as int, WANDER_REACH as int) <= p.1 < span_high(
        center.1 as int,
        WANDER_REACH as int,
        ARENA_HEIGHT as int,
    )
}

/// What performing `behavior` may yield for an enemy of archetype `kind`.
/// Fixed outcomes are given exactly; random ones by the region they fall in.
pub open spec fn rule_allows(
    kind: BehaviorTreeType,
    behavior: Behavior,
    player: (i32, i32),
    enemy: (i32, i32),
    speed: u16,
    projectiles: Seq<(i32, i32)>,
    r: ActionResult,
) -> bool {
    match behavior {
        Behavior::Idle => r == hold_result(player, enemy),
        Behavior::MoveToPlayer => r == ActionResult {
            enemy_position: player,
            enemy_target: player,
            is_attacking: false,
        },
        Behavior::MoveToRandom => {
            &&& r.enemy_target == player
            &&& !r.is_attacking
            &&& in_wander_box(r.enemy_position, enemy)
        },
        Behavior::AttackPlayer => r == ActionResult {
            enemy_position: enemy,
            enemy_target: player,
            is_attacking: true,
        },
        Behavior::AttackRandom => {
            &&& r.enemy_position == enemy
            &&& r.is_attacking
            &&& within_radius(r.enemy_target, player, DODGE_DISTANCE as int)
        },
        Behavior::RunAway => {
            &&& r == ActionResult {
                enemy_position: flee_target(enemy, player, speed),
                enemy_target: player,
                is_attacking: false,
            }
            &&& (player != enemy ==> step_length_ok(enemy, r.enemy_position, speed as int))
        },
        Behavior::Dodge => {
            &&& r.enemy_target == player
            &&& !r.is_attacking
            &&& match (kind, nearest_threat_in(enemy, projectiles)) {
                (BehaviorTreeType::ElusiveEnemy, Some(i)) => {
                    &&& r.enemy_position == flee_target(enemy, projectiles[i], speed)
                    &&& (projectiles[i] != enemy ==> step_length_ok(
                        enemy,
                        r.enemy_position,
                        speed as int,
                    ))
                },
                _ => within_radius(r.enemy_position, enemy, DODGE_DISTANCE as int),
            }
        },
    }
}

/// What an AI holds, as plain values: its scheduler, and the result of the
/// last step that performed an action (none before the first).
pub struct AiView {
    pub scheduler: SchedulerView,
    pub last_result: Option<ActionResult>,
}

/// The intent that stands while the current action is not yet due: the
/// result of the last performed step, or, before any, the held intent.
pub open spec fn standing_result(v: AiView, player: (i32, i32), enemy: (i32, i32)) -> ActionResult {
    match v.last_result {
        Some(r) => r,
        None => hold_result(player, enemy),
    }
}

/// One decision step from state `old` to `new` at `current_time`,
/// returning `r`:
/// - a clock behind the current action's stamp is an error, and nothing
///   changes;
/// - before the dwell time is up, the standing result comes back unchanged
///   and nothing changes;
/// - otherwise the current behavior's rule gives the result, which is kept
///   as the standing one, and the scheduler takes one step (children in
///   either order).
pub open spec fn decision(
    kind: BehaviorTreeType,
    old: AiView,
    new: AiView,
    current_time: u128,
    player: (i32, i32),
    enemy: (i32, i32),
    speed: u16,
    projectiles: Seq<(i32, i32)>,
    r: Result<ActionResult, DecisionError>,
) -> bool {
    if current_time < old.scheduler.current.last_performed {
        r == Err::<ActionResult, DecisionError>(DecisionError::TimeBeforeLastAction) && new == old
    } else if !is_due(old.scheduler.current, current_time) {
        r == Ok::<ActionResult, DecisionError>(standing_result(old, player, enemy)) && new == old
    } else {
        &&& r matches Ok(res) && rule_allows(
            kind,
            old.scheduler.current.behavior,
            player,
            enemy,
            speed,
            projectiles,
            res,
        ) && new.last_result == Some(res)
        &&& (new.scheduler == advance_spec(old.scheduler, current_time, true) || new.scheduler
            == advance_spec(old.scheduler, current_time, false))
    }
}

/// Within the dwell time a decision step changes nothing: it returns the
/// result of the last performed step unchanged (attack intent included),
/// and calling it again returns that same result and still leaves the
/// state as it was.
pub proof fn lemma_dwell_repeat(
    kind: BehaviorTreeType,
    s0: AiView,
    s1: AiView,
    s2: AiView,
    current_time: u128,
    player: (i32, i32),
    enemy: (i32, i32),
    speed: u16,
    projectiles: Seq<(i32, i32)>,
    r1: Result<ActionResult, DecisionError>,
    r2: Result<ActionResult, DecisionError>,
)
    requires
        s0.scheduler.current.last_performed <= current_time,
        !is_due(s0.scheduler.current, current_time),
        decision(kind, s0, s1, current_time, player, enemy, speed, projectiles, r1),
        decision(kind, s1, s2, current_time, player, enemy, speed, projectiles, r2),
    ensures
        s1 == s0,
        s2 == s0,
        r1 == r2,
        r1 == Ok::<ActionResult, DecisionError>(standing_result(s0, player, enemy)),
        s0.last_result matches Some(prev) ==> r1 == Ok::<ActionResult, DecisionError>(prev),
{
}

/// A fresh normal AI stepped at 1000 ms performs its Idle root, queues no
/// children a second time, and makes MoveToRandom or MoveToPlayer (one of
/// the root's children) current, whichever way the coins fall.
pub proof fn lemma_fresh_normal_first_step(seed_order: bool, step_order: bool)
    ensures
        initial_scheduler(tree_view_of(BehaviorTreeType::NormalEnemy), seed_order).current.behavior
            == Behavior::Idle,
        is_due(initial_scheduler(tree_view_of(BehaviorTreeType::NormalEnemy), seed_order).current, 1000),
        ({
            let s = initial_scheduler(tree_view_of(BehaviorTreeType::NormalEnemy), seed_order);
            let n = advance_spec(s, 1000, step_order);
            &&& n.current.behavior == Behavior::MoveToRandom || n.current.behavior
                == Behavior::MoveToPlayer
            &&& n.queue.len() == s.queue.len()
        }),
{
    reveal_with_fuel(lookup, 3);
    reveal_with_fuel(earliest_index, 4);
    let s = initial_scheduler(tree_view_of(BehaviorTreeType::NormalEnemy), seed_order);
    let nodes = normal_table();
    assert(nodes.drop_first()[0] == nodes[1]);
    assert(lookup(nodes, 1) == Some(nodes[0]));
    assert(lookup(nodes, 2) == Some(nodes[1]));
    assert(s.expanded.contains(0u32)) by {
        assert(s.expanded[0] == 0u32);
    }
    assert(!expands(s, 0));
    let q2 = s.queue.push(BehaviorAction { last_performed: 1000, ..s.current });
    assert(q2.len() == 4);
    assert(q2.drop_last() =~= s.queue);
    assert(s.queue.drop_last() =~= seq![s.current, s.queue[1]]);
    assert(seq![s.current, s.queue[1]].drop_last() =~= seq![s.current]);
    assert(earliest_index(q2) == 2);
}

/// For every archetype, however its coins fall and whatever the times of
/// its steps, each node other than the root is held at most once, queued
/// or current: no node's children are ever queued twice.
pub proof fn lemma_archetype_single_copies(
    kind: BehaviorTreeType,
    seed_order: bool,
    steps: Seq<(u128, bool)>,
)
    ensures
        forall|x: u32|
            x != 0 ==> #[trigger] copies(
                run(initial_scheduler(tree_view_of(kind), seed_order), steps),
                x,
            ) <= 1,
{
    lemma_static_trees_well_formed();
    assert(tree_ok(tree_view_of(kind)));
    lemma_run_single_copies(tree_view_of(kind), seed_order, steps);
}

/// A random coordinate in `[span_low, span_high)` around `c`.
fn random_coordinate(c: i32, reach: i64, extent: i64) -> (r: i32)
    requires
        0 <= reach <= 1000,
        0 < extent <= 10000,
    ensures
        span_low(c as int, reach as int) <= r < span_high(c as int, reach as int, extent as int),
{
    let c = c as i64;
    let low = if c - reach < 0 {
        c - reach
    } else {
        0
    };
    let low = if low < i32::MIN as i64 {
        i32::MIN as i64
    } else {
        low
    };
    let high = if c + reach > extent {
        c + reach
    } else {
        extent
    };
    let high = if high > i32::MAX as i64 + 1 {
        i32::MAX as i64 + 1
    } else {
        high
    };
    random_in_range(low, high) as i32
}

/// A random point in the wander box around `center`.
pub fn random_wander_position(center: (i32, i32)) -> (r: (i32, i32))
    ensures
        in_wander_box(r, center),
{
    (
        random_coordinate(center.0, WANDER_REACH, ARENA_WIDTH),
        random_coordinate(center.1, WANDER_REACH, ARENA_HEIGHT),
    )
}

/// Performs `behavior` for an enemy of archetype `kind`.
pub fn execute_behavior(
    kind: BehaviorTreeType,
    behavior: Behavior,
    player_position: (i32, i32),
    enemy_position: (i32, i32),
    speed: u16,
    projectile_positions: Vec<(i32, i32)>,
) -> (r: ActionResult)
    ensures
        rule_allows(
            kind,
            behavior,
            player_position,
            enemy_position,
            speed,
            projectile_positions@,
            r,
        ),
{
    let mut result = ActionResult {
        enemy_position,
        enemy_target: player_position,
        is_attacking: false,
    };
    match behavior {
        Behavior::Idle => {},
        Behavior::MoveToPlayer => {
            result.enemy_position = player_position;
        },
        Behavior::MoveToRandom => {
            result.enemy_position = random_wander_position(enemy_position);
        },
        Behavior::AttackPlayer => {
            result.enemy_target = player_position;
            result.is_attacking = true;
        },
        Behavior::AttackRandom => {
            result.enemy_target = random_dodge_position(player_position);
            result.is_attacking = true;
        },
        Behavior::RunAway => {
            result.enemy_position = flee_position(enemy_position, player_position, speed);
        },
        Behavior::Dodge => {
            result.enemy_position = match kind {
                BehaviorTreeType::ElusiveEnemy => calculate_dodge_position(
                    enemy_position,
                    projectile_positions,
                    speed,
                ),
                _ => random_dodge_position(enemy_position),
            };
        },
    }
    result
}

/// The decision state of one enemy: its scheduler and the result of the
/// last step that performed an action.
pub struct DecisionState {
    scheduler: ActionScheduler,
    last_result: Option<ActionResult>,
}

impl View for DecisionState {
    type V = AiView;

    closed spec fn view(&self) -> AiView {
        AiView { scheduler: self.scheduler@, last_result: self.last_result }
    }
}

impl DecisionState {
    /// A fresh state on `tree`; no action has been performed yet.
    pub fn new(tree: BehaviorTree) -> (r: DecisionState)
        ensures
            r@.scheduler == initial_scheduler(tree@, true) || r@.scheduler == initial_scheduler(
                tree@,
                false,
            ),
            r@.last_result == None::<ActionResult>,
    {
        DecisionState { scheduler: ActionScheduler::new(tree), last_result: None }
    }

    pub fn current_action(&self) -> (r: BehaviorAction)
        ensures
            r == self@.scheduler.current,
    {
        self.scheduler.current_action()
    }

    pub fn queued(&self) -> (r: usize)
        ensures
            r == self@.scheduler.queue.len(),
    {
        self.scheduler.queued()
    }

    /// The result of the last step that performed an action.
    pub fn last_result(&self) -> (r: Option<ActionResult>)
        ensures
            r == self@.last_result,
    {
        self.last_result
    }

    /// One decision step for an enemy of archetype `kind`.
    pub fn decide(
        &mut self,
        kind: BehaviorTreeType,
        current_time: u128,
        player_position: (i32, i32),
        enemy_position: (i32, i32),
        speed: u16,
        projectile_positions: Vec<(i32, i32)>,
    ) -> (r: Result<ActionResult, DecisionError>)
        ensures
            decision(
                kind,
                old(self)@,
                final(self)@,
                current_time,
                player_position,
                enemy_position,
                speed,
                projectile_positions@,
                r,
            ),
    {
        let current = self.scheduler.current_action();
        if current_time < current.last_performed {
            return Err(DecisionError::TimeBeforeLastAction);
        }
        if !self.scheduler.is_due(current_time) {
            return match self.last_result {
                Some(prev) => Ok(prev),
                None => Ok(
                    ActionResult {
                        enemy_position,
                        enemy_target: player_position,
                        is_attacking: false,
                    },
                ),
            };
        }
        let result = execute_behavior(
            kind,
            current.behavior,
            player_position,
            enemy_position,
            speed,
            projectile_positions,
        );
        let left_first = random_in_range(0, 2) == 0;
        self.scheduler.advance(current_time, left_first);
        self.last_result = Some(result);
        Ok(result)
    }
}

pub open spec fn tree_view_of(kind: BehaviorTreeType) -> TreeView {
    TreeView {
        root: idle_root(),
        nodes: match kind {
            BehaviorTreeType::NormalEnemy => normal_table(),
            BehaviorTreeType::AggressiveEnemy => aggressive_table(),
            BehaviorTreeType::ElusiveEnemy => elusive_table(),
        },
        current_node: 0,
    }
}

/// The AI of a normal enemy: a deeper tree that balances movement and combat.
pub struct NormalEnemyAI {
    state: DecisionState,
}

impl View for NormalEnemyAI {
    type V = AiView;

    closed spec fn view(&self) -> AiView {
        self.state@
    }
}

impl NormalEnemyAI {
    /// A fresh AI on its static tree; the root's children are queued in
    /// an order picked by a fair coin.
    pub fn new() -> (r: NormalEnemyAI)
        ensures
            r@.scheduler == initial_scheduler(tree_view_of(BehaviorTreeType::NormalEnemy), true)
                || r@.scheduler == initial_scheduler(tree_view_of(BehaviorTreeType::NormalEnemy), false),
            r@.last_result == None::<ActionResult>,
    {
        let tree = NormalEnemyBehaviorTree::new().into_tree();
        NormalEnemyAI { state: DecisionState::new(tree) }
    }

    /// The action that runs at the next due step.
    pub fn current_action(&self) -> (r: BehaviorAction)
        ensures
            r == self@.scheduler.current,
    {
        self.state.current_action()
    }

    /// How many actions wait in the queue besides the current one.
    pub fn queued(&self) -> (r: usize)
        ensures
            r == self@.scheduler.queue.len(),
    {
        self.state.queued()
    }

    /// The result of the last step that performed an action.
    pub fn last_result(&self) -> (r: Option<ActionResult>)
        ensures
            r == self@.last_result,
    {
        self.state.last_result()
    }

    /// One decision step at `current_time` (ms), given the player's
    /// position, the enemy's current target, its speed and the live
    /// projectiles.
    pub fn perform_action(
        &mut self,
        current_time: u128,
        player_position: (i32, i32),
        enemy_position: (i32, i32),
        speed: u16,
        projectile_positions: Vec<(i32, i32)>,
    ) -> (r: Result<ActionResult, DecisionError>)
        ensures
            decision(
                BehaviorTreeType::NormalEnemy,
                old(self)@,
                final(self)@,
                current_time,
                player_position,
                enemy_position,
                speed,
                projectile_positions@,
                r,
            ),
    {
        self.state.decide(
            BehaviorTreeType::NormalEnemy,
            current_time,
            player_position,
            enemy_position,
            speed,
            projectile_positions,
        )
    }
}

/// The AI of an aggressive enemy: attack leaves two hops from the root.
pub struct AggressiveEnemyAI {
    state: DecisionState,
}

impl View for AggressiveEnemyAI {
    type V = AiView;

    closed spec fn view(&self) -> AiView {
        self.state@
    }
}

impl AggressiveEnemyAI {
    /// A fresh AI on its static tree; the root's children are queued in
    /// an order picked by a fair coin.
    pub fn new() -> (r: AggressiveEnemyAI)
        ensures
            r@.scheduler == initial_scheduler(tree_view_of(BehaviorTreeType::AggressiveEnemy), true)
                || r@.scheduler == initial_scheduler(tree_view_of(BehaviorTreeType::AggressiveEnemy), false),
            r@.last_result == None::<ActionResult>,
    {
        let tree = AggressiveEnemyBehaviorTree::new().into_tree();
        AggressiveEnemyAI { state: DecisionState::new(tree) }
    }

    /// The action that runs at the next due step.
    pub fn current_action(&self) -> (r: BehaviorAction)
        ensures
            r == self@.scheduler.current,
    {
        self.state.current_action()
    }

    /// How many actions wait in the queue besides the current one.
    pub fn queued(&self) -> (r: usize)
        ensures
            r == self@.scheduler.queue.len(),
    {
        self.state.queued()
    }

    /// The result of the last step that performed an action.
    pub fn last_result(&self) -> (r: Option<ActionResult>)
        ensures
            r == self@.last_result,
    {
        self.state.last_result()
    }

    /// One decision step at `current_time` (ms), given the player's
    /// position, the enemy's current target, its speed and the live
    /// projectiles.
    pub fn perform_action(
        &mut self,
        current_time: u128,
        player_position: (i32, i32),
        enemy_position: (i32, i32),
        speed: u16,
        projectile_positions: Vec<(i32, i32)>,
    ) -> (r: Result<ActionResult, DecisionError>)
        ensures
            decision(
                BehaviorTreeType::AggressiveEnemy,
                old(self)@,
                final(self)@,
                current_time,
                player_position,
                enemy_position,
                speed,
                projectile_positions@,
                r,
            ),
    {
        self.state.decide(
            BehaviorTreeType::AggressiveEnemy,
            current_time,
            player_position,
            enemy_position,
            speed,
            projectile_positions,
        )
    }
}

/// The AI of an elusive enemy: evasive leaves, and dodges that flee the
/// nearest projectile.
pub struct ElusiveEnemyAI {
    state: DecisionState,
}

impl View for ElusiveEnemyAI {
    type V = AiView;

    closed spec fn view(&self) -> AiView {
        self.state@
    }
}

impl ElusiveEnemyAI {
    /// A fresh AI on its static tree; the root's children are queued in
    /// an order picked by a fair coin.
    pub fn new() -> (r: ElusiveEnemyAI)
        ensures
            r@.scheduler == initial_scheduler(tree_view_of(BehaviorTreeType::ElusiveEnemy), true)
                || r@.scheduler == initial_scheduler(tree_view_of(BehaviorTreeType::ElusiveEnemy), false),
            r@.last_result == None::<ActionResult>,
    {
        let tree = ElusiveEnemyBehaviorTree::new().into_tree();
        ElusiveEnemyAI { state: DecisionState::new(tree) }
    }

    /// The action that runs at the next due step.
    pub fn current_action(&self) -> (r: BehaviorAction)
        ensures
            r == self@.scheduler.current,
    {
        self.state.current_action()
    }

    /// How many actions wait in the queue besides the current one.
    pub fn queued(&self) -> (r: usize)
        ensures
            r == self@.scheduler.queue.len(),
    {
        self.state.queued()
    }

    /// The result of the last step that performed an action.
    pub fn last_result(&self) -> (r: Option<ActionResult>)
        ensures
            r == self@.last_result,
    {
        self.state.last_result()
    }

    /// One decision step at `current_time` (ms), given the player's
    /// position, the enemy's current target, its speed and the live
    /// projectiles.
    pub fn perform_action(
        &mut self,
        current_time: u128,
        player_position: (i32, i32),
        enemy_position: (i32, i32),
        speed: u16,
        projectile_positions: Vec<(i32, i32)>,
    ) -> (r: Result<ActionResult, DecisionError>)
        ensures
            decision(
                BehaviorTreeType::ElusiveEnemy,
                old(self)@,
                final(self)@,
                current_time,
                player_position,
                enemy_position,
                speed,
                projectile_positions@,
                r,
            ),
    {
        self.state.decide(
            BehaviorTreeType::ElusiveEnemy,
            current_time,
            player_position,
            enemy_position,
            speed,
            projectile_positions,
        )
    }
}

/// An enemy's AI, whichever its archetype.
pub enum EnemyAi {
    Normal(NormalEnemyAI),
    Aggressive(AggressiveEnemyAI),
    Elusive(ElusiveEnemyAI),
}

impl View for EnemyAi {
    type V = AiView;

    closed spec fn view(&self) -> AiView {
        match self {
            EnemyAi::Normal(ai) => ai@,
            EnemyAi::Aggressive(ai) => ai@,
            EnemyAi::Elusive(ai) => ai@,
        }
    }
}

impl EnemyAi {
    pub open spec fn kind_spec(&self) -> BehaviorTreeType {
        match self {
            EnemyAi::Normal(_) => BehaviorTreeType::NormalEnemy,
            EnemyAi::Aggressive(_) => BehaviorTreeType::AggressiveEnemy,
            EnemyAi::Elusive(_) => BehaviorTreeType::ElusiveEnemy,
        }
    }

    /// A fresh AI of archetype `kind`.
    pub fn new(kind: BehaviorTreeType) -> (r: EnemyAi)
        ensures
            r.kind_spec() == kind,
            r@.scheduler == initial_scheduler(tree_view_of(kind), true) || r@.scheduler
                == initial_scheduler(tree_view_of(kind), false),
            r@.last_result == None::<ActionResult>,
    {
        match kind {
            BehaviorTreeType::NormalEnemy => EnemyAi::Normal(NormalEnemyAI::new()),
            BehaviorTreeType::AggressiveEnemy => EnemyAi::Aggressive(AggressiveEnemyAI::new()),
            BehaviorTreeType::ElusiveEnemy => EnemyAi::Elusive(ElusiveEnemyAI::new()),
        }
    }

    pub fn kind(&self) -> (r: BehaviorTreeType)
        ensures
            r == self.kind_spec(),
    {
        match self {
            EnemyAi::Normal(_) => BehaviorTreeType::NormalEnemy,
            EnemyAi::Aggressive(_) => BehaviorTreeType::AggressiveEnemy,
            EnemyAi::Elusive(_) => BehaviorTreeType::ElusiveEnemy,
        }
    }

    pub fn current_action(&self) -> (r: BehaviorAction)
        ensures
            r == self@.scheduler.current,
    {
        match self {
            EnemyAi::Normal(ai) => ai.current_action(),
            EnemyAi::Aggressive(ai) => ai.current_action(),
            EnemyAi::Elusive(ai) => ai.current_action(),
        }
    }

    /// One decision step, dispatched to the archetype's rules.
    pub fn perform_action(
        &mut self,
        current_time: u128,
        player_position: (i32, i32),
        enemy_position: (i32, i32),
        speed: u16,
        projectile_positions: Vec<(i32, i32)>,
    ) -> (r: Result<ActionResult, DecisionError>)
        ensures
            final(self).kind_spec() == old(self).kind_spec(),
            decision(
                old(self).kind_spec(),
                old(self)@,
                final(self)@,
                current_time,
                player_position,
                enemy_position,
                speed,
                projectile_positions@,
                r,
            ),
    {
        match self {
            EnemyAi::Normal(ai) => ai.perform_action(
                current_time,
                player_position,
                enemy_position,
                speed,
                projectile_positions,
            ),
            EnemyAi::Aggressive(ai) => ai.perform_action(
                current_time,
                player_position,
                enemy_position,
                speed,
                projectile_positions,
            ),
            EnemyAi::Elusive(ai) => ai.perform_action(
                current_time,
                player_position,
                enemy_position,
                speed,
                projectile_positions,
            ),
        }
    }
}

} // verus!
