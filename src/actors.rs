//! Kinds of actors on the field.
use vstd::prelude::*;

verus! {

/// What an actor is: the player, an enemy, a boss, or a projectile fired by
/// one side.
#[derive(Debug, Clone, Copy, PartialEq, Eq, Hash, Structural)]
pub enum ActorType {
    Player,
    Enemy,
    BossEnemy,
    PlayerProjectile,
    EnemyProjectile,
}

} // verus!
