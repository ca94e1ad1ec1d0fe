use vstd::prelude::*;

use crate::time::Span;

verus! {

/// Identity of an entity of the game world, by the bits of its handle.
#[derive(Debug, Clone, Copy, PartialEq, Eq, Structural)]
pub struct EntityId {
    pub bits: u64,
}

/// Which kind of body a collider belongs to.
#[derive(Debug, Clone, Copy, PartialEq, Eq, Structural)]
pub enum CollisionLayer {
    Ship,
    Bullet,
}

/// Drawing layers, from the back of the scene to the front.
#[derive(Debug, Clone, Copy, PartialEq, Eq, PartialOrd, Ord, Structural)]
pub enum RenderLayer {
    Background,
    Boundary,
    Nebula,
    Bullet,
    Ship,
    Effect,
}

/// What a ship's pilot is doing.
#[derive(Debug, Clone, Copy, PartialEq, Eq, Structural)]
pub enum AiBehaviorState {
    Idle,
    Seeking,
    Chasing,
    Attacking,
    Retreating,
}

/// The pilot's memory: its behaviour, its current target and the time the
/// target has been held.
#[derive(Debug, Clone, Copy, PartialEq, Eq, Structural)]
pub struct AiState {
    pub current_state: AiBehaviorState,
    pub target: Option<EntityId>,
    pub target_lock_timer: Span,
}

impl Default for AiState {
    /// An idle pilot with no target.
    fn default() -> (r: Self)
        ensures
            r.current_state == AiBehaviorState::Idle,
            r.target is None,
            r.target_lock_timer.nanos == 0,
    {
        AiState {
            current_state: AiBehaviorState::Idle,
            target: None,
            target_lock_timer: Span::zero(),
        }
    }
}

/// A ship's gun: the time between shots and the time left before the next.
#[derive(Debug, Clone, Copy, PartialEq, Eq, Structural)]
pub struct Weapon {
    pub cooldown: Span,
    pub remaining_cooldown: Span,
    pub active: bool,
}

/// Time left until a destroyed ship comes back.
#[derive(Debug, Clone, Copy, PartialEq, Eq, Structural)]
pub struct RespawnTimer {
    pub remaining: Span,
}

impl RespawnTimer {
    /// A timer that runs out after `delay`.
    pub fn new(delay: Span) -> (r: Self)
        ensures
            r.remaining == delay,
    {
        RespawnTimer { remaining: delay }
    }
}

} // verus!
