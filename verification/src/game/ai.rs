use vstd::prelude::*;

use crate::config::{enemies, Faction};
use crate::ecs::components::{AiBehaviorState, AiState, EntityId};

verus! {

/// A ship as a pilot sees it when looking for enemies.
#[derive(Debug, Clone, Copy, PartialEq, Eq, Structural)]
pub struct Contact {
    pub entity: EntityId,
    pub faction: Faction,
}

/// `other` is worth engaging for `me`: another ship, of an enemy faction.
pub open spec fn rival(me: Contact, other: Contact) -> bool {
    other.entity != me.entity && enemies(me.faction, other.faction)
}

/// Another ship as seen by a pilot: who it is, its side, and how far away
/// it is, as a key that orders distances (a smaller key is a shorter
/// distance).
#[derive(Debug, Clone, Copy, PartialEq, Eq, Structural)]
pub struct Sighting {
    pub contact: Contact,
    pub distance_key: u32,
}

/// `s` is an enemy that `me` detects: a rival closer than the detection
/// range.
pub open spec fn detected(me: Contact, s: Sighting, range_key: u32) -> bool {
    rival(me, s.contact) && s.distance_key < range_key
}

/// Picks the enemy `me` goes for among `others`: the nearest detected
/// rival, the first one listed where several are equally near. Returns its
/// position in `others`, or `None` when no rival is in range.
pub fn nearest_enemy(me: Contact, others: &Vec<Sighting>, range_key: u32) -> (r: Option<usize>)
    ensures
        r is None ==> forall|i: int| 0 <= i < others@.len() ==> !detected(me, #[trigger] others@[i], range_key),
        r matches Some(k) ==> {
            &&& k < others@.len()
            &&& detected(me, others@[k as int], range_key)
            &&& forall|i: int|
                0 <= i < others@.len() && detected(me, #[trigger] others@[i], range_key) ==> others@[k as int].distance_key
                    <= others@[i].distance_key
            &&& forall|i: int|
                0 <= i < k && detected(me, #[trigger] others@[i], range_key) ==> others@[k as int].distance_key
                    < others@[i].distance_key
        },
{
    let mut best: Option<usize> = None;
    let n = others.len();
    let mut i: usize = 0;
    while i < n
        invariant
            n == others@.len(),
            0 <= i <= n,
            best is None ==> forall|j: int| 0 <= j < i ==> !detected(me, #[trigger] others@[j], range_key),
            best matches Some(k) ==> {
                &&& k < i
                &&& detected(me, others@[k as int], range_key)
                &&& forall|j: int|
                    0 <= j < i && detected(me, #[trigger] others@[j], range_key) ==> others@[k as int].distance_key
                        <= others@[j].distance_key
                &&& forall|j: int|
                    0 <= j < k && detected(me, #[trigger] others@[j], range_key) ==> others@[k as int].distance_key
                        < others@[j].distance_key
            },
        decreases n - i,
    {
        let s = others[i];
        if s.contact.entity != me.entity && me.faction.is_enemy(&s.contact.faction) && s.distance_key < range_key {
            let closer = match best {
                None => true,
                Some(k) => s.distance_key < others[k].distance_key,
            };
            if closer {
                best = Some(i);
            }
        }
        i = i + 1;
    }
    best
}

/// How far away the nearest enemy is: within point-blank range, within
/// attack range, or farther.
#[derive(Debug, Clone, Copy, PartialEq, Eq, Structural)]
pub enum EnemyRange {
    PointBlank,
    Close,
    Far,
}

/// How a pilot moves this tick.
#[derive(Debug, Clone, Copy, PartialEq, Eq, Structural)]
pub enum Maneuver {
    /// Drifts along its idle course, not turning.
    Wander,
    /// Flies away from the enemy, not turning.
    Flee,
    /// Turns to the enemy and backs away from it.
    BackOff,
    /// Turns to the enemy and closes in slowly.
    Approach,
    /// Turns to the enemy and closes in at full speed.
    Pursue,
}

/// A pilot's decision, from its memory, the nearest enemy in sight (with
/// its range) if any, and whether its hull is below the flee threshold.
/// With no enemy in sight it idles; with an enemy it flees when its hull is
/// low, attacks an enemy within attack range and chases one farther away.
/// Attacking or chasing locks onto the enemy; the other choices keep the
/// old target. The lock timer is left as it was.
pub open spec fn ai_decision(
    state: AiState,
    nearest: Option<(EntityId, EnemyRange)>,
    low_health: bool,
) -> (AiState, Maneuver) {
    match nearest {
        None => (AiState { current_state: AiBehaviorState::Idle, ..state }, Maneuver::Wander),
        Some((enemy, range)) => if low_health {
            (AiState { current_state: AiBehaviorState::Retreating, ..state }, Maneuver::Flee)
        } else {
            match range {
                EnemyRange::PointBlank => (
                    AiState { current_state: AiBehaviorState::Attacking, target: Some(enemy), ..state },
                    Maneuver::BackOff,
                ),
                EnemyRange::Close => (
                    AiState { current_state: AiBehaviorState::Attacking, target: Some(enemy), ..state },
                    Maneuver::Approach,
                ),
                EnemyRange::Far => (
                    AiState { current_state: AiBehaviorState::Chasing, target: Some(enemy), ..state },
                    Maneuver::Pursue,
                ),
            }
        },
    }
}

/// Decides a pilot's next behaviour and maneuver (see `ai_decision`).
pub fn ai_decide(state: &AiState, nearest: Option<(EntityId, EnemyRange)>, low_health: bool) -> (r: (
    AiState,
    Maneuver,
))
    ensures
        r == ai_decision(*state, nearest, low_health),
{
    match nearest {
        None => (
            AiState {
                current_state: AiBehaviorState::Idle,
                target: state.target,
                target_lock_timer: state.target_lock_timer,
            },
            Maneuver::Wander,
        ),
        Some((enemy, range)) => {
            if low_health {
                (
                    AiState {
                        current_state: AiBehaviorState::Retreating,
                        target: state.target,
                        target_lock_timer: state.target_lock_timer,
                    },
                    Maneuver::Flee,
                )
            } else {
                match range {
                    EnemyRange::PointBlank => (
                        AiState {
                            current_state: AiBehaviorState::Attacking,
                            target: Some(enemy),
                            target_lock_timer: state.target_lock_timer,
                        },
                        Maneuver::BackOff,
                    ),
                    EnemyRange::Close => (
                        AiState {
                            current_state: AiBehaviorState::Attacking,
                            target: Some(enemy),
                            target_lock_timer: state.target_lock_timer,
                        },
                        Maneuver::Approach,
                    ),
                    EnemyRange::Far => (
                        AiState {
                            current_state: AiBehaviorState::Chasing,
                            target: Some(enemy),
                            target_lock_timer: state.target_lock_timer,
                        },
                        Maneuver::Pursue,
                    ),
                }
            }
        },
    }
}

/// A pilot's target is always a ship it has locked onto: a decision either
/// keeps the old target or locks onto the nearest enemy, and it locks on
/// exactly when it attacks or chases. It never leaves the seeking state
/// behind as a choice, and never touches the lock timer.
pub proof fn lemma_ai_targets(state: AiState, nearest: Option<(EntityId, EnemyRange)>, low_health: bool)
    ensures
        ({
            let (next, _) = ai_decision(state, nearest, low_health);
            &&& next.target_lock_timer == state.target_lock_timer
            &&& next.current_state != AiBehaviorState::Seeking
            &&& (next.current_state == AiBehaviorState::Attacking || next.current_state
                == AiBehaviorState::Chasing) ==> nearest is Some && next.target == Some(nearest.unwrap().0)
            &&& !(next.current_state == AiBehaviorState::Attacking || next.current_state
                == AiBehaviorState::Chasing) ==> next.target == state.target
        }),
{
}

/// A pilot with a low hull never attacks: it retreats from any enemy in
/// sight, and idles when none is.
pub proof fn lemma_low_hull_never_attacks(state: AiState, nearest: Option<(EntityId, EnemyRange)>)
    ensures
        ai_decision(state, nearest, true).0.current_state == (if nearest is Some {
            AiBehaviorState::Retreating
        } else {
            AiBehaviorState::Idle
        }),
{
}

/// A pilot's maneuver and behaviour follow from the sighting and its hull
/// alone, whatever it was doing before: no enemy in sight means idling and
/// wandering; a low hull with an enemy in sight means retreating and
/// fleeing; with a sound hull, an enemy at point blank means attacking and
/// backing off, one in attack range attacking and approaching, and one
/// farther away chasing and pursuing. Only attacking and chasing change the
/// target, to the enemy in sight; the lock timer never changes.
pub proof fn lemma_decision_follows_the_sighting(
    state: AiState,
    other: AiState,
    nearest: Option<(EntityId, EnemyRange)>,
    low_health: bool,
)
    ensures
        ai_decision(state, nearest, low_health).1 == ai_decision(other, nearest, low_health).1,
        ai_decision(state, nearest, low_health).0.current_state == ai_decision(
            other,
            nearest,
            low_health,
        ).0.current_state,
        ai_decision(state, nearest, low_health).0.target_lock_timer == state.target_lock_timer,
        nearest is None ==> ai_decision(state, nearest, low_health) == (
            AiState { current_state: AiBehaviorState::Idle, target: state.target, target_lock_timer: state.target_lock_timer },
            Maneuver::Wander,
        ),
        nearest is Some && low_health ==> ai_decision(state, nearest, low_health) == (
            AiState {
                current_state: AiBehaviorState::Retreating,
                target: state.target,
                target_lock_timer: state.target_lock_timer,
            },
            Maneuver::Flee,
        ),
        nearest is Some && !low_health && nearest.unwrap().1 == EnemyRange::PointBlank ==> ai_decision(
            state,
            nearest,
            low_health,
        ) == (
            AiState {
                current_state: AiBehaviorState::Attacking,
                target: Some(nearest.unwrap().0),
                target_lock_timer: state.target_lock_timer,
            },
            Maneuver::BackOff,
        ),
        nearest is Some && !low_health && nearest.unwrap().1 == EnemyRange::Close ==> ai_decision(
            state,
            nearest,
            low_health,
        ) == (
            AiState {
                current_state: AiBehaviorState::Attacking,
                target: Some(nearest.unwrap().0),
                target_lock_timer: state.target_lock_timer,
            },
            Maneuver::Approach,
        ),
        nearest is Some && !low_health && nearest.unwrap().1 == EnemyRange::Far ==> ai_decision(
            state,
            nearest,
            low_health,
        ) == (
            AiState {
                current_state: AiBehaviorState::Chasing,
                target: Some(nearest.unwrap().0),
                target_lock_timer: state.target_lock_timer,
            },
            Maneuver::Pursue,
        ),
{
}

/// A pilot detects exactly the other ships of the two other factions that
/// are closer than its range; being enemies is being of different sides.
pub proof fn lemma_detection_by_faction(me: Contact, s: Sighting, range_key: u32)
    ensures
        detected(me, s, range_key) <==> (s.contact.entity != me.entity && s.contact.faction != me.faction
            && s.distance_key < range_key),
        enemies(me.faction, s.contact.faction) <==> me.faction != s.contact.faction,
{
}

} // verus!
