use vstd::prelude::*;

use crate::ecs::components::{AiBehaviorState, AiState, EntityId, Weapon};
use crate::game::ai::{ai_decision, EnemyRange};
use crate::time::{sat_sub, Span};

verus! {

// ---------------------------------------------------------------------------
// Weapons
// ---------------------------------------------------------------------------

/// One armed ship as the weapon rules see it: its gun and its pilot.
#[derive(Debug, Clone, Copy, PartialEq, Eq, Structural)]
pub struct Armed {
    pub entity: EntityId,
    pub weapon: Weapon,
    pub ai: AiState,
}

/// A pilot pulls the trigger only while attacking a target.
pub open spec fn wants_to_fire(ai: AiState) -> bool {
    ai.current_state == AiBehaviorState::Attacking && ai.target is Some
}

/// The gun after its cooldown has run down by `dt`, before any shot.
pub open spec fn cooled(w: Weapon, dt: Span) -> Weapon {
    Weapon { remaining_cooldown: sat_sub(w.remaining_cooldown, dt), ..w }
}

/// Whether the gun fires during a tick of length `dt`: the cooldown has
/// run out and the pilot wants to fire.
pub open spec fn fires(w: Weapon, ai: AiState, dt: Span) -> bool {
    cooled(w, dt).remaining_cooldown.nanos == 0 && wants_to_fire(ai)
}

/// The gun after a tick of length `dt`: a shot reloads it for a full
/// cooldown.
pub open spec fn weapon_after(w: Weapon, ai: AiState, dt: Span) -> Weapon {
    if fires(w, ai, dt) {
        Weapon { remaining_cooldown: w.cooldown, ..w }
    } else {
        cooled(w, dt)
    }
}

/// The entities of `units` whose guns fire during a tick of length `dt`,
/// in the order of `units`.
pub open spec fn firing(units: Seq<Armed>, dt: Span) -> Seq<EntityId>
    decreases units.len(),
{
    if units.len() == 0 {
        Seq::empty()
    } else {
        let rest = firing(units.drop_last(), dt);
        let u = units.last();
        if fires(u.weapon, u.ai, dt) {
            rest.push(u.entity)
        } else {
            rest
        }
    }
}

/// Runs every gun for one tick of length `dt`: each cooldown runs down, and
/// each gun whose cooldown has run out fires if its pilot is attacking a
/// target, and reloads. Returns the shooters, in order.
pub fn weapon_system(units: &mut Vec<Armed>, dt: Span) -> (shooters: Vec<EntityId>)
    ensures
        final(units)@.len() == old(units)@.len(),
        forall|i: int|
            0 <= i < old(units)@.len() ==> #[trigger] final(units)@[i] == (Armed {
                weapon: weapon_after(old(units)@[i].weapon, old(units)@[i].ai, dt),
                ..old(units)@[i]
            }),
        shooters@ == firing(old(units)@, dt),
{
    let ghost start = units@;
    let mut shooters: Vec<EntityId> = Vec::new();
    let n = units.len();
    let mut i: usize = 0;
    while i < n
        invariant
            n == start.len(),
            units@.len() == n,
            0 <= i <= n,
            forall|k: int|
                0 <= k < i ==> #[trigger] units@[k] == (Armed {
                    weapon: weapon_after(start[k].weapon, start[k].ai, dt),
                    ..start[k]
                }),
            forall|k: int| i <= k < n ==> #[trigger] units@[k] == start[k],
            shooters@ == firing(start.take(i as int), dt),
        decreases n - i,
    {
        let mut unit = units[i];
        unit.weapon.remaining_cooldown = unit.weapon.remaining_cooldown.saturating_sub(dt);
        let should_fire = unit.ai.current_state == AiBehaviorState::Attacking
            && unit.weapon.remaining_cooldown.is_zero() && unit.ai.target.is_some();
        if should_fire {
            shooters.push(unit.entity);
            unit.weapon.remaining_cooldown = unit.weapon.cooldown;
        }
        units.set(i, unit);
        assert(start.take(i + 1).drop_last() =~= start.take(i as int));
        i = i + 1;
    }
    assert(start.take(n as int) =~= start);
    shooters
}

/// The gun after a run of ticks; `ticks[k]` holds the pilot during the
/// k-th tick and the tick's length.
pub open spec fn weapon_run(w: Weapon, ticks: Seq<(AiState, Span)>) -> Weapon
    decreases ticks.len(),
{
    if ticks.len() == 0 {
        w
    } else {
        weapon_after(weapon_run(w, ticks.drop_last()), ticks.last().0, ticks.last().1)
    }
}

/// Whether the gun fires in some tick of the run.
pub open spec fn fired_during(w: Weapon, ticks: Seq<(AiState, Span)>) -> bool
    decreases ticks.len(),
{
    if ticks.len() == 0 {
        false
    } else {
        fired_during(w, ticks.drop_last()) || fires(
            weapon_run(w, ticks.drop_last()),
            ticks.last().0,
            ticks.last().1,
        )
    }
}

/// The total length of a run of ticks, in nanoseconds.
pub open spec fn run_length(ticks: Seq<(AiState, Span)>) -> nat
    decreases ticks.len(),
{
    if ticks.len() == 0 {
        0
    } else {
        run_length(ticks.drop_last()) + ticks.last().1.nanos as nat
    }
}

/// A gun does not fire before its remaining cooldown has elapsed, whatever
/// its pilot does: over any run of ticks shorter than the remaining
/// cooldown it stays silent, and the cooldown runs down by the run's length.
pub proof fn lemma_no_shot_before_cooldown(w: Weapon, ticks: Seq<(AiState, Span)>)
    requires
        run_length(ticks) < w.remaining_cooldown.nanos,
    ensures
        !fired_during(w, ticks),
        weapon_run(w, ticks).remaining_cooldown.nanos == w.remaining_cooldown.nanos - run_length(ticks),
        weapon_run(w, ticks).cooldown == w.cooldown,
        weapon_run(w, ticks).active == w.active,
    decreases ticks.len(),
{
    if ticks.len() > 0 {
        lemma_no_shot_before_cooldown(w, ticks.drop_last());
    }
}

/// Shots are at least a full cooldown apart: after a shot, no run of ticks
/// shorter than the cooldown holds another.
pub proof fn lemma_shots_a_cooldown_apart(
    w: Weapon,
    ai: AiState,
    dt: Span,
    ticks: Seq<(AiState, Span)>,
)
    requires
        fires(w, ai, dt),
        run_length(ticks) < w.cooldown.nanos,
    ensures
        !fired_during(weapon_after(w, ai, dt), ticks),
{
    lemma_no_shot_before_cooldown(weapon_after(w, ai, dt), ticks);
}

/// Only a pilot attacking a target makes its gun fire, and a gun whose
/// cooldown has not run out does not fire.
pub proof fn lemma_fire_needs_attack_and_cooldown(w: Weapon, ai: AiState, dt: Span)
    ensures
        fires(w, ai, dt) ==> ai.current_state == AiBehaviorState::Attacking && ai.target is Some,
        dt.nanos < w.remaining_cooldown.nanos ==> !fires(w, ai, dt),
{
}

/// In a fixed update the pilots decide before the guns run, so a gun fires
/// only in a tick where its pilot, with a sound hull, has an enemy within
/// attack range.
pub proof fn lemma_shots_need_an_enemy_in_range(
    state: AiState,
    nearest: Option<(EntityId, EnemyRange)>,
    low_health: bool,
    w: Weapon,
    dt: Span,
)
    requires
        fires(w, ai_decision(state, nearest, low_health).0, dt),
    ensures
        !low_health,
        nearest is Some,
        nearest.unwrap().1 != EnemyRange::Far,
{
}

// ---------------------------------------------------------------------------
// Hits
// ---------------------------------------------------------------------------

/// A bullet of the world and the ship that fired it.
#[derive(Debug, Clone, Copy, PartialEq, Eq, Structural)]
pub struct BulletRef {
    pub entity: EntityId,
    pub shooter: EntityId,
}

/// The shooter of `e` where `e` is a bullet of `bullets` (the first entry
/// for `e` counts), and `None` where `e` is no bullet.
pub open spec fn shooter_of(bullets: Seq<BulletRef>, e: EntityId) -> Option<EntityId>
    decreases bullets.len(),
{
    if bullets.len() == 0 {
        None
    } else if bullets[0].entity == e {
        Some(bullets[0].shooter)
    } else {
        shooter_of(bullets.drop_first(), e)
    }
}

/// A bullet whose shooter is `shooter` touching `target` hits it when the
/// target is a ship other than the shooter.
pub open spec fn hit_on(bullet: EntityId, shooter: EntityId, target: EntityId, ships: Seq<EntityId>) -> Option<(EntityId, EntityId)> {
    if target == shooter || !ships.contains(target) {
        None
    } else {
        Some((bullet, target))
    }
}

/// What the collision of `a` and `b` does: `Some((bullet, ship))` when one
/// of them (`a` first) is a bullet that hits the other.
pub open spec fn hit_of(
    pair: (EntityId, EntityId),
    bullets: Seq<BulletRef>,
    ships: Seq<EntityId>,
) -> Option<(EntityId, EntityId)> {
    let (a, b) = pair;
    match shooter_of(bullets, a) {
        Some(s) => hit_on(a, s, b, ships),
        None => match shooter_of(bullets, b) {
            Some(s) => hit_on(b, s, a, ships),
            None => None,
        },
    }
}

/// The hits that a run of collisions makes, in order.
pub open spec fn hits(
    collisions: Seq<(EntityId, EntityId)>,
    bullets: Seq<BulletRef>,
    ships: Seq<EntityId>,
) -> Seq<(EntityId, EntityId)>
    decreases collisions.len(),
{
    if collisions.len() == 0 {
        Seq::empty()
    } else {
        let rest = hits(collisions.drop_last(), bullets, ships);
        match hit_of(collisions.last(), bullets, ships) {
            Some(h) => rest.push(h),
            None => rest,
        }
    }
}

fn find_shooter(bullets: &Vec<BulletRef>, e: EntityId) -> (r: Option<EntityId>)
    ensures
        r == shooter_of(bullets@, e),
{
    let n = bullets.len();
    let mut i: usize = 0;
    assert(bullets@.skip(0) =~= bullets@);
    while i < n
        invariant
            n == bullets@.len(),
            0 <= i <= n,
            shooter_of(bullets@, e) == shooter_of(bullets@.skip(i as int), e),
        decreases n - i,
    {
        if bullets[i].entity == e {
            return Some(bullets[i].shooter);
        }
        assert(bullets@.skip(i as int).drop_first() =~= bullets@.skip(i + 1));
        i = i + 1;
    }
    None
}

fn is_listed(ships: &Vec<EntityId>, e: EntityId) -> (r: bool)
    ensures
        r == ships@.contains(e),
{
    let n = ships.len();
    let mut i: usize = 0;
    while i < n
        invariant
            n == ships@.len(),
            0 <= i <= n,
            forall|k: int| 0 <= k < i ==> ships@[k] != e,
        decreases n - i,
    {
        if ships[i] == e {
            assert(ships@[i as int] == e);
            return true;
        }
        i = i + 1;
    }
    false
}

fn hit_for(a: EntityId, b: EntityId, bullets: &Vec<BulletRef>, ships: &Vec<EntityId>) -> (r: Option<(EntityId, EntityId)>)
    ensures
        r == hit_of((a, b), bullets@, ships@),
{
    let (bullet, target, shooter) = match find_shooter(bullets, a) {
        Some(s) => (a, b, s),
        None => match find_shooter(bullets, b) {
            Some(s) => (b, a, s),
            None => {
                return None;
            },
        },
    };
    if target == shooter || !is_listed(ships, target) {
        None
    } else {
        Some((bullet, target))
    }
}

/// Sorts the collisions of one update into hits: for each collision in
/// order, the first of the two entities that is a bullet (per `bullets`)
/// hits the other one if that one is a ship (per `ships`) and not the
/// bullet's own shooter. Returns the `(bullet, ship)` pairs, in order.
pub fn collect_hits(
    collisions: &Vec<(EntityId, EntityId)>,
    bullets: &Vec<BulletRef>,
    ships: &Vec<EntityId>,
) -> (r: Vec<(EntityId, EntityId)>)
    ensures
        r@ == hits(collisions@, bullets@, ships@),
{
    let mut r: Vec<(EntityId, EntityId)> = Vec::new();
    let n = collisions.len();
    let mut i: usize = 0;
    while i < n
        invariant
            n == collisions@.len(),
            0 <= i <= n,
            r@ == hits(collisions@.take(i as int), bullets@, ships@),
        decreases n - i,
    {
        let (a, b) = collisions[i];
        let h = hit_for(a, b, bullets, ships);
        assert(collisions@.take(i + 1).drop_last() =~= collisions@.take(i as int));
        if let Some(hit) = h {
            r.push(hit);
        }
        i = i + 1;
    }
    assert(collisions@.take(n as int) =~= collisions@);
    r
}

/// A bullet never hits the ship that fired it, and every hit is a listed
/// bullet striking a listed ship that took part in the collision.
pub proof fn lemma_hits_spare_the_shooter(
    collisions: Seq<(EntityId, EntityId)>,
    bullets: Seq<BulletRef>,
    ships: Seq<EntityId>,
    k: int,
)
    requires
        0 <= k < hits(collisions, bullets, ships).len(),
    ensures
        ({
            let h = hits(collisions, bullets, ships)[k];
            &&& shooter_of(bullets, h.0) is Some
            &&& shooter_of(bullets, h.0).unwrap() != h.1
            &&& ships.contains(h.1)
            &&& exists|j: int|
                0 <= j < collisions.len() && (#[trigger] collisions[j] == (h.0, h.1) || collisions[j] == (h.1, h.0))
        }),
    decreases collisions.len(),
{
    let rest = hits(collisions.drop_last(), bullets, ships);
    if k < rest.len() {
        lemma_hits_spare_the_shooter(collisions.drop_last(), bullets, ships, k);
        let h = hits(collisions, bullets, ships)[k];
        let j = choose|j: int|
            0 <= j < collisions.drop_last().len() && (#[trigger] collisions.drop_last()[j] == (h.0, h.1)
                || collisions.drop_last()[j] == (h.1, h.0));
        assert(collisions[j] == collisions.drop_last()[j]);
    } else {
        let j = collisions.len() - 1;
        assert(collisions[j] == collisions.last());
    }
}

// ---------------------------------------------------------------------------
// Lifetimes
// ---------------------------------------------------------------------------

/// An entity that lives for a limited time, with the time it has left.
#[derive(Debug, Clone, Copy, PartialEq, Eq, Structural)]
pub struct Timed {
    pub entity: EntityId,
    pub lifetime: Span,
}

/// Whether `t` runs out during a tick of length `dt`.
pub open spec fn expires(t: Timed, dt: Span) -> bool {
    sat_sub(t.lifetime, dt).nanos == 0
}

/// `t` after a tick of length `dt`; an entity that runs out is left as it
/// was, for it is removed.
pub open spec fn aged(t: Timed, dt: Span) -> Timed {
    if expires(t, dt) {
        t
    } else {
        Timed { lifetime: sat_sub(t.lifetime, dt), ..t }
    }
}

/// The entities of `items` that run out during a tick of length `dt`, in
/// order.
pub open spec fn expired(items: Seq<Timed>, dt: Span) -> Seq<EntityId>
    decreases items.len(),
{
    if items.len() == 0 {
        Seq::empty()
    } else {
        let rest = expired(items.drop_last(), dt);
        if expires(items.last(), dt) {
            rest.push(items.last().entity)
        } else {
            rest
        }
    }
}

fn age_all(items: &mut Vec<Timed>, dt: Span, removed: &mut Vec<EntityId>)
    ensures
        final(items)@.len() == old(items)@.len(),
        forall|i: int| 0 <= i < old(items)@.len() ==> #[trigger] final(items)@[i] == aged(old(items)@[i], dt),
        final(removed)@ == old(removed)@ + expired(old(items)@, dt),
{
    let ghost start = items@;
    let ghost removed0 = removed@;
    let n = items.len();
    let mut i: usize = 0;
    while i < n
        invariant
            n == start.len(),
            items@.len() == n,
            0 <= i <= n,
            forall|k: int| 0 <= k < i ==> #[trigger] items@[k] == aged(start[k], dt),
            forall|k: int| i <= k < n ==> #[trigger] items@[k] == start[k],
            removed@ == removed0 + expired(start.take(i as int), dt),
        decreases n - i,
    {
        let item = items[i];
        let remaining = item.lifetime.saturating_sub(dt);
        assert(start.take(i + 1).drop_last() =~= start.take(i as int));
        if remaining.is_zero() {
            removed.push(item.entity);
            assert(removed@ =~= removed0 + expired(start.take(i + 1), dt));
        } else {
            items.set(i, Timed { entity: item.entity, lifetime: remaining });
        }
        i = i + 1;
    }
    assert(start.take(n as int) =~= start);
}

/// Ages the bullets and the effects of the world by one tick of length
/// `dt`. Each entity whose lifetime runs out is marked for removal and left
/// as it was; each other one has `dt` taken off its lifetime. Returns the
/// entities to remove: the expired bullets, then the expired effects, each
/// in order.
/// Where no entity is listed twice, taking the returned entities out of the
/// aged lists leaves exactly `survivors` of each list, so the laws on
/// `survivors` (`lemma_cleanup_ticks_add_up`, `lemma_cleanup_zero_tick`)
/// hold of this function.
pub fn cleanup_system(bullets: &mut Vec<Timed>, effects: &mut Vec<Timed>, dt: Span) -> (removed: Vec<EntityId>)
    ensures
        final(bullets)@.len() == old(bullets)@.len(),
        forall|i: int|
            0 <= i < old(bullets)@.len() ==> #[trigger] final(bullets)@[i] == aged(old(bullets)@[i], dt),
        final(effects)@.len() == old(effects)@.len(),
        forall|i: int|
            0 <= i < old(effects)@.len() ==> #[trigger] final(effects)@[i] == aged(old(effects)@[i], dt),
        removed@ == expired(old(bullets)@, dt) + expired(old(effects)@, dt),
        entities_distinct(old(bullets)@ + old(effects)@) ==> without(final(bullets)@, removed@) == survivors(
            old(bullets)@,
            dt,
        ) && without(final(effects)@, removed@) == survivors(old(effects)@, dt),
{
    let mut removed: Vec<EntityId> = Vec::new();
    age_all(bullets, dt, &mut removed);
    age_all(effects, dt, &mut removed);
    assert(removed@ =~= expired(old(bullets)@, dt) + expired(old(effects)@, dt));
    proof {
        if entities_distinct(old(bullets)@ + old(effects)@) {
            lemma_removed_are_the_expired(old(bullets)@, old(effects)@, dt);
            lemma_without_removed_is_survivors(old(bullets)@, bullets@, dt, removed@);
            lemma_without_removed_is_survivors(old(effects)@, effects@, dt, removed@);
        }
    }
    removed
}

/// No entity appears twice among `items`.
pub open spec fn entities_distinct(items: Seq<Timed>) -> bool {
    forall|i: int, j: int| 0 <= i < j < items.len() ==> items[i].entity != items[j].entity
}

/// `items` without those whose entity is listed in `removed`, in order.
pub open spec fn without(items: Seq<Timed>, removed: Seq<EntityId>) -> Seq<Timed>
    decreases items.len(),
{
    if items.len() == 0 {
        Seq::empty()
    } else {
        let rest = without(items.drop_last(), removed);
        if removed.contains(items.last().entity) {
            rest
        } else {
            rest.push(items.last())
        }
    }
}

/// An entity is listed as expired exactly when some item for it runs out.
proof fn lemma_expired_lists(items: Seq<Timed>, dt: Span, e: EntityId)
    ensures
        expired(items, dt).contains(e) <==> exists|i: int|
            0 <= i < items.len() && #[trigger] items[i].entity == e && expires(items[i], dt),
    decreases items.len(),
{
    if items.len() > 0 {
        let rest = items.drop_last();
        lemma_expired_lists(rest, dt, e);
        let last = items.len() - 1;
        if expired(items, dt).contains(e) {
            if expired(rest, dt).contains(e) {
                let i = choose|i: int| 0 <= i < rest.len() && #[trigger] rest[i].entity == e && expires(rest[i], dt);
                assert(items[i] == rest[i]);
            } else {
                let k = choose|k: int| 0 <= k < expired(items, dt).len() && expired(items, dt)[k] == e;
                assert(expired(items, dt) == expired(rest, dt).push(items.last().entity));
                assert(k == expired(rest, dt).len()) by {
                    if k < expired(rest, dt).len() {
                        assert(expired(rest, dt)[k] == e);
                    }
                };
                assert(items[last].entity == e);
            }
        } else {
            assert forall|i: int| 0 <= i < items.len() && #[trigger] items[i].entity == e implies !expires(items[i], dt) by {
                if i < rest.len() {
                    assert(rest[i] == items[i]);
                    if expires(items[i], dt) {
                        assert(expired(rest, dt).contains(e));
                        let k = choose|k: int| 0 <= k < expired(rest, dt).len() && expired(rest, dt)[k] == e;
                        assert(expired(items, dt)[k] == e);
                    }
                } else {
                    if expires(items[i], dt) {
                        let n = expired(rest, dt).len() as int;
                        assert(expired(items, dt)[n] == e);
                    }
                }
            }
        }
    }
}

/// With distinct entities, the entities that a cleanup tick lists for
/// removal are exactly those of the items that run out.
proof fn lemma_removed_are_the_expired(bullets: Seq<Timed>, effects: Seq<Timed>, dt: Span)
    requires
        entities_distinct(bullets + effects),
    ensures
        forall|i: int|
            0 <= i < bullets.len() ==> ((expired(bullets, dt) + expired(effects, dt)).contains(
                #[trigger] bullets[i].entity,
            ) <==> expires(bullets[i], dt)),
        forall|i: int|
            0 <= i < effects.len() ==> ((expired(bullets, dt) + expired(effects, dt)).contains(
                #[trigger] effects[i].entity,
            ) <==> expires(effects[i], dt)),
{
    let all = bullets + effects;
    let r = expired(bullets, dt) + expired(effects, dt);
    assert forall|i: int| 0 <= i < bullets.len() implies (r.contains(#[trigger] bullets[i].entity) <==> expires(
        bullets[i],
        dt,
    )) by {
        let e = bullets[i].entity;
        lemma_expired_lists(bullets, dt, e);
        lemma_expired_lists(effects, dt, e);
        assert(all[i] == bullets[i]);
        if expires(bullets[i], dt) {
            let k = choose|k: int| 0 <= k < expired(bullets, dt).len() && expired(bullets, dt)[k] == e;
            assert(r[k] == e);
        } else if r.contains(e) {
            let k = choose|k: int| 0 <= k < r.len() && r[k] == e;
            if k < expired(bullets, dt).len() {
                assert(expired(bullets, dt)[k] == e);
                let j = choose|j: int| 0 <= j < bullets.len() && #[trigger] bullets[j].entity == e && expires(bullets[j], dt);
                assert(all[j] == bullets[j]);
            } else {
                assert(expired(effects, dt)[k - expired(bullets, dt).len()] == e);
                let j = choose|j: int| 0 <= j < effects.len() && #[trigger] effects[j].entity == e && expires(effects[j], dt);
                assert(all[bullets.len() + j] == effects[j]);
            }
        }
    }
    assert forall|i: int| 0 <= i < effects.len() implies (r.contains(#[trigger] effects[i].entity) <==> expires(
        effects[i],
        dt,
    )) by {
        let e = effects[i].entity;
        lemma_expired_lists(bullets, dt, e);
        lemma_expired_lists(effects, dt, e);
        assert(all[bullets.len() + i] == effects[i]);
        if expires(effects[i], dt) {
            let k = choose|k: int| 0 <= k < expired(effects, dt).len() && expired(effects, dt)[k] == e;
            assert(r[expired(bullets, dt).len() + k] == e);
        } else if r.contains(e) {
            let k = choose|k: int| 0 <= k < r.len() && r[k] == e;
            if k < expired(bullets, dt).len() {
                assert(expired(bullets, dt)[k] == e);
                let j = choose|j: int| 0 <= j < bullets.len() && #[trigger] bullets[j].entity == e && expires(bullets[j], dt);
                assert(all[j] == bullets[j]);
            } else {
                assert(expired(effects, dt)[k - expired(bullets, dt).len()] == e);
                let j = choose|j: int| 0 <= j < effects.len() && #[trigger] effects[j].entity == e && expires(effects[j], dt);
                assert(all[bullets.len() + j] == effects[j]);
            }
        }
    }
}

/// Taking the listed entities out of the aged items leaves the survivors,
/// where exactly the items that run out are listed.
proof fn lemma_without_removed_is_survivors(items: Seq<Timed>, after: Seq<Timed>, dt: Span, removed: Seq<EntityId>)
    requires
        after.len() == items.len(),
        forall|i: int| 0 <= i < items.len() ==> #[trigger] after[i] == aged(items[i], dt),
        forall|i: int| 0 <= i < items.len() ==> (removed.contains(#[trigger] items[i].entity) <==> expires(items[i], dt)),
    ensures
        without(after, removed) == survivors(items, dt),
    decreases items.len(),
{
    if items.len() > 0 {
        let n = items.len() - 1;
        assert forall|i: int| 0 <= i < n implies #[trigger] after.drop_last()[i] == aged(items.drop_last()[i], dt) by {
            assert(after[i] == aged(items[i], dt));
        }
        assert forall|i: int| 0 <= i < n implies (removed.contains(#[trigger] items.drop_last()[i].entity) <==> expires(
            items.drop_last()[i],
            dt,
        )) by {
            assert(items.drop_last()[i] == items[i]);
        }
        lemma_without_removed_is_survivors(items.drop_last(), after.drop_last(), dt, removed);
        assert(after[n] == aged(items[n], dt));
        assert(removed.contains(items[n].entity) <==> expires(items[n], dt));
    }
}

/// A limited-life entity runs out exactly in the tick in which its
/// remaining lifetime has elapsed.
pub proof fn lemma_expires_iff_elapsed(t: Timed, dt: Span)
    ensures
        expires(t, dt) <==> dt.nanos >= t.lifetime.nanos,
{
}

/// `t` after a run of ticks of the given lengths, while it has not run out.
pub open spec fn aged_run(t: Timed, dts: Seq<Span>) -> Timed
    decreases dts.len(),
{
    if dts.len() == 0 {
        t
    } else {
        aged(aged_run(t, dts.drop_last()), dts.last())
    }
}

/// The total length of a run of ticks, in nanoseconds.
pub open spec fn span_total(dts: Seq<Span>) -> nat
    decreases dts.len(),
{
    if dts.len() == 0 {
        0
    } else {
        span_total(dts.drop_last()) + dts.last().nanos as nat
    }
}

/// A limited-life entity lives out its lifetime: over any run of ticks
/// shorter than its lifetime it survives every tick, and its lifetime runs
/// down by exactly the run's length.
pub proof fn lemma_lifetime_runs_down(t: Timed, dts: Seq<Span>)
    requires
        span_total(dts) < t.lifetime.nanos,
    ensures
        aged_run(t, dts).entity == t.entity,
        aged_run(t, dts).lifetime.nanos == t.lifetime.nanos - span_total(dts),
        forall|k: int| 0 <= k < dts.len() ==> !expires(#[trigger] aged_run(t, dts.take(k)), dts[k]),
    decreases dts.len(),
{
    if dts.len() > 0 {
        let prev = dts.drop_last();
        lemma_lifetime_runs_down(t, prev);
        assert forall|k: int| 0 <= k < dts.len() implies !expires(#[trigger] aged_run(t, dts.take(k)), dts[k]) by {
            if k < prev.len() {
                assert(dts.take(k) =~= prev.take(k));
                assert(dts[k] == prev[k]);
            } else {
                assert(dts.take(k) =~= prev);
            }
        }
    }
}

/// The limited-life entities left after a tick of length `dt`, in order:
/// those that run out are removed, the others have `dt` taken off.
pub open spec fn survivors(items: Seq<Timed>, dt: Span) -> Seq<Timed>
    decreases items.len(),
{
    if items.len() == 0 {
        Seq::empty()
    } else {
        let rest = survivors(items.drop_last(), dt);
        if expires(items.last(), dt) {
            rest
        } else {
            rest.push(aged(items.last(), dt))
        }
    }
}

/// Two ticks of cleanup, with the expired entities removed in between, leave
/// the same entities with the same lifetimes as one tick of their summed
/// length.
pub proof fn lemma_cleanup_ticks_add_up(items: Seq<Timed>, a: Span, b: Span)
    requires
        a.nanos + b.nanos <= u128::MAX,
    ensures
        survivors(survivors(items, a), b) == survivors(items, Span { nanos: (a.nanos + b.nanos) as u128 }),
    decreases items.len(),
{
    let ab = Span { nanos: (a.nanos + b.nanos) as u128 };
    if items.len() > 0 {
        let rest = items.drop_last();
        let t = items.last();
        lemma_cleanup_ticks_add_up(rest, a, b);
        if !expires(t, a) {
            let mid = survivors(rest, a);
            assert(mid.push(aged(t, a)).drop_last() =~= mid);
            assert(mid.push(aged(t, a)).last() == aged(t, a));
        }
    }
}

/// A cleanup tick of length zero removes exactly the entities whose lifetime
/// is already zero, and leaves every other one as it was.
pub proof fn lemma_cleanup_zero_tick(items: Seq<Timed>)
    ensures
        forall|k: int|
            0 <= k < items.len() ==> (expires(#[trigger] items[k], Span { nanos: 0 }) <==> items[k].lifetime.nanos
                == 0),
        forall|k: int| 0 <= k < items.len() ==> aged(#[trigger] items[k], Span { nanos: 0 }) == items[k],
        survivors(items, Span { nanos: 0 }) == items.filter(|t: Timed| t.lifetime.nanos != 0),
    decreases items.len(),
{
    reveal_with_fuel(Seq::filter, 1);
    if items.len() > 0 {
        lemma_cleanup_zero_tick(items.drop_last());
    }
}

/// A gun reloads only by firing, and fires exactly when its remaining
/// cooldown is at most the tick's length while its pilot attacks a target.
/// Otherwise the tick only runs its cooldown down, to zero at the least,
/// whatever the pilot does; nothing but the remaining cooldown changes.
pub proof fn lemma_gun_tick(w: Weapon, ai: AiState, dt: Span)
    ensures
        fires(w, ai, dt) <==> (w.remaining_cooldown.nanos <= dt.nanos && ai.current_state
            == AiBehaviorState::Attacking && ai.target is Some),
        weapon_after(w, ai, dt) == (if w.remaining_cooldown.nanos <= dt.nanos && ai.current_state
            == AiBehaviorState::Attacking && ai.target is Some {
            Weapon { cooldown: w.cooldown, remaining_cooldown: w.cooldown, active: w.active }
        } else {
            Weapon {
                cooldown: w.cooldown,
                remaining_cooldown: Span {
                    nanos: if w.remaining_cooldown.nanos >= dt.nanos {
                        (w.remaining_cooldown.nanos - dt.nanos) as u128
                    } else {
                        0
                    },
                },
                active: w.active,
            }
        }),
{
}

/// The shooters of a tick are listed unit by unit, in order: a unit is
/// added exactly when its gun's remaining cooldown is at most the tick's
/// length and its pilot attacks a target.
pub proof fn lemma_shooters_unit_by_unit(units: Seq<Armed>, dt: Span, j: int)
    requires
        0 <= j < units.len(),
    ensures
        firing(units.take(j + 1), dt) == (if units[j].weapon.remaining_cooldown.nanos <= dt.nanos
            && units[j].ai.current_state == AiBehaviorState::Attacking && units[j].ai.target is Some {
            firing(units.take(j), dt).push(units[j].entity)
        } else {
            firing(units.take(j), dt)
        }),
{
    assert(units.take(j + 1).drop_last() =~= units.take(j));
    assert(units.take(j + 1).last() == units[j]);
}

/// The hits of a run of collisions are found collision by collision, in
/// order. Where the first entity of a collision is a bullet, it hits the
/// second if that is a listed ship other than the bullet's shooter (whether
/// or not the shooter is still a ship); otherwise, where the second is a
/// bullet, it hits the first on the same terms; a collision without a
/// bullet hits nothing.
pub proof fn lemma_hits_by_collision(
    collisions: Seq<(EntityId, EntityId)>,
    bullets: Seq<BulletRef>,
    ships: Seq<EntityId>,
    j: int,
)
    requires
        0 <= j < collisions.len(),
    ensures
        ({
            let a = collisions[j].0;
            let b = collisions[j].1;
            let before = hits(collisions.take(j), bullets, ships);
            let after = hits(collisions.take(j + 1), bullets, ships);
            &&& shooter_of(bullets, a) is Some ==> after == (if b != shooter_of(bullets, a).unwrap()
                && ships.contains(b) {
                before.push((a, b))
            } else {
                before
            })
            &&& shooter_of(bullets, a) is None && shooter_of(bullets, b) is Some ==> after == (if a
                != shooter_of(bullets, b).unwrap() && ships.contains(a) {
                before.push((b, a))
            } else {
                before
            })
            &&& shooter_of(bullets, a) is None && shooter_of(bullets, b) is None ==> after == before
        }),
{
    assert(collisions.take(j + 1).drop_last() =~= collisions.take(j));
    assert(collisions.take(j + 1).last() == collisions[j]);
}

/// The hits of the first `k` collisions begin the hits of all of them.
proof fn lemma_hits_prefix(
    collisions: Seq<(EntityId, EntityId)>,
    bullets: Seq<BulletRef>,
    ships: Seq<EntityId>,
    k: int,
)
    requires
        0 <= k <= collisions.len(),
    ensures
        hits(collisions.take(k), bullets, ships).len() <= hits(collisions, bullets, ships).len(),
        forall|i: int|
            0 <= i < hits(collisions.take(k), bullets, ships).len() ==> #[trigger] hits(
                collisions.take(k),
                bullets,
                ships,
            )[i] == hits(collisions, bullets, ships)[i],
    decreases collisions.len(),
{
    if k == collisions.len() {
        assert(collisions.take(k) =~= collisions);
    } else {
        let rest = collisions.drop_last();
        assert(rest.take(k) =~= collisions.take(k));
        lemma_hits_prefix(rest, bullets, ships, k);
    }
}

/// No hit is missed: a collision in which a bullet touches a listed ship
/// other than its shooter yields that hit, whatever became of the shooter.
pub proof fn lemma_hits_complete(
    collisions: Seq<(EntityId, EntityId)>,
    bullets: Seq<BulletRef>,
    ships: Seq<EntityId>,
    j: int,
)
    requires
        0 <= j < collisions.len(),
        shooter_of(bullets, collisions[j].0) is Some,
        collisions[j].1 != shooter_of(bullets, collisions[j].0).unwrap(),
        ships.contains(collisions[j].1),
    ensures
        hits(collisions, bullets, ships).contains((collisions[j].0, collisions[j].1)),
{
    lemma_hits_by_collision(collisions, bullets, ships, j);
    lemma_hits_prefix(collisions, bullets, ships, j + 1);
    let before = hits(collisions.take(j), bullets, ships);
    assert(hits(collisions.take(j + 1), bullets, ships)[before.len() as int] == (collisions[j].0, collisions[j].1));
    assert(hits(collisions, bullets, ships)[before.len() as int] == (collisions[j].0, collisions[j].1));
}

/// A cleanup tick goes entity by entity, in order: an entity is listed for
/// removal exactly when its lifetime is at most the tick's length, and one
/// that stays has the tick's length taken off its lifetime.
pub proof fn lemma_cleanup_entity_by_entity(items: Seq<Timed>, dt: Span, j: int)
    requires
        0 <= j < items.len(),
    ensures
        expired(items.take(j + 1), dt) == (if items[j].lifetime.nanos <= dt.nanos {
            expired(items.take(j), dt).push(items[j].entity)
        } else {
            expired(items.take(j), dt)
        }),
        items[j].lifetime.nanos > dt.nanos ==> aged(items[j], dt) == (Timed {
            entity: items[j].entity,
            lifetime: Span { nanos: (items[j].lifetime.nanos - dt.nanos) as u128 },
        }),
        aged(items[j], dt).entity == items[j].entity,
{
    assert(items.take(j + 1).drop_last() =~= items.take(j));
    assert(items.take(j + 1).last() == items[j]);
}

} // verus!
