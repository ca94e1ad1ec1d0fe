use vstd::prelude::*;

use crate::config::Faction;
use crate::ecs::components::{EntityId, RespawnTimer};
use crate::time::{sat_sub, Span};

verus! {

// ---------------------------------------------------------------------------
// Fixed-step scheduling
// ---------------------------------------------------------------------------

/// The time banked for fixed updates once a frame's time is added: the
/// sum, capped at `max_accumulation`.
pub open spec fn banked(accumulated: Span, frame_time: Span, max_accumulation: Span) -> nat {
    let sum = accumulated.nanos + frame_time.nanos;
    if sum > max_accumulation.nanos {
        max_accumulation.nanos as nat
    } else {
        sum as nat
    }
}

/// Plans one animation frame of the fixed-step loop. The frame's time is
/// added to the time banked so far, the bank is capped at
/// `max_accumulation`, and a fixed update of length `fixed_dt` is run for
/// as long as the bank holds one. Returns how many updates to run and the
/// time left in the bank.
pub fn plan_fixed_steps(
    accumulated: Span,
    frame_time: Span,
    fixed_dt: Span,
    max_accumulation: Span,
) -> (r: (u128, Span))
    requires
        fixed_dt.nanos > 0,
        accumulated.nanos + frame_time.nanos <= u128::MAX,
    ensures
        r.0 == banked(accumulated, frame_time, max_accumulation) / (fixed_dt.nanos as nat),
        r.1.nanos == banked(accumulated, frame_time, max_accumulation) % (fixed_dt.nanos as nat),
        r.0 * fixed_dt.nanos + r.1.nanos == (if accumulated.nanos + frame_time.nanos > max_accumulation.nanos {
            max_accumulation.nanos as int
        } else {
            accumulated.nanos + frame_time.nanos
        }),
        r.1.nanos < fixed_dt.nanos,
{
    let mut bank: u128 = accumulated.nanos + frame_time.nanos;
    if bank > max_accumulation.nanos {
        bank = max_accumulation.nanos;
    }
    proof {
        lemma_split_bank(bank as nat, fixed_dt.nanos as nat);
    }
    (bank / fixed_dt.nanos, Span { nanos: bank % fixed_dt.nanos })
}

/// A bank splits into whole steps and a rest shorter than a step.
proof fn lemma_split_bank(total: nat, d: nat)
    requires
        d > 0,
    ensures
        (total / d) * d + total % d == total,
        total % d < d,
        total / d <= total,
{
    vstd::arithmetic::div_mod::lemma_fundamental_div_mod(total as int, d as int);
    vstd::arithmetic::div_mod::lemma_mod_bound(total as int, d as int);
    vstd::arithmetic::div_mod::lemma_div_is_ordered_by_denominator(total as int, 1, d as int);
    vstd::arithmetic::div_mod::lemma_div_basics(total as int);
    vstd::arithmetic::mul::lemma_mul_is_commutative((total / d) as int, d as int);
}

/// The plan runs every whole fixed update the bank holds and keeps the
/// rest: updates times `fixed_dt` plus the rest is the banked time, and
/// the rest is shorter than one update. However long the frame, no more
/// updates run than `max_accumulation` holds.
pub proof fn lemma_plan_uses_the_bank(
    accumulated: Span,
    frame_time: Span,
    fixed_dt: Span,
    max_accumulation: Span,
)
    requires
        fixed_dt.nanos > 0,
    ensures
        ({
            let total = banked(accumulated, frame_time, max_accumulation);
            let d = fixed_dt.nanos as nat;
            &&& (total / d) * d + total % d == total
            &&& total % d < d
            &&& total / d <= (max_accumulation.nanos as nat) / d
        }),
{
    let total = banked(accumulated, frame_time, max_accumulation);
    let d = fixed_dt.nanos as nat;
    vstd::arithmetic::div_mod::lemma_fundamental_div_mod(total as int, d as int);
    vstd::arithmetic::div_mod::lemma_mod_bound(total as int, d as int);
    vstd::arithmetic::div_mod::lemma_div_is_ordered(total as int, max_accumulation.nanos as int, d as int);
}

// ---------------------------------------------------------------------------
// Respawning
// ---------------------------------------------------------------------------

/// A respawn timer of the world, with the side of the ship whose death
/// started it, where that side was recorded with the timer.
#[derive(Debug, Clone, Copy, PartialEq, Eq, Structural)]
pub struct PendingRespawn {
    pub entity: EntityId,
    pub timer: RespawnTimer,
    pub ship_faction: Option<Faction>,
}

/// The side a respawned ship fights for: the side recorded with its timer,
/// and red where none was recorded.
pub open spec fn respawn_faction(p: PendingRespawn) -> Faction {
    match p.ship_faction {
        Some(f) => f,
        None => Faction::Red,
    }
}

/// Whether the timer runs out during a tick of length `dt`.
pub open spec fn due(p: PendingRespawn, dt: Span) -> bool {
    sat_sub(p.timer.remaining, dt).nanos == 0
}

/// The timer after a tick of length `dt`; one that runs out is left as it
/// was, for its entity is removed.
pub open spec fn ticked(p: PendingRespawn, dt: Span) -> PendingRespawn {
    if due(p, dt) {
        p
    } else {
        PendingRespawn { timer: RespawnTimer { remaining: sat_sub(p.timer.remaining, dt) }, ..p }
    }
}

/// The timers that run out during a tick of length `dt`, in order, each
/// with the faction of the ship to spawn.
pub open spec fn due_respawns(pending: Seq<PendingRespawn>, dt: Span) -> Seq<(EntityId, Faction)>
    decreases pending.len(),
{
    if pending.len() == 0 {
        Seq::empty()
    } else {
        let rest = due_respawns(pending.drop_last(), dt);
        if due(pending.last(), dt) {
            rest.push((pending.last().entity, respawn_faction(pending.last())))
        } else {
            rest
        }
    }
}

/// Runs the respawn timers for a tick of length `dt`. Each timer that runs
/// out is returned, in order, with the faction its new ship fights for
/// (its entity is then removed and a ship spawned); each other timer has
/// `dt` taken off.
pub fn respawn_dead_ships(pending: &mut Vec<PendingRespawn>, dt: Span) -> (r: Vec<(EntityId, Faction)>)
    ensures
        final(pending)@.len() == old(pending)@.len(),
        forall|i: int|
            0 <= i < old(pending)@.len() ==> #[trigger] final(pending)@[i] == ticked(old(pending)@[i], dt),
        r@ == due_respawns(old(pending)@, dt),
{
    let ghost start = pending@;
    let mut r: Vec<(EntityId, Faction)> = Vec::new();
    let n = pending.len();
    let mut i: usize = 0;
    while i < n
        invariant
            n == start.len(),
            pending@.len() == n,
            0 <= i <= n,
            forall|k: int| 0 <= k < i ==> #[trigger] pending@[k] == ticked(start[k], dt),
            forall|k: int| i <= k < n ==> #[trigger] pending@[k] == start[k],
            r@ == due_respawns(start.take(i as int), dt),
        decreases n - i,
    {
        let p = pending[i];
        let remaining = p.timer.remaining.saturating_sub(dt);
        assert(start.take(i + 1).drop_last() =~= start.take(i as int));
        if remaining.is_zero() {
            let faction = match p.ship_faction {
                Some(f) => f,
                None => Faction::Red,
            };
            r.push((p.entity, faction));
        } else {
            pending.set(
                i,
                PendingRespawn { entity: p.entity, timer: RespawnTimer { remaining }, ship_faction: p.ship_faction },
            );
        }
        i = i + 1;
    }
    assert(start.take(n as int) =~= start);
    r
}

/// A destroyed ship comes back in the tick in which its respawn delay has
/// elapsed, not before, and for the side recorded with its timer (red
/// where none was recorded).
pub proof fn lemma_respawn_when_delay_elapsed(p: PendingRespawn, dt: Span)
    ensures
        due(p, dt) <==> dt.nanos >= p.timer.remaining.nanos,
        due(p, dt) ==> due_respawns(seq![p], dt) == seq![(p.entity, respawn_faction(p))],
        !due(p, dt) ==> due_respawns(seq![p], dt).len() == 0
            && ticked(p, dt).timer.remaining.nanos == p.timer.remaining.nanos - dt.nanos,
{
    let one = seq![p];
    assert(one.drop_last() =~= Seq::<PendingRespawn>::empty());
    assert(one.last() == p);
    assert(due_respawns(one.drop_last(), dt) == Seq::<(EntityId, Faction)>::empty());
    assert(Seq::<(EntityId, Faction)>::empty().push((p.entity, respawn_faction(p))) =~= seq![
        (p.entity, respawn_faction(p)),
    ]);
}

// ---------------------------------------------------------------------------
// The frame loop
// ---------------------------------------------------------------------------

/// The state of the animation-frame loop: whether it runs, the handle of
/// the frame it last requested, and the time banked for fixed updates.
#[derive(Debug, Clone, Copy, PartialEq, Eq, Structural)]
pub struct GameLoop {
    pub running: bool,
    pub animation_handle: Option<i32>,
    pub accumulated: Span,
}

/// The loop once started: it runs; nothing else changes.
pub open spec fn started(s: GameLoop) -> GameLoop {
    GameLoop { running: true, ..s }
}

/// The loop once destroyed: it no longer runs; nothing else changes.
pub open spec fn stopped(s: GameLoop) -> GameLoop {
    GameLoop { running: false, ..s }
}

/// What an animation frame of length `frame_time` does: a stopped loop
/// does nothing; a running one banks the time and runs the fixed updates
/// that `plan_fixed_steps` plans, keeping the rest in the bank.
pub open spec fn framed(s: GameLoop, frame_time: Span, fixed_dt: Span, max_accumulation: Span) -> (
    GameLoop,
    Option<u128>,
) {
    if !s.running {
        (s, None)
    } else {
        let total = banked(s.accumulated, frame_time, max_accumulation);
        (
            GameLoop { accumulated: Span { nanos: (total % (fixed_dt.nanos as nat)) as u128 }, ..s },
            Some((total / (fixed_dt.nanos as nat)) as u128),
        )
    }
}

impl GameLoop {
    /// A loop that has not started, with an empty bank.
    pub fn new() -> (r: GameLoop)
        ensures
            r == (GameLoop { running: false, animation_handle: None, accumulated: Span { nanos: 0 } }),
    {
        GameLoop { running: false, animation_handle: None, accumulated: Span::zero() }
    }

    /// Starts the loop. Returns whether it was stopped before, in which
    /// case the first frame is to be requested; starting a running loop
    /// does nothing.
    pub fn start(&mut self) -> (begun: bool)
        ensures
            begun == !old(self).running,
            *final(self) == started(*old(self)),
    {
        if self.running {
            return false;
        }
        self.running = true;
        true
    }

    /// Runs one animation frame of length `frame_time`. Returns how many
    /// fixed updates of length `fixed_dt` to run, or `None` when the loop
    /// is stopped (and the frame is not to be followed by another).
    pub fn frame(&mut self, frame_time: Span, fixed_dt: Span, max_accumulation: Span) -> (r: Option<u128>)
        requires
            old(self).running ==> fixed_dt.nanos > 0,
            old(self).running ==> old(self).accumulated.nanos + frame_time.nanos <= u128::MAX,
        ensures
            (*final(self), r) == framed(*old(self), frame_time, fixed_dt, max_accumulation),
            !old(self).running ==> r is None && *final(self) == *old(self),
            old(self).running ==> {
                &&& r is Some
                &&& r.unwrap() * fixed_dt.nanos + final(self).accumulated.nanos == (if old(self).accumulated.nanos
                    + frame_time.nanos > max_accumulation.nanos {
                    max_accumulation.nanos as int
                } else {
                    old(self).accumulated.nanos + frame_time.nanos
                })
                &&& final(self).accumulated.nanos < fixed_dt.nanos
                &&& final(self).running
                &&& final(self).animation_handle == old(self).animation_handle
            },
    {
        if !self.running {
            return None;
        }
        let (steps, rest) = plan_fixed_steps(self.accumulated, frame_time, fixed_dt, max_accumulation);
        self.accumulated = rest;
        Some(steps)
    }

    /// Stops the loop. Returns the handle of the last requested frame, to
    /// cancel.
    pub fn destroy(&mut self) -> (cancel: Option<i32>)
        ensures
            cancel == old(self).animation_handle,
            *final(self) == stopped(*old(self)),
    {
        self.running = false;
        self.animation_handle
    }
}

/// A running loop's frame runs the fixed updates that the old bank and the
/// frame's time hold together: the updates times `fixed_dt` plus the new
/// bank is the old bank plus the frame's time, capped at `max_accumulation`,
/// and the new bank is shorter than one update. So time banked in earlier
/// frames is never lost: two frames just shorter than a step run one
/// update between them.
pub proof fn lemma_frame_banks_the_old_time(s: GameLoop, frame_time: Span, fixed_dt: Span, max_accumulation: Span)
    requires
        s.running,
        fixed_dt.nanos > 0,
    ensures
        ({
            let (after, steps) = framed(s, frame_time, fixed_dt, max_accumulation);
            &&& steps is Some
            &&& steps.unwrap() * fixed_dt.nanos + after.accumulated.nanos == (if s.accumulated.nanos
                + frame_time.nanos > max_accumulation.nanos {
                max_accumulation.nanos as int
            } else {
                s.accumulated.nanos + frame_time.nanos
            })
            &&& after.accumulated.nanos < fixed_dt.nanos
            &&& after.running
            &&& after.animation_handle == s.animation_handle
        }),
{
    let total = banked(s.accumulated, frame_time, max_accumulation);
    lemma_split_bank(total, fixed_dt.nanos as nat);
}

/// The loop after a run of frames of the given lengths, with the fixed
/// updates each one asked for.
pub open spec fn frames(s: GameLoop, frame_times: Seq<Span>, fixed_dt: Span, max_accumulation: Span) -> (
    GameLoop,
    Seq<Option<u128>>,
)
    decreases frame_times.len(),
{
    if frame_times.len() == 0 {
        (s, Seq::empty())
    } else {
        let (before, asked) = frames(s, frame_times.drop_last(), fixed_dt, max_accumulation);
        let (after, updates) = framed(before, frame_times.last(), fixed_dt, max_accumulation);
        (after, asked.push(updates))
    }
}

/// A stopped loop (one never started, or destroyed) stays idle: however
/// many frames still arrive, none of them runs an update, and the loop is
/// left as it was.
pub proof fn lemma_destroyed_loop_idles(s: GameLoop, frame_times: Seq<Span>, fixed_dt: Span, max_accumulation: Span)
    requires
        !s.running,
    ensures
        frames(s, frame_times, fixed_dt, max_accumulation).0 == s,
        forall|k: int|
            0 <= k < frame_times.len() ==> #[trigger] frames(s, frame_times, fixed_dt, max_accumulation).1[k] is None,
        frames(s, frame_times, fixed_dt, max_accumulation).1.len() == frame_times.len(),
    decreases frame_times.len(),
{
    if frame_times.len() > 0 {
        lemma_destroyed_loop_idles(s, frame_times.drop_last(), fixed_dt, max_accumulation);
    }
}

/// Destroying a loop stops it for good: every later frame is idle.
pub proof fn lemma_destroy_ends_the_loop(s: GameLoop, frame_times: Seq<Span>, fixed_dt: Span, max_accumulation: Span)
    ensures
        frames(stopped(s), frame_times, fixed_dt, max_accumulation).0 == stopped(s),
        forall|k: int|
            0 <= k < frame_times.len() ==> #[trigger] frames(stopped(s), frame_times, fixed_dt, max_accumulation).1[k]
                is None,
{
    lemma_destroyed_loop_idles(stopped(s), frame_times, fixed_dt, max_accumulation);
}

/// Starting is idempotent, and a running loop always keeps less than one
/// fixed update in its bank after a frame.
pub proof fn lemma_start_idempotent_and_bank_bounded(
    s: GameLoop,
    frame_time: Span,
    fixed_dt: Span,
    max_accumulation: Span,
)
    requires
        fixed_dt.nanos > 0,
    ensures
        started(started(s)) == started(s),
        framed(started(s), frame_time, fixed_dt, max_accumulation).0.accumulated.nanos < fixed_dt.nanos,
        framed(started(s), frame_time, fixed_dt, max_accumulation).1 is Some,
{
    let total = banked(s.accumulated, frame_time, max_accumulation);
    vstd::arithmetic::div_mod::lemma_mod_bound(total as int, fixed_dt.nanos as int);
}

/// A respawn tick goes timer by timer, in order: a timer is due exactly when
/// its remaining time is at most the tick's length, and is then listed with
/// the side recorded with it, or red where none was; a timer not yet due
/// has the tick's length taken off.
pub proof fn lemma_respawn_timer_by_timer(pending: Seq<PendingRespawn>, dt: Span, j: int)
    requires
        0 <= j < pending.len(),
    ensures
        due_respawns(pending.take(j + 1), dt) == (if pending[j].timer.remaining.nanos <= dt.nanos {
            due_respawns(pending.take(j), dt).push(
                (
                    pending[j].entity,
                    match pending[j].ship_faction {
                        Some(f) => f,
                        None => Faction::Red,
                    },
                ),
            )
        } else {
            due_respawns(pending.take(j), dt)
        }),
        pending[j].timer.remaining.nanos > dt.nanos ==> ticked(pending[j], dt) == (PendingRespawn {
            entity: pending[j].entity,
            timer: RespawnTimer { remaining: Span { nanos: (pending[j].timer.remaining.nanos - dt.nanos) as u128 } },
            ship_faction: pending[j].ship_faction,
        }),
{
    assert(pending.take(j + 1).drop_last() =~= pending.take(j));
    assert(pending.take(j + 1).last() == pending[j]);
}

/// Starting and destroying only switch the loop on and off: starting a
/// destroyed loop is starting it, destroying a started loop is destroying
/// it, and neither touches the frame handle or the bank.
pub proof fn lemma_start_and_destroy_switch(s: GameLoop)
    ensures
        started(s).running,
        !stopped(s).running,
        started(stopped(s)) == started(s),
        stopped(started(s)) == stopped(s),
        started(s).animation_handle == s.animation_handle && started(s).accumulated == s.accumulated,
        stopped(s).animation_handle == s.animation_handle && stopped(s).accumulated == s.accumulated,
{
}

} // verus!
