use vstd::prelude::*;

use crate::time::{sat_sub, Span};

verus! {

/// The special abilities a ship may carry.
#[derive(Debug, Clone, Copy, PartialEq, Eq, Structural)]
pub enum SkillType {
    Shield,
    SpeedBoost,
    ScatterShot,
    HomingMissile,
}

/// A special ability with its cooldown.
#[derive(Debug, Clone, PartialEq, Eq, Structural)]
pub struct Skill {
    pub skill_type: SkillType,
    pub cooldown: Span,
    pub remaining_cooldown: Span,
    pub duration: Span,
    pub active: bool,
}

/// A skill can be used when its cooldown has run out and it is not in use.
pub open spec fn ready(s: Skill) -> bool {
    s.remaining_cooldown.nanos == 0 && !s.active
}

/// The skill after an attempt to use it: a ready skill turns on and starts
/// its cooldown; any other is left as it was.
pub open spec fn activated(s: Skill) -> Skill {
    if ready(s) {
        Skill { active: true, remaining_cooldown: s.cooldown, ..s }
    } else {
        s
    }
}

/// The skill after a tick of length `dt`: its cooldown runs down.
pub open spec fn updated(s: Skill, dt: Span) -> Skill {
    Skill { remaining_cooldown: sat_sub(s.remaining_cooldown, dt), ..s }
}

impl Skill {
    /// A skill of the given kind, ready and not in use.
    pub fn new(skill_type: SkillType, cooldown: Span, duration: Span) -> (r: Self)
        ensures
            r == (Skill { skill_type, cooldown, remaining_cooldown: Span { nanos: 0 }, duration, active: false }),
    {
        Skill { skill_type, cooldown, remaining_cooldown: Span::zero(), duration, active: false }
    }

    /// Whether the skill can be used now.
    pub fn is_ready(&self) -> (r: bool)
        ensures
            r == ready(*self),
    {
        self.remaining_cooldown.is_zero() && !self.active
    }

    /// Uses the skill if it is ready.
    pub fn activate(&mut self)
        ensures
            *final(self) == activated(*old(self)),
    {
        if self.is_ready() {
            self.active = true;
            self.remaining_cooldown = self.cooldown;
        }
    }

    /// Runs the cooldown down by `dt`.
    pub fn update(&mut self, dt: Span)
        ensures
            *final(self) == updated(*old(self), dt),
    {
        self.remaining_cooldown = self.remaining_cooldown.saturating_sub(dt);
    }
}

/// A new skill is ready to use.
pub proof fn lemma_new_skill_ready(skill_type: SkillType, cooldown: Span, duration: Span)
    ensures
        ready(Skill { skill_type, cooldown, remaining_cooldown: Span { nanos: 0 }, duration, active: false }),
{
}

/// Using a skill twice in a row is using it once, and a used skill stays in
/// use: nothing turns it off, so no number of updates makes it ready again.
pub proof fn lemma_activation_sticks(s: Skill, dt: Span)
    ensures
        activated(activated(s)) == activated(s),
        ready(s) ==> activated(s).active && !ready(activated(s)),
        activated(s).active ==> !ready(updated(activated(s), dt)) && updated(activated(s), dt).active,
{
}

/// Updates only run the cooldown down: two updates of `a` and `b` are one
/// update of `a + b`, and only the remaining cooldown changes.
pub proof fn lemma_updates_add_up(s: Skill, a: Span, b: Span)
    requires
        a.nanos + b.nanos <= u128::MAX,
    ensures
        updated(updated(s, a), b) == updated(s, Span { nanos: (a.nanos + b.nanos) as u128 }),
        updated(s, a).remaining_cooldown.nanos <= s.remaining_cooldown.nanos,
{
}

/// A skill is ready exactly when its cooldown has run out and it is not in
/// use; using a ready skill turns it on and starts a full cooldown, using
/// any other changes nothing; an update takes the tick's length off the
/// remaining cooldown, down to zero, and changes nothing else.
pub proof fn lemma_skill_rules(s: Skill, dt: Span)
    ensures
        ready(s) <==> (s.remaining_cooldown.nanos == 0 && !s.active),
        s.remaining_cooldown.nanos == 0 && !s.active ==> activated(s) == (Skill {
            skill_type: s.skill_type,
            cooldown: s.cooldown,
            remaining_cooldown: s.cooldown,
            duration: s.duration,
            active: true,
        }),
        !(s.remaining_cooldown.nanos == 0 && !s.active) ==> activated(s) == s,
        updated(s, dt) == (Skill {
            skill_type: s.skill_type,
            cooldown: s.cooldown,
            remaining_cooldown: Span {
                nanos: if s.remaining_cooldown.nanos >= dt.nanos {
                    (s.remaining_cooldown.nanos - dt.nanos) as u128
                } else {
                    0
                },
            },
            duration: s.duration,
            active: s.active,
        }),
{
}

} // verus!
