use vstd::prelude::*;

use crate::time::Span;

verus! {

/// The entity-component store of the game, `hecs::World`, carried through
/// the verified rules as an opaque value.
#[verifier::external_type_specification]
#[verifier::external_body]
pub struct ExWorld(hecs::World);

/// The rules a match is played under.
#[derive(Debug, Clone, Copy, PartialEq, Eq, Structural)]
pub enum GameMode {
    /// Every ship against every other (the default).
    FreeForAll,
    /// A race to a number of kills.
    DeathMatch,
    /// Last side standing.
    Survival,
    /// Capture the enemy flag.
    CaptureTheFlag,
}

/// A match's settings.
#[derive(Debug, Clone, PartialEq, Eq, Structural)]
pub struct ModeConfig {
    pub mode: GameMode,
    pub time_limit: Option<Span>,
    pub score_limit: Option<u32>,
    pub respawn_enabled: bool,
}

impl Default for ModeConfig {
    /// Free for all, without time or score limit, with respawning.
    fn default() -> (r: Self)
        ensures
            r == (ModeConfig {
                mode: GameMode::FreeForAll,
                time_limit: None,
                score_limit: None,
                respawn_enabled: true,
            }),
    {
        ModeConfig { mode: GameMode::FreeForAll, time_limit: None, score_limit: None, respawn_enabled: true }
    }
}

/// The per-update hook of the match rules. No mode adds a rule of its own
/// yet, so the world is left as it is.
pub fn mode_system(world: &mut hecs::World, config: &ModeConfig)
    ensures
        *final(world) == *old(world),
{
}

} // verus!
