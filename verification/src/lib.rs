//! Verified game rules of a three-faction space duel: factions, time spans,
//! ship components, skills, weapons, the AI behaviour machine, the combat
//! bookkeeping and the fixed-step frame scheduler.
pub mod config;
pub mod time;
pub mod ecs;
pub mod game;
pub mod app;
