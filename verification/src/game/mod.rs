pub mod ai;
pub mod combat;
pub mod modes;
pub mod physics;
pub mod render;
pub mod skills;
