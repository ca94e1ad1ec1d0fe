pub mod components;
pub mod events;
