//! Game rules of a small tile-based role-playing game: room geometry,
//! map carving, dice-based combat, quest flags, journal and the effects
//! that scripted interactions have on the player.

pub mod rect;
pub mod components;
pub mod stage;
pub mod map;
pub mod rpg;
pub mod progress;
pub mod global;
pub mod interact;
pub mod text;
pub mod combat;
pub mod input;
