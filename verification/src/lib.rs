//! Core of a turn-based dungeon simulation: a procedurally generated map of
//! rectangular rooms and corridors, entities with positions and stats, a
//! field-of-view model, hostile-path-finding monsters, and deterministic
//! combat and inventory resolution, all sequenced by an explicit turn state
//! machine.  Rendering, raw input and persistence are left to outside
//! collaborators; the core receives already-resolved intents and appends
//! plain text lines to an ordered log.

pub mod ai;
pub mod combat;
pub mod components;
pub mod connectivity;
pub mod game_state;
pub mod gamelog;
pub mod inventory;
pub mod map;
pub mod pathfind;
pub mod player;
pub mod rect;
pub mod rng;
pub mod spatial;
pub mod spawner;
pub mod visibility;
pub mod world;

pub use rect::Rect;
