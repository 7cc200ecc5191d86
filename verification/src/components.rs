//! Plain data attached to entities, and the values driving the turn
//! machine.  Entities are indices into the world's parallel component
//! tables; a component an entity lacks is `None` in its table.
//!
//! The `WantsTo` components are one-shot intents: a system consumes and
//! clears them in the same turn, and inserting an intent over a pending
//! one of the same kind replaces it — last write wins.

use vstd::prelude::*;

verus! {

/// Grid coordinate of an entity; unique per entity and mutated only by
/// movement, pickup and drop resolution.
#[derive(Clone, Copy, Debug, PartialEq, Eq, Structural)]
pub struct Position {
    pub x: i32,
    pub y: i32,
}

/// What an entity currently sees: the set of visible tile indices, its
/// sight range, and whether the set is stale and due for recomputation.
#[derive(Clone, Debug)]
pub struct Viewshed {
    pub visible_tiles: Vec<usize>,
    pub range: i32,
    pub dirty: bool,
}

/// Hit points and melee stats; `hp` is kept within `0..=max_hp`.
#[derive(Clone, Copy, Debug, PartialEq, Eq, Structural)]
pub struct CombatStats {
    pub max_hp: i32,
    pub hp: i32,
    pub defense: i32,
    pub power: i32,
}

/// Intent: melee the target entity this turn.
#[derive(Clone, Copy, Debug, PartialEq, Eq, Structural)]
pub struct WantsToMelee {
    pub target: usize,
}

/// Intent: pick the item up off the floor into the collector's backpack.
#[derive(Clone, Copy, Debug, PartialEq, Eq, Structural)]
pub struct WantsToPickupItem {
    pub collected_by: usize,
    pub item: usize,
}

/// Intent: drop the item at the dropper's current tile.
#[derive(Clone, Copy, Debug, PartialEq, Eq, Structural)]
pub struct WantsToDropItem {
    pub item: usize,
}

/// Intent: use the item, optionally aimed at a target tile.
#[derive(Clone, Copy, Debug, PartialEq, Eq, Structural)]
pub struct WantsToUseItem {
    pub item: usize,
    pub target: Option<Position>,
}

/// The item sits in the owner's backpack rather than on the map.
#[derive(Clone, Copy, Debug, PartialEq, Eq, Structural)]
pub struct InBackpack {
    pub owner: usize,
}

/// The item must be aimed at a tile within this range of the user.
#[derive(Clone, Copy, Debug, PartialEq, Eq, Structural)]
pub struct Ranged {
    pub range: i32,
}

/// Using the item restores this many hit points, capped at `max_hp`.
#[derive(Clone, Copy, Debug, PartialEq, Eq, Structural)]
pub struct ProvidesHealing {
    pub heal_amount: i32,
}

/// Using the item queues this much damage on each target.
#[derive(Clone, Copy, Debug, PartialEq, Eq, Structural)]
pub struct InflictsDamage {
    pub damage: i32,
}

/// The item affects every entity within a sight-bounded blast of this
/// radius around the target tile.
#[derive(Clone, Copy, Debug, PartialEq, Eq, Structural)]
pub struct AreaOfEffect {
    pub radius: i32,
}

/// The entity loses this many more turns before it can act again.
#[derive(Clone, Copy, Debug, PartialEq, Eq, Structural)]
pub struct Confusion {
    pub turns: i32,
}

/// The outcome the main-menu collaborator reports.
#[derive(Clone, Copy, Debug, PartialEq, Eq, Structural)]
pub enum MainMenuSelection {
    NewGame,
    LoadGame,
    Quit,
}

/// The turn machine's phase; process-wide, exactly one live value,
/// replaced at the end of each tick.
#[derive(Clone, Copy, Debug, PartialEq, Eq, Structural)]
pub enum RunState {
    AwaitingInput,
    PreRun,
    PlayerTurn,
    MonsterTurn,
    ShowInventory,
    ShowDropItem,
    ShowTargeting { range: i32, item: usize },
    MainMenu { menu_selection: MainMenuSelection },
    SaveGame,
    NextLevel,
}

} // verus!
