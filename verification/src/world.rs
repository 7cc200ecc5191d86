//! The world: every component table, the map, the log, the random
//! generator and the turn state, bundled into one context that each system
//! takes by reference.  Entities are indices; all state lives in parallel
//! tables keyed by entity index, and a well-formedness invariant ties the
//! tables together.

use vstd::prelude::*;
use vstd::string::StringExecFns;
use crate::components::{
    Position, Viewshed, CombatStats, WantsToMelee, WantsToPickupItem, WantsToDropItem,
    WantsToUseItem, InBackpack, Ranged, ProvidesHealing, InflictsDamage, AreaOfEffect, Confusion,
    RunState, MainMenuSelection,
};
use crate::gamelog::GameLog;
use crate::map::{GameMap, in_map, MAPCOUNT};

verus! {

/// Upper bound kept on every stat, heal amount and damage amount, so that
/// stat arithmetic stays far from the integer limits.
pub const STAT_BOUND: i32 = 100000;

/// Upper bound kept on sight ranges and blast radii.
pub const RANGE_BOUND: i32 = 100;

pub struct World {
    pub alive: Vec<bool>,
    pub positions: Vec<Option<Position>>,
    pub viewsheds: Vec<Option<Viewshed>>,
    pub monsters: Vec<bool>,
    pub names: Vec<String>,
    pub blocks_tile: Vec<bool>,
    pub combat_stats: Vec<Option<CombatStats>>,
    pub suffer_damage: Vec<Vec<i32>>,
    pub items: Vec<bool>,
    pub consumables: Vec<bool>,
    pub ranged: Vec<Option<Ranged>>,
    pub provides_healing: Vec<Option<ProvidesHealing>>,
    pub inflicts_damage: Vec<Option<InflictsDamage>>,
    pub aoe: Vec<Option<AreaOfEffect>>,
    pub in_backpack: Vec<Option<InBackpack>>,
    pub confusion: Vec<Option<Confusion>>,
    pub wants_to_melee: Vec<Option<WantsToMelee>>,
    pub wants_to_pickup: Vec<Option<WantsToPickupItem>>,
    pub wants_to_drop: Vec<Option<WantsToDropItem>>,
    pub wants_to_use: Vec<Option<WantsToUseItem>>,
    /// The one player entity.
    pub player: usize,
    pub map: GameMap,
    pub log: GameLog,
    pub rng: rltk::RandomNumberGenerator,
    pub run_state: RunState,
}

/// Bounds kept on one stats block.
pub open spec fn stat_ok(s: CombatStats) -> bool {
    0 <= s.hp <= s.max_hp <= STAT_BOUND && 0 <= s.defense <= STAT_BOUND
        && 0 <= s.power <= STAT_BOUND
}

impl World {
    /// Number of entity slots ever created.
    pub open spec fn n(self) -> int {
        self.alive.len() as int
    }

    /// Every component table covers exactly the created entities.
    pub open spec fn tables_wf(self) -> bool {
        &&& self.positions.len() == self.alive.len()
        &&& self.viewsheds.len() == self.alive.len()
        &&& self.monsters.len() == self.alive.len()
        &&& self.names.len() == self.alive.len()
        &&& self.blocks_tile.len() == self.alive.len()
        &&& self.combat_stats.len() == self.alive.len()
        &&& self.suffer_damage.len() == self.alive.len()
        &&& self.items.len() == self.alive.len()
        &&& self.consumables.len() == self.alive.len()
        &&& self.ranged.len() == self.alive.len()
        &&& self.provides_healing.len() == self.alive.len()
        &&& self.inflicts_damage.len() == self.alive.len()
        &&& self.aoe.len() == self.alive.len()
        &&& self.in_backpack.len() == self.alive.len()
        &&& self.confusion.len() == self.alive.len()
        &&& self.wants_to_melee.len() == self.alive.len()
        &&& self.wants_to_pickup.len() == self.alive.len()
        &&& self.wants_to_drop.len() == self.alive.len()
        &&& self.wants_to_use.len() == self.alive.len()
    }

    /// Per-component bounds: stats stay within `0..=max_hp` and the global
    /// bound, ranges and radii are small, queued damage is non-negative,
    /// and every stored coordinate lies on the map.
    pub open spec fn comps_wf(self) -> bool {
        &&& forall|e: int|
            0 <= e < self.n() && (#[trigger] self.combat_stats@[e]) is Some
                ==> stat_ok(self.combat_stats@[e].unwrap())
        &&& forall|e: int|
            0 <= e < self.n() && (#[trigger] self.provides_healing@[e]) is Some
                ==> 0 <= self.provides_healing@[e].unwrap().heal_amount <= STAT_BOUND
        &&& forall|e: int|
            0 <= e < self.n() && (#[trigger] self.inflicts_damage@[e]) is Some
                ==> 0 <= self.inflicts_damage@[e].unwrap().damage <= STAT_BOUND
        &&& forall|e: int|
            0 <= e < self.n() && (#[trigger] self.aoe@[e]) is Some
                ==> 0 <= self.aoe@[e].unwrap().radius <= RANGE_BOUND
        &&& forall|e: int|
            0 <= e < self.n() && (#[trigger] self.ranged@[e]) is Some
                ==> 0 <= self.ranged@[e].unwrap().range <= RANGE_BOUND
        &&& forall|e: int|
            0 <= e < self.n() && (#[trigger] self.viewsheds@[e]) is Some
                ==> 0 <= self.viewsheds@[e].unwrap().range <= RANGE_BOUND
        &&& forall|e: int, k: int|
            0 <= e < self.n() && (#[trigger] self.viewsheds@[e]) is Some
                && 0 <= k < self.viewsheds@[e].unwrap().visible_tiles@.len()
                ==> #[trigger] self.viewsheds@[e].unwrap().visible_tiles@[k] < MAPCOUNT
        &&& forall|e: int|
            0 <= e < self.n() && (#[trigger] self.confusion@[e]) is Some
                ==> 1 <= self.confusion@[e].unwrap().turns <= STAT_BOUND
        &&& forall|e: int, k: int|
            0 <= e < self.n() && 0 <= k < self.suffer_damage@[e]@.len()
                ==> 0 <= #[trigger] self.suffer_damage@[e]@[k] <= STAT_BOUND
        &&& forall|e: int|
            0 <= e < self.n() && (#[trigger] self.positions@[e]) is Some
                ==> in_map(
                    self.positions@[e].unwrap().x as int,
                    self.positions@[e].unwrap().y as int,
                )
        &&& forall|e: int|
            0 <= e < self.n() && (#[trigger] self.in_backpack@[e]) is Some
                ==> self.in_backpack@[e].unwrap().owner < self.n()
        &&& forall|e: int|
            0 <= e < self.n() && (#[trigger] self.wants_to_melee@[e]) is Some
                ==> self.wants_to_melee@[e].unwrap().target < self.n()
        &&& forall|e: int|
            0 <= e < self.n() && (#[trigger] self.wants_to_pickup@[e]) is Some
                ==> self.wants_to_pickup@[e].unwrap().item < self.n()
                    && self.wants_to_pickup@[e].unwrap().collected_by < self.n()
        &&& forall|e: int|
            0 <= e < self.n() && (#[trigger] self.wants_to_drop@[e]) is Some
                ==> self.wants_to_drop@[e].unwrap().item < self.n()
        &&& forall|e: int|
            0 <= e < self.n() && (#[trigger] self.wants_to_use@[e]) is Some
                ==> self.wants_to_use@[e].unwrap().item < self.n()
                    && (self.wants_to_use@[e].unwrap().target is Some
                        ==> in_map(
                            self.wants_to_use@[e].unwrap().target.unwrap().x as int,
                            self.wants_to_use@[e].unwrap().target.unwrap().y as int,
                        ))
        &&& forall|e: int|
            0 <= e < self.n()
                ==> !((#[trigger] self.positions@[e]) is Some && self.in_backpack@[e] is Some)
        &&& forall|e: int|
            0 <= e < self.n() && !(#[trigger] self.alive@[e])
                ==> self.positions@[e] is None && self.in_backpack@[e] is None
                    && self.combat_stats@[e] is None && self.wants_to_melee@[e] is None
                    && self.wants_to_pickup@[e] is None && self.wants_to_drop@[e] is None
                    && self.wants_to_use@[e] is None && self.suffer_damage@[e]@.len() == 0
    }

    /// The designated player entity exists, lives, stands on the map and
    /// carries stats and a viewshed; it is never a monster or an item.
    pub open spec fn player_wf(self) -> bool {
        &&& self.player < self.n()
        &&& self.alive@[self.player as int]
        &&& self.positions@[self.player as int] is Some
        &&& self.combat_stats@[self.player as int] is Some
        &&& self.viewsheds@[self.player as int] is Some
        &&& !self.monsters@[self.player as int]
        &&& !self.items@[self.player as int]
        &&& self.in_backpack@[self.player as int] is None
    }

    /// Every entity listed as a tile occupant is a created entity.
    pub open spec fn content_wf(self) -> bool {
        forall|i: int, k: int|
            0 <= i < self.map.tile_content@.len() && 0 <= k < self.map.tile_content@[i]@.len()
                ==> #[trigger] self.map.tile_content@[i]@[k] < self.n()
    }

    /// The world invariant every system preserves.
    pub open spec fn wf(self) -> bool {
        &&& self.tables_wf()
        &&& self.comps_wf()
        &&& self.player_wf()
        &&& self.map.inv()
        &&& self.content_wf()
    }

    /// The player's current tile.
    pub open spec fn player_position(self) -> Position
        recommends
            self.player_wf(),
            self.tables_wf(),
    {
        self.positions@[self.player as int].unwrap()
    }

    /// Builds a world holding only the player, standing at `(px, py)` on
    /// the given map, with the opening log line and the main menu showing.
    pub fn new(map: GameMap, px: i32, py: i32, rng: rltk::RandomNumberGenerator) -> (w: World)
        requires
            map.inv(),
            in_map(px as int, py as int),
            forall|i: int| 0 <= i < MAPCOUNT ==> (#[trigger] map.tile_content@[i])@.len() == 0,
        ensures
            w.wf(),
            w.n() == 1,
            w.player == 0,
            w.map == map,
            w.positions@[0] == Some(Position { x: px, y: py }),
            w.combat_stats@[0] == Some(
                CombatStats { max_hp: 30, hp: 30, defense: 2, power: 5 },
            ),
            w.run_state == (RunState::MainMenu { menu_selection: MainMenuSelection::NewGame }),
            w.monsters@[0] == false,
            w.items@[0] == false,
            w.alive@[0],
            w.log.entries@.len() == 1,
            w.log.entries@[0]@ == "Welcome to Rusty Roguelike"@,
    {
        let visible: Vec<usize> = Vec::new();
        let empty_damage: Vec<i32> = Vec::new();
        let mut entries: Vec<String> = Vec::new();
        entries.push(String::from_str("Welcome to Rusty Roguelike"));
        proof {
            assert(entries@[0]@ == "Welcome to Rusty Roguelike"@);
        }
        World {
            alive: vec![true],
            positions: vec![Some(Position { x: px, y: py })],
            viewsheds: vec![Some(Viewshed { visible_tiles: visible, range: 8, dirty: true })],
            monsters: vec![false],
            names: vec![String::from_str("Player")],
            blocks_tile: vec![true],
            combat_stats: vec![Some(CombatStats { max_hp: 30, hp: 30, defense: 2, power: 5 })],
            suffer_damage: vec![empty_damage],
            items: vec![false],
            consumables: vec![false],
            ranged: vec![None],
            provides_healing: vec![None],
            inflicts_damage: vec![None],
            aoe: vec![None],
            in_backpack: vec![None],
            confusion: vec![None],
            wants_to_melee: vec![None],
            wants_to_pickup: vec![None],
            wants_to_drop: vec![None],
            wants_to_use: vec![None],
            player: 0,
            map,
            log: GameLog { entries },
            rng,
            run_state: RunState::MainMenu { menu_selection: MainMenuSelection::NewGame },
        }
    }
}

/// The parts untouched when one entity slot is appended: every existing
/// entity keeps all its components, and the map, log, player and turn
/// state stay as they were.
pub open spec fn grown_by_one(pre: World, post: World) -> bool {
    &&& post.n() == pre.n() + 1
    &&& forall|k: int| 0 <= k < pre.n() ==> #[trigger] post.alive@[k] == pre.alive@[k]
    &&& forall|k: int| 0 <= k < pre.n() ==> #[trigger] post.positions@[k] == pre.positions@[k]
    &&& forall|k: int| 0 <= k < pre.n() ==> #[trigger] post.viewsheds@[k] == pre.viewsheds@[k]
    &&& forall|k: int| 0 <= k < pre.n() ==> #[trigger] post.monsters@[k] == pre.monsters@[k]
    &&& forall|k: int| 0 <= k < pre.n() ==> #[trigger] post.names@[k] == pre.names@[k]
    &&& forall|k: int| 0 <= k < pre.n() ==> #[trigger] post.blocks_tile@[k] == pre.blocks_tile@[k]
    &&& forall|k: int|
        0 <= k < pre.n() ==> #[trigger] post.combat_stats@[k] == pre.combat_stats@[k]
    &&& forall|k: int|
        0 <= k < pre.n() ==> #[trigger] post.suffer_damage@[k] == pre.suffer_damage@[k]
    &&& forall|k: int| 0 <= k < pre.n() ==> #[trigger] post.items@[k] == pre.items@[k]
    &&& forall|k: int| 0 <= k < pre.n() ==> #[trigger] post.consumables@[k] == pre.consumables@[k]
    &&& forall|k: int| 0 <= k < pre.n() ==> #[trigger] post.ranged@[k] == pre.ranged@[k]
    &&& forall|k: int|
        0 <= k < pre.n() ==> #[trigger] post.provides_healing@[k] == pre.provides_healing@[k]
    &&& forall|k: int|
        0 <= k < pre.n() ==> #[trigger] post.inflicts_damage@[k] == pre.inflicts_damage@[k]
    &&& forall|k: int| 0 <= k < pre.n() ==> #[trigger] post.aoe@[k] == pre.aoe@[k]
    &&& forall|k: int| 0 <= k < pre.n() ==> #[trigger] post.in_backpack@[k] == pre.in_backpack@[k]
    &&& forall|k: int| 0 <= k < pre.n() ==> #[trigger] post.confusion@[k] == pre.confusion@[k]
    &&& forall|k: int|
        0 <= k < pre.n() ==> #[trigger] post.wants_to_melee@[k] == pre.wants_to_melee@[k]
    &&& forall|k: int|
        0 <= k < pre.n() ==> #[trigger] post.wants_to_pickup@[k] == pre.wants_to_pickup@[k]
    &&& forall|k: int|
        0 <= k < pre.n() ==> #[trigger] post.wants_to_drop@[k] == pre.wants_to_drop@[k]
    &&& forall|k: int|
        0 <= k < pre.n() ==> #[trigger] post.wants_to_use@[k] == pre.wants_to_use@[k]
    &&& post.player == pre.player
    &&& post.map == pre.map
    &&& post.log.entries == pre.log.entries
    &&& post.run_state == pre.run_state
}

impl World {
    /// Appends a fresh, living entity slot holding no components.
    fn create_entity(&mut self) -> (e: usize)
        requires
            old(self).wf(),
        ensures
            final(self).wf(),
            grown_by_one(*old(self), *final(self)),
            e == old(self).n(),
            final(self).alive@[e as int],
            final(self).positions@[e as int] is None,
            final(self).viewsheds@[e as int] is None,
            final(self).monsters@[e as int] == false,
            final(self).names@[e as int]@.len() == 0,
            final(self).blocks_tile@[e as int] == false,
            final(self).combat_stats@[e as int] is None,
            final(self).suffer_damage@[e as int]@.len() == 0,
            final(self).items@[e as int] == false,
            final(self).consumables@[e as int] == false,
            final(self).ranged@[e as int] is None,
            final(self).provides_healing@[e as int] is None,
            final(self).inflicts_damage@[e as int] is None,
            final(self).aoe@[e as int] is None,
            final(self).in_backpack@[e as int] is None,
            final(self).confusion@[e as int] is None,
            final(self).wants_to_melee@[e as int] is None,
            final(self).wants_to_pickup@[e as int] is None,
            final(self).wants_to_drop@[e as int] is None,
            final(self).wants_to_use@[e as int] is None,
    {
        let e = self.alive.len();
        let empty_damage: Vec<i32> = Vec::new();
        self.alive.push(true);
        self.positions.push(None);
        self.viewsheds.push(None);
        self.monsters.push(false);
        self.names.push(String::new());
        self.blocks_tile.push(false);
        self.combat_stats.push(None);
        self.suffer_damage.push(empty_damage);
        self.items.push(false);
        self.consumables.push(false);
        self.ranged.push(None);
        self.provides_healing.push(None);
        self.inflicts_damage.push(None);
        self.aoe.push(None);
        self.in_backpack.push(None);
        self.confusion.push(None);
        self.wants_to_melee.push(None);
        self.wants_to_pickup.push(None);
        self.wants_to_drop.push(None);
        self.wants_to_use.push(None);
        e
    }

    /// Spawns a hostile monster standing at `(x, y)`.
    pub fn spawn_monster(&mut self, x: i32, y: i32, name: String) -> (e: usize)
        requires
            old(self).wf(),
            in_map(x as int, y as int),
        ensures
            final(self).wf(),
            grown_by_one(*old(self), *final(self)),
            e == old(self).n(),
            final(self).alive@[e as int],
            final(self).monsters@[e as int],
            final(self).blocks_tile@[e as int],
            final(self).positions@[e as int] == Some(Position { x, y }),
            final(self).combat_stats@[e as int] == Some(
                CombatStats { max_hp: 16, hp: 16, defense: 1, power: 4 },
            ),
            final(self).viewsheds@[e as int] is Some,
            final(self).viewsheds@[e as int].unwrap().range == 8,
            final(self).viewsheds@[e as int].unwrap().dirty,
            final(self).items@[e as int] == false,
            final(self).consumables@[e as int] == false,
            final(self).in_backpack@[e as int] is None,
            final(self).confusion@[e as int] is None,
            final(self).provides_healing@[e as int] is None,
            final(self).inflicts_damage@[e as int] is None,
            final(self).ranged@[e as int] is None,
            final(self).aoe@[e as int] is None,
            final(self).suffer_damage@[e as int]@.len() == 0,
            final(self).wants_to_melee@[e as int] is None,
            final(self).wants_to_pickup@[e as int] is None,
            final(self).wants_to_drop@[e as int] is None,
            final(self).wants_to_use@[e as int] is None,
    {
        let e = self.create_entity();
        let visible: Vec<usize> = Vec::new();
        self.positions[e] = Some(Position { x, y });
        self.viewsheds[e] = Some(Viewshed { visible_tiles: visible, range: 8, dirty: true });
        self.monsters[e] = true;
        self.blocks_tile[e] = true;
        self.combat_stats[e] = Some(CombatStats { max_hp: 16, hp: 16, defense: 1, power: 4 });
        self.names[e] = name;
        e
    }

    /// Spawns an item lying at `(x, y)`: consumable, and carrying whichever
    /// of the healing, damage, range and blast components are given.
    pub fn spawn_item(
        &mut self,
        x: i32,
        y: i32,
        name: String,
        healing: Option<ProvidesHealing>,
        damage: Option<InflictsDamage>,
        item_range: Option<Ranged>,
        blast: Option<AreaOfEffect>,
    ) -> (e: usize)
        requires
            old(self).wf(),
            in_map(x as int, y as int),
            healing is Some ==> 0 <= healing.unwrap().heal_amount <= STAT_BOUND,
            damage is Some ==> 0 <= damage.unwrap().damage <= STAT_BOUND,
            item_range is Some ==> 0 <= item_range.unwrap().range <= RANGE_BOUND,
            blast is Some ==> 0 <= blast.unwrap().radius <= RANGE_BOUND,
        ensures
            final(self).wf(),
            grown_by_one(*old(self), *final(self)),
            e == old(self).n(),
            final(self).alive@[e as int],
            final(self).items@[e as int],
            final(self).consumables@[e as int],
            final(self).monsters@[e as int] == false,
            final(self).blocks_tile@[e as int] == false,
            final(self).positions@[e as int] == Some(Position { x, y }),
            final(self).provides_healing@[e as int] == healing,
            final(self).inflicts_damage@[e as int] == damage,
            final(self).ranged@[e as int] == item_range,
            final(self).aoe@[e as int] == blast,
            final(self).combat_stats@[e as int] is None,
            final(self).in_backpack@[e as int] is None,
            final(self).blocks_tile@[e as int] == false,
            final(self).viewsheds@[e as int] is None,
            final(self).confusion@[e as int] is None,
            final(self).suffer_damage@[e as int]@.len() == 0,
            final(self).wants_to_melee@[e as int] is None,
            final(self).wants_to_pickup@[e as int] is None,
            final(self).wants_to_drop@[e as int] is None,
            final(self).wants_to_use@[e as int] is None,
    {
        let e = self.create_entity();
        self.positions[e] = Some(Position { x, y });
        self.items[e] = true;
        self.consumables[e] = true;
        self.provides_healing[e] = healing;
        self.inflicts_damage[e] = damage;
        self.ranged[e] = item_range;
        self.aoe[e] = blast;
        self.names[e] = name;
        e
    }

    /// Deletes the entity: it stops living and every component it held is
    /// removed.  The player is never deleted this way.
    pub fn delete_entity(&mut self, e: usize)
        requires
            old(self).wf(),
            e < old(self).n(),
            e != old(self).player,
        ensures
            final(self).wf(),
            final(self).n() == old(self).n(),
            !final(self).alive@[e as int],
            final(self).positions@[e as int] is None,
            final(self).in_backpack@[e as int] is None,
            final(self).monsters@[e as int] == false,
            final(self).items@[e as int] == false,
            final(self).combat_stats@[e as int] is None,
            forall|k: int|
                0 <= k < old(self).n() && k != e
                    ==> #[trigger] final(self).alive@[k] == old(self).alive@[k]
                        && final(self).positions@[k] == old(self).positions@[k]
                        && final(self).viewsheds@[k] == old(self).viewsheds@[k]
                        && final(self).monsters@[k] == old(self).monsters@[k]
                        && final(self).names@[k] == old(self).names@[k]
                        && final(self).blocks_tile@[k] == old(self).blocks_tile@[k]
                        && final(self).combat_stats@[k] == old(self).combat_stats@[k]
                        && final(self).suffer_damage@[k] == old(self).suffer_damage@[k]
                        && final(self).items@[k] == old(self).items@[k]
                        && final(self).consumables@[k] == old(self).consumables@[k]
                        && final(self).ranged@[k] == old(self).ranged@[k]
                        && final(self).provides_healing@[k] == old(self).provides_healing@[k]
                        && final(self).inflicts_damage@[k] == old(self).inflicts_damage@[k]
                        && final(self).aoe@[k] == old(self).aoe@[k]
                        && final(self).in_backpack@[k] == old(self).in_backpack@[k]
                        && final(self).confusion@[k] == old(self).confusion@[k]
                        && final(self).wants_to_melee@[k] == old(self).wants_to_melee@[k]
                        && final(self).wants_to_pickup@[k] == old(self).wants_to_pickup@[k]
                        && final(self).wants_to_drop@[k] == old(self).wants_to_drop@[k]
                        && final(self).wants_to_use@[k] == old(self).wants_to_use@[k],
            final(self).player == old(self).player,
            final(self).map == old(self).map,
            final(self).log.entries == old(self).log.entries,
            final(self).run_state == old(self).run_state,
    {
        let empty_damage: Vec<i32> = Vec::new();
        self.alive[e] = false;
        self.positions[e] = None;
        self.viewsheds[e] = None;
        self.monsters[e] = false;
        self.blocks_tile[e] = false;
        self.combat_stats[e] = None;
        self.suffer_damage[e] = empty_damage;
        self.items[e] = false;
        self.consumables[e] = false;
        self.ranged[e] = None;
        self.provides_healing[e] = None;
        self.inflicts_damage[e] = None;
        self.aoe[e] = None;
        self.in_backpack[e] = None;
        self.confusion[e] = None;
        self.wants_to_melee[e] = None;
        self.wants_to_pickup[e] = None;
        self.wants_to_drop[e] = None;
        self.wants_to_use[e] = None;
    }
}

} // verus!
