//! Combat, damage and inventory properties.

use blast::components::{
    AreaOfEffect, CombatStats, InflictsDamage, Position, ProvidesHealing, Ranged, WantsToMelee,
    WantsToUseItem, WantsToPickupItem, WantsToDropItem,
};
use blast::gamelog::decimal_string;
use blast::map::{GameMap, TileType, MAPCOUNT, MAPWIDTH, MAPHEIGHT};
use blast::rng::rng_seeded;
use blast::world::World;

fn arena_map() -> GameMap {
    let mut tiles = vec![TileType::Floor; MAPCOUNT];
    for x in 0..MAPWIDTH {
        tiles[x] = TileType::Wall;
        tiles[(MAPHEIGHT - 1) * MAPWIDTH + x] = TileType::Wall;
    }
    for y in 0..MAPHEIGHT {
        tiles[y * MAPWIDTH] = TileType::Wall;
        tiles[y * MAPWIDTH + MAPWIDTH - 1] = TileType::Wall;
    }
    GameMap {
        tiles,
        rooms: Vec::new(),
        width: MAPWIDTH as i32,
        height: MAPHEIGHT as i32,
        revealed_tiles: vec![false; MAPCOUNT],
        visible_tiles: vec![false; MAPCOUNT],
        blocked: vec![false; MAPCOUNT],
        tile_content: vec![Vec::new(); MAPCOUNT],
        depth: 1,
    }
}

fn arena(px: i32, py: i32) -> World {
    World::new(arena_map(), px, py, rng_seeded(11))
}

#[test]
fn melee_damage_is_power_minus_defense_floored_at_zero() {
    let mut w = arena(10, 10);
    let orc = w.spawn_monster(11, 10, String::from("Orc"));
    // player power 5 against monster defense 1: four points of damage
    w.wants_to_melee[w.player] = Some(WantsToMelee { target: orc });
    w.melee_combat_system();
    assert_eq!(w.suffer_damage[orc], vec![5 - 1]);
    w.damage_system();
    assert_eq!(w.combat_stats[orc].unwrap().hp, 16 - 4);
    assert!(w.suffer_damage[orc].is_empty());

    // a hit that cannot pierce the defense queues nothing
    let weak = w.spawn_monster(12, 10, String::from("Goblin"));
    w.combat_stats[weak] = Some(CombatStats { max_hp: 16, hp: 16, defense: 9, power: 1 });
    let orc2 = w.spawn_monster(13, 10, String::from("Orc"));
    w.wants_to_melee[orc2] = Some(WantsToMelee { target: weak });
    w.melee_combat_system();
    assert!(w.suffer_damage[weak].is_empty());
}

#[test]
fn player_move_into_monster_attacks_it() {
    let mut w = arena(10, 10);
    let orc = w.spawn_monster(10, 11, String::from("Orc"));
    w.map_indexing_system();
    w.try_move_player(0, 1);
    // the player did not move, it attacked
    let p = w.positions[w.player].unwrap();
    assert_eq!((p.x, p.y), (10, 10));
    assert_eq!(w.wants_to_melee[w.player], Some(WantsToMelee { target: orc }));
    w.melee_combat_system();
    w.damage_system();
    assert_eq!(w.combat_stats[orc].unwrap().hp, 12);
}

#[test]
fn damage_floors_hit_points_at_zero_and_death_is_purged() {
    let mut w = arena(10, 10);
    let orc = w.spawn_monster(11, 10, String::from("Orc"));
    w.suffer_damage[orc] = vec![10, 10];
    w.damage_system();
    assert_eq!(w.combat_stats[orc].unwrap().hp, 0);
    let died = w.delete_the_dead();
    assert!(!died, "the player is alive");
    assert!(!w.alive[orc]);
    assert!(w.alive[w.player]);
}

#[test]
fn player_death_is_surfaced_not_deleted() {
    let mut w = arena(10, 10);
    let player = w.player;
    w.suffer_damage[player] = vec![50];
    w.damage_system();
    let died = w.delete_the_dead();
    assert!(died);
    assert!(w.alive[player], "the player entity is never deleted");
}

#[test]
fn healing_potion_heals_and_is_consumed() {
    let mut w = arena(10, 10);
    let player = w.player;
    w.combat_stats[player] = Some(CombatStats { max_hp: 30, hp: 10, defense: 2, power: 5 });
    let potion = w.spawn_item(
        12, 12, String::from("Health Potion"),
        Some(ProvidesHealing { heal_amount: 8 }), None, None, None);
    w.wants_to_use[player] = Some(WantsToUseItem { item: potion, target: None });
    w.map_indexing_system();
    w.item_use_system();
    assert_eq!(w.combat_stats[player].unwrap().hp, 18);
    assert!(!w.alive[potion], "the consumable is deleted after use");
    assert!(w.wants_to_use[player].is_none());
    let last = w.log.entries.last().unwrap();
    assert_eq!(last, "You drink the Health Potion, healing 8 hp");
}

#[test]
fn healing_never_exceeds_max_hp() {
    let mut w = arena(10, 10);
    let player = w.player;
    w.combat_stats[player] = Some(CombatStats { max_hp: 30, hp: 28, defense: 2, power: 5 });
    let potion = w.spawn_item(
        12, 12, String::from("Health Potion"),
        Some(ProvidesHealing { heal_amount: 8 }), None, None, None);
    w.wants_to_use[player] = Some(WantsToUseItem { item: potion, target: None });
    w.map_indexing_system();
    w.item_use_system();
    assert_eq!(w.combat_stats[player].unwrap().hp, 30);
}

#[test]
fn unused_item_is_not_consumed() {
    let mut w = arena(10, 10);
    let player = w.player;
    // aimed at an empty tile: no target carries stats, so no effect lands
    let scroll = w.spawn_item(
        12, 12, String::from("Magic Missile Scroll"), None,
        Some(InflictsDamage { damage: 8 }), Some(Ranged { range: 6 }), None);
    w.wants_to_use[player] = Some(
        WantsToUseItem { item: scroll, target: Some(Position { x: 30, y: 30 }) });
    w.map_indexing_system();
    w.item_use_system();
    assert!(w.alive[scroll], "an item with no applicable effect is kept");
}

#[test]
fn area_effect_damages_exactly_the_blast() {
    let mut w = arena(3, 3);
    // two monsters in the blast, one sealed off behind walls
    let near1 = w.spawn_monster(20, 10, String::from("Orc"));
    let near2 = w.spawn_monster(21, 10, String::from("Goblin"));
    let hidden = w.spawn_monster(20, 13, String::from("Orc"));
    for x in 17..24 {
        for y in [12usize, 14] {
            w.map.tiles[y * MAPWIDTH + x] = TileType::Wall;
        }
        w.map.tiles[13 * MAPWIDTH + x] = TileType::Floor;
    }
    w.map.tiles[13 * MAPWIDTH + 17] = TileType::Wall;
    w.map.tiles[13 * MAPWIDTH + 23] = TileType::Wall;
    let fireball = w.spawn_item(
        2, 2, String::from("Fireball Scroll"), None,
        Some(InflictsDamage { damage: 20 }), Some(Ranged { range: 6 }),
        Some(AreaOfEffect { radius: 3 }));
    w.wants_to_use[w.player] = Some(
        WantsToUseItem { item: fireball, target: Some(Position { x: 20, y: 10 }) });
    w.map_indexing_system();
    w.item_use_system();
    assert_eq!(w.suffer_damage[near1], vec![20], "monster on the target tile is hit");
    assert_eq!(w.suffer_damage[near2], vec![20], "monster next to the target is hit");
    assert!(
        w.suffer_damage[hidden].is_empty(),
        "a monster outside the blast's field of view is untouched"
    );
    assert!(!w.alive[fireball]);
}

#[test]
fn pickup_then_drop_restores_the_tile() {
    let mut w = arena(10, 10);
    let player = w.player;
    let potion = w.spawn_item(
        10, 10, String::from("Health Potion"),
        Some(ProvidesHealing { heal_amount: 8 }), None, None, None);
    w.get_item();
    assert_eq!(
        w.wants_to_pickup[player],
        Some(WantsToPickupItem { collected_by: player, item: potion })
    );
    w.item_collection_system();
    assert!(w.positions[potion].is_none());
    assert_eq!(w.in_backpack[potion].unwrap().owner, player);
    assert_eq!(w.log.entries.last().unwrap(), "You pick up the Health Potion.");

    w.wants_to_drop[player] = Some(WantsToDropItem { item: potion });
    w.item_drop_system();
    let p = w.positions[potion].unwrap();
    assert_eq!((p.x, p.y), (10, 10));
    assert!(w.in_backpack[potion].is_none());
    assert_eq!(w.log.entries.last().unwrap(), "You drop the Health Potion");
}

#[test]
fn drop_without_backpack_entry_does_nothing() {
    let mut w = arena(10, 10);
    let player = w.player;
    let potion = w.spawn_item(
        12, 12, String::from("Health Potion"),
        Some(ProvidesHealing { heal_amount: 8 }), None, None, None);
    // the item was never picked up
    w.wants_to_drop[player] = Some(WantsToDropItem { item: potion });
    w.item_drop_system();
    let p = w.positions[potion].unwrap();
    assert_eq!((p.x, p.y), (12, 12), "the item stays where it lay");
    assert!(w.in_backpack[potion].is_none());
    assert!(w.wants_to_drop[player].is_none(), "the intent is still cleared");
}

#[test]
fn pickup_with_nothing_at_feet_only_logs() {
    let mut w = arena(10, 10);
    w.get_item();
    assert!(w.wants_to_pickup[w.player].is_none());
    assert_eq!(w.log.entries.last().unwrap(), "There is nothing here to pick up.");
}

#[test]
fn decimal_rendering() {
    assert_eq!(decimal_string(0), "0");
    assert_eq!(decimal_string(8), "8");
    assert_eq!(decimal_string(20), "20");
    assert_eq!(decimal_string(100000), "100000");
    assert_eq!(decimal_string(4294967295), "4294967295");
}
