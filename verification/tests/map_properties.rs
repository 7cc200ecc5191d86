//! Map generation, visibility and spatial-index properties.

use blast::game_state::State;
use blast::map::{GameMap, TileType, MAPCOUNT, MAPWIDTH, MAPHEIGHT};
use blast::rect::Rect;
use blast::rng::rng_seeded;
use blast::visibility::field_of_view;
use blast::world::World;

fn floor_bfs_reachable(map: &GameMap, from: (i32, i32), to: (i32, i32)) -> bool {
    let w = MAPWIDTH as i32;
    let h = MAPHEIGHT as i32;
    let idx = |x: i32, y: i32| (y * w + x) as usize;
    let mut seen = vec![false; MAPCOUNT];
    let mut queue = std::collections::VecDeque::new();
    seen[idx(from.0, from.1)] = true;
    queue.push_back(from);
    while let Some((x, y)) = queue.pop_front() {
        if (x, y) == to {
            return true;
        }
        for (dx, dy) in [(1, 0), (-1, 0), (0, 1), (0, -1)] {
            let (nx, ny) = (x + dx, y + dy);
            if nx >= 0 && nx < w && ny >= 0 && ny < h && !seen[idx(nx, ny)]
                && map.tiles[idx(nx, ny)] == TileType::Floor
            {
                seen[idx(nx, ny)] = true;
                queue.push_back((nx, ny));
            }
        }
    }
    false
}

#[test]
fn generated_rooms_are_all_reachable_from_the_first() {
    for seed in [1u64, 7, 42, 12345] {
        let mut rng = rng_seeded(seed);
        let (map, first) = GameMap::new_map(1, &mut rng);
        assert!(!map.rooms.is_empty());
        assert_eq!(first.center(), map.rooms[0].center());
        let start = map.rooms[0].center();
        for room in &map.rooms {
            assert!(
                floor_bfs_reachable(&map, start, room.center()),
                "room center unreachable for seed {}",
                seed
            );
        }
    }
}

#[test]
fn generated_rooms_do_not_overlap() {
    let mut rng = rng_seeded(99);
    let (map, _) = GameMap::new_map(1, &mut rng);
    for i in 0..map.rooms.len() {
        for j in (i + 1)..map.rooms.len() {
            assert!(!map.rooms[i].intersect(&map.rooms[j]));
        }
    }
}

#[test]
fn rect_new_center_intersect() {
    let r = Rect::new(10, 12, 6, 8);
    assert_eq!(r.lft, 10);
    assert_eq!(r.top, 12);
    assert_eq!(r.rht, 16);
    assert_eq!(r.bot, 20);
    assert_eq!(r.center(), (13, 16));
    let other = Rect::new(15, 15, 4, 4);
    assert!(r.intersect(&other));
    let far = Rect::new(40, 40, 5, 5);
    assert!(!r.intersect(&far));
}

fn open_map() -> GameMap {
    let mut tiles = vec![TileType::Floor; MAPCOUNT];
    for x in 0..MAPWIDTH {
        tiles[x] = TileType::Wall;
        tiles[(MAPHEIGHT - 1) * MAPWIDTH + x] = TileType::Wall;
    }
    for y in 0..MAPHEIGHT {
        tiles[y * MAPWIDTH] = TileType::Wall;
        tiles[y * MAPWIDTH + MAPWIDTH - 1] = TileType::Wall;
    }
    GameMap {
        tiles,
        rooms: Vec::new(),
        width: MAPWIDTH as i32,
        height: MAPHEIGHT as i32,
        revealed_tiles: vec![false; MAPCOUNT],
        visible_tiles: vec![false; MAPCOUNT],
        blocked: vec![false; MAPCOUNT],
        tile_content: vec![Vec::new(); MAPCOUNT],
        depth: 1,
    }
}

#[test]
fn field_of_view_is_deterministic() {
    let map = open_map();
    let a = field_of_view(&map, 10, 10, 8);
    let b = field_of_view(&map, 10, 10, 8);
    assert_eq!(a, b);
    let own_tile = 10 * MAPWIDTH + 10;
    assert!(a.contains(&own_tile));
}

#[test]
fn field_of_view_is_bounded_by_walls_and_range() {
    let mut map = open_map();
    // a wall column between the viewer and the right side
    for y in 1..(MAPHEIGHT - 1) {
        map.tiles[y * MAPWIDTH + 12] = TileType::Wall;
    }
    let vt = field_of_view(&map, 10, 10, 8);
    // a tile well behind the wall is not seen
    assert!(!vt.contains(&(10 * MAPWIDTH + 15)));
    // the wall itself is seen
    assert!(vt.contains(&(10 * MAPWIDTH + 12)));
    // a tile out of range is not seen
    assert!(!vt.contains(&(10 * MAPWIDTH + 30)));
}

fn world_on(map: GameMap, px: i32, py: i32) -> World {
    World::new(map, px, py, rng_seeded(5))
}

#[test]
fn spatial_index_twice_is_identical() {
    let mut w = world_on(open_map(), 10, 10);
    w.spawn_monster(12, 10, String::from("Orc"));
    w.spawn_monster(20, 20, String::from("Goblin"));
    w.map_indexing_system();
    let blocked_once = w.map.blocked.clone();
    let content_once = w.map.tile_content.clone();
    w.map_indexing_system();
    assert_eq!(w.map.blocked, blocked_once);
    assert_eq!(w.map.tile_content, content_once);
}

#[test]
fn spatial_index_tracks_walls_and_blockers() {
    let mut w = world_on(open_map(), 10, 10);
    let orc = w.spawn_monster(12, 10, String::from("Orc"));
    let potion = w.spawn_item(14, 10, String::from("Health Potion"), None, None, None, None);
    w.map_indexing_system();
    let idx = |x: usize, y: usize| y * MAPWIDTH + x;
    assert!(w.map.blocked[idx(0, 0)], "wall tiles are blocked");
    assert!(w.map.blocked[idx(12, 10)], "a monster blocks its tile");
    assert!(!w.map.blocked[idx(14, 10)], "an item does not block");
    assert_eq!(w.map.tile_content[idx(12, 10)], vec![orc]);
    assert_eq!(w.map.tile_content[idx(14, 10)], vec![potion]);
    assert!(w.map.blocked[idx(10, 10)], "the player blocks its tile");
}

#[test]
fn monster_approaches_player_along_a_route() {
    let mut w = world_on(open_map(), 10, 10);
    let orc = w.spawn_monster(15, 10, String::from("Orc"));
    // the monster sees the player
    let ptile = 10 * MAPWIDTH + 10;
    if let Some(v) = &mut w.viewsheds[orc] {
        v.visible_tiles.push(ptile);
        v.dirty = false;
    }
    w.run_state = blast::components::RunState::MonsterTurn;
    w.map_indexing_system();
    w.monster_ai_system();
    let pos = w.positions[orc].unwrap();
    let d0 = (15 - 10i32).abs().max(0);
    let d1 = (pos.x - 10).abs().max((pos.y - 10).abs());
    assert!(d1 < d0, "the monster moved closer: {:?}", pos);
}

#[test]
fn walled_in_monster_stays_put() {
    let mut map = open_map();
    // a sealed chamber around (30, 10)
    for (x, y) in [
        (29, 9), (30, 9), (31, 9), (29, 10), (31, 10), (29, 11), (30, 11), (31, 11),
    ] {
        map.tiles[y * MAPWIDTH + x] = TileType::Wall;
    }
    let mut w = world_on(map, 10, 10);
    let orc = w.spawn_monster(30, 10, String::from("Orc"));
    let ptile = 10 * MAPWIDTH + 10;
    if let Some(v) = &mut w.viewsheds[orc] {
        v.visible_tiles.push(ptile);
        v.dirty = false;
    }
    w.run_state = blast::components::RunState::MonsterTurn;
    w.map_indexing_system();
    w.monster_ai_system();
    let pos = w.positions[orc].unwrap();
    assert_eq!((pos.x, pos.y), (30, 10), "no route, so the monster is stationary");
}

#[test]
fn new_game_starts_at_main_menu_with_welcome_line() {
    let s = State::new_game_seeded(3);
    assert!(matches!(
        s.ecs.run_state,
        blast::components::RunState::MainMenu { .. }
    ));
    assert_eq!(s.ecs.log.entries[0], "Welcome to Rusty Roguelike");
    // the player stands at the centre of the first room
    let c = s.ecs.map.rooms[0].center();
    let p = s.ecs.positions[s.ecs.player].unwrap();
    assert_eq!((p.x, p.y), c);
}
