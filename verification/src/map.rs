//! The tile grid: a map of walls and floors carved out of rock as a set of
//! non-overlapping rectangular rooms joined by L-shaped corridors, together
//! with the per-turn derived data (blocked tiles, tile occupants) and the
//! player-perspective visibility bitmaps.

use vstd::prelude::*;
use crate::rect::Rect;
use crate::rng::{rng_range, rng_roll_dice};

verus! {

pub const MAPWIDTH: usize = 80;
pub const MAPHEIGHT: usize = 43;
pub const MAPCOUNT: usize = MAPWIDTH * MAPHEIGHT;

/// Number of candidate rooms the generator tries beyond the first.
pub const MAX_ROOMS: i32 = 30;
/// Smallest room side length a candidate may have.
pub const MIN_SIZE: i32 = 6;
/// Largest room side length (exclusive bound handed to the dice).
pub const MAX_SIZE: i32 = 10;

#[derive(Clone, Copy, Debug, PartialEq, Eq, Structural)]
pub enum TileType {
    Wall,
    Floor,
}

pub struct GameMap {
    pub tiles: Vec<TileType>,
    pub rooms: Vec<Rect>,
    pub width: i32,
    pub height: i32,
    pub revealed_tiles: Vec<bool>,
    pub visible_tiles: Vec<bool>,
    /// True for every tile an entity or a wall forbids stepping onto;
    /// rebuilt once per turn by the spatial index.
    pub blocked: Vec<bool>,
    /// Entities occupying each tile; rebuilt once per turn by the spatial
    /// index and only valid for the turn in which it last ran.
    pub tile_content: Vec<Vec<usize>>,
    pub depth: i32,
}

/// True when `(x, y)` is a coordinate of the fixed-size grid.
pub open spec fn in_map(x: int, y: int) -> bool {
    0 <= x < MAPWIDTH && 0 <= y < MAPHEIGHT
}

/// Row-major tile index of a coordinate.
pub open spec fn sidx(x: int, y: int) -> int {
    y * MAPWIDTH + x
}

/// A room acceptable to the generator: it fits strictly inside the outer
/// wall ring and is wide enough for its centre to lie in its carved
/// interior.
pub open spec fn room_wf(r: Rect) -> bool {
    &&& 0 <= r.lft
    &&& r.lft + 2 <= r.rht
    &&& r.rht <= MAPWIDTH - 2
    &&& 0 <= r.top
    &&& r.top + 2 <= r.bot
    &&& r.bot <= MAPHEIGHT - 2
}

/// The centre of a room, rounding each axis down.
pub open spec fn room_center(r: Rect) -> (int, int) {
    ((r.lft + r.rht) / 2, (r.top + r.bot) / 2)
}

/// The overlap test of [`Rect::intersect`], at the spec level.
pub open spec fn rect_overlap(a: Rect, b: Rect) -> bool {
    a.lft <= b.rht && a.rht >= b.lft && a.top <= b.bot && a.bot >= b.top
}

impl GameMap {
    /// Structural invariant: the grid has its fixed dimensions, every
    /// parallel per-tile table covers it exactly, and every generated room
    /// is acceptable.
    pub open spec fn inv(self) -> bool {
        &&& self.width == MAPWIDTH
        &&& self.height == MAPHEIGHT
        &&& self.tiles.len() == MAPCOUNT
        &&& self.revealed_tiles.len() == MAPCOUNT
        &&& self.visible_tiles.len() == MAPCOUNT
        &&& self.blocked.len() == MAPCOUNT
        &&& self.tile_content.len() == MAPCOUNT
        &&& forall|i: int| 0 <= i < self.rooms.len() ==> room_wf(#[trigger] self.rooms@[i])
    }

    /// True when the tile at `(x, y)` exists and is floor.
    pub open spec fn is_floor(self, x: int, y: int) -> bool {
        in_map(x, y) && self.tiles@[sidx(x, y)] == TileType::Floor
    }

    /// Row-major index of a coordinate.
    pub fn xy_idx(&self, x: i32, y: i32) -> (r: usize)
        requires
            in_map(x as int, y as int),
        ensures
            r == sidx(x as int, y as int),
            r < MAPCOUNT,
    {
        (y as usize * MAPWIDTH) + x as usize
    }

    /// Turns the single tile at `(x, y)` to floor.  Floor is only ever
    /// added: every tile that was floor before stays floor, and every other
    /// tile keeps its kind.
    fn set_floor(&mut self, x: i32, y: i32)
        requires
            old(self).inv(),
            in_map(x as int, y as int),
        ensures
            final(self).inv(),
            final(self).is_floor(x as int, y as int),
            forall|xx: int, yy: int| old(self).is_floor(xx, yy) ==> final(self).is_floor(xx, yy),
            forall|xx: int, yy: int|
                in_map(xx, yy) && !(xx == x as int && yy == y as int)
                    ==> final(self).tiles@[sidx(xx, yy)] == old(self).tiles@[sidx(xx, yy)],
            final(self).rooms == old(self).rooms,
            final(self).revealed_tiles == old(self).revealed_tiles,
            final(self).visible_tiles == old(self).visible_tiles,
            final(self).blocked == old(self).blocked,
            final(self).tile_content == old(self).tile_content,
            final(self).depth == old(self).depth,
            final(self).width == old(self).width,
            final(self).height == old(self).height,
    {
        let idx = self.xy_idx(x, y);
        self.tiles[idx] = TileType::Floor;
        proof {
            assert forall|xx: int, yy: int|
                in_map(xx, yy) && !(xx == x as int && yy == y as int)
                implies self.tiles@[sidx(xx, yy)] == old(self).tiles@[sidx(xx, yy)] by {
                if sidx(xx, yy) == sidx(x as int, y as int) {
                    lemma_sidx_injective(xx, yy, x as int, y as int);
                }
            }
        }
    }

    /// Carves the interior of `room` as floor; every other tile keeps its
    /// kind, so floor is only ever added.
    pub fn apply_room_to_map(&mut self, room: &Rect)
        requires
            old(self).inv(),
            room_wf(*room),
        ensures
            final(self).inv(),
            forall|x: int, y: int|
                room.lft < x <= room.rht && room.top < y <= room.bot ==> final(self).is_floor(x, y),
            forall|x: int, y: int|
                in_map(x, y) && !(room.lft < x <= room.rht && room.top < y <= room.bot)
                    ==> final(self).tiles@[sidx(x, y)] == old(self).tiles@[sidx(x, y)],
            forall|x: int, y: int| old(self).is_floor(x, y) ==> final(self).is_floor(x, y),
            final(self).rooms == old(self).rooms,
            final(self).revealed_tiles == old(self).revealed_tiles,
            final(self).visible_tiles == old(self).visible_tiles,
            final(self).blocked == old(self).blocked,
            final(self).tile_content == old(self).tile_content,
            final(self).depth == old(self).depth,
            final(self).width == old(self).width,
            final(self).height == old(self).height,
    {
        let mut y: i32 = room.top + 1;
        while y <= room.bot
            invariant
                old(self).inv(),
                room_wf(*room),
                room.top + 1 <= y <= room.bot + 1,
                self.inv(),
                forall|xx: int, yy: int|
                    room.lft < xx <= room.rht && room.top < yy < y ==> self.is_floor(xx, yy),
                forall|xx: int, yy: int|
                    in_map(xx, yy) && !(room.lft < xx <= room.rht && room.top < yy < y)
                        ==> self.tiles@[sidx(xx, yy)] == old(self).tiles@[sidx(xx, yy)],
                forall|xx: int, yy: int| old(self).is_floor(xx, yy) ==> self.is_floor(xx, yy),
                self.rooms == old(self).rooms,
                self.revealed_tiles == old(self).revealed_tiles,
                self.visible_tiles == old(self).visible_tiles,
                self.blocked == old(self).blocked,
                self.tile_content == old(self).tile_content,
                self.depth == old(self).depth,
                self.width == old(self).width,
                self.height == old(self).height,
            decreases room.bot + 1 - y,
        {
            let mut x: i32 = room.lft + 1;
            while x <= room.rht
                invariant
                    old(self).inv(),
                    room_wf(*room),
                    room.top + 1 <= y <= room.bot,
                    room.lft + 1 <= x <= room.rht + 1,
                    self.inv(),
                    forall|xx: int, yy: int|
                        room.lft < xx <= room.rht && room.top < yy < y ==> self.is_floor(xx, yy),
                    forall|xx: int| room.lft < xx < x ==> self.is_floor(xx, y as int),
                    forall|xx: int, yy: int|
                        in_map(xx, yy)
                            && !(room.lft < xx <= room.rht && room.top < yy < y)
                            && !(room.lft < xx < x && yy == y)
                            ==> self.tiles@[sidx(xx, yy)] == old(self).tiles@[sidx(xx, yy)],
                    forall|xx: int, yy: int| old(self).is_floor(xx, yy) ==> self.is_floor(xx, yy),
                    self.rooms == old(self).rooms,
                    self.revealed_tiles == old(self).revealed_tiles,
                    self.visible_tiles == old(self).visible_tiles,
                    self.blocked == old(self).blocked,
                    self.tile_content == old(self).tile_content,
                    self.depth == old(self).depth,
                    self.width == old(self).width,
                    self.height == old(self).height,
                decreases room.rht + 1 - x,
            {
                self.set_floor(x, y);
                x = x + 1;
            }
            y = y + 1;
        }
    }

    /// Carves the horizontal run of tiles at row `y` between `x1` and `x2`
    /// (in either order) as floor; floor is only ever added.
    pub fn apply_horizontal_tunnel(&mut self, x1: i32, x2: i32, y: i32)
        requires
            old(self).inv(),
            in_map(x1 as int, y as int),
            in_map(x2 as int, y as int),
        ensures
            final(self).inv(),
            forall|x: int|
                min_int(x1 as int, x2 as int) <= x <= max_int(x1 as int, x2 as int)
                    ==> final(self).is_floor(x, y as int),
            forall|x: int, yy: int|
                in_map(x, yy)
                    && !(min_int(x1 as int, x2 as int) <= x <= max_int(x1 as int, x2 as int)
                        && yy == y)
                    ==> final(self).tiles@[sidx(x, yy)] == old(self).tiles@[sidx(x, yy)],
            forall|x: int, yy: int| old(self).is_floor(x, yy) ==> final(self).is_floor(x, yy),
            final(self).rooms == old(self).rooms,
            final(self).revealed_tiles == old(self).revealed_tiles,
            final(self).visible_tiles == old(self).visible_tiles,
            final(self).blocked == old(self).blocked,
            final(self).tile_content == old(self).tile_content,
            final(self).depth == old(self).depth,
            final(self).width == old(self).width,
            final(self).height == old(self).height,
    {
        let lo: i32 = if x1 < x2 { x1 } else { x2 };
        let hi: i32 = if x1 < x2 { x2 } else { x1 };
        let mut x: i32 = lo;
        while x <= hi
            invariant
                old(self).inv(),
                0 <= lo <= x <= hi + 1,
                hi < MAPWIDTH,
                lo == min_int(x1 as int, x2 as int),
                hi == max_int(x1 as int, x2 as int),
                0 <= y < MAPHEIGHT,
                self.inv(),
                forall|xx: int| lo <= xx < x ==> self.is_floor(xx, y as int),
                forall|xx: int, yy: int|
                    in_map(xx, yy) && !(lo <= xx < x && yy == y)
                        ==> self.tiles@[sidx(xx, yy)] == old(self).tiles@[sidx(xx, yy)],
                forall|xx: int, yy: int| old(self).is_floor(xx, yy) ==> self.is_floor(xx, yy),
                self.rooms == old(self).rooms,
                self.revealed_tiles == old(self).revealed_tiles,
                self.visible_tiles == old(self).visible_tiles,
                self.blocked == old(self).blocked,
                self.tile_content == old(self).tile_content,
                self.depth == old(self).depth,
                self.width == old(self).width,
                self.height == old(self).height,
            decreases hi + 1 - x,
        {
            self.set_floor(x, y);
            x = x + 1;
        }
    }

    /// Carves the vertical run of tiles at column `x` between `y1` and `y2`
    /// (in either order) as floor; floor is only ever added.
    pub fn apply_vertical_tunnel(&mut self, y1: i32, y2: i32, x: i32)
        requires
            old(self).inv(),
            in_map(x as int, y1 as int),
            in_map(x as int, y2 as int),
        ensures
            final(self).inv(),
            forall|y: int|
                min_int(y1 as int, y2 as int) <= y <= max_int(y1 as int, y2 as int)
                    ==> final(self).is_floor(x as int, y),
            forall|xx: int, yy: int|
                in_map(xx, yy)
                    && !(min_int(y1 as int, y2 as int) <= yy <= max_int(y1 as int, y2 as int)
                        && xx == x)
                    ==> final(self).tiles@[sidx(xx, yy)] == old(self).tiles@[sidx(xx, yy)],
            forall|xx: int, yy: int| old(self).is_floor(xx, yy) ==> final(self).is_floor(xx, yy),
            final(self).rooms == old(self).rooms,
            final(self).revealed_tiles == old(self).revealed_tiles,
            final(self).visible_tiles == old(self).visible_tiles,
            final(self).blocked == old(self).blocked,
            final(self).tile_content == old(self).tile_content,
            final(self).depth == old(self).depth,
            final(self).width == old(self).width,
            final(self).height == old(self).height,
    {
        let lo: i32 = if y1 < y2 { y1 } else { y2 };
        let hi: i32 = if y1 < y2 { y2 } else { y1 };
        let mut y: i32 = lo;
        while y <= hi
            invariant
                old(self).inv(),
                0 <= lo <= y <= hi + 1,
                hi < MAPHEIGHT,
                lo == min_int(y1 as int, y2 as int),
                hi == max_int(y1 as int, y2 as int),
                0 <= x < MAPWIDTH,
                self.inv(),
                forall|yy: int| lo <= yy < y ==> self.is_floor(x as int, yy),
                forall|xx: int, yy: int|
                    in_map(xx, yy) && !(lo <= yy < y && xx == x)
                        ==> self.tiles@[sidx(xx, yy)] == old(self).tiles@[sidx(xx, yy)],
                forall|xx: int, yy: int| old(self).is_floor(xx, yy) ==> self.is_floor(xx, yy),
                self.rooms == old(self).rooms,
                self.revealed_tiles == old(self).revealed_tiles,
                self.visible_tiles == old(self).visible_tiles,
                self.blocked == old(self).blocked,
                self.tile_content == old(self).tile_content,
                self.depth == old(self).depth,
                self.width == old(self).width,
                self.height == old(self).height,
            decreases hi + 1 - y,
        {
            self.set_floor(x, y);
            y = y + 1;
        }
    }
}

/// Generated maps: every accepted room is carved and joined to the room
/// accepted before it by an L-shaped corridor, so the centre of every room
/// is connected to the centre of the first.
impl GameMap {
    /// Builds the level for `new_depth`: a fixed number of candidate rooms
    /// is rolled, candidates that overlap an accepted room are rejected,
    /// and each accepted room is carved and joined to the previous one.
    /// Returns the map and its first room, whose centre is the entry point.
    pub fn new_map(new_depth: i32, rng: &mut rltk::RandomNumberGenerator) -> (res: (GameMap, Rect))
        ensures
            res.0.inv(),
            res.0.depth == new_depth,
            1 <= res.0.rooms.len(),
            res.1 == res.0.rooms@[0],
            forall|i: int, j: int|
                0 <= i < j < res.0.rooms.len()
                    ==> !rect_overlap(#[trigger] res.0.rooms@[i], #[trigger] res.0.rooms@[j]),
            forall|i: int|
                0 <= i < res.0.rooms.len()
                    ==> crate::connectivity::connected(
                        res.0,
                        room_center(res.0.rooms@[0]),
                        room_center(#[trigger] res.0.rooms@[i]),
                    ),
            forall|i: int| 0 <= i < MAPCOUNT ==> !res.0.revealed_tiles@[i],
            forall|i: int| 0 <= i < MAPCOUNT ==> !res.0.visible_tiles@[i],
            forall|i: int| 0 <= i < MAPCOUNT ==> !res.0.blocked@[i],
            forall|i: int| 0 <= i < MAPCOUNT ==> (#[trigger] res.0.tile_content@[i])@.len() == 0,
    {
        let empty_cell: Vec<usize> = Vec::new();
        let mut map = GameMap {
            tiles: vec![TileType::Wall; MAPCOUNT],
            rooms: Vec::new(),
            width: 80,
            height: 43,
            revealed_tiles: vec![false; MAPCOUNT],
            visible_tiles: vec![false; MAPCOUNT],
            blocked: vec![false; MAPCOUNT],
            tile_content: vec![empty_cell; MAPCOUNT],
            depth: new_depth,
        };

        let first_room = random_room(rng);
        map.apply_room_to_map(&first_room);
        proof {
            lemma_center_in_room(first_room);
            crate::connectivity::lemma_connected_refl(map, room_center(first_room));
        }
        map.rooms.push(first_room);

        let mut attempt: i32 = 1;
        while attempt < MAX_ROOMS
            invariant
                map.inv(),
                map.depth == new_depth,
                1 <= map.rooms.len() <= attempt,
                1 <= attempt <= MAX_ROOMS,
                forall|i: int, j: int|
                    0 <= i < j < map.rooms.len()
                        ==> !rect_overlap(#[trigger] map.rooms@[i], #[trigger] map.rooms@[j]),
                forall|i: int|
                    0 <= i < map.rooms.len()
                        ==> crate::connectivity::connected(
                            map,
                            room_center(map.rooms@[0]),
                            room_center(#[trigger] map.rooms@[i]),
                        ),
                forall|i: int| 0 <= i < MAPCOUNT ==> !map.revealed_tiles@[i],
                forall|i: int| 0 <= i < MAPCOUNT ==> !map.visible_tiles@[i],
                forall|i: int| 0 <= i < MAPCOUNT ==> !map.blocked@[i],
                forall|i: int| 0 <= i < MAPCOUNT ==> (#[trigger] map.tile_content@[i])@.len() == 0,
            decreases MAX_ROOMS - attempt,
        {
            let new_room = random_room(rng);

            let mut ok = true;
            let mut j: usize = 0;
            while j < map.rooms.len()
                invariant
                    map.inv(),
                    j <= map.rooms.len(),
                    ok <==> forall|k: int|
                        0 <= k < j ==> !rect_overlap(new_room, #[trigger] map.rooms@[k]),
                decreases map.rooms.len() - j,
            {
                if new_room.intersect(&map.rooms[j]) {
                    ok = false;
                }
                j = j + 1;
            }

            if ok {
                let ghost map0 = map;
                let ghost c0 = room_center(map.rooms@[0]);
                map.apply_room_to_map(&new_room);
                proof {
                    lemma_center_in_room(new_room);
                }

                let (new_x, new_y) = new_room.center();
                let prev_room = map.rooms[map.rooms.len() - 1];
                let (prev_x, prev_y) = prev_room.center();
                proof {
                    lemma_center_in_room(prev_room);
                }

                if rng_range(rng, 0, 2) == 1 {
                    map.apply_horizontal_tunnel(prev_x, new_x, prev_y);
                    let ghost map2 = map;
                    map.apply_vertical_tunnel(prev_y, new_y, new_x);
                    proof {
                        assert forall|x: int|
                            min_int(prev_x as int, new_x as int) <= x
                                <= max_int(prev_x as int, new_x as int)
                            implies map.is_floor(x, prev_y as int) by {
                            assert(map2.is_floor(x, prev_y as int));
                        }
                        crate::connectivity::lemma_horizontal_connected(
                            map, prev_x as int, new_x as int, prev_y as int);
                        crate::connectivity::lemma_vertical_connected(
                            map, prev_y as int, new_y as int, new_x as int);
                        crate::connectivity::lemma_connected_trans(
                            map,
                            (prev_x as int, prev_y as int),
                            (new_x as int, prev_y as int),
                            (new_x as int, new_y as int),
                        );
                    }
                } else {
                    map.apply_vertical_tunnel(prev_y, new_y, prev_x);
                    let ghost map2 = map;
                    map.apply_horizontal_tunnel(prev_x, new_x, new_y);
                    proof {
                        assert forall|y: int|
                            min_int(prev_y as int, new_y as int) <= y
                                <= max_int(prev_y as int, new_y as int)
                            implies map.is_floor(prev_x as int, y) by {
                            assert(map2.is_floor(prev_x as int, y));
                        }
                        crate::connectivity::lemma_vertical_connected(
                            map, prev_y as int, new_y as int, prev_x as int);
                        crate::connectivity::lemma_horizontal_connected(
                            map, prev_x as int, new_x as int, new_y as int);
                        crate::connectivity::lemma_connected_trans(
                            map,
                            (prev_x as int, prev_y as int),
                            (prev_x as int, new_y as int),
                            (new_x as int, new_y as int),
                        );
                    }
                }

                proof {
                    // Floors only ever grow across the three carves, so every
                    // established connection survives into the current map.
                    assert forall|x: int, y: int| map0.is_floor(x, y) implies map.is_floor(x, y) by {}
                    assert forall|i: int| 0 <= i < map.rooms.len()
                        implies crate::connectivity::connected(
                            map, c0, room_center(#[trigger] map.rooms@[i])) by {
                        crate::connectivity::lemma_connected_monotone(
                            map0, map, c0, room_center(map.rooms@[i]));
                    }
                    crate::connectivity::lemma_connected_trans(
                        map,
                        c0,
                        room_center(prev_room),
                        room_center(new_room),
                    );
                }
                map.rooms.push(new_room);
            }
            attempt = attempt + 1;
        }

        let first = map.rooms[0];
        (map, first)
    }
}

/// Rolls a candidate room: sides between the size bounds, placed anywhere
/// that keeps it strictly inside the outer wall ring.
fn random_room(rng: &mut rltk::RandomNumberGenerator) -> (r: Rect)
    ensures
        room_wf(r),
{
    let w = rng_range(rng, MIN_SIZE, MAX_SIZE);
    let h = rng_range(rng, MIN_SIZE, MAX_SIZE);
    let x = rng_roll_dice(rng, 1, 80 - w - 1) - 1;
    let y = rng_roll_dice(rng, 1, 43 - h - 1) - 1;
    Rect::new(x, y, w, h)
}

/// The centre of an acceptable room lies in its carved interior and on the
/// map.
pub proof fn lemma_center_in_room(r: Rect)
    requires
        room_wf(r),
    ensures
        r.lft < room_center(r).0 <= r.rht,
        r.top < room_center(r).1 <= r.bot,
        in_map(room_center(r).0, room_center(r).1),
{
}

/// Distinct in-map coordinates have distinct row-major indices.
pub proof fn lemma_sidx_injective(x1: int, y1: int, x2: int, y2: int)
    requires
        in_map(x1, y1),
        in_map(x2, y2),
        sidx(x1, y1) == sidx(x2, y2),
    ensures
        x1 == x2 && y1 == y2,
{
}

/// The smaller of two mathematical integers.
pub open spec fn min_int(a: int, b: int) -> int {
    if a < b { a } else { b }
}

/// The larger of two mathematical integers.
pub open spec fn max_int(a: int, b: int) -> int {
    if a < b { b } else { a }
}

} // verus!
