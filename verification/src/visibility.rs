//! The visibility system: recomputes an entity's visible-tile set whenever
//! its viewshed is marked dirty.  A tile is visible when it lies within
//! sight range and a ray walked tile by tile from viewer to target (or
//! from target to viewer) meets no wall strictly between the two.
//! Visibility is a pure function of map geometry and viewer position and
//! range, so identical inputs always give the identical tile set.

use vstd::prelude::*;
use crate::map::{GameMap, TileType, sidx, in_map, MAPCOUNT, MAPWIDTH};
use crate::world::{World, RANGE_BOUND};
use crate::components::{Position, Viewshed};

verus! {

/// One step of the ray walk: move one tile toward the goal on this axis.
pub open spec fn step_toward(a: int, b: int) -> int {
    if a < b {
        a + 1
    } else if a > b {
        a - 1
    } else {
        a
    }
}

/// Squared Euclidean distance between two tiles.
pub open spec fn dist2(x0: int, y0: int, x1: int, y1: int) -> int {
    (x1 - x0) * (x1 - x0) + (y1 - y0) * (y1 - y0)
}

/// The ray from `(x0, y0)` to `(x1, y1)` walks diagonally until one axis
/// is aligned, then straight.  It is clear when no tile strictly between
/// the endpoints is a wall; the target tile itself may be a wall, so walls
/// are seen.
pub open spec fn ray_clear(tiles: Seq<TileType>, x0: int, y0: int, x1: int, y1: int) -> bool
    decreases
        (if x0 < x1 { x1 - x0 } else { x0 - x1 }) + (if y0 < y1 { y1 - y0 } else { y0 - y1 }),
{
    if x0 == x1 && y0 == y1 {
        true
    } else {
        let nx = step_toward(x0, x1);
        let ny = step_toward(y0, y1);
        if nx == x1 && ny == y1 {
            true
        } else {
            tiles[sidx(nx, ny)] != TileType::Wall && ray_clear(tiles, nx, ny, x1, y1)
        }
    }
}

/// The tile `(x1, y1)` is visible from `(x0, y0)` within `range`: it is on
/// the map, within Euclidean range, and a clear ray joins the two tiles in
/// one direction or the other (taking both directions keeps visibility
/// symmetric).
pub open spec fn spec_visible(
    tiles: Seq<TileType>,
    x0: int,
    y0: int,
    x1: int,
    y1: int,
    range: int,
) -> bool {
    &&& in_map(x1, y1)
    &&& dist2(x0, y0, x1, y1) <= range * range
    &&& (ray_clear(tiles, x0, y0, x1, y1) || ray_clear(tiles, x1, y1, x0, y0))
}

/// Walks the ray and reports whether it is clear.
fn ray_clear_exec(map: &GameMap, x0: i32, y0: i32, x1: i32, y1: i32) -> (r: bool)
    requires
        map.inv(),
        in_map(x0 as int, y0 as int),
        in_map(x1 as int, y1 as int),
    ensures
        r == ray_clear(map.tiles@, x0 as int, y0 as int, x1 as int, y1 as int),
    decreases
        (if x0 < x1 { x1 - x0 } else { x0 - x1 }) + (if y0 < y1 { y1 - y0 } else { y0 - y1 }),
{
    if x0 == x1 && y0 == y1 {
        true
    } else {
        let nx = if x0 < x1 { x0 + 1 } else if x0 > x1 { x0 - 1 } else { x0 };
        let ny = if y0 < y1 { y0 + 1 } else if y0 > y1 { y0 - 1 } else { y0 };
        if nx == x1 && ny == y1 {
            true
        } else if tile_is_wall(map, nx, ny) {
            false
        } else {
            ray_clear_exec(map, nx, ny, x1, y1)
        }
    }
}

/// Reads whether the tile at `(x, y)` is a wall.
fn tile_is_wall(map: &GameMap, x: i32, y: i32) -> (r: bool)
    requires
        map.inv(),
        in_map(x as int, y as int),
    ensures
        r == (map.tiles@[sidx(x as int, y as int)] == TileType::Wall),
{
    let idx = map.xy_idx(x, y);
    map.tiles[idx] == TileType::Wall
}

/// Computes the set of tiles visible from `(x, y)` within `range`, as a
/// strictly increasing list of tile indices.  The list holds exactly the
/// tiles `spec_visible` admits, so the result is determined by the map's
/// tiles and the viewer's position and range alone.
pub fn field_of_view(map: &GameMap, x: i32, y: i32, range: i32) -> (r: Vec<usize>)
    requires
        map.inv(),
        in_map(x as int, y as int),
        0 <= range <= RANGE_BOUND,
    ensures
        forall|tx: int, ty: int|
            in_map(tx, ty)
                ==> (r@.contains(sidx(tx, ty) as usize) <==> spec_visible(
                    map.tiles@, x as int, y as int, tx, ty, range as int)),
        forall|k1: int, k2: int| 0 <= k1 < k2 < r@.len() ==> r@[k1] < r@[k2],
        forall|k: int| 0 <= k < r@.len() ==> (#[trigger] r@[k]) < MAPCOUNT,
{
    let mut r: Vec<usize> = Vec::new();
    proof {
        assert(0 <= range * range <= RANGE_BOUND * RANGE_BOUND) by (nonlinear_arith)
            requires
                0 <= range <= RANGE_BOUND,
        ;
        assert forall|tx0: int, ty0: int|
            in_map(tx0, ty0) && !(x - range <= tx0 <= x + range && y - range <= ty0 <= y + range)
            implies !spec_visible(map.tiles@, x as int, y as int, tx0, ty0, range as int) by {
            let dx = tx0 - x;
            let dy = ty0 - y;
            assert(dx * dx + dy * dy > range * range) by (nonlinear_arith)
                requires
                    0 <= range,
                    dx > range || dx < -range || dy > range || dy < -range,
            ;
        }
    }
    let mut ty: i32 = y - range;
    while ty <= y + range
        invariant
            map.inv(),
            in_map(x as int, y as int),
            0 <= range <= RANGE_BOUND,
            y - range <= ty <= y + range + 1,
            forall|tx0: int, ty0: int|
                in_map(tx0, ty0)
                    && !(x - range <= tx0 <= x + range && y - range <= ty0 <= y + range)
                    ==> !spec_visible(map.tiles@, x as int, y as int, tx0, ty0, range as int),
            0 <= range * range <= RANGE_BOUND * RANGE_BOUND,
            forall|tx0: int, ty0: int|
                in_map(tx0, ty0)
                    ==> (r@.contains(sidx(tx0, ty0) as usize) <==> (ty0 < ty && spec_visible(
                        map.tiles@, x as int, y as int, tx0, ty0, range as int))),
            forall|k1: int, k2: int| 0 <= k1 < k2 < r@.len() ==> r@[k1] < r@[k2],
            forall|k: int| 0 <= k < r@.len() ==> (#[trigger] r@[k]) < MAPCOUNT,
            forall|k: int| 0 <= k < r@.len() ==> (#[trigger] r@[k]) < sidx(0, ty as int),
        decreases y + range + 1 - ty,
    {
        let mut tx: i32 = x - range;
        while tx <= x + range
            invariant
                map.inv(),
                in_map(x as int, y as int),
                0 <= range <= RANGE_BOUND,
                y - range <= ty <= y + range,
                x - range <= tx <= x + range + 1,
                forall|tx0: int, ty0: int|
                    in_map(tx0, ty0)
                        && !(x - range <= tx0 <= x + range && y - range <= ty0 <= y + range)
                        ==> !spec_visible(map.tiles@, x as int, y as int, tx0, ty0, range as int),
                0 <= range * range <= RANGE_BOUND * RANGE_BOUND,
                forall|tx0: int, ty0: int|
                    in_map(tx0, ty0)
                        ==> (r@.contains(sidx(tx0, ty0) as usize) <==> ((ty0 < ty || (ty0 == ty
                            && tx0 < tx)) && spec_visible(
                            map.tiles@, x as int, y as int, tx0, ty0, range as int))),
                forall|k1: int, k2: int| 0 <= k1 < k2 < r@.len() ==> r@[k1] < r@[k2],
                forall|k: int| 0 <= k < r@.len() ==> (#[trigger] r@[k]) < MAPCOUNT,
                forall|k: int|
                    0 <= k < r@.len()
                        ==> (#[trigger] r@[k]) < sidx(
                            crate::map::min_int(max_0(tx as int), MAPWIDTH as int), ty as int),
            decreases x + range + 1 - tx,
        {
            let ghost r0 = r@;
            if 0 <= tx && tx < 80 && 0 <= ty && ty < 43 {
                let dx = tx - x;
                let dy = ty - y;
                proof {
                    assert(dx * dx <= RANGE_BOUND * RANGE_BOUND && dy * dy
                        <= RANGE_BOUND * RANGE_BOUND && 0 <= dx * dx && 0 <= dy * dy)
                        by (nonlinear_arith)
                        requires
                            -RANGE_BOUND <= dx <= RANGE_BOUND,
                            -RANGE_BOUND <= dy <= RANGE_BOUND,
                    ;
                }
                let d2 = dx * dx + dy * dy;
                if d2 <= range * range {
                    let visible = ray_clear_exec(map, x, y, tx, ty) || ray_clear_exec(
                        map, tx, ty, x, y);
                    if visible {
                        let idx = map.xy_idx(tx, ty);
                        r.push(idx);
                        proof {
                            assert(spec_visible(
                                map.tiles@, x as int, y as int, tx as int, ty as int,
                                range as int));
                            assert forall|tx0: int, ty0: int| in_map(tx0, ty0)
                                implies (r@.contains(sidx(tx0, ty0) as usize) <==> ((ty0 < ty
                                    || (ty0 == ty && tx0 < tx + 1)) && spec_visible(
                                    map.tiles@, x as int, y as int, tx0, ty0,
                                    range as int))) by {
                                if tx0 == tx as int && ty0 == ty as int {
                                    assert(r@[r@.len() - 1] == sidx(tx0, ty0) as usize);
                                    assert(r@.contains(sidx(tx0, ty0) as usize));
                                } else {
                                    assert(sidx(tx0, ty0) != sidx(tx as int, ty as int)) by {
                                        if sidx(tx0, ty0) == sidx(tx as int, ty as int) {
                                            crate::map::lemma_sidx_injective(
                                                tx0, ty0, tx as int, ty as int);
                                        }
                                    }
                                    assert(r@.contains(sidx(tx0, ty0) as usize)
                                        <==> r0.contains(sidx(tx0, ty0) as usize)) by {
                                        assert(r@ == r0.push(sidx(tx as int, ty as int) as usize));
                                        if r0.contains(sidx(tx0, ty0) as usize) {
                                            let k = choose|k: int|
                                                0 <= k < r0.len() && r0[k] == sidx(tx0, ty0) as usize;
                                            assert(r@[k] == sidx(tx0, ty0) as usize);
                                        }
                                        if r@.contains(sidx(tx0, ty0) as usize) {
                                            let k = choose|k: int|
                                                0 <= k < r@.len() && r@[k] == sidx(tx0, ty0) as usize;
                                            assert(k < r0.len());
                                            assert(r0[k] == sidx(tx0, ty0) as usize);
                                        }
                                    }
                                }
                            }
                        }
                    } else {
                        proof {
                            assert(!spec_visible(
                                map.tiles@, x as int, y as int, tx as int, ty as int,
                                range as int));
                        }
                    }
                } else {
                    proof {
                        assert(!spec_visible(
                            map.tiles@, x as int, y as int, tx as int, ty as int, range as int));
                    }
                }
            }
            tx = tx + 1;
        }
        proof {
            // Tiles of row `ty` beyond the scanned band are out of range.
            assert forall|tx0: int, ty0: int|
                in_map(tx0, ty0) && ty0 == ty as int
                    && !(x - range <= tx0 <= x + range)
                implies !spec_visible(map.tiles@, x as int, y as int, tx0, ty0, range as int) by {
                let d = if tx0 < x { x - tx0 } else { tx0 - x };
                assert(d > range);
                assert(d * d > range * range && (tx0 - x) * (tx0 - x) == d * d
                    && (ty0 - y) * (ty0 - y) >= 0) by (nonlinear_arith)
                    requires
                        d > range,
                        range >= 0,
                        d == (if tx0 < x { x - tx0 } else { tx0 - x }),
                ;
            }
        }
        ty = ty + 1;
    }
    proof {
        // Rows beyond the scanned band are out of range.
        assert forall|tx0: int, ty0: int|
            in_map(tx0, ty0) && !(y - range <= ty0 <= y + range)
            implies !spec_visible(map.tiles@, x as int, y as int, tx0, ty0, range as int) by {
            let d = if ty0 < y { y - ty0 } else { ty0 - y };
            assert(d > range);
            assert(d * d > range * range && (ty0 - y) * (ty0 - y) == d * d
                && (tx0 - x) * (tx0 - x) >= 0) by (nonlinear_arith)
                requires
                    d > range,
                    range >= 0,
                    d == (if ty0 < y { y - ty0 } else { ty0 - y }),
            ;
        }
    }
    r
}

/// Zero if the number is negative, else the number itself.
pub open spec fn max_0(a: int) -> int {
    if a < 0 {
        0
    } else {
        a
    }
}

/// Recomputing a viewshed from the same position, range and map twice
/// yields the same tile set: any two lists satisfying the field-of-view
/// contract hold exactly the same tiles.
pub proof fn lemma_visibility_deterministic(
    tiles: Seq<TileType>,
    x: int,
    y: int,
    range: int,
    s1: Seq<usize>,
    s2: Seq<usize>,
)
    requires
        forall|tx: int, ty: int|
            in_map(tx, ty)
                ==> (s1.contains(sidx(tx, ty) as usize) <==> spec_visible(
                    tiles, x, y, tx, ty, range)),
        forall|tx: int, ty: int|
            in_map(tx, ty)
                ==> (s2.contains(sidx(tx, ty) as usize) <==> spec_visible(
                    tiles, x, y, tx, ty, range)),
        forall|k: int| 0 <= k < s1.len() ==> (#[trigger] s1[k]) < MAPCOUNT,
        forall|k: int| 0 <= k < s2.len() ==> (#[trigger] s2[k]) < MAPCOUNT,
    ensures
        forall|t: usize| s1.contains(t) <==> s2.contains(t),
{
    assert forall|t: usize| s1.contains(t) implies s2.contains(t) by {
        let k = choose|k: int| 0 <= k < s1.len() && s1[k] == t;
        lemma_idx_coords(t as int);
        assert(s1.contains(sidx(t as int % MAPWIDTH as int, t as int / MAPWIDTH as int) as usize));
    }
    assert forall|t: usize| s2.contains(t) implies s1.contains(t) by {
        let k = choose|k: int| 0 <= k < s2.len() && s2[k] == t;
        lemma_idx_coords(t as int);
        assert(s2.contains(sidx(t as int % MAPWIDTH as int, t as int / MAPWIDTH as int) as usize));
    }
}

/// Every tile index decomposes into in-map coordinates.
pub proof fn lemma_idx_coords(idx: int)
    requires
        0 <= idx < MAPCOUNT,
    ensures
        in_map(idx % MAPWIDTH as int, idx / MAPWIDTH as int),
        sidx(idx % MAPWIDTH as int, idx / MAPWIDTH as int) == idx,
{
}

impl World {
    /// Recomputes the viewshed of every entity whose viewshed is dirty,
    /// replacing its visible-tile set and clearing the flag.  When the
    /// player's viewshed is recomputed, the map's visible bitmap is
    /// replaced by the player's new sight and every newly seen tile is
    /// added permanently to the revealed bitmap.
    pub fn visibility_system(&mut self)
        requires
            old(self).wf(),
        ensures
            final(self).wf(),
            vis_rel(*old(self), *final(self)),
    {
        let ghost pre = *self;
        let n = self.alive.len();
        let mut e: usize = 0;
        while e < n
            invariant
                self.wf(),
                e <= n,
                n == pre.n(),
                pre.wf(),
                pre.player < n,
                *self == (World { viewsheds: self.viewsheds, map: self.map, ..pre }),
                self.map == (GameMap { visible_tiles: self.map.visible_tiles,
                    revealed_tiles: self.map.revealed_tiles, ..pre.map }),
                forall|k: int| e <= k < n ==> #[trigger] self.viewsheds@[k] == pre.viewsheds@[k],
                forall|k: int| 0 <= k < e ==> vis_entity_rel(pre, *self, k),
                (pre.player as int) < e && viewshed_recomputed(pre, pre.player as int)
                    ==> player_sight_updated(pre, *self),
                !((pre.player as int) < e && viewshed_recomputed(pre, pre.player as int))
                    ==> self.map.visible_tiles == pre.map.visible_tiles
                        && self.map.revealed_tiles == pre.map.revealed_tiles,
            decreases n - e,
        {
            let ghost prev = *self;
            let recompute = match &self.viewsheds[e] {
                Some(v) => v.dirty,
                None => false,
            };
            let has_pos = self.positions[e].is_some();
            if recompute && has_pos {
                let pos = match self.positions[e] {
                    Some(p) => p,
                    None => Position { x: 0, y: 0 },
                };
                let range = match &self.viewsheds[e] {
                    Some(v) => v.range,
                    None => 0,
                };
                let vt = field_of_view(&self.map, pos.x, pos.y, range);
                if e == self.player {
                    let mut i: usize = 0;
                    while i < MAPCOUNT
                        invariant
                            i <= MAPCOUNT,
                            self.map.visible_tiles.len() == MAPCOUNT,
                            self.map.revealed_tiles.len() == MAPCOUNT,
                            forall|j: int| 0 <= j < i ==> !(#[trigger] self.map.visible_tiles@[j]),
                            forall|j: int| i <= j < MAPCOUNT
                                ==> #[trigger] self.map.visible_tiles@[j]
                                    == prev.map.visible_tiles@[j],
                            forall|j: int| 0 <= j < MAPCOUNT
                                ==> #[trigger] self.map.revealed_tiles@[j]
                                    == prev.map.revealed_tiles@[j],
                            *self == (World { map: self.map, ..prev }),
                            self.map == (GameMap { visible_tiles: self.map.visible_tiles,
                                revealed_tiles: self.map.revealed_tiles, ..prev.map }),
                        decreases MAPCOUNT - i,
                    {
                        self.map.visible_tiles[i] = false;
                        i = i + 1;
                    }
                    let mut k: usize = 0;
                    while k < vt.len()
                        invariant
                            k <= vt.len(),
                            self.map.visible_tiles.len() == MAPCOUNT,
                            self.map.revealed_tiles.len() == MAPCOUNT,
                            forall|j: int| 0 <= j < vt@.len() ==> (#[trigger] vt@[j]) < MAPCOUNT,
                            forall|j: int| 0 <= j < MAPCOUNT
                                ==> (#[trigger] self.map.visible_tiles@[j] <==> exists|m: int|
                                    0 <= m < k && vt@[m] == j),
                            forall|j: int| 0 <= j < MAPCOUNT
                                ==> #[trigger] self.map.revealed_tiles@[j]
                                    == (prev.map.revealed_tiles@[j] || exists|m: int|
                                        0 <= m < k && vt@[m] == j),
                            *self == (World { map: self.map, ..prev }),
                            self.map == (GameMap { visible_tiles: self.map.visible_tiles,
                                revealed_tiles: self.map.revealed_tiles, ..prev.map }),
                        decreases vt.len() - k,
                    {
                        let idx = vt[k];
                        self.map.visible_tiles[idx] = true;
                        self.map.revealed_tiles[idx] = true;
                        k = k + 1;
                    }
                    proof {
                        assert forall|j: int| 0 <= j < MAPCOUNT
                            implies (#[trigger] self.map.visible_tiles@[j] <==> vt@.contains(
                                j as usize)) by {
                            if self.map.visible_tiles@[j] {
                                let m = choose|m: int| 0 <= m < vt@.len() && vt@[m] == j;
                                assert(vt@[m] == j as usize);
                            }
                            if vt@.contains(j as usize) {
                                let m = choose|m: int| 0 <= m < vt@.len() && vt@[m] == j as usize;
                                assert(0 <= m < vt@.len() && vt@[m] == j);
                            }
                        }
                    }
                }
                self.viewsheds[e] = Some(Viewshed { visible_tiles: vt, range, dirty: false });
            }
            proof {
                assert forall|k: int| 0 <= k < e + 1 implies vis_entity_rel(pre, *self, k) by {
                    if k < e as int {
                        assert(vis_entity_rel(pre, prev, k));
                        assert(self.viewsheds@[k] == prev.viewsheds@[k]);
                    }
                }
            }
            e = e + 1;
        }
    }
}

/// The viewshed of entity `e` was due for recomputation: present, dirty,
/// and the entity stands somewhere.
pub open spec fn viewshed_recomputed(pre: World, e: int) -> bool {
    &&& pre.viewsheds@[e] is Some
    &&& pre.viewsheds@[e].unwrap().dirty
    &&& pre.positions@[e] is Some
}

/// What the visibility pass does to one entity: a dirty viewshed is
/// replaced by the freshly computed sight with the flag cleared, and any
/// other entity keeps its viewshed untouched.
pub open spec fn vis_entity_rel(pre: World, post: World, e: int) -> bool {
    if viewshed_recomputed(pre, e) {
        &&& post.viewsheds@[e] is Some
        &&& !post.viewsheds@[e].unwrap().dirty
        &&& post.viewsheds@[e].unwrap().range == pre.viewsheds@[e].unwrap().range
        &&& forall|tx: int, ty: int|
            in_map(tx, ty)
                ==> (post.viewsheds@[e].unwrap().visible_tiles@.contains(sidx(tx, ty) as usize)
                    <==> spec_visible(
                    pre.map.tiles@,
                    pre.positions@[e].unwrap().x as int,
                    pre.positions@[e].unwrap().y as int,
                    tx,
                    ty,
                    pre.viewsheds@[e].unwrap().range as int,
                ))
    } else {
        post.viewsheds@[e] == pre.viewsheds@[e]
    }
}

/// What the visibility pass does to the map's player-perspective bitmaps
/// when the player's viewshed was recomputed: the visible bitmap holds
/// exactly the player's new sight, and the revealed bitmap grows by it.
pub open spec fn player_sight_updated(pre: World, post: World) -> bool {
    &&& forall|tx: int, ty: int|
        in_map(tx, ty)
            ==> (post.map.visible_tiles@[sidx(tx, ty)] <==> spec_visible(
                pre.map.tiles@,
                pre.positions@[pre.player as int].unwrap().x as int,
                pre.positions@[pre.player as int].unwrap().y as int,
                tx,
                ty,
                pre.viewsheds@[pre.player as int].unwrap().range as int,
            ))
    &&& forall|tx: int, ty: int|
        in_map(tx, ty)
            ==> (post.map.revealed_tiles@[sidx(tx, ty)] <==> (pre.map.revealed_tiles@[sidx(
                tx, ty)] || post.map.visible_tiles@[sidx(tx, ty)]))
}

/// What the whole visibility pass changes: viewsheds per entity as
/// `vis_entity_rel` says, the two player-perspective bitmaps exactly when
/// the player's viewshed was dirty, and nothing else.
pub open spec fn vis_rel(pre: World, post: World) -> bool {
    &&& post == (World { viewsheds: post.viewsheds, map: post.map, ..pre })
    &&& post.map == (GameMap { visible_tiles: post.map.visible_tiles,
            revealed_tiles: post.map.revealed_tiles, ..pre.map })
    &&& forall|e: int| 0 <= e < pre.n() ==> vis_entity_rel(pre, post, e)
    &&& viewshed_recomputed(pre, pre.player as int) ==> player_sight_updated(pre, post)
    &&& !viewshed_recomputed(pre, pre.player as int)
        ==> post.map.visible_tiles == pre.map.visible_tiles
            && post.map.revealed_tiles == pre.map.revealed_tiles
}

} // verus!
