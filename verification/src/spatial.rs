//! The spatial index: once per turn, rebuilds the blocked-tile bitmap and
//! the per-tile occupant lists from the current entity positions.  Both are
//! pure functions of the map's tiles and the entity tables, which is what
//! makes rerunning the index without movement a no-op.

use vstd::prelude::*;
use crate::components::Position;
use crate::map::{GameMap, TileType, sidx, MAPCOUNT};
use crate::world::World;

verus! {

/// Entity `e` lives and stands on tile `idx`.
pub open spec fn entity_at(
    alive: Seq<bool>,
    positions: Seq<Option<Position>>,
    e: int,
    idx: int,
) -> bool {
    &&& alive[e]
    &&& positions[e] is Some
    &&& sidx(positions[e].unwrap().x as int, positions[e].unwrap().y as int) == idx
}

/// What the blocked bitmap holds for a tile: a wall, or some living
/// blocking entity standing there.
pub open spec fn spec_blocked(
    tiles: Seq<TileType>,
    alive: Seq<bool>,
    positions: Seq<Option<Position>>,
    blocks_tile: Seq<bool>,
    idx: int,
) -> bool {
    ||| tiles[idx] == TileType::Wall
    ||| exists|e: int|
        0 <= e < alive.len() && #[trigger] entity_at(alive, positions, e, idx) && blocks_tile[e]
}

/// The occupants of a tile among the first `n` entities, in entity order.
pub open spec fn occupants_upto(
    alive: Seq<bool>,
    positions: Seq<Option<Position>>,
    idx: int,
    n: int,
) -> Seq<usize>
    decreases n,
{
    if n <= 0 {
        Seq::empty()
    } else if entity_at(alive, positions, n - 1, idx) {
        occupants_upto(alive, positions, idx, n - 1).push((n - 1) as usize)
    } else {
        occupants_upto(alive, positions, idx, n - 1)
    }
}

/// What the occupant list of a tile holds after the index ran.
pub open spec fn spec_occupants(
    alive: Seq<bool>,
    positions: Seq<Option<Position>>,
    idx: int,
) -> Seq<usize> {
    occupants_upto(alive, positions, idx, alive.len() as int)
}

/// The spatial index leaves every part of the world alone except the
/// blocked bitmap and the occupant lists, which it rebuilds from the
/// tiles and the entity tables.
pub open spec fn indexing_rel(pre: World, post: World) -> bool {
    &&& post == (World { map: post.map, ..pre })
    &&& post.map == (GameMap { blocked: post.map.blocked, tile_content: post.map.tile_content,
            ..pre.map })
    &&& post.map.blocked.len() == MAPCOUNT
    &&& post.map.tile_content.len() == MAPCOUNT
    &&& forall|idx: int|
        0 <= idx < MAPCOUNT
            ==> #[trigger] post.map.blocked@[idx] == spec_blocked(
                pre.map.tiles@,
                pre.alive@,
                pre.positions@,
                pre.blocks_tile@,
                idx,
            )
    &&& forall|idx: int|
        0 <= idx < MAPCOUNT
            ==> (#[trigger] post.map.tile_content@[idx])@ == spec_occupants(
                pre.alive@,
                pre.positions@,
                idx,
            )
}

impl World {
    /// Clears and rebuilds `blocked` and `tile_content` from the current
    /// entity positions.  Runs after any system that can move or delete an
    /// entity and before any that queries occupancy.
    pub fn map_indexing_system(&mut self)
        requires
            old(self).wf(),
        ensures
            final(self).wf(),
            indexing_rel(*old(self), *final(self)),
    {
        let mut i: usize = 0;
        while i < MAPCOUNT
            invariant
                old(self).wf(),
                self.wf(),
                i <= MAPCOUNT,
                *self == (World { map: self.map, ..*old(self) }),
                self.map == (GameMap { blocked: self.map.blocked,
                    tile_content: self.map.tile_content, ..old(self).map }),
                forall|idx: int|
                    0 <= idx < i
                        ==> #[trigger] self.map.blocked@[idx]
                            == (old(self).map.tiles@[idx] == TileType::Wall),
                forall|idx: int|
                    0 <= idx < i ==> (#[trigger] self.map.tile_content@[idx])@.len() == 0,
            decreases MAPCOUNT - i,
        {
            let is_wall = self.map.tiles[i] == TileType::Wall;
            self.map.blocked[i] = is_wall;
            let fresh: Vec<usize> = Vec::new();
            self.map.tile_content[i] = fresh;
            i = i + 1;
        }

        let n = self.alive.len();
        let mut e: usize = 0;
        while e < n
            invariant
                old(self).wf(),
                self.wf(),
                e <= n,
                n == old(self).n(),
                *self == (World { map: self.map, ..*old(self) }),
                self.map == (GameMap { blocked: self.map.blocked,
                    tile_content: self.map.tile_content, ..old(self).map }),
                forall|idx: int|
                    0 <= idx < MAPCOUNT
                        ==> #[trigger] self.map.blocked@[idx]
                            == (old(self).map.tiles@[idx] == TileType::Wall || exists|k: int|
                                0 <= k < e
                                    && #[trigger] entity_at(
                                        old(self).alive@, old(self).positions@, k, idx)
                                    && old(self).blocks_tile@[k]),
                forall|idx: int|
                    0 <= idx < MAPCOUNT
                        ==> (#[trigger] self.map.tile_content@[idx])@ == occupants_upto(
                            old(self).alive@, old(self).positions@, idx, e as int),
            decreases n - e,
        {
            let ghost pre_loop = *self;
            if self.alive[e] {
                if let Some(pos) = self.positions[e] {
                    let idx = self.map.xy_idx(pos.x, pos.y);
                    if self.blocks_tile[e] {
                        self.map.blocked[idx] = true;
                    }
                    self.map.tile_content[idx].push(e);
                    proof {
                        let ghost a0 = old(self).alive@;
                        let ghost p0 = old(self).positions@;
                        assert(entity_at(a0, p0, e as int, idx as int));
                        assert forall|j: int| 0 <= j < MAPCOUNT
                            implies (#[trigger] self.map.tile_content@[j])@ == occupants_upto(
                                a0, p0, j, e + 1) by {
                            if j == idx {
                                assert(self.map.tile_content@[j]@
                                    == pre_loop.map.tile_content@[j]@.push(e));
                            } else {
                                assert(!entity_at(a0, p0, e as int, j));
                            }
                        }
                        assert forall|j: int| 0 <= j < MAPCOUNT
                            implies #[trigger] self.map.blocked@[j]
                                == (old(self).map.tiles@[j] == TileType::Wall || exists|k: int|
                                    0 <= k < e + 1 && #[trigger] entity_at(a0, p0, k, j)
                                        && old(self).blocks_tile@[k]) by {
                            if j == idx && old(self).blocks_tile@[e as int] {
                                assert(self.map.blocked@[j]);
                            } else {
                                assert(self.map.blocked@[j] == pre_loop.map.blocked@[j]);
                                if self.map.blocked@[j]
                                    && old(self).map.tiles@[j] != TileType::Wall {
                                    let k = choose|k: int|
                                        0 <= k < e && #[trigger] entity_at(a0, p0, k, j)
                                            && old(self).blocks_tile@[k];
                                    assert(entity_at(a0, p0, k, j));
                                }
                            }
                        }
                    }
                }
            }
            proof {
                let ghost a0 = old(self).alive@;
                let ghost p0 = old(self).positions@;
                if !(pre_loop.alive[e as int] && pre_loop.positions@[e as int] is Some) {
                    assert forall|j: int| 0 <= j < MAPCOUNT
                        implies !entity_at(a0, p0, e as int, j) by {}
                    assert forall|j: int| 0 <= j < MAPCOUNT
                        implies (#[trigger] self.map.tile_content@[j])@ == occupants_upto(
                            a0, p0, j, e + 1) by {}
                    assert forall|j: int| 0 <= j < MAPCOUNT
                        implies #[trigger] self.map.blocked@[j]
                            == (old(self).map.tiles@[j] == TileType::Wall || exists|k: int|
                                0 <= k < e + 1 && #[trigger] entity_at(a0, p0, k, j)
                                    && old(self).blocks_tile@[k]) by {
                        if self.map.blocked@[j] && old(self).map.tiles@[j] != TileType::Wall {
                            let k = choose|k: int|
                                0 <= k < e && #[trigger] entity_at(a0, p0, k, j)
                                    && old(self).blocks_tile@[k];
                            assert(entity_at(a0, p0, k, j));
                        }
                    }
                }
            }
            e = e + 1;
        }
    }
}


/// No entity appears twice across the occupant lists.
pub open spec fn content_unique(w: World) -> bool {
    forall|i1: int, k1: int, i2: int, k2: int|
        0 <= i1 < w.map.tile_content@.len() && 0 <= k1 < w.map.tile_content@[i1]@.len() && 0 <= i2
            < w.map.tile_content@.len() && 0 <= k2 < w.map.tile_content@[i2]@.len()
            && #[trigger] w.map.tile_content@[i1]@[k1] == #[trigger] w.map.tile_content@[i2]@[k2]
            ==> i1 == i2 && k1 == k2
}

/// Each occupant list holds only entities standing on its tile, in
/// strictly increasing entity order.
pub proof fn lemma_occupants_members(
    alive: Seq<bool>,
    positions: Seq<Option<Position>>,
    idx: int,
    n: int,
)
    requires
        n <= usize::MAX,
    ensures
        forall|k: int|
            0 <= k < occupants_upto(alive, positions, idx, n).len()
                ==> entity_at(alive, positions,
                    #[trigger] occupants_upto(alive, positions, idx, n)[k] as int, idx)
                    && occupants_upto(alive, positions, idx, n)[k] < n,
        forall|k1: int, k2: int|
            0 <= k1 < k2 < occupants_upto(alive, positions, idx, n).len()
                ==> occupants_upto(alive, positions, idx, n)[k1]
                    < occupants_upto(alive, positions, idx, n)[k2],
    decreases n,
{
    if n > 0 {
        lemma_occupants_members(alive, positions, idx, n - 1);
        let prev = occupants_upto(alive, positions, idx, n - 1);
        let cur = occupants_upto(alive, positions, idx, n);
        if entity_at(alive, positions, n - 1, idx) {
            assert(cur == prev.push((n - 1) as usize));
            assert forall|k: int| 0 <= k < cur.len()
                implies entity_at(alive, positions, #[trigger] cur[k] as int, idx)
                    && cur[k] < n by {
                if k < prev.len() {
                    assert(cur[k] == prev[k]);
                } else {
                    assert(cur[k] == (n - 1) as usize);
                }
            }
            assert forall|k1: int, k2: int| 0 <= k1 < k2 < cur.len()
                implies cur[k1] < cur[k2] by {
                if k2 < prev.len() {
                    assert(cur[k1] == prev[k1] && cur[k2] == prev[k2]);
                } else {
                    assert(cur[k1] == prev[k1] && cur[k2] == (n - 1) as usize);
                    assert(prev[k1] < n - 1);
                }
            }
        } else {
            assert(cur == prev);
        }
    }
}

/// After the spatial index has run, no entity appears twice across the
/// occupant lists: an entity stands on exactly one tile.
pub proof fn lemma_indexing_unique(pre: World, post: World)
    requires
        indexing_rel(pre, post),
    ensures
        content_unique(post),
{
    assert forall|i1: int, k1: int, i2: int, k2: int|
        0 <= i1 < post.map.tile_content@.len() && 0 <= k1 < post.map.tile_content@[i1]@.len()
            && 0 <= i2 < post.map.tile_content@.len()
            && 0 <= k2 < post.map.tile_content@[i2]@.len()
            && #[trigger] post.map.tile_content@[i1]@[k1]
                == #[trigger] post.map.tile_content@[i2]@[k2]
        implies i1 == i2 && k1 == k2 by {
        lemma_occupants_members(pre.alive@, pre.positions@, i1, pre.n());
        lemma_occupants_members(pre.alive@, pre.positions@, i2, pre.n());
        let m = post.map.tile_content@[i1]@[k1];
        assert(entity_at(pre.alive@, pre.positions@, m as int, i1));
        assert(entity_at(pre.alive@, pre.positions@, m as int, i2));
        if k1 < k2 {
            assert(post.map.tile_content@[i1]@[k1] < post.map.tile_content@[i2]@[k2]);
        }
        if k2 < k1 {
            assert(post.map.tile_content@[i2]@[k2] < post.map.tile_content@[i1]@[k1]);
        }
    }
}

/// Rerunning the spatial index with no entity movement in between leaves
/// the blocked bitmap and every occupant list exactly as the first run
/// built them.
pub proof fn lemma_spatial_index_idempotent(w1: World, w2: World, w3: World)
    requires
        indexing_rel(w1, w2),
        indexing_rel(w2, w3),
    ensures
        forall|idx: int|
            0 <= idx < MAPCOUNT ==> #[trigger] w3.map.blocked@[idx] == w2.map.blocked@[idx],
        forall|idx: int|
            0 <= idx < MAPCOUNT
                ==> (#[trigger] w3.map.tile_content@[idx])@ == w2.map.tile_content@[idx]@,
{
    assert(w2.alive@ == w1.alive@);
    assert(w2.positions@ == w1.positions@);
    assert(w2.blocks_tile@ == w1.blocks_tile@);
    assert(w2.map.tiles@ == w1.map.tiles@);
}

} // verus!
