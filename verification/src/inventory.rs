//! The inventory systems: picking an item up off the floor, dropping it
//! at the carrier's tile, and using it.  Use resolves a target set from
//! the aimed tile (a single tile, or a sight-bounded blast for an
//! area-effect item, or the user itself when unaimed), heals and damages
//! every target that carries stats, and consumes the item when it is
//! consumable and at least one effect was applied.

use vstd::prelude::*;
use vstd::string::StringExecFns;
use crate::components::{CombatStats, InBackpack, Position};
use crate::map::{MAPCOUNT, sidx, in_map};
use crate::pathfind::coords;
use crate::spatial::content_unique;
use crate::visibility::{field_of_view, spec_visible};
use crate::world::World;

verus! {

/// The one log line a pickup writes for the player.
pub open spec fn pickup_line(name: Seq<char>) -> Seq<char> {
    "You pick up the "@ + name + "."@
}

/// The one log line a drop writes for the player.
pub open spec fn drop_line(name: Seq<char>) -> Seq<char> {
    "You drop the "@ + name
}

/// What picking one item up does: the item leaves the map, enters the
/// collector's backpack, the player's pickups are logged, and nothing
/// else changes.
pub open spec fn pickup_rel(pre: World, post: World, collector: usize, item: usize) -> bool {
    &&& post == (World { positions: post.positions, in_backpack: post.in_backpack,
            log: post.log, ..pre })
    &&& post.positions.len() == pre.positions.len()
    &&& post.in_backpack.len() == pre.in_backpack.len()
    &&& post.positions@[item as int] is None
    &&& post.in_backpack@[item as int] == Some(InBackpack { owner: collector })
    &&& forall|k: int|
        0 <= k < pre.n() && k != item
            ==> #[trigger] post.positions@[k] == pre.positions@[k] && post.in_backpack@[k]
                == pre.in_backpack@[k]
    &&& collector == pre.player ==> post.log.entries@.len() == pre.log.entries@.len() + 1
        && post.log.entries@.last()@ == pickup_line(pre.names@[item as int]@)
        && forall|k: int|
            0 <= k < pre.log.entries@.len()
                ==> #[trigger] post.log.entries@[k] == pre.log.entries@[k]
    &&& collector != pre.player ==> post.log == pre.log
}

/// What dropping one item does: the item leaves the backpack and lands
/// exactly on the dropper's current tile, the player's drops are logged,
/// and nothing else changes.
pub open spec fn drop_rel(pre: World, post: World, dropper: usize, item: usize) -> bool {
    &&& post == (World { positions: post.positions, in_backpack: post.in_backpack,
            log: post.log, ..pre })
    &&& post.positions.len() == pre.positions.len()
    &&& post.in_backpack.len() == pre.in_backpack.len()
    &&& post.positions@[item as int] == pre.positions@[dropper as int]
    &&& post.in_backpack@[item as int] is None
    &&& forall|k: int|
        0 <= k < pre.n() && k != item
            ==> #[trigger] post.positions@[k] == pre.positions@[k] && post.in_backpack@[k]
                == pre.in_backpack@[k]
    &&& dropper == pre.player ==> post.log.entries@.len() == pre.log.entries@.len() + 1
        && post.log.entries@.last()@ == drop_line(pre.names@[item as int]@)
        && forall|k: int|
            0 <= k < pre.log.entries@.len()
                ==> #[trigger] post.log.entries@[k] == pre.log.entries@[k]
    &&& dropper != pre.player ==> post.log == pre.log
}

impl World {
    /// Moves one item from the floor into the collector's backpack.
    pub fn pickup_item(&mut self, collector: usize, item: usize)
        requires
            old(self).wf(),
            collector < old(self).n(),
            item < old(self).n(),
            item != old(self).player,
            old(self).positions@[item as int] is Some,
        ensures
            final(self).wf(),
            pickup_rel(*old(self), *final(self), collector, item),
    {
        self.positions[item] = None;
        self.in_backpack[item] = Some(InBackpack { owner: collector });
        if collector == self.player {
            let name = self.names[item].clone();
            let line = String::from_str("You pick up the ").concat(name.as_str()).concat(".");
            proof {
                assert(line@ == pickup_line(old(self).names@[item as int]@));
            }
            self.log.append(line);
        }
    }

    /// Moves one item out of a backpack onto the dropper's current tile.
    pub fn drop_item(&mut self, dropper: usize, item: usize)
        requires
            old(self).wf(),
            dropper < old(self).n(),
            item < old(self).n(),
            item != old(self).player,
            old(self).in_backpack@[item as int] is Some,
            old(self).positions@[dropper as int] is Some,
            old(self).alive@[item as int],
        ensures
            final(self).wf(),
            drop_rel(*old(self), *final(self), dropper, item),
    {
        let dropper_pos = match self.positions[dropper] {
            Some(p) => p,
            None => Position { x: 0, y: 0 },
        };
        self.in_backpack[item] = None;
        self.positions[item] = Some(dropper_pos);
        if dropper == self.player {
            let name = self.names[item].clone();
            let line = String::from_str("You drop the ").concat(name.as_str());
            proof {
                assert(line@ == drop_line(old(self).names@[item as int]@));
            }
            self.log.append(line);
        }
    }
}

/// Pickup, then drop, restores the item to the tile the carrier stands
/// on, and leaves it out of the backpack; dropping is only possible for a
/// carried item, since a drop demands the backpack entry the pickup made.
pub proof fn lemma_pickup_drop_round_trip(
    w1: World,
    w2: World,
    w3: World,
    carrier: usize,
    item: usize,
)
    requires
        w1.wf(),
        carrier < w1.n(),
        item < w1.n(),
        item != carrier,
        pickup_rel(w1, w2, carrier, item),
        drop_rel(w2, w3, carrier, item),
    ensures
        w3.positions@[item as int] == w1.positions@[carrier as int],
        w3.in_backpack@[item as int] is None,
{
    assert(w2.positions@[carrier as int] == w1.positions@[carrier as int]);
}

/// Membership in the target set of one use of an item: the user itself
/// when no tile is aimed at; the occupants of the aimed tile; or, for an
/// area-effect item, the occupants of every tile within the blast, the
/// sight-bounded set of tiles the aimed tile can see out to the radius.
pub open spec fn in_targets(
    w: World,
    user: usize,
    item: usize,
    target: Option<Position>,
    m: usize,
) -> bool {
    match target {
        None => m == user,
        Some(p) => {
            if w.aoe@[item as int] is Some {
                exists|idx: int|
                    0 <= idx < MAPCOUNT && spec_visible(
                        w.map.tiles@,
                        p.x as int,
                        p.y as int,
                        coords(idx).0,
                        coords(idx).1,
                        w.aoe@[item as int].unwrap().radius as int,
                    ) && #[trigger] w.map.tile_content@[idx]@.contains(m)
            } else {
                w.map.tile_content@[sidx(p.x as int, p.y as int)]@.contains(m)
            }
        },
    }
}

/// Some target of the use carries combat stats, so an effect lands.
pub open spec fn any_target_with_stats(
    w: World,
    user: usize,
    item: usize,
    target: Option<Position>,
) -> bool {
    exists|m: usize|
        m < w.n() && #[trigger] in_targets(w, user, item, target, m)
            && w.combat_stats@[m as int] is Some
}

/// The item is used up by this use: it is consumable, it heals or
/// damages, and some target can receive the effect.
pub open spec fn item_consumed(
    w: World,
    user: usize,
    item: usize,
    target: Option<Position>,
) -> bool {
    &&& w.consumables@[item as int]
    &&& (w.provides_healing@[item as int] is Some || w.inflicts_damage@[item as int] is Some)
    &&& any_target_with_stats(w, user, item, target)
}

/// The stats of a target after the item's effects land on it: healing
/// first raises hit points, capped at the maximum.
pub open spec fn spec_healed(pre: World, item: usize, s: CombatStats) -> CombatStats {
    if pre.provides_healing@[item as int] is Some {
        let amount = pre.provides_healing@[item as int].unwrap().heal_amount as int;
        let hp = if s.hp + amount > s.max_hp {
            s.max_hp as int
        } else {
            s.hp + amount
        };
        CombatStats { hp: hp as i32, ..s }
    } else {
        s
    }
}

impl World {
    /// Gathers the entities the use will affect.
    fn gather_targets(&self, user: usize, item: usize, target: Option<Position>) -> (ts: Vec<
        usize,
    >)
        requires
            self.wf(),
            content_unique(*self),
            user < self.n(),
            item < self.n(),
            target is Some ==> in_map(target.unwrap().x as int, target.unwrap().y as int),
        ensures
            forall|m: usize| ts@.contains(m) <==> in_targets(*self, user, item, target, m),
            forall|k1: int, k2: int| 0 <= k1 < k2 < ts@.len() ==> ts@[k1] != ts@[k2],
            forall|k: int| 0 <= k < ts@.len() ==> (#[trigger] ts@[k]) < self.n(),
    {
        let mut ts: Vec<usize> = Vec::new();
        match target {
            None => {
                ts.push(user);
                proof {
                    assert(ts@[0] == user);
                    assert forall|m: usize| ts@.contains(m)
                        implies in_targets(*self, user, item, target, m) by {
                        let k = choose|k: int| 0 <= k < ts@.len() && ts@[k] == m;
                        assert(m == user);
                    }
                }
            },
            Some(p) => {
                if let Some(blast) = self.aoe[item] {
                    let tiles = field_of_view(&self.map, p.x, p.y, blast.radius);
                    let ghost pvis = |idx: int|
                        0 <= idx < MAPCOUNT && spec_visible(
                            self.map.tiles@,
                            p.x as int,
                            p.y as int,
                            coords(idx).0,
                            coords(idx).1,
                            blast.radius as int,
                        );
                    let mut k: usize = 0;
                    while k < tiles.len()
                        invariant
                            self.wf(),
                            content_unique(*self),
                            item < self.n(),
                            self.aoe@[item as int] == Some(blast),
                            k <= tiles@.len(),
                            in_map(p.x as int, p.y as int),
                            0 <= blast.radius <= crate::world::RANGE_BOUND,
                            forall|k1: int, k2: int|
                                0 <= k1 < k2 < tiles@.len() ==> tiles@[k1] < tiles@[k2],
                            forall|j: int|
                                0 <= j < tiles@.len() ==> (#[trigger] tiles@[j]) < MAPCOUNT,
                            forall|tx: int, ty: int|
                                in_map(tx, ty)
                                    ==> (tiles@.contains(sidx(tx, ty) as usize) <==> spec_visible(
                                        self.map.tiles@, p.x as int, p.y as int, tx, ty,
                                        blast.radius as int)),
                            forall|m: usize|
                                ts@.contains(m) <==> exists|j: int|
                                    0 <= j < k && #[trigger] self.map.tile_content@[
                                        tiles@[j] as int]@.contains(m),
                            forall|k1: int, k2: int|
                                0 <= k1 < k2 < ts@.len() ==> ts@[k1] != ts@[k2],
                            forall|j: int| 0 <= j < ts@.len() ==> (#[trigger] ts@[j]) < self.n(),
                        decreases tiles@.len() - k,
                    {
                        let idx = tiles[k];
                        let count = self.map.tile_content[idx].len();
                        let mut o: usize = 0;
                        while o < count
                            invariant
                                self.wf(),
                                content_unique(*self),
                                item < self.n(),
                                k < tiles@.len(),
                                idx == tiles@[k as int],
                                idx < MAPCOUNT,
                                o <= count,
                                count == self.map.tile_content@[idx as int]@.len(),
                                forall|k1: int, k2: int|
                                    0 <= k1 < k2 < tiles@.len() ==> tiles@[k1] < tiles@[k2],
                                forall|m: usize|
                                    ts@.contains(m) <==> ((exists|j: int|
                                        0 <= j < k && #[trigger] self.map.tile_content@[
                                            tiles@[j] as int]@.contains(m)) || (exists|q: int|
                                        0 <= q < o && self.map.tile_content@[idx as int]@[q]
                                            == m)),
                                forall|k1: int, k2: int|
                                    0 <= k1 < k2 < ts@.len() ==> ts@[k1] != ts@[k2],
                                forall|j: int|
                                    0 <= j < ts@.len() ==> (#[trigger] ts@[j]) < self.n(),
                            decreases count - o,
                        {
                            let m = self.map.tile_content[idx][o];
                            let ghost ts0 = ts@;
                            ts.push(m);
                            proof {
                                assert(ts@ == ts0.push(m));
                                // The entity cannot already be listed: that
                                // would be a second occurrence of it in the
                                // occupant lists.
                                assert forall|k1: int, k2: int| 0 <= k1 < k2 < ts@.len()
                                    implies ts@[k1] != ts@[k2] by {
                                    if k2 == ts@.len() - 1 {
                                        assert(ts@[k1] == ts0[k1]);
                                        if ts0[k1] == m {
                                            assert(ts0.contains(m));
                                            if exists|j: int|
                                                0 <= j < k && #[trigger] self.map.tile_content@[
                                                    tiles@[j] as int]@.contains(m) {
                                                let j = choose|j: int|
                                                    0 <= j < k && #[trigger] self.map
                                                        .tile_content@[tiles@[j] as int]@
                                                        .contains(m);
                                                let q = choose|q: int|
                                                    0 <= q < self.map.tile_content@[
                                                        tiles@[j] as int]@.len()
                                                        && self.map.tile_content@[
                                                        tiles@[j] as int]@[q] == m;
                                                assert(tiles@[j] < tiles@[k as int]);
                                                assert(self.map.tile_content@[
                                                    tiles@[j] as int]@[q] == self.map
                                                    .tile_content@[idx as int]@[o as int]);
                                            } else {
                                                let q = choose|q: int|
                                                    0 <= q < o && self.map.tile_content@[
                                                        idx as int]@[q] == m;
                                                assert(self.map.tile_content@[idx as int]@[q]
                                                    == self.map.tile_content@[idx as int]@[
                                                    o as int]);
                                            }
                                        }
                                    } else {
                                        assert(ts@[k1] == ts0[k1] && ts@[k2] == ts0[k2]);
                                    }
                                }
                                assert forall|mm: usize|
                                    ts@.contains(mm) <==> ((exists|j: int|
                                        0 <= j < k && #[trigger] self.map.tile_content@[
                                            tiles@[j] as int]@.contains(mm)) || (exists|q: int|
                                        0 <= q < o + 1 && self.map.tile_content@[idx as int]@[q]
                                            == mm)) by {
                                    if ts@.contains(mm) {
                                        let kk = choose|kk: int|
                                            0 <= kk < ts@.len() && ts@[kk] == mm;
                                        if kk < ts0.len() {
                                            assert(ts0[kk] == mm);
                                            assert(ts0.contains(mm));
                                        } else {
                                            assert(mm == m);
                                            assert(self.map.tile_content@[idx as int]@[o as int]
                                                == mm);
                                        }
                                    }
                                    if (exists|j: int|
                                        0 <= j < k && #[trigger] self.map.tile_content@[
                                            tiles@[j] as int]@.contains(mm)) || (exists|q: int|
                                        0 <= q < o + 1 && self.map.tile_content@[idx as int]@[q]
                                            == mm) {
                                        if ts0.contains(mm) {
                                            let kk = choose|kk: int|
                                                0 <= kk < ts0.len() && ts0[kk] == mm;
                                            assert(ts@[kk] == mm);
                                        } else {
                                            assert(mm == m);
                                            assert(ts@[ts@.len() - 1] == mm);
                                        }
                                    }
                                }
                            }
                            o = o + 1;
                        }
                        proof {
                            assert forall|m: usize|
                                ts@.contains(m) <==> exists|j: int|
                                    0 <= j < k + 1 && #[trigger] self.map.tile_content@[
                                        tiles@[j] as int]@.contains(m) by {
                                if ts@.contains(m) {
                                    if exists|q: int|
                                        0 <= q < count && self.map.tile_content@[idx as int]@[q]
                                            == m {
                                        assert(self.map.tile_content@[
                                            tiles@[k as int] as int]@.contains(m));
                                    }
                                }
                                if exists|j: int|
                                    0 <= j < k + 1 && #[trigger] self.map.tile_content@[
                                        tiles@[j] as int]@.contains(m) {
                                    let j = choose|j: int|
                                        0 <= j < k + 1 && #[trigger] self.map.tile_content@[
                                            tiles@[j] as int]@.contains(m);
                                    if j == k as int {
                                        let q = choose|q: int|
                                            0 <= q < self.map.tile_content@[idx as int]@.len()
                                                && self.map.tile_content@[idx as int]@[q] == m;
                                        assert(0 <= q < count
                                            && self.map.tile_content@[idx as int]@[q] == m);
                                    }
                                }
                            }
                        }
                        k = k + 1;
                    }
                    proof {
                        assert forall|m: usize|
                            ts@.contains(m) <==> in_targets(*self, user, item, target, m) by {
                            if ts@.contains(m) {
                                let j = choose|j: int|
                                    0 <= j < tiles@.len() && #[trigger] self.map.tile_content@[
                                        tiles@[j] as int]@.contains(m);
                                crate::visibility::lemma_idx_coords(tiles@[j] as int);
                                assert(tiles@.contains(
                                    sidx(coords(tiles@[j] as int).0,
                                        coords(tiles@[j] as int).1) as usize));
                            }
                            if in_targets(*self, user, item, target, m) {
                                let idx = choose|idx: int|
                                    0 <= idx < MAPCOUNT && spec_visible(
                                        self.map.tiles@, p.x as int, p.y as int, coords(idx).0,
                                        coords(idx).1, blast.radius as int)
                                        && #[trigger] self.map.tile_content@[idx]@.contains(m);
                                crate::visibility::lemma_idx_coords(idx);
                                assert(tiles@.contains(sidx(coords(idx).0, coords(idx).1)
                                    as usize));
                                let j = choose|j: int|
                                    0 <= j < tiles@.len() && tiles@[j] == idx as usize;
                                assert(self.map.tile_content@[tiles@[j] as int]@.contains(m));
                            }
                        }
                    }
                } else {
                    let idx = self.map.xy_idx(p.x, p.y);
                    let count = self.map.tile_content[idx].len();
                    let mut o: usize = 0;
                    while o < count
                        invariant
                            self.wf(),
                            content_unique(*self),
                            idx < MAPCOUNT,
                            idx == sidx(p.x as int, p.y as int),
                            o <= count,
                            count == self.map.tile_content@[idx as int]@.len(),
                            ts@ == self.map.tile_content@[idx as int]@.subrange(0, o as int),
                        decreases count - o,
                    {
                        let m = self.map.tile_content[idx][o];
                        ts.push(m);
                        proof {
                            assert(ts@ =~= self.map.tile_content@[idx as int]@.subrange(
                                0, o + 1));
                        }
                        o = o + 1;
                    }
                    proof {
                        assert(ts@ =~= self.map.tile_content@[idx as int]@);
                        assert forall|k1: int, k2: int| 0 <= k1 < k2 < ts@.len()
                            implies ts@[k1] != ts@[k2] by {
                            assert(self.map.tile_content@[idx as int]@[k1]
                                == ts@[k1] && self.map.tile_content@[idx as int]@[k2] == ts@[k2]);
                        }
                    }
                }
            },
        }
        ts
    }
}


/// The target set depends only on the map and the item's blast radius,
/// so it is stable across world changes that keep those.
pub proof fn lemma_in_targets_same(
    a: World,
    b: World,
    user: usize,
    item: usize,
    target: Option<Position>,
)
    requires
        b.map == a.map,
        b.aoe@[item as int] == a.aoe@[item as int],
    ensures
        forall|m: usize|
            #[trigger] in_targets(a, user, item, target, m) == in_targets(b, user, item,
                target, m),
{
    assert forall|m: usize|
        #[trigger] in_targets(a, user, item, target, m) == in_targets(b, user, item, target,
            m) by {
        match target {
            None => {},
            Some(p) => {
                if a.aoe@[item as int] is Some {
                    if in_targets(a, user, item, target, m) {
                        let idx = choose|idx: int|
                            0 <= idx < MAPCOUNT && spec_visible(
                                a.map.tiles@, p.x as int, p.y as int, coords(idx).0,
                                coords(idx).1, a.aoe@[item as int].unwrap().radius as int)
                                && #[trigger] a.map.tile_content@[idx]@.contains(m);
                        assert(b.map.tile_content@[idx]@.contains(m));
                    }
                    if in_targets(b, user, item, target, m) {
                        let idx = choose|idx: int|
                            0 <= idx < MAPCOUNT && spec_visible(
                                b.map.tiles@, p.x as int, p.y as int, coords(idx).0,
                                coords(idx).1, b.aoe@[item as int].unwrap().radius as int)
                                && #[trigger] b.map.tile_content@[idx]@.contains(m);
                        assert(a.map.tile_content@[idx]@.contains(m));
                    }
                }
            },
        }
    }
}

/// Everything the pickup pass does: wanted floor items move into
/// backpacks, unwanted items keep their place, all pickup intents are
/// consumed, and the log only grows.
pub open spec fn collection_rel(pre: World, post: World) -> bool {
    &&& post.n() == pre.n()
    &&& post == (World { positions: post.positions, in_backpack: post.in_backpack,
            log: post.log, wants_to_pickup: post.wants_to_pickup, ..pre })
    &&& forall|e: int| 0 <= e < pre.n() ==> post.wants_to_pickup@[e] is None
    &&& forall|e: int|
        0 <= e < pre.n() && #[trigger] pre.wants_to_pickup@[e] is Some
            && pre.wants_to_pickup@[e].unwrap().item != pre.player
            && pre.positions@[pre.wants_to_pickup@[e].unwrap().item as int] is Some
            ==> post.in_backpack@[pre.wants_to_pickup@[e].unwrap().item as int] is Some
                && post.positions@[pre.wants_to_pickup@[e].unwrap().item as int] is None
    &&& forall|k: int|
        0 <= k < pre.n() && !(exists|e: int|
            0 <= e < pre.n() && #[trigger] pre.wants_to_pickup@[e] is Some
                && pre.wants_to_pickup@[e].unwrap().item == k)
            ==> #[trigger] post.positions@[k] == pre.positions@[k] && post.in_backpack@[k]
                == pre.in_backpack@[k]
    &&& pre.log.entries@.len() <= post.log.entries@.len()
    &&& forall|k: int|
        0 <= k < pre.log.entries@.len() ==> #[trigger] post.log.entries@[k] == pre.log.entries@[k]
}

/// Everything the drop pass does: carried items their standing dropper
/// named land on the floor, only named items move, all drop intents are
/// consumed, and the log only grows.
pub open spec fn drop_pass_rel(pre: World, post: World) -> bool {
    &&& post.n() == pre.n()
    &&& post == (World { positions: post.positions, in_backpack: post.in_backpack,
            log: post.log, wants_to_drop: post.wants_to_drop, ..pre })
    &&& forall|e: int| 0 <= e < pre.n() ==> post.wants_to_drop@[e] is None
    &&& forall|e: int|
        0 <= e < pre.n() && #[trigger] pre.wants_to_drop@[e] is Some
            && pre.wants_to_drop@[e].unwrap().item != pre.player && pre.alive@[e]
            && pre.alive@[pre.wants_to_drop@[e].unwrap().item as int]
            && pre.in_backpack@[pre.wants_to_drop@[e].unwrap().item as int] is Some
            && pre.positions@[e] is Some
            ==> post.positions@[pre.wants_to_drop@[e].unwrap().item as int] is Some
                && post.in_backpack@[pre.wants_to_drop@[e].unwrap().item as int] is None
    &&& forall|k: int|
        0 <= k < pre.n() && (#[trigger] post.positions@[k] != pre.positions@[k]
            || post.in_backpack@[k] != pre.in_backpack@[k])
            ==> exists|e: int|
                0 <= e < pre.n() && #[trigger] pre.wants_to_drop@[e] is Some
                    && pre.wants_to_drop@[e].unwrap().item == k
    &&& pre.log.entries@.len() <= post.log.entries@.len()
    &&& forall|k: int|
        0 <= k < pre.log.entries@.len() ==> #[trigger] post.log.entries@[k] == pre.log.entries@[k]
}

/// Everything the use pass does: all use intents are consumed, no other
/// intent kind reappears, the player's due consumable is gone, and the
/// log only grows; the map, player and turn state stay as they were.
pub open spec fn use_pass_rel(pre: World, post: World) -> bool {
    &&& post.n() == pre.n()
    &&& post.map == pre.map
    &&& post.player == pre.player
    &&& post.run_state == pre.run_state
    &&& forall|e: int| 0 <= e < pre.n() ==> post.wants_to_use@[e] is None
    &&& forall|e: int|
        0 <= e < pre.n() && pre.wants_to_melee@[e] is None
            ==> #[trigger] post.wants_to_melee@[e] is None
    &&& forall|e: int|
        0 <= e < pre.n() && pre.wants_to_pickup@[e] is None
            ==> #[trigger] post.wants_to_pickup@[e] is None
    &&& forall|e: int|
        0 <= e < pre.n() && pre.wants_to_drop@[e] is None
            ==> #[trigger] post.wants_to_drop@[e] is None
    &&& ({
        let intent = pre.wants_to_use@[pre.player as int];
        intent is Some && pre.combat_stats@[intent.unwrap().item as int] is None
            && item_consumed(pre, pre.player, intent.unwrap().item, intent.unwrap().target)
            ==> !post.alive@[intent.unwrap().item as int]
    })
    &&& pre.log.entries@.len() <= post.log.entries@.len()
    &&& forall|k: int|
        0 <= k < pre.log.entries@.len() ==> #[trigger] post.log.entries@[k] == pre.log.entries@[k]
}

/// Everything one use of an item does, stated from the state it ran on;
/// the use intents the pass clears are left out.
pub open spec fn use_pass_effects(
    pre: World,
    post: World,
    user: usize,
    item: usize,
    target: Option<Position>,
) -> bool {
    &&& post.n() == pre.n()
    &&& post.map == pre.map
    &&& post.player == pre.player
    &&& post.run_state == pre.run_state
    &&& forall|k: int|
        0 <= k < pre.n() && k != item
            ==> #[trigger] post.alive@[k] == pre.alive@[k]
                && post.positions@[k] == pre.positions@[k]
                && post.in_backpack@[k] == pre.in_backpack@[k]
                && post.items@[k] == pre.items@[k] && post.monsters@[k] == pre.monsters@[k]
                && post.viewsheds@[k] == pre.viewsheds@[k]
                && post.consumables@[k] == pre.consumables@[k]
                && post.provides_healing@[k] == pre.provides_healing@[k]
                && post.inflicts_damage@[k] == pre.inflicts_damage@[k]
                && post.ranged@[k] == pre.ranged@[k] && post.aoe@[k] == pre.aoe@[k]
                && post.names@[k] == pre.names@[k]
                && post.wants_to_melee@[k] == pre.wants_to_melee@[k]
                && post.wants_to_pickup@[k] == pre.wants_to_pickup@[k]
                && post.wants_to_drop@[k] == pre.wants_to_drop@[k]
    &&& pre.log.entries@.len() <= post.log.entries@.len()
    &&& forall|k: int|
        0 <= k < pre.log.entries@.len() ==> #[trigger] post.log.entries@[k] == pre.log.entries@[k]
    &&& forall|m: int|
        0 <= m < pre.n() && m != item && in_targets(pre, user, item, target, m as usize)
            && pre.combat_stats@[m] is Some ==> {
            &&& #[trigger] post.combat_stats@[m] == Some(
                spec_healed(pre, item, pre.combat_stats@[m].unwrap()),
            )
            &&& post.suffer_damage@[m]@ == (if pre.inflicts_damage@[item as int] is Some {
                pre.suffer_damage@[m]@.push(pre.inflicts_damage@[item as int].unwrap().damage)
            } else {
                pre.suffer_damage@[m]@
            })
        }
    &&& forall|m: int|
        0 <= m < pre.n() && m != item && !(in_targets(pre, user, item, target, m as usize)
            && pre.combat_stats@[m] is Some)
            ==> #[trigger] post.combat_stats@[m] == pre.combat_stats@[m]
                && post.suffer_damage@[m] == pre.suffer_damage@[m]
    &&& post.combat_stats@[item as int] is None
    &&& item_consumed(pre, user, item, target)
        ==> !post.alive@[item as int] && post.positions@[item as int] is None
            && post.in_backpack@[item as int] is None && post.items@[item as int] == false
            && post.wants_to_melee@[item as int] is None
            && post.wants_to_pickup@[item as int] is None
            && post.wants_to_drop@[item as int] is None
    &&& !item_consumed(pre, user, item, target)
        ==> post.alive@[item as int] == pre.alive@[item as int]
            && post.positions@[item as int] == pre.positions@[item as int]
            && post.in_backpack@[item as int] == pre.in_backpack@[item as int]
            && post.items@[item as int] == pre.items@[item as int]
            && post.consumables@[item as int] == pre.consumables@[item as int]
            && post.provides_healing@[item as int] == pre.provides_healing@[item as int]
            && post.inflicts_damage@[item as int] == pre.inflicts_damage@[item as int]
            && post.aoe@[item as int] == pre.aoe@[item as int]
            && post.ranged@[item as int] == pre.ranged@[item as int]
            && post.wants_to_melee@[item as int] == pre.wants_to_melee@[item as int]
            && post.wants_to_pickup@[item as int] == pre.wants_to_pickup@[item as int]
            && post.wants_to_drop@[item as int] == pre.wants_to_drop@[item as int]
}

/// Entity `e` holds the only pending use intent, lives, and its item
/// carries no combat stats.
pub open spec fn lone_use_intent(pre: World, e: int) -> bool {
    &&& 0 <= e < pre.n()
    &&& pre.wants_to_use@[e] is Some
    &&& forall|k: int| 0 <= k < pre.n() && k != e ==> pre.wants_to_use@[k] is None
    &&& pre.alive@[e]
    &&& pre.combat_stats@[pre.wants_to_use@[e].unwrap().item as int] is None
}

/// The entity appears among the first `i` gathered targets.
pub open spec fn listed_before(ts: Seq<usize>, i: int, m: int) -> bool {
    exists|j: int| 0 <= j < i && ts[j] == m as usize
}

impl World {
    /// Uses one item: heals and damages every target that carries stats,
    /// logs the player's effects, and consumes a consumable item when at
    /// least one effect was applied.  An item with no applicable effect on
    /// any target is not consumed.
    pub fn use_item(&mut self, user: usize, item: usize, target: Option<Position>)
        requires
            old(self).wf(),
            content_unique(*old(self)),
            user < old(self).n(),
            item < old(self).n(),
            old(self).combat_stats@[item as int] is None,
            target is Some ==> in_map(target.unwrap().x as int, target.unwrap().y as int),
        ensures
            final(self).wf(),
            use_pass_effects(*old(self), *final(self), user, item, target),
            forall|k: int|
                0 <= k < old(self).n() && k != item
                    ==> #[trigger] final(self).wants_to_use@[k] == old(self).wants_to_use@[k],
            item_consumed(*old(self), user, item, target)
                ==> final(self).wants_to_use@[item as int] is None,
            !item_consumed(*old(self), user, item, target)
                ==> final(self).wants_to_use@[item as int] == old(self).wants_to_use@[item as int],
    {
        let ghost pre = *self;
        let ts = self.gather_targets(user, item, target);
        let n = self.alive.len();
        let mut used = false;

        let healing = self.provides_healing[item];
        if let Some(h) = healing {
            let item_name = self.names[item].clone();
            let mut i: usize = 0;
            while i < ts.len()
                invariant
                    self.wf(),
                    pre.wf(),
                    i <= ts@.len(),
                    n == pre.n(),
                    item < n,
                    user < n,
                    pre.provides_healing@[item as int] == Some(h),
                    pre.combat_stats@[item as int] is None,
                    0 <= h.heal_amount <= crate::world::STAT_BOUND,
                    forall|k1: int, k2: int| 0 <= k1 < k2 < ts@.len() ==> ts@[k1] != ts@[k2],
                    forall|j: int| 0 <= j < ts@.len() ==> (#[trigger] ts@[j]) < n,
                    *self == (World { combat_stats: self.combat_stats, log: self.log, ..pre }),
                    self.combat_stats.len() == pre.combat_stats.len(),
                    forall|mm: int|
                        0 <= mm < n && !listed_before(ts@, i as int, mm)
                            ==> #[trigger] self.combat_stats@[mm] == pre.combat_stats@[mm],
                    forall|j: int|
                        0 <= j < i && pre.combat_stats@[ts@[j] as int] is Some
                            ==> #[trigger] self.combat_stats@[ts@[j] as int] == Some(
                                spec_healed(pre, item,
                                    pre.combat_stats@[ts@[j] as int].unwrap()),
                            ),
                    forall|j: int|
                        0 <= j < i && pre.combat_stats@[ts@[j] as int] is None
                            ==> #[trigger] self.combat_stats@[ts@[j] as int] is None,
                    used <==> exists|j: int|
                        0 <= j < i && pre.combat_stats@[#[trigger] ts@[j] as int] is Some,
                    pre.log.entries@.len() <= self.log.entries@.len(),
                    forall|k: int|
                        0 <= k < pre.log.entries@.len()
                            ==> #[trigger] self.log.entries@[k] == pre.log.entries@[k],
                decreases ts@.len() - i,
            {
                let m = ts[i];
                let ghost before = *self;
                if let Some(st) = self.combat_stats[m] {
                    proof {
                        assert(!listed_before(ts@, i as int, m as int));
                        assert(crate::world::stat_ok(st));
                    }
                    let healed_hp = if st.max_hp - st.hp < h.heal_amount {
                        st.max_hp
                    } else {
                        st.hp + h.heal_amount
                    };
                    self.combat_stats[m] = Some(CombatStats { hp: healed_hp, ..st });
                    if user == self.player {
                        let amount = crate::gamelog::decimal_string(h.heal_amount as u32);
                        let line = String::from_str("You drink the ").concat(
                            item_name.as_str()).concat(", healing ").concat(
                            amount.as_str()).concat(" hp");
                        self.log.append(line);
                    }
                    used = true;
                    proof {
                        assert(self.combat_stats@[ts@[i as int] as int] == Some(
                            spec_healed(pre, item, pre.combat_stats@[m as int].unwrap())));
                        assert forall|j: int|
                            0 <= j < i + 1 && pre.combat_stats@[ts@[j] as int] is Some
                            implies #[trigger] self.combat_stats@[ts@[j] as int] == Some(
                                spec_healed(pre, item,
                                    pre.combat_stats@[ts@[j] as int].unwrap())) by {
                            if j < i as int {
                                assert(ts@[j] != ts@[i as int]);
                                assert(self.combat_stats@[ts@[j] as int]
                                    == before.combat_stats@[ts@[j] as int]);
                            }
                        }
                        assert(exists|j: int|
                            0 <= j < i + 1 && pre.combat_stats@[#[trigger] ts@[j] as int]
                                is Some);
                    }
                } else {
                    proof {
                        assert(!listed_before(ts@, i as int, m as int));
                        assert(pre.combat_stats@[m as int] is None);
                    }
                }
                i = i + 1;
            }
        }

        let damaging = self.inflicts_damage[item];
        let ghost mid = *self;
        if let Some(dmg) = damaging {
            let item_name = self.names[item].clone();
            let mut i: usize = 0;
            while i < ts.len()
                invariant
                    self.wf(),
                    pre.wf(),
                    mid.wf(),
                    i <= ts@.len(),
                    n == pre.n(),
                    item < n,
                    user < n,
                    pre.inflicts_damage@[item as int] == Some(dmg),
                    0 <= dmg.damage <= crate::world::STAT_BOUND,
                    forall|k1: int, k2: int| 0 <= k1 < k2 < ts@.len() ==> ts@[k1] != ts@[k2],
                    forall|j: int| 0 <= j < ts@.len() ==> (#[trigger] ts@[j]) < n,
                    *self == (World { suffer_damage: self.suffer_damage, log: self.log, ..mid }),
                    self.suffer_damage.len() == mid.suffer_damage.len(),
                    n == mid.n(),
                    forall|mm: int|
                        0 <= mm < n && !listed_before(ts@, i as int, mm)
                            ==> #[trigger] self.suffer_damage@[mm] == mid.suffer_damage@[mm],
                    forall|j: int|
                        0 <= j < i && mid.combat_stats@[ts@[j] as int] is Some
                            ==> (#[trigger] self.suffer_damage@[ts@[j] as int])@
                                == mid.suffer_damage@[ts@[j] as int]@.push(dmg.damage),
                    forall|j: int|
                        0 <= j < i && mid.combat_stats@[ts@[j] as int] is None
                            ==> #[trigger] self.suffer_damage@[ts@[j] as int]
                                == mid.suffer_damage@[ts@[j] as int],
                    used <==> (pre.provides_healing@[item as int] is Some && exists|j: int|
                        0 <= j < ts@.len()
                            && pre.combat_stats@[#[trigger] ts@[j] as int] is Some)
                        || exists|j: int|
                        0 <= j < i && mid.combat_stats@[#[trigger] ts@[j] as int] is Some,
                    pre.log.entries@.len() <= self.log.entries@.len(),
                    forall|k: int|
                        0 <= k < pre.log.entries@.len()
                            ==> #[trigger] self.log.entries@[k] == pre.log.entries@[k],
                decreases ts@.len() - i,
            {
                let m = ts[i];
                let ghost before = *self;
                let has_stats = self.combat_stats[m].is_some();
                if has_stats {
                    proof {
                        assert(!listed_before(ts@, i as int, m as int));
                    }
                    self.suffer_damage[m].push(dmg.damage);
                    if user == self.player {
                        let target_name = self.names[m].clone();
                        let amount = crate::gamelog::decimal_string(dmg.damage as u32);
                        let line = String::from_str("You use ").concat(
                            item_name.as_str()).concat(" on ").concat(
                            target_name.as_str()).concat(", inflicting ").concat(
                            amount.as_str()).concat(" hp.");
                        self.log.append(line);
                    }
                    used = true;
                    proof {
                        assert(self.suffer_damage@[m as int]@
                            == before.suffer_damage@[m as int]@.push(dmg.damage));
                        assert(before.alive@[m as int]);
                        assert forall|ee: int, kk: int|
                            0 <= ee < self.n() && 0 <= kk < self.suffer_damage@[ee]@.len()
                            implies 0 <= #[trigger] self.suffer_damage@[ee]@[kk]
                                <= crate::world::STAT_BOUND by {
                            if !(ee == m as int && kk == self.suffer_damage@[ee]@.len() - 1) {
                                assert(self.suffer_damage@[ee]@[kk]
                                    == before.suffer_damage@[ee]@[kk]);
                            }
                        }
                        assert forall|j: int|
                            0 <= j < i + 1 && mid.combat_stats@[ts@[j] as int] is Some
                            implies (#[trigger] self.suffer_damage@[ts@[j] as int])@
                                == mid.suffer_damage@[ts@[j] as int]@.push(dmg.damage) by {
                            if j < i as int {
                                assert(ts@[j] != ts@[i as int]);
                                assert(self.suffer_damage@[ts@[j] as int]
                                    == before.suffer_damage@[ts@[j] as int]);
                            }
                        }
                        assert(exists|j: int|
                            0 <= j < i + 1 && mid.combat_stats@[#[trigger] ts@[j] as int]
                                is Some);
                    }
                } else {
                    proof {
                        assert(!listed_before(ts@, i as int, m as int));
                    }
                }
                i = i + 1;
            }
        }

        let ghost fin0 = *self;
        proof {
            // The gathered list and the target predicate agree, so the
            // `used` flag says exactly whether some target could take an
            // effect.
            assert forall|j: int|
                0 <= j < ts@.len() && pre.combat_stats@[#[trigger] ts@[j] as int] is Some
                implies any_target_with_stats(pre, user, item, target) by {
                assert(ts@.contains(ts@[j]));
                assert(in_targets(pre, user, item, target, ts@[j]));
            }
            if any_target_with_stats(pre, user, item, target) {
                let m = choose|m: usize|
                    m < pre.n() && #[trigger] in_targets(pre, user, item, target, m)
                        && pre.combat_stats@[m as int] is Some;
                assert(ts@.contains(m));
                let j = choose|j: int| 0 <= j < ts@.len() && ts@[j] == m;
                assert(pre.combat_stats@[ts@[j] as int] is Some);
                assert(mid.combat_stats@[ts@[j] as int] is Some);
            }
            assert(used == ((pre.provides_healing@[item as int] is Some
                || pre.inflicts_damage@[item as int] is Some)
                && any_target_with_stats(pre, user, item, target)));
            // Each target's stats and damage queue hold the stated values
            // before any consumption of the item.
            assert forall|m: int|
                0 <= m < pre.n() && in_targets(pre, user, item, target, m as usize)
                    && pre.combat_stats@[m] is Some
                implies #[trigger] fin0.combat_stats@[m] == Some(
                    spec_healed(pre, item, pre.combat_stats@[m].unwrap()))
                    && fin0.suffer_damage@[m]@ == (if pre.inflicts_damage@[item as int]
                        is Some {
                        pre.suffer_damage@[m]@.push(
                            pre.inflicts_damage@[item as int].unwrap().damage)
                    } else {
                        pre.suffer_damage@[m]@
                    }) by {
                assert(ts@.contains(m as usize));
                let j = choose|j: int| 0 <= j < ts@.len() && ts@[j] == m as usize;
                assert(mid.combat_stats@[ts@[j] as int] == Some(
                    spec_healed(pre, item, pre.combat_stats@[m].unwrap())));
            }
            assert forall|m: int|
                0 <= m < pre.n() && !(in_targets(pre, user, item, target, m as usize)
                    && pre.combat_stats@[m] is Some)
                implies #[trigger] fin0.combat_stats@[m] == pre.combat_stats@[m]
                    && fin0.suffer_damage@[m] == pre.suffer_damage@[m] by {
                if ts@.contains(m as usize) {
                    let j = choose|j: int| 0 <= j < ts@.len() && ts@[j] == m as usize;
                    assert(in_targets(pre, user, item, target, m as usize));
                    assert(pre.combat_stats@[m] is None);
                    assert(mid.combat_stats@[ts@[j] as int] is None);
                } else {
                    assert(!listed_before(ts@, ts@.len() as int, m));
                }
            }
        }
        if used && self.consumables[item] {
            proof {
                assert(item != self.player);
            }
            self.delete_entity(item);
            proof {
                assert forall|k: int| 0 <= k < pre.n() && k != item
                    implies #[trigger] self.alive@[k] == pre.alive@[k]
                        && self.positions@[k] == pre.positions@[k]
                        && self.in_backpack@[k] == pre.in_backpack@[k]
                        && self.items@[k] == pre.items@[k]
                        && self.monsters@[k] == pre.monsters@[k]
                        && self.viewsheds@[k] == pre.viewsheds@[k]
                        && self.consumables@[k] == pre.consumables@[k]
                        && self.provides_healing@[k] == pre.provides_healing@[k]
                        && self.inflicts_damage@[k] == pre.inflicts_damage@[k]
                        && self.ranged@[k] == pre.ranged@[k]
                        && self.aoe@[k] == pre.aoe@[k]
                        && self.names@[k] == pre.names@[k]
                        && self.wants_to_melee@[k] == pre.wants_to_melee@[k]
                        && self.wants_to_pickup@[k] == pre.wants_to_pickup@[k]
                        && self.wants_to_drop@[k] == pre.wants_to_drop@[k]
                        && self.wants_to_use@[k] == pre.wants_to_use@[k]
                        && self.combat_stats@[k] == fin0.combat_stats@[k]
                        && self.suffer_damage@[k] == fin0.suffer_damage@[k] by {
                    assert(self.alive@[k] == fin0.alive@[k]);
                }
            }
        }
        proof {
            assert forall|m: int|
                0 <= m < pre.n() && m != item && in_targets(pre, user, item, target, m as usize)
                    && pre.combat_stats@[m] is Some
                implies #[trigger] self.combat_stats@[m] == Some(
                    spec_healed(pre, item, pre.combat_stats@[m].unwrap()))
                    && self.suffer_damage@[m]@ == (if pre.inflicts_damage@[item as int]
                        is Some {
                        pre.suffer_damage@[m]@.push(
                            pre.inflicts_damage@[item as int].unwrap().damage)
                    } else {
                        pre.suffer_damage@[m]@
                    }) by {
                assert(self.alive@[m] == fin0.alive@[m]);
                assert(self.combat_stats@[m] == fin0.combat_stats@[m]);
            }
            assert forall|m: int|
                0 <= m < pre.n() && m != item && !(in_targets(
                    pre, user, item, target, m as usize) && pre.combat_stats@[m] is Some)
                implies #[trigger] self.combat_stats@[m] == pre.combat_stats@[m]
                    && self.suffer_damage@[m] == pre.suffer_damage@[m] by {
                assert(self.alive@[m] == fin0.alive@[m]);
                assert(self.combat_stats@[m] == fin0.combat_stats@[m]);
            }
            assert(use_pass_effects(pre, *self, user, item, target));
            assert forall|k: int| 0 <= k < pre.n() && k != item
                implies #[trigger] self.wants_to_use@[k] == pre.wants_to_use@[k] by {
                assert(self.alive@[k] == fin0.alive@[k]);
                assert(self.wants_to_use@[k] == fin0.wants_to_use@[k]);
            }
        }
    }
}

impl World {
    /// Resolves every pickup intent: the item loses its position and
    /// enters the collector's backpack; the player's pickups are logged.
    /// All pickup intents are cleared, and an intent whose item is no
    /// longer on the floor does nothing.
    pub fn item_collection_system(&mut self)
        requires
            old(self).wf(),
        ensures
            final(self).wf(),
            collection_rel(*old(self), *final(self)),
            // a single pending pickup is resolved exactly: the named
            // collector carries the item, and the player's pickups are
            // logged with the fixed line
            forall|e: int|
                0 <= e < old(self).n() && #[trigger] old(self).wants_to_pickup@[e] is Some
                    && (forall|k: int|
                    0 <= k < old(self).n() && k != e ==> old(self).wants_to_pickup@[k] is None)
                    && old(self).wants_to_pickup@[e].unwrap().item != old(self).player
                    && old(self).positions@[
                    old(self).wants_to_pickup@[e].unwrap().item as int] is Some ==> ({
                    let p = old(self).wants_to_pickup@[e].unwrap();
                    &&& final(self).in_backpack@[p.item as int] == Some(
                        InBackpack { owner: p.collected_by },
                    )
                    &&& final(self).positions@[p.item as int] is None
                    &&& (p.collected_by == old(self).player ==> final(self).log.entries@.len()
                        == old(self).log.entries@.len() + 1 && final(self).log.entries@.last()@
                        == pickup_line(old(self).names@[p.item as int]@))
                    &&& (p.collected_by != old(self).player
                        ==> final(self).log == old(self).log)
                }),
    {
        let ghost pre = *self;
        let n = self.alive.len();
        let mut e: usize = 0;
        while e < n
            invariant
                self.wf(),
                pre.wf(),
                e <= n,
                n == pre.n(),
                *self == (World { positions: self.positions, in_backpack: self.in_backpack,
                    log: self.log, wants_to_pickup: self.wants_to_pickup, ..pre }),
                forall|k: int| 0 <= k < e ==> self.wants_to_pickup@[k] is None,
                forall|k: int|
                    e <= k < n
                        ==> #[trigger] self.wants_to_pickup@[k] == pre.wants_to_pickup@[k],
                forall|e2: int|
                    0 <= e2 < n && #[trigger] pre.wants_to_pickup@[e2] is Some
                        && (forall|k: int|
                        0 <= k < n && k != e2 ==> pre.wants_to_pickup@[k] is None)
                        && pre.wants_to_pickup@[e2].unwrap().item != pre.player
                        && pre.positions@[pre.wants_to_pickup@[e2].unwrap().item as int] is Some
                        ==> (e as int <= e2 ==> *self == pre) && (e2 < e as int ==> ({
                            let p = pre.wants_to_pickup@[e2].unwrap();
                            &&& self.in_backpack@[p.item as int] == Some(
                                InBackpack { owner: p.collected_by },
                            )
                            &&& self.positions@[p.item as int] is None
                            &&& (p.collected_by == pre.player ==> self.log.entries@.len()
                                == pre.log.entries@.len() + 1 && self.log.entries@.last()@
                                == pickup_line(pre.names@[p.item as int]@))
                            &&& (p.collected_by != pre.player ==> self.log == pre.log)
                            &&& (forall|k: int|
                                0 <= k < n ==> self.wants_to_pickup@[k] is None)
                        })),
                // an item either sits where it was or has moved into a backpack
                forall|k: int|
                    0 <= k < n
                        ==> (#[trigger] self.positions@[k] == pre.positions@[k]
                            && self.in_backpack@[k] == pre.in_backpack@[k])
                            || (self.positions@[k] is None && self.in_backpack@[k] is Some),
                forall|ee: int|
                    0 <= ee < e && #[trigger] pre.wants_to_pickup@[ee] is Some
                        && pre.wants_to_pickup@[ee].unwrap().item != pre.player
                        && pre.positions@[pre.wants_to_pickup@[ee].unwrap().item as int] is Some
                        ==> self.in_backpack@[
                            pre.wants_to_pickup@[ee].unwrap().item as int] is Some
                            && self.positions@[
                            pre.wants_to_pickup@[ee].unwrap().item as int] is None,
                forall|k: int|
                    0 <= k < n && !(exists|ee: int|
                        0 <= ee < n && #[trigger] pre.wants_to_pickup@[ee] is Some
                            && pre.wants_to_pickup@[ee].unwrap().item == k)
                        ==> #[trigger] self.positions@[k] == pre.positions@[k]
                            && self.in_backpack@[k] == pre.in_backpack@[k],
                pre.log.entries@.len() <= self.log.entries@.len(),
                forall|k: int|
                    0 <= k < pre.log.entries@.len()
                        ==> #[trigger] self.log.entries@[k] == pre.log.entries@[k],
            decreases n - e,
        {
            let intent = self.wants_to_pickup[e];
            if let Some(p) = intent {
                if p.item != self.player && self.positions[p.item].is_some() {
                    let ghost before = *self;
                    self.pickup_item(p.collected_by, p.item);
                    proof {
                        assert forall|k: int| 0 <= k < e
                            implies #[trigger] self.wants_to_pickup@[k] is None by {
                            assert(self.wants_to_pickup@[k] == before.wants_to_pickup@[k]);
                        }
                        assert forall|k: int| 0 <= k < pre.log.entries@.len()
                            implies #[trigger] self.log.entries@[k] == pre.log.entries@[k] by {
                            assert(self.log.entries@[k] == before.log.entries@[k]);
                        }
                        assert forall|k: int| 0 <= k < n
                            implies (#[trigger] self.positions@[k] == pre.positions@[k]
                                && self.in_backpack@[k] == pre.in_backpack@[k])
                                || (self.positions@[k] is None
                                    && self.in_backpack@[k] is Some) by {
                            if k != p.item as int {
                                assert(self.positions@[k] == before.positions@[k]);
                                assert(self.in_backpack@[k] == before.in_backpack@[k]);
                            }
                        }
                        assert forall|ee: int|
                            0 <= ee < e + 1 && #[trigger] pre.wants_to_pickup@[ee] is Some
                                && pre.wants_to_pickup@[ee].unwrap().item != pre.player
                                && pre.positions@[
                                pre.wants_to_pickup@[ee].unwrap().item as int] is Some
                            implies self.in_backpack@[
                                pre.wants_to_pickup@[ee].unwrap().item as int] is Some
                                && self.positions@[
                                pre.wants_to_pickup@[ee].unwrap().item as int] is None by {
                            let it = pre.wants_to_pickup@[ee].unwrap().item as int;
                            if ee < e as int {
                                assert(before.in_backpack@[it] is Some
                                    && before.positions@[it] is None);
                                if it != p.item as int {
                                    assert(self.positions@[it] == before.positions@[it]);
                                    assert(self.in_backpack@[it] == before.in_backpack@[it]);
                                }
                            }
                        }
                        assert forall|k: int|
                            0 <= k < n && !(exists|ee: int|
                                0 <= ee < n && #[trigger] pre.wants_to_pickup@[ee] is Some
                                    && pre.wants_to_pickup@[ee].unwrap().item == k)
                            implies #[trigger] self.positions@[k] == pre.positions@[k]
                                && self.in_backpack@[k] == pre.in_backpack@[k] by {
                            if k != p.item as int {
                                assert(self.positions@[k] == before.positions@[k]);
                                assert(self.in_backpack@[k] == before.in_backpack@[k]);
                            } else {
                                assert(pre.wants_to_pickup@[e as int] is Some
                                    && pre.wants_to_pickup@[e as int].unwrap().item == k);
                            }
                        }
                    }
                } else {
                    proof {
                        if p.item != self.player {
                            // the item is already carried: its slot stays put
                            assert(self.positions@[p.item as int] is None);
                        }
                    }
                }
            }
            if intent.is_some() {
                self.wants_to_pickup[e] = None;
            }
            e = e + 1;
        }
    }

    /// Resolves every drop intent: the item leaves the dropper's backpack
    /// and lands on the dropper's current tile; the player's drops are
    /// logged.  All drop intents are cleared, and an intent whose item is
    /// not in a backpack, or whose dropper stands nowhere, does nothing:
    /// dropping demands the backpack entry a pickup made.
    #[verifier::rlimit(100)]
    #[verifier::spinoff_prover]
    pub fn item_drop_system(&mut self)
        requires
            old(self).wf(),
        ensures
            final(self).wf(),
            drop_pass_rel(*old(self), *final(self)),
            // a single pending drop is resolved exactly: the item lands on
            // the dropper's tile, and the player's drops are logged with
            // the fixed line
            forall|e: int|
                0 <= e < old(self).n() && #[trigger] old(self).wants_to_drop@[e] is Some
                    && (forall|k: int|
                    0 <= k < old(self).n() && k != e ==> old(self).wants_to_drop@[k] is None)
                    && old(self).wants_to_drop@[e].unwrap().item != old(self).player
                    && old(self).alive@[e]
                    && old(self).alive@[old(self).wants_to_drop@[e].unwrap().item as int]
                    && old(self).in_backpack@[old(self).wants_to_drop@[e].unwrap().item as int]
                        is Some
                    && old(self).positions@[e] is Some ==> ({
                    let d = old(self).wants_to_drop@[e].unwrap();
                    &&& final(self).positions@[d.item as int] == old(self).positions@[e]
                    &&& final(self).in_backpack@[d.item as int] is None
                    &&& (e == old(self).player as int ==> final(self).log.entries@.len()
                        == old(self).log.entries@.len() + 1 && final(self).log.entries@.last()@
                        == drop_line(old(self).names@[d.item as int]@))
                    &&& (e != old(self).player as int ==> final(self).log == old(self).log)
                }),
    {
        let ghost pre = *self;
        let n = self.alive.len();
        let mut e: usize = 0;
        while e < n
            invariant
                self.wf(),
                pre.wf(),
                e <= n,
                n == pre.n(),
                *self == (World { positions: self.positions, in_backpack: self.in_backpack,
                    log: self.log, wants_to_drop: self.wants_to_drop, ..pre }),
                forall|k: int| 0 <= k < e ==> self.wants_to_drop@[k] is None,
                forall|k: int|
                    e <= k < n ==> #[trigger] self.wants_to_drop@[k] == pre.wants_to_drop@[k],
                forall|e2: int|
                    0 <= e2 < n && #[trigger] pre.wants_to_drop@[e2] is Some
                        && (forall|k: int|
                        0 <= k < n && k != e2 ==> pre.wants_to_drop@[k] is None)
                        && pre.wants_to_drop@[e2].unwrap().item != pre.player
                        && pre.alive@[e2]
                        && pre.alive@[pre.wants_to_drop@[e2].unwrap().item as int]
                        && pre.in_backpack@[pre.wants_to_drop@[e2].unwrap().item as int] is Some
                        && pre.positions@[e2] is Some
                        ==> (e as int <= e2 ==> *self == pre) && (e2 < e as int ==> ({
                            let d = pre.wants_to_drop@[e2].unwrap();
                            &&& self.positions@[d.item as int] == pre.positions@[e2]
                            &&& self.in_backpack@[d.item as int] is None
                            &&& (e2 == pre.player as int ==> self.log.entries@.len()
                                == pre.log.entries@.len() + 1 && self.log.entries@.last()@
                                == drop_line(pre.names@[d.item as int]@))
                            &&& (e2 != pre.player as int ==> self.log == pre.log)
                            &&& (forall|k: int| 0 <= k < n ==> self.wants_to_drop@[k] is None)
                        })),
                forall|k: int| 0 <= k < n ==> #[trigger] self.alive@[k] == pre.alive@[k],
                // an entity either keeps its place or was dropped to the floor
                forall|k: int|
                    0 <= k < n
                        ==> (#[trigger] self.positions@[k] == pre.positions@[k]
                            && self.in_backpack@[k] == pre.in_backpack@[k])
                            || (self.positions@[k] is Some && self.in_backpack@[k] is None),
                // a dropper's own tile never goes away during the pass
                forall|k: int|
                    0 <= k < n && pre.positions@[k] is Some
                        ==> #[trigger] self.positions@[k] is Some,
                forall|ee: int|
                    0 <= ee < e && #[trigger] pre.wants_to_drop@[ee] is Some
                        && pre.wants_to_drop@[ee].unwrap().item != pre.player
                        && pre.alive@[ee]
                        && pre.alive@[pre.wants_to_drop@[ee].unwrap().item as int]
                        && pre.in_backpack@[pre.wants_to_drop@[ee].unwrap().item as int] is Some
                        && pre.positions@[ee] is Some
                        ==> self.positions@[pre.wants_to_drop@[ee].unwrap().item as int] is Some
                            && self.in_backpack@[
                            pre.wants_to_drop@[ee].unwrap().item as int] is None,
                forall|k: int|
                    0 <= k < n && (#[trigger] self.positions@[k] != pre.positions@[k]
                        || self.in_backpack@[k] != pre.in_backpack@[k])
                        ==> exists|ee: int|
                            0 <= ee < n && #[trigger] pre.wants_to_drop@[ee] is Some
                                && pre.wants_to_drop@[ee].unwrap().item == k,
                pre.log.entries@.len() <= self.log.entries@.len(),
                forall|k: int|
                    0 <= k < pre.log.entries@.len()
                        ==> #[trigger] self.log.entries@[k] == pre.log.entries@[k],
            decreases n - e,
        {
            let intent = self.wants_to_drop[e];
            if let Some(d) = intent {
                if d.item != self.player && self.alive[e] && self.alive[d.item]
                    && self.in_backpack[d.item].is_some() && self.positions[e].is_some() {
                    let ghost before = *self;
                    self.drop_item(e, d.item);
                    proof {
                        assert forall|k: int| 0 <= k < e
                            implies #[trigger] self.wants_to_drop@[k] is None by {
                            assert(self.wants_to_drop@[k] == before.wants_to_drop@[k]);
                        }
                        assert forall|k: int| 0 <= k < pre.log.entries@.len()
                            implies #[trigger] self.log.entries@[k] == pre.log.entries@[k] by {
                            assert(self.log.entries@[k] == before.log.entries@[k]);
                        }
                        assert forall|k: int| 0 <= k < n
                            implies (#[trigger] self.positions@[k] == pre.positions@[k]
                                && self.in_backpack@[k] == pre.in_backpack@[k])
                                || (self.positions@[k] is Some
                                    && self.in_backpack@[k] is None) by {
                            if k != d.item as int {
                                assert(self.positions@[k] == before.positions@[k]);
                                assert(self.in_backpack@[k] == before.in_backpack@[k]);
                            }
                        }
                        assert forall|k: int|
                            0 <= k < n && pre.positions@[k] is Some
                            implies #[trigger] self.positions@[k] is Some by {
                            if k != d.item as int {
                                assert(self.positions@[k] == before.positions@[k]);
                            }
                        }
                        assert forall|ee: int|
                            0 <= ee < e + 1 && #[trigger] pre.wants_to_drop@[ee] is Some
                                && pre.wants_to_drop@[ee].unwrap().item != pre.player
                                && pre.alive@[ee]
                                && pre.alive@[pre.wants_to_drop@[ee].unwrap().item as int]
                                && pre.in_backpack@[
                                pre.wants_to_drop@[ee].unwrap().item as int] is Some
                                && pre.positions@[ee] is Some
                            implies self.positions@[
                                pre.wants_to_drop@[ee].unwrap().item as int] is Some
                                && self.in_backpack@[
                                pre.wants_to_drop@[ee].unwrap().item as int] is None by {
                            let it = pre.wants_to_drop@[ee].unwrap().item as int;
                            if ee < e as int {
                                assert(before.positions@[it] is Some
                                    && before.in_backpack@[it] is None);
                                if it != d.item as int {
                                    assert(self.positions@[it] == before.positions@[it]);
                                    assert(self.in_backpack@[it] == before.in_backpack@[it]);
                                }
                            }
                        }
                        assert forall|k: int|
                            0 <= k < n && (#[trigger] self.positions@[k] != pre.positions@[k]
                                || self.in_backpack@[k] != pre.in_backpack@[k])
                            implies exists|ee: int|
                                0 <= ee < n && #[trigger] pre.wants_to_drop@[ee] is Some
                                    && pre.wants_to_drop@[ee].unwrap().item == k by {
                            if k != d.item as int {
                                assert(self.positions@[k] == before.positions@[k]);
                                assert(self.in_backpack@[k] == before.in_backpack@[k]);
                            } else {
                                assert(pre.wants_to_drop@[e as int] is Some
                                    && pre.wants_to_drop@[e as int].unwrap().item == k);
                            }
                        }
                    }
                } else {
                    proof {
                        if d.item != self.player && self.alive@[e as int]
                            && self.alive@[d.item as int] && self.positions@[e as int] is Some {
                            // the backpack entry is already gone: the item
                            // lies on the floor from an earlier drop
                            if pre.in_backpack@[d.item as int] is Some {
                                assert(self.in_backpack@[d.item as int] is None);
                                assert(self.positions@[d.item as int] is Some);
                            }
                        }
                    }
                }
            }
            let ghost pre_write = *self;
            if intent.is_some() {
                self.wants_to_drop[e] = None;
            }
            proof {
                assert forall|k: int|
                    0 <= k < n && (#[trigger] self.positions@[k] != pre.positions@[k]
                        || self.in_backpack@[k] != pre.in_backpack@[k])
                    implies exists|ee: int|
                        0 <= ee < n && #[trigger] pre.wants_to_drop@[ee] is Some
                            && pre.wants_to_drop@[ee].unwrap().item == k by {
                    assert(self.positions@[k] == pre_write.positions@[k]);
                    assert(self.in_backpack@[k] == pre_write.in_backpack@[k]);
                }
            }
            e = e + 1;
        }
    }

    /// Resolves every use intent against the current occupant lists, so
    /// the spatial index must have run this turn.  All use intents are
    /// cleared; an intent whose user is dead, or whose item carries combat
    /// stats, does nothing.
    pub fn item_use_system(&mut self)
        requires
            old(self).wf(),
            content_unique(*old(self)),
        ensures
            final(self).wf(),
            use_pass_rel(*old(self), *final(self)),
            // a single pending use is resolved exactly as one use of its
            // item on the state the pass began with, followed by the
            // clearing of the use intents
            forall|e: int|
                #[trigger] lone_use_intent(*old(self), e) ==> exists|m: World|
                    #[trigger] use_pass_effects(
                        *old(self),
                        m,
                        e as usize,
                        old(self).wants_to_use@[e].unwrap().item,
                        old(self).wants_to_use@[e].unwrap().target,
                    ) && *final(self) == (World { wants_to_use: final(self).wants_to_use,
                        ..m }),
    {
        let ghost pre = *self;
        let ghost lone: Option<int> = if exists|e2: int| lone_use_intent(pre, e2) {
            Some(choose|e2: int| lone_use_intent(pre, e2))
        } else {
            None
        };
        let n = self.alive.len();
        let mut e: usize = 0;
        while e < n
            invariant
                self.wf(),
                pre.wf(),
                e <= n,
                n == pre.n(),
                n == self.n(),
                self.map == pre.map,
                self.player == pre.player,
                self.run_state == pre.run_state,
                content_unique(*self),
                forall|k: int| 0 <= k < e ==> self.wants_to_use@[k] is None,
                lone is Some ==> lone_use_intent(pre, lone.unwrap()),
                lone is Some && e as int <= lone.unwrap() ==> *self == pre,
                lone is Some && lone.unwrap() < e as int ==> (exists|m: World|
                    #[trigger] use_pass_effects(
                        pre,
                        m,
                        lone.unwrap() as usize,
                        pre.wants_to_use@[lone.unwrap()].unwrap().item,
                        pre.wants_to_use@[lone.unwrap()].unwrap().target,
                    ) && *self == (World { wants_to_use: self.wants_to_use, ..m }))
                    && (forall|k: int| 0 <= k < n ==> self.wants_to_use@[k] is None),
                forall|k: int| 0 <= k < n && #[trigger] self.alive@[k] ==> pre.alive@[k],
                forall|k: int|
                    0 <= k < n && pre.combat_stats@[k] is Some
                        ==> #[trigger] self.combat_stats@[k] is Some,
                forall|k: int|
                    0 <= k < n && pre.combat_stats@[k] is None
                        ==> #[trigger] self.combat_stats@[k] is None,
                forall|k: int|
                    0 <= k < n && #[trigger] self.alive@[k]
                        ==> self.consumables@[k] == pre.consumables@[k]
                            && self.provides_healing@[k] == pre.provides_healing@[k]
                            && self.inflicts_damage@[k] == pre.inflicts_damage@[k]
                            && self.aoe@[k] == pre.aoe@[k],
                forall|k: int|
                    e <= k < n && #[trigger] self.alive@[k]
                        ==> self.wants_to_use@[k] == pre.wants_to_use@[k],
                self.alive@[pre.player as int],
                ({
                    let intent = pre.wants_to_use@[pre.player as int];
                    pre.player < e && intent is Some
                        && pre.combat_stats@[intent.unwrap().item as int] is None
                        && item_consumed(pre, pre.player, intent.unwrap().item,
                            intent.unwrap().target)
                        ==> !self.alive@[intent.unwrap().item as int]
                }),
                forall|k: int|
                    0 <= k < n && pre.wants_to_melee@[k] is None
                        ==> #[trigger] self.wants_to_melee@[k] is None,
                forall|k: int|
                    0 <= k < n && pre.wants_to_pickup@[k] is None
                        ==> #[trigger] self.wants_to_pickup@[k] is None,
                forall|k: int|
                    0 <= k < n && pre.wants_to_drop@[k] is None
                        ==> #[trigger] self.wants_to_drop@[k] is None,
                pre.log.entries@.len() <= self.log.entries@.len(),
                forall|k: int|
                    0 <= k < pre.log.entries@.len()
                        ==> #[trigger] self.log.entries@[k] == pre.log.entries@[k],
            decreases n - e,
        {
            let intent = self.wants_to_use[e];
            if let Some(u) = intent {
                if self.alive[e] && self.combat_stats[u.item].is_none() {
                    let ghost before = *self;
                    self.use_item(e, u.item, u.target);
                    proof {
                        if e == pre.player && before.alive@[u.item as int]
                            && item_consumed(pre, pre.player, u.item, u.target) {
                            // every part of the consumption condition carries
                            // over to the state the use saw
                            assert(before.aoe@[u.item as int] == pre.aoe@[u.item as int]);
                            lemma_in_targets_same(pre, before, e, u.item, u.target);
                            assert(before.consumables@[u.item as int]);
                            if any_target_with_stats(pre, e, u.item, u.target) {
                                let m = choose|m: usize|
                                    m < pre.n() && #[trigger] in_targets(pre, e, u.item,
                                        u.target, m) && pre.combat_stats@[m as int] is Some;
                                assert(in_targets(before, e, u.item, u.target, m));
                                assert(before.combat_stats@[m as int] is Some);
                                assert(any_target_with_stats(before, e, u.item, u.target));
                            }
                            assert(item_consumed(before, e, u.item, u.target));
                            assert(!self.alive@[u.item as int]);
                        }
                        assert forall|k: int|
                            0 <= k < n && pre.combat_stats@[k] is Some
                            implies #[trigger] self.combat_stats@[k] is Some by {
                            assert(before.combat_stats@[k] is Some);
                            if k == u.item as int {
                                assert(false);
                            }
                        }
                        assert forall|k: int|
                            0 <= k < n && pre.combat_stats@[k] is None
                            implies #[trigger] self.combat_stats@[k] is None by {
                            assert(before.combat_stats@[k] is None);
                            if k != u.item as int {
                                if in_targets(before, e, u.item, u.target, k as usize)
                                    && before.combat_stats@[k] is Some {
                                    assert(false);
                                }
                            }
                        }
                        assert forall|k: int| 0 <= k < n && #[trigger] self.alive@[k]
                            implies pre.alive@[k] by {
                            if k != u.item as int {
                                assert(self.alive@[k] == before.alive@[k]);
                            } else {
                                if self.alive@[k] != before.alive@[k] {
                                    assert(!self.alive@[k]);
                                }
                            }
                        }
                        assert forall|k: int|
                            0 <= k < n && #[trigger] self.alive@[k]
                            implies self.consumables@[k] == pre.consumables@[k]
                                && self.provides_healing@[k] == pre.provides_healing@[k]
                                && self.inflicts_damage@[k] == pre.inflicts_damage@[k]
                                && self.aoe@[k] == pre.aoe@[k] by {
                            if k != u.item as int {
                                assert(self.alive@[k] == before.alive@[k]);
                                assert(self.consumables@[k] == before.consumables@[k]);
                            } else {
                                if item_consumed(before, e, u.item, u.target) {
                                    assert(!self.alive@[k]);
                                } else {
                                    assert(self.consumables@[k] == before.consumables@[k]);
                                    assert(self.alive@[k] == before.alive@[k]);
                                }
                            }
                        }
                        assert forall|k: int|
                            e + 1 <= k < n && #[trigger] self.alive@[k]
                            implies self.wants_to_use@[k] == pre.wants_to_use@[k] by {
                            if k != u.item as int {
                                assert(self.alive@[k] == before.alive@[k]);
                                assert(self.wants_to_use@[k] == before.wants_to_use@[k]);
                            } else {
                                if item_consumed(before, e, u.item, u.target) {
                                    assert(!self.alive@[k]);
                                } else {
                                    assert(self.wants_to_use@[k]
                                        == before.wants_to_use@[k]);
                                    assert(self.alive@[k] == before.alive@[k]);
                                }
                            }
                        }
                        assert forall|k: int| 0 <= k < e
                            implies #[trigger] self.wants_to_use@[k] is None by {
                            if k != u.item as int {
                                assert(self.alive@[k] == before.alive@[k]);
                                assert(self.wants_to_use@[k] == before.wants_to_use@[k]);
                            } else {
                                if item_consumed(before, e, u.item, u.target) {
                                    assert(self.wants_to_use@[k] is None);
                                } else {
                                    assert(self.wants_to_use@[k]
                                        == before.wants_to_use@[k]);
                                }
                            }
                        }
                        assert forall|k: int| 0 <= k < pre.log.entries@.len()
                            implies #[trigger] self.log.entries@[k] == pre.log.entries@[k] by {
                            assert(self.log.entries@[k] == before.log.entries@[k]);
                        }
                        assert forall|k: int|
                            0 <= k < n && pre.wants_to_melee@[k] is None
                            implies #[trigger] self.wants_to_melee@[k] is None by {
                            assert(self.alive@[k] == before.alive@[k]
                                || k == u.item as int);
                            if k != u.item as int {
                                assert(self.wants_to_melee@[k]
                                    == before.wants_to_melee@[k]);
                            } else {
                                if !item_consumed(before, e, u.item, u.target) {
                                    assert(self.wants_to_melee@[k]
                                        == before.wants_to_melee@[k]);
                                }
                            }
                        }
                        assert forall|k: int|
                            0 <= k < n && pre.wants_to_pickup@[k] is None
                            implies #[trigger] self.wants_to_pickup@[k] is None by {
                            assert(self.alive@[k] == before.alive@[k]
                                || k == u.item as int);
                            if k != u.item as int {
                                assert(self.wants_to_pickup@[k]
                                    == before.wants_to_pickup@[k]);
                            } else {
                                if !item_consumed(before, e, u.item, u.target) {
                                    assert(self.wants_to_pickup@[k]
                                        == before.wants_to_pickup@[k]);
                                }
                            }
                        }
                        assert forall|k: int|
                            0 <= k < n && pre.wants_to_drop@[k] is None
                            implies #[trigger] self.wants_to_drop@[k] is None by {
                            assert(self.alive@[k] == before.alive@[k]
                                || k == u.item as int);
                            if k != u.item as int {
                                assert(self.wants_to_drop@[k]
                                    == before.wants_to_drop@[k]);
                            } else {
                                if !item_consumed(before, e, u.item, u.target) {
                                    assert(self.wants_to_drop@[k]
                                        == before.wants_to_drop@[k]);
                                }
                            }
                        }
                    }
                }
            }
            let ghost post_use = *self;
            if intent.is_some() {
                self.wants_to_use[e] = None;
            }
            proof {
                if lone is Some && lone.unwrap() == e as int {
                    let u2 = pre.wants_to_use@[e as int].unwrap();
                    assert forall|k: int| 0 <= k < n
                        implies self.wants_to_use@[k] is None by {
                        if k != e as int && k != u2.item as int {
                            assert(self.alive@[k] == pre.alive@[k] || k == u2.item as int);
                        }
                    }
                    assert(use_pass_effects(pre, post_use, e as usize, u2.item, u2.target));
                    assert(*self == (World { wants_to_use: self.wants_to_use, ..post_use }));
                }
            }
            e = e + 1;
        }
        proof {
            assert forall|e2: int| #[trigger] lone_use_intent(pre, e2)
                implies exists|m: World|
                    #[trigger] use_pass_effects(
                        pre,
                        m,
                        e2 as usize,
                        pre.wants_to_use@[e2].unwrap().item,
                        pre.wants_to_use@[e2].unwrap().target,
                    ) && *self == (World { wants_to_use: self.wants_to_use, ..m }) by {
                // the hypothesis admits exactly one entity
                let s = lone.unwrap();
                if s != e2 {
                    assert(pre.wants_to_use@[e2] is None);
                    assert(false);
                }
            }
        }
    }
}

} // verus!
