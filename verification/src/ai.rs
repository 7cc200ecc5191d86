//! The hostile AI.  On the monster turn, each monster acts exactly once:
//! a confused monster only counts its confusion down; otherwise, if the
//! player is in its sight it attacks when already in reach and moves one
//! step along a found route when not; if the player is out of sight, or no
//! route exists, it stands still.

use vstd::prelude::*;
use crate::components::{Confusion, Position, RunState, Viewshed, WantsToMelee};
use crate::map::{GameMap, sidx, MAPCOUNT};
use crate::pathfind::{adj8, coords, find_first_step, is_route, route_exists};
use crate::visibility::dist2;
use crate::world::World;

verus! {

/// Reports whether the list holds the tile.
pub fn tiles_contain(v: &Vec<usize>, t: usize) -> (r: bool)
    ensures
        r == v@.contains(t),
{
    let mut i: usize = 0;
    while i < v.len()
        invariant
            i <= v@.len(),
            forall|k: int| 0 <= k < i ==> v@[k] != t,
        decreases v@.len() - i,
    {
        if v[i] == t {
            return true;
        }
        i = i + 1;
    }
    false
}

/// The monster at `e` is due to act on the monster turn: it lives, is
/// hostile, sees, and stands somewhere.
pub open spec fn ai_applicable(w: World, e: int) -> bool {
    &&& w.alive@[e]
    &&& w.monsters@[e]
    &&& w.viewsheds@[e] is Some
    &&& w.positions@[e] is Some
}

/// The player's tile is in the monster's sight.
pub open spec fn sees_player(w: World, e: int) -> bool {
    w.viewsheds@[e].unwrap().visible_tiles@.contains(
        sidx(
            w.positions@[w.player as int].unwrap().x as int,
            w.positions@[w.player as int].unwrap().y as int,
        ) as usize,
    )
}

/// Squared distance between the monster and the player.
pub open spec fn player_dist2(w: World, e: int) -> int {
    dist2(
        w.positions@[e].unwrap().x as int,
        w.positions@[e].unwrap().y as int,
        w.positions@[w.player as int].unwrap().x as int,
        w.positions@[w.player as int].unwrap().y as int,
    )
}

/// Everything the AI pass does: a no-op outside the monster turn; on the
/// monster turn only monsters' spots, sights, confusions and intents and
/// the blocked bitmap change, any added melee intent targets the player,
/// and every unconfused monster that began the turn with the player seen
/// and in melee reach attacks and stays put.
pub open spec fn ai_rel(pre: World, post: World) -> bool {
    &&& pre.run_state != RunState::MonsterTurn ==> post == pre
    &&& post.n() == pre.n()
    &&& post == (World { positions: post.positions, viewsheds: post.viewsheds,
            confusion: post.confusion, wants_to_melee: post.wants_to_melee, map: post.map,
            ..pre })
    &&& post.map == (GameMap { blocked: post.map.blocked, ..pre.map })
    &&& forall|k: int|
        0 <= k < pre.n() && !(pre.alive@[k] && pre.monsters@[k])
            ==> #[trigger] post.positions@[k] == pre.positions@[k]
                && post.viewsheds@[k] == pre.viewsheds@[k]
                && post.confusion@[k] == pre.confusion@[k]
                && post.wants_to_melee@[k] == pre.wants_to_melee@[k]
    &&& forall|k: int|
        0 <= k < pre.n() && #[trigger] post.wants_to_melee@[k] != pre.wants_to_melee@[k]
            ==> post.wants_to_melee@[k] == Some(WantsToMelee { target: pre.player })
    &&& pre.run_state == RunState::MonsterTurn ==> forall|e: int|
        0 <= e < pre.n() && #[trigger] ai_applicable(pre, e) && pre.confusion@[e] is None
            && sees_player(pre, e) && player_dist2(pre, e) <= 2
            ==> post.wants_to_melee@[e] == Some(WantsToMelee { target: pre.player })
                && post.positions@[e] == pre.positions@[e]
}

/// The entities from `e` on have not been processed: their spot, sight,
/// confusion and intent are as the turn began.
pub open spec fn ai_untouched_from(pre: World, cur: World, e: int) -> bool {
    forall|k: int|
        e <= k < pre.n()
            ==> #[trigger] cur.positions@[k] == pre.positions@[k]
                && cur.viewsheds@[k] == pre.viewsheds@[k]
                && cur.confusion@[k] == pre.confusion@[k]
                && cur.wants_to_melee@[k] == pre.wants_to_melee@[k]
}

impl World {
    /// One monster's decision, taken on the current state.  A confused
    /// monster counts its confusion down and does nothing else.  If the
    /// player is visible and within melee reach (closer than one and a
    /// half tiles, that is, squared distance at most two), the monster
    /// emits a melee intent against the player and never moves.  If the
    /// player is visible but out of reach, the monster takes the first
    /// step of a route to the player when one exists, swapping its tile's
    /// blocked bits and marking its viewshed dirty, and stands still when
    /// no route exists.  An unseen player leaves the monster idle.
    pub fn monster_act(&mut self, e: usize)
        requires
            old(self).wf(),
            e < old(self).n(),
            ai_applicable(*old(self), e as int),
            e != old(self).player,
        ensures
            final(self).wf(),
            final(self).n() == old(self).n(),
            *final(self) == (World { positions: final(self).positions,
                viewsheds: final(self).viewsheds, confusion: final(self).confusion,
                wants_to_melee: final(self).wants_to_melee, map: final(self).map,
                ..*old(self) }),
            final(self).map == (GameMap { blocked: final(self).map.blocked, ..old(self).map }),
            forall|k: int|
                0 <= k < old(self).n() && k != e
                    ==> #[trigger] final(self).positions@[k] == old(self).positions@[k]
                        && final(self).viewsheds@[k] == old(self).viewsheds@[k]
                        && final(self).confusion@[k] == old(self).confusion@[k]
                        && final(self).wants_to_melee@[k] == old(self).wants_to_melee@[k],
            old(self).confusion@[e as int] is Some ==> {
                &&& final(self).confusion@[e as int] == (if old(
                    self).confusion@[e as int].unwrap().turns < 2 {
                    None::<Confusion>
                } else {
                    Some(Confusion { turns: (old(self).confusion@[e as int].unwrap().turns
                        - 1) as i32 })
                })
                &&& final(self).positions@[e as int] == old(self).positions@[e as int]
                &&& final(self).wants_to_melee@[e as int] == old(self).wants_to_melee@[e as int]
                &&& final(self).viewsheds@[e as int] == old(self).viewsheds@[e as int]
                &&& final(self).map == old(self).map
            },
            old(self).confusion@[e as int] is None && sees_player(*old(self), e as int)
                && player_dist2(*old(self), e as int) <= 2 ==> {
                &&& final(self).wants_to_melee@[e as int] == Some(
                    WantsToMelee { target: old(self).player },
                )
                &&& final(self).positions@[e as int] == old(self).positions@[e as int]
                &&& final(self).viewsheds@[e as int] == old(self).viewsheds@[e as int]
                &&& final(self).confusion@[e as int] == old(self).confusion@[e as int]
                &&& final(self).map == old(self).map
            },
            old(self).confusion@[e as int] is None && !sees_player(*old(self), e as int) ==> {
                &&& *final(self) == *old(self)
            },
            old(self).confusion@[e as int] is None && sees_player(*old(self), e as int)
                && player_dist2(*old(self), e as int) > 2 ==> {
                let mstart = (old(self).positions@[e as int].unwrap().x as int,
                    old(self).positions@[e as int].unwrap().y as int);
                let pgoal = (old(self).positions@[old(self).player as int].unwrap().x as int,
                    old(self).positions@[old(self).player as int].unwrap().y as int);
                &&& final(self).wants_to_melee@[e as int] == old(self).wants_to_melee@[e as int]
                &&& final(self).confusion@[e as int] == old(self).confusion@[e as int]
                &&& (!route_exists(old(self).map.blocked@, mstart, pgoal)
                    ==> *final(self) == *old(self))
                &&& (route_exists(old(self).map.blocked@, mstart, pgoal) ==> {
                    let moved = (final(self).positions@[e as int].unwrap().x as int,
                        final(self).positions@[e as int].unwrap().y as int);
                    &&& final(self).positions@[e as int] is Some
                    &&& adj8(mstart, moved)
                    &&& !old(self).map.blocked@[sidx(moved.0, moved.1)]
                    &&& exists|p: Seq<(int, int)>|
                        is_route(old(self).map.blocked@, p, mstart, pgoal)
                            && sidx(p[1].0, p[1].1) == sidx(moved.0, moved.1)
                    &&& final(self).map.blocked@[sidx(mstart.0, mstart.1)] == false
                    &&& final(self).map.blocked@[sidx(moved.0, moved.1)] == true
                    &&& forall|j: int|
                        0 <= j < MAPCOUNT && j != sidx(mstart.0, mstart.1)
                            && j != sidx(moved.0, moved.1)
                            ==> final(self).map.blocked@[j] == old(self).map.blocked@[j]
                    &&& final(self).viewsheds@[e as int] is Some
                    &&& final(self).viewsheds@[e as int].unwrap().dirty
                    &&& final(self).viewsheds@[e as int].unwrap().visible_tiles@
                        == old(self).viewsheds@[e as int].unwrap().visible_tiles@
                    &&& final(self).viewsheds@[e as int].unwrap().range
                        == old(self).viewsheds@[e as int].unwrap().range
                })
            },
    {
        let confused = self.confusion[e];
        if let Some(c) = confused {
            if c.turns < 2 {
                self.confusion[e] = None;
            } else {
                self.confusion[e] = Some(Confusion { turns: c.turns - 1 });
            }
            return ;
        }
        let mpos = match self.positions[e] {
            Some(p) => p,
            None => Position { x: 0, y: 0 },
        };
        let ppos = match self.positions[self.player] {
            Some(p) => p,
            None => Position { x: 0, y: 0 },
        };
        let ptile = self.map.xy_idx(ppos.x, ppos.y);
        let visible = match &self.viewsheds[e] {
            Some(v) => tiles_contain(&v.visible_tiles, ptile),
            None => false,
        };
        if !visible {
            return ;
        }
        let dx = mpos.x - ppos.x;
        let dy = mpos.y - ppos.y;
        proof {
            assert(-100 <= dx <= 100 && -100 <= dy <= 100);
            assert(0 <= dx * dx <= 10000 && 0 <= dy * dy <= 10000) by (nonlinear_arith)
                requires
                    -100 <= dx <= 100,
                    -100 <= dy <= 100,
            ;
        }
        let d2 = dx * dx + dy * dy;
        proof {
            assert(dx * dx == (ppos.x - mpos.x) * (ppos.x - mpos.x) && dy * dy == (ppos.y
                - mpos.y) * (ppos.y - mpos.y)) by (nonlinear_arith)
                requires
                    dx == mpos.x - ppos.x,
                    dy == mpos.y - ppos.y,
                    -100 <= dx <= 100,
                    -100 <= dy <= 100,
            ;
            assert(d2 == player_dist2(*self, e as int));
        }
        if d2 <= 2 {
            self.wants_to_melee[e] = Some(WantsToMelee { target: self.player });
            return ;
        }
        proof {
            assert(dx > 1 || dx < -1 || dy > 1 || dy < -1) by (nonlinear_arith)
                requires
                    d2 == dx * dx + dy * dy,
                    d2 > 2,
            ;
            assert(!adj8(
                (mpos.x as int, mpos.y as int),
                (ppos.x as int, ppos.y as int),
            ));
            assert((mpos.x as int, mpos.y as int) != (ppos.x as int, ppos.y as int));
        }
        let step = find_first_step(&self.map, mpos.x, mpos.y, ppos.x, ppos.y);
        if let Some(next) = step {
            proof {
                crate::visibility::lemma_idx_coords(next as int);
                // the step lands beside, never on, the monster's own tile
                if sidx(coords(next as int).0, coords(next as int).1)
                    == sidx(mpos.x as int, mpos.y as int) {
                    crate::map::lemma_sidx_injective(
                        coords(next as int).0, coords(next as int).1, mpos.x as int,
                        mpos.y as int);
                }
            }
            let nx = (next % crate::map::MAPWIDTH) as i32;
            let ny = (next / crate::map::MAPWIDTH) as i32;
            let old_idx = self.map.xy_idx(mpos.x, mpos.y);
            self.map.blocked[old_idx] = false;
            self.map.blocked[next] = true;
            self.positions[e] = Some(Position { x: nx, y: ny });
            let (vt, vrange) = match &self.viewsheds[e] {
                Some(v) => (v.visible_tiles.clone(), v.range),
                None => (Vec::new(), 0),
            };
            self.viewsheds[e] = Some(Viewshed { visible_tiles: vt, range: vrange, dirty: true });
        }
    }

    /// Runs the AI: a no-op outside the monster turn; on the monster turn
    /// every living monster with sight and a position acts exactly once,
    /// in entity order, each seeing the state its predecessors left.  No
    /// other entity's position, sight, confusion or intent changes, the
    /// map changes at most its blocked bitmap, and any melee intent the
    /// pass adds targets the player.
    pub fn monster_ai_system(&mut self)
        requires
            old(self).wf(),
        ensures
            final(self).wf(),
            ai_rel(*old(self), *final(self)),
    {
        let ghost pre = *self;
        if !matches!(self.run_state, RunState::MonsterTurn) {
            return ;
        }
        let n = self.alive.len();
        let mut e: usize = 0;
        while e < n
            invariant
                self.wf(),
                pre.wf(),
                e <= n,
                n == pre.n(),
                self.player == pre.player,
                *self == (World { positions: self.positions, viewsheds: self.viewsheds,
                    confusion: self.confusion, wants_to_melee: self.wants_to_melee,
                    map: self.map, ..pre }),
                self.map == (GameMap { blocked: self.map.blocked, ..pre.map }),
                forall|k: int|
                    0 <= k < n && !(pre.alive@[k] && pre.monsters@[k])
                        ==> #[trigger] self.positions@[k] == pre.positions@[k]
                            && self.viewsheds@[k] == pre.viewsheds@[k]
                            && self.confusion@[k] == pre.confusion@[k]
                            && self.wants_to_melee@[k] == pre.wants_to_melee@[k],
                forall|k: int|
                    0 <= k < n && #[trigger] self.wants_to_melee@[k] != pre.wants_to_melee@[k]
                        ==> self.wants_to_melee@[k] == Some(
                            WantsToMelee { target: pre.player },
                        ),
                forall|k: int| 0 <= k < n ==> #[trigger] self.alive@[k] == pre.alive@[k],
                forall|k: int| 0 <= k < n ==> #[trigger] self.monsters@[k] == pre.monsters@[k],
                ai_untouched_from(pre, *self, e as int),
                forall|la: int|
                    0 <= la < e && #[trigger] ai_applicable(pre, la)
                        && pre.confusion@[la] is None && sees_player(pre, la)
                        && player_dist2(pre, la) <= 2
                        ==> self.wants_to_melee@[la] == Some(
                            WantsToMelee { target: pre.player },
                        ) && self.positions@[la] == pre.positions@[la],
            decreases n - e,
        {
            let ghost prev = *self;
            proof {
                assert(ai_untouched_from(pre, prev, e as int));
                assert(prev.positions@[e as int] == pre.positions@[e as int]);
                assert(prev.viewsheds@[e as int] == pre.viewsheds@[e as int]);
                assert(prev.confusion@[e as int] == pre.confusion@[e as int]);
            }
            let applicable = self.alive[e] && self.monsters[e] && self.viewsheds[e].is_some()
                && self.positions[e].is_some();
            proof {
                assert(ai_applicable(prev, e as int) == ai_applicable(pre, e as int));
            }
            if applicable {
                proof {
                    assert(!pre.monsters@[pre.player as int]);
                }
                self.monster_act(e);
                proof {
                    assert forall|k: int|
                        0 <= k < n && !(pre.alive@[k] && pre.monsters@[k])
                        implies #[trigger] self.positions@[k] == pre.positions@[k]
                            && self.viewsheds@[k] == pre.viewsheds@[k]
                            && self.confusion@[k] == pre.confusion@[k]
                            && self.wants_to_melee@[k] == pre.wants_to_melee@[k] by {
                        assert(k != e as int);
                        assert(self.positions@[k] == prev.positions@[k]);
                    }
                    assert forall|k: int|
                        e + 1 <= k < pre.n()
                        implies #[trigger] self.positions@[k] == pre.positions@[k]
                            && self.viewsheds@[k] == pre.viewsheds@[k]
                            && self.confusion@[k] == pre.confusion@[k]
                            && self.wants_to_melee@[k] == pre.wants_to_melee@[k] by {
                        assert(self.positions@[k] == prev.positions@[k]);
                        assert(ai_untouched_from(pre, prev, e as int));
                    }
                    assert(ai_untouched_from(pre, *self, e as int + 1));
                    assert forall|k: int|
                        0 <= k < n && #[trigger] self.wants_to_melee@[k]
                            != pre.wants_to_melee@[k]
                        implies self.wants_to_melee@[k] == Some(
                            WantsToMelee { target: pre.player }) by {
                        if k != e as int {
                            assert(self.positions@[k] == prev.positions@[k]);
                            assert(self.wants_to_melee@[k] == prev.wants_to_melee@[k]);
                        } else {
                            if self.wants_to_melee@[k] == prev.wants_to_melee@[k] {
                                assert(prev.wants_to_melee@[k] != pre.wants_to_melee@[k]);
                            }
                        }
                    }
                }
            }
            proof {
                if !applicable {
                    assert(ai_untouched_from(pre, *self, e as int + 1));
                }
                assert forall|la: int|
                    0 <= la < e + 1 && #[trigger] ai_applicable(pre, la)
                        && pre.confusion@[la] is None && sees_player(pre, la)
                        && player_dist2(pre, la) <= 2
                    implies self.wants_to_melee@[la] == Some(
                        WantsToMelee { target: pre.player },
                    ) && self.positions@[la] == pre.positions@[la] by {
                    if la < e as int {
                        assert(self.positions@[la] == prev.positions@[la]);
                        assert(self.wants_to_melee@[la] == prev.wants_to_melee@[la]);
                    } else {
                        // the monster's own sight, spot and confusion, and
                        // the player's spot, are as the turn began
                        assert(prev.viewsheds@[la] == pre.viewsheds@[la]);
                        assert(prev.positions@[la] == pre.positions@[la]);
                        assert(prev.confusion@[la] == pre.confusion@[la]);
                        assert(!pre.monsters@[pre.player as int]);
                        assert(prev.positions@[pre.player as int]
                            == pre.positions@[pre.player as int]);
                        assert(sees_player(prev, la) == sees_player(pre, la));
                        assert(player_dist2(prev, la) == player_dist2(pre, la));
                    }
                }
            }
            e = e + 1;
        }
    }
}

} // verus!
