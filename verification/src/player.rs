//! The player's turn: resolved input commands arrive from the input
//! collaborator, and become movement, an attack on an adjacent occupant,
//! a pickup intent, a rest, or a menu state change.

use vstd::prelude::*;
use vstd::string::StringExecFns;
use crate::components::{CombatStats, Position, RunState, Viewshed, WantsToMelee, WantsToPickupItem};
use crate::game_state::State;
use crate::map::{in_map, sidx, MAPCOUNT};
use crate::world::World;

verus! {

/// A resolved input action, as the input collaborator hands it over.
#[derive(Clone, Copy, Debug, PartialEq, Eq, Structural)]
pub enum Command {
    /// Eight-way movement by one tile.
    Move { dx: i32, dy: i32 },
    /// Pick up whatever item lies at the player's feet.
    Pickup,
    /// Descend to the next level.
    Descend,
    /// Open the inventory menu.
    OpenInventory,
    /// Open the drop-item menu.
    OpenDropMenu,
    /// Save and return to the main menu.
    SaveQuit,
    /// Rest in place; heals one hit point only while no monster is seen.
    Wait,
}

/// The first occupant of the tile, scanning from slot `k`, that carries
/// combat stats: the one a move into the tile attacks.
pub open spec fn first_combat_occupant(w: World, idx: int, k: int) -> Option<usize>
    decreases w.map.tile_content@[idx]@.len() - k,
{
    if k < 0 || k >= w.map.tile_content@[idx]@.len() {
        None
    } else if w.combat_stats@[w.map.tile_content@[idx]@[k] as int] is Some {
        Some(w.map.tile_content@[idx]@[k])
    } else {
        first_combat_occupant(w, idx, k + 1)
    }
}

/// The living item with the highest entity index lying at `(x, y)`, among
/// the first `n` entities: the one a pickup at that tile takes.
pub open spec fn last_item_at(w: World, x: int, y: int, n: int) -> Option<usize>
    decreases n,
{
    if n <= 0 {
        None
    } else if w.alive@[n - 1] && w.items@[n - 1] && w.positions@[n - 1] is Some
        && w.positions@[n - 1].unwrap().x == x && w.positions@[n - 1].unwrap().y == y {
        Some((n - 1) as usize)
    } else {
        last_item_at(w, x, y, n - 1)
    }
}

/// A monster stands on some tile of the player's sight.
pub open spec fn monster_in_sight(w: World) -> bool {
    exists|k: int, q: int|
        0 <= k < w.viewsheds@[w.player as int].unwrap().visible_tiles@.len() && 0 <= q
            < w.map.tile_content@[
            w.viewsheds@[w.player as int].unwrap().visible_tiles@[k] as int]@.len()
            && w.monsters@[#[trigger] w.map.tile_content@[
            w.viewsheds@[w.player as int].unwrap().visible_tiles@[k] as int]@[q] as int]
}

/// One step of arithmetic clamping for a movement delta.
pub open spec fn clamp_delta(d: int) -> int {
    if d < -1 { -1 } else if d > 1 { 1 } else { d }
}

/// Everything a player move does: off the map nothing happens; onto an
/// occupant with combat stats a melee intent is aimed at the first such
/// occupant and nobody moves; onto a blocked tile nothing happens; onto a
/// free tile the player steps, its viewshed turning dirty.
pub open spec fn move_rel(pre: World, post: World, dx: int, dy: int) -> bool {
    &&& post == (World { positions: post.positions, viewsheds: post.viewsheds,
            wants_to_melee: post.wants_to_melee, ..pre })
    &&& forall|k: int|
        0 <= k < pre.n() && k != pre.player
            ==> #[trigger] post.positions@[k] == pre.positions@[k]
                && post.viewsheds@[k] == pre.viewsheds@[k]
                && post.wants_to_melee@[k] == pre.wants_to_melee@[k]
    &&& !in_map(pre.player_position().x + dx, pre.player_position().y + dy) ==> post == pre
    &&& in_map(pre.player_position().x + dx, pre.player_position().y + dy) ==> {
        let dest = sidx(pre.player_position().x + dx, pre.player_position().y + dy);
        let occupant = first_combat_occupant(pre, dest, 0);
        if occupant is Some {
            &&& post.wants_to_melee@[pre.player as int] == Some(
                WantsToMelee { target: occupant.unwrap() },
            )
            &&& post.positions@[pre.player as int] == pre.positions@[pre.player as int]
            &&& post.viewsheds@[pre.player as int] == pre.viewsheds@[pre.player as int]
        } else if !pre.map.blocked@[dest] {
            &&& post.positions@[pre.player as int] == Some(
                Position {
                    x: (pre.player_position().x + dx) as i32,
                    y: (pre.player_position().y + dy) as i32,
                },
            )
            &&& post.viewsheds@[pre.player as int] is Some
            &&& post.viewsheds@[pre.player as int].unwrap().dirty
            &&& post.viewsheds@[pre.player as int].unwrap().visible_tiles@
                == pre.viewsheds@[pre.player as int].unwrap().visible_tiles@
            &&& post.viewsheds@[pre.player as int].unwrap().range
                == pre.viewsheds@[pre.player as int].unwrap().range
            &&& post.wants_to_melee@[pre.player as int]
                == pre.wants_to_melee@[pre.player as int]
        } else {
            post == pre
        }
    }
}

/// Everything a pickup attempt does: the topmost living item at the
/// player's feet gets a pickup intent aimed at the player; with nothing
/// there, only the fixed log line is written.
pub open spec fn pickup_scan_rel(pre: World, post: World) -> bool {
    &&& post == (World { wants_to_pickup: post.wants_to_pickup, log: post.log, ..pre })
    &&& forall|k: int|
        0 <= k < pre.n() && k != pre.player
            ==> #[trigger] post.wants_to_pickup@[k] == pre.wants_to_pickup@[k]
    &&& {
        let found = last_item_at(
            pre,
            pre.player_position().x as int,
            pre.player_position().y as int,
            pre.n(),
        );
        if found is Some {
            &&& post.wants_to_pickup@[pre.player as int] == Some(
                WantsToPickupItem { collected_by: pre.player, item: found.unwrap() },
            )
            &&& post.log == pre.log
        } else {
            &&& post.wants_to_pickup@[pre.player as int]
                == pre.wants_to_pickup@[pre.player as int]
            &&& post.log.entries@ == pre.log.entries@.push(post.log.entries@.last())
            &&& post.log.entries@.last()@ == "There is nothing here to pick up."@
        }
    }
}

/// Everything a rest does: one hit point back, capped at the maximum, but
/// only while no monster stands on a tile the player sees.
pub open spec fn rest_rel(pre: World, post: World) -> bool {
    &&& post == (World { combat_stats: post.combat_stats, ..pre })
    &&& forall|k: int|
        0 <= k < pre.n() && k != pre.player
            ==> #[trigger] post.combat_stats@[k] == pre.combat_stats@[k]
    &&& monster_in_sight(pre) ==> post == pre
    &&& !monster_in_sight(pre) ==> post.combat_stats@[pre.player as int] == Some(
        ({
            let s = pre.combat_stats@[pre.player as int].unwrap();
            CombatStats {
                hp: (if s.hp + 1 > s.max_hp { s.max_hp as int } else { s.hp + 1 }) as i32,
                ..s
            }
        }),
    )
}

impl World {
    /// Tries to move the player one tile.  A destination off the map does
    /// nothing; a destination holding an occupant with combat stats is
    /// attacked instead of entered; a blocked destination does nothing;
    /// otherwise the player steps there and its viewshed turns dirty.
    pub fn try_move_player(&mut self, dx: i32, dy: i32)
        requires
            old(self).wf(),
            -1 <= dx <= 1,
            -1 <= dy <= 1,
        ensures
            final(self).wf(),
            move_rel(*old(self), *final(self), dx as int, dy as int),
    {
        let player = self.player;
        let pos = match self.positions[player] {
            Some(p) => p,
            None => Position { x: 0, y: 0 },
        };
        let nx = pos.x + dx;
        let ny = pos.y + dy;
        if !(0 <= nx && nx < 80 && 0 <= ny && ny < 43) {
            return ;
        }
        let dest = self.map.xy_idx(nx, ny);
        let count = self.map.tile_content[dest].len();
        let mut k: usize = 0;
        let mut target: Option<usize> = None;
        while k < count && target.is_none()
            invariant
                self.wf(),
                dest < MAPCOUNT,
                k <= count,
                count == self.map.tile_content@[dest as int]@.len(),
                target is None ==> first_combat_occupant(*self, dest as int, 0)
                    == first_combat_occupant(*self, dest as int, k as int),
                target is Some ==> first_combat_occupant(*self, dest as int, 0) == target
                    && target.unwrap() < self.n(),
            decreases count - k,
        {
            let occ = self.map.tile_content[dest][k];
            if self.combat_stats[occ].is_some() {
                target = Some(occ);
            }
            k = k + 1;
        }
        if let Some(t) = target {
            proof {
                assert(first_combat_occupant(*self, dest as int, 0) == Some(t));
            }
            self.wants_to_melee[player] = Some(WantsToMelee { target: t });
            return ;
        }
        proof {
            assert(first_combat_occupant(*self, dest as int, 0) is None);
        }
        if !self.map.blocked[dest] {
            self.positions[player] = Some(Position { x: nx, y: ny });
            let (vt, vrange) = match &self.viewsheds[player] {
                Some(v) => (v.visible_tiles.clone(), v.range),
                None => (Vec::new(), 0),
            };
            self.viewsheds[player] = Some(
                Viewshed { visible_tiles: vt, range: vrange, dirty: true },
            );
        }
    }

    /// Picks up the item at the player's feet: the living item with the
    /// highest entity index on the player's tile receives a pickup intent;
    /// with no such item, only a log line is written.
    pub fn get_item(&mut self)
        requires
            old(self).wf(),
        ensures
            final(self).wf(),
            pickup_scan_rel(*old(self), *final(self)),
    {
        let player = self.player;
        let ppos = match self.positions[player] {
            Some(p) => p,
            None => Position { x: 0, y: 0 },
        };
        let n = self.alive.len();
        let mut target_item: Option<usize> = None;
        let mut e: usize = 0;
        while e < n
            invariant
                self.wf(),
                e <= n,
                n == self.n(),
                ppos == self.player_position(),
                target_item == last_item_at(
                    *self, ppos.x as int, ppos.y as int, e as int),
                target_item is Some ==> target_item.unwrap() < e,
            decreases n - e,
        {
            if self.alive[e] && self.items[e] {
                if let Some(p) = self.positions[e] {
                    if p.x == ppos.x && p.y == ppos.y {
                        target_item = Some(e);
                    }
                }
            }
            proof {
                if !(self.alive@[e as int] && self.items@[e as int]
                    && self.positions@[e as int] is Some
                    && self.positions@[e as int].unwrap().x == ppos.x
                    && self.positions@[e as int].unwrap().y == ppos.y) {
                    assert(last_item_at(*self, ppos.x as int, ppos.y as int, e + 1)
                        == last_item_at(*self, ppos.x as int, ppos.y as int, e as int));
                }
            }
            e = e + 1;
        }
        match target_item {
            None => {
                let line = String::from_str("There is nothing here to pick up.");
                proof {
                    reveal_strlit("There is nothing here to pick up.");
                }
                self.log.append(line);
            },
            Some(item) => {
                self.wants_to_pickup[player] = Some(
                    WantsToPickupItem { collected_by: player, item },
                );
            },
        }
    }

    /// Rests for a turn: heals one hit point, capped at the maximum, but
    /// only while no monster stands on a tile the player sees.
    pub fn skip_turn(&mut self) -> (r: RunState)
        requires
            old(self).wf(),
        ensures
            final(self).wf(),
            r == RunState::PlayerTurn,
            rest_rel(*old(self), *final(self)),
    {
        let player = self.player;
        let vt = match &self.viewsheds[player] {
            Some(v) => v.visible_tiles.clone(),
            None => Vec::new(),
        };
        let mut can_heal = true;
        let mut k: usize = 0;
        while k < vt.len()
            invariant
                self.wf(),
                k <= vt@.len(),
                vt@ == self.viewsheds@[self.player as int].unwrap().visible_tiles@,
                self.viewsheds@[self.player as int] is Some,
                forall|j: int| 0 <= j < vt@.len() ==> (#[trigger] vt@[j]) < MAPCOUNT,
                can_heal <==> !(exists|kk: int, q: int|
                    0 <= kk < k && 0 <= q < self.map.tile_content@[vt@[kk] as int]@.len()
                        && self.monsters@[#[trigger] self.map.tile_content@[
                        vt@[kk] as int]@[q] as int]),
            decreases vt@.len() - k,
        {
            let idx = vt[k];
            let count = self.map.tile_content[idx].len();
            let mut q: usize = 0;
            while q < count
                invariant
                    self.wf(),
                    k < vt@.len(),
                    idx == vt@[k as int],
                    idx < MAPCOUNT,
                    q <= count,
                    count == self.map.tile_content@[idx as int]@.len(),
                    vt@ == self.viewsheds@[self.player as int].unwrap().visible_tiles@,
                    self.viewsheds@[self.player as int] is Some,
                    can_heal <==> !((exists|kk: int, qq: int|
                        0 <= kk < k && 0 <= qq < self.map.tile_content@[vt@[kk] as int]@.len()
                            && self.monsters@[#[trigger] self.map.tile_content@[
                            vt@[kk] as int]@[qq] as int]) || (exists|qq: int|
                        0 <= qq < q && self.monsters@[self.map.tile_content@[
                            idx as int]@[qq] as int])),
                decreases count - q,
            {
                let occ = self.map.tile_content[idx][q];
                if self.monsters[occ] {
                    can_heal = false;
                }
                q = q + 1;
            }
            proof {
                assert forall|kk: int, qq: int|
                    0 <= kk < k + 1 && 0 <= qq < self.map.tile_content@[vt@[kk] as int]@.len()
                        && self.monsters@[#[trigger] self.map.tile_content@[
                        vt@[kk] as int]@[qq] as int]
                    implies !can_heal by {}
                if !can_heal {
                    assert(exists|kk: int, qq: int|
                        0 <= kk < k + 1 && 0 <= qq < self.map.tile_content@[
                            vt@[kk] as int]@.len() && self.monsters@[
                            #[trigger] self.map.tile_content@[vt@[kk] as int]@[qq] as int]);
                }
            }
            k = k + 1;
        }
        if can_heal {
            let stats = match self.combat_stats[player] {
                Some(s) => s,
                None => CombatStats { max_hp: 1, hp: 1, defense: 0, power: 0 },
            };
            let new_hp = if stats.hp + 1 > stats.max_hp { stats.max_hp } else { stats.hp + 1 };
            self.combat_stats[player] = Some(CombatStats { hp: new_hp, ..stats });
        }
        RunState::PlayerTurn
    }
}

/// Resolves one player command into world changes and the next turn
/// state: movement and pickup and rest act at once and hand the turn
/// over; the menu commands only switch the turn state.  No command leaves
/// the player's turn unspent except opening a menu.
pub fn player_input(gs: &mut State, cmd: Option<Command>) -> (r: RunState)
    requires
        old(gs).ecs.wf(),
    ensures
        final(gs).ecs.wf(),
        cmd is None ==> r == RunState::AwaitingInput && *final(gs) == *old(gs),
        cmd is Some ==> r == spec_command_state(cmd.unwrap()),
        cmd is Some ==> match cmd.unwrap() {
            Command::Move { dx, dy } => move_rel(
                old(gs).ecs, final(gs).ecs, clamp_delta(dx as int), clamp_delta(dy as int)),
            Command::Pickup => pickup_scan_rel(old(gs).ecs, final(gs).ecs),
            Command::Wait => rest_rel(old(gs).ecs, final(gs).ecs),
            _ => *final(gs) == *old(gs),
        },
        final(gs).ecs.run_state == old(gs).ecs.run_state,
        final(gs).ecs.n() == old(gs).ecs.n(),
        final(gs).ecs.player == old(gs).ecs.player,
        final(gs).ecs.map.tiles == old(gs).ecs.map.tiles,
{
    match cmd {
        None => RunState::AwaitingInput,
        Some(c) => match c {
            Command::Move { dx, dy } => {
                let cx = if dx < -1 { -1 } else if dx > 1 { 1 } else { dx };
                let cy = if dy < -1 { -1 } else if dy > 1 { 1 } else { dy };
                gs.ecs.try_move_player(cx, cy);
                RunState::PlayerTurn
            },
            Command::Pickup => {
                gs.ecs.get_item();
                RunState::PlayerTurn
            },
            Command::Descend => RunState::NextLevel,
            Command::OpenInventory => RunState::ShowInventory,
            Command::OpenDropMenu => RunState::ShowDropItem,
            Command::SaveQuit => RunState::SaveGame,
            Command::Wait => gs.ecs.skip_turn(),
        },
    }
}

/// The turn state each command resolves to.
pub open spec fn spec_command_state(c: Command) -> RunState {
    match c {
        Command::Move { .. } => RunState::PlayerTurn,
        Command::Pickup => RunState::PlayerTurn,
        Command::Descend => RunState::NextLevel,
        Command::OpenInventory => RunState::ShowInventory,
        Command::OpenDropMenu => RunState::ShowDropItem,
        Command::SaveQuit => RunState::SaveGame,
        Command::Wait => RunState::PlayerTurn,
    }
}

} // verus!
