//! The turn orchestrator: one state machine sequencing the system
//! pipeline and exposing the single external tick operation.  Each tick
//! takes the outcome the input or menu collaborator resolved, branches on
//! the current turn state exactly as the transition table says, and ends
//! by purging dead entities, surfacing the player's death as game over.

use vstd::prelude::*;
use vstd::string::StringExecFns;
use crate::components::{CombatStats, MainMenuSelection, Position, RunState, Viewshed,
    WantsToDropItem, WantsToUseItem};
use crate::map::{GameMap, room_center};
use crate::player::{Command, spec_command_state};
use crate::rng::{rng_new, rng_seeded};
use crate::ai::ai_rel;
use crate::combat::{melee_rel, damage_rel, purge_rel};
use crate::inventory::{collection_rel, drop_pass_rel, use_pass_rel};
use crate::spatial::{content_unique, indexing_rel, lemma_indexing_unique};
use crate::visibility::vis_rel;
use crate::spawner::{grown, is_spawned_item, is_spawned_monster, lemma_grown_trans,
    lemma_shape_preserved, spawned_in_room};
use crate::world::World;

verus! {

/// What the game holds between ticks.
pub struct State {
    pub ecs: World,
}

/// The outcome the main-menu collaborator reports for one tick.
#[derive(Clone, Copy, Debug, PartialEq, Eq, Structural)]
pub enum MainMenuResult {
    NoSelection { selected: MainMenuSelection },
    Selected { selected: MainMenuSelection },
}

/// The outcome an item menu reports for one tick.
#[derive(Clone, Copy, Debug, PartialEq, Eq, Structural)]
pub enum ItemMenuResult {
    Cancel,
    NoResponse,
    Selected { item: usize },
}

/// The outcome the targeting overlay reports for one tick.
#[derive(Clone, Copy, Debug, PartialEq, Eq, Structural)]
pub enum TargetResult {
    Cancel,
    NoResponse,
    Selected { x: i32, y: i32 },
}

/// Everything the outside collaborators can hand a tick.
#[derive(Clone, Copy, Debug, PartialEq, Eq, Structural)]
pub enum TickInput {
    Nothing,
    Key(Command),
    Menu(MainMenuResult),
    ItemMenu(ItemMenuResult),
    Target(TargetResult),
}

/// What a tick asks the caller to do next.
#[derive(Clone, Copy, Debug, PartialEq, Eq, Structural)]
pub enum TickResult {
    Continue,
    Quit,
    GameOver,
}

/// What one pipeline run guarantees, stated without reference to the
/// turn state (the orchestrator stores the next state right after the
/// pipeline ran): the same entities and player, the same carved map, every
/// one-shot intent consumed, and a log that only grew.
pub open spec fn pipeline_rel(pre: World, post: World) -> bool {
    &&& post.player == pre.player
    &&& post.n() == pre.n()
    &&& post.map.tiles == pre.map.tiles
    &&& post.map.rooms == pre.map.rooms
    &&& post.map.depth == pre.map.depth
    &&& forall|e: int|
        0 <= e < pre.n() ==> post.wants_to_melee@[e] is None && post.wants_to_pickup@[e] is None
            && post.wants_to_drop@[e] is None && post.wants_to_use@[e] is None
    &&& pre.log.entries@.len() <= post.log.entries@.len()
    &&& forall|k: int|
        0 <= k < pre.log.entries@.len() ==> #[trigger] post.log.entries@[k] == pre.log.entries@[k]
}

/// Everything a level change does, stated without reference to the turn
/// state: the next map is generated one depth down with its rooms
/// connected, every monster and loose item is gone, the player and its
/// backpack survive intact, the player stands at the new entry point with
/// a dirty viewshed and at least half its hit points, and one descent
/// line is logged.
pub open spec fn level_rel(pre: World, post: World) -> bool {
    &&& post.player == pre.player
    &&& post.map.inv()
    &&& post.map.depth == (if pre.map.depth < i32::MAX {
        pre.map.depth + 1
    } else {
        pre.map.depth as int
    })
    &&& 1 <= post.map.rooms.len()
    &&& forall|i: int|
        0 <= i < post.map.rooms.len()
            ==> crate::connectivity::connected(
                post.map,
                room_center(post.map.rooms@[0]),
                room_center(#[trigger] post.map.rooms@[i]),
            )
    &&& forall|e: int|
        0 <= e < pre.n() && pre.alive@[e] && e != pre.player
            && !(pre.in_backpack@[e] is Some
                && pre.in_backpack@[e].unwrap().owner == pre.player) ==> !post.alive@[e]
    &&& forall|e: int|
        0 <= e < pre.n() && pre.in_backpack@[e] is Some
            && pre.in_backpack@[e].unwrap().owner == pre.player && pre.alive@[e]
            ==> #[trigger] post.alive@[e] && post.in_backpack@[e] == pre.in_backpack@[e]
                && post.items@[e] == pre.items@[e]
                && post.consumables@[e] == pre.consumables@[e]
                && post.provides_healing@[e] == pre.provides_healing@[e]
                && post.inflicts_damage@[e] == pre.inflicts_damage@[e]
                && post.ranged@[e] == pre.ranged@[e] && post.aoe@[e] == pre.aoe@[e]
                && post.names@[e] == pre.names@[e]
                && post.combat_stats@[e] == pre.combat_stats@[e]
    &&& post.alive@[pre.player as int]
    &&& post.positions@[pre.player as int] == Some(
        Position {
            x: room_center(post.map.rooms@[0]).0 as i32,
            y: room_center(post.map.rooms@[0]).1 as i32,
        },
    )
    &&& post.viewsheds@[pre.player as int] is Some
    &&& post.viewsheds@[pre.player as int].unwrap().dirty
    &&& post.combat_stats@[pre.player as int] == Some(
        ({
            let s = pre.combat_stats@[pre.player as int].unwrap();
            CombatStats {
                hp: (if s.hp >= s.max_hp / 2 { s.hp as int } else { (s.max_hp / 2) as int })
                    as i32,
                ..s
            }
        }),
    )
    &&& post.log.entries@.len() == pre.log.entries@.len() + 1
    &&& forall|k: int|
        0 <= k < pre.log.entries@.len()
            ==> #[trigger] post.log.entries@[k] == pre.log.entries@[k]
    &&& post.log.entries@.last()@ == "You descend to the next level and take a moment to heal"@
}

/// A world with no content-unique dependence on the occupant lists is
/// still content-unique when its map is unchanged.
pub proof fn lemma_content_unique_same_map(w1: World, w2: World)
    requires
        content_unique(w1),
        w2.map == w1.map,
    ensures
        content_unique(w2),
{
    assert forall|i1: int, k1: int, i2: int, k2: int|
        0 <= i1 < w2.map.tile_content@.len() && 0 <= k1 < w2.map.tile_content@[i1]@.len() && 0
            <= i2 < w2.map.tile_content@.len() && 0 <= k2 < w2.map.tile_content@[i2]@.len()
            && #[trigger] w2.map.tile_content@[i1]@[k1] == #[trigger] w2.map.tile_content@[i2]@[
            k2]
        implies i1 == i2 && k1 == k2 by {
        assert(w1.map.tile_content@[i1]@[k1] == w1.map.tile_content@[i2]@[k2]);
    }
}

impl State {
    /// Runs the full system pipeline once, in the fixed order: visibility,
    /// monster AI, spatial index, melee combat, damage resolution, then
    /// item pickup, drop and use.  Every one-shot intent is consumed, the
    /// map keeps its tiles, rooms and depth, and the log only grows.
    pub fn run_systems(&mut self)
        requires
            old(self).ecs.wf(),
        ensures
            final(self).ecs.wf(),
            final(self).ecs.run_state == old(self).ecs.run_state,
            pipeline_rel(old(self).ecs, final(self).ecs),
            // the run is exactly the eight passes, composed in order
            exists|w1: World, w2: World, w3: World, w4: World, w5: World, w6: World, w7: World|
                #![all_triggers]
                (vis_rel(old(self).ecs, w1) && ai_rel(w1, w2) && indexing_rel(w2, w3)
                    && melee_rel(w3, w4) && damage_rel(w4, w5) && collection_rel(w5, w6)
                    && drop_pass_rel(w6, w7) && use_pass_rel(w7, final(self).ecs)),
    {
        let ghost w0 = self.ecs;
        self.ecs.visibility_system();
        let ghost w1 = self.ecs;
        self.ecs.monster_ai_system();
        let ghost w2 = self.ecs;
        self.ecs.map_indexing_system();
        let ghost w3 = self.ecs;
        proof {
            lemma_indexing_unique(w2, w3);
        }
        self.ecs.melee_combat_system();
        let ghost w4 = self.ecs;
        self.ecs.damage_system();
        let ghost w5 = self.ecs;
        self.ecs.item_collection_system();
        let ghost w6 = self.ecs;
        self.ecs.item_drop_system();
        let ghost w7 = self.ecs;
        proof {
            lemma_content_unique_same_map(w3, w7);
        }
        self.ecs.item_use_system();
        proof {
            assert forall|k: int| 0 <= k < w0.log.entries@.len()
                implies #[trigger] self.ecs.log.entries@[k] == w0.log.entries@[k] by {
                assert(w5.log.entries@[k] == w0.log.entries@[k]);
                assert(w6.log.entries@[k] == w5.log.entries@[k]);
                assert(w7.log.entries@[k] == w6.log.entries@[k]);
            }
            assert forall|e: int| 0 <= e < w0.n()
                implies self.ecs.wants_to_melee@[e] is None
                    && self.ecs.wants_to_pickup@[e] is None
                    && self.ecs.wants_to_drop@[e] is None
                    && self.ecs.wants_to_use@[e] is None by {
                assert(w4.wants_to_melee@[e] is None);
                assert(w5.wants_to_melee@[e] == w4.wants_to_melee@[e]);
                assert(w6.wants_to_melee@[e] == w5.wants_to_melee@[e]);
                assert(w7.wants_to_melee@[e] == w6.wants_to_melee@[e]);
                assert(w6.wants_to_pickup@[e] is None);
                assert(w7.wants_to_pickup@[e] == w6.wants_to_pickup@[e]);
                assert(w7.wants_to_drop@[e] is None);
            }
            assert(pipeline_rel(w0, self.ecs));
            assert(vis_rel(w0, w1) && ai_rel(w1, w2) && indexing_rel(w2, w3)
                && melee_rel(w3, w4) && damage_rel(w4, w5) && collection_rel(w5, w6)
                && drop_pass_rel(w6, w7) && use_pass_rel(w7, self.ecs));
        }
    }

    /// The entities a level change deletes: everything except the player
    /// and the items in the player's backpack.
    pub fn entities_to_remove_on_level_change(&self) -> (td: Vec<usize>)
        requires
            self.ecs.wf(),
        ensures
            forall|e: usize|
                td@.contains(e) <==> (e < self.ecs.n() && self.ecs.alive@[e as int]
                    && e != self.ecs.player && !(self.ecs.in_backpack@[e as int] is Some
                    && self.ecs.in_backpack@[e as int].unwrap().owner == self.ecs.player)),
            forall|q: int|
                0 <= q < td@.len()
                    ==> (#[trigger] td@[q]) < self.ecs.n() && td@[q] != self.ecs.player,
    {
        let n = self.ecs.alive.len();
        let mut td: Vec<usize> = Vec::new();
        let mut e: usize = 0;
        while e < n
            invariant
                self.ecs.wf(),
                e <= n,
                n == self.ecs.n(),
                forall|m: usize|
                    td@.contains(m) <==> (m < e && self.ecs.alive@[m as int]
                        && m != self.ecs.player && !(self.ecs.in_backpack@[m as int] is Some
                        && self.ecs.in_backpack@[m as int].unwrap().owner == self.ecs.player)),
                forall|q: int|
                    0 <= q < td@.len()
                        ==> (#[trigger] td@[q]) < self.ecs.n() && td@[q] != self.ecs.player,
            decreases n - e,
        {
            let keep = e == self.ecs.player || (match self.ecs.in_backpack[e] {
                Some(b) => b.owner == self.ecs.player,
                None => false,
            }) || !self.ecs.alive[e];
            let ghost td0 = td@;
            if !keep {
                td.push(e);
            }
            proof {
                assert forall|m: usize|
                    td@.contains(m) <==> (m < e + 1 && self.ecs.alive@[m as int]
                        && m != self.ecs.player && !(self.ecs.in_backpack@[m as int] is Some
                        && self.ecs.in_backpack@[m as int].unwrap().owner
                            == self.ecs.player)) by {
                    if td@.contains(m) {
                        let q = choose|q: int| 0 <= q < td@.len() && td@[q] == m;
                        if q < td0.len() {
                            assert(td0[q] == m);
                            assert(td0.contains(m));
                        }
                    }
                    if m < e + 1 && self.ecs.alive@[m as int] && m != self.ecs.player
                        && !(self.ecs.in_backpack@[m as int] is Some
                        && self.ecs.in_backpack@[m as int].unwrap().owner == self.ecs.player) {
                        if m < e as usize {
                            assert(td0.contains(m));
                            let q = choose|q: int| 0 <= q < td0.len() && td0[q] == m;
                            assert(td@[q] == m);
                        } else {
                            assert(!keep);
                            assert(td@[td@.len() - 1] == m);
                        }
                    }
                }
            }
            e = e + 1;
        }
        td
    }

    /// Descends one level: deletes every monster and loose item, keeps the
    /// player and the player's backpack, generates the next map, populates
    /// its rooms, places the player at the new entry point with a dirty
    /// viewshed, writes a log line, and heals the player up to at least
    /// half its maximum hit points.
    pub fn goto_next_level(&mut self)
        requires
            old(self).ecs.wf(),
        ensures
            final(self).ecs.wf(),
            final(self).ecs.run_state == old(self).ecs.run_state,
            level_rel(old(self).ecs, final(self).ecs),
    {
        let ghost w0 = self.ecs;
        let td = self.entities_to_remove_on_level_change();
        let mut i: usize = 0;
        while i < td.len()
            invariant
                self.ecs.wf(),
                w0.wf(),
                i <= td@.len(),
                self.ecs.n() == w0.n(),
                self.ecs.player == w0.player,
                self.ecs.run_state == w0.run_state,
                self.ecs.map == w0.map,
                self.ecs.log.entries == w0.log.entries,
                forall|q: int|
                    0 <= q < td@.len() ==> (#[trigger] td@[q]) < w0.n() && td@[q] != w0.player,
                forall|q: int| 0 <= q < i ==> !self.ecs.alive@[#[trigger] td@[q] as int],
                forall|e: int|
                    0 <= e < w0.n() && !td@.contains(e as usize)
                        ==> #[trigger] self.ecs.alive@[e] == w0.alive@[e]
                            && self.ecs.positions@[e] == w0.positions@[e]
                            && self.ecs.viewsheds@[e] == w0.viewsheds@[e]
                            && self.ecs.in_backpack@[e] == w0.in_backpack@[e]
                            && self.ecs.items@[e] == w0.items@[e]
                            && self.ecs.consumables@[e] == w0.consumables@[e]
                            && self.ecs.provides_healing@[e] == w0.provides_healing@[e]
                            && self.ecs.inflicts_damage@[e] == w0.inflicts_damage@[e]
                            && self.ecs.ranged@[e] == w0.ranged@[e]
                            && self.ecs.aoe@[e] == w0.aoe@[e]
                            && self.ecs.names@[e] == w0.names@[e]
                            && self.ecs.combat_stats@[e] == w0.combat_stats@[e],
            decreases td@.len() - i,
        {
            let ghost prev = self.ecs;
            let victim = td[i];
            self.ecs.delete_entity(victim);
            proof {
                assert forall|q: int| 0 <= q < i + 1
                    implies !self.ecs.alive@[#[trigger] td@[q] as int] by {
                    if q < i as int {
                        if td@[q] != victim {
                            assert(self.ecs.alive@[td@[q] as int]
                                == prev.alive@[td@[q] as int]);
                        }
                    }
                }
                assert forall|e: int|
                    0 <= e < w0.n() && !td@.contains(e as usize)
                    implies #[trigger] self.ecs.alive@[e] == w0.alive@[e]
                        && self.ecs.positions@[e] == w0.positions@[e]
                        && self.ecs.viewsheds@[e] == w0.viewsheds@[e]
                        && self.ecs.in_backpack@[e] == w0.in_backpack@[e]
                        && self.ecs.items@[e] == w0.items@[e]
                        && self.ecs.consumables@[e] == w0.consumables@[e]
                        && self.ecs.provides_healing@[e] == w0.provides_healing@[e]
                        && self.ecs.inflicts_damage@[e] == w0.inflicts_damage@[e]
                        && self.ecs.ranged@[e] == w0.ranged@[e]
                        && self.ecs.aoe@[e] == w0.aoe@[e]
                        && self.ecs.names@[e] == w0.names@[e]
                        && self.ecs.combat_stats@[e] == w0.combat_stats@[e] by {
                    assert(td@[i as int] == victim);
                    assert(e != victim as int);
                    assert(self.ecs.alive@[e] == prev.alive@[e]);
                }
            }
            i = i + 1;
        }

        let ghost w1 = self.ecs;
        let depth = self.ecs.map.depth;
        let new_depth = if depth < i32::MAX { depth + 1 } else { depth };
        let (newmap, first_room) = GameMap::new_map(new_depth, &mut self.ecs.rng);
        self.ecs.map = newmap;
        proof {
            assert(self.ecs.wf());
        }

        let ghost w2 = self.ecs;
        let nrooms = self.ecs.map.rooms.len();
        let mut r: usize = 1;
        while r < nrooms
            invariant
                self.ecs.wf(),
                w2.wf(),
                1 <= r <= nrooms,
                nrooms == self.ecs.map.rooms.len(),
                grown(w2, self.ecs),
            decreases nrooms - r,
        {
            let ghost mid = self.ecs;
            let room = self.ecs.map.rooms[r];
            self.ecs.spawn_room(&room);
            proof {
                lemma_grown_trans(w2, mid, self.ecs);
            }
            r = r + 1;
        }

        let ghost w3 = self.ecs;
        let player = self.ecs.player;
        let (px, py) = first_room.center();
        proof {
            crate::map::lemma_center_in_room(first_room);
        }
        self.ecs.positions[player] = Some(Position { x: px, y: py });
        let (vt, vrange) = match &self.ecs.viewsheds[player] {
            Some(v) => (v.visible_tiles.clone(), v.range),
            None => (Vec::new(), 8),
        };
        self.ecs.viewsheds[player] = Some(
            Viewshed { visible_tiles: vt, range: vrange, dirty: true },
        );
        let line = String::from_str("You descend to the next level and take a moment to heal");
        self.ecs.log.append(line);
        let stats = match self.ecs.combat_stats[player] {
            Some(s) => s,
            None => CombatStats { max_hp: 1, hp: 1, defense: 0, power: 0 },
        };
        let half = stats.max_hp / 2;
        let new_hp = if stats.hp >= half { stats.hp } else { half };
        self.ecs.combat_stats[player] = Some(CombatStats { hp: new_hp, ..stats });
        proof {
            assert forall|e: int|
                0 <= e < w0.n() && w0.alive@[e] && e != w0.player
                    && !(w0.in_backpack@[e] is Some
                        && w0.in_backpack@[e].unwrap().owner == w0.player)
                implies !self.ecs.alive@[e] by {
                assert(td@.contains(e as usize));
                let q = choose|q: int| 0 <= q < td@.len() && td@[q] == e as usize;
                assert(!w1.alive@[td@[q] as int]);
                assert(w2.alive@[e] == w1.alive@[e]);
                assert(w3.alive@[e] == w2.alive@[e]);
            }
            assert forall|e: int|
                0 <= e < w0.n() && w0.in_backpack@[e] is Some
                    && w0.in_backpack@[e].unwrap().owner == w0.player && w0.alive@[e]
                implies #[trigger] self.ecs.alive@[e]
                    && self.ecs.in_backpack@[e] == w0.in_backpack@[e]
                    && self.ecs.items@[e] == w0.items@[e]
                    && self.ecs.consumables@[e] == w0.consumables@[e]
                    && self.ecs.provides_healing@[e] == w0.provides_healing@[e]
                    && self.ecs.inflicts_damage@[e] == w0.inflicts_damage@[e]
                    && self.ecs.ranged@[e] == w0.ranged@[e]
                    && self.ecs.aoe@[e] == w0.aoe@[e]
                    && self.ecs.names@[e] == w0.names@[e]
                    && self.ecs.combat_stats@[e] == w0.combat_stats@[e] by {
                assert(w0.in_backpack@[w0.player as int] is None);
                assert(e != w0.player);
                assert(!td@.contains(e as usize));
                assert(w1.alive@[e] == w0.alive@[e]);
                assert(w3.alive@[e] == w2.alive@[e]);
                assert(w3.in_backpack@[e] == w2.in_backpack@[e]);
                assert(w3.items@[e] == w2.items@[e]);
                assert(w3.consumables@[e] == w2.consumables@[e]);
                assert(w3.provides_healing@[e] == w2.provides_healing@[e]);
                assert(w3.inflicts_damage@[e] == w2.inflicts_damage@[e]);
                assert(w3.ranged@[e] == w2.ranged@[e]);
                assert(w3.aoe@[e] == w2.aoe@[e]);
                assert(w3.names@[e] == w2.names@[e]);
                assert(w3.combat_stats@[e] == w2.combat_stats@[e]);
            }
            // the new map carries its connectivity, and exactly one descent
            // line was logged
            assert(self.ecs.map == newmap);
            assert(w3.log.entries == w0.log.entries);
            assert(self.ecs.log.entries@
                == w0.log.entries@.push(self.ecs.log.entries@.last()));
            assert(level_rel(w0, self.ecs));
        }
    }

    /// One external tick: branches on the current turn state and the
    /// collaborator outcome exactly as the transition table says, stores
    /// the next turn state, and finally purges dead entities.  The
    /// player's death is surfaced as game over; quitting at the main menu
    /// is surfaced as quit.
    pub fn tick(&mut self, input: TickInput) -> (r: TickResult)
        requires
            old(self).ecs.wf(),
        ensures
            final(self).ecs.wf(),
            // after every tick, no dead entity but possibly the player remains
            forall|e: int|
                0 <= e < final(self).ecs.n() && e != final(self).ecs.player as int
                    ==> !final(self).ecs.spec_dead(e),
            final(self).ecs.player == old(self).ecs.player,
            // the transition table
            old(self).ecs.run_state == RunState::PreRun
                ==> final(self).ecs.run_state == RunState::AwaitingInput,
            old(self).ecs.run_state == RunState::PlayerTurn
                ==> final(self).ecs.run_state == RunState::MonsterTurn,
            old(self).ecs.run_state == RunState::MonsterTurn
                ==> final(self).ecs.run_state == RunState::AwaitingInput,
            old(self).ecs.run_state == RunState::SaveGame
                ==> final(self).ecs.run_state == (RunState::MainMenu {
                    menu_selection: MainMenuSelection::LoadGame }),
            old(self).ecs.run_state == RunState::NextLevel
                ==> final(self).ecs.run_state == RunState::PreRun,
            old(self).ecs.run_state == RunState::AwaitingInput ==> match input {
                TickInput::Key(cmd) => final(self).ecs.run_state == spec_command_state(cmd),
                _ => final(self).ecs.run_state == RunState::AwaitingInput,
            },
            old(self).ecs.run_state is MainMenu ==> match input {
                TickInput::Menu(m) => match m {
                    MainMenuResult::NoSelection { selected } => final(self).ecs.run_state
                        == (RunState::MainMenu { menu_selection: selected }),
                    MainMenuResult::Selected { selected } => match selected {
                        MainMenuSelection::NewGame => final(self).ecs.run_state
                            == RunState::PreRun,
                        MainMenuSelection::LoadGame => final(self).ecs.run_state
                            == RunState::AwaitingInput,
                        MainMenuSelection::Quit => final(self).ecs.run_state == old(
                            self).ecs.run_state && r == TickResult::Quit,
                    },
                },
                _ => final(self).ecs.run_state == old(self).ecs.run_state,
            },
            old(self).ecs.run_state == RunState::ShowInventory ==> match input {
                TickInput::ItemMenu(m) => match m {
                    ItemMenuResult::Cancel => final(self).ecs.run_state
                        == RunState::AwaitingInput,
                    ItemMenuResult::NoResponse => final(self).ecs.run_state
                        == RunState::ShowInventory,
                    ItemMenuResult::Selected { item } => {
                        if item < old(self).ecs.n() && old(self).ecs.ranged@[item as int]
                            is Some {
                            final(self).ecs.run_state == (RunState::ShowTargeting {
                                range: old(self).ecs.ranged@[item as int].unwrap().range,
                                item })
                        } else if item < old(self).ecs.n() {
                            final(self).ecs.run_state == RunState::PlayerTurn
                                && final(self).ecs.wants_to_use@[old(self).ecs.player as int]
                                    == Some(WantsToUseItem { item, target: None })
                        } else {
                            final(self).ecs.run_state == RunState::ShowInventory
                        }
                    },
                },
                _ => final(self).ecs.run_state == RunState::ShowInventory,
            },
            old(self).ecs.run_state == RunState::ShowDropItem ==> match input {
                TickInput::ItemMenu(m) => match m {
                    ItemMenuResult::Cancel => final(self).ecs.run_state
                        == RunState::AwaitingInput,
                    ItemMenuResult::NoResponse => final(self).ecs.run_state
                        == RunState::ShowDropItem,
                    ItemMenuResult::Selected { item } => {
                        if item < old(self).ecs.n() {
                            final(self).ecs.run_state == RunState::PlayerTurn
                                && final(self).ecs.wants_to_drop@[old(self).ecs.player as int]
                                    == Some(WantsToDropItem { item })
                        } else {
                            final(self).ecs.run_state == RunState::ShowDropItem
                        }
                    },
                },
                _ => final(self).ecs.run_state == RunState::ShowDropItem,
            },
            match old(self).ecs.run_state {
                RunState::ShowTargeting { range, item } => match input {
                    TickInput::Target(t) => match t {
                        TargetResult::Cancel => final(self).ecs.run_state
                            == RunState::AwaitingInput,
                        TargetResult::NoResponse => final(self).ecs.run_state == old(
                            self).ecs.run_state,
                        TargetResult::Selected { x, y } => {
                            if item < old(self).ecs.n() && 0 <= x < 80 && 0 <= y < 43 {
                                final(self).ecs.run_state == RunState::PlayerTurn
                                    && final(self).ecs.wants_to_use@[
                                    old(self).ecs.player as int] == Some(
                                    WantsToUseItem { item, target: Some(Position { x, y }) },
                                )
                            } else {
                                final(self).ecs.run_state == RunState::AwaitingInput
                            }
                        },
                    },
                    _ => final(self).ecs.run_state == old(self).ecs.run_state,
                },
                _ => true,
            },
            // a cancelled menu or targeting tick changes nothing but the
            // turn state before the dead purge
            (old(self).ecs.run_state == RunState::ShowInventory
                || old(self).ecs.run_state == RunState::ShowDropItem
                || old(self).ecs.run_state is ShowTargeting) && (input == TickInput::ItemMenu(
                ItemMenuResult::Cancel) || input == TickInput::Target(TargetResult::Cancel))
                ==> purge_rel(
                    (World { run_state: final(self).ecs.run_state, ..old(self).ecs }),
                    final(self).ecs,
                ),
            // the three pipeline states run the eight passes, then purge
            (old(self).ecs.run_state == RunState::PreRun
                || old(self).ecs.run_state == RunState::PlayerTurn
                || old(self).ecs.run_state == RunState::MonsterTurn)
                ==> exists|mid: World|
                    #[trigger] pipeline_rel(old(self).ecs, mid) && purge_rel(
                        mid, final(self).ecs),
            // a level change performs the descent, then purges
            old(self).ecs.run_state == RunState::NextLevel
                ==> exists|mid: World|
                    #[trigger] level_rel(old(self).ecs, mid) && purge_rel(
                        mid, final(self).ecs),
            r == TickResult::Quit ==> old(self).ecs.run_state is MainMenu,
            r == TickResult::GameOver
                ==> final(self).ecs.combat_stats@[final(self).ecs.player as int] is Some
                    && final(self).ecs.combat_stats@[
                    final(self).ecs.player as int].unwrap().hp <= 0,
    {
        let mut result = TickResult::Continue;
        let old_state = self.ecs.run_state;
        let new_state: RunState = match old_state {
            RunState::MainMenu { menu_selection } => match input {
                TickInput::Menu(m) => match m {
                    MainMenuResult::NoSelection { selected } => RunState::MainMenu {
                        menu_selection: selected },
                    MainMenuResult::Selected { selected } => match selected {
                        MainMenuSelection::NewGame => RunState::PreRun,
                        MainMenuSelection::LoadGame => RunState::AwaitingInput,
                        MainMenuSelection::Quit => {
                            result = TickResult::Quit;
                            RunState::MainMenu { menu_selection }
                        },
                    },
                },
                _ => RunState::MainMenu { menu_selection },
            },
            RunState::NextLevel => {
                self.goto_next_level();
                RunState::PreRun
            },
            RunState::SaveGame => RunState::MainMenu {
                menu_selection: MainMenuSelection::LoadGame },
            RunState::PreRun => {
                self.run_systems();
                RunState::AwaitingInput
            },
            RunState::AwaitingInput => match input {
                TickInput::Key(cmd) => crate::player::player_input(self, Some(cmd)),
                _ => RunState::AwaitingInput,
            },
            RunState::PlayerTurn => {
                self.run_systems();
                RunState::MonsterTurn
            },
            RunState::MonsterTurn => {
                self.run_systems();
                RunState::AwaitingInput
            },
            RunState::ShowInventory => match input {
                TickInput::ItemMenu(m) => match m {
                    ItemMenuResult::Cancel => RunState::AwaitingInput,
                    ItemMenuResult::NoResponse => RunState::ShowInventory,
                    ItemMenuResult::Selected { item } => {
                        if item < self.ecs.alive.len() {
                            if let Some(ranged_item) = self.ecs.ranged[item] {
                                RunState::ShowTargeting { range: ranged_item.range, item }
                            } else {
                                let player = self.ecs.player;
                                self.ecs.wants_to_use[player] = Some(
                                    WantsToUseItem { item, target: None },
                                );
                                RunState::PlayerTurn
                            }
                        } else {
                            RunState::ShowInventory
                        }
                    },
                },
                _ => RunState::ShowInventory,
            },
            RunState::ShowDropItem => match input {
                TickInput::ItemMenu(m) => match m {
                    ItemMenuResult::Cancel => RunState::AwaitingInput,
                    ItemMenuResult::NoResponse => RunState::ShowDropItem,
                    ItemMenuResult::Selected { item } => {
                        if item < self.ecs.alive.len() {
                            let player = self.ecs.player;
                            self.ecs.wants_to_drop[player] = Some(WantsToDropItem { item });
                            RunState::PlayerTurn
                        } else {
                            RunState::ShowDropItem
                        }
                    },
                },
                _ => RunState::ShowDropItem,
            },
            RunState::ShowTargeting { range, item } => match input {
                TickInput::Target(t) => match t {
                    TargetResult::Cancel => RunState::AwaitingInput,
                    TargetResult::NoResponse => RunState::ShowTargeting { range, item },
                    TargetResult::Selected { x, y } => {
                        if item < self.ecs.alive.len() && 0 <= x && x < 80 && 0 <= y && y < 43 {
                            let player = self.ecs.player;
                            self.ecs.wants_to_use[player] = Some(
                                WantsToUseItem { item, target: Some(Position { x, y }) },
                            );
                            RunState::PlayerTurn
                        } else {
                            RunState::AwaitingInput
                        }
                    },
                },
                _ => RunState::ShowTargeting { range, item },
            },
        };
        self.ecs.run_state = new_state;
        let ghost mid = self.ecs;
        let player_dead = self.ecs.delete_the_dead();
        proof {
            assert forall|e: int|
                0 <= e < self.ecs.n() && e != self.ecs.player as int
                implies !self.ecs.spec_dead(e) by {
                if self.ecs.alive@[e] {
                    assert(mid.alive@[e]);
                    assert(!(mid.spec_dead(e) && e != mid.player as int));
                    assert(self.ecs.positions@[e] == mid.positions@[e]);
                    assert(self.ecs.combat_stats@[e] == mid.combat_stats@[e]);
                }
            }
            let ghost w_old = old(self).ecs;
            if old_state == RunState::PreRun || old_state == RunState::PlayerTurn
                || old_state == RunState::MonsterTurn {
                assert(pipeline_rel(w_old, mid));
                assert(exists|m: World|
                    #[trigger] pipeline_rel(w_old, m) && purge_rel(m, self.ecs));
            }
            if old_state == RunState::NextLevel {
                assert(level_rel(w_old, mid));
                assert(exists|m: World|
                    #[trigger] level_rel(w_old, m) && purge_rel(m, self.ecs));
            }
            if (old_state == RunState::ShowInventory || old_state == RunState::ShowDropItem
                || old_state is ShowTargeting) && (input == TickInput::ItemMenu(
                ItemMenuResult::Cancel) || input == TickInput::Target(TargetResult::Cancel)) {
                assert(mid == (World { run_state: new_state, ..w_old }));
            }
            if old_state is ShowTargeting {
                // the recorded intent survives the purge: the player is kept
                if self.ecs.wants_to_use@[w_old.player as int]
                    != mid.wants_to_use@[w_old.player as int] {
                    assert(self.ecs.positions@[w_old.player as int]
                        == mid.positions@[w_old.player as int]);
                }
            }
        }
        if player_dead && !matches!(result, TickResult::Quit) {
            result = TickResult::GameOver;
        }
        result
    }

    /// Starts a fresh game from the given seed: a new level, the player at
    /// the entry point, the other rooms populated, starting items in the
    /// entry room, and the main menu showing.
    pub fn new_game_seeded(seed: u64) -> (s: State)
        ensures
            s.ecs.wf(),
            s.ecs.run_state == (RunState::MainMenu {
                menu_selection: MainMenuSelection::NewGame }),
            s.ecs.player == 0,
            1 <= s.ecs.map.rooms.len(),
            // the player stands at the centre of the first generated room
            s.ecs.positions@[0] == Some(
                Position {
                    x: room_center(s.ecs.map.rooms@[0]).0 as i32,
                    y: room_center(s.ecs.map.rooms@[0]).1 as i32,
                },
            ),
            // every room of the fresh level is reachable from the entry
            forall|i: int|
                0 <= i < s.ecs.map.rooms.len()
                    ==> crate::connectivity::connected(
                        s.ecs.map,
                        room_center(s.ecs.map.rooms@[0]),
                        room_center(#[trigger] s.ecs.map.rooms@[i]),
                    ),
            // the log opens with the welcome line
            s.ecs.log.entries@.len() == 1,
            s.ecs.log.entries@[0]@ == "Welcome to Rusty Roguelike"@,
            // everything else spawned is a monster or an item of the fixed
            // kinds
            forall|e: int|
                1 <= e < s.ecs.n() ==> is_spawned_monster(s.ecs, e) || is_spawned_item(s.ecs, e),
    {
        let mut rng = rng_seeded(seed);
        let (map, first_room) = GameMap::new_map(1, &mut rng);
        let (px, py) = first_room.center();
        proof {
            crate::map::lemma_center_in_room(first_room);
        }
        let mut world = World::new(map, px, py, rng);
        let ghost gmap = world.map;
        let nrooms = world.map.rooms.len();
        let mut r: usize = 1;
        while r < nrooms
            invariant
                world.wf(),
                1 <= r <= nrooms,
                nrooms == world.map.rooms.len(),
                world.map == gmap,
                world.run_state == (RunState::MainMenu {
                    menu_selection: MainMenuSelection::NewGame }),
                world.player == 0,
                world.n() >= 1,
                world.positions@[0] == Some(Position { x: px, y: py }),
                world.log.entries@.len() == 1,
                world.log.entries@[0]@ == "Welcome to Rusty Roguelike"@,
                forall|e2: int|
                    1 <= e2 < world.n()
                        ==> is_spawned_monster(world, e2) || is_spawned_item(world, e2),
            decreases nrooms - r,
        {
            let ghost before = world;
            let room = world.map.rooms[r];
            world.spawn_room(&room);
            proof {
                assert(world.positions@[0] == before.positions@[0]);
                assert(world.log.entries == before.log.entries);
                assert forall|e2: int| 1 <= e2 < world.n()
                    implies is_spawned_monster(world, e2) || is_spawned_item(world, e2) by {
                    if e2 < before.n() {
                        lemma_shape_preserved(before, world, e2);
                    } else {
                        assert(spawned_in_room(before, world, room));
                        assert(world.positions@[e2] is Some);
                    }
                }
            }
            r = r + 1;
        }
        let ghost before_goodies = world;
        let entry = world.map.rooms[0];
        world.spawn_goodies(&entry);
        proof {
            assert(world.positions@[0] == before_goodies.positions@[0]);
            assert forall|e2: int| 1 <= e2 < world.n()
                implies is_spawned_monster(world, e2) || is_spawned_item(world, e2) by {
                if e2 < before_goodies.n() {
                    lemma_shape_preserved(before_goodies, world, e2);
                } else {
                    assert(spawned_in_room(before_goodies, world, entry));
                    assert(world.positions@[e2] is Some);
                }
            }
        }
        State { ecs: world }
    }

    /// Starts a fresh game from system entropy.
    pub fn new_game() -> (s: State)
        ensures
            s.ecs.wf(),
            s.ecs.run_state == (RunState::MainMenu {
                menu_selection: MainMenuSelection::NewGame }),
            s.ecs.player == 0,
            1 <= s.ecs.map.rooms.len(),
            // the player stands at the centre of the first generated room
            s.ecs.positions@[0] == Some(
                Position {
                    x: room_center(s.ecs.map.rooms@[0]).0 as i32,
                    y: room_center(s.ecs.map.rooms@[0]).1 as i32,
                },
            ),
            // every room of the fresh level is reachable from the entry
            forall|i: int|
                0 <= i < s.ecs.map.rooms.len()
                    ==> crate::connectivity::connected(
                        s.ecs.map,
                        room_center(s.ecs.map.rooms@[0]),
                        room_center(#[trigger] s.ecs.map.rooms@[i]),
                    ),
            // the log opens with the welcome line
            s.ecs.log.entries@.len() == 1,
            s.ecs.log.entries@[0]@ == "Welcome to Rusty Roguelike"@,
            // everything else spawned is a monster or an item of the fixed
            // kinds
            forall|e: int|
                1 <= e < s.ecs.n() ==> is_spawned_monster(s.ecs, e) || is_spawned_item(s.ecs, e),
    {
        let mut rng = rng_new();
        let (map, first_room) = GameMap::new_map(1, &mut rng);
        let (px, py) = first_room.center();
        proof {
            crate::map::lemma_center_in_room(first_room);
        }
        let mut world = World::new(map, px, py, rng);
        let ghost gmap = world.map;
        let nrooms = world.map.rooms.len();
        let mut r: usize = 1;
        while r < nrooms
            invariant
                world.wf(),
                1 <= r <= nrooms,
                nrooms == world.map.rooms.len(),
                world.map == gmap,
                world.run_state == (RunState::MainMenu {
                    menu_selection: MainMenuSelection::NewGame }),
                world.player == 0,
                world.n() >= 1,
                world.positions@[0] == Some(Position { x: px, y: py }),
                world.log.entries@.len() == 1,
                world.log.entries@[0]@ == "Welcome to Rusty Roguelike"@,
                forall|e2: int|
                    1 <= e2 < world.n()
                        ==> is_spawned_monster(world, e2) || is_spawned_item(world, e2),
            decreases nrooms - r,
        {
            let ghost before = world;
            let room = world.map.rooms[r];
            world.spawn_room(&room);
            proof {
                assert(world.positions@[0] == before.positions@[0]);
                assert(world.log.entries == before.log.entries);
                assert forall|e2: int| 1 <= e2 < world.n()
                    implies is_spawned_monster(world, e2) || is_spawned_item(world, e2) by {
                    if e2 < before.n() {
                        lemma_shape_preserved(before, world, e2);
                    } else {
                        assert(spawned_in_room(before, world, room));
                        assert(world.positions@[e2] is Some);
                    }
                }
            }
            r = r + 1;
        }
        let ghost before_goodies = world;
        let entry = world.map.rooms[0];
        world.spawn_goodies(&entry);
        proof {
            assert(world.positions@[0] == before_goodies.positions@[0]);
            assert forall|e2: int| 1 <= e2 < world.n()
                implies is_spawned_monster(world, e2) || is_spawned_item(world, e2) by {
                if e2 < before_goodies.n() {
                    lemma_shape_preserved(before_goodies, world, e2);
                } else {
                    assert(spawned_in_room(before_goodies, world, entry));
                    assert(world.positions@[e2] is Some);
                }
            }
        }
        State { ecs: world }
    }
}

} // verus!
