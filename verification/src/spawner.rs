//! Populating a level: each room beyond the first receives a rolled
//! number of monsters and items at rolled positions, and the entry room
//! receives a small set of starting items.  Every spawn is verified for
//! every value the dice can return.

use vstd::prelude::*;
use vstd::string::StringExecFns;
use crate::components::{AreaOfEffect, CombatStats, InflictsDamage, Position, ProvidesHealing,
    Ranged};
use crate::map::room_wf;
use crate::rect::Rect;
use crate::rng::{rng_range, rng_roll_dice};
use crate::world::World;

verus! {

/// The world grew by zero or more fresh entities: every entity that
/// already existed keeps every component, and the map, log, player and
/// turn state stay as they were.
pub open spec fn grown(pre: World, post: World) -> bool {
    &&& post.n() >= pre.n()
    &&& forall|k: int| 0 <= k < pre.n() ==> #[trigger] post.alive@[k] == pre.alive@[k]
    &&& forall|k: int| 0 <= k < pre.n() ==> #[trigger] post.positions@[k] == pre.positions@[k]
    &&& forall|k: int| 0 <= k < pre.n() ==> #[trigger] post.viewsheds@[k] == pre.viewsheds@[k]
    &&& forall|k: int| 0 <= k < pre.n() ==> #[trigger] post.monsters@[k] == pre.monsters@[k]
    &&& forall|k: int| 0 <= k < pre.n() ==> #[trigger] post.names@[k] == pre.names@[k]
    &&& forall|k: int| 0 <= k < pre.n() ==> #[trigger] post.blocks_tile@[k] == pre.blocks_tile@[k]
    &&& forall|k: int|
        0 <= k < pre.n() ==> #[trigger] post.combat_stats@[k] == pre.combat_stats@[k]
    &&& forall|k: int|
        0 <= k < pre.n() ==> #[trigger] post.suffer_damage@[k] == pre.suffer_damage@[k]
    &&& forall|k: int| 0 <= k < pre.n() ==> #[trigger] post.items@[k] == pre.items@[k]
    &&& forall|k: int| 0 <= k < pre.n() ==> #[trigger] post.consumables@[k] == pre.consumables@[k]
    &&& forall|k: int| 0 <= k < pre.n() ==> #[trigger] post.ranged@[k] == pre.ranged@[k]
    &&& forall|k: int|
        0 <= k < pre.n() ==> #[trigger] post.provides_healing@[k] == pre.provides_healing@[k]
    &&& forall|k: int|
        0 <= k < pre.n() ==> #[trigger] post.inflicts_damage@[k] == pre.inflicts_damage@[k]
    &&& forall|k: int| 0 <= k < pre.n() ==> #[trigger] post.aoe@[k] == pre.aoe@[k]
    &&& forall|k: int| 0 <= k < pre.n() ==> #[trigger] post.in_backpack@[k] == pre.in_backpack@[k]
    &&& forall|k: int| 0 <= k < pre.n() ==> #[trigger] post.confusion@[k] == pre.confusion@[k]
    &&& forall|k: int|
        0 <= k < pre.n() ==> #[trigger] post.wants_to_melee@[k] == pre.wants_to_melee@[k]
    &&& forall|k: int|
        0 <= k < pre.n() ==> #[trigger] post.wants_to_pickup@[k] == pre.wants_to_pickup@[k]
    &&& forall|k: int|
        0 <= k < pre.n() ==> #[trigger] post.wants_to_drop@[k] == pre.wants_to_drop@[k]
    &&& forall|k: int|
        0 <= k < pre.n() ==> #[trigger] post.wants_to_use@[k] == pre.wants_to_use@[k]
    &&& post.player == pre.player
    &&& post.map == pre.map
    &&& post.log.entries == pre.log.entries
    &&& post.run_state == pre.run_state
}

/// A freshly spawned hostile: living, blocking, sighted, with the fixed
/// monster stats and nothing else.
pub open spec fn is_spawned_monster(w: World, e: int) -> bool {
    &&& w.alive@[e]
    &&& w.monsters@[e]
    &&& w.blocks_tile@[e]
    &&& !w.items@[e]
    &&& !w.consumables@[e]
    &&& w.combat_stats@[e] == Some(CombatStats { max_hp: 16, hp: 16, defense: 1, power: 4 })
    &&& w.viewsheds@[e] is Some
    &&& w.in_backpack@[e] is None
    &&& w.confusion@[e] is None
    &&& w.suffer_damage@[e]@.len() == 0
    &&& w.wants_to_melee@[e] is None
    &&& w.wants_to_pickup@[e] is None
    &&& w.wants_to_drop@[e] is None
    &&& w.wants_to_use@[e] is None
}

/// The item's effect components are a healing potion's.
pub open spec fn is_health_potion(w: World, e: int) -> bool {
    &&& w.provides_healing@[e] == Some(ProvidesHealing { heal_amount: 8 })
    &&& w.inflicts_damage@[e] is None
    &&& w.ranged@[e] is None
    &&& w.aoe@[e] is None
}

/// The item's effect components are a magic missile scroll's.
pub open spec fn is_magic_missile_scroll(w: World, e: int) -> bool {
    &&& w.provides_healing@[e] is None
    &&& w.inflicts_damage@[e] == Some(InflictsDamage { damage: 8 })
    &&& w.ranged@[e] == Some(Ranged { range: 6 })
    &&& w.aoe@[e] is None
}

/// The item's effect components are a fireball scroll's.
pub open spec fn is_fireball_scroll(w: World, e: int) -> bool {
    &&& w.provides_healing@[e] is None
    &&& w.inflicts_damage@[e] == Some(InflictsDamage { damage: 20 })
    &&& w.ranged@[e] == Some(Ranged { range: 6 })
    &&& w.aoe@[e] == Some(AreaOfEffect { radius: 3 })
}

/// A freshly spawned item: a living consumable of one of the three fixed
/// kinds, carrying nothing else.
pub open spec fn is_spawned_item(w: World, e: int) -> bool {
    &&& w.alive@[e]
    &&& w.items@[e]
    &&& w.consumables@[e]
    &&& !w.monsters@[e]
    &&& !w.blocks_tile@[e]
    &&& w.combat_stats@[e] is None
    &&& w.viewsheds@[e] is None
    &&& w.in_backpack@[e] is None
    &&& w.confusion@[e] is None
    &&& w.suffer_damage@[e]@.len() == 0
    &&& w.wants_to_melee@[e] is None
    &&& w.wants_to_pickup@[e] is None
    &&& w.wants_to_drop@[e] is None
    &&& w.wants_to_use@[e] is None
    &&& (is_health_potion(w, e) || is_magic_missile_scroll(w, e) || is_fireball_scroll(w, e))
}

/// Whatever the dice said, every entity a room spawn added stands inside
/// the room's carved interior and is a monster or an item of the fixed
/// kinds.
pub open spec fn spawned_in_room(pre: World, post: World, room: Rect) -> bool {
    forall|e: int|
        pre.n() <= e < post.n() ==> {
            &&& (#[trigger] post.positions@[e]) is Some
            &&& room.lft < post.positions@[e].unwrap().x <= room.rht
            &&& room.top < post.positions@[e].unwrap().y <= room.bot
            &&& (is_spawned_monster(post, e) || is_spawned_item(post, e))
        }
}

/// Growth keeps the shape of every already spawned entity.
pub proof fn lemma_shape_preserved(mid: World, post: World, e: int)
    requires
        grown(mid, post),
        0 <= e < mid.n(),
        is_spawned_monster(mid, e) || is_spawned_item(mid, e),
    ensures
        is_spawned_monster(post, e) || is_spawned_item(post, e),
{
    assert(post.alive@[e] == mid.alive@[e]);
    assert(post.monsters@[e] == mid.monsters@[e]);
    assert(post.blocks_tile@[e] == mid.blocks_tile@[e]);
    assert(post.items@[e] == mid.items@[e]);
    assert(post.consumables@[e] == mid.consumables@[e]);
    assert(post.combat_stats@[e] == mid.combat_stats@[e]);
    assert(post.viewsheds@[e] == mid.viewsheds@[e]);
    assert(post.in_backpack@[e] == mid.in_backpack@[e]);
    assert(post.confusion@[e] == mid.confusion@[e]);
    assert(post.suffer_damage@[e] == mid.suffer_damage@[e]);
    assert(post.wants_to_melee@[e] == mid.wants_to_melee@[e]);
    assert(post.wants_to_pickup@[e] == mid.wants_to_pickup@[e]);
    assert(post.wants_to_drop@[e] == mid.wants_to_drop@[e]);
    assert(post.wants_to_use@[e] == mid.wants_to_use@[e]);
    assert(post.provides_healing@[e] == mid.provides_healing@[e]);
    assert(post.inflicts_damage@[e] == mid.inflicts_damage@[e]);
    assert(post.ranged@[e] == mid.ranged@[e]);
    assert(post.aoe@[e] == mid.aoe@[e]);
}

/// Growth composes.
pub proof fn lemma_grown_trans(w1: World, w2: World, w3: World)
    requires
        grown(w1, w2),
        grown(w2, w3),
    ensures
        grown(w1, w3),
{
    assert forall|k: int| 0 <= k < w1.n() implies #[trigger] w3.alive@[k] == w1.alive@[k]
        && w3.positions@[k] == w1.positions@[k] && w3.viewsheds@[k] == w1.viewsheds@[k]
        && w3.monsters@[k] == w1.monsters@[k] && w3.names@[k] == w1.names@[k]
        && w3.blocks_tile@[k] == w1.blocks_tile@[k]
        && w3.combat_stats@[k] == w1.combat_stats@[k]
        && w3.suffer_damage@[k] == w1.suffer_damage@[k] && w3.items@[k] == w1.items@[k]
        && w3.consumables@[k] == w1.consumables@[k] && w3.ranged@[k] == w1.ranged@[k]
        && w3.provides_healing@[k] == w1.provides_healing@[k]
        && w3.inflicts_damage@[k] == w1.inflicts_damage@[k] && w3.aoe@[k] == w1.aoe@[k]
        && w3.in_backpack@[k] == w1.in_backpack@[k] && w3.confusion@[k] == w1.confusion@[k]
        && w3.wants_to_melee@[k] == w1.wants_to_melee@[k]
        && w3.wants_to_pickup@[k] == w1.wants_to_pickup@[k]
        && w3.wants_to_drop@[k] == w1.wants_to_drop@[k]
        && w3.wants_to_use@[k] == w1.wants_to_use@[k] by {
        assert(w2.alive@[k] == w1.alive@[k]);
        assert(w2.positions@[k] == w1.positions@[k]);
        assert(w2.viewsheds@[k] == w1.viewsheds@[k]);
        assert(w2.monsters@[k] == w1.monsters@[k]);
        assert(w2.names@[k] == w1.names@[k]);
        assert(w2.blocks_tile@[k] == w1.blocks_tile@[k]);
        assert(w2.combat_stats@[k] == w1.combat_stats@[k]);
        assert(w2.suffer_damage@[k] == w1.suffer_damage@[k]);
        assert(w2.items@[k] == w1.items@[k]);
        assert(w2.consumables@[k] == w1.consumables@[k]);
        assert(w2.ranged@[k] == w1.ranged@[k]);
        assert(w2.provides_healing@[k] == w1.provides_healing@[k]);
        assert(w2.inflicts_damage@[k] == w1.inflicts_damage@[k]);
        assert(w2.aoe@[k] == w1.aoe@[k]);
        assert(w2.in_backpack@[k] == w1.in_backpack@[k]);
        assert(w2.confusion@[k] == w1.confusion@[k]);
        assert(w2.wants_to_melee@[k] == w1.wants_to_melee@[k]);
        assert(w2.wants_to_pickup@[k] == w1.wants_to_pickup@[k]);
        assert(w2.wants_to_drop@[k] == w1.wants_to_drop@[k]);
        assert(w2.wants_to_use@[k] == w1.wants_to_use@[k]);
    }
}

/// One more spawn extends the room population: the already spawned keep
/// their shape, and the fresh entity is of a fixed kind inside the room.
proof fn lemma_spawned_in_room_step(pre: World, mid: World, post: World, room: Rect, fresh: int)
    requires
        spawned_in_room(pre, mid, room),
        grown(mid, post),
        post.n() == mid.n() + 1,
        fresh == mid.n(),
        post.positions@[fresh] is Some,
        room.lft < post.positions@[fresh].unwrap().x <= room.rht,
        room.top < post.positions@[fresh].unwrap().y <= room.bot,
        is_spawned_monster(post, fresh) || is_spawned_item(post, fresh),
        pre.n() <= mid.n(),
    ensures
        spawned_in_room(pre, post, room),
{
    assert forall|e: int| pre.n() <= e < post.n() implies {
        &&& (#[trigger] post.positions@[e]) is Some
        &&& room.lft < post.positions@[e].unwrap().x <= room.rht
        &&& room.top < post.positions@[e].unwrap().y <= room.bot
        &&& (is_spawned_monster(post, e) || is_spawned_item(post, e))
    } by {
        if e < mid.n() {
            assert(post.alive@[e] == mid.alive@[e]);
            assert(post.positions@[e] == mid.positions@[e]);
            assert(post.monsters@[e] == mid.monsters@[e]);
            assert(post.blocks_tile@[e] == mid.blocks_tile@[e]);
            assert(post.items@[e] == mid.items@[e]);
            assert(post.consumables@[e] == mid.consumables@[e]);
            assert(post.combat_stats@[e] == mid.combat_stats@[e]);
            assert(post.viewsheds@[e] == mid.viewsheds@[e]);
            assert(post.in_backpack@[e] == mid.in_backpack@[e]);
            assert(post.confusion@[e] == mid.confusion@[e]);
            assert(post.suffer_damage@[e] == mid.suffer_damage@[e]);
            assert(post.wants_to_melee@[e] == mid.wants_to_melee@[e]);
            assert(post.wants_to_pickup@[e] == mid.wants_to_pickup@[e]);
            assert(post.wants_to_drop@[e] == mid.wants_to_drop@[e]);
            assert(post.wants_to_use@[e] == mid.wants_to_use@[e]);
            assert(post.provides_healing@[e] == mid.provides_healing@[e]);
            assert(post.inflicts_damage@[e] == mid.inflicts_damage@[e]);
            assert(post.ranged@[e] == mid.ranged@[e]);
            assert(post.aoe@[e] == mid.aoe@[e]);
        }
    }
}

impl World {
    /// Rolls a tile inside the room's carved interior.
    fn roll_room_position(&mut self, room: &Rect) -> (r: (i32, i32))
        requires
            old(self).wf(),
            room_wf(*room),
        ensures
            final(self).wf(),
            grown(*old(self), *final(self)),
            *final(self) == (World { rng: final(self).rng, ..*old(self) }),
            room.lft < r.0 <= room.rht,
            room.top < r.1 <= room.bot,
            crate::map::in_map(r.0 as int, r.1 as int),
    {
        let x = rng_range(&mut self.rng, room.lft + 1, room.rht + 1);
        let y = rng_range(&mut self.rng, room.top + 1, room.bot + 1);
        (x, y)
    }

    /// Spawns one rolled monster at `(x, y)`: an orc or a goblin.
    fn spawn_random_monster(&mut self, x: i32, y: i32) -> (e: usize)
        requires
            old(self).wf(),
            crate::map::in_map(x as int, y as int),
        ensures
            final(self).wf(),
            grown(*old(self), *final(self)),
            e == old(self).n(),
            final(self).n() == old(self).n() + 1,
            is_spawned_monster(*final(self), e as int),
            final(self).positions@[e as int] == Some(Position { x, y }),
    {
        let roll = rng_roll_dice(&mut self.rng, 1, 2);
        let name = if roll == 1 {
            String::from_str("Goblin")
        } else {
            String::from_str("Orc")
        };
        self.spawn_monster(x, y, name)
    }

    /// Spawns one rolled item at `(x, y)`: a health potion, a magic
    /// missile scroll, or a fireball scroll.
    fn spawn_random_item(&mut self, x: i32, y: i32) -> (e: usize)
        requires
            old(self).wf(),
            crate::map::in_map(x as int, y as int),
        ensures
            final(self).wf(),
            grown(*old(self), *final(self)),
            e == old(self).n(),
            final(self).n() == old(self).n() + 1,
            is_spawned_item(*final(self), e as int),
            final(self).positions@[e as int] == Some(Position { x, y }),
    {
        let roll = rng_roll_dice(&mut self.rng, 1, 4);
        if roll <= 2 {
            self.spawn_item(
                x, y, String::from_str("Health Potion"),
                Some(ProvidesHealing { heal_amount: 8 }), None, None, None)
        } else if roll == 3 {
            self.spawn_item(
                x, y, String::from_str("Magic Missile Scroll"), None,
                Some(InflictsDamage { damage: 8 }), Some(Ranged { range: 6 }), None)
        } else {
            self.spawn_item(
                x, y, String::from_str("Fireball Scroll"), None,
                Some(InflictsDamage { damage: 20 }), Some(Ranged { range: 6 }),
                Some(AreaOfEffect { radius: 3 }))
        }
    }

    /// Populates one room with a rolled number of monsters and items: for
    /// every outcome of the dice, each fresh entity stands inside the room
    /// and is a monster or an item of the fixed kinds.
    pub fn spawn_room(&mut self, room: &Rect)
        requires
            old(self).wf(),
            room_wf(*room),
        ensures
            final(self).wf(),
            grown(*old(self), *final(self)),
            spawned_in_room(*old(self), *final(self), *room),
    {
        let ghost pre = *self;
        let num_monsters = rng_roll_dice(&mut self.rng, 1, 4) - 1;
        let num_items = rng_roll_dice(&mut self.rng, 1, 2) - 1;
        let mut i: i32 = 0;
        while i < num_monsters
            invariant
                self.wf(),
                pre.wf(),
                room_wf(*room),
                grown(pre, *self),
                spawned_in_room(pre, *self, *room),
                i <= num_monsters <= 3,
            decreases num_monsters - i,
        {
            let ghost mid = *self;
            let (x, y) = self.roll_room_position(room);
            let ghost mid2 = *self;
            let fresh = self.spawn_random_monster(x, y);
            proof {
                lemma_grown_trans(pre, mid2, *self);
                lemma_spawned_in_room_step(pre, mid2, *self, *room, fresh as int);
            }
            i = i + 1;
        }
        let mut j: i32 = 0;
        while j < num_items
            invariant
                self.wf(),
                pre.wf(),
                room_wf(*room),
                grown(pre, *self),
                spawned_in_room(pre, *self, *room),
                j <= num_items <= 1,
            decreases num_items - j,
        {
            let ghost mid2 = *self;
            let (x, y) = self.roll_room_position(room);
            let ghost mid3 = *self;
            let fresh = self.spawn_random_item(x, y);
            proof {
                lemma_grown_trans(pre, mid3, *self);
                lemma_spawned_in_room_step(pre, mid3, *self, *room, fresh as int);
            }
            j = j + 1;
        }
    }

    /// Places the starting items in the entry room: exactly a health
    /// potion and a fireball scroll, each inside the room.
    pub fn spawn_goodies(&mut self, room: &Rect)
        requires
            old(self).wf(),
            room_wf(*room),
        ensures
            final(self).wf(),
            grown(*old(self), *final(self)),
            final(self).n() == old(self).n() + 2,
            spawned_in_room(*old(self), *final(self), *room),
            is_spawned_item(*final(self), old(self).n()),
            is_health_potion(*final(self), old(self).n()),
            is_spawned_item(*final(self), old(self).n() + 1),
            is_fireball_scroll(*final(self), old(self).n() + 1),
    {
        let ghost pre = *self;
        let (x1, y1) = self.roll_room_position(room);
        let ghost m1 = *self;
        self.spawn_item(
            x1, y1, String::from_str("Health Potion"),
            Some(ProvidesHealing { heal_amount: 8 }), None, None, None);
        proof {
            lemma_grown_trans(pre, m1, *self);
        }
        let ghost m2 = *self;
        let (x2, y2) = self.roll_room_position(room);
        let ghost m3 = *self;
        self.spawn_item(
            x2, y2, String::from_str("Fireball Scroll"), None,
            Some(InflictsDamage { damage: 20 }), Some(Ranged { range: 6 }),
            Some(AreaOfEffect { radius: 3 }));
        proof {
            lemma_grown_trans(m2, m3, *self);
            lemma_grown_trans(pre, m2, *self);
        }
    }
}

} // verus!
