//! Melee combat and damage resolution.  Combat turns every pending melee
//! intent into queued damage of `max(0, power - defense)`; resolution
//! drains each queue, floors hit points at zero, and a final pass deletes
//! the dead, surfacing the player's death instead of deleting the player.

use vstd::prelude::*;
use crate::components::{CombatStats, WantsToMelee};
use crate::world::World;

verus! {

/// The damage of one melee hit.
pub open spec fn spec_melee_damage(power: int, defense: int) -> int {
    if power - defense > 0 {
        power - defense
    } else {
        0
    }
}

/// Attacker `e` lands a hit on `t` this turn: it lives, wants to melee
/// `t`, and both sides carry combat stats.
pub open spec fn attacker_hits(
    wants: Seq<Option<WantsToMelee>>,
    alive: Seq<bool>,
    stats: Seq<Option<CombatStats>>,
    e: int,
    t: int,
) -> bool {
    &&& alive[e]
    &&& wants[e] is Some
    &&& wants[e].unwrap().target == t
    &&& stats[e] is Some
    &&& stats[t] is Some
}

/// The damage amounts queued on `t` by the attackers among the first `n`
/// entities, in entity order; zero-damage hits queue nothing.
pub open spec fn queued_damages(
    wants: Seq<Option<WantsToMelee>>,
    alive: Seq<bool>,
    stats: Seq<Option<CombatStats>>,
    t: int,
    n: int,
) -> Seq<i32>
    decreases n,
{
    if n <= 0 {
        Seq::empty()
    } else {
        let prev = queued_damages(wants, alive, stats, t, n - 1);
        if attacker_hits(wants, alive, stats, n - 1, t) && spec_melee_damage(
            stats[n - 1].unwrap().power as int,
            stats[t].unwrap().defense as int,
        ) > 0 {
            prev.push(
                (stats[n - 1].unwrap().power - stats[t].unwrap().defense) as i32,
            )
        } else {
            prev
        }
    }
}

/// The sum of the first `n` queued amounts.
pub open spec fn sum_damage(q: Seq<i32>, n: int) -> int
    decreases n,
{
    if n <= 0 {
        0
    } else {
        sum_damage(q, n - 1) + q[n - 1]
    }
}

/// Zero if the number is negative, else the number itself.
pub open spec fn clamp0(x: int) -> int {
    if x > 0 {
        x
    } else {
        0
    }
}

/// Everything the melee pass does: each pending intent queues
/// `max(0, power - defense)` on its target when positive, in attacker
/// order, and every melee intent is cleared whatever its outcome.
pub open spec fn melee_rel(pre: World, post: World) -> bool {
    &&& post == (World { suffer_damage: post.suffer_damage, wants_to_melee: post.wants_to_melee,
            ..pre })
    &&& forall|e: int| 0 <= e < pre.n() ==> post.wants_to_melee@[e] is None
    &&& forall|t: int|
        0 <= t < pre.n()
            ==> (#[trigger] post.suffer_damage@[t])@ == pre.suffer_damage@[t]@ + queued_damages(
                pre.wants_to_melee@,
                pre.alive@,
                pre.combat_stats@,
                t,
                pre.n(),
            )
}

/// Everything damage resolution does: each entity with stats loses the
/// sum of its queue, floored at zero, and every queue is cleared.
pub open spec fn damage_rel(pre: World, post: World) -> bool {
    &&& post == (World { combat_stats: post.combat_stats, suffer_damage: post.suffer_damage,
            ..pre })
    &&& forall|e: int| 0 <= e < pre.n() ==> (#[trigger] post.suffer_damage@[e])@.len() == 0
    &&& forall|e: int|
        0 <= e < pre.n() && pre.combat_stats@[e] is Some
            ==> (#[trigger] post.combat_stats@[e]) == Some(
                CombatStats {
                    hp: clamp0(
                        pre.combat_stats@[e].unwrap().hp - sum_damage(
                            pre.suffer_damage@[e]@,
                            pre.suffer_damage@[e]@.len() as int,
                        ),
                    ) as i32,
                    ..pre.combat_stats@[e].unwrap()
                },
            )
    &&& forall|e: int|
        0 <= e < pre.n() && pre.combat_stats@[e] is None
            ==> (#[trigger] post.combat_stats@[e]) is None
}

/// Everything the death pass does: every dead entity but the player stops
/// living and loses its components, everything else is untouched.
pub open spec fn purge_rel(pre: World, post: World) -> bool {
    &&& post.n() == pre.n()
    &&& forall|e: int|
        0 <= e < pre.n()
            ==> (#[trigger] post.alive@[e] == (pre.alive@[e] && !(pre.spec_dead(e)
                && e != pre.player as int)))
    &&& dead_pass_keeps(pre, post, pre.n())
    &&& post.player == pre.player
    &&& post.map == pre.map
    &&& post.run_state == pre.run_state
    &&& post.log.entries == pre.log.entries
}

/// Every entity the death pass keeps retains all its components.
pub open spec fn dead_pass_keeps(pre: World, cur: World, bound: int) -> bool {
    forall|k: int|
        0 <= k < pre.n() && !(pre.spec_dead(k) && k != pre.player as int && k < bound)
            ==> #[trigger] cur.positions@[k] == pre.positions@[k]
                && cur.combat_stats@[k] == pre.combat_stats@[k]
                && cur.in_backpack@[k] == pre.in_backpack@[k]
                && cur.monsters@[k] == pre.monsters@[k]
                && cur.items@[k] == pre.items@[k]
                && cur.consumables@[k] == pre.consumables@[k]
                && cur.viewsheds@[k] == pre.viewsheds@[k]
                && cur.names@[k] == pre.names@[k]
                && cur.provides_healing@[k] == pre.provides_healing@[k]
                && cur.inflicts_damage@[k] == pre.inflicts_damage@[k]
                && cur.ranged@[k] == pre.ranged@[k]
                && cur.aoe@[k] == pre.aoe@[k]
                && cur.wants_to_melee@[k] == pre.wants_to_melee@[k]
                && cur.wants_to_pickup@[k] == pre.wants_to_pickup@[k]
                && cur.wants_to_drop@[k] == pre.wants_to_drop@[k]
                && cur.wants_to_use@[k] == pre.wants_to_use@[k]
}

impl World {
    /// Turns every pending melee intent into queued damage on its target:
    /// damage is `max(0, power - defense)`, and only strictly positive
    /// damage is queued.  All melee intents are cleared, whatever their
    /// outcome; an intent whose attacker or target lacks stats does
    /// nothing.
    pub fn melee_combat_system(&mut self)
        requires
            old(self).wf(),
        ensures
            final(self).wf(),
            melee_rel(*old(self), *final(self)),
    {
        let ghost pre = *self;
        let n = self.alive.len();
        let mut e: usize = 0;
        while e < n
            invariant
                self.wf(),
                pre.wf(),
                e <= n,
                n == pre.n(),
                *self == (World { suffer_damage: self.suffer_damage,
                    wants_to_melee: self.wants_to_melee, ..pre }),
                forall|k: int| 0 <= k < e ==> self.wants_to_melee@[k] is None,
                forall|k: int|
                    e <= k < n ==> #[trigger] self.wants_to_melee@[k] == pre.wants_to_melee@[k],
                forall|t: int|
                    0 <= t < n
                        ==> (#[trigger] self.suffer_damage@[t])@ == pre.suffer_damage@[t]@
                            + queued_damages(
                            pre.wants_to_melee@, pre.alive@, pre.combat_stats@, t, e as int),
            decreases n - e,
        {
            let ghost before = *self;
            let intent = self.wants_to_melee[e];
            if let Some(m) = intent {
                if self.alive[e] {
                    let t = m.target;
                    let attacker_stats = self.combat_stats[e];
                    let target_stats = self.combat_stats[t];
                    if let (Some(a), Some(d)) = (attacker_stats, target_stats) {
                        let damage = if a.power - d.defense > 0 { a.power - d.defense } else { 0 };
                        if damage > 0 {
                            self.suffer_damage[t].push(damage);
                            proof {
                                assert(crate::world::stat_ok(
                                    pre.combat_stats@[e as int].unwrap()));
                                assert(crate::world::stat_ok(
                                    pre.combat_stats@[t as int].unwrap()));
                                assert(before.alive@[t as int]);
                                assert forall|ee: int, kk: int|
                                    0 <= ee < self.n()
                                        && 0 <= kk < self.suffer_damage@[ee]@.len()
                                    implies 0 <= #[trigger] self.suffer_damage@[ee]@[kk]
                                        <= crate::world::STAT_BOUND by {
                                    if !(ee == t as int
                                        && kk == self.suffer_damage@[ee]@.len() - 1) {
                                        assert(self.suffer_damage@[ee]@[kk]
                                            == before.suffer_damage@[ee]@[kk]);
                                    }
                                }
                                assert forall|j: int| 0 <= j < n
                                    implies (#[trigger] self.suffer_damage@[j])@
                                        == pre.suffer_damage@[j]@ + queued_damages(
                                        pre.wants_to_melee@, pre.alive@, pre.combat_stats@, j,
                                        e + 1) by {
                                    if j == t as int {
                                        assert(self.suffer_damage@[j]@
                                            == before.suffer_damage@[j]@.push(damage));
                                    } else {
                                        assert(!attacker_hits(
                                            pre.wants_to_melee@, pre.alive@, pre.combat_stats@,
                                            e as int, j));
                                    }
                                }
                            }
                        }
                    }
                }
            }
            self.wants_to_melee[e] = None;
            e = e + 1;
        }
    }

    /// Drains every entity's damage queue, subtracting the queued sum from
    /// its hit points with a floor at zero, and clears every queue.
    pub fn damage_system(&mut self)
        requires
            old(self).wf(),
        ensures
            final(self).wf(),
            damage_rel(*old(self), *final(self)),
    {
        let ghost pre = *self;
        let n = self.alive.len();
        let mut e: usize = 0;
        while e < n
            invariant
                self.wf(),
                pre.wf(),
                e <= n,
                n == pre.n(),
                *self == (World { combat_stats: self.combat_stats,
                    suffer_damage: self.suffer_damage, ..pre }),
                forall|k: int|
                    0 <= k < e ==> (#[trigger] self.suffer_damage@[k])@.len() == 0,
                forall|k: int|
                    e <= k < n ==> #[trigger] self.suffer_damage@[k] == pre.suffer_damage@[k],
                forall|k: int|
                    e <= k < n ==> #[trigger] self.combat_stats@[k] == pre.combat_stats@[k],
                forall|k: int|
                    0 <= k < e && pre.combat_stats@[k] is Some
                        ==> (#[trigger] self.combat_stats@[k]) == Some(
                            CombatStats {
                                hp: clamp0(
                                    pre.combat_stats@[k].unwrap().hp - sum_damage(
                                        pre.suffer_damage@[k]@,
                                        pre.suffer_damage@[k]@.len() as int,
                                    ),
                                ) as i32,
                                ..pre.combat_stats@[k].unwrap()
                            },
                        ),
                forall|k: int|
                    0 <= k < e && pre.combat_stats@[k] is None
                        ==> (#[trigger] self.combat_stats@[k]) is None,
            decreases n - e,
        {
            if let Some(stats) = self.combat_stats[e] {
                let ghost q = self.suffer_damage@[e as int]@;
                let mut hp = stats.hp;
                let len = self.suffer_damage[e].len();
                let mut k: usize = 0;
                while k < len
                    invariant
                        self.wf(),
                        e < n,
                        n == self.n(),
                        k <= len,
                        len == self.suffer_damage@[e as int]@.len(),
                        q == self.suffer_damage@[e as int]@,
                        hp == clamp0(stats.hp - sum_damage(q, k as int)),
                        0 <= hp <= stats.max_hp,
                        stats.max_hp <= crate::world::STAT_BOUND,
                        self.combat_stats@[e as int] == Some(stats),
                        0 <= stats.hp <= stats.max_hp,
                    decreases len - k,
                {
                    let d = self.suffer_damage[e][k];
                    proof {
                        assert(0 <= self.suffer_damage@[e as int]@[k as int]
                            <= crate::world::STAT_BOUND);
                    }
                    hp = if hp > d { hp - d } else { 0 };
                    k = k + 1;
                }
                self.combat_stats[e] = Some(CombatStats { hp, ..stats });
                let empty_damage: Vec<i32> = Vec::new();
                self.suffer_damage[e] = empty_damage;
            } else {
                let empty_damage: Vec<i32> = Vec::new();
                self.suffer_damage[e] = empty_damage;
            }
            e = e + 1;
        }
    }

    /// An entity dead at the end of a tick: it lives, carries stats, and
    /// its hit points are exhausted.
    pub open spec fn spec_dead(self, e: int) -> bool {
        &&& self.alive@[e]
        &&& self.combat_stats@[e] is Some
        &&& self.combat_stats@[e].unwrap().hp <= 0
    }

    /// Deletes every dead entity except the player.  Returns whether the
    /// player is dead, which the orchestrator surfaces as game over
    /// rather than treating as a deletion.
    pub fn delete_the_dead(&mut self) -> (player_dead: bool)
        requires
            old(self).wf(),
        ensures
            final(self).wf(),
            player_dead == old(self).spec_dead(old(self).player as int),
            purge_rel(*old(self), *final(self)),
    {
        let ghost pre = *self;
        let n = self.alive.len();
        let mut player_dead = false;
        let mut e: usize = 0;
        while e < n
            invariant
                self.wf(),
                pre.wf(),
                e <= n,
                n == pre.n(),
                self.player == pre.player,
                self.map == pre.map,
                self.run_state == pre.run_state,
                self.log.entries == pre.log.entries,
                self.n() == pre.n(),
                player_dead == (pre.spec_dead(pre.player as int) && pre.player < e),
                forall|k: int|
                    0 <= k < n
                        ==> (#[trigger] self.alive@[k] == (pre.alive@[k] && !(pre.spec_dead(k)
                            && k != pre.player as int && k < e))),
                dead_pass_keeps(pre, *self, e as int),
            decreases n - e,
        {
            let dead = if self.alive[e] {
                match self.combat_stats[e] {
                    Some(s) => s.hp <= 0,
                    None => false,
                }
            } else {
                false
            };
            let ghost prev = *self;
            if dead {
                if e == self.player {
                    player_dead = true;
                } else {
                    self.delete_entity(e);
                }
            }
            proof {
                assert forall|k: int|
                    0 <= k < pre.n() && !(pre.spec_dead(k) && k != pre.player as int
                        && k < e + 1)
                    implies #[trigger] self.positions@[k] == pre.positions@[k]
                        && self.combat_stats@[k] == pre.combat_stats@[k]
                        && self.in_backpack@[k] == pre.in_backpack@[k]
                        && self.monsters@[k] == pre.monsters@[k]
                        && self.items@[k] == pre.items@[k]
                        && self.consumables@[k] == pre.consumables@[k]
                        && self.viewsheds@[k] == pre.viewsheds@[k]
                        && self.names@[k] == pre.names@[k]
                        && self.provides_healing@[k] == pre.provides_healing@[k]
                        && self.inflicts_damage@[k] == pre.inflicts_damage@[k]
                        && self.ranged@[k] == pre.ranged@[k]
                        && self.aoe@[k] == pre.aoe@[k]
                        && self.wants_to_melee@[k] == pre.wants_to_melee@[k]
                        && self.wants_to_pickup@[k] == pre.wants_to_pickup@[k]
                        && self.wants_to_drop@[k] == pre.wants_to_drop@[k]
                        && self.wants_to_use@[k] == pre.wants_to_use@[k] by {
                    assert(self.alive@[k] == prev.alive@[k]);
                    assert(!(pre.spec_dead(k) && k != pre.player as int && k < e));
                    assert(prev.positions@[k] == pre.positions@[k]);
                }
                assert(dead_pass_keeps(pre, *self, e as int + 1));
            }
            e = e + 1;
        }
        player_dead
    }
}

} // verus!
