//! Melee combat: turning the intent to attack into damage that waits on the
//! defender.

use crate::arith::{clamp_i32, saturate};
use crate::components::{pending_damage, CombatStats, SufferDamage, WantsToMelee};
use crate::ecs::Entity;
use crate::world::World;
use vstd::prelude::*;

verus! {

/// The damage of one blow: the attacker's power less the defender's
/// defense, and never less than nothing.
pub open spec fn melee_damage(attacker: CombatStats, defender: CombatStats) -> i32 {
    if attacker.power - defender.defense > 0 {
        clamp_i32(attacker.power - defender.defense)
    } else {
        0
    }
}

/// Whether live entity `a` lands a blow on `victim`: it means to attack it,
/// both have combat stats, and the blow does damage.
pub open spec fn strikes(w: World, a: int, victim: int) -> bool {
    &&& 0 <= a < w.entities.alive@.len()
    &&& w.entities.alive@[a]
    &&& w.wants_to_melee@.contains_key(a)
    &&& w.wants_to_melee@[a].target.key() == victim
    &&& w.combat_stats@.contains_key(a)
    &&& w.combat_stats@.contains_key(victim)
    &&& melee_damage(w.combat_stats@[a], w.combat_stats@[victim]) > 0
}

/// The blows that land on `victim` from the first `n` entities, in the
/// order of the attackers' identities.
pub open spec fn melee_hits(w: World, n: int, victim: int) -> Seq<i32>
    decreases n,
{
    if n <= 0 {
        Seq::empty()
    } else if strikes(w, n - 1, victim) {
        melee_hits(w, n - 1, victim).push(
            melee_damage(w.combat_stats@[n - 1], w.combat_stats@[victim]),
        )
    } else {
        melee_hits(w, n - 1, victim)
    }
}

/// The system that resolves the intents to attack.
pub struct MeleeCombatSystem {}

impl MeleeCombatSystem {
    /// What resolving the intents to attack does to the world.
    pub open spec fn ran(pre: World, post: World) -> bool {
        &&& post.wants_to_melee@ == Map::<int, WantsToMelee>::empty()
        &&& forall|k: int|
            #![trigger post.suffer_damage@[k]]
            #![trigger post.suffer_damage@.contains_key(k)]
            {
                &&& pending_damage(post.suffer_damage@, k) == pending_damage(
                    pre.suffer_damage@,
                    k,
                ) + melee_hits(pre, pre.wants_to_melee.bound(), k)
                &&& post.suffer_damage@.contains_key(k) <==> pre.suffer_damage@.contains_key(k) || melee_hits(
                    pre,
                    pre.wants_to_melee.bound(),
                    k,
                ).len() > 0
            }
        &&& post == (World {
            wants_to_melee: post.wants_to_melee,
            suffer_damage: post.suffer_damage,
            ..pre
        })
    }

    /// The damage that `attacker` does to `defender` with one blow.
    pub fn damage(attacker: &CombatStats, defender: &CombatStats) -> (d: i32)
        ensures
            d == melee_damage(*attacker, *defender),
    {
        let raw: i128 = attacker.power as i128 - defender.defense as i128;
        if raw > 0 {
            saturate(raw)
        } else {
            0
        }
    }

    /// Resolves every intent to attack: each blow that does damage is added
    /// to what waits on the defender, after the blows that were there.
    /// Then all such intents are forgotten. An intent whose attacker or
    /// target has no combat stats does nothing.
    pub fn run(&mut self, world: &mut World)
        ensures
            Self::ran(*old(world), *final(world)),
    {
        let n: usize = world.wants_to_melee.limit();
        let mut i: usize = 0;
        while i < n
            invariant
                i <= n,
                n == old(world).wants_to_melee.bound(),
                *world == (World { suffer_damage: world.suffer_damage, ..*old(world) }),
                forall|k: int|
                    #![trigger world.suffer_damage@[k]]
                    #![trigger world.suffer_damage@.contains_key(k)]
                    {
                        &&& pending_damage(world.suffer_damage@, k) == pending_damage(
                            old(world).suffer_damage@,
                            k,
                        ) + melee_hits(*old(world), i as int, k)
                        &&& world.suffer_damage@.contains_key(k) <==> old(world).suffer_damage@.contains_key(k) || melee_hits(
                            *old(world),
                            i as int,
                            k,
                        ).len() > 0
                    },
            decreases n - i,
        {
            let attacker = Entity { id: i };
            let ghost before = world.suffer_damage@;
            let mut blow: Option<(Entity, i32)> = None;
            if world.entities.is_alive(attacker) {
                if let Some(intent) = world.wants_to_melee.get(attacker) {
                    let target = intent.target;
                    if let Some(stats) = world.combat_stats.get(attacker) {
                        if let Some(target_stats) = world.combat_stats.get(target) {
                            let damage = MeleeCombatSystem::damage(stats, target_stats);
                            if damage > 0 {
                                blow = Some((target, damage));
                            }
                        }
                    }
                }
            }
            if let Some((target, damage)) = blow {
                SufferDamage::new_damage(&mut world.suffer_damage, target, damage);
                proof {
                    assert forall|k: int|
                        #![trigger world.suffer_damage@[k]]
                        #![trigger world.suffer_damage@.contains_key(k)]
                        {
                            &&& pending_damage(world.suffer_damage@, k) == pending_damage(
                                old(world).suffer_damage@,
                                k,
                            ) + melee_hits(*old(world), i as int + 1, k)
                            &&& world.suffer_damage@.contains_key(k) <==> old(world).suffer_damage@.contains_key(k) || melee_hits(
                                *old(world),
                                i as int + 1,
                                k,
                            ).len() > 0
                        } by {
                        let earlier = pending_damage(old(world).suffer_damage@, k);
                        let blows = melee_hits(*old(world), i as int, k);
                        assert(pending_damage(before, k) == earlier + blows);
                        assert(before.contains_key(k) <==> old(world).suffer_damage@.contains_key(k) || blows.len() > 0);
                        if k == target.key() {
                            assert(strikes(*old(world), i as int, k));
                            assert((earlier + blows).push(damage) =~= earlier + blows.push(damage));
                        } else {
                            assert(!strikes(*old(world), i as int, k));
                            assert(world.suffer_damage@.remove(target.key()).contains_key(k)
                                == before.remove(target.key()).contains_key(k));
                            assert(world.suffer_damage@.remove(target.key())[k] == before.remove(
                                target.key(),
                            )[k]);
                        }
                    }
                }
            } else {
                proof {
                    assert forall|k: int| !strikes(*old(world), i as int, k) by {}
                }
            }
            i = i + 1;
        }
        world.wants_to_melee.clear();
    }
}

} // verus!
