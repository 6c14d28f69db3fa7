//! Applying the damage that waits on each entity, and sweeping away those
//! whose health has run out.

use crate::arith::{clamp_i32, saturate, sum, total};
use crate::components::{pending_damage, CombatStats, SufferDamage};
use crate::ecs::{entity_keys, lemma_entity_keys_empty, lemma_entity_keys_push, Entity};
use crate::gamelog::LogEntry;
use crate::state::RunState;
use crate::world::World;
use vstd::prelude::*;

verus! {

/// The stats of an entity once the given hits have been taken from its
/// health in one step.
pub open spec fn damaged(stats: CombatStats, hits: Seq<i32>) -> CombatStats {
    CombatStats { hp: clamp_i32(stats.hp - total(hits)), ..stats }
}

/// The system that applies waiting damage.
pub struct DamageSystem {}

impl DamageSystem {
    /// What applying the waiting damage does to the world.
    pub open spec fn ran(pre: World, post: World) -> bool {
        &&& post.suffer_damage@ == Map::<int, SufferDamage>::empty()
        &&& post.combat_stats@.dom() == pre.combat_stats@.dom()
        &&& forall|k: int|
            pre.combat_stats@.contains_key(k) ==> #[trigger] post.combat_stats@[k] == damaged(
                pre.combat_stats@[k],
                pending_damage(pre.suffer_damage@, k),
            )
        &&& post == (World {
            combat_stats: post.combat_stats,
            suffer_damage: post.suffer_damage,
            ..pre
        })
    }

    /// Takes from the health of every entity the sum of the damage that
    /// waits on it, then forgets all waiting damage, applied or not.
    pub fn run(&mut self, world: &mut World)
        ensures
            Self::ran(*old(world), *final(world)),
    {
        let n: usize = world.combat_stats.limit();
        let mut i: usize = 0;
        while i < n
            invariant
                i <= n,
                n == world.combat_stats.bound(),
                world.combat_stats@.dom() == old(world).combat_stats@.dom(),
                forall|k: int|
                    0 <= k < i && old(world).combat_stats@.contains_key(k)
                        ==> #[trigger] world.combat_stats@[k] == damaged(
                        old(world).combat_stats@[k],
                        pending_damage(old(world).suffer_damage@, k),
                    ),
                forall|k: int|
                    i <= k && old(world).combat_stats@.contains_key(k)
                        ==> #[trigger] world.combat_stats@[k] == old(world).combat_stats@[k],
                *world == (World { combat_stats: world.combat_stats, ..*old(world) }),
            decreases n - i,
        {
            let e = Entity { id: i };
            let hits: i128 = match world.suffer_damage.get(e) {
                Some(suffering) => sum(&suffering.amount),
                None => 0,
            };
            proof {
                assert(total(Seq::<i32>::empty()) == 0);
            }
            let ghost before = world.combat_stats@;
            if let Some(stats) = world.combat_stats.get_mut(e) {
                stats.hp = saturate(stats.hp as i128 - hits);
            }
            proof {
                assert(world.combat_stats@.dom() =~= before.dom());
            }
            i = i + 1;
        }
        world.suffer_damage.clear();
    }
}

/// Whether `k` is a live entity whose health has fallen below one.
pub open spec fn is_dead(w: World, k: int) -> bool {
    &&& 0 <= k < w.entities.alive@.len()
    &&& w.entities.alive@[k]
    &&& w.combat_stats@.contains_key(k)
    &&& w.combat_stats@[k].hp < 1
}

/// The dead that are swept away: all of them but the player.
pub open spec fn victims(w: World) -> Set<int> {
    Set::new(|k: int| is_dead(w, k) && !w.players@.contains_key(k))
}

/// Whether a player is among the dead.
pub open spec fn player_died(w: World) -> bool {
    exists|k: int| #[trigger] is_dead(w, k) && w.players@.contains_key(k)
}

/// What the log is told of the dead among the first `n` entities, in the
/// order of their identities: of a player that it died, of another entity
/// its name, if it has one.
pub open spec fn death_notices(w: World, n: int) -> Seq<LogEntry>
    decreases n,
{
    if n <= 0 {
        Seq::empty()
    } else {
        let earlier = death_notices(w, n - 1);
        if !is_dead(w, n - 1) {
            earlier
        } else if w.players@.contains_key(n - 1) {
            earlier.push(LogEntry::PlayerDied)
        } else if w.names@.contains_key(n - 1) {
            earlier.push(LogEntry::Died { name: w.names@[n - 1].value })
        } else {
            earlier
        }
    }
}

/// What one sweep of the dead does to the world: every dead entity but the
/// player is gone with all its components, a dead player ends the game
/// instead, and the log tells of each.
pub open spec fn dead_swept(pre: World, post: World) -> bool {
    &&& post.purged(pre, victims(pre))
    &&& post.entities.alive@.len() == pre.entities.alive@.len()
    &&& forall|i: int|
        0 <= i < pre.entities.alive@.len() ==> #[trigger] post.entities.alive@[i] == (
        pre.entities.alive@[i] && !victims(pre).contains(i))
    &&& post.entities.doomed == pre.entities.doomed
    &&& post.run_state == if player_died(pre) {
        RunState::GameOver
    } else {
        pre.run_state
    }
    &&& post.log.entries@ == pre.log.entries@ + death_notices(
        pre,
        pre.combat_stats.bound(),
    )
    &&& post.map == pre.map
    &&& post.rng == pre.rng
    &&& post.player_pos == pre.player_pos
    &&& post.player_entity == pre.player_entity
}

/// Sweeps away the dead: first collects them, then removes them.
pub fn delete_the_dead(ecs: &mut World)
    ensures
        dead_swept(*old(ecs), *final(ecs)),
{
    let mut dead: Vec<Entity> = Vec::new();
    let mut game_over = false;
    let n: usize = ecs.combat_stats.limit();
    let mut i: usize = 0;
    proof {
        lemma_entity_keys_empty();
    }
    while i < n
        invariant
            i <= n,
            n == old(ecs).combat_stats.bound(),
            *ecs == (World { log: ecs.log, ..*old(ecs) }),
            ecs.log.entries@ == old(ecs).log.entries@ + death_notices(*old(ecs), i as int),
            game_over == (exists|k: int|
                0 <= k < i && #[trigger] is_dead(*old(ecs), k) && old(ecs).players@.contains_key(k)),
            forall|k: int|
                entity_keys(dead@).contains(k) <==> 0 <= k < i && victims(*old(ecs)).contains(k),
        decreases n - i,
    {
        let victim = Entity { id: i };
        let ghost before = dead@;
        let hp: Option<i32> = match ecs.combat_stats.get(victim) {
            Some(stats) => Some(stats.hp),
            None => None,
        };
        if ecs.entities.is_alive(victim) && hp.is_some() && hp.unwrap() < 1 {
            assert(is_dead(*old(ecs), i as int));
            if ecs.players.contains(victim) {
                ecs.log.entries.push(LogEntry::PlayerDied);
                game_over = true;
            } else {
                if let Some(victim_name) = ecs.names.get(victim) {
                    let name = victim_name.value.clone();
                    ecs.log.entries.push(LogEntry::Died { name });
                }
                dead.push(victim);
                proof {
                    lemma_entity_keys_push(before, victim);
                }
            }
        } else {
            assert(!is_dead(*old(ecs), i as int));
        }
        i = i + 1;
    }
    proof {
        assert(entity_keys(dead@) =~= victims(*old(ecs)));
    }
    ecs.delete_entities(&dead);
    if game_over {
        ecs.run_state = RunState::GameOver;
    }
}

/// A second sweep finds nothing to do: once the dead are swept away, none
/// is left to be removed, and no entity or component changes.
pub proof fn lemma_second_sweep_removes_nothing(pre: World, mid: World, post: World)
    requires
        dead_swept(pre, mid),
        dead_swept(mid, post),
    ensures
        victims(mid) == Set::<int>::empty(),
        post.entities.alive@ == mid.entities.alive@,
        post.same_components(mid),
{
    assert forall|k: int| !victims(mid).contains(k) by {
        if victims(mid).contains(k) {
            assert(mid.entities.alive@[k]);
            assert(!victims(pre).contains(k));
            assert(pre.combat_stats@.remove_keys(victims(pre)).contains_key(k));
            assert(pre.players@.contains_key(k) == mid.players@.contains_key(k));
            assert(is_dead(pre, k));
        }
    }
    assert(victims(mid) =~= Set::<int>::empty());
    World::lemma_purged_none(mid);
    assert(post.entities.alive@ =~= mid.entities.alive@);
}

} // verus!
