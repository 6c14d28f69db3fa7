//! Monster behaviour: a monster that sees the player attacks when next to
//! it and otherwise takes one step along a path towards it. Finding the
//! path is left to the caller.

use crate::components::{Coord, Position, WantsToMelee};
use crate::ecs::Entity;
use crate::map::{lemma_cell_index, lemma_index_cell, TileMap};
use crate::state::RunState;
use crate::world::World;
use vstd::prelude::*;

verus! {

/// The answer to a request for a path: whether one was found, and its
/// tiles by index, the starting tile first.
#[derive(Clone, Debug, PartialEq, Eq)]
pub struct NavigationPath {
    pub destination: usize,
    pub success: bool,
    pub steps: Vec<usize>,
}

/// What a monster does on its turn.
#[derive(Clone, Copy, Debug, PartialEq, Eq, Structural)]
pub enum Decision {
    /// Nothing.
    Idle,
    /// It attacks the player.
    Attack,
    /// It makes for the player along a path from the tile with index `from`
    /// to the tile with index `to`.
    Approach { from: usize, to: usize },
}

/// Whether `(ax, ay)` and `(bx, by)` are less than one and a half tiles
/// apart: the square of their distance is at most two.
pub open spec fn adjacent(ax: int, ay: int, bx: int, by: int) -> bool {
    (ax - bx) * (ax - bx) + (ay - by) * (ay - by) <= 2
}

/// Whether `(ax, ay)` and `(bx, by)` are distinct tiles that touch, by a
/// side or a corner.
pub open spec fn one_step(ax: int, ay: int, bx: int, by: int) -> bool {
    -1 <= ax - bx <= 1 && -1 <= ay - by <= 1 && !(ax == bx && ay == by)
}

/// Two tiles are less than one and a half tiles apart exactly if they
/// are the same or touch.
pub proof fn lemma_adjacent(ax: int, ay: int, bx: int, by: int)
    ensures
        adjacent(ax, ay, bx, by) <==> -1 <= ax - bx <= 1 && -1 <= ay - by <= 1,
{
    let dx = ax - bx;
    let dy = ay - by;
    assert(dx * dx + dy * dy <= 2 <==> -1 <= dx <= 1 && -1 <= dy <= 1) by (nonlinear_arith);
}

/// Whether live monster `k` acts: it is the monsters' turn, its view is up
/// to date, and it sees the tile where the player was last known to be.
pub open spec fn can_act(w: World, k: int) -> bool {
    &&& w.run_state == RunState::MonsterTurn
    &&& 0 <= k < w.entities.alive@.len()
    &&& w.entities.alive@[k]
    &&& w.monsters@.contains_key(k)
    &&& w.viewsheds@.contains_key(k)
    &&& w.positions@.contains_key(k)
    &&& !w.viewsheds@[k].dirty
    &&& w.viewsheds@[k].visible_tiles@.contains(w.player_pos)
}

/// What monster `k` does on its turn: it attacks a player next to it, and
/// makes for a player further off if both stand on the map.
pub open spec fn decision_of(w: World, k: int) -> Decision {
    if !can_act(w, k) {
        Decision::Idle
    } else if adjacent(
        w.positions@[k].x as int,
        w.positions@[k].y as int,
        w.player_pos.x as int,
        w.player_pos.y as int,
    ) {
        Decision::Attack
    } else if w.map.in_bounds(w.positions@[k].x as int, w.positions@[k].y as int)
        && w.map.in_bounds(w.player_pos.x as int, w.player_pos.y as int) {
        Decision::Approach {
            from: w.map.index_of(w.positions@[k].x as int, w.positions@[k].y as int) as usize,
            to: w.map.index_of(w.player_pos.x as int, w.player_pos.y as int) as usize,
        }
    } else {
        Decision::Idle
    }
}

/// Whether the first step of `path` can be taken from `at` on map `m`:
/// the path was found and has a step, and that step leads from `at`, a
/// tile of the map, to a touching tile of the map that nothing blocks.
pub open spec fn step_ok(m: TileMap, at: Position, path: NavigationPath) -> bool {
    &&& m.in_bounds(at.x as int, at.y as int)
    &&& path.success
    &&& path.steps@.len() > 1
    &&& path.steps@[1] < m.tiles@.len()
    &&& !m.blocked@[path.steps@[1] as int]
    &&& one_step(
        (path.steps@[1] as int) % (m.width as int),
        (path.steps@[1] as int) / (m.width as int),
        at.x as int,
        at.y as int,
    )
}

/// Whether monster `k` takes the first step of `path`: it has a position,
/// and the step can be taken from there.
pub open spec fn takes_step(w: World, k: int, path: NavigationPath) -> bool {
    w.positions@.contains_key(k) && step_ok(w.map, w.positions@[k], path)
}

/// The tile that the first step of `path` leads to on a map of the given
/// width.
pub open spec fn step_on(width: i32, path: NavigationPath) -> Position {
    Position {
        x: ((path.steps@[1] as int) % (width as int)) as i32,
        y: ((path.steps@[1] as int) / (width as int)) as i32,
    }
}

/// The tile that the first step of `path` leads to.
pub open spec fn step_target(w: World, path: NavigationPath) -> Position {
    step_on(w.map.width, path)
}

/// Whether `post` shows entity `k` moved to `to` and otherwise as it was
/// in `pre`, but for its view, which is stale.
pub open spec fn stepped_to(pre: World, post: World, k: int, to: Position) -> bool {
    &&& post.positions@.contains_key(k)
    &&& post.positions@[k] == to
    &&& post.viewsheds@.contains_key(k)
    &&& post.viewsheds@[k].dirty
    &&& post.viewsheds@[k].range == pre.viewsheds@[k].range
    &&& post.viewsheds@[k].visible_tiles == pre.viewsheds@[k].visible_tiles
    &&& post.wants_to_melee@.contains_key(k) == pre.wants_to_melee@.contains_key(k)
    &&& pre.wants_to_melee@.contains_key(k) ==> post.wants_to_melee@[k] == pre.wants_to_melee@[k]
}

/// Whether `post` shows a monster `k` that makes for the player as it is
/// after following a path that `find_path` gave it. The path was asked
/// for on the map as the monsters before it had left it, which is the map
/// of `pre` but for what is blocked. Where the first step of the path can
/// be taken on that map, the monster has taken it; where not, it is as it
/// was.
pub open spec fn followed<F: Fn(&TileMap, usize, usize) -> NavigationPath>(
    pre: World,
    post: World,
    k: int,
    find_path: F,
) -> bool {
    match decision_of(pre, k) {
        Decision::Approach { from, to } => exists|m: TileMap, path: NavigationPath|
            {
                &&& #[trigger] find_path.ensures((&m, from, to), path)
                &&& m == (TileMap { blocked: m.blocked, ..pre.map })
                &&& if step_ok(m, pre.positions@[k], path) {
                    stepped_to(pre, post, k, step_on(m.width, path))
                } else {
                    untouched(pre, post, k)
                }
            },
        _ => true,
    }
}

/// Whether `post` differs from `pre` in nothing but what the monsters'
/// turn changes: where entities stand, which views are stale, who means
/// to attack, and which tiles are blocked.
pub open spec fn only_moves_differ(pre: World, post: World) -> bool {
    &&& post == (World {
        positions: post.positions,
        viewsheds: post.viewsheds,
        wants_to_melee: post.wants_to_melee,
        map: post.map,
        ..pre
    })
    &&& post.map == (TileMap { blocked: post.map.blocked, ..pre.map })
    &&& post.map.blocked@.len() == pre.map.blocked@.len()
}

/// The system that lets the monsters act.
pub struct MonsterAI {}

impl MonsterAI {
    /// What holds of the world after the monsters' turn, whatever paths were found.
    pub open spec fn ran(pre: World, post: World) -> bool {
        &&& post.map.wf()
        &&& only_moves_differ(pre, post)
        &&& post.positions@.dom() == pre.positions@.dom()
        &&& post.viewsheds@.dom() == pre.viewsheds@.dom()
        &&& forall|k: int| #[trigger] acted(pre, post, k)
    }

    /// What `monster` does on its turn.
    pub fn decide(world: &World, monster: Entity) -> (d: Decision)
        requires
            world.map.wf(),
        ensures
            d == decision_of(*world, monster.key()),
    {
        if !(world.run_state == RunState::MonsterTurn) || !world.entities.is_alive(monster)
            || !world.monsters.contains(monster) {
            return Decision::Idle;
        }
        let place: Option<(i32, i32)> = match world.positions.get(monster) {
            Some(p) => Some((p.x, p.y)),
            None => None,
        };
        let sees_player: bool = match world.viewsheds.get(monster) {
            Some(v) => !v.dirty && holds(&v.visible_tiles, world.player_pos),
            None => false,
        };
        if place.is_none() || !sees_player {
            return Decision::Idle;
        }
        let (x, y) = place.unwrap();
        let dx: i64 = x as i64 - world.player_pos.x as i64;
        let dy: i64 = y as i64 - world.player_pos.y as i64;
        proof {
            lemma_adjacent(
                x as int,
                y as int,
                world.player_pos.x as int,
                world.player_pos.y as int,
            );
        }
        if -1 <= dx && dx <= 1 && -1 <= dy && dy <= 1 {
            Decision::Attack
        } else if world.map.contains(x, y) && world.map.contains(
            world.player_pos.x,
            world.player_pos.y,
        ) {
            Decision::Approach {
                from: world.map.xy_index(x, y),
                to: world.map.xy_index(world.player_pos.x, world.player_pos.y),
            }
        } else {
            Decision::Idle
        }
    }

    /// `monster` means to attack the player.
    pub fn attack(world: &mut World, monster: Entity)
        ensures
            final(world).wants_to_melee@ == old(world).wants_to_melee@.insert(
                monster.key(),
                WantsToMelee { target: old(world).player_entity },
            ),
            *final(world) == (World {
                wants_to_melee: final(world).wants_to_melee,
                ..*old(world)
            }),
    {
        let target = world.player_entity;
        world.wants_to_melee.insert(monster, WantsToMelee { target });
    }

    /// `monster` takes the first step of `path`, if `takes_step` allows it:
    /// it leaves its tile unblocked, blocks the one it steps on, and its
    /// view becomes stale. Returns whether it moved.
    pub fn approach(world: &mut World, monster: Entity, path: &NavigationPath) -> (moved: bool)
        requires
            old(world).map.wf(),
        ensures
            moved == takes_step(*old(world), monster.key(), *path),
            !moved ==> *final(world) == *old(world),
            moved ==> {
                let k = monster.key();
                let from = old(world).map.index_of(
                    old(world).positions@[k].x as int,
                    old(world).positions@[k].y as int,
                );
                &&& final(world).positions@ == old(world).positions@.insert(
                    k,
                    step_target(*old(world), *path),
                )
                &&& final(world).map.blocked@ == old(world).map.blocked@.update(from, false).update(
                    path.steps@[1] as int,
                    true,
                )
                &&& final(world).viewsheds@.dom() == old(world).viewsheds@.dom()
                &&& forall|j: int|
                    j != k && old(world).viewsheds@.contains_key(j) ==> #[trigger] final(world).viewsheds@[j] == old(world).viewsheds@[j]
                &&& old(world).viewsheds@.contains_key(k) ==> {
                    &&& final(world).viewsheds@[k].dirty
                    &&& final(world).viewsheds@[k].range == old(world).viewsheds@[k].range
                    &&& final(world).viewsheds@[k].visible_tiles == old(world).viewsheds@[k].visible_tiles
                }
            },
            final(world).map.wf(),
            only_moves_differ(*old(world), *final(world)),
            final(world).wants_to_melee == old(world).wants_to_melee,
    {
        let place: Option<(i32, i32)> = match world.positions.get(monster) {
            Some(p) => Some((p.x, p.y)),
            None => None,
        };
        if place.is_none() || !path.success || path.steps.len() <= 1 {
            return false;
        }
        let (x, y) = place.unwrap();
        let next: usize = path.steps[1];
        if !world.map.contains(x, y) || next >= world.map.tiles.len() || world.map.blocked[next] {
            return false;
        }
        let (nx, ny) = world.map.index_to_point(next);
        proof {
            lemma_cell_index(
                world.map.width as int,
                world.map.height as int,
                nx as int,
                ny as int,
            );
        }
        let dx: i32 = nx - x;
        let dy: i32 = ny - y;
        if !(-1 <= dx && dx <= 1 && -1 <= dy && dy <= 1) || (dx == 0 && dy == 0) {
            return false;
        }
        let from: usize = world.map.xy_index(x, y);
        world.map.blocked[from] = false;
        world.positions.insert(monster, Position { x: nx, y: ny });
        world.map.blocked[next] = true;
        let ghost before = world.viewsheds@;
        if let Some(viewshed) = world.viewsheds.get_mut(monster) {
            viewshed.dirty = true;
        }
        assert(world.viewsheds@.dom() =~= before.dom());
        true
    }

    /// Lets every monster act, in the order of their identities. Each acts
    /// on the world as the monsters before it left it, and asks
    /// `find_path` for the path it needs. Nothing is assumed of the paths
    /// that come back: a step is taken where `takes_step` allows it, and
    /// only there.
    pub fn run<F: Fn(&TileMap, usize, usize) -> NavigationPath>(
        &mut self,
        world: &mut World,
        find_path: &F,
    )
        requires
            old(world).map.wf(),
            forall|m: &TileMap, from: usize, to: usize| find_path.requires((m, from, to)),
        ensures
            Self::ran(*old(world), *final(world)),
            forall|k: int| #[trigger] followed(*old(world), *final(world), k, *find_path),
    {
        let n: usize = world.monsters.limit();
        let mut i: usize = 0;
        while i < n
            invariant
                i <= n,
                n == old(world).monsters.bound(),
                world.map.wf(),
                only_moves_differ(*old(world), *world),
                world.positions@.dom() == old(world).positions@.dom(),
                world.viewsheds@.dom() == old(world).viewsheds@.dom(),
                forall|m: &TileMap, from: usize, to: usize| find_path.requires((m, from, to)),
                forall|k: int| k < i ==> #[trigger] acted(*old(world), *world, k),
                forall|k: int| k < i ==> #[trigger] followed(*old(world), *world, k, *find_path),
                forall|k: int| i <= k ==> #[trigger] untouched(*old(world), *world, k),
            decreases n - i,
        {
            let monster = Entity { id: i };
            let ghost before = *world;
            assert(untouched(*old(world), before, i as int));
            assert(can_act(before, i as int) == can_act(*old(world), i as int));
            let decision = MonsterAI::decide(world, monster);
            match decision {
                Decision::Idle => {},
                Decision::Attack => {
                    MonsterAI::attack(world, monster);
                },
                Decision::Approach { from, to } => {
                    let path = find_path(&world.map, from, to);
                    let moved = MonsterAI::approach(world, monster, &path);
                    assert(world.positions@.dom() =~= old(world).positions@.dom());
                    proof {
                        assert(find_path.ensures((&before.map, from, to), path));
                        assert(moved == step_ok(before.map, old(world).positions@[i as int], path));
                        if moved {
                            let w = before.map.width as int;
                            let h = before.map.height as int;
                            assert(w > 0) by (nonlinear_arith)
                                requires
                                    0 < w * h,
                                    0 <= w,
                            ;
                            lemma_index_cell(w, h, path.steps@[1] as int);
                            assert(acted(*old(world), *world, i as int));
                        } else {
                            assert(untouched(*old(world), *world, i as int));
                        }
                    }
                },
            }
            proof {
                assert forall|k: int| k < i + 1 implies #[trigger] acted(
                    *old(world),
                    *world,
                    k,
                ) by {
                    if k < i {
                        assert(acted(*old(world), before, k));
                        assert(world.positions@.contains_key(k) == before.positions@.contains_key(
                            k,
                        ));
                        assert(world.viewsheds@.contains_key(k) == before.viewsheds@.contains_key(
                            k,
                        ));
                        if before.positions@.contains_key(k) {
                            assert(world.positions@[k] == before.positions@[k]);
                        }
                        if before.viewsheds@.contains_key(k) {
                            assert(world.viewsheds@[k] == before.viewsheds@[k]);
                        }
                    } else {
                        assert(decision_of(before, k) == decision_of(*old(world), k));
                    }
                }
                assert forall|k: int| i + 1 <= k implies #[trigger] untouched(
                    *old(world),
                    *world,
                    k,
                ) by {
                    assert(untouched(*old(world), before, k));
                }
                assert forall|k: int| k < i + 1 implies #[trigger] followed(
                    *old(world),
                    *world,
                    k,
                    *find_path,
                ) by {
                    if let Decision::Approach { from, to } = decision_of(*old(world), k) {
                        if k < i {
                            assert(followed(*old(world), before, k, *find_path));
                            let (m, path) = choose|m: TileMap, path: NavigationPath|
                                {
                                    &&& #[trigger] find_path.ensures((&m, from, to), path)
                                    &&& m == (TileMap { blocked: m.blocked, ..old(world).map })
                                    &&& if step_ok(m, old(world).positions@[k], path) {
                                        stepped_to(
                                            *old(world),
                                            before,
                                            k,
                                            step_on(m.width, path),
                                        )
                                    } else {
                                        untouched(*old(world), before, k)
                                    }
                                };
                            assert(acted(*old(world), before, k));
                            assert(acted(*old(world), *world, k));
                            assert(find_path.ensures((&m, from, to), path));
                        } else {
                            assert(decision_of(before, k) == decision_of(*old(world), k));
                        }
                    }
                }
            }
            i = i + 1;
        }
        proof {
            assert forall|k: int| #[trigger] acted(*old(world), *world, k) by {
                if k >= n {
                    assert(untouched(*old(world), *world, k));
                }
            }
            assert forall|k: int| #[trigger] followed(*old(world), *world, k, *find_path) by {
                if k >= n {
                    assert(!old(world).monsters@.contains_key(k));
                }
            }
        }
    }
}

/// Whether `tiles` holds `p`.
fn holds(tiles: &Vec<Coord>, p: Coord) -> (r: bool)
    ensures
        r == tiles@.contains(p),
{
    let mut j: usize = 0;
    while j < tiles.len()
        invariant
            j <= tiles@.len(),
            forall|a: int| 0 <= a < j ==> tiles@[a] != p,
        decreases tiles@.len() - j,
    {
        if tiles[j] == p {
            return true;
        }
        j = j + 1;
    }
    false
}

/// Whether the monsters' turn has left entity `k` as it was.
pub open spec fn untouched(pre: World, post: World, k: int) -> bool {
    &&& post.positions@.contains_key(k) == pre.positions@.contains_key(k)
    &&& pre.positions@.contains_key(k) ==> post.positions@[k] == pre.positions@[k]
    &&& post.viewsheds@.contains_key(k) == pre.viewsheds@.contains_key(k)
    &&& pre.viewsheds@.contains_key(k) ==> post.viewsheds@[k] == pre.viewsheds@[k]
    &&& post.wants_to_melee@.contains_key(k) == pre.wants_to_melee@.contains_key(k)
    &&& pre.wants_to_melee@.contains_key(k) ==> post.wants_to_melee@[k] == pre.wants_to_melee@[k]
}

/// Whether `post` shows entity `k` as its turn may have left it. An entity
/// that does not act is as it was. A monster next to the player means to
/// attack it, and stays. Any other monster that acts has either stayed as
/// it was, or has moved to a touching tile of the map and its view is
/// stale.
pub open spec fn acted(pre: World, post: World, k: int) -> bool {
    match decision_of(pre, k) {
        Decision::Idle => untouched(pre, post, k),
        Decision::Attack => {
            &&& post.wants_to_melee@.contains_key(k)
            &&& post.wants_to_melee@[k] == (WantsToMelee { target: pre.player_entity })
            &&& post.positions@.contains_key(k)
            &&& post.positions@[k] == pre.positions@[k]
            &&& post.viewsheds@.contains_key(k)
            &&& post.viewsheds@[k] == pre.viewsheds@[k]
        },
        Decision::Approach { from, to } => {
            ||| untouched(pre, post, k)
            ||| {
                &&& post.positions@.contains_key(k)
                &&& pre.map.in_bounds(post.positions@[k].x as int, post.positions@[k].y as int)
                &&& one_step(
                    post.positions@[k].x as int,
                    post.positions@[k].y as int,
                    pre.positions@[k].x as int,
                    pre.positions@[k].y as int,
                )
                &&& post.viewsheds@.contains_key(k)
                &&& post.viewsheds@[k].dirty
                &&& post.wants_to_melee@.contains_key(k) == pre.wants_to_melee@.contains_key(k)
                &&& pre.wants_to_melee@.contains_key(k) ==> post.wants_to_melee@[k]
                    == pre.wants_to_melee@[k]
            }
        },
    }
}

} // verus!
