//! Visibility: bringing stale viewsheds up to date and, for the player,
//! marking on the map what is seen now and what has ever been seen.

use crate::components::{Coord, Viewshed};
use crate::ecs::Entity;
use crate::fov::{can_look, field_of_view, visible_from, MAX_VIEW_RANGE};
use crate::map::{lemma_cell_index, lemma_index_cell, TileMap};
use crate::world::World;
use vstd::prelude::*;

verus! {

/// Those of `seen` that lie on the map, in the order of `seen`.
pub open spec fn on_map(map: &TileMap, seen: Seq<Coord>) -> Seq<Coord>
    decreases seen.len(),
{
    if seen.len() == 0 {
        Seq::empty()
    } else if map.in_bounds(seen.last().x as int, seen.last().y as int) {
        on_map(map, seen.drop_last()).push(seen.last())
    } else {
        on_map(map, seen.drop_last())
    }
}

/// Whether one of `tiles` lies on the map and has the index `idx`.
pub open spec fn marks(map: &TileMap, tiles: Seq<Coord>, idx: int) -> bool {
    exists|j: int|
        0 <= j < tiles.len() && map.in_bounds((#[trigger] tiles[j]).x as int, tiles[j].y as int)
            && map.index_of(tiles[j].x as int, tiles[j].y as int) == idx
}

/// Whether live entity `k` has a stale viewshed that can be brought up to
/// date: it stands on the map and its range is within limits.
pub open spec fn looks(w: World, k: int) -> bool {
    &&& 0 <= k < w.entities.alive@.len()
    &&& w.entities.alive@[k]
    &&& w.viewsheds@.contains_key(k)
    &&& w.positions@.contains_key(k)
    &&& w.viewsheds@[k].dirty
    &&& can_look(
        &w.map,
        w.positions@[k].x as int,
        w.positions@[k].y as int,
        w.viewsheds@[k].range as int,
    )
}

/// Whether entity `k` sees tile `(x, y)` of the map from where it stands.
pub open spec fn sees(w: World, k: int, x: int, y: int) -> bool {
    w.map.in_bounds(x, y) && visible_from(
        w.positions@[k].x as int,
        w.positions@[k].y as int,
        w.viewsheds@[k].range as int,
        w.map.width as int,
        w.map.height as int,
        w.map.opacity(),
    ).contains((x, y))
}

/// Whether entity `k` sees the tile with index `idx`.
pub open spec fn sees_index(w: World, k: int, idx: int) -> bool {
    sees(w, k, idx % (w.map.width as int), idx / (w.map.width as int))
}

/// Whether entity `k` is a player whose view is brought up to date.
pub open spec fn player_looks(w: World, k: int) -> bool {
    looks(w, k) && w.players@.contains_key(k)
}

/// What the map shows as visible once the first `n` entities have looked:
/// what the last player among them sees, if there is one.
pub open spec fn visible_after(w: World, n: int) -> Seq<bool>
    decreases n,
{
    if n <= 0 {
        w.map.visible_tiles@
    } else if player_looks(w, n - 1) {
        Seq::new(w.map.tiles@.len(), |idx: int| sees_index(w, n - 1, idx))
    } else {
        visible_after(w, n - 1)
    }
}

/// What the map shows as revealed once the first `n` entities have
/// looked: what was revealed before, and all that a player among them
/// sees.
pub open spec fn revealed_after(w: World, n: int) -> Seq<bool>
    decreases n,
{
    if n <= 0 {
        w.map.revealed_tiles@
    } else if player_looks(w, n - 1) {
        Seq::new(
            w.map.tiles@.len(),
            |idx: int| revealed_after(w, n - 1)[idx] || sees_index(w, n - 1, idx),
        )
    } else {
        revealed_after(w, n - 1)
    }
}

/// Whether `after` is the viewshed `before` brought up to date with what
/// entity `k` sees: each tile it sees once, in no particular order.
pub open spec fn refreshed(w: World, k: int, after: Viewshed) -> bool {
    &&& !after.dirty
    &&& after.range == w.viewsheds@[k].range
    &&& after.visible_tiles@.no_duplicates()
    &&& forall|p: Coord|
        #![trigger after.visible_tiles@.contains(p)]
        after.visible_tiles@.contains(p) <==> sees(w, k, p.x as int, p.y as int)
}

/// What `on_map` keeps of `seen` is what lies on the map: the same tiles,
/// none twice that was there once, marking the same indices.
pub proof fn lemma_on_map(map: &TileMap, seen: Seq<Coord>)
    ensures
        forall|p: Coord|
            #![trigger on_map(map, seen).contains(p)]
            #![trigger seen.contains(p)]
            on_map(map, seen).contains(p) <==> seen.contains(p) && map.in_bounds(
                p.x as int,
                p.y as int,
            ),
        seen.no_duplicates() ==> on_map(map, seen).no_duplicates(),
        forall|idx: int| marks(map, on_map(map, seen), idx) <==> marks(map, seen, idx),
    decreases seen.len(),
{
    if seen.len() > 0 {
        let rest = seen.drop_last();
        let last = seen.last();
        lemma_on_map(map, rest);
        let kept = on_map(map, seen);
        let kept_rest = on_map(map, rest);
        let keep = map.in_bounds(last.x as int, last.y as int);
        assert forall|p: Coord|
            #![trigger kept.contains(p)]
            #![trigger seen.contains(p)]
            kept.contains(p) <==> seen.contains(p) && map.in_bounds(p.x as int, p.y as int) by {
            if kept.contains(p) {
                let j = choose|j: int| 0 <= j < kept.len() && kept[j] == p;
                if keep && j == kept.len() - 1 {
                    assert(seen[seen.len() - 1] == p);
                } else {
                    assert(kept_rest[j] == p);
                    assert(kept_rest.contains(p));
                    let a = choose|a: int| 0 <= a < rest.len() && rest[a] == p;
                    assert(seen[a] == p);
                }
            }
            if seen.contains(p) && map.in_bounds(p.x as int, p.y as int) {
                let a = choose|a: int| 0 <= a < seen.len() && seen[a] == p;
                if a == seen.len() - 1 {
                    assert(kept[kept.len() - 1] == p);
                } else {
                    assert(rest[a] == p);
                    assert(kept_rest.contains(p));
                    let j = choose|j: int| 0 <= j < kept_rest.len() && kept_rest[j] == p;
                    assert(kept[j] == p);
                }
            }
        }
        if seen.no_duplicates() {
            assert(rest.no_duplicates());
            if keep {
                assert(!kept_rest.contains(last)) by {
                    if kept_rest.contains(last) {
                        assert(rest.contains(last));
                        let a = choose|a: int| 0 <= a < rest.len() && rest[a] == last;
                        assert(seen[a] == seen[seen.len() - 1]);
                    }
                }
                assert forall|i: int, j: int| 0 <= i < j < kept.len() implies kept[i] != kept[j] by {
                    if j == kept.len() - 1 {
                        assert(kept_rest[i] == kept[i]);
                        assert(kept_rest.contains(kept[i]));
                    } else {
                        assert(kept_rest[i] == kept[i] && kept_rest[j] == kept[j]);
                    }
                }
            }
        }
        assert forall|idx: int| marks(map, kept, idx) <==> marks(map, seen, idx) by {
            if marks(map, kept, idx) {
                let j = choose|j: int|
                    0 <= j < kept.len() && map.in_bounds(
                        (#[trigger] kept[j]).x as int,
                        kept[j].y as int,
                    ) && map.index_of(kept[j].x as int, kept[j].y as int) == idx;
                if keep && j == kept.len() - 1 {
                    assert(seen[seen.len() - 1] == kept[j]);
                } else {
                    assert(kept_rest[j] == kept[j]);
                    assert(marks(map, kept_rest, idx));
                    assert(marks(map, rest, idx));
                    let a = choose|a: int|
                        0 <= a < rest.len() && map.in_bounds(
                            (#[trigger] rest[a]).x as int,
                            rest[a].y as int,
                        ) && map.index_of(rest[a].x as int, rest[a].y as int) == idx;
                    assert(seen[a] == rest[a]);
                }
            }
            if marks(map, seen, idx) {
                let a = choose|a: int|
                    0 <= a < seen.len() && map.in_bounds(
                        (#[trigger] seen[a]).x as int,
                        seen[a].y as int,
                    ) && map.index_of(seen[a].x as int, seen[a].y as int) == idx;
                if a == seen.len() - 1 {
                    assert(kept[kept.len() - 1] == seen[a]);
                } else {
                    assert(rest[a] == seen[a]);
                    assert(marks(map, rest, idx));
                    assert(marks(map, kept_rest, idx));
                    let j = choose|j: int|
                        0 <= j < kept_rest.len() && map.in_bounds(
                            (#[trigger] kept_rest[j]).x as int,
                            kept_rest[j].y as int,
                        ) && map.index_of(kept_rest[j].x as int, kept_rest[j].y as int) == idx;
                    assert(kept[j] == kept_rest[j]);
                }
            }
        }
    }
}

/// The system that brings stale viewsheds up to date.
pub struct VisibilitySystem {}

impl VisibilitySystem {
    /// What bringing the viewsheds up to date does to the world.
    pub open spec fn ran(pre: World, post: World) -> bool {
        &&& post.map.wf()
        &&& post.viewsheds@.dom() == pre.viewsheds@.dom()
        &&& forall|k: int|
            pre.viewsheds@.contains_key(k) ==> if looks(pre, k) {
                refreshed(pre, k, #[trigger] post.viewsheds@[k])
            } else {
                post.viewsheds@[k] == pre.viewsheds@[k]
            }
        &&& post.map.visible_tiles@ == visible_after(
            pre,
            pre.viewsheds.bound(),
        )
        &&& post.map.revealed_tiles@ == revealed_after(
            pre,
            pre.viewsheds.bound(),
        )
        &&& post.map.tiles == pre.map.tiles
        &&& post.map.rooms == pre.map.rooms
        &&& post.map.width == pre.map.width
        &&& post.map.height == pre.map.height
        &&& post.map.depth == pre.map.depth
        &&& post.map.blocked == pre.map.blocked
        &&& post.map.tile_content == pre.map.tile_content
        &&& post == (World {
            viewsheds: post.viewsheds,
            map: post.map,
            ..pre
        })
    }

    /// Brings `viewshed` up to date with `seen`, the tiles in view: it
    /// keeps those that lie on the map, in their order. For the player,
    /// the map then shows as visible exactly these tiles, and as revealed
    /// these and what was revealed before.
    pub fn see(viewshed: &mut Viewshed, map: &mut TileMap, is_player: bool, seen: &Vec<Coord>)
        requires
            old(map).wf(),
        ensures
            !final(viewshed).dirty,
            final(viewshed).range == old(viewshed).range,
            final(viewshed).visible_tiles@ == on_map(old(map), seen@),
            final(map).wf(),
            final(map).tiles == old(map).tiles,
            final(map).rooms == old(map).rooms,
            final(map).width == old(map).width,
            final(map).height == old(map).height,
            final(map).depth == old(map).depth,
            final(map).blocked == old(map).blocked,
            final(map).tile_content == old(map).tile_content,
            !is_player ==> *final(map) == *old(map),
            is_player ==> forall|idx: int|
                0 <= idx < old(map).tiles@.len() ==> #[trigger] final(map).visible_tiles@[idx]
                    == marks(old(map), seen@, idx),
            is_player ==> forall|idx: int|
                0 <= idx < old(map).tiles@.len() ==> #[trigger] final(map).revealed_tiles@[idx] == (
                old(map).revealed_tiles@[idx] || marks(old(map), seen@, idx)),
    {
        viewshed.dirty = false;
        viewshed.visible_tiles.clear();
        let mut j: usize = 0;
        assert(seen@.take(0) =~= Seq::<Coord>::empty());
        while j < seen.len()
            invariant
                j <= seen@.len(),
                map.wf(),
                *map == *old(map),
                !viewshed.dirty,
                viewshed.range == old(viewshed).range,
                viewshed.visible_tiles@ == on_map(map, seen@.take(j as int)),
            decreases seen@.len() - j,
        {
            let p = seen[j];
            assert(seen@.take(j as int + 1).drop_last() =~= seen@.take(j as int));
            if map.contains(p.x, p.y) {
                viewshed.visible_tiles.push(p);
            }
            j = j + 1;
        }
        assert(seen@.take(j as int) =~= seen@);
        proof {
            lemma_on_map(old(map), seen@);
        }
        if is_player {
            let count: usize = map.visible_tiles.len();
            let mut i: usize = 0;
            while i < count
                invariant
                    i <= count,
                    count == map.tiles@.len(),
                    map.wf(),
                    *map == (TileMap { visible_tiles: map.visible_tiles, ..*old(map) }),
                    forall|k: int| 0 <= k < i ==> !#[trigger] map.visible_tiles@[k],
                decreases count - i,
            {
                map.visible_tiles[i] = false;
                i = i + 1;
            }
            let ghost kept = viewshed.visible_tiles@;
            let mut v: usize = 0;
            while v < viewshed.visible_tiles.len()
                invariant
                    v <= kept.len(),
                    kept == viewshed.visible_tiles@,
                    kept == on_map(old(map), seen@),
                    forall|p: Coord|
                        #![trigger kept.contains(p)]
                        kept.contains(p) ==> old(map).in_bounds(p.x as int, p.y as int),
                    old(map).wf(),
                    map.wf(),
                    count == map.tiles@.len(),
                    *map == (TileMap {
                        visible_tiles: map.visible_tiles,
                        revealed_tiles: map.revealed_tiles,
                        ..*old(map)
                    }),
                    forall|idx: int|
                        0 <= idx < count ==> #[trigger] map.visible_tiles@[idx] == marks(
                            old(map),
                            kept.take(v as int),
                            idx,
                        ),
                    forall|idx: int|
                        0 <= idx < count ==> #[trigger] map.revealed_tiles@[idx] == (old(map).revealed_tiles@[idx] || marks(old(map), kept.take(v as int), idx)),
                decreases kept.len() - v,
            {
                let vis = viewshed.visible_tiles[v];
                assert(kept.contains(vis));
                let index: usize = map.xy_index(vis.x, vis.y);
                let ghost before = *map;
                map.revealed_tiles[index] = true;
                map.visible_tiles[index] = true;
                proof {
                    let shorter = kept.take(v as int);
                    let longer = kept.take(v as int + 1);
                    assert forall|idx: int| 0 <= idx < count implies marks(old(map), longer, idx) == (
                    marks(old(map), shorter, idx) || idx == index) by {
                        if marks(old(map), shorter, idx) {
                            let a = choose|a: int|
                                0 <= a < shorter.len() && old(map).in_bounds(
                                    (#[trigger] shorter[a]).x as int,
                                    shorter[a].y as int,
                                ) && old(map).index_of(shorter[a].x as int, shorter[a].y as int)
                                    == idx;
                            assert(longer[a] == shorter[a]);
                        }
                        if marks(old(map), longer, idx) {
                            let a = choose|a: int|
                                0 <= a < longer.len() && old(map).in_bounds(
                                    (#[trigger] longer[a]).x as int,
                                    longer[a].y as int,
                                ) && old(map).index_of(longer[a].x as int, longer[a].y as int)
                                    == idx;
                            if a < v {
                                assert(shorter[a] == longer[a]);
                            }
                        }
                        if idx == index {
                            assert(longer[v as int] == vis);
                        }
                    }
                    assert forall|idx: int| 0 <= idx < count implies #[trigger] map.visible_tiles@[idx]
                        == marks(old(map), longer, idx) by {
                        assert(before.visible_tiles@[idx] == marks(old(map), shorter, idx));
                    }
                    assert forall|idx: int| 0 <= idx < count implies #[trigger] map.revealed_tiles@[idx]
                        == (old(map).revealed_tiles@[idx] || marks(old(map), longer, idx)) by {
                        assert(before.revealed_tiles@[idx] == (old(map).revealed_tiles@[idx]
                            || marks(old(map), shorter, idx)));
                    }
                }
                v = v + 1;
            }
            assert(kept.take(v as int) =~= kept);
        }
    }

    /// Brings every stale viewshed up to date, in the order of the
    /// entities' identities. A viewer that stands off the map, or whose
    /// range is beyond the largest range of view, is passed over and stays
    /// stale. Only a player's view changes what the map shows.
    pub fn run(&mut self, world: &mut World)
        requires
            old(world).map.wf(),
        ensures
            Self::ran(*old(world), *final(world)),
    {
        let n: usize = world.viewsheds.limit();
        let mut i: usize = 0;
        while i < n
            invariant
                i <= n,
                n == old(world).viewsheds.bound(),
                n == world.viewsheds.bound(),
                old(world).map.wf(),
                world.map.wf(),
                world.viewsheds@.dom() == old(world).viewsheds@.dom(),
                forall|k: int|
                    0 <= k < i && old(world).viewsheds@.contains_key(k) ==> if looks(
                        *old(world),
                        k,
                    ) {
                        refreshed(*old(world), k, #[trigger] world.viewsheds@[k])
                    } else {
                        world.viewsheds@[k] == old(world).viewsheds@[k]
                    },
                forall|k: int|
                    i <= k && old(world).viewsheds@.contains_key(k)
                        ==> #[trigger] world.viewsheds@[k] == old(world).viewsheds@[k],
                world.map.visible_tiles@ == visible_after(*old(world), i as int),
                world.map.revealed_tiles@ == revealed_after(*old(world), i as int),
                world.map.tiles == old(world).map.tiles,
                world.map.rooms == old(world).map.rooms,
                world.map.width == old(world).map.width,
                world.map.height == old(world).map.height,
                world.map.depth == old(world).map.depth,
                world.map.blocked == old(world).map.blocked,
                world.map.tile_content == old(world).map.tile_content,
                *world == (World { viewsheds: world.viewsheds, map: world.map, ..*old(world) }),
            decreases n - i,
        {
            let entity = Entity { id: i };
            let place: Option<(i32, i32)> = match world.positions.get(entity) {
                Some(p) => Some((p.x, p.y)),
                None => None,
            };
            let stale: Option<i32> = match world.viewsheds.get(entity) {
                Some(v) => if v.dirty {
                    Some(v.range)
                } else {
                    None
                },
                None => None,
            };
            let ghost before = *world;
            let mut looked = false;
            if world.entities.is_alive(entity) && place.is_some() && stale.is_some() {
                let (x, y) = place.unwrap();
                let range: i32 = stale.unwrap();
                if world.map.contains(x, y) && -MAX_VIEW_RANGE <= range && range <= MAX_VIEW_RANGE {
                    assert(looks(*old(world), i as int));
                    let seen = field_of_view(x, y, range, &world.map);
                    let is_player: bool = world.players.contains(entity);
                    let taken = world.viewsheds.remove(entity);
                    let mut viewshed: Viewshed = taken.unwrap();
                    VisibilitySystem::see(&mut viewshed, &mut world.map, is_player, &seen);
                    proof {
                        lemma_on_map(&before.map, seen@);
                        assert(before.map.opacity() =~= old(world).map.opacity());
                        let w = old(world).map.width as int;
                        let h = old(world).map.height as int;
                        assert forall|p: Coord|
                            #![trigger viewshed.visible_tiles@.contains(p)]
                            viewshed.visible_tiles@.contains(p) <==> sees(
                                *old(world),
                                i as int,
                                p.x as int,
                                p.y as int,
                            ) by {
                            assert(on_map(&before.map, seen@).contains(p) <==> seen@.contains(p)
                                && before.map.in_bounds(p.x as int, p.y as int));
                        }
                        assert forall|idx: int| 0 <= idx < old(world).map.tiles@.len() implies marks(
                            &before.map,
                            seen@,
                            idx,
                        ) == sees_index(*old(world), i as int, idx) by {
                            assert(w > 0) by (nonlinear_arith)
                                requires
                                    0 <= idx < w * h,
                                    0 <= w,
                            ;
                            lemma_index_cell(w, h, idx);
                            if marks(&before.map, seen@, idx) {
                                let a = choose|a: int|
                                    0 <= a < seen@.len() && before.map.in_bounds(
                                        (#[trigger] seen@[a]).x as int,
                                        seen@[a].y as int,
                                    ) && before.map.index_of(seen@[a].x as int, seen@[a].y as int)
                                        == idx;
                                lemma_cell_index(w, h, seen@[a].x as int, seen@[a].y as int);
                                assert(seen@.contains(seen@[a]));
                            }
                            if sees_index(*old(world), i as int, idx) {
                                let p = Coord { x: (idx % w) as i32, y: (idx / w) as i32 };
                                assert(seen@.contains(p));
                                let a = choose|a: int| 0 <= a < seen@.len() && seen@[a] == p;
                                assert(before.map.in_bounds(seen@[a].x as int, seen@[a].y as int));
                            }
                        }
                        if is_player {
                            assert(world.map.visible_tiles@ =~= visible_after(
                                *old(world),
                                i as int + 1,
                            ));
                            assert(world.map.revealed_tiles@ =~= revealed_after(
                                *old(world),
                                i as int + 1,
                            ));
                        }
                    }
                    world.viewsheds.insert(entity, viewshed);
                    assert(world.viewsheds@.dom() =~= old(world).viewsheds@.dom());
                    looked = true;
                }
            }
            assert(looked == looks(*old(world), i as int));
            i = i + 1;
        }
    }
}

} // verus!
