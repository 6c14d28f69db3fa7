//! Map indexing: rebuilding, from where the entities stand now, which tiles
//! are blocked and who occupies each tile.

use crate::ecs::Entity;
use crate::map::{lemma_cell_index, TileType};
use crate::world::World;
use vstd::prelude::*;

verus! {

/// Whether live entity `k` stands on the tile with index `idx`.
pub open spec fn stands_on(w: World, k: int, idx: int) -> bool {
    &&& 0 <= k < w.entities.alive@.len()
    &&& w.entities.alive@[k]
    &&& w.positions@.contains_key(k)
    &&& w.map.in_bounds(w.positions@[k].x as int, w.positions@[k].y as int)
    &&& w.map.index_of(w.positions@[k].x as int, w.positions@[k].y as int) == idx
}

/// Whether one of the first `n` entities stands on tile `idx` and blocks
/// it.
pub open spec fn blocker_on(w: World, n: int, idx: int) -> bool {
    exists|k: int| 0 <= k < n && #[trigger] stands_on(w, k, idx) && w.blockers@.contains_key(k)
}

/// Those of the first `n` entities that stand on tile `idx`, in the order
/// of their identities.
pub open spec fn occupants(w: World, n: int, idx: int) -> Seq<Entity>
    decreases n,
{
    if n <= 0 {
        Seq::empty()
    } else if stands_on(w, n - 1, idx) {
        occupants(w, n - 1, idx).push(Entity { id: (n - 1) as usize })
    } else {
        occupants(w, n - 1, idx)
    }
}

/// Whether the map's occupancy is what the entities' positions in `w` make
/// it: a tile is blocked if it is a wall or a blocking entity stands on it,
/// and holds the entities that stand on it.
pub open spec fn indexed(w: World, blocked: Seq<bool>, content: Seq<Vec<Entity>>) -> bool {
    &&& blocked.len() == w.map.tiles@.len()
    &&& content.len() == w.map.tiles@.len()
    &&& forall|idx: int|
        0 <= idx < w.map.tiles@.len() ==> #[trigger] blocked[idx] == (w.map.tiles@[idx]
            == TileType::Wall || blocker_on(w, w.positions.bound(), idx))
    &&& forall|idx: int|
        0 <= idx < w.map.tiles@.len() ==> (#[trigger] content[idx])@ == occupants(
            w,
            w.positions.bound(),
            idx,
        )
}

/// The system that rebuilds the map's occupancy.
pub struct MapIndexingSystem {}

impl MapIndexingSystem {
    /// What rebuilding the map's occupancy does to the world.
    pub open spec fn ran(pre: World, post: World) -> bool {
        &&& post.map.wf()
        &&& indexed(pre, post.map.blocked@, post.map.tile_content@)
        &&& post.map.tiles == pre.map.tiles
        &&& post.map.rooms == pre.map.rooms
        &&& post.map.width == pre.map.width
        &&& post.map.height == pre.map.height
        &&& post.map.depth == pre.map.depth
        &&& post.map.revealed_tiles == pre.map.revealed_tiles
        &&& post.map.visible_tiles == pre.map.visible_tiles
        &&& post == (World { map: post.map, ..pre })
    }

    /// Rebuilds the blocking bitmap and the occupant lists from scratch.
    /// An entity whose position lies off the map occupies no tile.
    pub fn run(&mut self, world: &mut World)
        requires
            old(world).map.wf(),
        ensures
            Self::ran(*old(world), *final(world)),
    {
        world.map.populate_blocked();
        world.map.clear_content_index();
        let n: usize = world.positions.limit();
        let mut i: usize = 0;
        while i < n
            invariant
                i <= n,
                n == old(world).positions.bound(),
                old(world).map.wf(),
                world.map.wf(),
                world.map.tiles == old(world).map.tiles,
                world.map.rooms == old(world).map.rooms,
                world.map.width == old(world).map.width,
                world.map.height == old(world).map.height,
                world.map.depth == old(world).map.depth,
                world.map.revealed_tiles == old(world).map.revealed_tiles,
                world.map.visible_tiles == old(world).map.visible_tiles,
                *world == (World { map: world.map, ..*old(world) }),
                forall|idx: int|
                    0 <= idx < world.map.tiles@.len() ==> #[trigger] world.map.blocked@[idx] == (old(world).map.tiles@[idx] == TileType::Wall || blocker_on(*old(world), i as int, idx)),
                forall|idx: int|
                    0 <= idx < world.map.tiles@.len() ==> (#[trigger] world.map.tile_content@[idx])@
                        == occupants(*old(world), i as int, idx),
            decreases n - i,
        {
            let entity = Entity { id: i };
            let ghost before = world.map;
            let mut spot: Option<usize> = None;
            if world.entities.is_alive(entity) {
                if let Some(position) = world.positions.get(entity) {
                    if world.map.contains(position.x, position.y) {
                        spot = Some(world.map.xy_index(position.x, position.y));
                    }
                }
            }
            if let Some(idx) = spot {
                assert(stands_on(*old(world), i as int, idx as int));
                if world.blockers.contains(entity) {
                    world.map.blocked[idx] = true;
                }
                world.map.tile_content[idx].push(entity);
                proof {
                    assert forall|j: int| 0 <= j < world.map.tiles@.len() implies #[trigger] world.map.blocked@[j]
                        == (old(world).map.tiles@[j] == TileType::Wall || blocker_on(
                        *old(world),
                        i as int + 1,
                        j,
                    )) by {
                        assert(before.blocked@[j] == (old(world).map.tiles@[j] == TileType::Wall
                            || blocker_on(*old(world), i as int, j)));
                        if blocker_on(*old(world), i as int + 1, j) && !blocker_on(
                            *old(world),
                            i as int,
                            j,
                        ) {
                            let k = choose|k: int|
                                0 <= k < i + 1 && #[trigger] stands_on(*old(world), k, j) && old(world).blockers@.contains_key(k);
                            assert(k == i);
                        }
                        if blocker_on(*old(world), i as int, j) {
                            let k = choose|k: int|
                                0 <= k < i && #[trigger] stands_on(*old(world), k, j) && old(world).blockers@.contains_key(k);
                            assert(0 <= k < i + 1);
                        }
                    }
                    assert forall|j: int| 0 <= j < world.map.tiles@.len() implies (
                    #[trigger] world.map.tile_content@[j])@ == occupants(
                        *old(world),
                        i as int + 1,
                        j,
                    ) by {
                        assert(before.tile_content@[j]@ == occupants(*old(world), i as int, j));
                    }
                }
            } else {
                proof {
                    assert forall|j: int| !stands_on(*old(world), i as int, j) by {
                        if stands_on(*old(world), i as int, j) {
                            let p = old(world).positions@[i as int];
                            lemma_cell_index(
                                old(world).map.width as int,
                                old(world).map.height as int,
                                p.x as int,
                                p.y as int,
                            );
                        }
                    }
                    assert forall|j: int| 0 <= j < world.map.tiles@.len() implies #[trigger] world.map.blocked@[j]
                        == (old(world).map.tiles@[j] == TileType::Wall || blocker_on(
                        *old(world),
                        i as int + 1,
                        j,
                    )) by {
                        if blocker_on(*old(world), i as int + 1, j) {
                            let k = choose|k: int|
                                0 <= k < i + 1 && #[trigger] stands_on(*old(world), k, j) && old(world).blockers@.contains_key(k);
                            assert(k < i);
                        }
                        if blocker_on(*old(world), i as int, j) {
                            let k = choose|k: int|
                                0 <= k < i && #[trigger] stands_on(*old(world), k, j) && old(world).blockers@.contains_key(k);
                            assert(0 <= k < i + 1);
                        }
                    }
                }
            }
            i = i + 1;
        }
    }
}

} // verus!
