//! Whom the use of an item touches: the user, the occupants of one tile,
//! or the occupants of every tile in a blast.

use crate::components::{Coord, WantsToUseItem};
use crate::ecs::Entity;
use crate::fov::{can_look, field_of_view, visible_from, MAX_VIEW_RANGE};
use crate::map::{lemma_cell_index, lemma_index_cell, TileMap};
use crate::world::World;
use vstd::prelude::*;

verus! {

/// Whether `(x, y)` lies on the map and at least one tile inside its
/// border.
pub open spec fn inside_border(map: &TileMap, x: int, y: int) -> bool {
    0 < x < map.width - 1 && 0 < y < map.height - 1
}

/// Whether one of the tiles in `seen` lies inside the border and has the
/// index `idx`.
pub open spec fn hit(map: &TileMap, seen: Seq<Coord>, idx: int) -> bool {
    exists|j: int|
        0 <= j < seen.len() && inside_border(map, (#[trigger] seen[j]).x as int, seen[j].y as int)
            && map.index_of(seen[j].x as int, seen[j].y as int) == idx
}

/// The occupants of those of the first `n` tiles that `seen` hits, tile by
/// tile in index order.
pub open spec fn occupants_hit(map: &TileMap, seen: Seq<Coord>, n: int) -> Seq<Entity>
    decreases n,
{
    if n <= 0 {
        Seq::empty()
    } else if hit(map, seen, n - 1) {
        occupants_hit(map, seen, n - 1) + map.tile_content@[n - 1]@
    } else {
        occupants_hit(map, seen, n - 1)
    }
}

/// Whether the tile with index `idx` lies in the blast of the given radius
/// around `(x, y)`: it is seen from there and lies inside the map's border.
pub open spec fn in_blast(map: &TileMap, x: int, y: int, radius: int, idx: int) -> bool {
    &&& inside_border(map, idx % (map.width as int), idx / (map.width as int))
    &&& visible_from(
        x,
        y,
        radius,
        map.width as int,
        map.height as int,
        map.opacity(),
    ).contains((idx % (map.width as int), idx / (map.width as int)))
}

/// The occupants of those of the first `n` tiles that lie in the blast
/// around `(x, y)`, tile by tile in index order.
pub open spec fn blast_targets(map: &TileMap, x: int, y: int, radius: int, n: int) -> Seq<Entity>
    decreases n,
{
    if n <= 0 {
        Seq::empty()
    } else if in_blast(map, x, y, radius, n - 1) {
        blast_targets(map, x, y, radius, n - 1) + map.tile_content@[n - 1]@
    } else {
        blast_targets(map, x, y, radius, n - 1)
    }
}

/// Whom the use of an item by `user` touches. Without a chosen tile it is
/// the user. With one, it is whoever occupies that tile or, for an item with
/// an area of effect, whoever occupies a tile of the blast around it. A
/// tile off the map has no occupants, and no blast spreads from it or
/// beyond the largest range of view.
pub open spec fn targets_of(w: World, user: Entity, intent: WantsToUseItem) -> Seq<Entity> {
    match intent.target {
        None => seq![user],
        Some(at) => if !w.map.in_bounds(at.x as int, at.y as int) {
            Seq::empty()
        } else if !w.area_of_effect@.contains_key(intent.item.key()) {
            w.map.tile_content@[w.map.index_of(at.x as int, at.y as int)]@
        } else if can_look(
            &w.map,
            at.x as int,
            at.y as int,
            w.area_of_effect@[intent.item.key()].radius as int,
        ) {
            blast_targets(
                &w.map,
                at.x as int,
                at.y as int,
                w.area_of_effect@[intent.item.key()].radius as int,
                w.map.tiles@.len() as int,
            )
        } else {
            Seq::empty()
        },
    }
}

/// Where `seen` holds exactly the tiles seen from `(x, y)`, the tiles that
/// it hits are those of the blast, and so are the occupants.
pub proof fn lemma_seen_is_blast(
    map: &TileMap,
    seen: Seq<Coord>,
    x: int,
    y: int,
    radius: int,
    n: int,
)
    requires
        map.wf(),
        0 <= n <= map.tiles@.len(),
        forall|p: Coord|
            #![trigger seen.contains(p)]
            seen.contains(p) <==> visible_from(
                x,
                y,
                radius,
                map.width as int,
                map.height as int,
                map.opacity(),
            ).contains((p.x as int, p.y as int)),
    ensures
        occupants_hit(map, seen, n) == blast_targets(map, x, y, radius, n),
    decreases n,
{
    if n > 0 {
        lemma_seen_is_blast(map, seen, x, y, radius, n - 1);
        let idx = n - 1;
        let w = map.width as int;
        let h = map.height as int;
        assert(w > 0) by (nonlinear_arith)
            requires
                0 <= idx < w * h,
                0 <= w,
        ;
        lemma_index_cell(w, h, idx);
        if hit(map, seen, idx) {
            let j = choose|j: int|
                0 <= j < seen.len() && inside_border(
                    map,
                    (#[trigger] seen[j]).x as int,
                    seen[j].y as int,
                ) && map.index_of(seen[j].x as int, seen[j].y as int) == idx;
            lemma_cell_index(w, h, seen[j].x as int, seen[j].y as int);
            assert(seen.contains(seen[j]));
        }
        if in_blast(map, x, y, radius, idx) {
            let p = Coord { x: (idx % w) as i32, y: (idx / w) as i32 };
            assert(seen.contains(p));
            let j = choose|j: int| 0 <= j < seen.len() && seen[j] == p;
            assert(inside_border(map, seen[j].x as int, seen[j].y as int));
            assert(hit(map, seen, idx));
        }
    }
}

/// The occupants of the tiles that `seen` hits: every tile inside the
/// map's border that is among `seen`, each once, in index order.
pub fn occupants_of(map: &TileMap, seen: &Vec<Coord>) -> (found: Vec<Entity>)
    requires
        map.wf(),
    ensures
        found@ == occupants_hit(map, seen@, map.tiles@.len() as int),
{
    let count: usize = map.tiles.len();
    let mut marks: Vec<bool> = Vec::new();
    let mut i: usize = 0;
    while i < count
        invariant
            i <= count,
            marks@.len() == i,
            forall|k: int| 0 <= k < i ==> !#[trigger] marks@[k],
        decreases count - i,
    {
        marks.push(false);
        i = i + 1;
    }
    let mut j: usize = 0;
    while j < seen.len()
        invariant
            j <= seen@.len(),
            map.wf(),
            count == map.tiles@.len(),
            marks@.len() == count,
            forall|k: int| 0 <= k < count ==> #[trigger] marks@[k] == hit(map, seen@.take(j as int), k),
        decreases seen@.len() - j,
    {
        let p = seen[j];
        let ghost before = marks@;
        let ghost shorter = seen@.take(j as int);
        let ghost longer = seen@.take(j as int + 1);
        if 0 < p.x && p.x < map.width - 1 && 0 < p.y && p.y < map.height - 1 {
            let idx: usize = map.xy_index(p.x, p.y);
            marks[idx] = true;
        }
        proof {
            assert forall|k: int| 0 <= k < count implies #[trigger] marks@[k] == hit(map, longer, k) by {
                assert(before[k] == hit(map, shorter, k));
                if hit(map, shorter, k) {
                    let a = choose|a: int|
                        0 <= a < shorter.len() && inside_border(
                            map,
                            (#[trigger] shorter[a]).x as int,
                            shorter[a].y as int,
                        ) && map.index_of(shorter[a].x as int, shorter[a].y as int) == k;
                    assert(longer[a] == shorter[a]);
                }
                if hit(map, longer, k) {
                    let a = choose|a: int|
                        0 <= a < longer.len() && inside_border(
                            map,
                            (#[trigger] longer[a]).x as int,
                            longer[a].y as int,
                        ) && map.index_of(longer[a].x as int, longer[a].y as int) == k;
                    if a < j {
                        assert(shorter[a] == longer[a]);
                    }
                }
                if inside_border(map, p.x as int, p.y as int) && map.index_of(
                    p.x as int,
                    p.y as int,
                ) == k {
                    assert(longer[j as int] == p);
                }
            }
        }
        j = j + 1;
    }
    assert(seen@.take(j as int) =~= seen@);
    let mut found: Vec<Entity> = Vec::new();
    let mut idx: usize = 0;
    while idx < count
        invariant
            idx <= count,
            map.wf(),
            count == map.tiles@.len(),
            marks@.len() == count,
            forall|k: int| 0 <= k < count ==> #[trigger] marks@[k] == hit(map, seen@, k),
            found@ == occupants_hit(map, seen@, idx as int),
        decreases count - idx,
    {
        if marks[idx] {
            let ghost base = found@;
            let mut m: usize = 0;
            while m < map.tile_content[idx].len()
                invariant
                    idx < count,
                    count == map.tiles@.len(),
                    map.wf(),
                    m <= map.tile_content@[idx as int]@.len(),
                    found@ == base + map.tile_content@[idx as int]@.take(m as int),
                decreases map.tile_content@[idx as int]@.len() - m,
            {
                found.push(map.tile_content[idx][m]);
                assert(map.tile_content@[idx as int]@.take(m as int + 1) =~= map.tile_content@[idx as int]@.take(
                    m as int,
                ).push(map.tile_content@[idx as int]@[m as int]));
                m = m + 1;
            }
            assert(map.tile_content@[idx as int]@.take(m as int) =~= map.tile_content@[idx as int]@);
        }
        idx = idx + 1;
    }
    found
}

/// Whom the use of an item by `user` touches, as `targets_of` says.
pub fn targets(world: &World, user: Entity, intent: &WantsToUseItem) -> (found: Vec<Entity>)
    requires
        world.map.wf(),
    ensures
        found@ == targets_of(*world, user, *intent),
{
    let mut found: Vec<Entity> = Vec::new();
    match intent.target {
        None => {
            found.push(user);
            assert(found@ =~= seq![user]);
        },
        Some(at) => {
            if world.map.contains(at.x, at.y) {
                let radius: Option<i32> = match world.area_of_effect.get(intent.item) {
                    Some(aoe) => Some(aoe.radius),
                    None => None,
                };
                match radius {
                    None => {
                        let idx: usize = world.map.xy_index(at.x, at.y);
                        let mut m: usize = 0;
                        while m < world.map.tile_content[idx].len()
                            invariant
                                world.map.wf(),
                                idx < world.map.tiles@.len(),
                                m <= world.map.tile_content@[idx as int]@.len(),
                                found@ == world.map.tile_content@[idx as int]@.take(m as int),
                            decreases world.map.tile_content@[idx as int]@.len() - m,
                        {
                            found.push(world.map.tile_content[idx][m]);
                            assert(world.map.tile_content@[idx as int]@.take(m as int + 1)
                                =~= world.map.tile_content@[idx as int]@.take(m as int).push(
                                world.map.tile_content@[idx as int]@[m as int],
                            ));
                            m = m + 1;
                        }
                        assert(world.map.tile_content@[idx as int]@.take(m as int)
                            =~= world.map.tile_content@[idx as int]@);
                    },
                    Some(radius) => {
                        if -MAX_VIEW_RANGE <= radius && radius <= MAX_VIEW_RANGE {
                            let seen = field_of_view(at.x, at.y, radius, &world.map);
                            found = occupants_of(&world.map, &seen);
                            proof {
                                lemma_seen_is_blast(
                                    &world.map,
                                    seen@,
                                    at.x as int,
                                    at.y as int,
                                    radius as int,
                                    world.map.tiles@.len() as int,
                                );
                            }
                        }
                    },
                }
            }
        },
    }
    found
}

} // verus!
