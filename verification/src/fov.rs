//! Field of view: which tiles can be seen from a tile of the map.

use crate::components::Coord;
use crate::map::TileMap;
use vstd::prelude::*;

verus! {

/// No field of view is asked for beyond this range.
pub const MAX_VIEW_RANGE: i32 = 1000;

/// The tiles seen from `(x, y)` within `range` on a grid of the given size
/// whose tiles, in index order, are opaque as `opaque` says: what
/// `rltk::field_of_view` finds by shadow casting, as a set.
pub uninterp spec fn visible_from(
    x: int,
    y: int,
    range: int,
    width: int,
    height: int,
    opaque: Seq<bool>,
) -> Set<(int, int)>;

/// Whether a field of view may be computed from `(x, y)` with `range`: the
/// viewer stands on the map and the range is within limits.
pub open spec fn can_look(map: &TileMap, x: int, y: int, range: int) -> bool {
    map.wf() && map.in_bounds(x, y) && -MAX_VIEW_RANGE <= range <= MAX_VIEW_RANGE
}

/// `rltk::field_of_view`, with the map's walls as the opaque tiles. It
/// collects the tiles it sees in a hash set and hands them out in no
/// particular order: each tile once, and together the set that is named
/// `visible_from`. A viewer off the map, on which the search would leave
/// the grid, is left out, and so is a range whose square would not fit.
#[verifier::external_body]
pub(crate) fn field_of_view(x: i32, y: i32, range: i32, map: &TileMap) -> (seen: Vec<Coord>)
    requires
        can_look(map, x as int, y as int, range as int),
    ensures
        seen@.no_duplicates(),
        forall|p: Coord|
            #![trigger seen@.contains(p)]
            seen@.contains(p) <==> visible_from(
                x as int,
                y as int,
                range as int,
                map.width as int,
                map.height as int,
                map.opacity(),
            ).contains((p.x as int, p.y as int)),
{
    rltk::field_of_view(rltk::Point::new(x, y), range, map)
        .into_iter()
        .map(|p| Coord { x: p.x, y: p.y })
        .collect()
}

} // verus!
