//! The dungeon map: a grid of tiles with its rooms, what the player has
//! seen of it, and the per-tile occupancy that is rebuilt every turn.

use crate::ecs::Entity;
use crate::rect::Rect;
use crate::rng::range;
use vstd::prelude::*;

verus! {

/// What a tile is made of.
#[derive(PartialEq, Eq, Copy, Clone, Debug, Structural)]
pub enum TileType {
    Wall,
    Floor,
}

/// Width of a generated map.
pub const MAPWIDTH: usize = 80;

/// Height of a generated map.
pub const MAPHEIGHT: usize = 50;

/// Number of tiles of a generated map.
pub const MAPCOUNT: usize = 4000;

/// No map is wider or higher than this.
pub const MAX_DIMENSION: i32 = 32767;

/// How many rooms map generation attempts to place.
pub const MAX_ROOMS: i32 = 30;

/// Smallest side of a generated room.
pub const MIN_SIZE: i32 = 6;

/// Upper limit, itself excluded, of a generated room's side.
pub const MAX_SIZE: i32 = 10;

/// The map of one level. Tiles are stored row by row; `tile_content` and
/// `blocked` are derived from where the entities stand and rebuilt every
/// turn.
pub struct TileMap {
    pub tiles: Vec<TileType>,
    pub rooms: Vec<Rect>,
    pub width: i32,
    pub height: i32,
    pub revealed_tiles: Vec<bool>,
    pub visible_tiles: Vec<bool>,
    pub blocked: Vec<bool>,
    pub depth: i32,
    pub tile_content: Vec<Vec<Entity>>,
}

/// The index of cell `(x, y)` in a row-major grid of the given width.
pub open spec fn cell_index(width: int, x: int, y: int) -> int {
    y * width + x
}

/// Distinct cells of a grid have distinct indices, all below the cell count.
pub proof fn lemma_cell_index(width: int, height: int, x: int, y: int)
    requires
        0 <= x < width,
        0 <= y < height,
    ensures
        0 <= cell_index(width, x, y) < width * height,
        cell_index(width, x, y) % width == x,
        cell_index(width, x, y) / width == y,
        cell_index(width, x, y) == 0 <==> x == 0 && y == 0,
{
    assert(y * width + x < width * height) by (nonlinear_arith)
        requires
            0 <= x < width,
            0 <= y < height,
    ;
    assert(0 <= y * width) by (nonlinear_arith)
        requires
            0 <= y,
            0 < width,
    ;
    vstd::arithmetic::div_mod::lemma_fundamental_div_mod_converse(y * width + x, width, y, x);
    assert(y * width + x == 0 ==> y == 0) by (nonlinear_arith)
        requires
            0 <= x < width,
            0 <= y,
    ;
}

/// Every index below the cell count is the index of exactly one cell.
pub proof fn lemma_index_cell(width: int, height: int, i: int)
    requires
        0 <= i < width * height,
        0 < width,
    ensures
        0 <= i % width < width,
        0 <= i / width < height,
        cell_index(width, i % width, i / width) == i,
{
    vstd::arithmetic::div_mod::lemma_fundamental_div_mod(i, width);
    vstd::arithmetic::div_mod::lemma_mod_pos_bound(i, width);
    vstd::arithmetic::div_mod::lemma_div_pos_is_pos(i, width);
    let q = i / width;
    assert(width * q == q * width) by (nonlinear_arith);
    assert(q < height) by (nonlinear_arith)
        requires
            q * width <= i,
            i < width * height,
            0 < width,
    ;
}

/// Whether `v` lies between `a` and `b`, whichever is smaller.
pub open spec fn between(a: int, b: int, v: int) -> bool {
    (a <= v <= b) || (b <= v <= a)
}

/// Whether `(x, y)` is dug out by a tunnel along row `row` from column
/// `xa` to column `xb`. The cell of index zero is never dug.
pub open spec fn on_row_tunnel(xa: int, xb: int, row: int, x: int, y: int) -> bool {
    y == row && between(xa, xb, x) && !(x == 0 && y == 0)
}

/// Whether `(x, y)` is dug out by a tunnel along column `col` from row `ya`
/// to row `yb`. The cell of index zero is never dug.
pub open spec fn on_column_tunnel(ya: int, yb: int, col: int, x: int, y: int) -> bool {
    x == col && between(ya, yb, y) && !(x == 0 && y == 0)
}

/// Whether `(x, y)` lies on the tunnels that join `room` to the room
/// `prev` placed before it: one along the row of the centre of `prev`,
/// between the columns of both centres, and one along the column of the
/// centre of `room`, between the rows of both centres.
pub open spec fn joins(prev: Rect, room: Rect, x: int, y: int) -> bool {
    ||| on_row_tunnel(prev.center_point().0, room.center_point().0, prev.center_point().1, x, y)
    ||| on_column_tunnel(
        prev.center_point().1,
        room.center_point().1,
        room.center_point().0,
        x,
        y,
    )
}

/// Whether `(x, y)` is dug out when `room` is added to a map whose last
/// room was `prev`: the room itself, and the two tunnels that join the
/// centres of both.
pub open spec fn dug_by(room: Rect, prev: Option<Rect>, x: int, y: int) -> bool {
    ||| room.carves(x, y)
    ||| match prev {
        Some(p) => joins(p, room, x, y),
        None => false,
    }
}

/// Adding a room of the generated shape to a map keeps what generation
/// promises of its rooms and its border.
proof fn lemma_room_added(before: TileMap, after: TileMap, room: Rect)
    requires
        before.wf(),
        after.wf(),
        before.width == 80,
        before.height == 50,
        before.rooms_regular(),
        before.rooms_apart(),
        before.rooms_carved(),
        before.rooms_joined(),
        before.is_free(room),
        0 <= room.x1,
        room.x2 <= 78,
        0 <= room.y1,
        room.y2 <= 48,
        MIN_SIZE <= room.x2 - room.x1 < MAX_SIZE,
        MIN_SIZE <= room.y2 - room.y1 < MAX_SIZE,
        forall|x: int, y: int|
            before.in_bounds(x, y) && #[trigger] before.tile_at(x, y) == TileType::Floor ==> 1 <= x
                <= 78 && 1 <= y <= 48,
        after.same_but_layout(before),
        after.rooms@ == before.rooms@.push(room),
        forall|cx: int, cy: int|
            before.in_bounds(cx, cy) ==> #[trigger] after.tile_at(cx, cy) == if dug_by(
                room,
                before.last_room(),
                cx,
                cy,
            ) {
                TileType::Floor
            } else {
                before.tile_at(cx, cy)
            },
    ensures
        after.rooms_regular(),
        after.rooms_apart(),
        after.rooms_carved(),
        after.rooms_joined(),
        forall|x: int, y: int|
            after.in_bounds(x, y) && #[trigger] after.tile_at(x, y) == TileType::Floor ==> 1 <= x
                <= 78 && 1 <= y <= 48,
{
    let n = before.rooms@.len() as int;
    assert forall|i: int, x: int, y: int|
        1 <= i < after.rooms@.len() && after.in_bounds(x, y) && joins(
            after.rooms@[i - 1],
            #[trigger] after.rooms@[i],
            x,
            y,
        ) implies #[trigger] after.tile_at(x, y) == TileType::Floor by {
        assert(before.in_bounds(x, y));
        assert(after.rooms@[i - 1] == before.rooms@[i - 1]);
        if i < n {
            assert(after.rooms@[i] == before.rooms@[i]);
            assert(before.tile_at(x, y) == TileType::Floor);
        } else {
            assert(before.last_room() == Some(before.rooms@[n - 1]));
            assert(dug_by(room, before.last_room(), x, y));
        }
    }
    assert forall|i: int| 0 <= i < after.rooms@.len() implies {
        let r = #[trigger] after.rooms@[i];
        &&& 0 <= r.x1
        &&& r.x2 <= after.width - 2
        &&& 0 <= r.y1
        &&& r.y2 <= after.height - 2
        &&& MIN_SIZE <= r.x2 - r.x1 < MAX_SIZE
        &&& MIN_SIZE <= r.y2 - r.y1 < MAX_SIZE
    } by {
        if i < n {
            assert(after.rooms@[i] == before.rooms@[i]);
        }
    }
    assert forall|a: int, b: int| 0 <= a < b < after.rooms@.len() implies !(
    #[trigger] after.rooms@[a]).overlaps(#[trigger] after.rooms@[b]) by {
        assert(after.rooms@[a] == before.rooms@[a]);
        if b < n {
            assert(after.rooms@[b] == before.rooms@[b]);
        } else {
            assert(!room.overlaps(before.rooms@[a]));
        }
    }
    assert forall|i: int, x: int, y: int|
        0 <= i < after.rooms@.len() && (#[trigger] after.rooms@[i]).carves(x, y) implies #[trigger] after.tile_at(
        x,
        y,
    ) == TileType::Floor by {
        if i < n {
            assert(after.rooms@[i] == before.rooms@[i]);
            assert(before.room_fits(before.rooms@[i]));
            assert(before.in_bounds(x, y));
            assert(before.tile_at(x, y) == TileType::Floor);
        } else {
            assert(before.in_bounds(x, y));
        }
    }
    assert forall|x: int, y: int|
        after.in_bounds(x, y) && #[trigger] after.tile_at(x, y) == TileType::Floor implies 1 <= x
        <= 78 && 1 <= y <= 48 by {
        assert(before.in_bounds(x, y));
        if dug_by(room, before.last_room(), x, y) {
            if n > 0 {
                let p = before.rooms@[n - 1];
                assert(before.room_fits(p));
            }
        } else {
            assert(before.tile_at(x, y) == TileType::Floor);
        }
    }
}


impl TileMap {
    /// Whether `(x, y)` lies on the map.
    pub open spec fn in_bounds(&self, x: int, y: int) -> bool {
        0 <= x < self.width && 0 <= y < self.height
    }

    /// Whether `r` lies on the map.
    pub open spec fn room_fits(&self, r: Rect) -> bool {
        0 <= r.x1 <= r.x2 < self.width && 0 <= r.y1 <= r.y2 < self.height
    }

    /// The grid and everything derived from it have matching sizes, and the
    /// rooms lie on the map.
    pub open spec fn wf(&self) -> bool {
        &&& 0 <= self.width <= MAX_DIMENSION
        &&& 0 <= self.height <= MAX_DIMENSION
        &&& self.tiles@.len() == self.width * self.height
        &&& self.revealed_tiles@.len() == self.tiles@.len()
        &&& self.visible_tiles@.len() == self.tiles@.len()
        &&& self.blocked@.len() == self.tiles@.len()
        &&& self.tile_content@.len() == self.tiles@.len()
        &&& forall|i: int| 0 <= i < self.rooms@.len() ==> self.room_fits(#[trigger] self.rooms@[i])
    }

    /// The index of cell `(x, y)`.
    pub open spec fn index_of(&self, x: int, y: int) -> int {
        cell_index(self.width as int, x, y)
    }

    /// The tile at `(x, y)`.
    pub open spec fn tile_at(&self, x: int, y: int) -> TileType {
        self.tiles@[self.index_of(x, y)]
    }

    /// All of the map but its tiles and rooms is as in `other`.
    pub open spec fn same_but_layout(&self, other: TileMap) -> bool {
        &&& self.width == other.width
        &&& self.height == other.height
        &&& self.depth == other.depth
        &&& self.revealed_tiles == other.revealed_tiles
        &&& self.visible_tiles == other.visible_tiles
        &&& self.blocked == other.blocked
        &&& self.tile_content == other.tile_content
        &&& self.tiles@.len() == other.tiles@.len()
    }

    /// The index of the tile at `(x, y)`.
    pub fn xy_index(&self, x: i32, y: i32) -> (i: usize)
        requires
            self.wf(),
            self.in_bounds(x as int, y as int),
        ensures
            i == self.index_of(x as int, y as int),
            i < self.tiles@.len(),
    {
        proof {
            lemma_cell_index(self.width as int, self.height as int, x as int, y as int);
            assert(self.width * self.height <= 32767 * 32767) by (nonlinear_arith)
                requires
                    0 <= self.width <= 32767,
                    0 <= self.height <= 32767,
            ;
            assert(0 <= y * self.width) by (nonlinear_arith)
                requires
                    0 <= y,
                    0 <= self.width,
            ;
        }
        (y as usize * self.width as usize) + x as usize
    }

    /// Whether `(x, y)` lies on the map.
    pub fn contains(&self, x: i32, y: i32) -> (r: bool)
        ensures
            r == self.in_bounds(x as int, y as int),
    {
        0 <= x && x < self.width && 0 <= y && y < self.height
    }

    /// The cell with index `i`.
    pub fn index_to_point(&self, i: usize) -> (p: (i32, i32))
        requires
            self.wf(),
            i < self.tiles@.len(),
        ensures
            self.in_bounds(p.0 as int, p.1 as int),
            self.index_of(p.0 as int, p.1 as int) == i,
    {
        proof {
            assert(self.width > 0) by (nonlinear_arith)
                requires
                    0 <= i < self.width * self.height,
                    0 <= self.width,
            ;
            lemma_index_cell(self.width as int, self.height as int, i as int);
        }
        let w = self.width as usize;
        ((i % w) as i32, (i / w) as i32)
    }

    /// Turns the tile at `(x, y)` into floor.
    fn dig(&mut self, x: i32, y: i32)
        requires
            old(self).wf(),
            old(self).in_bounds(x as int, y as int),
        ensures
            final(self).same_but_layout(*old(self)),
            final(self).rooms == old(self).rooms,
            forall|cx: int, cy: int|
                old(self).in_bounds(cx, cy) ==> #[trigger] final(self).tile_at(cx, cy) == if cx == x
                    && cy == y {
                    TileType::Floor
                } else {
                    old(self).tile_at(cx, cy)
                },
    {
        let index = self.xy_index(x, y);
        self.tiles[index] = TileType::Floor;
        proof {
            assert forall|cx: int, cy: int| old(self).in_bounds(cx, cy) implies #[trigger] self.tile_at(
                cx,
                cy,
            ) == if cx == x && cy == y {
                TileType::Floor
            } else {
                old(self).tile_at(cx, cy)
            } by {
                lemma_cell_index(self.width as int, self.height as int, cx, cy);
                lemma_cell_index(self.width as int, self.height as int, x as int, y as int);
            }
        }
    }

    /// Carves the room out of the rock: all of it but its left column and
    /// top row becomes floor.
    fn apply_room_to_map(&mut self, room: &Rect)
        requires
            old(self).wf(),
            old(self).room_fits(*room),
        ensures
            final(self).same_but_layout(*old(self)),
            final(self).rooms == old(self).rooms,
            forall|cx: int, cy: int|
                old(self).in_bounds(cx, cy) ==> #[trigger] final(self).tile_at(cx, cy) == if room.carves(
                    cx,
                    cy,
                ) {
                    TileType::Floor
                } else {
                    old(self).tile_at(cx, cy)
                },
    {
        let mut y: i32 = room.y1 + 1;
        while y <= room.y2
            invariant
                self.wf(),
                old(self).wf(),
                old(self).room_fits(*room),
                self.same_but_layout(*old(self)),
                self.rooms == old(self).rooms,
                room.y1 < y <= room.y2 + 1,
                forall|cx: int, cy: int|
                    old(self).in_bounds(cx, cy) ==> #[trigger] self.tile_at(cx, cy) == if room.carves(
                        cx,
                        cy,
                    ) && cy < y {
                        TileType::Floor
                    } else {
                        old(self).tile_at(cx, cy)
                    },
            decreases room.y2 + 1 - y,
        {
            let mut x: i32 = room.x1 + 1;
            while x <= room.x2
                invariant
                    self.wf(),
                    old(self).wf(),
                    old(self).room_fits(*room),
                    self.same_but_layout(*old(self)),
                    self.rooms == old(self).rooms,
                    room.y1 < y <= room.y2,
                    room.x1 < x <= room.x2 + 1,
                    forall|cx: int, cy: int|
                        old(self).in_bounds(cx, cy) ==> #[trigger] self.tile_at(cx, cy) == if room.carves(
                            cx,
                            cy,
                        ) && (cy < y || (cy == y && cx < x)) {
                            TileType::Floor
                        } else {
                            old(self).tile_at(cx, cy)
                        },
                decreases room.x2 + 1 - x,
            {
                self.dig(x, y);
                x = x + 1;
            }
            y = y + 1;
        }
    }

    /// Digs a tunnel along row `y` between columns `x1` and `x2`.
    fn apply_horizontal_tunnel(&mut self, x1: i32, x2: i32, y: i32)
        requires
            old(self).wf(),
            old(self).in_bounds(x1 as int, y as int),
            old(self).in_bounds(x2 as int, y as int),
        ensures
            final(self).same_but_layout(*old(self)),
            final(self).rooms == old(self).rooms,
            forall|cx: int, cy: int|
                old(self).in_bounds(cx, cy) ==> #[trigger] final(self).tile_at(cx, cy)
                    == if on_row_tunnel(x1 as int, x2 as int, y as int, cx, cy) {
                    TileType::Floor
                } else {
                    old(self).tile_at(cx, cy)
                },
    {
        let lo: i32 = if x1 <= x2 { x1 } else { x2 };
        let hi: i32 = if x1 <= x2 { x2 } else { x1 };
        let mut x: i32 = lo;
        while x <= hi
            invariant
                self.wf(),
                old(self).wf(),
                old(self).in_bounds(lo as int, y as int),
                old(self).in_bounds(hi as int, y as int),
                self.same_but_layout(*old(self)),
                self.rooms == old(self).rooms,
                lo <= x <= hi + 1,
                forall|v: int| between(x1 as int, x2 as int, v) <==> lo <= v <= hi,
                forall|cx: int, cy: int|
                    old(self).in_bounds(cx, cy) ==> #[trigger] self.tile_at(cx, cy)
                        == if on_row_tunnel(x1 as int, x2 as int, y as int, cx, cy) && cx < x {
                        TileType::Floor
                    } else {
                        old(self).tile_at(cx, cy)
                    },
            decreases hi + 1 - x,
        {
            let index = self.xy_index(x, y);
            proof {
                lemma_cell_index(self.width as int, self.height as int, x as int, y as int);
            }
            if index > 0 && index < self.tiles.len() {
                self.dig(x, y);
            }
            x = x + 1;
        }
    }

    /// Digs a tunnel along column `x` between rows `y1` and `y2`.
    fn apply_vertical_tunnel(&mut self, y1: i32, y2: i32, x: i32)
        requires
            old(self).wf(),
            old(self).in_bounds(x as int, y1 as int),
            old(self).in_bounds(x as int, y2 as int),
        ensures
            final(self).same_but_layout(*old(self)),
            final(self).rooms == old(self).rooms,
            forall|cx: int, cy: int|
                old(self).in_bounds(cx, cy) ==> #[trigger] final(self).tile_at(cx, cy)
                    == if on_column_tunnel(y1 as int, y2 as int, x as int, cx, cy) {
                    TileType::Floor
                } else {
                    old(self).tile_at(cx, cy)
                },
    {
        let lo: i32 = if y1 <= y2 { y1 } else { y2 };
        let hi: i32 = if y1 <= y2 { y2 } else { y1 };
        let mut y: i32 = lo;
        while y <= hi
            invariant
                self.wf(),
                old(self).wf(),
                old(self).in_bounds(x as int, lo as int),
                old(self).in_bounds(x as int, hi as int),
                self.same_but_layout(*old(self)),
                self.rooms == old(self).rooms,
                lo <= y <= hi + 1,
                forall|v: int| between(y1 as int, y2 as int, v) <==> lo <= v <= hi,
                forall|cx: int, cy: int|
                    old(self).in_bounds(cx, cy) ==> #[trigger] self.tile_at(cx, cy)
                        == if on_column_tunnel(y1 as int, y2 as int, x as int, cx, cy) && cy < y {
                        TileType::Floor
                    } else {
                        old(self).tile_at(cx, cy)
                    },
            decreases hi + 1 - y,
        {
            let index = self.xy_index(x, y);
            proof {
                lemma_cell_index(self.width as int, self.height as int, x as int, y as int);
            }
            if index > 0 && index < self.tiles.len() {
                self.dig(x, y);
            }
            y = y + 1;
        }
    }

    /// The room added last, if there is one.
    pub open spec fn last_room(&self) -> Option<Rect> {
        if self.rooms@.len() > 0 {
            Some(self.rooms@[self.rooms@.len() - 1])
        } else {
            None
        }
    }

    /// Whether no room of the map shares a point with `r`.
    pub open spec fn is_free(&self, r: Rect) -> bool {
        forall|i: int| 0 <= i < self.rooms@.len() ==> !r.overlaps(#[trigger] self.rooms@[i])
    }

    /// A map of solid rock with the given size, nothing seen and nothing on
    /// it.
    pub fn new(width: i32, height: i32, depth: i32) -> (m: TileMap)
        requires
            0 <= width <= MAX_DIMENSION,
            0 <= height <= MAX_DIMENSION,
        ensures
            m.wf(),
            m.width == width,
            m.height == height,
            m.depth == depth,
            m.rooms@.len() == 0,
            forall|i: int| 0 <= i < m.tiles@.len() ==> m.tiles@[i] == TileType::Wall,
            forall|i: int| 0 <= i < m.tiles@.len() ==> !m.revealed_tiles@[i],
            forall|i: int| 0 <= i < m.tiles@.len() ==> !m.visible_tiles@[i],
            forall|i: int| 0 <= i < m.tiles@.len() ==> !m.blocked@[i],
            forall|i: int| 0 <= i < m.tiles@.len() ==> m.tile_content@[i]@.len() == 0,
    {
        proof {
            assert(0 <= width * height <= 32767 * 32767) by (nonlinear_arith)
                requires
                    0 <= width <= 32767,
                    0 <= height <= 32767,
            ;
        }
        let count: usize = width as usize * height as usize;
        let mut m = TileMap {
            tiles: Vec::new(),
            rooms: Vec::new(),
            width,
            height,
            revealed_tiles: Vec::new(),
            visible_tiles: Vec::new(),
            blocked: Vec::new(),
            depth,
            tile_content: Vec::new(),
        };
        let mut i: usize = 0;
        while i < count
            invariant
                i <= count,
                count == width * height,
                m.width == width,
                m.height == height,
                m.depth == depth,
                m.rooms@.len() == 0,
                m.tiles@.len() == i,
                m.revealed_tiles@.len() == i,
                m.visible_tiles@.len() == i,
                m.blocked@.len() == i,
                m.tile_content@.len() == i,
                forall|k: int| 0 <= k < i ==> m.tiles@[k] == TileType::Wall,
                forall|k: int| 0 <= k < i ==> !m.revealed_tiles@[k],
                forall|k: int| 0 <= k < i ==> !m.visible_tiles@[k],
                forall|k: int| 0 <= k < i ==> !m.blocked@[k],
                forall|k: int| 0 <= k < i ==> m.tile_content@[k]@.len() == 0,
            decreases count - i,
        {
            m.tiles.push(TileType::Wall);
            m.revealed_tiles.push(false);
            m.visible_tiles.push(false);
            m.blocked.push(false);
            m.tile_content.push(Vec::new());
            i = i + 1;
        }
        m
    }

    /// Adds `new_room` unless it touches a room that is already there. A
    /// room that is added is carved out and joined to the room added before
    /// it by one tunnel along the old room's row and one along the new
    /// room's column, between their centres. `horizontal_first` chooses
    /// which of the two is dug first; the same tiles are dug either way.
    pub fn add_room(&mut self, new_room: Rect, horizontal_first: bool) -> (added: bool)
        requires
            old(self).wf(),
            old(self).room_fits(new_room),
        ensures
            added == old(self).is_free(new_room),
            !added ==> *final(self) == *old(self),
            added ==> final(self).rooms@ == old(self).rooms@.push(new_room),
            final(self).wf(),
            final(self).same_but_layout(*old(self)),
            added ==> forall|cx: int, cy: int|
                old(self).in_bounds(cx, cy) ==> #[trigger] final(self).tile_at(cx, cy) == if dug_by(
                    new_room,
                    old(self).last_room(),
                    cx,
                    cy,
                ) {
                    TileType::Floor
                } else {
                    old(self).tile_at(cx, cy)
                },
    {
        let mut ok = true;
        let mut i: usize = 0;
        while i < self.rooms.len()
            invariant
                i <= self.rooms@.len(),
                *self == *old(self),
                ok == (forall|k: int| 0 <= k < i ==> !new_room.overlaps(#[trigger] self.rooms@[k])),
            decreases self.rooms@.len() - i,
        {
            if new_room.intersect(&self.rooms[i]) {
                ok = false;
            }
            i = i + 1;
        }
        if ok {
            self.apply_room_to_map(&new_room);
            let ghost carved = *self;
            if self.rooms.len() > 0 {
                let (new_x, new_y) = new_room.center();
                let prev: Rect = self.rooms[self.rooms.len() - 1];
                assert(self.room_fits(prev));
                let (prev_x, prev_y) = prev.center();
                if horizontal_first {
                    self.apply_horizontal_tunnel(prev_x, new_x, prev_y);
                    let ghost mid = *self;
                    self.apply_vertical_tunnel(prev_y, new_y, new_x);
                    assert forall|cx: int, cy: int| old(self).in_bounds(cx, cy) implies #[trigger] self.tile_at(
                        cx,
                        cy,
                    ) == if dug_by(new_room, old(self).last_room(), cx, cy) {
                        TileType::Floor
                    } else {
                        old(self).tile_at(cx, cy)
                    } by {
                        assert(mid.in_bounds(cx, cy) && carved.in_bounds(cx, cy));
                        let a = mid.tile_at(cx, cy);
                        let b = carved.tile_at(cx, cy);
                    }
                } else {
                    self.apply_vertical_tunnel(prev_y, new_y, new_x);
                    let ghost mid = *self;
                    self.apply_horizontal_tunnel(prev_x, new_x, prev_y);
                    assert forall|cx: int, cy: int| old(self).in_bounds(cx, cy) implies #[trigger] self.tile_at(
                        cx,
                        cy,
                    ) == if dug_by(new_room, old(self).last_room(), cx, cy) {
                        TileType::Floor
                    } else {
                        old(self).tile_at(cx, cy)
                    } by {
                        assert(mid.in_bounds(cx, cy) && carved.in_bounds(cx, cy));
                        let a = mid.tile_at(cx, cy);
                        let b = carved.tile_at(cx, cy);
                    }
                }
            }
            let ghost dug = *self;
            self.rooms.push(new_room);
            assert forall|cx: int, cy: int| old(self).in_bounds(cx, cy) implies #[trigger] self.tile_at(
                cx,
                cy,
            ) == if dug_by(new_room, old(self).last_room(), cx, cy) {
                TileType::Floor
            } else {
                old(self).tile_at(cx, cy)
            } by {
                assert(self.tile_at(cx, cy) == dug.tile_at(cx, cy));
            }
            assert forall|i: int| 0 <= i < self.rooms@.len() implies self.room_fits(
                #[trigger] self.rooms@[i],
            ) by {
                if i < old(self).rooms@.len() {
                    assert(self.rooms@[i] == old(self).rooms@[i]);
                }
            }
        }
        ok
    }

    /// Whether every room of the map has the shape that generation gives
    /// it and keeps clear of the map's border.
    pub open spec fn rooms_regular(&self) -> bool {
        forall|i: int|
            0 <= i < self.rooms@.len() ==> {
                let r = #[trigger] self.rooms@[i];
                &&& 0 <= r.x1
                &&& r.x2 <= self.width - 2
                &&& 0 <= r.y1
                &&& r.y2 <= self.height - 2
                &&& MIN_SIZE <= r.x2 - r.x1 < MAX_SIZE
                &&& MIN_SIZE <= r.y2 - r.y1 < MAX_SIZE
            }
    }

    /// Whether no two rooms of the map share a point.
    pub open spec fn rooms_apart(&self) -> bool {
        forall|a: int, b: int|
            0 <= a < b < self.rooms@.len() ==> !(#[trigger] self.rooms@[a]).overlaps(
                #[trigger] self.rooms@[b],
            )
    }

    /// Whether all that the rooms carve out is floor.
    pub open spec fn rooms_carved(&self) -> bool {
        forall|i: int, x: int, y: int|
            0 <= i < self.rooms@.len() && (#[trigger] self.rooms@[i]).carves(x, y)
                ==> #[trigger] self.tile_at(x, y) == TileType::Floor
    }

    /// Whether every room but the first is joined to the room before it:
    /// the tunnels between their centres are floor.
    pub open spec fn rooms_joined(&self) -> bool {
        forall|i: int, x: int, y: int|
            1 <= i < self.rooms@.len() && self.in_bounds(x, y) && joins(
                self.rooms@[i - 1],
                #[trigger] self.rooms@[i],
                x,
                y,
            ) ==> #[trigger] self.tile_at(x, y) == TileType::Floor
    }

    /// Whether the outermost ring of tiles is solid rock.
    pub open spec fn border_is_wall(&self) -> bool {
        forall|x: int, y: int|
            self.in_bounds(x, y) && (x == 0 || y == 0 || x == self.width - 1 || y == self.height
                - 1) ==> #[trigger] self.tile_at(x, y) == TileType::Wall
    }

    /// Whether nothing of the map has been seen, nothing blocks it and
    /// nobody is on record as standing on it.
    pub open spec fn is_untouched(&self) -> bool {
        &&& forall|i: int| 0 <= i < self.tiles@.len() ==> !#[trigger] self.revealed_tiles@[i]
        &&& forall|i: int| 0 <= i < self.tiles@.len() ==> !#[trigger] self.visible_tiles@[i]
        &&& forall|i: int| 0 <= i < self.tiles@.len() ==> !#[trigger] self.blocked@[i]
        &&& forall|i: int|
            0 <= i < self.tiles@.len() ==> (#[trigger] self.tile_content@[i])@.len() == 0
    }

    /// Whether the map is one that generation makes for the given depth:
    /// 80 by 50 tiles, between one and `MAX_ROOMS` rooms of the generated
    /// shape that keep apart, are carved out and are joined each to the one
    /// before it, solid rock all around, and
    /// nothing seen or standing on it yet.
    pub open spec fn is_fresh_level(&self, depth: i32) -> bool {
        &&& self.wf()
        &&& self.width == 80
        &&& self.height == 50
        &&& self.depth == depth
        &&& 1 <= self.rooms@.len() <= MAX_ROOMS
        &&& self.rooms_regular()
        &&& self.rooms_apart()
        &&& self.rooms_carved()
        &&& self.rooms_joined()
        &&& self.border_is_wall()
        &&& self.is_untouched()
    }

    /// The centre of a room of the generated shape is floor.
    pub proof fn lemma_room_center_is_floor(&self, r: int)
        requires
            self.wf(),
            self.rooms_regular(),
            self.rooms_carved(),
            0 <= r < self.rooms@.len(),
        ensures
            self.in_bounds(self.rooms@[r].center_point().0, self.rooms@[r].center_point().1),
            self.tile_at(self.rooms@[r].center_point().0, self.rooms@[r].center_point().1)
                == TileType::Floor,
    {
        let room = self.rooms@[r];
        assert(self.room_fits(room));
        assert(room.carves(room.center_point().0, room.center_point().1));
    }

    /// Makes an 80 by 50 map of up to 30 rooms joined by tunnels. Which
    /// rooms it has is left to chance; what holds of every outcome is
    /// stated.
    pub fn new_map_rooms_and_corridors(new_depth: i32) -> (map: TileMap)
        ensures
            map.is_fresh_level(new_depth),
    {
        let mut rng = rltk::RandomNumberGenerator::new();
        let mut map = TileMap::new(80, 50, new_depth);
        proof {
            assert forall|x: int, y: int| map.in_bounds(x, y) implies #[trigger] map.tile_at(x, y)
                == TileType::Wall by {
                lemma_cell_index(80, 50, x, y);
            }
        }
        let mut n: i32 = 0;
        while n < MAX_ROOMS
            invariant
                0 <= n <= MAX_ROOMS,
                map.wf(),
                map.width == 80,
                map.height == 50,
                map.depth == new_depth,
                map.rooms@.len() <= n,
                n > 0 ==> map.rooms@.len() >= 1,
                map.rooms_regular(),
                map.rooms_apart(),
                map.rooms_carved(),
                map.rooms_joined(),
                forall|x: int, y: int|
                    map.in_bounds(x, y) && #[trigger] map.tile_at(x, y) == TileType::Floor ==> 1 <= x
                        <= 78 && 1 <= y <= 48,
                forall|i: int| 0 <= i < map.tiles@.len() ==> !map.revealed_tiles@[i],
                forall|i: int| 0 <= i < map.tiles@.len() ==> !map.visible_tiles@[i],
                forall|i: int| 0 <= i < map.tiles@.len() ==> !map.blocked@[i],
                forall|i: int| 0 <= i < map.tiles@.len() ==> map.tile_content@[i]@.len() == 0,
            decreases MAX_ROOMS - n,
        {
            let w: i32 = range(&mut rng, MIN_SIZE, MAX_SIZE);
            let h: i32 = range(&mut rng, MIN_SIZE, MAX_SIZE);
            let x: i32 = rng.roll_dice(1, map.width - w - 1) - 1;
            let y: i32 = rng.roll_dice(1, map.height - h - 1) - 1;
            let new_room = Rect::new(x, y, w, h);
            let coin: i32 = range(&mut rng, 0, 2);
            let ghost before = map;
            let added = map.add_room(new_room, coin == 1);
            proof {
                if added {
                    lemma_room_added(before, map, new_room);
                }
            }
            n = n + 1;
        }
        map
    }

    /// Whether the lasting part of the map is that of `other`: its size
    /// and depth, its tiles and rooms, what is revealed, visible and
    /// blocked. Who occupies the tiles is not part of it.
    pub open spec fn same_layout(&self, other: TileMap) -> bool {
        &&& self.width == other.width
        &&& self.height == other.height
        &&& self.depth == other.depth
        &&& self.tiles@ == other.tiles@
        &&& self.rooms@ == other.rooms@
        &&& self.revealed_tiles@ == other.revealed_tiles@
        &&& self.visible_tiles@ == other.visible_tiles@
        &&& self.blocked@ == other.blocked@
    }

    /// Whether no tile has an occupant on record, and there is a record for
    /// each tile.
    pub open spec fn content_is_empty(&self) -> bool {
        &&& self.tile_content@.len() == self.tiles@.len()
        &&& forall|i: int|
            0 <= i < self.tile_content@.len() ==> (#[trigger] self.tile_content@[i])@.len() == 0
    }

    /// Whether the map is well formed but for the record of occupants.
    pub open spec fn layout_wf(&self) -> bool {
        &&& 0 <= self.width <= MAX_DIMENSION
        &&& 0 <= self.height <= MAX_DIMENSION
        &&& self.tiles@.len() == self.width * self.height
        &&& self.revealed_tiles@.len() == self.tiles@.len()
        &&& self.visible_tiles@.len() == self.tiles@.len()
        &&& self.blocked@.len() == self.tiles@.len()
        &&& forall|i: int| 0 <= i < self.rooms@.len() ==> self.room_fits(#[trigger] self.rooms@[i])
    }

    /// Checks `layout_wf`.
    pub fn layout_is_well_formed(&self) -> (ok: bool)
        ensures
            ok == self.layout_wf(),
    {
        if !(0 <= self.width && self.width <= MAX_DIMENSION && 0 <= self.height && self.height
            <= MAX_DIMENSION) {
            return false;
        }
        proof {
            assert(0 <= self.width * self.height <= 32767 * 32767) by (nonlinear_arith)
                requires
                    0 <= self.width <= 32767,
                    0 <= self.height <= 32767,
            ;
        }
        let count: usize = self.width as usize * self.height as usize;
        if self.tiles.len() != count || self.revealed_tiles.len() != count
            || self.visible_tiles.len() != count || self.blocked.len() != count {
            return false;
        }
        let mut i: usize = 0;
        while i < self.rooms.len()
            invariant
                i <= self.rooms@.len(),
                forall|k: int| 0 <= k < i ==> self.room_fits(#[trigger] self.rooms@[k]),
            decreases self.rooms@.len() - i,
        {
            let r: Rect = self.rooms[i];
            if !(0 <= r.x1 && r.x1 <= r.x2 && r.x2 < self.width && 0 <= r.y1 && r.y1 <= r.y2 && r.y2
                < self.height) {
                assert(!self.room_fits(self.rooms@[i as int]));
                return false;
            }
            i = i + 1;
        }
        true
    }

    /// Checks `wf`.
    pub fn is_well_formed(&self) -> (ok: bool)
        ensures
            ok == self.wf(),
    {
        self.layout_is_well_formed() && self.tile_content.len() == self.tiles.len()
    }

    /// A copy of the lasting part of the map, with no occupant on record.
    pub fn persistent_copy(&self) -> (copy: TileMap)
        ensures
            copy.same_layout(*self),
            copy.content_is_empty(),
    {
        let tiles = self.tiles.clone();
        let rooms = self.rooms.clone();
        let revealed_tiles = self.revealed_tiles.clone();
        let visible_tiles = self.visible_tiles.clone();
        let blocked = self.blocked.clone();
        assert(tiles@ =~= self.tiles@);
        assert(rooms@ =~= self.rooms@);
        assert(revealed_tiles@ =~= self.revealed_tiles@);
        assert(visible_tiles@ =~= self.visible_tiles@);
        assert(blocked@ =~= self.blocked@);
        let mut tile_content: Vec<Vec<Entity>> = Vec::new();
        let mut i: usize = 0;
        while i < self.tiles.len()
            invariant
                i <= self.tiles@.len(),
                tile_content@.len() == i,
                forall|k: int| 0 <= k < i ==> (#[trigger] tile_content@[k])@.len() == 0,
            decreases self.tiles@.len() - i,
        {
            tile_content.push(Vec::new());
            i = i + 1;
        }
        TileMap {
            tiles,
            rooms,
            width: self.width,
            height: self.height,
            revealed_tiles,
            visible_tiles,
            blocked,
            depth: self.depth,
            tile_content,
        }
    }

    /// Whether the eye is stopped at index `idx`: by a wall, and by
    /// everything beyond the grid.
    pub open spec fn stops_sight(&self, idx: int) -> bool {
        idx >= self.tiles@.len() || self.tiles@[idx] == TileType::Wall
    }

    /// Whether each tile stops the eye: the walls, in index order.
    pub open spec fn opacity(&self) -> Seq<bool> {
        Seq::new(self.tiles@.len(), |i: int| self.tiles@[i] == TileType::Wall)
    }

    /// Marks exactly the walls as blocked.
    pub fn populate_blocked(&mut self)
        requires
            old(self).wf(),
        ensures
            final(self).wf(),
            final(self).blocked@ == old(self).opacity(),
            final(self).tiles == old(self).tiles,
            final(self).rooms == old(self).rooms,
            final(self).width == old(self).width,
            final(self).height == old(self).height,
            final(self).depth == old(self).depth,
            final(self).revealed_tiles == old(self).revealed_tiles,
            final(self).visible_tiles == old(self).visible_tiles,
            final(self).tile_content == old(self).tile_content,
    {
        let mut i: usize = 0;
        while i < self.tiles.len()
            invariant
                i <= self.tiles@.len(),
                self.wf(),
                self.tiles == old(self).tiles,
                self.rooms == old(self).rooms,
                self.width == old(self).width,
                self.height == old(self).height,
                self.depth == old(self).depth,
                self.revealed_tiles == old(self).revealed_tiles,
                self.visible_tiles == old(self).visible_tiles,
                self.tile_content == old(self).tile_content,
                forall|k: int| 0 <= k < i ==> self.blocked@[k] == (self.tiles@[k] == TileType::Wall),
            decreases self.tiles@.len() - i,
        {
            let wall = self.tiles[i] == TileType::Wall;
            self.blocked[i] = wall;
            i = i + 1;
        }
        assert(self.blocked@ =~= old(self).opacity());
    }

    /// Empties the occupant list of every tile.
    pub fn clear_content_index(&mut self)
        requires
            old(self).wf(),
        ensures
            final(self).wf(),
            forall|i: int| 0 <= i < final(self).tile_content@.len() ==> (
            #[trigger] final(self).tile_content@[i])@.len() == 0,
            final(self).tiles == old(self).tiles,
            final(self).rooms == old(self).rooms,
            final(self).width == old(self).width,
            final(self).height == old(self).height,
            final(self).depth == old(self).depth,
            final(self).revealed_tiles == old(self).revealed_tiles,
            final(self).visible_tiles == old(self).visible_tiles,
            final(self).blocked == old(self).blocked,
    {
        let mut i: usize = 0;
        while i < self.tile_content.len()
            invariant
                i <= self.tile_content@.len(),
                self.wf(),
                self.tiles == old(self).tiles,
                self.rooms == old(self).rooms,
                self.width == old(self).width,
                self.height == old(self).height,
                self.depth == old(self).depth,
                self.revealed_tiles == old(self).revealed_tiles,
                self.visible_tiles == old(self).visible_tiles,
                self.blocked == old(self).blocked,
                forall|k: int| 0 <= k < i ==> (#[trigger] self.tile_content@[k])@.len() == 0,
            decreases self.tile_content@.len() - i,
        {
            self.tile_content[i].clear();
            i = i + 1;
        }
    }
}

/// `rltk::Point`, taken as it is. It is declared with its fields, the two
/// coordinates that the outside crate makes public, so that the size of
/// the map can be handed to the outside crate as a point and a contract
/// can say which point that is.
#[verifier::external_type_specification]
pub struct ExPoint(rltk::Point);

impl rltk::BaseMap for TileMap {
    /// Walls stop the eye, and so does everything beyond the grid.
    fn is_opaque(&self, idx: usize) -> (opaque: bool)
        ensures opaque == self.stops_sight(idx as int),
    { idx >= self.tiles.len() || self.tiles[idx] == TileType::Wall }
}

impl rltk::Algorithm2D for TileMap {
    fn dimensions(&self) -> (size: rltk::Point)
        ensures size.x == self.width, size.y == self.height,
    { rltk::Point { x: self.width, y: self.height } }
}

} // verus!
