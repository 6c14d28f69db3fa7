use rltk::{Algorithm2D, BaseMap};
use roguelike::{Rect, TileMap, TileType};

fn carve(map: &mut TileMap, x: i32, y: i32) {
    let idx = map.xy_index(x, y);
    map.tiles[idx] = TileType::Floor;
}

#[test]
fn generated_map_has_rooms_and_walled_border() {
    let map = TileMap::new_map_rooms_and_corridors(1);
    assert_eq!(map.width, 80);
    assert_eq!(map.height, 50);
    assert_eq!(map.depth, 1);
    assert_eq!(map.tiles.len(), 4000);
    assert_eq!(map.revealed_tiles.len(), 4000);
    assert_eq!(map.visible_tiles.len(), 4000);
    assert_eq!(map.blocked.len(), 4000);
    assert_eq!(map.tile_content.len(), 4000);
    assert!(!map.rooms.is_empty());
    assert!(map.rooms.len() <= 30);
    for x in 0..80 {
        assert_eq!(map.tiles[map.xy_index(x, 0)], TileType::Wall);
        assert_eq!(map.tiles[map.xy_index(x, 49)], TileType::Wall);
    }
    for y in 0..50 {
        assert_eq!(map.tiles[map.xy_index(0, y)], TileType::Wall);
        assert_eq!(map.tiles[map.xy_index(79, y)], TileType::Wall);
    }
    assert!(map.revealed_tiles.iter().all(|r| !*r));
    assert!(map.visible_tiles.iter().all(|r| !*r));
}

#[test]
fn generated_rooms_keep_apart_and_are_carved() {
    for depth in 1..6 {
        let map = TileMap::new_map_rooms_and_corridors(depth);
        for (i, room) in map.rooms.iter().enumerate() {
            let w = room.x2 - room.x1;
            let h = room.y2 - room.y1;
            assert!((6..10).contains(&w));
            assert!((6..10).contains(&h));
            assert!(room.x1 >= 0 && room.x2 <= 78);
            assert!(room.y1 >= 0 && room.y2 <= 48);
            for other in map.rooms.iter().skip(i + 1) {
                assert!(!room.intersect(other));
            }
            for y in (room.y1 + 1)..=room.y2 {
                for x in (room.x1 + 1)..=room.x2 {
                    assert_eq!(map.tiles[map.xy_index(x, y)], TileType::Floor);
                }
            }
            let (cx, cy) = room.center();
            assert_eq!(map.tiles[map.xy_index(cx, cy)], TileType::Floor);
        }
    }
}

#[test]
fn generated_rooms_are_joined_by_tunnels() {
    let map = TileMap::new_map_rooms_and_corridors(1);
    for pair in map.rooms.windows(2) {
        let (px, py) = pair[0].center();
        let (nx, ny) = pair[1].center();
        for x in px.min(nx)..=px.max(nx) {
            assert_eq!(map.tiles[map.xy_index(x, py)], TileType::Floor);
        }
        for y in py.min(ny)..=py.max(ny) {
            assert_eq!(map.tiles[map.xy_index(nx, y)], TileType::Floor);
        }
    }
}

#[test]
fn xy_index_is_row_major() {
    let map = TileMap::new(80, 50, 1);
    assert_eq!(map.xy_index(0, 0), 0);
    assert_eq!(map.xy_index(3, 2), 163);
    assert_eq!(map.xy_index(79, 49), 3999);
    assert_eq!(map.index_to_point(163), (3, 2));
    assert_eq!(map.index_to_point(3999), (79, 49));
    assert!(map.contains(79, 49));
    assert!(!map.contains(80, 0));
    assert!(!map.contains(0, -1));
}

#[test]
fn new_map_is_solid_rock() {
    let map = TileMap::new(4, 3, 7);
    assert_eq!(map.tiles, vec![TileType::Wall; 12]);
    assert_eq!(map.depth, 7);
    assert!(map.rooms.is_empty());
    assert!(map.layout_is_well_formed());
    let empty = TileMap::new(0, 0, 1);
    assert!(empty.tiles.is_empty());
}

#[test]
fn add_room_carves_and_joins() {
    let mut map = TileMap::new(20, 20, 1);
    assert!(map.add_room(Rect::new(1, 1, 4, 4), true));
    assert_eq!(map.rooms.len(), 1);
    assert_eq!(map.tiles[map.xy_index(2, 2)], TileType::Floor);
    assert_eq!(map.tiles[map.xy_index(5, 5)], TileType::Floor);
    assert_eq!(map.tiles[map.xy_index(1, 2)], TileType::Wall);
    assert_eq!(map.tiles[map.xy_index(2, 1)], TileType::Wall);
    assert_eq!(map.tiles[map.xy_index(6, 5)], TileType::Wall);
    // The second room is joined to the first: along row 3 from column 3 to
    // column 14, then along column 14 from row 3 to row 14.
    assert!(map.add_room(Rect::new(12, 12, 4, 4), false));
    assert_eq!(map.rooms.len(), 2);
    for x in 3..=14 {
        assert_eq!(map.tiles[map.xy_index(x, 3)], TileType::Floor);
    }
    for y in 3..=14 {
        assert_eq!(map.tiles[map.xy_index(14, y)], TileType::Floor);
    }
    assert_eq!(map.tiles[map.xy_index(3, 10)], TileType::Wall);
    // A room that touches another is refused and changes nothing.
    let before = map.tiles.clone();
    assert!(!map.add_room(Rect::new(5, 5, 3, 3), true));
    assert_eq!(map.rooms.len(), 2);
    assert_eq!(map.tiles, before);
}

#[test]
fn both_digging_orders_give_the_same_tiles() {
    let mut a = TileMap::new(30, 30, 1);
    let mut b = TileMap::new(30, 30, 1);
    a.add_room(Rect::new(1, 1, 5, 5), true);
    b.add_room(Rect::new(1, 1, 5, 5), false);
    a.add_room(Rect::new(20, 15, 6, 7), true);
    b.add_room(Rect::new(20, 15, 6, 7), false);
    assert_eq!(a.tiles, b.tiles);
}

#[test]
fn populate_blocked_marks_the_walls() {
    let mut map = TileMap::new(3, 3, 1);
    carve(&mut map, 1, 1);
    map.blocked[0] = false;
    map.blocked[4] = true;
    map.populate_blocked();
    for i in 0..9 {
        assert_eq!(map.blocked[i], i != 4);
    }
}

#[test]
fn clear_content_index_empties_every_tile() {
    let mut map = TileMap::new(2, 2, 1);
    map.tile_content[1].push(roguelike::Entity { id: 5 });
    map.clear_content_index();
    assert!(map.tile_content.iter().all(|c| c.is_empty()));
    assert_eq!(map.tile_content.len(), 4);
}

#[test]
fn persistent_copy_drops_the_occupants() {
    let mut map = TileMap::new(2, 2, 3);
    carve(&mut map, 1, 1);
    map.revealed_tiles[3] = true;
    map.tile_content[3].push(roguelike::Entity { id: 1 });
    let copy = map.persistent_copy();
    assert_eq!(copy.tiles, map.tiles);
    assert_eq!(copy.revealed_tiles, map.revealed_tiles);
    assert_eq!(copy.depth, 3);
    assert_eq!(copy.tile_content.len(), 4);
    assert!(copy.tile_content.iter().all(|c| c.is_empty()));
}

#[test]
fn malformed_layouts_are_told_apart() {
    let mut map = TileMap::new(3, 3, 1);
    assert!(map.layout_is_well_formed());
    map.tiles.pop();
    assert!(!map.layout_is_well_formed());
    let mut map = TileMap::new(3, 3, 1);
    map.rooms.push(Rect::new(1, 1, 5, 1));
    assert!(!map.layout_is_well_formed());
    let mut map = TileMap::new(3, 3, 1);
    map.width = -1;
    assert!(!map.layout_is_well_formed());
    let mut map = TileMap::new(3, 3, 1);
    assert!(map.is_well_formed());
    map.tile_content.pop();
    assert!(map.layout_is_well_formed());
    assert!(!map.is_well_formed());
}

#[test]
fn rect_center_and_intersect() {
    let a = Rect::new(0, 0, 10, 10);
    let b = Rect::new(10, 10, 5, 5);
    let c = Rect::new(11, 11, 5, 5);
    assert_eq!(a, Rect { x1: 0, x2: 10, y1: 0, y2: 10 });
    assert_eq!(a.center(), (5, 5));
    assert_eq!(Rect::new(1, 2, 4, 7).center(), (3, 5));
    assert_eq!(Rect::new(-5, -5, 2, 2).center(), (-4, -4));
    assert!(a.intersect(&b));
    assert!(b.intersect(&a));
    assert!(!a.intersect(&c));
    assert_eq!(Rect { x1: i32::MAX, x2: i32::MAX, y1: 0, y2: 0 }.center(), (i32::MAX, 0));
}

#[test]
fn generated_rooms_vary_in_size_and_place() {
    let mut sizes = Vec::new();
    let mut corners = Vec::new();
    for _ in 0..5 {
        let map = TileMap::new_map_rooms_and_corridors(1);
        for room in map.rooms.iter() {
            sizes.push((room.x2 - room.x1, room.y2 - room.y1));
            corners.push((room.x1, room.y1));
        }
    }
    assert!(sizes.iter().any(|s| *s != sizes[0]));
    assert!(sizes.iter().any(|s| s.0 != 6));
    assert!(corners.iter().any(|c| c.0 != 0));
    assert!(corners.iter().any(|c| c.1 != 0));
    assert!(corners.len() > 5);
}

#[test]
fn walls_and_what_lies_beyond_the_grid_stop_the_eye() {
    let mut map = TileMap::new(3, 2, 1);
    carve(&mut map, 1, 1);
    for idx in 0..6 {
        assert_eq!(map.is_opaque(idx), idx != 4);
    }
    assert!(map.is_opaque(6));
    assert!(map.is_opaque(usize::MAX));
}

#[test]
fn the_size_of_the_map_is_handed_out_as_a_point() {
    let map = TileMap::new(7, 4, 1);
    let size = map.dimensions();
    assert_eq!((size.x, size.y), (7, 4));
    assert!(Algorithm2D::in_bounds(&map, rltk::Point::new(6, 3)));
    assert!(!Algorithm2D::in_bounds(&map, rltk::Point::new(7, 3)));
    assert_eq!(map.point2d_to_index(rltk::Point::new(2, 1)), 9);
}
