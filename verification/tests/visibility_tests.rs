use roguelike::{
    Coord, Decision, Entity, Monster, MonsterAI, NavigationPath, Player, Position, RunState,
    TileMap, TileType, Viewshed, VisibilitySystem, WantsToMelee, World,
};

fn corridor_world() -> World {
    // A corridor along row 2 from column 1 to column 10, cut by a wall at
    // column 6.
    let mut w = World::new();
    let mut map = TileMap::new(12, 5, 1);
    for x in 1..=10 {
        if x != 6 {
            let idx = map.xy_index(x, 2);
            map.tiles[idx] = TileType::Floor;
        }
    }
    w.map = map;
    w
}

fn room_world(size: i32) -> World {
    let mut w = World::new();
    let mut map = TileMap::new(size, size, 1);
    for y in 1..size - 1 {
        for x in 1..size - 1 {
            let idx = map.xy_index(x, y);
            map.tiles[idx] = TileType::Floor;
        }
    }
    map.populate_blocked();
    w.map = map;
    w
}

fn viewer(w: &mut World, x: i32, y: i32, range: i32) -> Entity {
    let e = w.create_entity();
    w.positions.insert(e, Position { x, y });
    w.viewsheds.insert(e, Viewshed { visible_tiles: Vec::new(), range, dirty: true });
    e
}

fn no_path(_map: &TileMap, _from: usize, _to: usize) -> NavigationPath {
    NavigationPath { destination: 0, success: false, steps: Vec::new() }
}

#[test]
fn a_viewer_sees_along_the_corridor_up_to_the_wall() {
    let mut w = corridor_world();
    let e = viewer(&mut w, 2, 2, 8);
    VisibilitySystem {}.run(&mut w);
    let v = w.viewsheds.get(e).unwrap();
    assert!(!v.dirty);
    assert_eq!(v.range, 8);
    for x in 1..=6 {
        assert!(v.visible_tiles.contains(&Coord { x, y: 2 }), "column {}", x);
    }
    for x in 7..=10 {
        assert!(!v.visible_tiles.contains(&Coord { x, y: 2 }), "column {}", x);
    }
    // Every tile is listed once and lies on the map.
    for (i, t) in v.visible_tiles.iter().enumerate() {
        assert!(t.x >= 0 && t.x < 12 && t.y >= 0 && t.y < 5);
        assert!(!v.visible_tiles[i + 1..].contains(t));
    }
    // Not a player: the map shows nothing.
    assert!(w.map.visible_tiles.iter().all(|t| !*t));
    assert!(w.map.revealed_tiles.iter().all(|t| !*t));
}

#[test]
fn the_players_view_marks_the_map() {
    let mut w = corridor_world();
    let e = viewer(&mut w, 2, 2, 8);
    w.players.insert(e, Player {});
    let far = w.map.xy_index(9, 2);
    w.map.visible_tiles[far] = true;
    w.map.revealed_tiles[far] = true;
    VisibilitySystem {}.run(&mut w);
    let seen = w.viewsheds.get(e).unwrap().visible_tiles.clone();
    for idx in 0..w.map.tiles.len() {
        let (x, y) = w.map.index_to_point(idx);
        let in_view = seen.contains(&Coord { x, y });
        assert_eq!(w.map.visible_tiles[idx], in_view);
        assert_eq!(w.map.revealed_tiles[idx], in_view || idx == far);
    }
    assert!(w.map.visible_tiles[w.map.xy_index(3, 2)]);
    assert!(!w.map.visible_tiles[far]);
}

#[test]
fn a_clean_viewshed_is_left_alone() {
    let mut w = corridor_world();
    let e = viewer(&mut w, 2, 2, 8);
    w.viewsheds.get_mut(e).unwrap().dirty = false;
    w.viewsheds.get_mut(e).unwrap().visible_tiles.push(Coord { x: 9, y: 9 });
    VisibilitySystem {}.run(&mut w);
    assert_eq!(w.viewsheds.get(e).unwrap().visible_tiles, vec![Coord { x: 9, y: 9 }]);
}

#[test]
fn a_viewer_off_the_map_stays_stale() {
    let mut w = corridor_world();
    let off = viewer(&mut w, 50, 2, 8);
    let too_far = viewer(&mut w, 2, 2, 5000);
    VisibilitySystem {}.run(&mut w);
    assert!(w.viewsheds.get(off).unwrap().dirty);
    assert!(w.viewsheds.get(off).unwrap().visible_tiles.is_empty());
    assert!(w.viewsheds.get(too_far).unwrap().dirty);
}

#[test]
fn see_keeps_what_lies_on_the_map_in_order() {
    let mut map = TileMap::new(4, 4, 1);
    let mut v = Viewshed { visible_tiles: vec![Coord { x: 0, y: 0 }], range: 3, dirty: true };
    let seen = vec![
        Coord { x: 1, y: 1 },
        Coord { x: -1, y: 2 },
        Coord { x: 3, y: 0 },
        Coord { x: 4, y: 4 },
    ];
    VisibilitySystem::see(&mut v, &mut map, true, &seen);
    assert_eq!(v.visible_tiles, vec![Coord { x: 1, y: 1 }, Coord { x: 3, y: 0 }]);
    assert!(!v.dirty);
    for idx in 0..16 {
        assert_eq!(map.visible_tiles[idx], idx == 5 || idx == 3);
        assert_eq!(map.revealed_tiles[idx], idx == 5 || idx == 3);
    }
}

fn monster_at(w: &mut World, x: i32, y: i32) -> Entity {
    let e = viewer(w, x, y, 8);
    w.monsters.insert(e, Monster {});
    e
}

fn hero_at(w: &mut World, x: i32, y: i32) -> Entity {
    let e = viewer(w, x, y, 8);
    w.players.insert(e, Player {});
    w.player_entity = e;
    w.player_pos = Coord { x, y };
    e
}

#[test]
fn a_monster_next_to_the_player_attacks() {
    let mut w = room_world(10);
    w.run_state = RunState::MonsterTurn;
    let h = hero_at(&mut w, 4, 4);
    let m = monster_at(&mut w, 5, 5);
    VisibilitySystem {}.run(&mut w);
    assert_eq!(MonsterAI::decide(&w, m), Decision::Attack);
    MonsterAI {}.run(&mut w, &no_path);
    assert_eq!(w.wants_to_melee.get(m), Some(&WantsToMelee { target: h }));
    assert_eq!(w.positions.get(m), Some(&Position { x: 5, y: 5 }));
    assert!(!w.wants_to_melee.contains(h));
}

#[test]
fn a_monster_further_off_takes_the_first_step_of_its_path() {
    let mut w = room_world(10);
    w.run_state = RunState::MonsterTurn;
    hero_at(&mut w, 2, 2);
    let m = monster_at(&mut w, 6, 2);
    VisibilitySystem {}.run(&mut w);
    let from = w.map.xy_index(6, 2);
    let to = w.map.xy_index(2, 2);
    assert_eq!(MonsterAI::decide(&w, m), Decision::Approach { from, to });
    let start = w.map.xy_index(6, 2);
    w.map.blocked[start] = true;
    let straight = |map: &TileMap, from: usize, to: usize| NavigationPath {
        destination: to,
        success: true,
        steps: vec![from, map.xy_index(5, 2), map.xy_index(4, 2)],
    };
    MonsterAI {}.run(&mut w, &straight);
    assert_eq!(w.positions.get(m), Some(&Position { x: 5, y: 2 }));
    assert!(w.viewsheds.get(m).unwrap().dirty);
    assert!(!w.map.blocked[start]);
    assert!(w.map.blocked[w.map.xy_index(5, 2)]);
    assert!(!w.wants_to_melee.contains(m));
}

#[test]
fn a_step_that_is_no_step_is_not_taken() {
    let mut w = room_world(10);
    w.run_state = RunState::MonsterTurn;
    hero_at(&mut w, 2, 2);
    let m = monster_at(&mut w, 6, 1);
    VisibilitySystem {}.run(&mut w);
    let before = w.map.blocked.clone();
    let jump = NavigationPath { destination: 0, success: true, steps: vec![0, 3 * 10 + 3] };
    assert!(!MonsterAI::approach(&mut w, m, &jump));
    let into_wall = NavigationPath { destination: 0, success: true, steps: vec![0, 6] };
    assert!(!MonsterAI::approach(&mut w, m, &into_wall));
    let on_the_spot = NavigationPath { destination: 0, success: true, steps: vec![0, 10 + 6] };
    assert!(!MonsterAI::approach(&mut w, m, &on_the_spot));
    let off_map = NavigationPath { destination: 0, success: true, steps: vec![0, 5000] };
    assert!(!MonsterAI::approach(&mut w, m, &off_map));
    let failed = NavigationPath { destination: 0, success: false, steps: vec![0, 2 * 10 + 5] };
    assert!(!MonsterAI::approach(&mut w, m, &failed));
    let short = NavigationPath { destination: 0, success: true, steps: vec![0] };
    assert!(!MonsterAI::approach(&mut w, m, &short));
    assert_eq!(w.positions.get(m), Some(&Position { x: 6, y: 1 }));
    assert!(!w.viewsheds.get(m).unwrap().dirty);
    assert_eq!(w.map.blocked, before);
    let good = NavigationPath { destination: 0, success: true, steps: vec![0, 2 * 10 + 5] };
    assert!(MonsterAI::approach(&mut w, m, &good));
    assert_eq!(w.positions.get(m), Some(&Position { x: 5, y: 2 }));
    assert!(w.viewsheds.get(m).unwrap().dirty);
}

#[test]
fn monsters_wait_outside_their_turn_and_with_a_stale_view() {
    let mut w = room_world(10);
    hero_at(&mut w, 4, 4);
    let m = monster_at(&mut w, 5, 5);
    VisibilitySystem {}.run(&mut w);
    w.run_state = RunState::PlayerTurn;
    assert_eq!(MonsterAI::decide(&w, m), Decision::Idle);
    w.run_state = RunState::MonsterTurn;
    w.viewsheds.get_mut(m).unwrap().dirty = true;
    assert_eq!(MonsterAI::decide(&w, m), Decision::Idle);
    MonsterAI {}.run(&mut w, &no_path);
    assert!(!w.wants_to_melee.contains(m));
    // A monster that does not see the player waits too.
    w.viewsheds.get_mut(m).unwrap().dirty = false;
    w.viewsheds.get_mut(m).unwrap().visible_tiles.clear();
    assert_eq!(MonsterAI::decide(&w, m), Decision::Idle);
}
