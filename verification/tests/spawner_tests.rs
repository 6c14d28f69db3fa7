use roguelike::spawner::{
    add_spawn_point, goblin, health_potion, orc, player, populate, random_monster, spawn_monster,
    spawn_room,
};
use roguelike::{
    Color, CombatStats, Entity, Position, ProvidesHealing, Rect, Renderable, TileMap, World,
};

fn kinds(w: &World, e: Entity) -> Vec<&'static str> {
    let mut out = Vec::new();
    if w.positions.contains(e) {
        out.push("position");
    }
    if w.renderables.contains(e) {
        out.push("renderable");
    }
    if w.players.contains(e) {
        out.push("player");
    }
    if w.viewsheds.contains(e) {
        out.push("viewshed");
    }
    if w.monsters.contains(e) {
        out.push("monster");
    }
    if w.names.contains(e) {
        out.push("name");
    }
    if w.blockers.contains(e) {
        out.push("blocks");
    }
    if w.combat_stats.contains(e) {
        out.push("stats");
    }
    if w.items.contains(e) {
        out.push("item");
    }
    if w.consumables.contains(e) {
        out.push("consumable");
    }
    if w.provides_healing.contains(e) {
        out.push("healing");
    }
    if w.in_backpack.contains(e) || w.equipped.contains(e) || w.suffer_damage.contains(e) {
        out.push("other");
    }
    out
}

#[test]
fn the_player_is_born_with_its_components() {
    let mut w = World::new();
    let e = player(&mut w, 7, 9);
    assert_eq!(e, Entity { id: 0 });
    assert!(w.entities.is_alive(e));
    assert_eq!(
        kinds(&w, e),
        vec!["position", "renderable", "player", "viewshed", "name", "stats"]
    );
    assert_eq!(w.positions.get(e), Some(&Position { x: 7, y: 9 }));
    // The at sign is glyph 64 of code page 437.
    assert_eq!(
        w.renderables.get(e),
        Some(&Renderable {
            glyph: 64,
            fg: Color { r: 255, g: 255, b: 0 },
            bg: Color { r: 0, g: 0, b: 0 },
            render_order: 0
        })
    );
    let v = w.viewsheds.get(e).unwrap();
    assert!(v.dirty && v.range == 8 && v.visible_tiles.is_empty());
    assert_eq!(w.names.get(e).unwrap().value, "Player");
    assert_eq!(
        w.combat_stats.get(e),
        Some(&CombatStats { max_hp: 30, hp: 30, defense: 2, power: 5 })
    );
}

#[test]
fn orcs_and_goblins_differ_in_glyph_and_name() {
    let mut w = World::new();
    orc(&mut w, 1, 2);
    goblin(&mut w, 3, 4);
    let o = Entity { id: 0 };
    let g = Entity { id: 1 };
    let all = vec!["position", "renderable", "viewshed", "monster", "name", "blocks", "stats"];
    assert_eq!(kinds(&w, o), all);
    assert_eq!(kinds(&w, g), all);
    assert_eq!(w.names.get(o).unwrap().value, "Orc");
    assert_eq!(w.names.get(g).unwrap().value, "Goblin");
    assert_eq!(w.renderables.get(o).unwrap().glyph, 111);
    assert_eq!(w.renderables.get(g).unwrap().glyph, 103);
    assert_eq!(w.renderables.get(o).unwrap().fg, Color { r: 255, g: 0, b: 0 });
    assert_eq!(w.renderables.get(o).unwrap().render_order, 1);
    assert_eq!(w.positions.get(g), Some(&Position { x: 3, y: 4 }));
    assert_eq!(
        w.combat_stats.get(o),
        Some(&CombatStats { max_hp: 16, hp: 16, defense: 1, power: 4 })
    );
}

#[test]
fn a_health_potion_heals_eight() {
    let mut w = World::new();
    health_potion(&mut w, 5, 6);
    let p = Entity { id: 0 };
    assert_eq!(
        kinds(&w, p),
        vec!["position", "renderable", "name", "item", "consumable", "healing"]
    );
    assert_eq!(w.provides_healing.get(p), Some(&ProvidesHealing { heal_amount: 8 }));
    assert_eq!(w.names.get(p).unwrap().value, "Health Potion");
    // The inverted exclamation mark is glyph 173 of code page 437.
    assert_eq!(w.renderables.get(p).unwrap().glyph, 173);
    assert_eq!(w.renderables.get(p).unwrap().fg, Color { r: 255, g: 0, b: 255 });
    assert_eq!(w.renderables.get(p).unwrap().render_order, 2);
}

#[test]
fn a_random_monster_is_an_orc_or_a_goblin() {
    let mut w = World::new();
    for i in 0..40 {
        random_monster(&mut w, i, 0);
    }
    assert_eq!(w.entities.len(), 40);
    let mut orcs = 0;
    for id in 0..40 {
        let e = Entity { id };
        let name = w.names.get(e).unwrap().value.clone();
        let glyph = w.renderables.get(e).unwrap().glyph;
        assert!((name == "Orc" && glyph == 111) || (name == "Goblin" && glyph == 103));
        assert_eq!(w.positions.get(e), Some(&Position { x: id as i32, y: 0 }));
        if name == "Orc" {
            orcs += 1;
        }
    }
    assert!(orcs > 0 && orcs < 40);
}

#[test]
fn a_room_is_peopled_inside_and_sparingly() {
    let room = Rect::new(10, 10, 8, 6);
    for _ in 0..50 {
        let mut w = World::new();
        let keeper = player(&mut w, 1, 1);
        spawn_room(&mut w, &room);
        let born = w.entities.len() - 1;
        assert!(born <= 4);
        let mut monsters = 0;
        let mut items = 0;
        let mut places = Vec::new();
        for id in 1..w.entities.len() {
            let e = Entity { id };
            assert!(w.entities.is_alive(e));
            let p = *w.positions.get(e).unwrap();
            assert!(p.x > room.x1 && p.x <= room.x2 && p.y > room.y1 && p.y <= room.y2);
            if w.monsters.contains(e) {
                monsters += 1;
                assert_eq!(items, 0);
                assert!(!places.contains(&(true, p)));
                places.push((true, p));
            } else {
                assert!(w.items.contains(e));
                items += 1;
                assert!(!places.contains(&(false, p)));
                places.push((false, p));
            }
        }
        assert!(monsters <= 3);
        assert!(items <= 1);
        assert_eq!(w.positions.get(keeper), Some(&Position { x: 1, y: 1 }));
    }
}

#[test]
fn populate_leaves_the_first_room_alone() {
    let mut w = World::new();
    w.map = TileMap::new_map_rooms_and_corridors(1);
    populate(&mut w);
    let first = w.map.rooms[0];
    for id in 0..w.entities.len() {
        let p = *w.positions.get(Entity { id }).unwrap();
        let inside =
            |r: &Rect| p.x > r.x1 && p.x <= r.x2 && p.y > r.y1 && p.y <= r.y2;
        assert!(!inside(&first));
        assert!(w.map.rooms.iter().skip(1).any(|r| inside(r)));
    }
}

#[test]
fn a_one_makes_an_orc_and_anything_else_a_goblin() {
    let mut w = World::new();
    for roll in 1..=3 {
        spawn_monster(&mut w, roll, 0, roll);
    }
    let names: Vec<String> =
        (0..3).map(|id| w.names.get(Entity { id }).unwrap().value.clone()).collect();
    assert_eq!(names, vec!["Orc", "Goblin", "Goblin"]);
    assert_eq!(w.renderables.get(Entity { id: 0 }).unwrap().glyph, 111);
    assert_eq!(w.renderables.get(Entity { id: 2 }).unwrap().glyph, 103);
    assert_eq!(w.positions.get(Entity { id: 1 }), Some(&Position { x: 2, y: 0 }));
}

#[test]
fn a_spawn_point_is_taken_once() {
    let room = Rect::new(10, 20, 8, 6);
    let mut points = Vec::new();
    assert!(add_spawn_point(&mut points, &room, 1, 1));
    assert!(add_spawn_point(&mut points, &room, 8, 6));
    assert!(!add_spawn_point(&mut points, &room, 1, 1));
    assert!(add_spawn_point(&mut points, &room, 2, 1));
    assert_eq!(points, vec![21 * 80 + 11, 26 * 80 + 18, 21 * 80 + 12]);
}

#[test]
fn a_room_without_an_inside_stays_empty() {
    let mut w = World::new();
    spawn_room(&mut w, &Rect { x1: 5, x2: 5, y1: 5, y2: 9 });
    spawn_room(&mut w, &Rect { x1: 70, x2: 85, y1: 5, y2: 9 });
    spawn_room(&mut w, &Rect { x1: -3, x2: 4, y1: 5, y2: 9 });
    assert_eq!(w.entities.len(), 0);
}
