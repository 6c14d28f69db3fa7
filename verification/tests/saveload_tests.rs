use roguelike::saveload_system::snapshot;
use roguelike::{
    load_game, save_game, CombatStats, Coord, Entity, LoadError, MainMenuSelection, Name,
    NavigationPath, Position, Request, RunState, SaveData, SerializationHelper, State,
    SufferDamage, TileMap, Viewshed, World, Input,
};

fn no_route(_map: &TileMap, _from: usize, _to: usize) -> NavigationPath {
    NavigationPath { destination: 0, success: false, steps: Vec::new() }
}

fn same_components(a: &World, b: &World, upto: usize) {
    for id in 0..upto {
        let e = Entity { id };
        assert_eq!(a.entities.is_alive(e), b.entities.is_alive(e), "entity {}", id);
        assert_eq!(a.positions.get(e), b.positions.get(e));
        assert_eq!(a.renderables.get(e), b.renderables.get(e));
        assert_eq!(a.players.get(e), b.players.get(e));
        assert_eq!(a.viewsheds.get(e), b.viewsheds.get(e));
        assert_eq!(a.monsters.get(e), b.monsters.get(e));
        assert_eq!(a.names.get(e), b.names.get(e));
        assert_eq!(a.blockers.get(e), b.blockers.get(e));
        assert_eq!(a.combat_stats.get(e), b.combat_stats.get(e));
        assert_eq!(a.wants_to_melee.get(e), b.wants_to_melee.get(e));
        assert_eq!(a.suffer_damage.get(e), b.suffer_damage.get(e));
        assert_eq!(a.items.get(e), b.items.get(e));
        assert_eq!(a.consumables.get(e), b.consumables.get(e));
        assert_eq!(a.ranged.get(e), b.ranged.get(e));
        assert_eq!(a.inflicts_damage.get(e), b.inflicts_damage.get(e));
        assert_eq!(a.area_of_effect.get(e), b.area_of_effect.get(e));
        assert_eq!(a.confusion.get(e), b.confusion.get(e));
        assert_eq!(a.provides_healing.get(e), b.provides_healing.get(e));
        assert_eq!(a.in_backpack.get(e), b.in_backpack.get(e));
        assert_eq!(a.wants_to_pickup.get(e), b.wants_to_pickup.get(e));
        assert_eq!(a.wants_to_use.get(e), b.wants_to_use.get(e));
        assert_eq!(a.wants_to_drop.get(e), b.wants_to_drop.get(e));
        assert_eq!(a.wants_to_remove.get(e), b.wants_to_remove.get(e));
        assert_eq!(a.equippable.get(e), b.equippable.get(e));
        assert_eq!(a.equipped.get(e), b.equipped.get(e));
    }
}

#[test]
fn save_then_load_gives_the_same_game() {
    let mut gs = State::new();
    let hero = gs.ecs.player_entity;
    gs.ecs.map.revealed_tiles[17] = true;
    gs.ecs.map.tile_content[5].push(hero);
    SufferDamage::new_damage(&mut gs.ecs.suffer_damage, hero, 3);
    gs.ecs.viewsheds.get_mut(hero).unwrap().visible_tiles.push(Coord { x: 4, y: 4 });
    let issued = gs.ecs.entities.len();
    assert!(issued >= 1);
    let data = save_game(&mut gs.ecs);
    // Saving spends one identity on the helper and leaves the game as it was.
    assert_eq!(gs.ecs.entities.len(), issued + 1);
    let helper = Entity { id: issued };
    assert!(!gs.ecs.entities.is_alive(helper));
    assert!(!gs.ecs.serialization_helpers.contains(helper));
    assert!(data.serialization_helpers.contains(helper));
    assert_eq!(data.alive.len(), issued + 1);

    let mut other = World::new();
    other.run_state = RunState::PreRun;
    let stray = other.create_entity();
    other.names.insert(stray, Name { value: "stray".to_string() });
    assert_eq!(load_game(&mut other, data), Ok(()));
    same_components(&gs.ecs, &other, issued + 1);
    assert_eq!(other.names.get(stray).map(|n| n.value.clone()), Some("Player".to_string()));
    assert!(!other.entities.is_alive(helper));
    assert!(!other.serialization_helpers.contains(helper));
    assert_eq!(other.serialization_helpers.slots.iter().filter(|s| s.is_some()).count(), 0);
    assert_eq!(other.map.tiles, gs.ecs.map.tiles);
    assert_eq!(other.map.rooms, gs.ecs.map.rooms);
    assert_eq!(other.map.revealed_tiles, gs.ecs.map.revealed_tiles);
    assert_eq!(other.map.visible_tiles, gs.ecs.map.visible_tiles);
    assert_eq!(other.map.depth, gs.ecs.map.depth);
    assert_eq!((other.map.width, other.map.height), (80, 50));
    assert_eq!(other.map.tile_content.len(), 4000);
    assert!(other.map.tile_content.iter().all(|c| c.is_empty()));
    assert_eq!(other.player_entity, hero);
    assert_eq!(other.player_pos, gs.ecs.player_pos);
    assert_eq!(other.run_state, RunState::PreRun);
    assert!(other.entities.doomed.is_empty());
}

#[test]
fn a_saved_game_without_a_map_is_refused() {
    let mut w = World::new();
    let e = w.create_entity();
    w.positions.insert(e, Position { x: 1, y: 1 });
    let data: SaveData = snapshot(&w);
    let mut target = World::new();
    let keep = target.create_entity();
    target.combat_stats.insert(keep, CombatStats { max_hp: 1, hp: 1, defense: 0, power: 0 });
    assert_eq!(load_game(&mut target, data), Err(LoadError::MissingMap));
    assert!(target.entities.is_alive(keep));
    assert!(target.combat_stats.contains(keep));
    assert!(!target.positions.contains(e));
}

#[test]
fn a_saved_game_with_a_broken_map_is_refused() {
    let mut w = World::new();
    let helper = w.create_entity();
    let mut map = TileMap::new(3, 3, 1);
    map.tiles.pop();
    w.serialization_helpers.insert(helper, SerializationHelper { map });
    let data = snapshot(&w);
    let mut target = World::new();
    assert_eq!(load_game(&mut target, data), Err(LoadError::MalformedMap));
    assert_eq!(target.entities.len(), 0);
    // A helper that is not alive does not count.
    let mut w = World::new();
    let helper = w.create_entity();
    w.serialization_helpers.insert(helper, SerializationHelper { map: TileMap::new(3, 3, 1) });
    w.entities.kill(helper);
    assert_eq!(load_game(&mut target, snapshot(&w)), Err(LoadError::MissingMap));
}

#[test]
fn a_snapshot_is_a_copy() {
    let mut w = World::new();
    let e = w.create_entity();
    w.names.insert(e, Name { value: "Orc".to_string() });
    w.viewsheds
        .insert(e, Viewshed { visible_tiles: vec![Coord { x: 1, y: 2 }], range: 8, dirty: false });
    SufferDamage::new_damage(&mut w.suffer_damage, e, 7);
    let data = snapshot(&w);
    w.names.get_mut(e).unwrap().value.push('!');
    w.viewsheds.get_mut(e).unwrap().visible_tiles.clear();
    w.suffer_damage.clear();
    assert_eq!(data.alive, vec![true]);
    assert_eq!(data.names.get(e).unwrap().value, "Orc");
    assert_eq!(data.viewsheds.get(e).unwrap().visible_tiles, vec![Coord { x: 1, y: 2 }]);
    assert_eq!(data.suffer_damage.get(e).unwrap().amount, vec![7]);
}

#[test]
fn saving_through_the_state_machine_hands_out_the_saved_game() {
    let mut gs = State::new();
    gs.ecs.run_state = RunState::SaveGame;
    let input = Input {
        command: None,
        key: None,
        pointer: Coord { x: 0, y: 0 },
        left_click: false,
        save_exists: false,
    };
    let request = gs.tick(input, &no_route);
    assert_eq!(
        gs.ecs.run_state,
        RunState::MainMenu { menu_selection: MainMenuSelection::LoadGame }
    );
    let data = match request {
        Request::Save(data) => data,
        _ => panic!("no saved game was handed out"),
    };
    let mut fresh = State { ecs: World::new() };
    fresh.ecs.run_state = RunState::MainMenu { menu_selection: MainMenuSelection::LoadGame };
    assert_eq!(fresh.load(data), Ok(()));
    assert_eq!(fresh.ecs.run_state, RunState::AwaitingInput);
    assert_eq!(fresh.ecs.player_entity, gs.ecs.player_entity);
    assert_eq!(fresh.ecs.map.tiles, gs.ecs.map.tiles);
    let mut empty = State { ecs: World::new() };
    assert_eq!(empty.load(snapshot(&World::new())), Err(LoadError::MissingMap));
    assert_eq!(
        empty.ecs.run_state,
        RunState::MainMenu { menu_selection: MainMenuSelection::NewGame }
    );
}
