use roguelike::player::Plan;
use roguelike::{
    get_item, player_input, try_move_player, BlocksTile, CombatStats, Command, Coord, Entity,
    EquipmentSlot, Equipped, InBackpack, Input, Item, ItemMenuResult, LogEntry,
    MainMenuSelection, MenuKey, Monster, Name, NavigationPath, Player, Position, Ranged, Request,
    RunState, State, TileMap, TileType, Viewshed, WantsToDropItem, WantsToMelee,
    WantsToPickUpItem, WantsToRemoveEquipment, WantsToUseItem, World,
};

fn no_way(_map: &TileMap, _from: usize, _to: usize) -> NavigationPath {
    NavigationPath { destination: 0, success: false, steps: Vec::new() }
}

fn idle() -> Input {
    Input {
        command: None,
        key: None,
        pointer: Coord { x: 0, y: 0 },
        left_click: false,
        save_exists: false,
    }
}

fn key(k: MenuKey) -> Input {
    Input { key: Some(k), ..idle() }
}

fn command(c: Command) -> Input {
    Input { command: Some(c), ..idle() }
}

fn small_world() -> (World, Entity) {
    let mut w = World::new();
    let mut map = TileMap::new(8, 8, 1);
    for y in 1..7 {
        for x in 1..7 {
            let idx = map.xy_index(x, y);
            map.tiles[idx] = TileType::Floor;
        }
    }
    map.populate_blocked();
    w.map = map;
    let hero = w.create_entity();
    w.players.insert(hero, Player {});
    w.positions.insert(hero, Position { x: 1, y: 1 });
    w.viewsheds.insert(hero, Viewshed { visible_tiles: Vec::new(), range: 8, dirty: false });
    w.combat_stats.insert(hero, CombatStats { max_hp: 30, hp: 30, defense: 2, power: 5 });
    w.names.insert(hero, Name { value: "Player".to_string() });
    w.player_entity = hero;
    w.player_pos = Coord { x: 1, y: 1 };
    (w, hero)
}

fn on_floor(w: &World, e: Entity) -> bool {
    let p = w.positions.get(e).unwrap();
    w.map.contains(p.x, p.y) && w.map.tiles[w.map.xy_index(p.x, p.y)] == TileType::Floor
}

#[test]
fn the_player_never_walks_into_a_wall() {
    let (mut w, hero) = small_world();
    try_move_player(-1, 0, &mut w);
    assert_eq!(w.positions.get(hero), Some(&Position { x: 1, y: 1 }));
    assert!(!w.viewsheds.get(hero).unwrap().dirty);
    try_move_player(0, -1, &mut w);
    assert_eq!(w.positions.get(hero), Some(&Position { x: 1, y: 1 }));
    try_move_player(1, 0, &mut w);
    assert_eq!(w.positions.get(hero), Some(&Position { x: 2, y: 1 }));
    assert_eq!(w.player_pos, Coord { x: 2, y: 1 });
    assert!(w.viewsheds.get(hero).unwrap().dirty);
    try_move_player(100, 0, &mut w);
    assert_eq!(w.positions.get(hero), Some(&Position { x: 2, y: 1 }));
    try_move_player(i32::MAX, i32::MIN, &mut w);
    assert_eq!(w.positions.get(hero), Some(&Position { x: 2, y: 1 }));
    let steps = [(1, 1), (1, 0), (0, 1), (1, 1), (1, 1), (1, 1), (0, 1), (-1, 1), (0, 1), (1, 0)];
    for _ in 0..5 {
        for (dx, dy) in steps.iter() {
            try_move_player(*dx, *dy, &mut w);
            assert!(on_floor(&w, hero));
        }
    }
}

#[test]
fn moves_on_a_generated_map_stay_on_the_floor() {
    let mut gs = State::new();
    let hero = gs.ecs.player_entity;
    assert!(on_floor(&gs.ecs, hero));
    let steps = [(1, 0), (0, 1), (-1, 0), (0, -1), (1, 1), (-1, -1), (1, -1), (-1, 1)];
    for round in 0..200 {
        let (dx, dy) = steps[(round * 7 + round / 3) % steps.len()];
        let next = player_input(&mut gs, Some(Command::Move { dx, dy }));
        assert_eq!(next, RunState::PlayerTurn);
        assert!(on_floor(&gs.ecs, hero));
        gs.ecs.wants_to_melee.clear();
    }
}

#[test]
fn moving_into_someone_attacks_instead() {
    let (mut w, hero) = small_world();
    let orc = w.create_entity();
    w.positions.insert(orc, Position { x: 2, y: 1 });
    w.combat_stats.insert(orc, CombatStats { max_hp: 16, hp: 16, defense: 1, power: 4 });
    let idx = w.map.xy_index(2, 1);
    w.map.tile_content[idx].push(Entity { id: 77 });
    w.map.tile_content[idx].push(orc);
    try_move_player(1, 0, &mut w);
    assert_eq!(w.positions.get(hero), Some(&Position { x: 1, y: 1 }));
    assert_eq!(w.wants_to_melee.get(hero), Some(&WantsToMelee { target: orc }));
    assert!(!w.viewsheds.get(hero).unwrap().dirty);
}

#[test]
fn a_blocked_tile_is_not_entered() {
    let (mut w, hero) = small_world();
    let idx = w.map.xy_index(1, 2);
    w.map.blocked[idx] = true;
    try_move_player(0, 1, &mut w);
    assert_eq!(w.positions.get(hero), Some(&Position { x: 1, y: 1 }));
    assert!(!w.wants_to_melee.contains(hero));
}

#[test]
fn reaching_for_an_item_records_the_intent() {
    let (mut w, hero) = small_world();
    get_item(&mut w);
    assert_eq!(w.log.entries, vec![LogEntry::NothingToPickUp]);
    assert!(!w.wants_to_pickup.contains(hero));
    let elsewhere = w.create_entity();
    w.items.insert(elsewhere, Item {});
    w.positions.insert(elsewhere, Position { x: 3, y: 3 });
    let here = w.create_entity();
    w.items.insert(here, Item {});
    w.positions.insert(here, Position { x: 1, y: 1 });
    let no_item = w.create_entity();
    w.positions.insert(no_item, Position { x: 1, y: 1 });
    get_item(&mut w);
    assert_eq!(
        w.wants_to_pickup.get(hero),
        Some(&WantsToPickUpItem { collected_by: hero, item: here })
    );
    assert_eq!(w.log.entries.len(), 1);
}

#[test]
fn commands_lead_to_their_states() {
    let (w, _) = small_world();
    let mut gs = State { ecs: w };
    assert_eq!(player_input(&mut gs, None), RunState::AwaitingInput);
    assert_eq!(player_input(&mut gs, Some(Command::ShowInventory)), RunState::ShowInventory);
    assert_eq!(player_input(&mut gs, Some(Command::ShowDropItem)), RunState::ShowDropItem);
    assert_eq!(
        player_input(&mut gs, Some(Command::ShowRemoveEquipment)),
        RunState::ShowRemoveEquipment
    );
    assert_eq!(player_input(&mut gs, Some(Command::SaveGame)), RunState::SaveGame);
    assert_eq!(player_input(&mut gs, Some(Command::PickUp)), RunState::PlayerTurn);
    assert_eq!(player_input(&mut gs, Some(Command::Move { dx: 0, dy: 1 })), RunState::PlayerTurn);
    assert!(matches!(Plan::Stay, Plan::Stay));
}

#[test]
fn a_new_game_starts_at_the_main_menu_with_the_player_in_the_first_room() {
    let gs = State::new();
    let w = &gs.ecs;
    assert_eq!(w.run_state, RunState::MainMenu { menu_selection: MainMenuSelection::NewGame });
    assert_eq!(w.player_entity, Entity { id: 0 });
    assert!(w.players.contains(w.player_entity));
    let (cx, cy) = w.map.rooms[0].center();
    assert_eq!(w.positions.get(w.player_entity), Some(&Position { x: cx, y: cy }));
    assert_eq!(w.player_pos, Coord { x: cx, y: cy });
    assert_eq!(w.log.entries, vec![LogEntry::Welcome]);
    assert_eq!(w.map.depth, 1);
    assert!(w.entities.alive.iter().all(|a| *a));
    let players = w.players.slots.iter().filter(|s| s.is_some()).count();
    assert_eq!(players, 1);
}

#[test]
fn the_turn_cycle_runs_through_its_phases() {
    let mut gs = State::new();
    assert!(matches!(gs.tick(key(MenuKey::Return), &no_way), Request::Nothing));
    assert_eq!(gs.ecs.run_state, RunState::PreRun);
    gs.tick(idle(), &no_way);
    assert_eq!(gs.ecs.run_state, RunState::AwaitingInput);
    assert!(!gs.ecs.viewsheds.get(gs.ecs.player_entity).unwrap().dirty);
    assert!(gs.ecs.map.visible_tiles.iter().any(|v| *v));
    gs.tick(idle(), &no_way);
    assert_eq!(gs.ecs.run_state, RunState::AwaitingInput);
    gs.tick(command(Command::Move { dx: 1, dy: 0 }), &no_way);
    assert_eq!(gs.ecs.run_state, RunState::PlayerTurn);
    gs.tick(idle(), &no_way);
    assert_eq!(gs.ecs.run_state, RunState::MonsterTurn);
    gs.tick(idle(), &no_way);
    assert_eq!(gs.ecs.run_state, RunState::AwaitingInput);
    // Nothing is left over from the turn.
    assert!(gs.ecs.wants_to_melee.slots.iter().all(|s| s.is_none()));
    assert!(gs.ecs.suffer_damage.slots.iter().all(|s| s.is_none()));
    assert!(gs.ecs.wants_to_use.slots.iter().all(|s| s.is_none()));
}

#[test]
fn the_main_menu_asks_the_caller_to_load_and_to_quit() {
    let mut gs = State::new();
    gs.tick(Input { save_exists: true, ..key(MenuKey::Down) }, &no_way);
    assert_eq!(
        gs.ecs.run_state,
        RunState::MainMenu { menu_selection: MainMenuSelection::LoadGame }
    );
    let r = gs.tick(Input { save_exists: true, ..key(MenuKey::Return) }, &no_way);
    assert!(matches!(r, Request::Load));
    assert_eq!(
        gs.ecs.run_state,
        RunState::MainMenu { menu_selection: MainMenuSelection::LoadGame }
    );
    gs.tick(key(MenuKey::Escape), &no_way);
    assert_eq!(gs.ecs.run_state, RunState::MainMenu { menu_selection: MainMenuSelection::Quit });
    assert!(matches!(gs.tick(key(MenuKey::Return), &no_way), Request::Quit));
}

#[test]
fn menus_turn_a_choice_into_an_intent() {
    let (w, hero) = small_world();
    let mut gs = State { ecs: w };
    let potion = gs.ecs.create_entity();
    gs.ecs.names.insert(potion, Name { value: "Health Potion".to_string() });
    gs.ecs.in_backpack.insert(potion, InBackpack { owner: hero });
    let scroll = gs.ecs.create_entity();
    gs.ecs.names.insert(scroll, Name { value: "Fireball Scroll".to_string() });
    gs.ecs.in_backpack.insert(scroll, InBackpack { owner: hero });
    gs.ecs.ranged.insert(scroll, Ranged { range: 6 });

    gs.ecs.run_state = RunState::ShowInventory;
    gs.step(idle(), &no_way);
    assert_eq!(gs.ecs.run_state, RunState::ShowInventory);
    gs.step(key(MenuKey::Escape), &no_way);
    assert_eq!(gs.ecs.run_state, RunState::AwaitingInput);

    gs.ecs.run_state = RunState::ShowInventory;
    gs.step(key(MenuKey::Select(0)), &no_way);
    assert_eq!(gs.ecs.run_state, RunState::PlayerTurn);
    assert_eq!(gs.ecs.wants_to_use.get(hero), Some(&WantsToUseItem { item: potion, target: None }));
    gs.ecs.wants_to_use.clear();

    gs.ecs.run_state = RunState::ShowInventory;
    gs.step(key(MenuKey::Select(1)), &no_way);
    assert_eq!(gs.ecs.run_state, RunState::ShowTargeting { range: 6, item: scroll });
    assert!(!gs.ecs.wants_to_use.contains(hero));

    // Aiming: a click on a tile in view and in range selects it.
    let aim = Coord { x: 3, y: 1 };
    gs.ecs.viewsheds.get_mut(hero).unwrap().visible_tiles.push(aim);
    gs.step(Input { pointer: aim, ..idle() }, &no_way);
    assert_eq!(gs.ecs.run_state, RunState::ShowTargeting { range: 6, item: scroll });
    gs.step(Input { pointer: aim, left_click: true, ..idle() }, &no_way);
    assert_eq!(gs.ecs.run_state, RunState::PlayerTurn);
    assert_eq!(
        gs.ecs.wants_to_use.get(hero),
        Some(&WantsToUseItem { item: scroll, target: Some(aim) })
    );
    gs.ecs.wants_to_use.clear();
    gs.ecs.run_state = RunState::ShowTargeting { range: 6, item: scroll };
    gs.step(Input { pointer: Coord { x: 6, y: 6 }, left_click: true, ..idle() }, &no_way);
    assert_eq!(gs.ecs.run_state, RunState::AwaitingInput);
    assert!(!gs.ecs.wants_to_use.contains(hero));

    gs.ecs.run_state = RunState::ShowDropItem;
    gs.step(key(MenuKey::Select(1)), &no_way);
    assert_eq!(gs.ecs.run_state, RunState::PlayerTurn);
    assert_eq!(gs.ecs.wants_to_drop.get(hero), Some(&WantsToDropItem { item: scroll }));

    let shield = gs.ecs.create_entity();
    gs.ecs.names.insert(shield, Name { value: "Shield".to_string() });
    gs.ecs.equipped.insert(shield, Equipped { owner: hero, slot: EquipmentSlot::Shield });
    gs.ecs.run_state = RunState::ShowRemoveEquipment;
    gs.step(key(MenuKey::Select(5)), &no_way);
    assert_eq!(gs.ecs.run_state, RunState::ShowRemoveEquipment);
    gs.step(key(MenuKey::Select(0)), &no_way);
    assert_eq!(gs.ecs.run_state, RunState::PlayerTurn);
    assert_eq!(gs.ecs.wants_to_remove.get(hero), Some(&WantsToRemoveEquipment { item: shield }));
    assert_eq!(
        roguelike::gui::choose_entry(&vec![shield], Some(MenuKey::Select(0))).0,
        ItemMenuResult::Selected
    );
}

#[test]
fn a_full_turn_lets_monsters_fight_back() {
    let (w, hero) = small_world();
    let mut gs = State { ecs: w };
    let orc = gs.ecs.create_entity();
    gs.ecs.positions.insert(orc, Position { x: 2, y: 2 });
    gs.ecs.monsters.insert(orc, Monster {});
    gs.ecs.blockers.insert(orc, BlocksTile {});
    gs.ecs.names.insert(orc, Name { value: "Orc".to_string() });
    gs.ecs.viewsheds.insert(orc, Viewshed { visible_tiles: Vec::new(), range: 8, dirty: true });
    gs.ecs.combat_stats.insert(orc, CombatStats { max_hp: 16, hp: 16, defense: 1, power: 4 });
    gs.ecs.viewsheds.get_mut(hero).unwrap().dirty = true;
    gs.ecs.run_state = RunState::PreRun;
    gs.tick(idle(), &no_way);
    assert_eq!(gs.ecs.run_state, RunState::AwaitingInput);
    // The player attacks by moving into the orc.
    gs.tick(command(Command::Move { dx: 1, dy: 1 }), &no_way);
    assert_eq!(gs.ecs.wants_to_melee.get(hero), Some(&WantsToMelee { target: orc }));
    gs.tick(idle(), &no_way);
    assert_eq!(gs.ecs.run_state, RunState::MonsterTurn);
    assert_eq!(gs.ecs.combat_stats.get(orc).unwrap().hp, 12);
    assert_eq!(gs.ecs.combat_stats.get(hero).unwrap().hp, 30);
    // The orc strikes back on its turn.
    gs.tick(idle(), &no_way);
    assert_eq!(gs.ecs.run_state, RunState::AwaitingInput);
    assert_eq!(gs.ecs.combat_stats.get(hero).unwrap().hp, 28);
    assert_eq!(gs.ecs.positions.get(orc), Some(&Position { x: 2, y: 2 }));
}

#[test]
fn the_players_death_ends_the_game_and_any_key_starts_over() {
    let (w, hero) = small_world();
    let mut gs = State { ecs: w };
    gs.ecs.combat_stats.get_mut(hero).unwrap().hp = 0;
    gs.ecs.run_state = RunState::AwaitingInput;
    gs.tick(idle(), &no_way);
    assert_eq!(gs.ecs.run_state, RunState::GameOver);
    assert!(gs.ecs.entities.is_alive(hero));
    gs.ecs.combat_stats.get_mut(hero).unwrap().hp = 5;
    gs.tick(idle(), &no_way);
    assert_eq!(gs.ecs.run_state, RunState::GameOver);
    let issued = gs.ecs.entities.len();
    gs.tick(key(MenuKey::Return), &no_way);
    assert_eq!(gs.ecs.run_state, RunState::MainMenu { menu_selection: MainMenuSelection::NewGame });
    assert!(!gs.ecs.entities.is_alive(hero));
    for id in 0..issued {
        assert!(!gs.ecs.entities.is_alive(Entity { id }));
        assert!(!gs.ecs.positions.contains(Entity { id }));
    }
    let new_hero = gs.ecs.player_entity;
    assert!(new_hero.id >= issued);
    assert_eq!(new_hero.id, gs.ecs.entities.len() - 1);
    assert!(gs.ecs.players.contains(new_hero));
    assert_eq!(gs.ecs.map.depth, 1);
    assert_eq!(gs.ecs.map.width, 80);
    let (cx, cy) = gs.ecs.map.rooms[0].center();
    assert_eq!(gs.ecs.positions.get(new_hero), Some(&Position { x: cx, y: cy }));
    assert_eq!(gs.ecs.combat_stats.get(new_hero).unwrap().hp, 30);
}

#[test]
fn the_next_level_keeps_the_player_and_what_it_owns() {
    let mut gs = State::new();
    let hero = gs.ecs.player_entity;
    gs.ecs.combat_stats.get_mut(hero).unwrap().hp = 10;
    let carried = gs.ecs.create_entity();
    gs.ecs.names.insert(carried, Name { value: "Health Potion".to_string() });
    gs.ecs.in_backpack.insert(carried, InBackpack { owner: hero });
    let worn = gs.ecs.create_entity();
    gs.ecs.equipped.insert(worn, Equipped { owner: hero, slot: EquipmentSlot::Melee });
    let stranger = gs.ecs.create_entity();
    gs.ecs.in_backpack.insert(stranger, InBackpack { owner: Entity { id: 1 } });
    let before = gs.ecs.entities.len();
    let old_log = gs.ecs.log.entries.len();

    let stay = gs.entities_to_remove_on_level_change();
    assert!(!stay.contains(&hero) && !stay.contains(&carried) && !stay.contains(&worn));
    assert!(stay.contains(&stranger));
    assert_eq!(stay.len(), before - 3);

    gs.ecs.run_state = RunState::NextLevel;
    gs.tick(idle(), &no_way);
    assert_eq!(gs.ecs.run_state, RunState::PreRun);
    for id in 0..before {
        let e = Entity { id };
        let kept = e == hero || e == carried || e == worn;
        assert_eq!(gs.ecs.entities.is_alive(e), kept);
        if !kept {
            assert!(!gs.ecs.positions.contains(e));
            assert!(!gs.ecs.in_backpack.contains(e));
            assert!(!gs.ecs.names.contains(e));
        }
    }
    assert_eq!(gs.ecs.in_backpack.get(carried), Some(&InBackpack { owner: hero }));
    assert_eq!(gs.ecs.names.get(carried).unwrap().value, "Health Potion");
    assert_eq!(
        gs.ecs.equipped.get(worn),
        Some(&Equipped { owner: hero, slot: EquipmentSlot::Melee })
    );
    assert_eq!(gs.ecs.map.depth, 2);
    let (cx, cy) = gs.ecs.map.rooms[0].center();
    assert_eq!(gs.ecs.positions.get(hero), Some(&Position { x: cx, y: cy }));
    assert_eq!(gs.ecs.player_pos, Coord { x: cx, y: cy });
    assert!(gs.ecs.viewsheds.get(hero).unwrap().dirty);
    // Healed by half of the greatest health: 10 + 30 / 2.
    assert_eq!(gs.ecs.combat_stats.get(hero).unwrap().hp, 25);
    assert_eq!(gs.ecs.combat_stats.get(hero).unwrap().max_hp, 30);
    assert_eq!(gs.ecs.log.entries.len(), old_log + 1);
    assert_eq!(gs.ecs.log.entries[old_log], LogEntry::Descended { depth: 2, healed: 15 });
    // The heal is not capped at the greatest health.
    gs.goto_next_level();
    assert_eq!(gs.ecs.combat_stats.get(hero).unwrap().hp, 40);
    assert_eq!(gs.ecs.map.depth, 3);
}
