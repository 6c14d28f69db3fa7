use roguelike::MainMenuSelection::{LoadGame, NewGame, Quit};
use roguelike::gui::{
    choose_entry, equipment, game_over, in_range, inventory, targetable_tiles, tooltip,
};
use roguelike::{
    drop_item_menu, main_menu, ranged_target, remove_equipment_menu, render_list, show_inventory,
    Color, Coord, Entity, EquipmentSlot, Equipped, GameOverResult, InBackpack, ItemMenuResult,
    MainMenuResult, MainMenuSelection, MenuKey, Name, Position, Renderable, RunState, State,
    TileMap, Viewshed, World,
};

fn menu_state() -> (State, Entity, Vec<Entity>) {
    let mut w = World::new();
    let hero = w.create_entity();
    w.player_entity = hero;
    w.player_pos = Coord { x: 5, y: 5 };
    let other = w.create_entity();
    let mut mine = Vec::new();
    for (i, owner) in [hero, other, hero, hero].iter().enumerate() {
        let item = w.create_entity();
        w.in_backpack.insert(item, InBackpack { owner: *owner });
        if i != 3 {
            w.names.insert(item, Name { value: format!("item {}", i) });
        }
        if *owner == hero && i != 3 {
            mine.push(item);
        }
    }
    (State { ecs: w }, hero, mine)
}

#[test]
fn the_inventory_lists_the_named_items_of_the_player() {
    let (gs, _, mine) = menu_state();
    assert_eq!(inventory(&gs.ecs), mine);
    assert_eq!(mine.len(), 2);
}

#[test]
fn the_inventory_menu_selects_by_letter() {
    let (gs, _, mine) = menu_state();
    assert_eq!(show_inventory(&gs, None), (ItemMenuResult::NoResponse, None));
    assert_eq!(show_inventory(&gs, Some(MenuKey::Escape)), (ItemMenuResult::Cancel, None));
    assert_eq!(
        show_inventory(&gs, Some(MenuKey::Select(0))),
        (ItemMenuResult::Selected, Some(mine[0]))
    );
    assert_eq!(
        show_inventory(&gs, Some(MenuKey::Select(1))),
        (ItemMenuResult::Selected, Some(mine[1]))
    );
    assert_eq!(show_inventory(&gs, Some(MenuKey::Select(2))), (ItemMenuResult::NoResponse, None));
    assert_eq!(show_inventory(&gs, Some(MenuKey::Select(-1))), (ItemMenuResult::NoResponse, None));
    assert_eq!(show_inventory(&gs, Some(MenuKey::Return)), (ItemMenuResult::NoResponse, None));
    assert_eq!(
        drop_item_menu(&gs, Some(MenuKey::Select(1))),
        (ItemMenuResult::Selected, Some(mine[1]))
    );
    assert_eq!(drop_item_menu(&gs, Some(MenuKey::Escape)), (ItemMenuResult::Cancel, None));
    assert_eq!(
        choose_entry(&vec![], Some(MenuKey::Select(0))),
        (ItemMenuResult::NoResponse, None)
    );
}

#[test]
fn the_equipment_menu_lists_what_the_player_wears() {
    let (mut gs, hero, _) = menu_state();
    let other = Entity { id: 1 };
    let theirs = gs.ecs.create_entity();
    gs.ecs.equipped.insert(theirs, Equipped { owner: other, slot: EquipmentSlot::Melee });
    gs.ecs.names.insert(theirs, Name { value: "theirs".to_string() });
    let worn = gs.ecs.create_entity();
    gs.ecs.equipped.insert(worn, Equipped { owner: hero, slot: EquipmentSlot::Shield });
    gs.ecs.names.insert(worn, Name { value: "Shield".to_string() });
    assert_eq!(equipment(&gs.ecs), vec![worn]);
    assert_eq!(
        remove_equipment_menu(&gs, Some(MenuKey::Select(0))),
        (ItemMenuResult::Selected, Some(worn))
    );
    assert_eq!(
        remove_equipment_menu(&gs, Some(MenuKey::Select(1))),
        (ItemMenuResult::NoResponse, None)
    );
    assert_eq!(remove_equipment_menu(&gs, Some(MenuKey::Escape)), (ItemMenuResult::Cancel, None));
}

#[test]
fn the_main_menu_moves_round_and_skips_loading_without_a_save() {
    let (mut gs, _, _) = menu_state();
    let at = |gs: &mut State, sel: MainMenuSelection, key: Option<MenuKey>, save: bool| {
        gs.ecs.run_state = RunState::MainMenu { menu_selection: sel };
        main_menu(gs, key, save)
    };
    let stay = |selected| MainMenuResult::NoSelection { selected };
    assert_eq!(at(&mut gs, NewGame, None, true), stay(NewGame));
    assert_eq!(at(&mut gs, NewGame, Some(MenuKey::Down), true), stay(LoadGame));
    assert_eq!(at(&mut gs, NewGame, Some(MenuKey::Down), false), stay(Quit));
    assert_eq!(at(&mut gs, LoadGame, Some(MenuKey::Down), true), stay(Quit));
    assert_eq!(at(&mut gs, Quit, Some(MenuKey::Down), true), stay(NewGame));
    assert_eq!(at(&mut gs, NewGame, Some(MenuKey::Up), true), stay(Quit));
    assert_eq!(at(&mut gs, Quit, Some(MenuKey::Up), true), stay(LoadGame));
    assert_eq!(at(&mut gs, Quit, Some(MenuKey::Up), false), stay(NewGame));
    assert_eq!(at(&mut gs, LoadGame, Some(MenuKey::Up), true), stay(NewGame));
    assert_eq!(at(&mut gs, LoadGame, Some(MenuKey::Escape), true), stay(Quit));
    assert_eq!(at(&mut gs, LoadGame, Some(MenuKey::Select(3)), true), stay(LoadGame));
    assert_eq!(
        at(&mut gs, LoadGame, Some(MenuKey::Return), true),
        MainMenuResult::Selected { selected: LoadGame }
    );
    gs.ecs.run_state = RunState::AwaitingInput;
    assert_eq!(main_menu(&gs, Some(MenuKey::Return), true), stay(NewGame));
}

#[test]
fn the_game_over_screen_leaves_on_any_key() {
    assert_eq!(game_over(None), GameOverResult::NoSelection);
    assert_eq!(game_over(Some(MenuKey::Select(4))), GameOverResult::QuitToMenu);
    assert_eq!(game_over(Some(MenuKey::Escape)), GameOverResult::QuitToMenu);
}

#[test]
fn range_is_measured_by_the_square_of_the_distance() {
    let o = Coord { x: 0, y: 0 };
    assert!(in_range(o, Coord { x: 3, y: 4 }, 5));
    assert!(!in_range(o, Coord { x: 3, y: 4 }, 4));
    assert!(in_range(o, o, 0));
    assert!(!in_range(o, o, -1));
    assert!(in_range(Coord { x: i32::MIN, y: 0 }, Coord { x: i32::MIN, y: 0 }, 0));
    assert!(!in_range(Coord { x: i32::MIN, y: i32::MIN }, Coord { x: i32::MAX, y: i32::MAX }, i32::MAX));
}

#[test]
fn aiming_selects_only_what_is_seen_and_in_range() {
    let (mut gs, hero, _) = menu_state();
    let near = Coord { x: 6, y: 5 };
    let far = Coord { x: 9, y: 9 };
    let unseen = Coord { x: 5, y: 6 };
    assert_eq!(ranged_target(&gs, 3, near, true), (ItemMenuResult::Cancel, None));
    gs.ecs
        .viewsheds
        .insert(hero, Viewshed { visible_tiles: vec![near, far], range: 8, dirty: false });
    assert_eq!(ranged_target(&gs, 3, near, false), (ItemMenuResult::NoResponse, None));
    assert_eq!(ranged_target(&gs, 3, near, true), (ItemMenuResult::Selected, Some(near)));
    assert_eq!(ranged_target(&gs, 3, far, true), (ItemMenuResult::Cancel, None));
    assert_eq!(ranged_target(&gs, 3, unseen, true), (ItemMenuResult::Cancel, None));
    assert_eq!(ranged_target(&gs, 6, far, true), (ItemMenuResult::Selected, Some(far)));
    assert_eq!(targetable_tiles(&gs.ecs, 3), vec![near]);
    assert_eq!(targetable_tiles(&gs.ecs, 6), vec![near, far]);
    assert_eq!(targetable_tiles(&gs.ecs, -1), vec![]);
}

#[test]
fn the_render_list_falls_by_render_order() {
    let mut w = World::new();
    let look = |order: i32, glyph: u16| Renderable {
        glyph,
        fg: Color::red(),
        bg: Color::black(),
        render_order: order,
    };
    let orders = [(0, 64u16), (2, 173), (1, 111), (2, 174), (1, 103)];
    for (i, (order, glyph)) in orders.iter().enumerate() {
        let e = w.create_entity();
        w.positions.insert(e, Position { x: i as i32, y: 0 });
        w.renderables.insert(e, look(*order, *glyph));
    }
    let hidden = w.create_entity();
    w.renderables.insert(hidden, look(9, 1));
    let glyphs: Vec<u16> = render_list(&w).iter().map(|d| d.1.glyph).collect();
    assert_eq!(glyphs, vec![173, 174, 111, 103, 64]);
    let places: Vec<i32> = render_list(&w).iter().map(|d| d.0.x).collect();
    assert_eq!(places, vec![1, 3, 2, 4, 0]);
}

#[test]
fn the_tooltip_names_what_stands_on_a_tile_in_view() {
    let mut w = World::new();
    w.map = TileMap::new(6, 6, 1);
    let orc = w.create_entity();
    w.names.insert(orc, Name { value: "Orc".to_string() });
    w.positions.insert(orc, Position { x: 2, y: 3 });
    let nameless = w.create_entity();
    w.positions.insert(nameless, Position { x: 2, y: 3 });
    let potion = w.create_entity();
    w.names.insert(potion, Name { value: "Health Potion".to_string() });
    w.positions.insert(potion, Position { x: 2, y: 3 });
    let elsewhere = w.create_entity();
    w.names.insert(elsewhere, Name { value: "Goblin".to_string() });
    w.positions.insert(elsewhere, Position { x: 3, y: 3 });
    let at = Coord { x: 2, y: 3 };
    assert!(tooltip(&w, at).is_empty());
    let idx = w.map.xy_index(2, 3);
    w.map.visible_tiles[idx] = true;
    assert_eq!(tooltip(&w, at), vec!["Orc".to_string(), "Health Potion".to_string()]);
    assert!(tooltip(&w, Coord { x: 3, y: 3 }).is_empty());
    assert!(tooltip(&w, Coord { x: -1, y: 3 }).is_empty());
    assert!(tooltip(&w, Coord { x: 2, y: 60 }).is_empty());
}
