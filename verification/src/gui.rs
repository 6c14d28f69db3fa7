//! What the menus decide. Drawing them is left to the caller, which hands
//! in the key that was pressed and where the pointer is.

use crate::components::Coord;
use crate::ecs::Entity;
use crate::state::{RunState, State};
use crate::world::World;
use vstd::prelude::*;

verus! {

/// What a menu of items makes of the input.
#[derive(PartialEq, Eq, Copy, Clone, Debug, Structural)]
pub enum ItemMenuResult {
    Cancel,
    NoResponse,
    Selected,
}

/// The entries of the main menu.
#[derive(PartialEq, Eq, Copy, Clone, Debug, Structural)]
pub enum MainMenuSelection {
    NewGame,
    LoadGame,
    Quit,
}

/// What the main menu makes of the input: the entry that is selected now,
/// or the entry that was confirmed.
#[derive(PartialEq, Eq, Copy, Clone, Debug, Structural)]
pub enum MainMenuResult {
    NoSelection { selected: MainMenuSelection },
    Selected { selected: MainMenuSelection },
}

/// What the screen after the player's death makes of the input.
#[derive(PartialEq, Eq, Copy, Clone, Debug, Structural)]
pub enum GameOverResult {
    NoSelection,
    QuitToMenu,
}

/// A key as the menus tell them apart.
#[derive(PartialEq, Eq, Copy, Clone, Debug, Structural)]
pub enum MenuKey {
    Escape,
    Up,
    Down,
    Return,
    /// A key that picks an entry of a lettered menu: 0 for `a`, 1 for `b`,
    /// and so on; any other number for a key that picks none.
    Select(i32),
}

/// Whether live entity `k` is a named item in the player's backpack.
pub open spec fn is_carried(w: World, k: int) -> bool {
    &&& 0 <= k < w.entities.alive@.len()
    &&& w.entities.alive@[k]
    &&& w.in_backpack@.contains_key(k)
    &&& w.names@.contains_key(k)
    &&& w.in_backpack@[k].owner == w.player_entity
}

/// The named items among the first `n` entities that the player carries,
/// in the order of their identities.
pub open spec fn carried(w: World, n: int) -> Seq<Entity>
    decreases n,
{
    if n <= 0 {
        Seq::empty()
    } else if is_carried(w, n - 1) {
        carried(w, n - 1).push(Entity { id: (n - 1) as usize })
    } else {
        carried(w, n - 1)
    }
}

/// Whether live entity `k` is a named item that the player wears.
pub open spec fn is_worn(w: World, k: int) -> bool {
    &&& 0 <= k < w.entities.alive@.len()
    &&& w.entities.alive@[k]
    &&& w.equipped@.contains_key(k)
    &&& w.names@.contains_key(k)
    &&& w.equipped@[k].owner == w.player_entity
}

/// The named items among the first `n` entities that the player wears, in
/// the order of their identities.
pub open spec fn worn(w: World, n: int) -> Seq<Entity>
    decreases n,
{
    if n <= 0 {
        Seq::empty()
    } else if is_worn(w, n - 1) {
        worn(w, n - 1).push(Entity { id: (n - 1) as usize })
    } else {
        worn(w, n - 1)
    }
}

/// What a lettered menu of `entries` makes of a key: escape cancels, a
/// key that picks an entry selects it, and anything else, or no key at
/// all, leaves the menu waiting.
pub open spec fn item_menu_result(entries: Seq<Entity>, key: Option<MenuKey>) -> (
    ItemMenuResult,
    Option<Entity>,
) {
    match key {
        Some(MenuKey::Escape) => (ItemMenuResult::Cancel, None),
        Some(MenuKey::Select(n)) => if 0 <= n < entries.len() {
            (ItemMenuResult::Selected, Some(entries[n as int]))
        } else {
            (ItemMenuResult::NoResponse, None)
        },
        _ => (ItemMenuResult::NoResponse, None),
    }
}

/// The named items that the player carries, in the order of the menu.
pub fn inventory(world: &World) -> (list: Vec<Entity>)
    ensures
        list@ == carried(*world, world.in_backpack.bound()),
{
    let mut list: Vec<Entity> = Vec::new();
    let n: usize = world.in_backpack.limit();
    let mut i: usize = 0;
    while i < n
        invariant
            i <= n,
            n == world.in_backpack.bound(),
            list@ == carried(*world, i as int),
        decreases n - i,
    {
        let entity = Entity { id: i };
        let mine: bool = match world.in_backpack.get(entity) {
            Some(b) => b.owner == world.player_entity,
            None => false,
        };
        if world.entities.is_alive(entity) && mine && world.names.contains(entity) {
            list.push(entity);
        }
        i = i + 1;
    }
    list
}

/// The named items that the player wears, in the order of the menu.
pub fn equipment(world: &World) -> (list: Vec<Entity>)
    ensures
        list@ == worn(*world, world.equipped.bound()),
{
    let mut list: Vec<Entity> = Vec::new();
    let n: usize = world.equipped.limit();
    let mut i: usize = 0;
    while i < n
        invariant
            i <= n,
            n == world.equipped.bound(),
            list@ == worn(*world, i as int),
        decreases n - i,
    {
        let entity = Entity { id: i };
        let mine: bool = match world.equipped.get(entity) {
            Some(e) => e.owner == world.player_entity,
            None => false,
        };
        if world.entities.is_alive(entity) && mine && world.names.contains(entity) {
            list.push(entity);
        }
        i = i + 1;
    }
    list
}

/// What a lettered menu of `entries` makes of `key`.
pub fn choose_entry(entries: &Vec<Entity>, key: Option<MenuKey>) -> (r: (
    ItemMenuResult,
    Option<Entity>,
))
    ensures
        r == item_menu_result(entries@, key),
{
    match key {
        None => (ItemMenuResult::NoResponse, None),
        Some(MenuKey::Escape) => (ItemMenuResult::Cancel, None),
        Some(MenuKey::Select(selection)) => {
            if selection > -1 && (selection as usize) < entries.len() {
                (ItemMenuResult::Selected, Some(entries[selection as usize]))
            } else {
                (ItemMenuResult::NoResponse, None)
            }
        },
        Some(_) => (ItemMenuResult::NoResponse, None),
    }
}

/// The inventory menu: picks one of the items that the player carries.
pub fn show_inventory(gs: &State, key: Option<MenuKey>) -> (r: (ItemMenuResult, Option<Entity>))
    ensures
        r == item_menu_result(carried(gs.ecs, gs.ecs.in_backpack.bound()), key),
{
    let entries = inventory(&gs.ecs);
    choose_entry(&entries, key)
}

/// The menu for dropping: picks one of the items that the player carries.
pub fn drop_item_menu(gs: &State, key: Option<MenuKey>) -> (r: (ItemMenuResult, Option<Entity>))
    ensures
        r == item_menu_result(carried(gs.ecs, gs.ecs.in_backpack.bound()), key),
{
    let entries = inventory(&gs.ecs);
    choose_entry(&entries, key)
}

/// The menu for taking off: picks one of the items that the player wears.
pub fn remove_equipment_menu(gs: &State, key: Option<MenuKey>) -> (r: (
    ItemMenuResult,
    Option<Entity>,
))
    ensures
        r == item_menu_result(worn(gs.ecs, gs.ecs.equipped.bound()), key),
{
    let entries = equipment(&gs.ecs);
    choose_entry(&entries, key)
}

/// Whether `b` is no further from `a` than `range`: the square of their
/// distance is at most the square of the range, and the range is not
/// negative.
pub open spec fn within_range(a: Coord, b: Coord, range: int) -> bool {
    0 <= range && (a.x - b.x) * (a.x - b.x) + (a.y - b.y) * (a.y - b.y) <= range * range
}

/// Whether the player can aim at `at`: the player sees that tile, and it
/// is within `range` of where the player is known to be.
pub open spec fn can_target(w: World, range: int, at: Coord) -> bool {
    &&& w.viewsheds@.contains_key(w.player_entity.key())
    &&& w.viewsheds@[w.player_entity.key()].visible_tiles@.contains(at)
    &&& within_range(w.player_pos, at, range)
}

/// What aiming makes of the pointer. A player without a viewshed cannot
/// aim, which cancels. A click on a tile that can be aimed at selects it,
/// a click anywhere else cancels, and without a click aiming goes on.
pub open spec fn ranged_target_result(w: World, range: int, pointer: Coord, click: bool) -> (
    ItemMenuResult,
    Option<Coord>,
) {
    if !w.viewsheds@.contains_key(w.player_entity.key()) {
        (ItemMenuResult::Cancel, None)
    } else if !click {
        (ItemMenuResult::NoResponse, None)
    } else if can_target(w, range, pointer) {
        (ItemMenuResult::Selected, Some(pointer))
    } else {
        (ItemMenuResult::Cancel, None)
    }
}

/// Whether `b` is within `range` of `a`.
pub fn in_range(a: Coord, b: Coord, range: i32) -> (r: bool)
    ensures
        r == within_range(a, b, range as int),
{
    if range < 0 {
        return false;
    }
    let dx: i128 = a.x as i128 - b.x as i128;
    let dy: i128 = a.y as i128 - b.y as i128;
    let reach: i128 = range as i128;
    assert(0 <= dx * dx <= 0x1_0000_0000 * 0x1_0000_0000) by (nonlinear_arith)
        requires
            -0x1_0000_0000 <= dx <= 0x1_0000_0000,
    ;
    assert(0 <= dy * dy <= 0x1_0000_0000 * 0x1_0000_0000) by (nonlinear_arith)
        requires
            -0x1_0000_0000 <= dy <= 0x1_0000_0000,
    ;
    assert(0 <= reach * reach <= 0x1_0000_0000 * 0x1_0000_0000) by (nonlinear_arith)
        requires
            0 <= reach <= 0x1_0000_0000,
    ;
    dx * dx + dy * dy <= reach * reach
}

/// Aiming an item of the given range with the pointer.
pub fn ranged_target(gs: &State, range: i32, pointer: Coord, left_click: bool) -> (r: (
    ItemMenuResult,
    Option<Coord>,
))
    ensures
        r == ranged_target_result(gs.ecs, range as int, pointer, left_click),
{
    match gs.ecs.viewsheds.get(gs.ecs.player_entity) {
        None => (ItemMenuResult::Cancel, None),
        Some(visible) => {
            if !left_click {
                return (ItemMenuResult::NoResponse, None);
            }
            let mut valid_target = false;
            let mut j: usize = 0;
            while j < visible.visible_tiles.len()
                invariant
                    j <= visible.visible_tiles@.len(),
                    valid_target == (within_range(gs.ecs.player_pos, pointer, range as int)
                        && visible.visible_tiles@.take(j as int).contains(pointer)),
                decreases visible.visible_tiles@.len() - j,
            {
                let tile = visible.visible_tiles[j];
                let ghost shorter = visible.visible_tiles@.take(j as int);
                let ghost longer = visible.visible_tiles@.take(j as int + 1);
                assert(longer =~= shorter.push(tile));
                if tile == pointer && in_range(gs.ecs.player_pos, tile, range) {
                    valid_target = true;
                }
                proof {
                    if shorter.contains(pointer) {
                        let a = choose|a: int| 0 <= a < shorter.len() && shorter[a] == pointer;
                        assert(longer[a] == pointer);
                    }
                    if tile == pointer {
                        assert(longer[j as int] == pointer);
                    }
                    if longer.contains(pointer) && tile != pointer {
                        let a = choose|a: int| 0 <= a < longer.len() && longer[a] == pointer;
                        assert(shorter[a] == pointer);
                    }
                }
                j = j + 1;
            }
            assert(visible.visible_tiles@.take(j as int) =~= visible.visible_tiles@);
            if valid_target {
                (ItemMenuResult::Selected, Some(pointer))
            } else {
                (ItemMenuResult::Cancel, None)
            }
        },
    }
}

/// Those of `tiles` that are within `range` of `from`, in the order of
/// `tiles`.
pub open spec fn within_reach(tiles: Seq<Coord>, from: Coord, range: int) -> Seq<Coord>
    decreases tiles.len(),
{
    if tiles.len() == 0 {
        Seq::empty()
    } else if within_range(from, tiles.last(), range) {
        within_reach(tiles.drop_last(), from, range).push(tiles.last())
    } else {
        within_reach(tiles.drop_last(), from, range)
    }
}

/// The tiles that the player can aim an item of the given range at: those
/// in the player's view that are within range of where the player is
/// known to be, in the order of the view. A player without a viewshed can
/// aim at none.
pub fn targetable_tiles(world: &World, range: i32) -> (tiles: Vec<Coord>)
    ensures
        tiles@ == if world.viewsheds@.contains_key(world.player_entity.key()) {
            within_reach(
                world.viewsheds@[world.player_entity.key()].visible_tiles@,
                world.player_pos,
                range as int,
            )
        } else {
            Seq::empty()
        },
{
    let mut tiles: Vec<Coord> = Vec::new();
    match world.viewsheds.get(world.player_entity) {
        None => {},
        Some(visible) => {
            let mut j: usize = 0;
            assert(visible.visible_tiles@.take(0) =~= Seq::<Coord>::empty());
            while j < visible.visible_tiles.len()
                invariant
                    j <= visible.visible_tiles@.len(),
                    tiles@ == within_reach(
                        visible.visible_tiles@.take(j as int),
                        world.player_pos,
                        range as int,
                    ),
                decreases visible.visible_tiles@.len() - j,
            {
                let tile = visible.visible_tiles[j];
                assert(visible.visible_tiles@.take(j as int + 1).drop_last()
                    =~= visible.visible_tiles@.take(j as int));
                if in_range(world.player_pos, tile, range) {
                    tiles.push(tile);
                }
                j = j + 1;
            }
            assert(visible.visible_tiles@.take(j as int) =~= visible.visible_tiles@);
        },
    }
    tiles
}

/// The names of those of the first `n` entities that stand on `at`, in
/// the order of their identities.
pub open spec fn names_at(w: World, n: int, at: Coord) -> Seq<String>
    decreases n,
{
    if n <= 0 {
        Seq::empty()
    } else if w.names@.contains_key(n - 1) && w.positions@.contains_key(n - 1) && w.positions@[n
        - 1].x == at.x && w.positions@[n - 1].y == at.y {
        names_at(w, n - 1, at).push(w.names@[n - 1].value)
    } else {
        names_at(w, n - 1, at)
    }
}

/// Whether the tile under the pointer is one that the player sees now.
pub open spec fn pointer_on_view(w: World, at: Coord) -> bool {
    w.map.in_bounds(at.x as int, at.y as int) && w.map.visible_tiles@[w.map.index_of(
        at.x as int,
        at.y as int,
    )]
}

/// What to tell of the tile under the pointer: the names of all that
/// stands there, if the player sees the tile now, and nothing otherwise.
/// A map that does not fit its own size shows nothing.
pub fn tooltip(world: &World, pointer: Coord) -> (lines: Vec<String>)
    ensures
        lines@ == if world.map.wf() && pointer_on_view(*world, pointer) {
            names_at(*world, world.names.bound(), pointer)
        } else {
            Seq::empty()
        },
{
    let mut lines: Vec<String> = Vec::new();
    if !world.map.is_well_formed() || !world.map.contains(pointer.x, pointer.y) {
        return lines;
    }
    if !world.map.visible_tiles[world.map.xy_index(pointer.x, pointer.y)] {
        return lines;
    }
    let n: usize = world.names.limit();
    let mut i: usize = 0;
    while i < n
        invariant
            i <= n,
            n == world.names.bound(),
            lines@ == names_at(*world, i as int, pointer),
        decreases n - i,
    {
        let entity = Entity { id: i };
        let here: bool = match world.positions.get(entity) {
            Some(p) => p.x == pointer.x && p.y == pointer.y,
            None => false,
        };
        if here {
            if let Some(name) = world.names.get(entity) {
                lines.push(name.value.clone());
            }
        }
        i = i + 1;
    }
    lines
}

/// The entry above `selection`, going round; the entry for loading is
/// passed over where there is no saved game.
pub open spec fn entry_above(selection: MainMenuSelection, save_exists: bool) -> MainMenuSelection {
    match selection {
        MainMenuSelection::NewGame => MainMenuSelection::Quit,
        MainMenuSelection::LoadGame => MainMenuSelection::NewGame,
        MainMenuSelection::Quit => if save_exists {
            MainMenuSelection::LoadGame
        } else {
            MainMenuSelection::NewGame
        },
    }
}

/// The entry below `selection`, going round; the entry for loading is
/// passed over where there is no saved game.
pub open spec fn entry_below(selection: MainMenuSelection, save_exists: bool) -> MainMenuSelection {
    match selection {
        MainMenuSelection::NewGame => if save_exists {
            MainMenuSelection::LoadGame
        } else {
            MainMenuSelection::Quit
        },
        MainMenuSelection::LoadGame => MainMenuSelection::Quit,
        MainMenuSelection::Quit => MainMenuSelection::NewGame,
    }
}

/// What the main menu makes of a key while `run_state` shows it: escape
/// moves to the entry for quitting, up and down move the selection,
/// return confirms it, and anything else leaves it. In any other state
/// the menu offers a new game.
pub open spec fn main_menu_result(run_state: RunState, key: Option<MenuKey>, save_exists: bool) -> MainMenuResult {
    match run_state {
        RunState::MainMenu { menu_selection } => match key {
            Some(MenuKey::Escape) => MainMenuResult::NoSelection {
                selected: MainMenuSelection::Quit,
            },
            Some(MenuKey::Up) => MainMenuResult::NoSelection {
                selected: entry_above(menu_selection, save_exists),
            },
            Some(MenuKey::Down) => MainMenuResult::NoSelection {
                selected: entry_below(menu_selection, save_exists),
            },
            Some(MenuKey::Return) => MainMenuResult::Selected { selected: menu_selection },
            _ => MainMenuResult::NoSelection { selected: menu_selection },
        },
        _ => MainMenuResult::NoSelection { selected: MainMenuSelection::NewGame },
    }
}

/// The main menu.
pub fn main_menu(gs: &State, key: Option<MenuKey>, save_exists: bool) -> (r: MainMenuResult)
    ensures
        r == main_menu_result(gs.ecs.run_state, key, save_exists),
{
    if let RunState::MainMenu { menu_selection } = gs.ecs.run_state {
        match key {
            None => MainMenuResult::NoSelection { selected: menu_selection },
            Some(MenuKey::Escape) => MainMenuResult::NoSelection {
                selected: MainMenuSelection::Quit,
            },
            Some(MenuKey::Up) => {
                let mut new_selection = match menu_selection {
                    MainMenuSelection::NewGame => MainMenuSelection::Quit,
                    MainMenuSelection::LoadGame => MainMenuSelection::NewGame,
                    MainMenuSelection::Quit => MainMenuSelection::LoadGame,
                };
                if new_selection == MainMenuSelection::LoadGame && !save_exists {
                    new_selection = MainMenuSelection::NewGame;
                }
                MainMenuResult::NoSelection { selected: new_selection }
            },
            Some(MenuKey::Down) => {
                let mut new_selection = match menu_selection {
                    MainMenuSelection::NewGame => MainMenuSelection::LoadGame,
                    MainMenuSelection::LoadGame => MainMenuSelection::Quit,
                    MainMenuSelection::Quit => MainMenuSelection::NewGame,
                };
                if new_selection == MainMenuSelection::LoadGame && !save_exists {
                    new_selection = MainMenuSelection::Quit;
                }
                MainMenuResult::NoSelection { selected: new_selection }
            },
            Some(MenuKey::Return) => MainMenuResult::Selected { selected: menu_selection },
            Some(_) => MainMenuResult::NoSelection { selected: menu_selection },
        }
    } else {
        MainMenuResult::NoSelection { selected: MainMenuSelection::NewGame }
    }
}

/// The screen shown when the player has died: any key leaves it for the
/// main menu.
pub fn game_over(key: Option<MenuKey>) -> (r: GameOverResult)
    ensures
        r == if key is Some {
            GameOverResult::QuitToMenu
        } else {
            GameOverResult::NoSelection
        },
{
    match key {
        None => GameOverResult::NoSelection,
        Some(_) => GameOverResult::QuitToMenu,
    }
}

} // verus!
