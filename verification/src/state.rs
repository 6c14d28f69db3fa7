//! The run-state machine that sequences input, turns, menus and level
//! changes, and the pipeline of systems that makes up a turn.

use crate::arith::{clamp_i32, half, saturate};
use crate::components::{
    hits_of, CombatStats, Coord, Position, SufferDamage, WantsToDropItem, WantsToMelee,
    WantsToPickUpItem, WantsToRemoveEquipment, WantsToUseItem,
};
use crate::damage_system::{dead_swept, delete_the_dead, DamageSystem};
use crate::ecs::{entity_keys, lemma_entity_keys_empty, lemma_entity_keys_push, Entity};
use crate::gamelog::LogEntry;
use crate::gui::{
    carried, drop_item_menu, game_over, item_menu_result, main_menu, main_menu_result,
    ranged_target, ranged_target_result, remove_equipment_menu, show_inventory, worn,
    GameOverResult, ItemMenuResult, MainMenuResult, MainMenuSelection, MenuKey,
};
use crate::inventory_system::{
    effects_of, use_items, EquipmentRemoveSystem, ItemBagSystem, ItemDropSystem, ItemUseSystem,
};
use crate::map::{TileMap, TileType};
use crate::map_indexing_system::MapIndexingSystem;
use crate::melee_combat_system::MeleeCombatSystem;
use crate::monster_ai_system::{MonsterAI, NavigationPath};
use crate::player::{input_handled, player_input, state_after, Command};
use crate::saveload_system::{load_game, loadable, loaded, save_game, saved, LoadError, SaveData};
use crate::spawner::{
    inhabitant, is_player_at, lemma_player_stays, lives_in_a_room, monster_kinds, newborn, player,
    populate, potion_kinds, settled,
};
use crate::visibility_system::VisibilitySystem;
use crate::world::{ComponentKind, World};
use vstd::prelude::*;

verus! {

/// The phase that the game is in.
#[derive(PartialEq, Eq, Copy, Clone, Debug, Structural)]
pub enum RunState {
    AwaitingInput,
    PreRun,
    PlayerTurn,
    MonsterTurn,
    ShowInventory,
    ShowDropItem,
    ShowTargeting { range: i32, item: Entity },
    MainMenu { menu_selection: MainMenuSelection },
    SaveGame,
    NextLevel,
    ShowRemoveEquipment,
    GameOver,
}

/// The game: the world and all that is in it.
pub struct State {
    pub ecs: World,
}

/// What the outside world hands in for one tick.
#[derive(Clone, Copy, Debug, PartialEq, Eq, Structural)]
pub struct Input {
    /// What the player asks for while the game waits for input.
    pub command: Option<Command>,
    /// The key that was pressed, as the menus read it.
    pub key: Option<MenuKey>,
    /// The tile that the pointer is on.
    pub pointer: Coord,
    /// Whether the pointer's button was pressed.
    pub left_click: bool,
    /// Whether there is a saved game.
    pub save_exists: bool,
}

/// What a tick asks the outside world to do.
pub enum Request {
    Nothing,
    /// End the program.
    Quit,
    /// Store this saved game.
    Save(SaveData),
    /// Fetch the saved game and hand it to `State::load`.
    Load,
}

/// The worlds between the systems of one run of the pipeline.
pub struct Steps {
    pub seen: World,
    pub moved: World,
    pub indexed: World,
    pub fought: World,
    pub hurt: World,
    pub picked: World,
    pub used: World,
    pub dropped: World,
    pub removed: World,
}

/// What the commit point does to the world: every entity whose removal
/// was requested is gone with all its components.
pub open spec fn committed(pre: World, post: World) -> bool {
    &&& post.entities.doomed@.len() == 0
    &&& post.purged(pre, entity_keys(pre.entities.doomed@))
    &&& post.same_resources(pre)
    &&& post.entities.alive@.len() == pre.entities.alive@.len()
    &&& forall|i: int|
        0 <= i < pre.entities.alive@.len() ==> #[trigger] post.entities.alive@[i] == (
        pre.entities.alive@[i] && !entity_keys(pre.entities.doomed@).contains(i))
}

/// Whether `post` comes of `pre` by the systems in their fixed order, with
/// the worlds of `s` in between: visibility, monsters, map indexing,
/// melee, damage, picking up, using, dropping and taking off, and then
/// the commit point.
pub open spec fn pipeline(pre: World, s: Steps, post: World) -> bool {
    &&& VisibilitySystem::ran(pre, s.seen)
    &&& MonsterAI::ran(s.seen, s.moved)
    &&& MapIndexingSystem::ran(s.moved, s.indexed)
    &&& MeleeCombatSystem::ran(s.indexed, s.fought)
    &&& DamageSystem::ran(s.fought, s.hurt)
    &&& ItemBagSystem::ran(s.hurt, s.picked)
    &&& ItemUseSystem::ran(s.picked, s.used)
    &&& ItemDropSystem::ran(s.used, s.dropped)
    &&& EquipmentRemoveSystem::ran(s.dropped, s.removed)
    &&& committed(s.removed, post)
}

/// Whether `post` comes of `pre` by one run of the pipeline.
pub open spec fn systems_ran(pre: World, post: World) -> bool {
    exists|s: Steps| #[trigger] pipeline(pre, s, post)
}

/// Whether live entity `k` stays behind when the player goes down a
/// level: it is no player, and the player neither carries nor wears it.
pub open spec fn leaves_level(w: World, k: int) -> bool {
    &&& 0 <= k < w.entities.alive@.len()
    &&& w.entities.alive@[k]
    &&& !w.players@.contains_key(k)
    &&& !(w.in_backpack@.contains_key(k) && w.in_backpack@[k].owner == w.player_entity)
    &&& !(w.equipped@.contains_key(k) && w.equipped@[k].owner == w.player_entity)
}

/// The entities that stay behind when the player goes down a level.
pub open spec fn leavers(w: World) -> Set<int> {
    Set::new(|k: int| leaves_level(w, k))
}

/// Whether `post` is `pre` without the entities in `gone`, on a map newly
/// made for `depth`.
pub open spec fn moved_on(pre: World, gone: Set<int>, depth: i32, post: World) -> bool {
    &&& post.purged(pre, gone)
    &&& forall|k: int| gone.contains(k) ==> #[trigger] post.bare(k)
    &&& post.entities.alive@.len() == pre.entities.alive@.len()
    &&& forall|i: int|
        0 <= i < pre.entities.alive@.len() ==> #[trigger] post.entities.alive@[i] == (
        pre.entities.alive@[i] && !gone.contains(i))
    &&& post.entities.doomed == pre.entities.doomed
    &&& post.map.is_fresh_level(depth)
    &&& post.rng == pre.rng
    &&& post.log == pre.log
    &&& post.player_pos == pre.player_pos
    &&& post.player_entity == pre.player_entity
    &&& post.run_state == pre.run_state
}

/// The centre of the first room of the map.
pub open spec fn start_of(map: TileMap) -> Position {
    Position {
        x: map.rooms@[0].center_point().0 as i32,
        y: map.rooms@[0].center_point().1 as i32,
    }
}

/// How much the player is healed on arrival: half of its greatest health,
/// if it has combat stats.
pub open spec fn arrival_heal(w: World) -> i32 {
    if w.combat_stats@.contains_key(w.player_entity.key()) {
        half(w.combat_stats@[w.player_entity.key()].max_hp as int) as i32
    } else {
        0
    }
}

/// Whether `post` is `pre` with the player arrived on the new level: it
/// stands in the middle of the first room with a stale view, healed by
/// half its greatest health, and the log tells of it. A player entity
/// that lacks one of these components is left without it.
pub open spec fn hero_placed(pre: World, post: World) -> bool {
    let hero = pre.player_entity.key();
    let start = start_of(pre.map);
    &&& post.player_pos == (Coord { x: start.x, y: start.y })
    &&& post.positions@ == if pre.positions@.contains_key(hero) {
        pre.positions@.insert(hero, start)
    } else {
        pre.positions@
    }
    &&& post.viewsheds@.dom() == pre.viewsheds@.dom()
    &&& forall|j: int|
        j != hero && pre.viewsheds@.contains_key(j) ==> #[trigger] post.viewsheds@[j]
            == pre.viewsheds@[j]
    &&& pre.viewsheds@.contains_key(hero) ==> {
        &&& post.viewsheds@[hero].dirty
        &&& post.viewsheds@[hero].range == pre.viewsheds@[hero].range
        &&& post.viewsheds@[hero].visible_tiles == pre.viewsheds@[hero].visible_tiles
    }
    &&& post.combat_stats@ == if pre.combat_stats@.contains_key(hero) {
        pre.combat_stats@.insert(
            hero,
            CombatStats {
                hp: clamp_i32(pre.combat_stats@[hero].hp + arrival_heal(pre)),
                ..pre.combat_stats@[hero]
            },
        )
    } else {
        pre.combat_stats@
    }
    &&& post.log.entries@ == pre.log.entries@.push(
        LogEntry::Descended { depth: pre.map.depth, healed: arrival_heal(pre) },
    )
    &&& post == (World {
        positions: post.positions,
        viewsheds: post.viewsheds,
        combat_stats: post.combat_stats,
        player_pos: post.player_pos,
        log: post.log,
        ..pre
    })
}

/// What going down a level does to the world. All entities but the
/// player and what it carries or wears are gone. The map is a new one,
/// one level deeper, with its rooms peopled. The player has arrived.
pub open spec fn descended(pre: World, post: World) -> bool {
    exists|cleared: World, arrived: World|
        {
            &&& #[trigger] moved_on(
                pre,
                leavers(pre),
                clamp_i32(pre.map.depth + 1),
                cleared,
            )
            &&& #[trigger] settled(cleared, arrived)
            &&& hero_placed(arrived, post)
        }
}

/// Whether `post` is `pre` with a newborn player in the middle of the
/// first room, known to the world as the player.
pub open spec fn hero_born(pre: World, post: World) -> bool {
    let hero = pre.entities.issued();
    let start = start_of(pre.map);
    &&& post.entities.alive@ == pre.entities.alive@.push(true)
    &&& post.entities.doomed == pre.entities.doomed
    &&& post.same_except(pre, set![hero])
    &&& is_player_at(post, hero, start.x, start.y)
    &&& post.player_entity.key() == hero
    &&& post.player_pos == (Coord { x: start.x, y: start.y })
    &&& post.map == pre.map
    &&& post.rng == pre.rng
    &&& post.log == pre.log
    &&& post.run_state == pre.run_state
}

/// What starting over does to the world. Every entity is gone. The map
/// is a new one of the first level, with its rooms peopled and a newborn
/// player in the first.
pub open spec fn started_over(pre: World, post: World) -> bool {
    exists|cleared: World, arrived: World|
        {
            &&& #[trigger] moved_on(pre, pre.entities.live_set(), 1, cleared)
            &&& #[trigger] settled(cleared, arrived)
            &&& hero_born(arrived, post)
        }
}

/// The world `w` in the run state `state`.
pub open spec fn in_state(w: World, state: RunState) -> World {
    World { run_state: state, ..w }
}

/// Whether `post` is `pre` with the player's intent to use `item` on
/// `target` recorded, and the player's turn next.
pub open spec fn use_chosen(pre: World, item: Entity, target: Option<Coord>, post: World) -> bool {
    &&& post.wants_to_use@ == pre.wants_to_use@.insert(
        pre.player_entity.key(),
        WantsToUseItem { item, target },
    )
    &&& post == (World {
        wants_to_use: post.wants_to_use,
        run_state: RunState::PlayerTurn,
        ..pre
    })
}

/// Whether `post` is `pre` with the player's intent to drop `item`
/// recorded, and the player's turn next.
pub open spec fn drop_chosen(pre: World, item: Entity, post: World) -> bool {
    &&& post.wants_to_drop@ == pre.wants_to_drop@.insert(
        pre.player_entity.key(),
        WantsToDropItem { item },
    )
    &&& post == (World {
        wants_to_drop: post.wants_to_drop,
        run_state: RunState::PlayerTurn,
        ..pre
    })
}

/// Whether `post` is `pre` with the player's intent to take off `item`
/// recorded, and the player's turn next.
pub open spec fn removal_chosen(pre: World, item: Entity, post: World) -> bool {
    &&& post.wants_to_remove@ == pre.wants_to_remove@.insert(
        pre.player_entity.key(),
        WantsToRemoveEquipment { item },
    )
    &&& post == (World {
        wants_to_remove: post.wants_to_remove,
        run_state: RunState::PlayerTurn,
        ..pre
    })
}

/// What saving leaves of the world: the identity that the helper used is
/// spent, and the main menu shows with the saved game selected.
pub open spec fn after_save(pre: World, post: World) -> bool {
    &&& post.purged(pre, set![pre.entities.issued()])
    &&& post.entities.alive@ == pre.entities.alive@.push(false)
    &&& post.entities.doomed == pre.entities.doomed
    &&& post.map == pre.map
    &&& post.rng == pre.rng
    &&& post.log == pre.log
    &&& post.player_pos == pre.player_pos
    &&& post.player_entity == pre.player_entity
    &&& post.run_state == (RunState::MainMenu { menu_selection: MainMenuSelection::LoadGame })
}

/// What one tick makes of the world and the input before the dead are
/// swept away, by the run state it finds. A turn runs the pipeline and
/// moves on to the next phase. A wait for input acts on the player's
/// command. A menu waits, cancels, or records the player's choice as an
/// intent and hands over to the player's turn; an item that is aimed
/// leads to targeting first. The main menu moves its selection, starts a
/// game, or asks the caller to load or to quit. Saving hands the saved
/// game to the caller. The next level and the end of the game do what
/// their names say.
pub open spec fn stepped(pre: World, input: Input, post: World, request: Request) -> bool {
    match pre.run_state {
        RunState::PreRun => {
            &&& systems_ran(pre, in_state(post, pre.run_state))
            &&& post.run_state == RunState::AwaitingInput
            &&& request is Nothing
        },
        RunState::AwaitingInput => {
            &&& input_handled(pre, input.command, in_state(post, pre.run_state))
            &&& post.run_state == state_after(input.command)
            &&& request is Nothing
        },
        RunState::PlayerTurn => {
            &&& systems_ran(pre, in_state(post, pre.run_state))
            &&& post.run_state == RunState::MonsterTurn
            &&& request is Nothing
        },
        RunState::MonsterTurn => {
            &&& systems_ran(pre, in_state(post, pre.run_state))
            &&& post.run_state == RunState::AwaitingInput
            &&& request is Nothing
        },
        RunState::ShowInventory => {
            let choice = item_menu_result(carried(pre, pre.in_backpack.bound()), input.key);
            &&& request is Nothing
            &&& match choice.0 {
                ItemMenuResult::Cancel => post == in_state(pre, RunState::AwaitingInput),
                ItemMenuResult::NoResponse => post == pre,
                ItemMenuResult::Selected => {
                    let item = choice.1->Some_0;
                    if pre.ranged@.contains_key(item.key()) {
                        post == in_state(
                            pre,
                            RunState::ShowTargeting { range: pre.ranged@[item.key()].range, item },
                        )
                    } else {
                        use_chosen(pre, item, None, post)
                    }
                },
            }
        },
        RunState::ShowDropItem => {
            let choice = item_menu_result(carried(pre, pre.in_backpack.bound()), input.key);
            &&& request is Nothing
            &&& match choice.0 {
                ItemMenuResult::Cancel => post == in_state(pre, RunState::AwaitingInput),
                ItemMenuResult::NoResponse => post == pre,
                ItemMenuResult::Selected => drop_chosen(pre, choice.1->Some_0, post),
            }
        },
        RunState::ShowRemoveEquipment => {
            let choice = item_menu_result(worn(pre, pre.equipped.bound()), input.key);
            &&& request is Nothing
            &&& match choice.0 {
                ItemMenuResult::Cancel => post == in_state(pre, RunState::AwaitingInput),
                ItemMenuResult::NoResponse => post == pre,
                ItemMenuResult::Selected => removal_chosen(pre, choice.1->Some_0, post),
            }
        },
        RunState::ShowTargeting { range, item } => {
            let choice = ranged_target_result(pre, range as int, input.pointer, input.left_click);
            &&& request is Nothing
            &&& match choice.0 {
                ItemMenuResult::Cancel => post == in_state(pre, RunState::AwaitingInput),
                ItemMenuResult::NoResponse => post == pre,
                ItemMenuResult::Selected => use_chosen(pre, item, choice.1, post),
            }
        },
        RunState::MainMenu { menu_selection } => match main_menu_result(
            pre.run_state,
            input.key,
            input.save_exists,
        ) {
            MainMenuResult::NoSelection { selected } => {
                &&& post == in_state(pre, RunState::MainMenu { menu_selection: selected })
                &&& request is Nothing
            },
            MainMenuResult::Selected { selected } => match selected {
                MainMenuSelection::NewGame => {
                    &&& post == in_state(pre, RunState::PreRun)
                    &&& request is Nothing
                },
                MainMenuSelection::LoadGame => post == pre && request is Load,
                MainMenuSelection::Quit => post == pre && request is Quit,
            },
        },
        RunState::SaveGame => {
            &&& request matches Request::Save(data)
            &&& saved(pre, data)
            &&& after_save(pre, post)
        },
        RunState::NextLevel => {
            &&& descended(pre, in_state(post, pre.run_state))
            &&& post.run_state == RunState::PreRun
            &&& request is Nothing
        },
        RunState::GameOver => {
            &&& request is Nothing
            &&& if input.key is Some {
                &&& started_over(pre, in_state(post, pre.run_state))
                &&& post.run_state == (RunState::MainMenu {
                    menu_selection: MainMenuSelection::NewGame,
                })
            } else {
                post == pre
            }
        },
    }
}

/// Whether live entity `k` goes down a level with the player without
/// being the player entity itself.
pub open spec fn goes_along(w: World, k: int) -> bool {
    &&& 0 <= k < w.entities.alive@.len()
    &&& w.entities.alive@[k]
    &&& !leaves_level(w, k)
    &&& k != w.player_entity.key()
}

/// Going down a level removes every entity that is neither a player nor
/// carried or worn by the player; leaves what the player carries and
/// wears alive and as it was; and heals a living player that has combat
/// stats by half its greatest health, without regard to that greatest
/// health itself: the new health stays within it only where the sum does.
pub proof fn lemma_next_level(pre: World, post: World)
    requires
        descended(pre, post),
    ensures
        post.entities.alive@.len() >= pre.entities.alive@.len(),
        forall|k: int| #[trigger]
            leaves_level(pre, k) ==> !post.entities.alive@[k] && post.bare(k),
        forall|k: int| #[trigger]
            goes_along(pre, k) ==> post.entities.alive@[k] && post.same_at(pre, k),
        ({
            let hero = pre.player_entity.key();
            pre.entities.is_live(pre.player_entity) && pre.players@.contains_key(hero)
                && pre.combat_stats@.contains_key(hero) ==> {
                &&& post.combat_stats@.contains_key(hero)
                &&& post.combat_stats@[hero].max_hp == pre.combat_stats@[hero].max_hp
                &&& post.combat_stats@[hero].hp == clamp_i32(
                    pre.combat_stats@[hero].hp + half(pre.combat_stats@[hero].max_hp as int),
                )
                &&& i32::MIN <= pre.combat_stats@[hero].hp + half(
                    pre.combat_stats@[hero].max_hp as int,
                ) <= i32::MAX ==> post.combat_stats@[hero].hp == pre.combat_stats@[hero].hp
                    + half(pre.combat_stats@[hero].max_hp as int)
                &&& pre.combat_stats@[hero].hp + half(pre.combat_stats@[hero].max_hp as int)
                    <= pre.combat_stats@[hero].max_hp ==> post.combat_stats@[hero].hp
                    <= post.combat_stats@[hero].max_hp
            }
        }),
{
    let (cleared, arrived) = choose|cleared: World, arrived: World|
        {
            &&& #[trigger] moved_on(pre, leavers(pre), clamp_i32(pre.map.depth + 1), cleared)
            &&& #[trigger] settled(cleared, arrived)
            &&& hero_placed(arrived, post)
        };
    let fresh = newborn(cleared, arrived);
    let hero = pre.player_entity.key();
    assert forall|k: int| #[trigger] leaves_level(pre, k) implies !post.entities.alive@[k]
        && post.bare(k) by {
        assert(leavers(pre).contains(k));
        assert(cleared.bare(k));
        assert(!cleared.entities.alive@[k]);
        arrived.lemma_same_except_at(cleared, fresh, k);
        World::lemma_bare_stays(cleared, arrived, k);
        assert(arrived.entities.alive@[k] == cleared.entities.alive@[k]);
    }
    assert forall|k: int| #[trigger] goes_along(pre, k) implies post.entities.alive@[k]
        && post.same_at(pre, k) by {
        assert(!leavers(pre).contains(k));
        cleared.lemma_purged_at(pre, leavers(pre), k);
        arrived.lemma_same_except_at(cleared, fresh, k);
        World::lemma_same_at_trans(pre, cleared, arrived, k);
        assert(arrived.entities.alive@[k] == cleared.entities.alive@[k]);
        assert(post.same_at(arrived, k));
        World::lemma_same_at_trans(pre, arrived, post, k);
    }
    if pre.entities.is_live(pre.player_entity) && pre.players@.contains_key(hero)
        && pre.combat_stats@.contains_key(hero) {
        assert(!leavers(pre).contains(hero));
        cleared.lemma_purged_at(pre, leavers(pre), hero);
        arrived.lemma_same_except_at(cleared, fresh, hero);
        World::lemma_same_at_trans(pre, cleared, arrived, hero);
        assert(arrived.player_entity == pre.player_entity);
        assert(arrived.combat_stats@.contains_key(hero));
        assert(arrived.combat_stats@[hero] == pre.combat_stats@[hero]);
        assert(arrival_heal(arrived) == half(pre.combat_stats@[hero].max_hp as int));
    }
}

/// Without an intent to use an item, the use of items changes nothing.
proof fn lemma_no_use(w: World, n: int)
    requires
        w.wants_to_use@.dom() == Set::<int>::empty(),
    ensures
        use_items(w, n) == effects_of(w),
    decreases n,
{
    if n > 0 {
        lemma_no_use(w, n - 1);
        assert(!w.wants_to_use@.dom().contains(n - 1));
    }
}

/// One run of the pipeline drains every intent: none to attack, to pick
/// up, to use, to drop or to take off is left. And where nobody meant to
/// use an item, no damage is left waiting either.
pub proof fn lemma_intents_are_drained(pre: World, post: World)
    requires
        systems_ran(pre, post),
    ensures
        post.wants_to_melee@.dom() == Set::<int>::empty(),
        post.wants_to_pickup@.dom() == Set::<int>::empty(),
        post.wants_to_use@.dom() == Set::<int>::empty(),
        post.wants_to_drop@.dom() == Set::<int>::empty(),
        post.wants_to_remove@.dom() == Set::<int>::empty(),
        pre.wants_to_use@.dom() == Set::<int>::empty() ==> post.suffer_damage@.dom() == Set::<
            int,
        >::empty(),
{
    let s = choose|s: Steps| #[trigger] pipeline(pre, s, post);
    let gone = entity_keys(s.removed.entities.doomed@);
    assert(s.removed.wants_to_melee@ =~= Map::<int, WantsToMelee>::empty());
    assert(s.removed.wants_to_pickup@ =~= Map::<
        int,
        WantsToPickUpItem,
    >::empty());
    assert(s.removed.wants_to_use@ =~= Map::<int, WantsToUseItem>::empty());
    assert(s.removed.wants_to_drop@ =~= Map::<int, WantsToDropItem>::empty());
    assert(s.removed.wants_to_remove@ =~= Map::<int, WantsToRemoveEquipment>::empty());
    assert(post.wants_to_melee@.dom() =~= Set::<int>::empty());
    assert(post.wants_to_pickup@.dom() =~= Set::<int>::empty());
    assert(post.wants_to_use@.dom() =~= Set::<int>::empty());
    assert(post.wants_to_drop@.dom() =~= Set::<int>::empty());
    assert(post.wants_to_remove@.dom() =~= Set::<int>::empty());
    if pre.wants_to_use@.dom() == Set::<int>::empty() {
        assert(s.picked.wants_to_use == pre.wants_to_use);
        lemma_no_use(s.picked, s.picked.wants_to_use.bound());
        assert(s.picked.suffer_damage@ =~= Map::<int, SufferDamage>::empty());
        assert(hits_of(s.used.suffer_damage@).dom() =~= Set::<int>::empty());
        assert(s.used.suffer_damage@.dom() =~= Set::<int>::empty()) by {
            assert forall|k: int| !s.used.suffer_damage@.contains_key(k) by {
                assert(!hits_of(s.used.suffer_damage@).dom().contains(k));
            }
        }
        assert(post.suffer_damage@.dom() =~= Set::<int>::empty());
    }
}

impl State {
    /// A new game: a map of the first level, the player in its first room,
    /// the other rooms peopled, and the main menu showing.
    pub fn new() -> (gs: State)
        ensures
            gs.ecs.map.is_fresh_level(1),
            gs.ecs.player_entity.key() == 0,
            is_player_at(gs.ecs, 0, start_of(gs.ecs.map).x, start_of(gs.ecs.map).y),
            forall|k: int| gs.ecs.players@.contains_key(k) <==> k == 0,
            gs.ecs.player_pos == (Coord {
                x: start_of(gs.ecs.map).x,
                y: start_of(gs.ecs.map).y,
            }),
            gs.ecs.map.tile_at(
                gs.ecs.positions@[0].x as int,
                gs.ecs.positions@[0].y as int,
            ) == TileType::Floor,
            forall|k: int| 0 <= k < gs.ecs.entities.issued() ==> #[trigger] gs.ecs.entities.alive@[k],
            forall|k: int| 1 <= k < gs.ecs.entities.issued() ==> #[trigger] lives_in_a_room(gs.ecs, k),
            gs.ecs.entities.doomed@.len() == 0,
            gs.ecs.log.entries@ == seq![LogEntry::Welcome],
            gs.ecs.run_state == (RunState::MainMenu { menu_selection: MainMenuSelection::NewGame }),
    {
        let mut ecs = World::new();
        let ghost empty = ecs;
        ecs.map = TileMap::new_map_rooms_and_corridors(1);
        let (player_x, player_y) = ecs.map.rooms[0].center();
        let player_entity = player(&mut ecs, player_x, player_y);
        let ghost hero = ecs;
        ecs.log.entries.push(LogEntry::Welcome);
        ecs.player_pos = Coord { x: player_x, y: player_y };
        ecs.player_entity = player_entity;
        let ghost born = ecs;
        populate(&mut ecs);
        proof {
            let fresh = newborn(born, ecs);
            ecs.map.lemma_room_center_is_floor(0);
            assert(born.same_at(hero, 0));
            ecs.lemma_same_except_at(born, fresh, 0);
            World::lemma_same_at_trans(hero, born, ecs, 0);
            lemma_player_stays(hero, ecs, 0, player_x, player_y);
            assert(ecs.has(ComponentKind::Position, 0));
            assert(ecs.has(ComponentKind::Player, 0));
            assert(ecs.log.entries@ =~= seq![LogEntry::Welcome]);
            assert forall|k: int| ecs.players@.contains_key(k) <==> k == 0 by {
                if 1 <= k < ecs.entities.issued() {
                    assert(lives_in_a_room(ecs, k));
                    let r = choose|r: int|
                        1 <= r < ecs.map.rooms@.len() && inhabitant(
                            ecs,
                            k,
                            #[trigger] ecs.map.rooms@[r],
                        );
                    assert(ecs.has(ComponentKind::Player, k)
                        == monster_kinds().contains(
                        ComponentKind::Player,
                    ) || ecs.has(ComponentKind::Player, k)
                        == potion_kinds().contains(
                        ComponentKind::Player,
                    ));
                } else if k != 0 {
                    assert(empty.bare(k));
                    hero.lemma_same_except_at(empty, set![0int], k);
                    World::lemma_bare_stays(empty, hero, k);
                    assert(born.same_at(hero, k));
                    ecs.lemma_same_except_at(born, fresh, k);
                    World::lemma_same_at_trans(hero, born, ecs, k);
                    World::lemma_bare_stays(hero, ecs, k);
                }
            }
        }
        State { ecs }
    }

    /// Runs every system once, in the fixed order, and then commits the
    /// removals that were requested. The monsters ask `find_path` for
    /// their paths.
    pub fn run_systems<F: Fn(&TileMap, usize, usize) -> NavigationPath>(&mut self, find_path: &F)
        requires
            old(self).ecs.map.wf(),
            forall|m: &TileMap, from: usize, to: usize| find_path.requires((m, from, to)),
        ensures
            systems_ran(old(self).ecs, final(self).ecs),
            final(self).ecs.map.wf(),
            final(self).ecs.run_state == old(self).ecs.run_state,
    {
        let mut vis = VisibilitySystem {  };
        vis.run(&mut self.ecs);
        let ghost seen = self.ecs;
        let mut mob = MonsterAI {  };
        mob.run(&mut self.ecs, find_path);
        let ghost moved = self.ecs;
        let mut mapindex = MapIndexingSystem {  };
        mapindex.run(&mut self.ecs);
        let ghost indexed = self.ecs;
        let mut melee = MeleeCombatSystem {  };
        melee.run(&mut self.ecs);
        let ghost fought = self.ecs;
        let mut damage = DamageSystem {  };
        damage.run(&mut self.ecs);
        let ghost hurt = self.ecs;
        let mut inventory = ItemBagSystem {  };
        inventory.run(&mut self.ecs);
        let ghost picked = self.ecs;
        let mut use_item = ItemUseSystem {  };
        use_item.run(&mut self.ecs);
        let ghost used = self.ecs;
        let mut drop_item = ItemDropSystem {  };
        drop_item.run(&mut self.ecs);
        let ghost dropped = self.ecs;
        let mut equipment_remove = EquipmentRemoveSystem {  };
        equipment_remove.run(&mut self.ecs);
        let ghost removed = self.ecs;
        self.ecs.maintain();
        proof {
            let s = Steps { seen, moved, indexed, fought, hurt, picked, used, dropped, removed };
            assert(pipeline(old(self).ecs, s, self.ecs));
        }
    }

    /// The entities that stay behind when the player goes down a level.
    pub fn entities_to_remove_on_level_change(&self) -> (to_delete: Vec<Entity>)
        ensures
            entity_keys(to_delete@) == leavers(self.ecs),
    {
        let mut to_delete: Vec<Entity> = Vec::new();
        let n: usize = self.ecs.entities.len();
        let mut i: usize = 0;
        proof {
            lemma_entity_keys_empty();
        }
        while i < n
            invariant
                i <= n,
                n == self.ecs.entities.issued(),
                forall|k: int|
                    #![trigger entity_keys(to_delete@).contains(k)]
                    #![trigger leaves_level(self.ecs, k)]
                    entity_keys(to_delete@).contains(k) <==> 0 <= k < i && leaves_level(
                        self.ecs,
                        k,
                    ),
            decreases n - i,
        {
            let entity = Entity { id: i };
            let ghost before = to_delete@;
            let mut should_delete = self.ecs.entities.is_alive(entity);
            if self.ecs.players.contains(entity) {
                should_delete = false;
            }
            if let Some(backpack) = self.ecs.in_backpack.get(entity) {
                if backpack.owner == self.ecs.player_entity {
                    should_delete = false;
                }
            }
            if let Some(equipment) = self.ecs.equipped.get(entity) {
                if equipment.owner == self.ecs.player_entity {
                    should_delete = false;
                }
            }
            assert(should_delete == leaves_level(self.ecs, i as int));
            if should_delete {
                to_delete.push(entity);
                proof {
                    lemma_entity_keys_push(before, entity);
                }
            }
            proof {
                assert forall|k: int|
                    #![trigger entity_keys(to_delete@).contains(k)]
                    #![trigger leaves_level(self.ecs, k)]
                    entity_keys(to_delete@).contains(k) <==> 0 <= k < i + 1 && leaves_level(
                        self.ecs,
                        k,
                    ) by {
                    assert(entity_keys(before).contains(k) <==> 0 <= k < i && leaves_level(
                        self.ecs,
                        k,
                    ));
                }
            }
            i = i + 1;
        }
        proof {
            assert(entity_keys(to_delete@) =~= leavers(self.ecs));
        }
        to_delete
    }

    /// Takes the player down a level.
    pub fn goto_next_level(&mut self)
        ensures
            descended(old(self).ecs, final(self).ecs),
            final(self).ecs.map.wf(),
            final(self).ecs.run_state == old(self).ecs.run_state,
    {
        let to_delete = self.entities_to_remove_on_level_change();
        self.ecs.delete_entities(&to_delete);
        let current_depth: i32 = self.ecs.map.depth;
        let next_depth: i32 = saturate(current_depth as i128 + 1);
        self.ecs.map = TileMap::new_map_rooms_and_corridors(next_depth);
        let ghost cleared = self.ecs;
        populate(&mut self.ecs);
        let ghost arrived = self.ecs;
        let (p_x, p_y) = self.ecs.map.rooms[0].center();
        self.ecs.player_pos = Coord { x: p_x, y: p_y };
        let player_entity = self.ecs.player_entity;
        if let Some(p_pos_comp) = self.ecs.positions.get_mut(player_entity) {
            p_pos_comp.x = p_x;
            p_pos_comp.y = p_y;
        }
        let ghost views = self.ecs.viewsheds@;
        if let Some(viewshed) = self.ecs.viewsheds.get_mut(player_entity) {
            viewshed.dirty = true;
        }
        assert(self.ecs.viewsheds@.dom() =~= views.dom());
        let mut amount_healed: i32 = 0;
        if let Some(player_health) = self.ecs.combat_stats.get_mut(player_entity) {
            amount_healed = player_health.max_hp / 2;
            player_health.hp = saturate(player_health.hp as i128 + amount_healed as i128);
        }
        let depth: i32 = self.ecs.map.depth;
        self.ecs.log.entries.push(LogEntry::Descended { depth, healed: amount_healed });
        proof {
            assert(self.ecs.positions@ =~= if arrived.positions@.contains_key(
                player_entity.key(),
            ) {
                arrived.positions@.insert(player_entity.key(), start_of(arrived.map))
            } else {
                arrived.positions@
            });
            assert(hero_placed(arrived, self.ecs));
            assert(moved_on(
                old(self).ecs,
                leavers(old(self).ecs),
                clamp_i32(old(self).ecs.map.depth + 1),
                cleared,
            ));
        }
    }

    /// Clears the world after the player's death and sets up a new game.
    pub fn game_over_cleanup(&mut self)
        ensures
            started_over(old(self).ecs, final(self).ecs),
            final(self).ecs.map.wf(),
            final(self).ecs.run_state == old(self).ecs.run_state,
    {
        let mut to_delete: Vec<Entity> = Vec::new();
        let n: usize = self.ecs.entities.len();
        let mut i: usize = 0;
        proof {
            lemma_entity_keys_empty();
        }
        while i < n
            invariant
                i <= n,
                n == self.ecs.entities.issued(),
                *self == *old(self),
                forall|k: int|
                    entity_keys(to_delete@).contains(k) <==> 0 <= k < i
                        && self.ecs.entities.alive@[k],
            decreases n - i,
        {
            let entity = Entity { id: i };
            let ghost before = to_delete@;
            if self.ecs.entities.is_alive(entity) {
                to_delete.push(entity);
                proof {
                    lemma_entity_keys_push(before, entity);
                }
            }
            i = i + 1;
        }
        proof {
            assert(entity_keys(to_delete@) =~= old(self).ecs.entities.live_set());
        }
        self.ecs.delete_entities(&to_delete);
        self.ecs.map = TileMap::new_map_rooms_and_corridors(1);
        let ghost cleared = self.ecs;
        populate(&mut self.ecs);
        let ghost arrived = self.ecs;
        let (p_x, p_y) = self.ecs.map.rooms[0].center();
        let player_entity = player(&mut self.ecs, p_x, p_y);
        let ghost born = self.ecs;
        self.ecs.player_pos = Coord { x: p_x, y: p_y };
        self.ecs.player_entity = player_entity;
        proof {
            assert(moved_on(old(self).ecs, old(self).ecs.entities.live_set(), 1, cleared));
            assert(self.ecs.same_at(born, player_entity.key()));
            lemma_player_stays(born, self.ecs, player_entity.key(), p_x, p_y);
            assert(self.ecs.same_except(arrived, set![arrived.entities.issued()]));
            assert(hero_born(arrived, self.ecs));
        }
    }

    /// Does what the run state asks for with the input of one tick, short
    /// of sweeping away the dead.
    pub fn step<F: Fn(&TileMap, usize, usize) -> NavigationPath>(
        &mut self,
        input: Input,
        find_path: &F,
    ) -> (request: Request)
        requires
            old(self).ecs.map.wf(),
            forall|m: &TileMap, from: usize, to: usize| find_path.requires((m, from, to)),
        ensures
            stepped(old(self).ecs, input, final(self).ecs, request),
            final(self).ecs.map.wf(),
    {
        let runstate = self.ecs.run_state;
        let mut request = Request::Nothing;
        match runstate {
            RunState::PreRun => {
                self.run_systems(find_path);
                assert(in_state(self.ecs, runstate) == self.ecs);
                self.ecs.run_state = RunState::AwaitingInput;
            },
            RunState::AwaitingInput => {
                let next = player_input(self, input.command);
                assert(in_state(self.ecs, runstate) == self.ecs);
                self.ecs.run_state = next;
            },
            RunState::PlayerTurn => {
                self.run_systems(find_path);
                assert(in_state(self.ecs, runstate) == self.ecs);
                self.ecs.run_state = RunState::MonsterTurn;
            },
            RunState::MonsterTurn => {
                self.run_systems(find_path);
                assert(in_state(self.ecs, runstate) == self.ecs);
                self.ecs.run_state = RunState::AwaitingInput;
            },
            RunState::ShowInventory => {
                let result = show_inventory(self, input.key);
                match result.0 {
                    ItemMenuResult::Cancel => {
                        self.ecs.run_state = RunState::AwaitingInput;
                    },
                    ItemMenuResult::NoResponse => {},
                    ItemMenuResult::Selected => {
                        let item_entity = result.1.unwrap();
                        let range: Option<i32> = match self.ecs.ranged.get(item_entity) {
                            Some(is_ranged) => Some(is_ranged.range),
                            None => None,
                        };
                        match range {
                            Some(range) => {
                                self.ecs.run_state = RunState::ShowTargeting {
                                    range,
                                    item: item_entity,
                                };
                            },
                            None => {
                                let who = self.ecs.player_entity;
                                self.ecs.wants_to_use.insert(
                                    who,
                                    WantsToUseItem { item: item_entity, target: None },
                                );
                                self.ecs.run_state = RunState::PlayerTurn;
                            },
                        }
                    },
                }
            },
            RunState::ShowDropItem => {
                let result = drop_item_menu(self, input.key);
                match result.0 {
                    ItemMenuResult::Cancel => {
                        self.ecs.run_state = RunState::AwaitingInput;
                    },
                    ItemMenuResult::NoResponse => {},
                    ItemMenuResult::Selected => {
                        let item_entity = result.1.unwrap();
                        let who = self.ecs.player_entity;
                        self.ecs.wants_to_drop.insert(who, WantsToDropItem { item: item_entity });
                        self.ecs.run_state = RunState::PlayerTurn;
                    },
                }
            },
            RunState::ShowTargeting { range, item } => {
                let result = ranged_target(self, range, input.pointer, input.left_click);
                match result.0 {
                    ItemMenuResult::Cancel => {
                        self.ecs.run_state = RunState::AwaitingInput;
                    },
                    ItemMenuResult::NoResponse => {},
                    ItemMenuResult::Selected => {
                        let who = self.ecs.player_entity;
                        self.ecs.wants_to_use.insert(who, WantsToUseItem { item, target: result.1 });
                        self.ecs.run_state = RunState::PlayerTurn;
                    },
                }
            },
            RunState::MainMenu { menu_selection } => {
                let result = main_menu(self, input.key, input.save_exists);
                match result {
                    MainMenuResult::NoSelection { selected } => {
                        self.ecs.run_state = RunState::MainMenu { menu_selection: selected };
                    },
                    MainMenuResult::Selected { selected } => match selected {
                        MainMenuSelection::NewGame => {
                            self.ecs.run_state = RunState::PreRun;
                        },
                        MainMenuSelection::LoadGame => {
                            request = Request::Load;
                        },
                        MainMenuSelection::Quit => {
                            request = Request::Quit;
                        },
                    },
                }
            },
            RunState::SaveGame => {
                let data = save_game(&mut self.ecs);
                request = Request::Save(data);
                self.ecs.run_state = RunState::MainMenu {
                    menu_selection: MainMenuSelection::LoadGame,
                };
            },
            RunState::NextLevel => {
                self.goto_next_level();
                assert(in_state(self.ecs, runstate) == self.ecs);
                self.ecs.run_state = RunState::PreRun;
            },
            RunState::ShowRemoveEquipment => {
                let result = remove_equipment_menu(self, input.key);
                match result.0 {
                    ItemMenuResult::Cancel => {
                        self.ecs.run_state = RunState::AwaitingInput;
                    },
                    ItemMenuResult::NoResponse => {},
                    ItemMenuResult::Selected => {
                        let entity = result.1.unwrap();
                        let who = self.ecs.player_entity;
                        self.ecs.wants_to_remove.insert(
                            who,
                            WantsToRemoveEquipment { item: entity },
                        );
                        self.ecs.run_state = RunState::PlayerTurn;
                    },
                }
            },
            RunState::GameOver => {
                let result = game_over(input.key);
                match result {
                    GameOverResult::NoSelection => {},
                    GameOverResult::QuitToMenu => {
                        self.game_over_cleanup();
                        assert(in_state(self.ecs, runstate) == self.ecs);
                        self.ecs.run_state = RunState::MainMenu {
                            menu_selection: MainMenuSelection::NewGame,
                        };
                    },
                }
            },
        }
        request
    }

    /// One tick of the game: does what the run state asks for with the
    /// input, and then sweeps away the dead, whatever the state.
    pub fn tick<F: Fn(&TileMap, usize, usize) -> NavigationPath>(
        &mut self,
        input: Input,
        find_path: &F,
    ) -> (request: Request)
        requires
            old(self).ecs.map.wf(),
            forall|m: &TileMap, from: usize, to: usize| find_path.requires((m, from, to)),
        ensures
            exists|mid: World|
                #[trigger] stepped(old(self).ecs, input, mid, request) && dead_swept(
                    mid,
                    final(self).ecs,
                ),
            final(self).ecs.map.wf(),
    {
        let request = self.step(input, find_path);
        let ghost mid = self.ecs;
        delete_the_dead(&mut self.ecs);
        assert(stepped(old(self).ecs, input, mid, request) && dead_swept(mid, self.ecs));
        request
    }

    /// Puts a saved game in place of the world and waits for the player's
    /// input. A saved game that cannot be loaded leaves all as it is.
    pub fn load(&mut self, data: SaveData) -> (r: Result<(), LoadError>)
        ensures
            match loadable(data) {
                Ok(h) => {
                    &&& r is Ok
                    &&& loaded(
                        old(self).ecs,
                        data,
                        h,
                        in_state(final(self).ecs, old(self).ecs.run_state),
                    )
                    &&& final(self).ecs.run_state == RunState::AwaitingInput
                },
                Err(e) => r == Err::<(), LoadError>(e) && *final(self) == *old(self),
            },
    {
        let ghost before = self.ecs.run_state;
        match load_game(&mut self.ecs, data) {
            Ok(()) => {
                assert(in_state(self.ecs, before) == self.ecs);
                self.ecs.run_state = RunState::AwaitingInput;
                Ok(())
            },
            Err(e) => Err(e),
        }
    }
}

} // verus!
