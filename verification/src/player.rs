//! What the player does while the game waits for input: moving, attacking
//! by moving into someone, and reaching for what lies on the floor.

use crate::components::{Coord, Position, WantsToMelee, WantsToPickUpItem};
use crate::ecs::Entity;
use crate::gamelog::LogEntry;
use crate::map::TileType;
use crate::monster_ai_system::untouched;
use crate::state::{RunState, State};
use crate::world::World;
use vstd::prelude::*;

verus! {

/// What the player asks for while the game waits for input.
#[derive(Clone, Copy, Debug, PartialEq, Eq, Structural)]
pub enum Command {
    /// Move by the given offset, or attack who stands there.
    Move { dx: i32, dy: i32 },
    /// Pick up what lies here.
    PickUp,
    /// Open the inventory.
    ShowInventory,
    /// Open the menu for dropping an item.
    ShowDropItem,
    /// Open the menu for taking off equipment.
    ShowRemoveEquipment,
    /// Save the game and leave for the main menu.
    SaveGame,
}

/// The first of `occupants` that has combat stats, if there is one.
pub open spec fn first_fighter(w: World, occupants: Seq<Entity>) -> Option<Entity>
    decreases occupants.len(),
{
    if occupants.len() == 0 {
        None
    } else if w.combat_stats@.contains_key(occupants.first().key()) {
        Some(occupants.first())
    } else {
        first_fighter(w, occupants.drop_first())
    }
}

/// What a player does with a move.
pub enum Plan {
    /// It stays where it is.
    Stay,
    /// It attacks `target`.
    Attack { target: Entity },
    /// It steps to `to`.
    Step { to: Position },
}

/// Whether live entity `k` is a player that can move: it has a position
/// and a viewshed.
pub open spec fn is_mover(w: World, k: int) -> bool {
    &&& 0 <= k < w.entities.alive@.len()
    &&& w.entities.alive@[k]
    &&& w.players@.contains_key(k)
    &&& w.positions@.contains_key(k)
    &&& w.viewsheds@.contains_key(k)
}

/// What entity `k` does with a move by `(dx, dy)`. Only a player that can
/// move does anything. Where the tile it makes for is off the map, it
/// stays. Where someone with combat stats stands on that tile, it attacks
/// the first such. Otherwise it steps there unless the tile is a wall or
/// blocked.
pub open spec fn plan_of(w: World, k: int, dx: int, dy: int) -> Plan {
    if !is_mover(w, k) {
        Plan::Stay
    } else {
        let x = w.positions@[k].x + dx;
        let y = w.positions@[k].y + dy;
        if !w.map.in_bounds(x, y) {
            Plan::Stay
        } else {
            let idx = w.map.index_of(x, y);
            match first_fighter(w, w.map.tile_content@[idx]@) {
                Some(target) => Plan::Attack { target },
                None => if w.map.tiles@[idx] != TileType::Wall && !w.map.blocked@[idx] {
                    Plan::Step { to: Position { x: x as i32, y: y as i32 } }
                } else {
                    Plan::Stay
                },
            }
        }
    }
}

/// Where the player is known to be once the first `n` entities have made
/// their move: where the last player that stepped has gone.
pub open spec fn tracked_after(w: World, n: int, dx: int, dy: int) -> Coord
    decreases n,
{
    if n <= 0 {
        w.player_pos
    } else {
        match plan_of(w, n - 1, dx, dy) {
            Plan::Step { to } => Coord { x: to.x, y: to.y },
            _ => tracked_after(w, n - 1, dx, dy),
        }
    }
}

/// Whether `post` shows entity `k` as its move has left it.
pub open spec fn moved(pre: World, post: World, k: int, dx: int, dy: int) -> bool {
    &&& post.positions@.contains_key(k) == pre.positions@.contains_key(k)
    &&& post.viewsheds@.contains_key(k) == pre.viewsheds@.contains_key(k)
    &&& match plan_of(pre, k, dx, dy) {
        Plan::Stay => {
            &&& pre.positions@.contains_key(k) ==> post.positions@[k] == pre.positions@[k]
            &&& pre.viewsheds@.contains_key(k) ==> post.viewsheds@[k] == pre.viewsheds@[k]
            &&& post.wants_to_melee@.contains_key(k) == pre.wants_to_melee@.contains_key(k)
            &&& pre.wants_to_melee@.contains_key(k) ==> post.wants_to_melee@[k]
                == pre.wants_to_melee@[k]
        },
        Plan::Attack { target } => {
            &&& post.positions@[k] == pre.positions@[k]
            &&& post.viewsheds@[k] == pre.viewsheds@[k]
            &&& post.wants_to_melee@.contains_key(k)
            &&& post.wants_to_melee@[k] == (WantsToMelee { target })
        },
        Plan::Step { to } => {
            &&& post.positions@[k] == to
            &&& post.viewsheds@[k].dirty
            &&& post.viewsheds@[k].range == pre.viewsheds@[k].range
            &&& post.viewsheds@[k].visible_tiles == pre.viewsheds@[k].visible_tiles
            &&& post.wants_to_melee@.contains_key(k) == pre.wants_to_melee@.contains_key(k)
            &&& pre.wants_to_melee@.contains_key(k) ==> post.wants_to_melee@[k]
                == pre.wants_to_melee@[k]
        },
    }
}

/// Whether every player that has a position stands on a tile of the map
/// that is no wall.
pub open spec fn players_on_floor(w: World) -> bool {
    forall|k: int|
        w.players@.contains_key(k) && #[trigger] w.positions@.contains_key(k) ==> {
            &&& w.map.in_bounds(w.positions@[k].x as int, w.positions@[k].y as int)
            &&& w.map.tile_at(w.positions@[k].x as int, w.positions@[k].y as int)
                != TileType::Wall
        }
}

/// The first of `occupants` that has combat stats.
fn find_fighter(world: &World, occupants: &Vec<Entity>) -> (found: Option<Entity>)
    ensures
        found == first_fighter(*world, occupants@),
{
    let mut j: usize = 0;
    assert(occupants@.skip(0) =~= occupants@);
    while j < occupants.len()
        invariant
            j <= occupants@.len(),
            first_fighter(*world, occupants@) == first_fighter(*world, occupants@.skip(j as int)),
        decreases occupants@.len() - j,
    {
        let candidate = occupants[j];
        assert(occupants@.skip(j as int).first() == candidate);
        assert(occupants@.skip(j as int).drop_first() =~= occupants@.skip(j as int + 1));
        if world.combat_stats.contains(candidate) {
            return Some(candidate);
        }
        j = j + 1;
    }
    assert(occupants@.skip(j as int).len() == 0);
    None
}

/// Moves every player by `(delta_x, delta_y)`, or lets it attack who
/// stands in its way. A player never steps off the map, into a wall or
/// onto a blocked tile. A player that steps has a stale view, and the
/// world remembers where it went.
pub fn try_move_player(delta_x: i32, delta_y: i32, ecs: &mut World)
    requires
        old(ecs).map.wf(),
    ensures
        forall|k: int| #[trigger] moved(*old(ecs), *final(ecs), k, delta_x as int, delta_y as int),
        final(ecs).player_pos == tracked_after(
            *old(ecs),
            old(ecs).players.bound(),
            delta_x as int,
            delta_y as int,
        ),
        *final(ecs) == (World {
            positions: final(ecs).positions,
            viewsheds: final(ecs).viewsheds,
            wants_to_melee: final(ecs).wants_to_melee,
            player_pos: final(ecs).player_pos,
            ..*old(ecs)
        }),
        players_on_floor(*old(ecs)) ==> players_on_floor(*final(ecs)),
{
    let n: usize = ecs.players.limit();
    let mut i: usize = 0;
    let ghost dx = delta_x as int;
    let ghost dy = delta_y as int;
    while i < n
        invariant
            i <= n,
            n == old(ecs).players.bound(),
            dx == delta_x,
            dy == delta_y,
            ecs.map.wf(),
            forall|k: int| k < i ==> #[trigger] moved(*old(ecs), *ecs, k, dx, dy),
            forall|k: int| i <= k ==> #[trigger] untouched(*old(ecs), *ecs, k),
            ecs.player_pos == tracked_after(*old(ecs), i as int, dx, dy),
            *ecs == (World {
                positions: ecs.positions,
                viewsheds: ecs.viewsheds,
                wants_to_melee: ecs.wants_to_melee,
                player_pos: ecs.player_pos,
                ..*old(ecs)
            }),
            players_on_floor(*old(ecs)) ==> players_on_floor(*ecs),
        decreases n - i,
    {
        let entity = Entity { id: i };
        let ghost before = *ecs;
        assert(untouched(*old(ecs), before, i as int));
        let place: Option<(i32, i32)> = match ecs.positions.get(entity) {
            Some(p) => Some((p.x, p.y)),
            None => None,
        };
        if ecs.entities.is_alive(entity) && ecs.players.contains(entity) && place.is_some()
            && ecs.viewsheds.contains(entity) {
            assert(is_mover(*old(ecs), i as int));
            let (x, y) = place.unwrap();
            let to_x: i64 = x as i64 + delta_x as i64;
            let to_y: i64 = y as i64 + delta_y as i64;
            if 0 <= to_x && to_x < ecs.map.width as i64 && 0 <= to_y && to_y < ecs.map.height as i64 {
                let nx: i32 = to_x as i32;
                let ny: i32 = to_y as i32;
                let index: usize = ecs.map.xy_index(nx, ny);
                let fighter = find_fighter(ecs, &ecs.map.tile_content[index]);
                match fighter {
                    Some(target) => {
                        ecs.wants_to_melee.insert(entity, WantsToMelee { target });
                    },
                    None => {
                        if !(ecs.map.tiles[index] == TileType::Wall) && !ecs.map.blocked[index] {
                            ecs.positions.insert(entity, Position { x: nx, y: ny });
                            let ghost views = ecs.viewsheds@;
                            if let Some(viewshed) = ecs.viewsheds.get_mut(entity) {
                                viewshed.dirty = true;
                            }
                            ecs.player_pos = Coord { x: nx, y: ny };
                            assert(ecs.positions@.dom() =~= before.positions@.dom());
                            assert(ecs.viewsheds@.dom() =~= views.dom());
                        }
                    },
                }
            }
        }
        proof {
            lemma_same_fighter(*old(ecs), before);
            assert(untouched(*old(ecs), before, i as int));
            assert(plan_of(*old(ecs), i as int, dx, dy) == plan_of(before, i as int, dx, dy));
            assert forall|k: int| k < i + 1 implies #[trigger] moved(*old(ecs), *ecs, k, dx, dy) by {
                if k < i {
                    assert(moved(*old(ecs), before, k, dx, dy));
                    assert(ecs.positions@.contains_key(k) == before.positions@.contains_key(k));
                    assert(ecs.viewsheds@.contains_key(k) == before.viewsheds@.contains_key(k));
                    if before.positions@.contains_key(k) {
                        assert(ecs.positions@[k] == before.positions@[k]);
                    }
                    if before.viewsheds@.contains_key(k) {
                        assert(ecs.viewsheds@[k] == before.viewsheds@[k]);
                    }
                    assert(ecs.wants_to_melee@.contains_key(k)
                        == before.wants_to_melee@.contains_key(k));
                    if before.wants_to_melee@.contains_key(k) {
                        assert(ecs.wants_to_melee@[k] == before.wants_to_melee@[k]);
                    }
                }
            }
            assert forall|k: int| i + 1 <= k implies #[trigger] untouched(*old(ecs), *ecs, k) by {
                assert(untouched(*old(ecs), before, k));
                assert(ecs.positions@.contains_key(k) == before.positions@.contains_key(k));
                assert(ecs.viewsheds@.contains_key(k) == before.viewsheds@.contains_key(k));
                assert(ecs.wants_to_melee@.contains_key(k) == before.wants_to_melee@.contains_key(
                    k,
                ));
            }
            if players_on_floor(*old(ecs)) {
                assert forall|k: int|
                    ecs.players@.contains_key(k) && #[trigger] ecs.positions@.contains_key(
                        k,
                    ) implies {
                    &&& ecs.map.in_bounds(ecs.positions@[k].x as int, ecs.positions@[k].y as int)
                    &&& ecs.map.tile_at(ecs.positions@[k].x as int, ecs.positions@[k].y as int)
                        != TileType::Wall
                } by {
                    assert(before.positions@.contains_key(k));
                }
            }
        }
        i = i + 1;
    }
    proof {
        assert forall|k: int| #[trigger] moved(*old(ecs), *ecs, k, dx, dy) by {
            if k >= n {
                assert(untouched(*old(ecs), *ecs, k));
                assert(!old(ecs).players@.contains_key(k));
            }
        }
    }
}

/// The first fighter among any occupants is the same in two worlds that
/// agree on who has combat stats.
pub proof fn lemma_same_fighter(a: World, b: World)
    requires
        a.combat_stats@ == b.combat_stats@,
    ensures
        forall|occupants: Seq<Entity>| #[trigger]
            first_fighter(a, occupants) == first_fighter(b, occupants),
{
    assert forall|occupants: Seq<Entity>| #[trigger]
        first_fighter(a, occupants) == first_fighter(b, occupants) by {
        lemma_same_fighter_for(a, b, occupants);
    }
}

proof fn lemma_same_fighter_for(a: World, b: World, occupants: Seq<Entity>)
    requires
        a.combat_stats@ == b.combat_stats@,
    ensures
        first_fighter(a, occupants) == first_fighter(b, occupants),
    decreases occupants.len(),
{
    if occupants.len() > 0 {
        lemma_same_fighter_for(a, b, occupants.drop_first());
    }
}

/// Whether item `k` lies where the player is known to be.
pub open spec fn lies_here(w: World, k: int) -> bool {
    &&& 0 <= k < w.entities.alive@.len()
    &&& w.entities.alive@[k]
    &&& w.items@.contains_key(k)
    &&& w.positions@.contains_key(k)
    &&& w.positions@[k].x == w.player_pos.x
    &&& w.positions@[k].y == w.player_pos.y
}

/// The last of the first `n` entities that is an item lying where the
/// player is known to be.
pub open spec fn item_here(w: World, n: int) -> Option<Entity>
    decreases n,
{
    if n <= 0 {
        None
    } else if lies_here(w, n - 1) {
        Some(Entity { id: (n - 1) as usize })
    } else {
        item_here(w, n - 1)
    }
}

/// The player reaches for what lies where it stands: it means to pick up
/// the item found there, the one of highest identity if there are several.
/// Where nothing lies, the log says so.
pub fn get_item(ecs: &mut World)
    ensures
        match item_here(*old(ecs), old(ecs).items.bound()) {
            Some(item) => {
                &&& final(ecs).wants_to_pickup@ == old(ecs).wants_to_pickup@.insert(
                    old(ecs).player_entity.key(),
                    WantsToPickUpItem { collected_by: old(ecs).player_entity, item },
                )
                &&& final(ecs).log == old(ecs).log
            },
            None => {
                &&& final(ecs).wants_to_pickup == old(ecs).wants_to_pickup
                &&& final(ecs).log.entries@ == old(ecs).log.entries@.push(
                    LogEntry::NothingToPickUp,
                )
            },
        },
        *final(ecs) == (World {
            wants_to_pickup: final(ecs).wants_to_pickup,
            log: final(ecs).log,
            ..*old(ecs)
        }),
{
    let mut target_item: Option<Entity> = None;
    let n: usize = ecs.items.limit();
    let mut i: usize = 0;
    while i < n
        invariant
            i <= n,
            n == old(ecs).items.bound(),
            *ecs == *old(ecs),
            target_item == item_here(*old(ecs), i as int),
        decreases n - i,
    {
        let item_entity = Entity { id: i };
        let here: bool = match ecs.positions.get(item_entity) {
            Some(p) => p.x == ecs.player_pos.x && p.y == ecs.player_pos.y,
            None => false,
        };
        if ecs.entities.is_alive(item_entity) && ecs.items.contains(item_entity) && here {
            target_item = Some(item_entity);
        }
        i = i + 1;
    }
    match target_item {
        None => {
            ecs.log.entries.push(LogEntry::NothingToPickUp);
        },
        Some(item) => {
            let collector = ecs.player_entity;
            ecs.wants_to_pickup.insert(
                collector,
                WantsToPickUpItem { collected_by: collector, item },
            );
        },
    }
}

/// The state that follows `command`, or no command, while the game waits
/// for input.
pub open spec fn state_after(command: Option<Command>) -> RunState {
    match command {
        None => RunState::AwaitingInput,
        Some(Command::Move { dx, dy }) => RunState::PlayerTurn,
        Some(Command::PickUp) => RunState::PlayerTurn,
        Some(Command::ShowInventory) => RunState::ShowInventory,
        Some(Command::ShowDropItem) => RunState::ShowDropItem,
        Some(Command::ShowRemoveEquipment) => RunState::ShowRemoveEquipment,
        Some(Command::SaveGame) => RunState::SaveGame,
    }
}

/// What acting on `command` does to the world. A move moves the players,
/// a reach for an item records the intent to pick it up, and anything
/// else leaves the world as it is.
pub open spec fn input_handled(pre: World, command: Option<Command>, post: World) -> bool {
    &&& post.map == pre.map
    &&& match command {
        Some(Command::Move { dx, dy }) => {
            &&& forall|k: int| #[trigger] moved(pre, post, k, dx as int, dy as int)
            &&& post.player_pos == tracked_after(pre, pre.players.bound(), dx as int, dy as int)
            &&& post == (World {
                positions: post.positions,
                viewsheds: post.viewsheds,
                wants_to_melee: post.wants_to_melee,
                player_pos: post.player_pos,
                ..pre
            })
        },
        Some(Command::PickUp) => {
            &&& post == (World { wants_to_pickup: post.wants_to_pickup, log: post.log, ..pre })
            &&& match item_here(pre, pre.items.bound()) {
                Some(item) => {
                    &&& post.wants_to_pickup@ == pre.wants_to_pickup@.insert(
                        pre.player_entity.key(),
                        WantsToPickUpItem { collected_by: pre.player_entity, item },
                    )
                    &&& post.log == pre.log
                },
                None => {
                    &&& post.wants_to_pickup == pre.wants_to_pickup
                    &&& post.log.entries@ == pre.log.entries@.push(LogEntry::NothingToPickUp)
                },
            }
        },
        _ => post == pre,
    }
    &&& players_on_floor(pre) ==> players_on_floor(post)
}

/// Acts on what the player asks for while the game waits for input, and
/// says which state follows: the player's turn after a move or a reach for
/// an item, a menu where one is asked for, and the same wait where nothing
/// is asked.
pub fn player_input(gs: &mut State, command: Option<Command>) -> (next: RunState)
    requires
        old(gs).ecs.map.wf(),
    ensures
        next == state_after(command),
        input_handled(old(gs).ecs, command, final(gs).ecs),
{
    match command {
        None => RunState::AwaitingInput,
        Some(Command::Move { dx, dy }) => {
            try_move_player(dx, dy, &mut gs.ecs);
            RunState::PlayerTurn
        },
        Some(Command::PickUp) => {
            get_item(&mut gs.ecs);
            RunState::PlayerTurn
        },
        Some(Command::ShowInventory) => RunState::ShowInventory,
        Some(Command::ShowDropItem) => RunState::ShowDropItem,
        Some(Command::ShowRemoveEquipment) => RunState::ShowRemoveEquipment,
        Some(Command::SaveGame) => RunState::SaveGame,
    }
}

/// However many commands the player gives, one after the other, a player
/// that stands on the floor never comes to stand on a wall: if
/// `worlds[i + 1]` comes of `worlds[i]` by `commands[i]`, and the players
/// stand on the floor in the first world, they do so in every world.
pub proof fn lemma_moves_keep_players_on_floor(worlds: Seq<World>, commands: Seq<Option<Command>>)
    requires
        worlds.len() == commands.len() + 1,
        players_on_floor(worlds[0]),
        forall|i: int|
            0 <= i < commands.len() ==> input_handled(
                #[trigger] worlds[i],
                commands[i],
                worlds[i + 1],
            ),
    ensures
        forall|i: int| 0 <= i < worlds.len() ==> players_on_floor(#[trigger] worlds[i]),
    decreases commands.len(),
{
    if commands.len() > 0 {
        lemma_moves_keep_players_on_floor(worlds.drop_last(), commands.drop_last());
        let n = commands.len() as int;
        assert(worlds.drop_last()[n - 1] == worlds[n - 1]);
        assert(players_on_floor(worlds[n - 1]));
        assert(input_handled(worlds[n - 1], commands[n - 1], worlds[n]));
        assert forall|i: int| 0 <= i < worlds.len() implies players_on_floor(
            #[trigger] worlds[i],
        ) by {
            if i < n {
                assert(worlds.drop_last()[i] == worlds[i]);
            }
        }
    }
}

} // verus!
