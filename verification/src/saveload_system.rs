//! Saving and loading: taking a copy of everything that makes up a game,
//! and putting such a copy in place of the world. Turning the copy into
//! bytes, and the bytes into a file, is left to the caller.

use crate::components::{
    hits_of, AreaOfEffect, BlocksTile, CombatStats, Confusion, Consumable, Coord, Equippable,
    Equipped, InBackpack, InflictsDamage, Item, Monster, Name, Player, Position, ProvidesHealing,
    Ranged, Renderable, SerializationHelper, SufferDamage, Viewshed, WantsToDropItem,
    WantsToMelee, WantsToPickUpItem, WantsToRemoveEquipment, WantsToUseItem,
};
use crate::ecs::{Entity, Storage};
use crate::world::World;
use vstd::prelude::*;

verus! {

/// A saved game: which entities live, and every component of each. The
/// map travels as the component of a helper entity that exists for this
/// purpose alone.
pub struct SaveData {
    pub alive: Vec<bool>,
    pub positions: Storage<Position>,
    pub renderables: Storage<Renderable>,
    pub players: Storage<Player>,
    pub viewsheds: Storage<Viewshed>,
    pub monsters: Storage<Monster>,
    pub names: Storage<Name>,
    pub blockers: Storage<BlocksTile>,
    pub combat_stats: Storage<CombatStats>,
    pub wants_to_melee: Storage<WantsToMelee>,
    pub suffer_damage: Storage<SufferDamage>,
    pub items: Storage<Item>,
    pub consumables: Storage<Consumable>,
    pub ranged: Storage<Ranged>,
    pub inflicts_damage: Storage<InflictsDamage>,
    pub area_of_effect: Storage<AreaOfEffect>,
    pub confusion: Storage<Confusion>,
    pub provides_healing: Storage<ProvidesHealing>,
    pub in_backpack: Storage<InBackpack>,
    pub wants_to_pickup: Storage<WantsToPickUpItem>,
    pub wants_to_use: Storage<WantsToUseItem>,
    pub wants_to_drop: Storage<WantsToDropItem>,
    pub wants_to_remove: Storage<WantsToRemoveEquipment>,
    pub equippable: Storage<Equippable>,
    pub equipped: Storage<Equipped>,
    pub serialization_helpers: Storage<SerializationHelper>,
}

/// Why a saved game cannot be loaded.
#[derive(Clone, Copy, Debug, PartialEq, Eq, Structural)]
pub enum LoadError {
    /// No living entity of the saved game carries the map.
    MissingMap,
    /// The map of the saved game does not fit its own size.
    MalformedMap,
}

/// Whether the two hold the same viewsheds for the same entities.
pub open spec fn views_agree(a: Map<int, Viewshed>, b: Map<int, Viewshed>) -> bool {
    &&& a.dom() == b.dom()
    &&& forall|k: int|
        a.contains_key(k) ==> {
            &&& (#[trigger] a[k]).range == b[k].range
            &&& a[k].dirty == b[k].dirty
            &&& a[k].visible_tiles@ == b[k].visible_tiles@
        }
}

/// Whether the two hold maps with the same lasting part for the same
/// entities.
pub open spec fn helpers_agree(
    a: Map<int, SerializationHelper>,
    b: Map<int, SerializationHelper>,
) -> bool {
    &&& a.dom() == b.dom()
    &&& forall|k: int| a.contains_key(k) ==> (#[trigger] a[k]).map.same_layout(b[k].map)
}

fn copy_names(names: &Storage<Name>) -> (copy: Storage<Name>)
    ensures
        copy@ == names@,
{
    let mut slots: Vec<Option<Name>> = Vec::new();
    let mut i: usize = 0;
    while i < names.slots.len()
        invariant
            i <= names.slots@.len(),
            slots@ == names.slots@.take(i as int),
        decreases names.slots@.len() - i,
    {
        let cell: Option<Name> = match &names.slots[i] {
            Some(name) => Some(Name { value: name.value.clone() }),
            None => None,
        };
        slots.push(cell);
        assert(names.slots@.take(i as int + 1) =~= names.slots@.take(i as int).push(cell));
        i = i + 1;
    }
    assert(names.slots@.take(i as int) =~= names.slots@);
    let copy = Storage { slots };
    assert(copy@ =~= names@);
    copy
}

fn copy_viewsheds(viewsheds: &Storage<Viewshed>) -> (copy: Storage<Viewshed>)
    ensures
        views_agree(copy@, viewsheds@),
{
    let mut slots: Vec<Option<Viewshed>> = Vec::new();
    let mut i: usize = 0;
    while i < viewsheds.slots.len()
        invariant
            i <= viewsheds.slots@.len(),
            slots@.len() == i,
            forall|k: int|
                0 <= k < i ==> (#[trigger] slots@[k] is Some) == (viewsheds.slots@[k] is Some),
            forall|k: int|
                0 <= k < i && viewsheds.slots@[k] is Some ==> {
                    &&& (#[trigger] slots@[k])->Some_0.range == viewsheds.slots@[k]->Some_0.range
                    &&& slots@[k]->Some_0.dirty == viewsheds.slots@[k]->Some_0.dirty
                    &&& slots@[k]->Some_0.visible_tiles@
                        == viewsheds.slots@[k]->Some_0.visible_tiles@
                },
        decreases viewsheds.slots@.len() - i,
    {
        let cell: Option<Viewshed> = match &viewsheds.slots[i] {
            Some(v) => {
                let visible_tiles = v.visible_tiles.clone();
                assert(visible_tiles@ =~= v.visible_tiles@);
                Some(Viewshed { visible_tiles, range: v.range, dirty: v.dirty })
            },
            None => None,
        };
        slots.push(cell);
        i = i + 1;
    }
    let copy = Storage { slots };
    assert(copy@.dom() =~= viewsheds@.dom());
    copy
}

fn copy_damage(damage: &Storage<SufferDamage>) -> (copy: Storage<SufferDamage>)
    ensures
        hits_of(copy@) == hits_of(damage@),
{
    let mut slots: Vec<Option<SufferDamage>> = Vec::new();
    let mut i: usize = 0;
    while i < damage.slots.len()
        invariant
            i <= damage.slots@.len(),
            slots@.len() == i,
            forall|k: int|
                0 <= k < i ==> (#[trigger] slots@[k] is Some) == (damage.slots@[k] is Some),
            forall|k: int|
                0 <= k < i && damage.slots@[k] is Some ==> (#[trigger] slots@[k])->Some_0.amount@
                    == damage.slots@[k]->Some_0.amount@,
        decreases damage.slots@.len() - i,
    {
        let cell: Option<SufferDamage> = match &damage.slots[i] {
            Some(d) => {
                let amount = d.amount.clone();
                assert(amount@ =~= d.amount@);
                Some(SufferDamage { amount })
            },
            None => None,
        };
        slots.push(cell);
        i = i + 1;
    }
    let copy = Storage { slots };
    assert(hits_of(copy@) =~= hits_of(damage@));
    copy
}

fn copy_helpers(helpers: &Storage<SerializationHelper>) -> (copy: Storage<SerializationHelper>)
    ensures
        helpers_agree(copy@, helpers@),
        forall|k: int| copy@.contains_key(k) ==> (#[trigger] copy@[k]).map.content_is_empty(),
{
    let mut slots: Vec<Option<SerializationHelper>> = Vec::new();
    let mut i: usize = 0;
    while i < helpers.slots.len()
        invariant
            i <= helpers.slots@.len(),
            slots@.len() == i,
            forall|k: int|
                0 <= k < i ==> (#[trigger] slots@[k] is Some) == (helpers.slots@[k] is Some),
            forall|k: int|
                0 <= k < i && helpers.slots@[k] is Some ==> {
                    &&& (#[trigger] slots@[k])->Some_0.map.same_layout(
                        helpers.slots@[k]->Some_0.map,
                    )
                    &&& slots@[k]->Some_0.map.content_is_empty()
                },
        decreases helpers.slots@.len() - i,
    {
        let cell: Option<SerializationHelper> = match &helpers.slots[i] {
            Some(h) => Some(SerializationHelper { map: h.map.persistent_copy() }),
            None => None,
        };
        slots.push(cell);
        i = i + 1;
    }
    let copy = Storage { slots };
    assert(copy@.dom() =~= helpers@.dom());
    copy
}

/// Whether `data` holds what `w` holds: the same entities alive, and for
/// each the same components.
pub open spec fn captures(data: SaveData, w: World) -> bool {
    &&& data.alive@ == w.entities.alive@
    &&& data.positions@ == w.positions@
    &&& data.renderables@ == w.renderables@
    &&& data.players@ == w.players@
    &&& data.monsters@ == w.monsters@
    &&& data.names@ == w.names@
    &&& data.blockers@ == w.blockers@
    &&& data.combat_stats@ == w.combat_stats@
    &&& data.wants_to_melee@ == w.wants_to_melee@
    &&& data.items@ == w.items@
    &&& data.consumables@ == w.consumables@
    &&& data.ranged@ == w.ranged@
    &&& data.inflicts_damage@ == w.inflicts_damage@
    &&& data.area_of_effect@ == w.area_of_effect@
    &&& data.confusion@ == w.confusion@
    &&& data.provides_healing@ == w.provides_healing@
    &&& data.in_backpack@ == w.in_backpack@
    &&& data.wants_to_pickup@ == w.wants_to_pickup@
    &&& data.wants_to_use@ == w.wants_to_use@
    &&& data.wants_to_drop@ == w.wants_to_drop@
    &&& data.wants_to_remove@ == w.wants_to_remove@
    &&& data.equippable@ == w.equippable@
    &&& data.equipped@ == w.equipped@
    &&& views_agree(data.viewsheds@, w.viewsheds@)
    &&& hits_of(data.suffer_damage@) == hits_of(w.suffer_damage@)
    &&& helpers_agree(data.serialization_helpers@, w.serialization_helpers@)
}

/// A copy of all entities and components of the world.
pub fn snapshot(world: &World) -> (data: SaveData)
    ensures
        captures(data, *world),
        forall|k: int|
            data.serialization_helpers@.contains_key(k) ==> (
            #[trigger] data.serialization_helpers@[k]).map.content_is_empty(),
{
    let alive = world.entities.alive.clone();
    assert(alive@ =~= world.entities.alive@);
    SaveData {
        alive,
        positions: world.positions.duplicate(),
        renderables: world.renderables.duplicate(),
        players: world.players.duplicate(),
        viewsheds: copy_viewsheds(&world.viewsheds),
        monsters: world.monsters.duplicate(),
        names: copy_names(&world.names),
        blockers: world.blockers.duplicate(),
        combat_stats: world.combat_stats.duplicate(),
        wants_to_melee: world.wants_to_melee.duplicate(),
        suffer_damage: copy_damage(&world.suffer_damage),
        items: world.items.duplicate(),
        consumables: world.consumables.duplicate(),
        ranged: world.ranged.duplicate(),
        inflicts_damage: world.inflicts_damage.duplicate(),
        area_of_effect: world.area_of_effect.duplicate(),
        confusion: world.confusion.duplicate(),
        provides_healing: world.provides_healing.duplicate(),
        in_backpack: world.in_backpack.duplicate(),
        wants_to_pickup: world.wants_to_pickup.duplicate(),
        wants_to_use: world.wants_to_use.duplicate(),
        wants_to_drop: world.wants_to_drop.duplicate(),
        wants_to_remove: world.wants_to_remove.duplicate(),
        equippable: world.equippable.duplicate(),
        equipped: world.equipped.duplicate(),
        serialization_helpers: copy_helpers(&world.serialization_helpers),
    }
}

/// Whether `data` is a saved game of `pre`: it holds the entities and
/// components of `pre`, and one entity more, the next in line, that
/// carries a copy of the map and nothing else.
pub open spec fn saved(pre: World, data: SaveData) -> bool {
    let k = pre.entities.issued();
    let helper = set![k];
    &&& data.alive@ == pre.entities.alive@.push(true)
    &&& data.positions@ == pre.positions@.remove_keys(helper)
    &&& data.renderables@ == pre.renderables@.remove_keys(helper)
    &&& data.players@ == pre.players@.remove_keys(helper)
    &&& data.monsters@ == pre.monsters@.remove_keys(helper)
    &&& data.names@ == pre.names@.remove_keys(helper)
    &&& data.blockers@ == pre.blockers@.remove_keys(helper)
    &&& data.combat_stats@ == pre.combat_stats@.remove_keys(helper)
    &&& data.wants_to_melee@ == pre.wants_to_melee@.remove_keys(helper)
    &&& data.items@ == pre.items@.remove_keys(helper)
    &&& data.consumables@ == pre.consumables@.remove_keys(helper)
    &&& data.ranged@ == pre.ranged@.remove_keys(helper)
    &&& data.inflicts_damage@ == pre.inflicts_damage@.remove_keys(helper)
    &&& data.area_of_effect@ == pre.area_of_effect@.remove_keys(helper)
    &&& data.confusion@ == pre.confusion@.remove_keys(helper)
    &&& data.provides_healing@ == pre.provides_healing@.remove_keys(helper)
    &&& data.in_backpack@ == pre.in_backpack@.remove_keys(helper)
    &&& data.wants_to_pickup@ == pre.wants_to_pickup@.remove_keys(helper)
    &&& data.wants_to_use@ == pre.wants_to_use@.remove_keys(helper)
    &&& data.wants_to_drop@ == pre.wants_to_drop@.remove_keys(helper)
    &&& data.wants_to_remove@ == pre.wants_to_remove@.remove_keys(helper)
    &&& data.equippable@ == pre.equippable@.remove_keys(helper)
    &&& data.equipped@ == pre.equipped@.remove_keys(helper)
    &&& views_agree(data.viewsheds@, pre.viewsheds@.remove_keys(helper))
    &&& hits_of(data.suffer_damage@) == hits_of(pre.suffer_damage@.remove_keys(helper))
    &&& helpers_agree(
        data.serialization_helpers@.remove_keys(helper),
        pre.serialization_helpers@.remove_keys(helper),
    )
    &&& data.serialization_helpers@.contains_key(k)
    &&& data.serialization_helpers@[k].map.same_layout(pre.map)
    &&& data.serialization_helpers@[k].map.content_is_empty()
}

/// Takes a copy of the game for saving. The map is packed onto a helper
/// entity for the copy; the helper is gone again when this returns.
pub fn save_game(ecs: &mut World) -> (data: SaveData)
    ensures
        saved(*old(ecs), data),
        final(ecs).purged(*old(ecs), set![old(ecs).entities.issued()]),
        final(ecs).entities.alive@ == old(ecs).entities.alive@.push(false),
        final(ecs).entities.doomed == old(ecs).entities.doomed,
        final(ecs).same_resources(*old(ecs)),
{
    let map_copy = ecs.map.persistent_copy();
    let save_helper = ecs.create_entity();
    let ghost born = *ecs;
    ecs.serialization_helpers.insert(save_helper, SerializationHelper { map: map_copy });
    let ghost marked = *ecs;
    let data = snapshot(ecs);
    ecs.delete_entity(save_helper);
    proof {
        let k = old(ecs).entities.issued();
        let helper = set![k];
        assert(ecs.positions@ =~= old(ecs).positions@.remove_keys(helper));
        assert(ecs.renderables@ =~= old(ecs).renderables@.remove_keys(helper));
        assert(ecs.players@ =~= old(ecs).players@.remove_keys(helper));
        assert(ecs.viewsheds@ =~= old(ecs).viewsheds@.remove_keys(helper));
        assert(ecs.monsters@ =~= old(ecs).monsters@.remove_keys(helper));
        assert(ecs.names@ =~= old(ecs).names@.remove_keys(helper));
        assert(ecs.blockers@ =~= old(ecs).blockers@.remove_keys(helper));
        assert(ecs.combat_stats@ =~= old(ecs).combat_stats@.remove_keys(helper));
        assert(ecs.wants_to_melee@ =~= old(ecs).wants_to_melee@.remove_keys(helper));
        assert(ecs.suffer_damage@ =~= old(ecs).suffer_damage@.remove_keys(helper));
        assert(ecs.items@ =~= old(ecs).items@.remove_keys(helper));
        assert(ecs.consumables@ =~= old(ecs).consumables@.remove_keys(helper));
        assert(ecs.ranged@ =~= old(ecs).ranged@.remove_keys(helper));
        assert(ecs.inflicts_damage@ =~= old(ecs).inflicts_damage@.remove_keys(helper));
        assert(ecs.area_of_effect@ =~= old(ecs).area_of_effect@.remove_keys(helper));
        assert(ecs.confusion@ =~= old(ecs).confusion@.remove_keys(helper));
        assert(ecs.provides_healing@ =~= old(ecs).provides_healing@.remove_keys(helper));
        assert(ecs.in_backpack@ =~= old(ecs).in_backpack@.remove_keys(helper));
        assert(ecs.wants_to_pickup@ =~= old(ecs).wants_to_pickup@.remove_keys(helper));
        assert(ecs.wants_to_use@ =~= old(ecs).wants_to_use@.remove_keys(helper));
        assert(ecs.wants_to_drop@ =~= old(ecs).wants_to_drop@.remove_keys(helper));
        assert(ecs.wants_to_remove@ =~= old(ecs).wants_to_remove@.remove_keys(helper));
        assert(ecs.equippable@ =~= old(ecs).equippable@.remove_keys(helper));
        assert(ecs.equipped@ =~= old(ecs).equipped@.remove_keys(helper));
        assert(ecs.serialization_helpers@ =~= old(ecs).serialization_helpers@.remove_keys(helper));
        assert(marked.viewsheds@ =~= old(ecs).viewsheds@.remove_keys(helper));
        assert(marked.suffer_damage@ =~= old(ecs).suffer_damage@.remove_keys(helper));
        assert(data.serialization_helpers@.remove_keys(helper).dom()
            =~= old(ecs).serialization_helpers@.remove_keys(helper).dom());
        assert(helpers_agree(
            data.serialization_helpers@.remove_keys(helper),
            old(ecs).serialization_helpers@.remove_keys(helper),
        )) by {
            assert forall|j: int|
                data.serialization_helpers@.remove_keys(helper).contains_key(j) implies (
            #[trigger] data.serialization_helpers@.remove_keys(helper)[j]).map.same_layout(
                old(ecs).serialization_helpers@.remove_keys(helper)[j].map,
            ) by {
                assert(data.serialization_helpers@[j].map.same_layout(
                    marked.serialization_helpers@[j].map,
                ));
                assert(born.serialization_helpers@.remove_keys(helper).contains_key(j));
            }
        }
        assert(data.serialization_helpers@[k].map.same_layout(marked.serialization_helpers@[k].map));
        assert(ecs.entities.alive@ =~= old(ecs).entities.alive@.push(false));
    }
    data
}

/// Whether entity `k` of the saved game is alive and carries a map.
pub open spec fn carries_map(data: SaveData, k: int) -> bool {
    &&& 0 <= k < data.alive@.len()
    &&& data.alive@[k]
    &&& data.serialization_helpers@.contains_key(k)
}

/// The entity of highest identity below `n` that carries a map.
pub open spec fn helper_below(data: SaveData, n: int) -> Option<int>
    decreases n,
{
    if n <= 0 {
        None
    } else if carries_map(data, n - 1) {
        Some(n - 1)
    } else {
        helper_below(data, n - 1)
    }
}

/// Whether entity `k` of the saved game is a living player with a
/// position.
pub open spec fn is_saved_player(data: SaveData, k: int) -> bool {
    &&& 0 <= k < data.alive@.len()
    &&& data.alive@[k]
    &&& data.players@.contains_key(k)
    &&& data.positions@.contains_key(k)
}

/// The player of highest identity below `n`.
pub open spec fn player_below(data: SaveData, n: int) -> Option<int>
    decreases n,
{
    if n <= 0 {
        None
    } else if is_saved_player(data, n - 1) {
        Some(n - 1)
    } else {
        player_below(data, n - 1)
    }
}

/// Whether the saved game can be loaded, and if so which entity carries
/// its map: the last that does, if that map fits its own size.
pub open spec fn loadable(data: SaveData) -> Result<int, LoadError> {
    match helper_below(data, data.serialization_helpers.bound()) {
        None => Err(LoadError::MissingMap),
        Some(h) => if data.serialization_helpers@[h].map.layout_wf() {
            Ok(h)
        } else {
            Err(LoadError::MalformedMap)
        },
    }
}

/// Whether `post` is the world `pre` with the saved game `data` loaded in
/// place of all its entities: the entities and components are those of
/// `data` without the helper `h`, the map is the one that the helper
/// carried, with no occupant on record, and the player and its place are
/// those of the saved game. The random source, the log and the run state
/// stay.
pub open spec fn loaded(pre: World, data: SaveData, h: int, post: World) -> bool {
    let helper = set![h];
    &&& post.entities.alive@ == data.alive@.update(h, false)
    &&& post.entities.doomed@.len() == 0
    &&& post.positions@ == data.positions@.remove_keys(helper)
    &&& post.renderables@ == data.renderables@.remove_keys(helper)
    &&& post.players@ == data.players@.remove_keys(helper)
    &&& post.viewsheds@ == data.viewsheds@.remove_keys(helper)
    &&& post.monsters@ == data.monsters@.remove_keys(helper)
    &&& post.names@ == data.names@.remove_keys(helper)
    &&& post.blockers@ == data.blockers@.remove_keys(helper)
    &&& post.combat_stats@ == data.combat_stats@.remove_keys(helper)
    &&& post.wants_to_melee@ == data.wants_to_melee@.remove_keys(helper)
    &&& post.suffer_damage@ == data.suffer_damage@.remove_keys(helper)
    &&& post.items@ == data.items@.remove_keys(helper)
    &&& post.consumables@ == data.consumables@.remove_keys(helper)
    &&& post.ranged@ == data.ranged@.remove_keys(helper)
    &&& post.inflicts_damage@ == data.inflicts_damage@.remove_keys(helper)
    &&& post.area_of_effect@ == data.area_of_effect@.remove_keys(helper)
    &&& post.confusion@ == data.confusion@.remove_keys(helper)
    &&& post.provides_healing@ == data.provides_healing@.remove_keys(helper)
    &&& post.in_backpack@ == data.in_backpack@.remove_keys(helper)
    &&& post.wants_to_pickup@ == data.wants_to_pickup@.remove_keys(helper)
    &&& post.wants_to_use@ == data.wants_to_use@.remove_keys(helper)
    &&& post.wants_to_drop@ == data.wants_to_drop@.remove_keys(helper)
    &&& post.wants_to_remove@ == data.wants_to_remove@.remove_keys(helper)
    &&& post.equippable@ == data.equippable@.remove_keys(helper)
    &&& post.equipped@ == data.equipped@.remove_keys(helper)
    &&& post.serialization_helpers@ == data.serialization_helpers@.remove_keys(helper)
    &&& post.map.same_layout(data.serialization_helpers@[h].map)
    &&& post.map.content_is_empty()
    &&& post.map.wf()
    &&& match player_below(data, data.players.bound()) {
        Some(p) => {
            &&& post.player_entity.key() == p
            &&& post.player_pos == (Coord { x: data.positions@[p].x, y: data.positions@[p].y })
        },
        None => post.player_entity == pre.player_entity && post.player_pos == pre.player_pos,
    }
    &&& post.rng == pre.rng
    &&& post.log == pre.log
    &&& post.run_state == pre.run_state
}

fn find_helper(data: &SaveData) -> (found: Option<Entity>)
    ensures
        match helper_below(*data, data.serialization_helpers.bound()) {
            Some(h) => found is Some && found->Some_0.key() == h && carries_map(*data, h),
            None => found is None,
        },
{
    let mut found: Option<Entity> = None;
    let n: usize = data.serialization_helpers.limit();
    let mut i: usize = 0;
    while i < n
        invariant
            i <= n,
            n == data.serialization_helpers.bound(),
            match helper_below(*data, i as int) {
                Some(h) => found is Some && found->Some_0.key() == h && carries_map(*data, h),
                None => found is None,
            },
        decreases n - i,
    {
        let entity = Entity { id: i };
        if i < data.alive.len() && data.alive[i] && data.serialization_helpers.contains(entity) {
            found = Some(entity);
        }
        i = i + 1;
    }
    found
}

fn find_player(data: &SaveData) -> (found: Option<(Entity, Coord)>)
    ensures
        match player_below(*data, data.players.bound()) {
            Some(p) => {
                &&& found is Some
                &&& found->Some_0.0.key() == p
                &&& found->Some_0.1 == (Coord { x: data.positions@[p].x, y: data.positions@[p].y })
            },
            None => found is None,
        },
{
    let mut found: Option<(Entity, Coord)> = None;
    let n: usize = data.players.limit();
    let mut i: usize = 0;
    while i < n
        invariant
            i <= n,
            n == data.players.bound(),
            match player_below(*data, i as int) {
                Some(p) => {
                    &&& found is Some
                    &&& found->Some_0.0.key() == p
                    &&& found->Some_0.1 == (Coord {
                        x: data.positions@[p].x,
                        y: data.positions@[p].y,
                    })
                },
                None => found is None,
            },
        decreases n - i,
    {
        let entity = Entity { id: i };
        if i < data.alive.len() && data.alive[i] && data.players.contains(entity) {
            if let Some(pos) = data.positions.get(entity) {
                found = Some((entity, Coord { x: pos.x, y: pos.y }));
            }
        }
        i = i + 1;
    }
    found
}

/// Puts the saved game in place of all that the world holds. A saved game
/// without a map, or with a map that does not fit its own size, is
/// refused, and the world stays as it is.
pub fn load_game(ecs: &mut World, data: SaveData) -> (r: Result<(), LoadError>)
    ensures
        match loadable(data) {
            Ok(h) => r is Ok && loaded(*old(ecs), data, h, *final(ecs)),
            Err(e) => r == Err::<(), LoadError>(e) && *final(ecs) == *old(ecs),
        },
{
    let helper = match find_helper(&data) {
        Some(helper) => helper,
        None => {
            return Err(LoadError::MissingMap);
        },
    };
    let world_map = match data.serialization_helpers.get(helper) {
        Some(h) => {
            if !h.map.layout_is_well_formed() {
                return Err(LoadError::MalformedMap);
            }
            h.map.persistent_copy()
        },
        None => {
            return Err(LoadError::MissingMap);
        },
    };
    let player = find_player(&data);
    let ghost saved_game = data;
    assert(helper_below(data, data.serialization_helpers.bound()) == Some(helper.key()));
    assert(data.serialization_helpers@[helper.key()].map.layout_wf());
    assert(loadable(data) == Ok::<int, LoadError>(helper.key()));
    assert(world_map.wf()) by {
        assert forall|i: int| 0 <= i < world_map.rooms@.len() implies world_map.room_fits(
            #[trigger] world_map.rooms@[i],
        ) by {
            assert(data.serialization_helpers@[helper.key()].map.room_fits(
                data.serialization_helpers@[helper.key()].map.rooms@[i],
            ));
        }
    }
    let SaveData {
        alive,
        positions,
        renderables,
        players,
        viewsheds,
        monsters,
        names,
        blockers,
        combat_stats,
        wants_to_melee,
        suffer_damage,
        items,
        consumables,
        ranged,
        inflicts_damage,
        area_of_effect,
        confusion,
        provides_healing,
        in_backpack,
        wants_to_pickup,
        wants_to_use,
        wants_to_drop,
        wants_to_remove,
        equippable,
        equipped,
        serialization_helpers,
    } = data;
    ecs.entities.alive = alive;
    ecs.entities.doomed.clear();
    ecs.positions = positions;
    ecs.renderables = renderables;
    ecs.players = players;
    ecs.viewsheds = viewsheds;
    ecs.monsters = monsters;
    ecs.names = names;
    ecs.blockers = blockers;
    ecs.combat_stats = combat_stats;
    ecs.wants_to_melee = wants_to_melee;
    ecs.suffer_damage = suffer_damage;
    ecs.items = items;
    ecs.consumables = consumables;
    ecs.ranged = ranged;
    ecs.inflicts_damage = inflicts_damage;
    ecs.area_of_effect = area_of_effect;
    ecs.confusion = confusion;
    ecs.provides_healing = provides_healing;
    ecs.in_backpack = in_backpack;
    ecs.wants_to_pickup = wants_to_pickup;
    ecs.wants_to_use = wants_to_use;
    ecs.wants_to_drop = wants_to_drop;
    ecs.wants_to_remove = wants_to_remove;
    ecs.equippable = equippable;
    ecs.equipped = equipped;
    ecs.serialization_helpers = serialization_helpers;
    ecs.map = world_map;
    if let Some((entity, place)) = player {
        ecs.player_pos = place;
        ecs.player_entity = entity;
    }
    let ghost filled = *ecs;
    ecs.delete_entity(helper);
    proof {
        let h = helper.key();
        assert(loadable(saved_game) == Ok::<int, LoadError>(h));
        assert(ecs.entities.alive@ =~= saved_game.alive@.update(h, false));
        assert(ecs.map == filled.map);
        assert(ecs.map.wf()) by {
            assert forall|i: int| 0 <= i < ecs.map.rooms@.len() implies ecs.map.room_fits(
                #[trigger] ecs.map.rooms@[i],
            ) by {
                assert(saved_game.serialization_helpers@[h].map.room_fits(
                    saved_game.serialization_helpers@[h].map.rooms@[i],
                ));
            }
        }
        assert(ecs.purged(filled, set![h]));
        assert(loaded(*old(ecs), saved_game, h, *ecs));
    }
    Ok(())
}

/// A game that is saved and loaded again is the game that was saved: every
/// entity lives that lived, with the same components; the helper that
/// carried the map is gone; the map is the one that was saved, with no
/// occupant on record.
pub proof fn lemma_save_then_load(w: World, data: SaveData, before: World, post: World)
    requires
        w.map.layout_wf(),
        saved(w, data),
        match loadable(data) {
            Ok(h) => loaded(before, data, h, post),
            Err(e) => false,
        },
    ensures
        loadable(data) == Ok::<int, LoadError>(w.entities.issued()),
        post.entities.live_set() == w.entities.live_set(),
        !post.entities.live_set().contains(w.entities.issued()),
        post.bare(w.entities.issued()),
        post.positions@ == w.positions@.remove_keys(set![w.entities.issued()]),
        post.renderables@ == w.renderables@.remove_keys(set![w.entities.issued()]),
        post.players@ == w.players@.remove_keys(set![w.entities.issued()]),
        post.monsters@ == w.monsters@.remove_keys(set![w.entities.issued()]),
        post.names@ == w.names@.remove_keys(set![w.entities.issued()]),
        post.blockers@ == w.blockers@.remove_keys(set![w.entities.issued()]),
        post.combat_stats@ == w.combat_stats@.remove_keys(set![w.entities.issued()]),
        post.wants_to_melee@ == w.wants_to_melee@.remove_keys(set![w.entities.issued()]),
        post.items@ == w.items@.remove_keys(set![w.entities.issued()]),
        post.consumables@ == w.consumables@.remove_keys(set![w.entities.issued()]),
        post.ranged@ == w.ranged@.remove_keys(set![w.entities.issued()]),
        post.inflicts_damage@ == w.inflicts_damage@.remove_keys(set![w.entities.issued()]),
        post.area_of_effect@ == w.area_of_effect@.remove_keys(set![w.entities.issued()]),
        post.confusion@ == w.confusion@.remove_keys(set![w.entities.issued()]),
        post.provides_healing@ == w.provides_healing@.remove_keys(set![w.entities.issued()]),
        post.in_backpack@ == w.in_backpack@.remove_keys(set![w.entities.issued()]),
        post.wants_to_pickup@ == w.wants_to_pickup@.remove_keys(set![w.entities.issued()]),
        post.wants_to_use@ == w.wants_to_use@.remove_keys(set![w.entities.issued()]),
        post.wants_to_drop@ == w.wants_to_drop@.remove_keys(set![w.entities.issued()]),
        post.wants_to_remove@ == w.wants_to_remove@.remove_keys(set![w.entities.issued()]),
        post.equippable@ == w.equippable@.remove_keys(set![w.entities.issued()]),
        post.equipped@ == w.equipped@.remove_keys(set![w.entities.issued()]),
        views_agree(post.viewsheds@, w.viewsheds@.remove_keys(set![w.entities.issued()])),
        hits_of(post.suffer_damage@) == hits_of(
            w.suffer_damage@.remove_keys(set![w.entities.issued()]),
        ),
        helpers_agree(
            post.serialization_helpers@,
            w.serialization_helpers@.remove_keys(set![w.entities.issued()]),
        ),
        post.map.same_layout(w.map),
        post.map.content_is_empty(),
{
    let k = w.entities.issued();
    let helper = set![k];
    lemma_last_helper(data, data.serialization_helpers.bound(), k);
    assert(loadable(data) == Ok::<int, LoadError>(k));
    assert(post.entities.live_set() =~= w.entities.live_set());
    assert(post.positions@ =~= w.positions@.remove_keys(helper));
    assert(post.renderables@ =~= w.renderables@.remove_keys(helper));
    assert(post.players@ =~= w.players@.remove_keys(helper));
    assert(post.monsters@ =~= w.monsters@.remove_keys(helper));
    assert(post.names@ =~= w.names@.remove_keys(helper));
    assert(post.blockers@ =~= w.blockers@.remove_keys(helper));
    assert(post.combat_stats@ =~= w.combat_stats@.remove_keys(helper));
    assert(post.wants_to_melee@ =~= w.wants_to_melee@.remove_keys(helper));
    assert(post.items@ =~= w.items@.remove_keys(helper));
    assert(post.consumables@ =~= w.consumables@.remove_keys(helper));
    assert(post.ranged@ =~= w.ranged@.remove_keys(helper));
    assert(post.inflicts_damage@ =~= w.inflicts_damage@.remove_keys(helper));
    assert(post.area_of_effect@ =~= w.area_of_effect@.remove_keys(helper));
    assert(post.confusion@ =~= w.confusion@.remove_keys(helper));
    assert(post.provides_healing@ =~= w.provides_healing@.remove_keys(helper));
    assert(post.in_backpack@ =~= w.in_backpack@.remove_keys(helper));
    assert(post.wants_to_pickup@ =~= w.wants_to_pickup@.remove_keys(helper));
    assert(post.wants_to_use@ =~= w.wants_to_use@.remove_keys(helper));
    assert(post.wants_to_drop@ =~= w.wants_to_drop@.remove_keys(helper));
    assert(post.wants_to_remove@ =~= w.wants_to_remove@.remove_keys(helper));
    assert(post.equippable@ =~= w.equippable@.remove_keys(helper));
    assert(post.equipped@ =~= w.equipped@.remove_keys(helper));
    assert(post.viewsheds@.dom() =~= w.viewsheds@.remove_keys(helper).dom());
    assert(hits_of(post.suffer_damage@) =~= hits_of(w.suffer_damage@.remove_keys(helper))) by {
        assert forall|j: int| hits_of(post.suffer_damage@).contains_key(j) implies hits_of(
            post.suffer_damage@,
        )[j] == hits_of(w.suffer_damage@.remove_keys(helper))[j] by {
            assert(hits_of(data.suffer_damage@)[j] == hits_of(
                w.suffer_damage@.remove_keys(helper),
            )[j]);
        }
        assert forall|j: int|
            hits_of(post.suffer_damage@).contains_key(j) == hits_of(
                w.suffer_damage@.remove_keys(helper),
            ).contains_key(j) by {
            assert(hits_of(data.suffer_damage@).contains_key(j) == hits_of(
                w.suffer_damage@.remove_keys(helper),
            ).contains_key(j));
        }
    }
    assert(post.serialization_helpers@ =~= data.serialization_helpers@.remove_keys(helper));
}

/// The entity that carries the map is the last one of the saved game if
/// none above it is alive.
proof fn lemma_last_helper(data: SaveData, n: int, k: int)
    requires
        carries_map(data, k),
        k < n,
        data.alive@.len() == k + 1,
    ensures
        helper_below(data, n) == Some(k),
    decreases n,
{
    if n - 1 > k {
        lemma_last_helper(data, n - 1, k);
    }
}

} // verus!
