//! The world: every component storage, the live entities, and the shared
//! resources that the systems read and write.

use crate::components::{
    AreaOfEffect, BlocksTile, CombatStats, Confusion, Consumable, Coord, Equippable, Equipped,
    InBackpack, InflictsDamage, Item, Monster, Name, Player, Position, ProvidesHealing, Ranged,
    Renderable, SerializationHelper, SufferDamage, Viewshed, WantsToDropItem, WantsToMelee,
    WantsToPickUpItem, WantsToRemoveEquipment, WantsToUseItem,
};
use crate::ecs::{
    agree_at, entity_keys, lemma_agree_compose, lemma_agree_outside, lemma_entity_keys_empty,
    lemma_entity_keys_push, lemma_removed_agrees, lemma_removed_twice, Entities, Entity,
    Storage,
};
use crate::gamelog::GameLog;
use crate::gui::MainMenuSelection;
use crate::map::TileMap;
use crate::state::RunState;
use vstd::prelude::*;

verus! {

/// The kinds of component that an entity can hold.
#[derive(Clone, Copy, Debug, PartialEq, Eq, Structural)]
pub enum ComponentKind {
    Position,
    Renderable,
    Player,
    Viewshed,
    Monster,
    Name,
    BlocksTile,
    CombatStats,
    WantsToMelee,
    SufferDamage,
    Item,
    Consumable,
    Ranged,
    InflictsDamage,
    AreaOfEffect,
    Confusion,
    ProvidesHealing,
    InBackpack,
    WantsToPickUpItem,
    WantsToUseItem,
    WantsToDropItem,
    WantsToRemoveEquipment,
    Equippable,
    Equipped,
    SerializationHelper,
}

/// Everything that makes up the game at one moment.
pub struct World {
    pub entities: Entities,
    pub positions: Storage<Position>,
    pub renderables: Storage<Renderable>,
    pub players: Storage<Player>,
    pub viewsheds: Storage<Viewshed>,
    pub monsters: Storage<Monster>,
    pub names: Storage<Name>,
    pub blockers: Storage<BlocksTile>,
    pub combat_stats: Storage<CombatStats>,
    pub wants_to_melee: Storage<WantsToMelee>,
    pub suffer_damage: Storage<SufferDamage>,
    pub items: Storage<Item>,
    pub consumables: Storage<Consumable>,
    pub ranged: Storage<Ranged>,
    pub inflicts_damage: Storage<InflictsDamage>,
    pub area_of_effect: Storage<AreaOfEffect>,
    pub confusion: Storage<Confusion>,
    pub provides_healing: Storage<ProvidesHealing>,
    pub in_backpack: Storage<InBackpack>,
    pub wants_to_pickup: Storage<WantsToPickUpItem>,
    pub wants_to_use: Storage<WantsToUseItem>,
    pub wants_to_drop: Storage<WantsToDropItem>,
    pub wants_to_remove: Storage<WantsToRemoveEquipment>,
    pub equippable: Storage<Equippable>,
    pub equipped: Storage<Equipped>,
    pub serialization_helpers: Storage<SerializationHelper>,
    pub map: TileMap,
    pub rng: rltk::RandomNumberGenerator,
    pub log: GameLog,
    pub player_pos: Coord,
    pub player_entity: Entity,
    pub run_state: RunState,
}

impl World {
    /// Whether the shared resources are those of `pre`.
    pub open spec fn same_resources(&self, pre: World) -> bool {
        &&& self.map == pre.map
        &&& self.rng == pre.rng
        &&& self.log == pre.log
        &&& self.player_pos == pre.player_pos
        &&& self.player_entity == pre.player_entity
        &&& self.run_state == pre.run_state
    }

    /// Whether every storage holds what it held in `pre`.
    pub open spec fn same_components(&self, pre: World) -> bool {
        &&& self.positions@ == pre.positions@
        &&& self.renderables@ == pre.renderables@
        &&& self.players@ == pre.players@
        &&& self.viewsheds@ == pre.viewsheds@
        &&& self.monsters@ == pre.monsters@
        &&& self.names@ == pre.names@
        &&& self.blockers@ == pre.blockers@
        &&& self.combat_stats@ == pre.combat_stats@
        &&& self.wants_to_melee@ == pre.wants_to_melee@
        &&& self.suffer_damage@ == pre.suffer_damage@
        &&& self.items@ == pre.items@
        &&& self.consumables@ == pre.consumables@
        &&& self.ranged@ == pre.ranged@
        &&& self.inflicts_damage@ == pre.inflicts_damage@
        &&& self.area_of_effect@ == pre.area_of_effect@
        &&& self.confusion@ == pre.confusion@
        &&& self.provides_healing@ == pre.provides_healing@
        &&& self.in_backpack@ == pre.in_backpack@
        &&& self.wants_to_pickup@ == pre.wants_to_pickup@
        &&& self.wants_to_use@ == pre.wants_to_use@
        &&& self.wants_to_drop@ == pre.wants_to_drop@
        &&& self.wants_to_remove@ == pre.wants_to_remove@
        &&& self.equippable@ == pre.equippable@
        &&& self.equipped@ == pre.equipped@
        &&& self.serialization_helpers@ == pre.serialization_helpers@
    }

    /// Whether every storage holds what it held in `pre`, less the
    /// components of the entities in `gone`.
    pub open spec fn purged(&self, pre: World, gone: Set<int>) -> bool {
        &&& self.positions@ == pre.positions@.remove_keys(gone)
        &&& self.renderables@ == pre.renderables@.remove_keys(gone)
        &&& self.players@ == pre.players@.remove_keys(gone)
        &&& self.viewsheds@ == pre.viewsheds@.remove_keys(gone)
        &&& self.monsters@ == pre.monsters@.remove_keys(gone)
        &&& self.names@ == pre.names@.remove_keys(gone)
        &&& self.blockers@ == pre.blockers@.remove_keys(gone)
        &&& self.combat_stats@ == pre.combat_stats@.remove_keys(gone)
        &&& self.wants_to_melee@ == pre.wants_to_melee@.remove_keys(gone)
        &&& self.suffer_damage@ == pre.suffer_damage@.remove_keys(gone)
        &&& self.items@ == pre.items@.remove_keys(gone)
        &&& self.consumables@ == pre.consumables@.remove_keys(gone)
        &&& self.ranged@ == pre.ranged@.remove_keys(gone)
        &&& self.inflicts_damage@ == pre.inflicts_damage@.remove_keys(gone)
        &&& self.area_of_effect@ == pre.area_of_effect@.remove_keys(gone)
        &&& self.confusion@ == pre.confusion@.remove_keys(gone)
        &&& self.provides_healing@ == pre.provides_healing@.remove_keys(gone)
        &&& self.in_backpack@ == pre.in_backpack@.remove_keys(gone)
        &&& self.wants_to_pickup@ == pre.wants_to_pickup@.remove_keys(gone)
        &&& self.wants_to_use@ == pre.wants_to_use@.remove_keys(gone)
        &&& self.wants_to_drop@ == pre.wants_to_drop@.remove_keys(gone)
        &&& self.wants_to_remove@ == pre.wants_to_remove@.remove_keys(gone)
        &&& self.equippable@ == pre.equippable@.remove_keys(gone)
        &&& self.equipped@ == pre.equipped@.remove_keys(gone)
        &&& self.serialization_helpers@ == pre.serialization_helpers@.remove_keys(gone)
    }

    /// Whether entity `id` holds no component at all.
    pub open spec fn bare(&self, id: int) -> bool {
        &&& !self.positions@.contains_key(id)
        &&& !self.renderables@.contains_key(id)
        &&& !self.players@.contains_key(id)
        &&& !self.viewsheds@.contains_key(id)
        &&& !self.monsters@.contains_key(id)
        &&& !self.names@.contains_key(id)
        &&& !self.blockers@.contains_key(id)
        &&& !self.combat_stats@.contains_key(id)
        &&& !self.wants_to_melee@.contains_key(id)
        &&& !self.suffer_damage@.contains_key(id)
        &&& !self.items@.contains_key(id)
        &&& !self.consumables@.contains_key(id)
        &&& !self.ranged@.contains_key(id)
        &&& !self.inflicts_damage@.contains_key(id)
        &&& !self.area_of_effect@.contains_key(id)
        &&& !self.confusion@.contains_key(id)
        &&& !self.provides_healing@.contains_key(id)
        &&& !self.in_backpack@.contains_key(id)
        &&& !self.wants_to_pickup@.contains_key(id)
        &&& !self.wants_to_use@.contains_key(id)
        &&& !self.wants_to_drop@.contains_key(id)
        &&& !self.wants_to_remove@.contains_key(id)
        &&& !self.equippable@.contains_key(id)
        &&& !self.equipped@.contains_key(id)
        &&& !self.serialization_helpers@.contains_key(id)
    }

    /// Whether entity `id` holds a component of the given kind.
    pub open spec fn has(&self, kind: ComponentKind, id: int) -> bool {
        match kind {
            ComponentKind::Position => self.positions@.contains_key(id),
            ComponentKind::Renderable => self.renderables@.contains_key(id),
            ComponentKind::Player => self.players@.contains_key(id),
            ComponentKind::Viewshed => self.viewsheds@.contains_key(id),
            ComponentKind::Monster => self.monsters@.contains_key(id),
            ComponentKind::Name => self.names@.contains_key(id),
            ComponentKind::BlocksTile => self.blockers@.contains_key(id),
            ComponentKind::CombatStats => self.combat_stats@.contains_key(id),
            ComponentKind::WantsToMelee => self.wants_to_melee@.contains_key(id),
            ComponentKind::SufferDamage => self.suffer_damage@.contains_key(id),
            ComponentKind::Item => self.items@.contains_key(id),
            ComponentKind::Consumable => self.consumables@.contains_key(id),
            ComponentKind::Ranged => self.ranged@.contains_key(id),
            ComponentKind::InflictsDamage => self.inflicts_damage@.contains_key(id),
            ComponentKind::AreaOfEffect => self.area_of_effect@.contains_key(id),
            ComponentKind::Confusion => self.confusion@.contains_key(id),
            ComponentKind::ProvidesHealing => self.provides_healing@.contains_key(id),
            ComponentKind::InBackpack => self.in_backpack@.contains_key(id),
            ComponentKind::WantsToPickUpItem => self.wants_to_pickup@.contains_key(id),
            ComponentKind::WantsToUseItem => self.wants_to_use@.contains_key(id),
            ComponentKind::WantsToDropItem => self.wants_to_drop@.contains_key(id),
            ComponentKind::WantsToRemoveEquipment => self.wants_to_remove@.contains_key(id),
            ComponentKind::Equippable => self.equippable@.contains_key(id),
            ComponentKind::Equipped => self.equipped@.contains_key(id),
            ComponentKind::SerializationHelper => self.serialization_helpers@.contains_key(id),
        }
    }

    /// Whether entity `id` holds components of exactly the given kinds.
    pub open spec fn holds_exactly(&self, id: int, kinds: Set<ComponentKind>) -> bool {
        forall|kind: ComponentKind| #[trigger] self.has(kind, id) == kinds.contains(kind)
    }

    /// Whether every storage holds for every entity outside `ids` what it
    /// held in `pre`.
    pub open spec fn same_except(&self, pre: World, ids: Set<int>) -> bool {
        &&& self.positions@.remove_keys(ids) == pre.positions@.remove_keys(ids)
        &&& self.renderables@.remove_keys(ids) == pre.renderables@.remove_keys(ids)
        &&& self.players@.remove_keys(ids) == pre.players@.remove_keys(ids)
        &&& self.viewsheds@.remove_keys(ids) == pre.viewsheds@.remove_keys(ids)
        &&& self.monsters@.remove_keys(ids) == pre.monsters@.remove_keys(ids)
        &&& self.names@.remove_keys(ids) == pre.names@.remove_keys(ids)
        &&& self.blockers@.remove_keys(ids) == pre.blockers@.remove_keys(ids)
        &&& self.combat_stats@.remove_keys(ids) == pre.combat_stats@.remove_keys(ids)
        &&& self.wants_to_melee@.remove_keys(ids) == pre.wants_to_melee@.remove_keys(ids)
        &&& self.suffer_damage@.remove_keys(ids) == pre.suffer_damage@.remove_keys(ids)
        &&& self.items@.remove_keys(ids) == pre.items@.remove_keys(ids)
        &&& self.consumables@.remove_keys(ids) == pre.consumables@.remove_keys(ids)
        &&& self.ranged@.remove_keys(ids) == pre.ranged@.remove_keys(ids)
        &&& self.inflicts_damage@.remove_keys(ids) == pre.inflicts_damage@.remove_keys(ids)
        &&& self.area_of_effect@.remove_keys(ids) == pre.area_of_effect@.remove_keys(ids)
        &&& self.confusion@.remove_keys(ids) == pre.confusion@.remove_keys(ids)
        &&& self.provides_healing@.remove_keys(ids) == pre.provides_healing@.remove_keys(ids)
        &&& self.in_backpack@.remove_keys(ids) == pre.in_backpack@.remove_keys(ids)
        &&& self.wants_to_pickup@.remove_keys(ids) == pre.wants_to_pickup@.remove_keys(ids)
        &&& self.wants_to_use@.remove_keys(ids) == pre.wants_to_use@.remove_keys(ids)
        &&& self.wants_to_drop@.remove_keys(ids) == pre.wants_to_drop@.remove_keys(ids)
        &&& self.wants_to_remove@.remove_keys(ids) == pre.wants_to_remove@.remove_keys(ids)
        &&& self.equippable@.remove_keys(ids) == pre.equippable@.remove_keys(ids)
        &&& self.equipped@.remove_keys(ids) == pre.equipped@.remove_keys(ids)
        &&& self.serialization_helpers@.remove_keys(ids)
            == pre.serialization_helpers@.remove_keys(ids)
    }

    /// Whether entity `id` holds in every storage what it held in `pre`.
    pub open spec fn same_at(&self, pre: World, id: int) -> bool {
        &&& agree_at(self.positions@, pre.positions@, id)
        &&& agree_at(self.renderables@, pre.renderables@, id)
        &&& agree_at(self.players@, pre.players@, id)
        &&& agree_at(self.viewsheds@, pre.viewsheds@, id)
        &&& agree_at(self.monsters@, pre.monsters@, id)
        &&& agree_at(self.names@, pre.names@, id)
        &&& agree_at(self.blockers@, pre.blockers@, id)
        &&& agree_at(self.combat_stats@, pre.combat_stats@, id)
        &&& agree_at(self.wants_to_melee@, pre.wants_to_melee@, id)
        &&& agree_at(self.suffer_damage@, pre.suffer_damage@, id)
        &&& agree_at(self.items@, pre.items@, id)
        &&& agree_at(self.consumables@, pre.consumables@, id)
        &&& agree_at(self.ranged@, pre.ranged@, id)
        &&& agree_at(self.inflicts_damage@, pre.inflicts_damage@, id)
        &&& agree_at(self.area_of_effect@, pre.area_of_effect@, id)
        &&& agree_at(self.confusion@, pre.confusion@, id)
        &&& agree_at(self.provides_healing@, pre.provides_healing@, id)
        &&& agree_at(self.in_backpack@, pre.in_backpack@, id)
        &&& agree_at(self.wants_to_pickup@, pre.wants_to_pickup@, id)
        &&& agree_at(self.wants_to_use@, pre.wants_to_use@, id)
        &&& agree_at(self.wants_to_drop@, pre.wants_to_drop@, id)
        &&& agree_at(self.wants_to_remove@, pre.wants_to_remove@, id)
        &&& agree_at(self.equippable@, pre.equippable@, id)
        &&& agree_at(self.equipped@, pre.equipped@, id)
        &&& agree_at(self.serialization_helpers@, pre.serialization_helpers@, id)
    }

    /// `purged` composes: first `first`, then `second`.
    pub proof fn lemma_purged_compose(
        pre: World,
        mid: World,
        post: World,
        first: Set<int>,
        second: Set<int>,
    )
        requires
            mid.purged(pre, first),
            post.purged(mid, second),
        ensures
            post.purged(pre, first.union(second)),
    {
        lemma_removed_twice(pre.positions@, first, second);
        lemma_removed_twice(pre.renderables@, first, second);
        lemma_removed_twice(pre.players@, first, second);
        lemma_removed_twice(pre.viewsheds@, first, second);
        lemma_removed_twice(pre.monsters@, first, second);
        lemma_removed_twice(pre.names@, first, second);
        lemma_removed_twice(pre.blockers@, first, second);
        lemma_removed_twice(pre.combat_stats@, first, second);
        lemma_removed_twice(pre.wants_to_melee@, first, second);
        lemma_removed_twice(pre.suffer_damage@, first, second);
        lemma_removed_twice(pre.items@, first, second);
        lemma_removed_twice(pre.consumables@, first, second);
        lemma_removed_twice(pre.ranged@, first, second);
        lemma_removed_twice(pre.inflicts_damage@, first, second);
        lemma_removed_twice(pre.area_of_effect@, first, second);
        lemma_removed_twice(pre.confusion@, first, second);
        lemma_removed_twice(pre.provides_healing@, first, second);
        lemma_removed_twice(pre.in_backpack@, first, second);
        lemma_removed_twice(pre.wants_to_pickup@, first, second);
        lemma_removed_twice(pre.wants_to_use@, first, second);
        lemma_removed_twice(pre.wants_to_drop@, first, second);
        lemma_removed_twice(pre.wants_to_remove@, first, second);
        lemma_removed_twice(pre.equippable@, first, second);
        lemma_removed_twice(pre.equipped@, first, second);
        lemma_removed_twice(pre.serialization_helpers@, first, second);
    }

    /// Nothing is purged by the empty set.
    pub proof fn lemma_purged_none(pre: World)
        ensures
            pre.purged(pre, Set::<int>::empty()),
    {
        let none = Set::<int>::empty();
        lemma_removed_twice(pre.positions@, none, none);
        lemma_removed_twice(pre.renderables@, none, none);
        lemma_removed_twice(pre.players@, none, none);
        lemma_removed_twice(pre.viewsheds@, none, none);
        lemma_removed_twice(pre.monsters@, none, none);
        lemma_removed_twice(pre.names@, none, none);
        lemma_removed_twice(pre.blockers@, none, none);
        lemma_removed_twice(pre.combat_stats@, none, none);
        lemma_removed_twice(pre.wants_to_melee@, none, none);
        lemma_removed_twice(pre.suffer_damage@, none, none);
        lemma_removed_twice(pre.items@, none, none);
        lemma_removed_twice(pre.consumables@, none, none);
        lemma_removed_twice(pre.ranged@, none, none);
        lemma_removed_twice(pre.inflicts_damage@, none, none);
        lemma_removed_twice(pre.area_of_effect@, none, none);
        lemma_removed_twice(pre.confusion@, none, none);
        lemma_removed_twice(pre.provides_healing@, none, none);
        lemma_removed_twice(pre.in_backpack@, none, none);
        lemma_removed_twice(pre.wants_to_pickup@, none, none);
        lemma_removed_twice(pre.wants_to_use@, none, none);
        lemma_removed_twice(pre.wants_to_drop@, none, none);
        lemma_removed_twice(pre.wants_to_remove@, none, none);
        lemma_removed_twice(pre.equippable@, none, none);
        lemma_removed_twice(pre.equipped@, none, none);
        lemma_removed_twice(pre.serialization_helpers@, none, none);
    }

    /// What is the same but for `ids` is the same for every entity outside
    /// `ids`.
    pub proof fn lemma_same_except_at(&self, pre: World, ids: Set<int>, id: int)
        requires
            self.same_except(pre, ids),
            !ids.contains(id),
        ensures
            self.same_at(pre, id),
    {
        lemma_agree_outside(self.positions@, pre.positions@, ids, id);
        lemma_agree_outside(self.renderables@, pre.renderables@, ids, id);
        lemma_agree_outside(self.players@, pre.players@, ids, id);
        lemma_agree_outside(self.viewsheds@, pre.viewsheds@, ids, id);
        lemma_agree_outside(self.monsters@, pre.monsters@, ids, id);
        lemma_agree_outside(self.names@, pre.names@, ids, id);
        lemma_agree_outside(self.blockers@, pre.blockers@, ids, id);
        lemma_agree_outside(self.combat_stats@, pre.combat_stats@, ids, id);
        lemma_agree_outside(self.wants_to_melee@, pre.wants_to_melee@, ids, id);
        lemma_agree_outside(self.suffer_damage@, pre.suffer_damage@, ids, id);
        lemma_agree_outside(self.items@, pre.items@, ids, id);
        lemma_agree_outside(self.consumables@, pre.consumables@, ids, id);
        lemma_agree_outside(self.ranged@, pre.ranged@, ids, id);
        lemma_agree_outside(self.inflicts_damage@, pre.inflicts_damage@, ids, id);
        lemma_agree_outside(self.area_of_effect@, pre.area_of_effect@, ids, id);
        lemma_agree_outside(self.confusion@, pre.confusion@, ids, id);
        lemma_agree_outside(self.provides_healing@, pre.provides_healing@, ids, id);
        lemma_agree_outside(self.in_backpack@, pre.in_backpack@, ids, id);
        lemma_agree_outside(self.wants_to_pickup@, pre.wants_to_pickup@, ids, id);
        lemma_agree_outside(self.wants_to_use@, pre.wants_to_use@, ids, id);
        lemma_agree_outside(self.wants_to_drop@, pre.wants_to_drop@, ids, id);
        lemma_agree_outside(self.wants_to_remove@, pre.wants_to_remove@, ids, id);
        lemma_agree_outside(self.equippable@, pre.equippable@, ids, id);
        lemma_agree_outside(self.equipped@, pre.equipped@, ids, id);
        lemma_agree_outside(self.serialization_helpers@, pre.serialization_helpers@, ids, id);
    }

    /// What is purged of `gone` is the same for every entity outside
    /// `gone`.
    pub proof fn lemma_purged_at(&self, pre: World, gone: Set<int>, id: int)
        requires
            self.purged(pre, gone),
            !gone.contains(id),
        ensures
            self.same_at(pre, id),
    {
        lemma_removed_agrees(pre.positions@, gone, id);
        lemma_removed_agrees(pre.renderables@, gone, id);
        lemma_removed_agrees(pre.players@, gone, id);
        lemma_removed_agrees(pre.viewsheds@, gone, id);
        lemma_removed_agrees(pre.monsters@, gone, id);
        lemma_removed_agrees(pre.names@, gone, id);
        lemma_removed_agrees(pre.blockers@, gone, id);
        lemma_removed_agrees(pre.combat_stats@, gone, id);
        lemma_removed_agrees(pre.wants_to_melee@, gone, id);
        lemma_removed_agrees(pre.suffer_damage@, gone, id);
        lemma_removed_agrees(pre.items@, gone, id);
        lemma_removed_agrees(pre.consumables@, gone, id);
        lemma_removed_agrees(pre.ranged@, gone, id);
        lemma_removed_agrees(pre.inflicts_damage@, gone, id);
        lemma_removed_agrees(pre.area_of_effect@, gone, id);
        lemma_removed_agrees(pre.confusion@, gone, id);
        lemma_removed_agrees(pre.provides_healing@, gone, id);
        lemma_removed_agrees(pre.in_backpack@, gone, id);
        lemma_removed_agrees(pre.wants_to_pickup@, gone, id);
        lemma_removed_agrees(pre.wants_to_use@, gone, id);
        lemma_removed_agrees(pre.wants_to_drop@, gone, id);
        lemma_removed_agrees(pre.wants_to_remove@, gone, id);
        lemma_removed_agrees(pre.equippable@, gone, id);
        lemma_removed_agrees(pre.equipped@, gone, id);
        lemma_removed_agrees(pre.serialization_helpers@, gone, id);
    }

    /// `same_at` is transitive.
    pub proof fn lemma_same_at_trans(pre: World, mid: World, post: World, id: int)
        requires
            mid.same_at(pre, id),
            post.same_at(mid, id),
        ensures
            post.same_at(pre, id),
    {
    }

    /// An entity that is the same in two worlds is bare in both or in
    /// neither.
    pub proof fn lemma_bare_stays(pre: World, post: World, id: int)
        requires
            post.same_at(pre, id),
            pre.bare(id),
        ensures
            post.bare(id),
    {
    }

    /// `same_except` composes, and its set of exceptions may grow.
    pub proof fn lemma_same_except_compose(
        pre: World,
        mid: World,
        post: World,
        first: Set<int>,
        second: Set<int>,
        all: Set<int>,
    )
        requires
            mid.same_except(pre, first),
            post.same_except(mid, second),
            first.subset_of(all),
            second.subset_of(all),
        ensures
            post.same_except(pre, all),
    {
        lemma_agree_compose(pre.positions@, mid.positions@, post.positions@, first, second, all);
        lemma_agree_compose(
            pre.renderables@,
            mid.renderables@,
            post.renderables@,
            first,
            second,
            all,
        );
        lemma_agree_compose(pre.players@, mid.players@, post.players@, first, second, all);
        lemma_agree_compose(pre.viewsheds@, mid.viewsheds@, post.viewsheds@, first, second, all);
        lemma_agree_compose(pre.monsters@, mid.monsters@, post.monsters@, first, second, all);
        lemma_agree_compose(pre.names@, mid.names@, post.names@, first, second, all);
        lemma_agree_compose(pre.blockers@, mid.blockers@, post.blockers@, first, second, all);
        lemma_agree_compose(
            pre.combat_stats@,
            mid.combat_stats@,
            post.combat_stats@,
            first,
            second,
            all,
        );
        lemma_agree_compose(
            pre.wants_to_melee@,
            mid.wants_to_melee@,
            post.wants_to_melee@,
            first,
            second,
            all,
        );
        lemma_agree_compose(
            pre.suffer_damage@,
            mid.suffer_damage@,
            post.suffer_damage@,
            first,
            second,
            all,
        );
        lemma_agree_compose(pre.items@, mid.items@, post.items@, first, second, all);
        lemma_agree_compose(
            pre.consumables@,
            mid.consumables@,
            post.consumables@,
            first,
            second,
            all,
        );
        lemma_agree_compose(pre.ranged@, mid.ranged@, post.ranged@, first, second, all);
        lemma_agree_compose(
            pre.inflicts_damage@,
            mid.inflicts_damage@,
            post.inflicts_damage@,
            first,
            second,
            all,
        );
        lemma_agree_compose(
            pre.area_of_effect@,
            mid.area_of_effect@,
            post.area_of_effect@,
            first,
            second,
            all,
        );
        lemma_agree_compose(pre.confusion@, mid.confusion@, post.confusion@, first, second, all);
        lemma_agree_compose(
            pre.provides_healing@,
            mid.provides_healing@,
            post.provides_healing@,
            first,
            second,
            all,
        );
        lemma_agree_compose(
            pre.in_backpack@,
            mid.in_backpack@,
            post.in_backpack@,
            first,
            second,
            all,
        );
        lemma_agree_compose(
            pre.wants_to_pickup@,
            mid.wants_to_pickup@,
            post.wants_to_pickup@,
            first,
            second,
            all,
        );
        lemma_agree_compose(
            pre.wants_to_use@,
            mid.wants_to_use@,
            post.wants_to_use@,
            first,
            second,
            all,
        );
        lemma_agree_compose(
            pre.wants_to_drop@,
            mid.wants_to_drop@,
            post.wants_to_drop@,
            first,
            second,
            all,
        );
        lemma_agree_compose(
            pre.wants_to_remove@,
            mid.wants_to_remove@,
            post.wants_to_remove@,
            first,
            second,
            all,
        );
        lemma_agree_compose(pre.equippable@, mid.equippable@, post.equippable@, first, second, all);
        lemma_agree_compose(pre.equipped@, mid.equipped@, post.equipped@, first, second, all);
        lemma_agree_compose(
            pre.serialization_helpers@,
            mid.serialization_helpers@,
            post.serialization_helpers@,
            first,
            second,
            all,
        );
    }

    /// An empty world: no entity, no component, a map without tiles, and the
    /// main menu showing.
    pub fn new() -> (w: World)
        ensures
            w.entities.issued() == 0,
            w.entities.doomed@.len() == 0,
            forall|id: int| w.bare(id),
            w.map.wf(),
            w.map.width == 0,
            w.map.height == 0,
            w.log.entries@.len() == 0,
            w.run_state == (RunState::MainMenu { menu_selection: MainMenuSelection::NewGame }),
    {
        World {
            entities: Entities::new(),
            positions: Storage::new(),
            renderables: Storage::new(),
            players: Storage::new(),
            viewsheds: Storage::new(),
            monsters: Storage::new(),
            names: Storage::new(),
            blockers: Storage::new(),
            combat_stats: Storage::new(),
            wants_to_melee: Storage::new(),
            suffer_damage: Storage::new(),
            items: Storage::new(),
            consumables: Storage::new(),
            ranged: Storage::new(),
            inflicts_damage: Storage::new(),
            area_of_effect: Storage::new(),
            confusion: Storage::new(),
            provides_healing: Storage::new(),
            in_backpack: Storage::new(),
            wants_to_pickup: Storage::new(),
            wants_to_use: Storage::new(),
            wants_to_drop: Storage::new(),
            wants_to_remove: Storage::new(),
            equippable: Storage::new(),
            equipped: Storage::new(),
            serialization_helpers: Storage::new(),
            map: TileMap::new(0, 0, 1),
            rng: rltk::RandomNumberGenerator::new(),
            log: GameLog::new(),
            player_pos: Coord { x: 0, y: 0 },
            player_entity: Entity { id: 0 },
            run_state: RunState::MainMenu { menu_selection: MainMenuSelection::NewGame },
        }
    }

    /// Detaches every component of `e`.
    fn strip(&mut self, e: Entity)
        ensures
            final(self).purged(*old(self), set![e.key()]),
            final(self).bare(e.key()),
            final(self).entities == old(self).entities,
            final(self).same_resources(*old(self)),
    {
        self.positions.remove(e);
        self.renderables.remove(e);
        self.players.remove(e);
        self.viewsheds.remove(e);
        self.monsters.remove(e);
        self.names.remove(e);
        self.blockers.remove(e);
        self.combat_stats.remove(e);
        self.wants_to_melee.remove(e);
        self.suffer_damage.remove(e);
        self.items.remove(e);
        self.consumables.remove(e);
        self.ranged.remove(e);
        self.inflicts_damage.remove(e);
        self.area_of_effect.remove(e);
        self.confusion.remove(e);
        self.provides_healing.remove(e);
        self.in_backpack.remove(e);
        self.wants_to_pickup.remove(e);
        self.wants_to_use.remove(e);
        self.wants_to_drop.remove(e);
        self.wants_to_remove.remove(e);
        self.equippable.remove(e);
        self.equipped.remove(e);
        self.serialization_helpers.remove(e);
    }

    /// Hands out a fresh entity without components.
    pub fn create_entity(&mut self) -> (e: Entity)
        ensures
            e.key() == old(self).entities.issued(),
            final(self).entities.alive@ == old(self).entities.alive@.push(true),
            final(self).entities.doomed == old(self).entities.doomed,
            final(self).bare(e.key()),
            final(self).purged(*old(self), set![e.key()]),
            final(self).same_except(*old(self), set![e.key()]),
            final(self).same_resources(*old(self)),
    {
        let e = self.entities.create();
        self.strip(e);
        proof {
            let only = set![e.key()];
            lemma_removed_twice(old(self).positions@, only, only);
            lemma_removed_twice(old(self).renderables@, only, only);
            lemma_removed_twice(old(self).players@, only, only);
            lemma_removed_twice(old(self).viewsheds@, only, only);
            lemma_removed_twice(old(self).monsters@, only, only);
            lemma_removed_twice(old(self).names@, only, only);
            lemma_removed_twice(old(self).blockers@, only, only);
            lemma_removed_twice(old(self).combat_stats@, only, only);
            lemma_removed_twice(old(self).wants_to_melee@, only, only);
            lemma_removed_twice(old(self).suffer_damage@, only, only);
            lemma_removed_twice(old(self).items@, only, only);
            lemma_removed_twice(old(self).consumables@, only, only);
            lemma_removed_twice(old(self).ranged@, only, only);
            lemma_removed_twice(old(self).inflicts_damage@, only, only);
            lemma_removed_twice(old(self).area_of_effect@, only, only);
            lemma_removed_twice(old(self).confusion@, only, only);
            lemma_removed_twice(old(self).provides_healing@, only, only);
            lemma_removed_twice(old(self).in_backpack@, only, only);
            lemma_removed_twice(old(self).wants_to_pickup@, only, only);
            lemma_removed_twice(old(self).wants_to_use@, only, only);
            lemma_removed_twice(old(self).wants_to_drop@, only, only);
            lemma_removed_twice(old(self).wants_to_remove@, only, only);
            lemma_removed_twice(old(self).equippable@, only, only);
            lemma_removed_twice(old(self).equipped@, only, only);
            lemma_removed_twice(old(self).serialization_helpers@, only, only);
            assert(only.union(only) =~= only);
        }
        e
    }

    /// Removes `e` with all its components, at once. Returns whether `e` was
    /// alive; an entity that is already gone is no fault.
    pub fn delete_entity(&mut self, e: Entity) -> (was_alive: bool)
        ensures
            was_alive == old(self).entities.is_live(e),
            final(self).purged(*old(self), set![e.key()]),
            final(self).bare(e.key()),
            final(self).same_resources(*old(self)),
            final(self).entities.doomed == old(self).entities.doomed,
            final(self).entities.alive@.len() == old(self).entities.alive@.len(),
            forall|i: int|
                0 <= i < old(self).entities.alive@.len() ==> #[trigger] final(self).entities.alive@[i]
                    == (old(self).entities.alive@[i] && i != e.key()),
    {
        let was_alive = self.entities.is_alive(e);
        self.entities.kill(e);
        self.strip(e);
        was_alive
    }

    /// Removes every entity of `list` with all its components, at once.
    pub fn delete_entities(&mut self, list: &Vec<Entity>)
        ensures
            final(self).purged(*old(self), entity_keys(list@)),
            forall|k: int| entity_keys(list@).contains(k) ==> final(self).bare(k),
            final(self).same_resources(*old(self)),
            final(self).entities.doomed == old(self).entities.doomed,
            final(self).entities.alive@.len() == old(self).entities.alive@.len(),
            forall|i: int|
                0 <= i < old(self).entities.alive@.len() ==> #[trigger] final(self).entities.alive@[i]
                    == (old(self).entities.alive@[i] && !entity_keys(list@).contains(i)),
    {
        let mut n: usize = 0;
        proof {
            World::lemma_purged_none(*self);
            lemma_entity_keys_empty();
            assert(list@.take(0) =~= Seq::<Entity>::empty());
        }
        while n < list.len()
            invariant
                n <= list@.len(),
                self.same_resources(*old(self)),
                self.entities.doomed == old(self).entities.doomed,
                self.entities.alive@.len() == old(self).entities.alive@.len(),
                self.purged(*old(self), entity_keys(list@.take(n as int))),
                forall|k: int| entity_keys(list@.take(n as int)).contains(k) ==> self.bare(k),
                forall|i: int|
                    0 <= i < old(self).entities.alive@.len() ==> #[trigger] self.entities.alive@[i]
                        == (old(self).entities.alive@[i] && !entity_keys(
                        list@.take(n as int),
                    ).contains(i)),
            decreases list@.len() - n,
        {
            let e = list[n];
            let ghost mid = *self;
            self.delete_entity(e);
            proof {
                let gone = entity_keys(list@.take(n as int));
                World::lemma_purged_compose(*old(self), mid, *self, gone, set![e.key()]);
                assert(gone.union(set![e.key()]) =~= gone.insert(e.key()));
                assert(list@.take(n as int + 1) =~= list@.take(n as int).push(e));
                lemma_entity_keys_push(list@.take(n as int), e);
                assert forall|i: int| 0 <= i < old(self).entities.alive@.len() implies #[trigger] self.entities.alive@[i]
                    == (old(self).entities.alive@[i] && !gone.insert(e.key()).contains(i)) by {
                    assert(mid.entities.alive@[i] == (old(self).entities.alive@[i] && !gone.contains(
                        i,
                    )));
                }
                assert forall|k: int| gone.insert(e.key()).contains(k) implies self.bare(k) by {
                    if k != e.key() {
                        assert(mid.bare(k));
                    }
                }
            }
            n = n + 1;
        }
        assert(list@.take(n as int) =~= list@);
    }

    /// The commit point: removes every entity whose removal was requested
    /// since the last one, with all its components.
    pub fn maintain(&mut self)
        ensures
            final(self).entities.doomed@.len() == 0,
            final(self).purged(*old(self), entity_keys(old(self).entities.doomed@)),
            final(self).same_resources(*old(self)),
            final(self).entities.alive@.len() == old(self).entities.alive@.len(),
            forall|i: int|
                0 <= i < old(self).entities.alive@.len() ==> #[trigger] final(self).entities.alive@[i]
                    == (old(self).entities.alive@[i] && !entity_keys(
                    old(self).entities.doomed@,
                ).contains(i)),
    {
        let mut list: Vec<Entity> = Vec::new();
        std::mem::swap(&mut self.entities.doomed, &mut list);
        self.delete_entities(&list);
    }
}

} // verus!
