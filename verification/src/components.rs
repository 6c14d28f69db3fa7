//! The component kinds. Every entity carries an arbitrary subset of them.

use crate::ecs::{Entity, Storage};
use crate::map::TileMap;
use vstd::prelude::*;

verus! {

/// A tile coordinate.
#[derive(Clone, Copy, Debug, PartialEq, Eq, Hash, Structural)]
pub struct Coord {
    pub x: i32,
    pub y: i32,
}

/// A colour as red, green and blue.
#[derive(Clone, Copy, Debug, PartialEq, Eq, Structural)]
pub struct Color {
    pub r: u8,
    pub g: u8,
    pub b: u8,
}

impl Color {
    /// The colour with these parts.
    pub open spec fn rgb(r: u8, g: u8, b: u8) -> Color {
        Color { r, g, b }
    }

    /// Black.
    pub fn black() -> (c: Color)
        ensures
            c == Color::rgb(0, 0, 0),
    {
        Color { r: 0, g: 0, b: 0 }
    }

    /// Yellow.
    pub fn yellow() -> (c: Color)
        ensures
            c == Color::rgb(255, 255, 0),
    {
        Color { r: 255, g: 255, b: 0 }
    }

    /// Red.
    pub fn red() -> (c: Color)
        ensures
            c == Color::rgb(255, 0, 0),
    {
        Color { r: 255, g: 0, b: 0 }
    }

    /// Magenta.
    pub fn magenta() -> (c: Color)
        ensures
            c == Color::rgb(255, 0, 255),
    {
        Color { r: 255, g: 0, b: 255 }
    }
}

/// Where an entity stands. Absent while an item is held in a backpack.
#[derive(Clone, Copy, Debug, PartialEq, Eq, Structural)]
pub struct Position {
    pub x: i32,
    pub y: i32,
}

/// How an entity is drawn. Where several share a tile, the lower
/// `render_order` is drawn on top.
#[derive(Clone, Copy, Debug, PartialEq, Eq, Structural)]
pub struct Renderable {
    pub glyph: u16,
    pub fg: Color,
    pub bg: Color,
    pub render_order: i32,
}

/// Marks the player.
#[derive(Clone, Copy, Debug, PartialEq, Eq, Structural)]
pub struct Player {}

/// The tiles an entity currently sees. Recomputed only when `dirty`.
#[derive(Clone, Debug, PartialEq, Eq)]
pub struct Viewshed {
    pub visible_tiles: Vec<Coord>,
    pub range: i32,
    pub dirty: bool,
}

/// Marks a hostile that acts during the monster turn.
#[derive(Clone, Copy, Debug, PartialEq, Eq, Structural)]
pub struct Monster {}

/// The display name of an entity.
#[derive(Clone, Debug, PartialEq, Eq)]
pub struct Name {
    pub value: String,
}

/// Marks an entity that blocks the tile it stands on.
#[derive(Clone, Copy, Debug, PartialEq, Eq, Structural)]
pub struct BlocksTile {}

/// Health and fighting strength. `hp` may be negative until the dead are
/// swept away.
#[derive(Clone, Copy, Debug, PartialEq, Eq, Structural)]
pub struct CombatStats {
    pub max_hp: i32,
    pub hp: i32,
    pub defense: i32,
    pub power: i32,
}

/// The intent to attack `target` in melee this turn.
#[derive(Clone, Copy, Debug, PartialEq, Eq, Structural)]
pub struct WantsToMelee {
    pub target: Entity,
}

/// Damage waiting to be applied, one amount per hit, in the order received.
#[derive(Clone, Debug, PartialEq, Eq)]
pub struct SufferDamage {
    pub amount: Vec<i32>,
}

/// The amounts waiting for entity `id` in a damage store; none if it has no
/// record.
pub open spec fn pending_damage(store: Map<int, SufferDamage>, id: int) -> Seq<i32> {
    if store.contains_key(id) {
        store[id].amount@
    } else {
        Seq::empty()
    }
}

/// What waits on each entity of a damage store.
pub open spec fn hits_of(store: Map<int, SufferDamage>) -> Map<int, Seq<i32>> {
    Map::new(|k: int| store.contains_key(k), |k: int| store[k].amount@)
}

/// The name of entity `id`, if it has one.
pub open spec fn name_of(names: Map<int, Name>, id: int) -> Option<String> {
    if names.contains_key(id) {
        Some(names[id].value)
    } else {
        None
    }
}

impl Name {
    /// A copy of the name of `e`, if it has one.
    pub fn lookup(names: &Storage<Name>, e: Entity) -> (r: Option<String>)
        ensures
            r == name_of(names@, e.key()),
    {
        match names.get(e) {
            Some(name) => Some(name.value.clone()),
            None => None,
        }
    }
}

impl SufferDamage {
    /// Records one more hit on `victim`. Earlier hits of the same turn stay.
    pub fn new_damage(store: &mut Storage<SufferDamage>, victim: Entity, amount: i32)
        ensures
            final(store)@.contains_key(victim.key()),
            final(store)@[victim.key()].amount@ == pending_damage(old(store)@, victim.key()).push(
                amount,
            ),
            final(store)@.remove(victim.key()) == old(store)@.remove(victim.key()),
            hits_of(final(store)@) == hits_of(old(store)@).insert(
                victim.key(),
                pending_damage(old(store)@, victim.key()).push(amount),
            ),
    {
        let ghost before = store@;
        if let Some(suffering) = store.get_mut(victim) {
            suffering.amount.push(amount);
        } else {
            let mut hits: Vec<i32> = Vec::new();
            hits.push(amount);
            store.insert(victim, SufferDamage { amount: hits });
        }
        assert(store@.remove(victim.key()) =~= before.remove(victim.key()));
        assert(hits_of(store@) =~= hits_of(before).insert(
            victim.key(),
            pending_damage(before, victim.key()).push(amount),
        ));
    }
}

/// Marks an item.
#[derive(Clone, Copy, Debug, PartialEq, Eq, Structural)]
pub struct Item {}

/// An item that heals its targets when used.
#[derive(Clone, Copy, Debug, PartialEq, Eq, Structural)]
pub struct ProvidesHealing {
    pub heal_amount: i32,
}

/// An item carried by `owner`.
#[derive(Clone, Copy, Debug, PartialEq, Eq, Structural)]
pub struct InBackpack {
    pub owner: Entity,
}

/// The intent of `collected_by` to pick up `item`.
#[derive(Clone, Copy, Debug, PartialEq, Eq, Structural)]
pub struct WantsToPickUpItem {
    pub collected_by: Entity,
    pub item: Entity,
}

/// The intent to use `item`, on a chosen tile or, without one, on oneself.
#[derive(Clone, Copy, Debug, PartialEq, Eq, Structural)]
pub struct WantsToUseItem {
    pub item: Entity,
    pub target: Option<Coord>,
}

/// The intent to drop `item` where one stands.
#[derive(Clone, Copy, Debug, PartialEq, Eq, Structural)]
pub struct WantsToDropItem {
    pub item: Entity,
}

/// The intent to take off `item`.
#[derive(Clone, Copy, Debug, PartialEq, Eq, Structural)]
pub struct WantsToRemoveEquipment {
    pub item: Entity,
}

/// Marks an item that is used up when it takes effect.
#[derive(Clone, Copy, Debug, PartialEq, Eq, Structural)]
pub struct Consumable {}

/// An item that is aimed at a tile within `range`.
#[derive(Clone, Copy, Debug, PartialEq, Eq, Structural)]
pub struct Ranged {
    pub range: i32,
}

/// An item that hurts its targets when used.
#[derive(Clone, Copy, Debug, PartialEq, Eq, Structural)]
pub struct InflictsDamage {
    pub damage: i32,
}

/// An item whose effect spreads over a blast of the given radius.
#[derive(Clone, Copy, Debug, PartialEq, Eq, Structural)]
pub struct AreaOfEffect {
    pub radius: i32,
}

/// On an item: it confuses its targets. On a creature: it is confused for
/// that many turns.
#[derive(Clone, Copy, Debug, PartialEq, Eq, Structural)]
pub struct Confusion {
    pub turns: i32,
}

/// The places where equipment is worn.
#[derive(Clone, Copy, Debug, PartialEq, Eq, Structural)]
pub enum EquipmentSlot {
    Melee,
    Shield,
}

/// An item that can be worn in `slot`.
#[derive(Clone, Copy, Debug, PartialEq, Eq, Structural)]
pub struct Equippable {
    pub slot: EquipmentSlot,
}

/// An item worn by `owner` in `slot`.
#[derive(Clone, Copy, Debug, PartialEq, Eq, Structural)]
pub struct Equipped {
    pub owner: Entity,
    pub slot: EquipmentSlot,
}

/// Marks the entities that belong in a saved game.
#[derive(Clone, Copy, Debug, PartialEq, Eq, Structural)]
pub struct SerializeMe;

/// Carries the map through a saved game, on an entity of its own that
/// exists only while saving and loading.
pub struct SerializationHelper {
    pub map: TileMap,
}

} // verus!
