//! The item systems: picking up, using, dropping and taking off items.
//! Each resolves the intents of one kind in the order of the identities of
//! the entities that hold them, and then forgets them.

use crate::arith::{clamp_i32, saturate};
use crate::components::{
    hits_of, name_of, pending_damage, CombatStats, Confusion, EquipmentSlot, Equipped, InBackpack,
    Name, Position, SufferDamage, WantsToDropItem, WantsToPickUpItem, WantsToRemoveEquipment,
    WantsToUseItem,
};
use crate::targeting::{targets, targets_of};
use crate::ecs::Entity;
use crate::gamelog::LogEntry;
use crate::world::World;
use vstd::prelude::*;

verus! {

/// Whether entity `k` picks up an item that is still there.
pub open spec fn picks_up(w: World, k: int) -> bool {
    w.wants_to_pickup@.contains_key(k) && w.entities.is_live(w.wants_to_pickup@[k].item)
}

/// The positions once the first `n` entities have picked up what they
/// want: an item that is picked up stands nowhere.
pub open spec fn positions_after_pickup(w: World, n: int) -> Map<int, Position>
    decreases n,
{
    if n <= 0 {
        w.positions@
    } else if picks_up(w, n - 1) {
        positions_after_pickup(w, n - 1).remove(w.wants_to_pickup@[n - 1].item.key())
    } else {
        positions_after_pickup(w, n - 1)
    }
}

/// The backpacks once the first `n` entities have picked up what they
/// want: an item that is picked up is carried by its collector.
pub open spec fn backpack_after_pickup(w: World, n: int) -> Map<int, InBackpack>
    decreases n,
{
    if n <= 0 {
        w.in_backpack@
    } else if picks_up(w, n - 1) {
        backpack_after_pickup(w, n - 1).insert(
            w.wants_to_pickup@[n - 1].item.key(),
            InBackpack { owner: w.wants_to_pickup@[n - 1].collected_by },
        )
    } else {
        backpack_after_pickup(w, n - 1)
    }
}

/// What the log is told of the pickups of the first `n` entities: those
/// that the player makes.
pub open spec fn pickup_notices(w: World, n: int) -> Seq<LogEntry>
    decreases n,
{
    if n <= 0 {
        Seq::empty()
    } else if picks_up(w, n - 1) && w.wants_to_pickup@[n - 1].collected_by == w.player_entity {
        pickup_notices(w, n - 1).push(
            LogEntry::PickedUp { item: name_of(w.names@, w.wants_to_pickup@[n - 1].item.key()) },
        )
    } else {
        pickup_notices(w, n - 1)
    }
}

/// The system that resolves the intents to pick up an item.
pub struct ItemBagSystem {}

impl ItemBagSystem {
    /// What resolving the intents to pick up does to the world.
    pub open spec fn ran(pre: World, post: World) -> bool {
        &&& post.wants_to_pickup@ == Map::<int, WantsToPickUpItem>::empty()
        &&& post.positions@ == positions_after_pickup(
            pre,
            pre.wants_to_pickup.bound(),
        )
        &&& post.in_backpack@ == backpack_after_pickup(
            pre,
            pre.wants_to_pickup.bound(),
        )
        &&& post.log.entries@ == pre.log.entries@ + pickup_notices(
            pre,
            pre.wants_to_pickup.bound(),
        )
        &&& post == (World {
            wants_to_pickup: post.wants_to_pickup,
            positions: post.positions,
            in_backpack: post.in_backpack,
            log: post.log,
            ..pre
        })
    }

    /// Resolves every intent to pick up an item: the item leaves the map
    /// and enters the backpack of its collector. The log is told only of
    /// what the player picks up. An item that no longer exists is passed
    /// over.
    pub fn run(&mut self, world: &mut World)
        ensures
            Self::ran(*old(world), *final(world)),
    {
        let n: usize = world.wants_to_pickup.limit();
        let mut i: usize = 0;
        while i < n
            invariant
                i <= n,
                n == old(world).wants_to_pickup.bound(),
                world.positions@ == positions_after_pickup(*old(world), i as int),
                world.in_backpack@ == backpack_after_pickup(*old(world), i as int),
                world.log.entries@ == old(world).log.entries@ + pickup_notices(
                    *old(world),
                    i as int,
                ),
                *world == (World {
                    positions: world.positions,
                    in_backpack: world.in_backpack,
                    log: world.log,
                    ..*old(world)
                }),
            decreases n - i,
        {
            let holder = Entity { id: i };
            let pickup: Option<WantsToPickUpItem> = match world.wants_to_pickup.get(holder) {
                Some(p) => Some(*p),
                None => None,
            };
            if let Some(pickup) = pickup {
                if world.entities.is_alive(pickup.item) {
                    world.positions.remove(pickup.item);
                    world.in_backpack.insert(pickup.item, InBackpack { owner: pickup.collected_by });
                    if pickup.collected_by == world.player_entity {
                        let item = Name::lookup(&world.names, pickup.item);
                        let ghost before = world.log.entries@;
                        world.log.entries.push(LogEntry::PickedUp { item });
                        assert(world.log.entries@ =~= old(world).log.entries@ + pickup_notices(
                            *old(world),
                            i as int + 1,
                        ));
                    }
                }
            }
            i = i + 1;
        }
        world.wants_to_pickup.clear();
    }
}

/// Whether live entity `k` drops an item that is still there from a place
/// of its own, given where everything stands now.
pub open spec fn drops(w: World, positions: Map<int, Position>, k: int) -> bool {
    &&& 0 <= k < w.entities.alive@.len()
    &&& w.entities.alive@[k]
    &&& w.wants_to_drop@.contains_key(k)
    &&& positions.contains_key(k)
    &&& w.entities.is_live(w.wants_to_drop@[k].item)
}

/// The positions once the first `n` entities have dropped what they want
/// to: a dropped item lies where the entity that dropped it stands.
pub open spec fn positions_after_drop(w: World, n: int) -> Map<int, Position>
    decreases n,
{
    if n <= 0 {
        w.positions@
    } else {
        let earlier = positions_after_drop(w, n - 1);
        if drops(w, earlier, n - 1) {
            earlier.insert(w.wants_to_drop@[n - 1].item.key(), earlier[n - 1])
        } else {
            earlier
        }
    }
}

/// The backpacks once the first `n` entities have dropped what they want
/// to: a dropped item is in no backpack.
pub open spec fn backpack_after_drop(w: World, n: int) -> Map<int, InBackpack>
    decreases n,
{
    if n <= 0 {
        w.in_backpack@
    } else if drops(w, positions_after_drop(w, n - 1), n - 1) {
        backpack_after_drop(w, n - 1).remove(w.wants_to_drop@[n - 1].item.key())
    } else {
        backpack_after_drop(w, n - 1)
    }
}

/// What the log is told of the drops of the first `n` entities: those that
/// the player makes.
pub open spec fn drop_notices(w: World, n: int) -> Seq<LogEntry>
    decreases n,
{
    if n <= 0 {
        Seq::empty()
    } else if drops(w, positions_after_drop(w, n - 1), n - 1) && n - 1 == w.player_entity.key() {
        drop_notices(w, n - 1).push(
            LogEntry::Dropped { item: name_of(w.names@, w.wants_to_drop@[n - 1].item.key()) },
        )
    } else {
        drop_notices(w, n - 1)
    }
}

/// The system that resolves the intents to drop an item.
pub struct ItemDropSystem {}

impl ItemDropSystem {
    /// What resolving the intents to drop does to the world.
    pub open spec fn ran(pre: World, post: World) -> bool {
        &&& post.wants_to_drop@ == Map::<int, WantsToDropItem>::empty()
        &&& post.positions@ == positions_after_drop(
            pre,
            pre.wants_to_drop.bound(),
        )
        &&& post.in_backpack@ == backpack_after_drop(
            pre,
            pre.wants_to_drop.bound(),
        )
        &&& post.log.entries@ == pre.log.entries@ + drop_notices(
            pre,
            pre.wants_to_drop.bound(),
        )
        &&& post == (World {
            wants_to_drop: post.wants_to_drop,
            positions: post.positions,
            in_backpack: post.in_backpack,
            log: post.log,
            ..pre
        })
    }

    /// Resolves every intent to drop an item: the item leaves the backpack
    /// and lies where the entity that drops it stands. An entity without a
    /// position drops nothing, and an item that no longer exists is passed
    /// over.
    pub fn run(&mut self, world: &mut World)
        ensures
            Self::ran(*old(world), *final(world)),
    {
        let n: usize = world.wants_to_drop.limit();
        let mut i: usize = 0;
        while i < n
            invariant
                i <= n,
                n == old(world).wants_to_drop.bound(),
                world.positions@ == positions_after_drop(*old(world), i as int),
                world.in_backpack@ == backpack_after_drop(*old(world), i as int),
                world.log.entries@ == old(world).log.entries@ + drop_notices(*old(world), i as int),
                *world == (World {
                    positions: world.positions,
                    in_backpack: world.in_backpack,
                    log: world.log,
                    ..*old(world)
                }),
            decreases n - i,
        {
            let entity = Entity { id: i };
            let to_drop: Option<WantsToDropItem> = match world.wants_to_drop.get(entity) {
                Some(d) => Some(*d),
                None => None,
            };
            let dropper_pos: Option<Position> = match world.positions.get(entity) {
                Some(p) => Some(*p),
                None => None,
            };
            if world.entities.is_alive(entity) && to_drop.is_some() && dropper_pos.is_some() {
                let item = to_drop.unwrap().item;
                let place = dropper_pos.unwrap();
                if world.entities.is_alive(item) {
                    world.positions.insert(item, Position { x: place.x, y: place.y });
                    world.in_backpack.remove(item);
                    if entity == world.player_entity {
                        let name = Name::lookup(&world.names, item);
                        world.log.entries.push(LogEntry::Dropped { item: name });
                        assert(world.log.entries@ =~= old(world).log.entries@ + drop_notices(
                            *old(world),
                            i as int + 1,
                        ));
                    }
                }
            }
            i = i + 1;
        }
        world.wants_to_drop.clear();
    }
}

/// Whether live entity `k` takes off an item that is still there.
pub open spec fn takes_off(w: World, k: int) -> bool {
    &&& 0 <= k < w.entities.alive@.len()
    &&& w.entities.alive@[k]
    &&& w.wants_to_remove@.contains_key(k)
    &&& w.entities.is_live(w.wants_to_remove@[k].item)
}

/// What is worn once the first `n` entities have taken off what they want
/// to.
pub open spec fn equipped_after_removal(w: World, n: int) -> Map<int, Equipped>
    decreases n,
{
    if n <= 0 {
        w.equipped@
    } else if takes_off(w, n - 1) {
        equipped_after_removal(w, n - 1).remove(w.wants_to_remove@[n - 1].item.key())
    } else {
        equipped_after_removal(w, n - 1)
    }
}

/// The backpacks once the first `n` entities have taken off what they want
/// to: what is taken off is carried by the entity that took it off.
pub open spec fn backpack_after_removal(w: World, n: int) -> Map<int, InBackpack>
    decreases n,
{
    if n <= 0 {
        w.in_backpack@
    } else if takes_off(w, n - 1) {
        backpack_after_removal(w, n - 1).insert(
            w.wants_to_remove@[n - 1].item.key(),
            InBackpack { owner: Entity { id: (n - 1) as usize } },
        )
    } else {
        backpack_after_removal(w, n - 1)
    }
}

/// The system that resolves the intents to take off an item.
pub struct EquipmentRemoveSystem {}

impl EquipmentRemoveSystem {
    /// What resolving the intents to take off does to the world.
    pub open spec fn ran(pre: World, post: World) -> bool {
        &&& post.wants_to_remove@ == Map::<int, WantsToRemoveEquipment>::empty()
        &&& post.equipped@ == equipped_after_removal(
            pre,
            pre.wants_to_remove.bound(),
        )
        &&& post.in_backpack@ == backpack_after_removal(
            pre,
            pre.wants_to_remove.bound(),
        )
        &&& post == (World {
            wants_to_remove: post.wants_to_remove,
            equipped: post.equipped,
            in_backpack: post.in_backpack,
            ..pre
        })
    }

    /// Resolves every intent to take off an item: the item is worn no
    /// longer and enters the backpack of the entity that took it off. An
    /// item that no longer exists is passed over.
    pub fn run(&mut self, world: &mut World)
        ensures
            Self::ran(*old(world), *final(world)),
    {
        let n: usize = world.wants_to_remove.limit();
        let mut i: usize = 0;
        while i < n
            invariant
                i <= n,
                n == old(world).wants_to_remove.bound(),
                world.equipped@ == equipped_after_removal(*old(world), i as int),
                world.in_backpack@ == backpack_after_removal(*old(world), i as int),
                *world == (World {
                    equipped: world.equipped,
                    in_backpack: world.in_backpack,
                    ..*old(world)
                }),
            decreases n - i,
        {
            let entity = Entity { id: i };
            let to_remove: Option<WantsToRemoveEquipment> = match world.wants_to_remove.get(entity) {
                Some(r) => Some(*r),
                None => None,
            };
            if world.entities.is_alive(entity) && to_remove.is_some() {
                let item = to_remove.unwrap().item;
                if world.entities.is_alive(item) {
                    world.equipped.remove(item);
                    world.in_backpack.insert(item, InBackpack { owner: entity });
                }
            }
            i = i + 1;
        }
        world.wants_to_remove.clear();
    }
}

/// The stats of an entity healed by `amount`: its health rises by that
/// much, but not above its maximum.
pub open spec fn healed(stats: CombatStats, amount: i32) -> CombatStats {
    CombatStats {
        hp: clamp_i32(
            if stats.hp + amount < stats.max_hp {
                stats.hp + amount
            } else {
                stats.max_hp as int
            },
        ),
        ..stats
    }
}

/// The stats once every target that has stats is healed by `amount`, one
/// target after the other.
pub open spec fn heal_all(stats: Map<int, CombatStats>, targets: Seq<Entity>, amount: i32) -> Map<
    int,
    CombatStats,
>
    decreases targets.len(),
{
    if targets.len() == 0 {
        stats
    } else {
        let earlier = heal_all(stats, targets.drop_last(), amount);
        let t = targets.last().key();
        if stats.contains_key(t) {
            earlier.insert(t, healed(earlier[t], amount))
        } else {
            earlier
        }
    }
}

/// One notice for each target that is healed.
pub open spec fn heal_notices(
    stats: Map<int, CombatStats>,
    targets: Seq<Entity>,
    item: Option<String>,
    amount: i32,
) -> Seq<LogEntry>
    decreases targets.len(),
{
    if targets.len() == 0 {
        Seq::empty()
    } else if stats.contains_key(targets.last().key()) {
        heal_notices(stats, targets.drop_last(), item, amount).push(
            LogEntry::Healed { item, amount },
        )
    } else {
        heal_notices(stats, targets.drop_last(), item, amount)
    }
}

/// Whether one of the targets has combat stats.
pub open spec fn any_with_stats(stats: Map<int, CombatStats>, targets: Seq<Entity>) -> bool {
    exists|j: int| 0 <= j < targets.len() && stats.contains_key((#[trigger] targets[j]).key())
}

/// Whether `e` is alive according to `alive`.
pub open spec fn lives(alive: Seq<bool>, e: Entity) -> bool {
    e.id < alive.len() && alive[e.key()]
}

/// Whether one of the targets is alive.
pub open spec fn any_alive(alive: Seq<bool>, targets: Seq<Entity>) -> bool {
    exists|j: int| 0 <= j < targets.len() && lives(alive, #[trigger] targets[j])
}

/// What waits on each entity once every living target has been dealt
/// `amount`, one target after the other. Earlier damage stays.
pub open spec fn hurt_all(
    damage: Map<int, Seq<i32>>,
    alive: Seq<bool>,
    targets: Seq<Entity>,
    amount: i32,
) -> Map<int, Seq<i32>>
    decreases targets.len(),
{
    if targets.len() == 0 {
        damage
    } else {
        let earlier = hurt_all(damage, alive, targets.drop_last(), amount);
        let t = targets.last().key();
        if lives(alive, targets.last()) {
            earlier.insert(
                t,
                if earlier.contains_key(t) {
                    earlier[t].push(amount)
                } else {
                    seq![amount]
                },
            )
        } else {
            earlier
        }
    }
}

/// One notice for each living target that is dealt damage.
pub open spec fn hurt_notices(
    alive: Seq<bool>,
    names: Map<int, Name>,
    targets: Seq<Entity>,
    item: Option<String>,
    amount: i32,
) -> Seq<LogEntry>
    decreases targets.len(),
{
    if targets.len() == 0 {
        Seq::empty()
    } else if lives(alive, targets.last()) {
        hurt_notices(alive, names, targets.drop_last(), item, amount).push(
            LogEntry::Damaged { item, target: name_of(names, targets.last().key()), amount },
        )
    } else {
        hurt_notices(alive, names, targets.drop_last(), item, amount)
    }
}

/// Who is confused once every living target has been confused for `turns`
/// turns.
pub open spec fn confuse_all(
    confusion: Map<int, Confusion>,
    alive: Seq<bool>,
    targets: Seq<Entity>,
    turns: i32,
) -> Map<int, Confusion>
    decreases targets.len(),
{
    if targets.len() == 0 {
        confusion
    } else if lives(alive, targets.last()) {
        confuse_all(confusion, alive, targets.drop_last(), turns).insert(
            targets.last().key(),
            Confusion { turns },
        )
    } else {
        confuse_all(confusion, alive, targets.drop_last(), turns)
    }
}

/// One notice for each living target that is confused.
pub open spec fn confuse_notices(
    alive: Seq<bool>,
    names: Map<int, Name>,
    targets: Seq<Entity>,
    item: Option<String>,
) -> Seq<LogEntry>
    decreases targets.len(),
{
    if targets.len() == 0 {
        Seq::empty()
    } else if lives(alive, targets.last()) {
        confuse_notices(alive, names, targets.drop_last(), item).push(
            LogEntry::Confused { item, target: name_of(names, targets.last().key()) },
        )
    } else {
        confuse_notices(alive, names, targets.drop_last(), item)
    }
}

/// The living items that `owner` wears in `slot`.
pub open spec fn worn_in(
    equipped: Map<int, Equipped>,
    alive: Seq<bool>,
    owner: Entity,
    slot: EquipmentSlot,
) -> Set<int> {
    Set::new(
        |k: int|
            0 <= k < alive.len() && alive[k] && equipped.contains_key(k) && equipped[k].owner
                == owner && equipped[k].slot == slot,
    )
}

/// Those of the items that `owner` wears in `slot` whose identity is below
/// `n`.
pub open spec fn worn_below(
    equipped: Map<int, Equipped>,
    alive: Seq<bool>,
    owner: Entity,
    slot: EquipmentSlot,
    n: int,
) -> Set<int> {
    Set::new(|k: int| k < n && worn_in(equipped, alive, owner, slot).contains(k))
}

/// What is worn once `owner` has put `item` on in `slot`: whatever the
/// owner wore there is taken off, and the item takes its place.
pub open spec fn equipped_after_equip(
    equipped: Map<int, Equipped>,
    alive: Seq<bool>,
    item: int,
    owner: Entity,
    slot: EquipmentSlot,
) -> Map<int, Equipped> {
    equipped.remove_keys(worn_in(equipped, alive, owner, slot)).insert(
        item,
        Equipped { owner, slot },
    )
}

/// The backpacks once the items in `taken_off` have gone back to `owner`.
pub open spec fn backpack_with(
    backpack: Map<int, InBackpack>,
    taken_off: Set<int>,
    owner: Entity,
) -> Map<int, InBackpack> {
    Map::new(
        |k: int| backpack.contains_key(k) || taken_off.contains(k),
        |k: int|
            if taken_off.contains(k) {
                InBackpack { owner }
            } else {
                backpack[k]
            },
    )
}

/// The backpacks once `owner` has put `item` on in `slot`: what the owner
/// wore there returns to the owner's backpack, and the item leaves it.
pub open spec fn backpack_after_equip(
    backpack: Map<int, InBackpack>,
    equipped: Map<int, Equipped>,
    alive: Seq<bool>,
    item: int,
    owner: Entity,
    slot: EquipmentSlot,
) -> Map<int, InBackpack> {
    backpack_with(backpack, worn_in(equipped, alive, owner, slot), owner).remove(item)
}

/// One notice for each living item with identity below `n` that `owner`
/// takes off from `slot`, in the order of the items' identities.
pub open spec fn unequip_notices(
    equipped: Map<int, Equipped>,
    alive: Seq<bool>,
    names: Map<int, Name>,
    owner: Entity,
    slot: EquipmentSlot,
    n: int,
) -> Seq<LogEntry>
    decreases n,
{
    if n <= 0 {
        Seq::empty()
    } else if worn_in(equipped, alive, owner, slot).contains(n - 1) {
        unequip_notices(equipped, alive, names, owner, slot, n - 1).push(
            LogEntry::Unequipped { item: name_of(names, n - 1) },
        )
    } else {
        unequip_notices(equipped, alive, names, owner, slot, n - 1)
    }
}

/// A copy of a name that may be missing.
fn copy_name(name: &Option<String>) -> (r: Option<String>)
    ensures
        r == *name,
{
    match name {
        Some(text) => Some(text.clone()),
        None => None,
    }
}

/// What the use of items changes: health, waiting damage, confusion,
/// what is worn and carried, the items to be removed at the next commit
/// point, and the log.
#[verifier::ext_equal]
pub struct ItemEffects {
    pub stats: Map<int, CombatStats>,
    pub damage: Map<int, Seq<i32>>,
    pub confusion: Map<int, Confusion>,
    pub equipped: Map<int, Equipped>,
    pub backpack: Map<int, InBackpack>,
    pub doomed: Seq<Entity>,
    pub log: Seq<LogEntry>,
}

/// The part of the world that the use of items changes.
pub open spec fn effects_of(w: World) -> ItemEffects {
    ItemEffects {
        stats: w.combat_stats@,
        damage: hits_of(w.suffer_damage@),
        confusion: w.confusion@,
        equipped: w.equipped@,
        backpack: w.in_backpack@,
        doomed: w.entities.doomed@,
        log: w.log.entries@,
    }
}

/// The state after `item` was put on, if it can be worn and there is
/// someone to wear it: the first target.
pub open spec fn after_equip(w: World, s: ItemEffects, item: Entity, targets: Seq<Entity>) -> ItemEffects {
    if w.equippable@.contains_key(item.key()) && targets.len() > 0 {
        let owner = targets[0];
        let slot = w.equippable@[item.key()].slot;
        ItemEffects {
            equipped: equipped_after_equip(s.equipped, w.entities.alive@, item.key(), owner, slot),
            backpack: backpack_after_equip(
                s.backpack,
                s.equipped,
                w.entities.alive@,
                item.key(),
                owner,
                slot,
            ),
            log: s.log + if owner == w.player_entity {
                unequip_notices(
                    s.equipped,
                    w.entities.alive@,
                    w.names@,
                    owner,
                    slot,
                    w.entities.issued(),
                ).push(
                    LogEntry::Equipped { item: name_of(w.names@, item.key()) },
                )
            } else {
                Seq::empty()
            },
            ..s
        }
    } else {
        s
    }
}

/// The state after `item` has healed, if it heals.
pub open spec fn after_heal(
    w: World,
    s: ItemEffects,
    user: int,
    item: Entity,
    targets: Seq<Entity>,
) -> ItemEffects {
    if w.provides_healing@.contains_key(item.key()) {
        let amount = w.provides_healing@[item.key()].heal_amount;
        ItemEffects {
            stats: heal_all(s.stats, targets, amount),
            log: s.log + if user == w.player_entity.key() {
                heal_notices(s.stats, targets, name_of(w.names@, item.key()), amount)
            } else {
                Seq::empty()
            },
            ..s
        }
    } else {
        s
    }
}

/// The state after `item` has done damage, if it does any.
pub open spec fn after_hurt(
    w: World,
    s: ItemEffects,
    user: int,
    item: Entity,
    targets: Seq<Entity>,
) -> ItemEffects {
    if w.inflicts_damage@.contains_key(item.key()) {
        let amount = w.inflicts_damage@[item.key()].damage;
        ItemEffects {
            damage: hurt_all(s.damage, w.entities.alive@, targets, amount),
            log: s.log + if user == w.player_entity.key() {
                hurt_notices(
                    w.entities.alive@,
                    w.names@,
                    targets,
                    name_of(w.names@, item.key()),
                    amount,
                )
            } else {
                Seq::empty()
            },
            ..s
        }
    } else {
        s
    }
}

/// The state after `item` has confused, if it confuses.
pub open spec fn after_confuse(
    w: World,
    s: ItemEffects,
    user: int,
    item: Entity,
    targets: Seq<Entity>,
) -> ItemEffects {
    if s.confusion.contains_key(item.key()) {
        let turns = s.confusion[item.key()].turns;
        ItemEffects {
            confusion: confuse_all(s.confusion, w.entities.alive@, targets, turns),
            log: s.log + if user == w.player_entity.key() {
                confuse_notices(w.entities.alive@, w.names@, targets, name_of(w.names@, item.key()))
            } else {
                Seq::empty()
            },
            ..s
        }
    } else {
        s
    }
}

/// Whether using `item` on `targets` in state `s` takes effect: it heals
/// someone, hurts someone or confuses someone. Putting it on is no such
/// effect.
pub open spec fn takes_effect(w: World, s: ItemEffects, item: Entity, targets: Seq<Entity>) -> bool {
    ||| w.provides_healing@.contains_key(item.key()) && any_with_stats(s.stats, targets)
    ||| w.inflicts_damage@.contains_key(item.key()) && any_alive(w.entities.alive@, targets)
    ||| s.confusion.contains_key(item.key()) && any_alive(w.entities.alive@, targets)
}

/// The state after `user` has used `item` on `targets`: the item is put
/// on, heals, hurts and confuses, in this order and as far as it can do
/// each; and if it took effect and is used up by that, it is marked for
/// removal.
pub open spec fn use_on(
    w: World,
    s: ItemEffects,
    user: int,
    item: Entity,
    targets: Seq<Entity>,
) -> ItemEffects {
    let worn = after_equip(w, s, item, targets);
    let done = after_confuse(
        w,
        after_hurt(w, after_heal(w, worn, user, item, targets), user, item, targets),
        user,
        item,
        targets,
    );
    if takes_effect(w, worn, item, targets) && w.consumables@.contains_key(item.key()) {
        ItemEffects { doomed: done.doomed.push(item), ..done }
    } else {
        done
    }
}

/// The state after live entity `k` has used the item it wants to use, if
/// it wants to use one.
pub open spec fn use_item(w: World, s: ItemEffects, k: int) -> ItemEffects {
    if 0 <= k < w.entities.alive@.len() && w.entities.alive@[k] && w.wants_to_use@.contains_key(k) {
        use_on(
            w,
            s,
            k,
            w.wants_to_use@[k].item,
            targets_of(w, Entity { id: k as usize }, w.wants_to_use@[k]),
        )
    } else {
        s
    }
}

/// The state after the first `n` entities have used their items, in the
/// order of their identities.
pub open spec fn use_items(w: World, n: int) -> ItemEffects
    decreases n,
{
    if n <= 0 {
        effects_of(w)
    } else {
        use_item(w, use_items(w, n - 1), n - 1)
    }
}

/// Whether `post` differs from `pre` in nothing but what the use of items
/// changes, and no entity was born or removed.
pub open spec fn only_effects_differ(pre: World, post: World) -> bool {
    &&& post == (World {
        combat_stats: post.combat_stats,
        suffer_damage: post.suffer_damage,
        confusion: post.confusion,
        equipped: post.equipped,
        in_backpack: post.in_backpack,
        entities: post.entities,
        log: post.log,
        wants_to_use: post.wants_to_use,
        ..pre
    })
    &&& post.entities.alive == pre.entities.alive
}

/// The system that resolves the intents to use an item.
pub struct ItemUseSystem {}

impl ItemUseSystem {
    /// What resolving the intents to use an item does to the world.
    pub open spec fn ran(pre: World, post: World) -> bool {
        &&& effects_of(post) == use_items(pre, pre.wants_to_use.bound())
        &&& post.wants_to_use@ == Map::<int, WantsToUseItem>::empty()
        &&& only_effects_differ(pre, post)
    }

    /// `owner` puts `item` on in `slot`.
    pub fn equip(world: &mut World, item: Entity, owner: Entity, slot: EquipmentSlot)
        ensures
            final(world).equipped@ == equipped_after_equip(
                old(world).equipped@,
                old(world).entities.alive@,
                item.key(),
                owner,
                slot,
            ),
            final(world).in_backpack@ == backpack_after_equip(
                old(world).in_backpack@,
                old(world).equipped@,
                old(world).entities.alive@,
                item.key(),
                owner,
                slot,
            ),
            final(world).log.entries@ == old(world).log.entries@ + if owner == old(world).player_entity {
                unequip_notices(
                    old(world).equipped@,
                    old(world).entities.alive@,
                    old(world).names@,
                    owner,
                    slot,
                    old(world).entities.issued(),
                ).push(LogEntry::Equipped { item: name_of(old(world).names@, item.key()) })
            } else {
                Seq::empty()
            },
            *final(world) == (World {
                equipped: final(world).equipped,
                in_backpack: final(world).in_backpack,
                log: final(world).log,
                ..*old(world)
            }),
    {
        let by_player = owner == world.player_entity;
        let n: usize = world.entities.len();
        let mut k: usize = 0;
        let ghost alive = world.entities.alive@;
        assert(world.equipped@.remove_keys(worn_below(world.equipped@, alive, owner, slot, 0))
            =~= world.equipped@);
        assert(backpack_with(
            world.in_backpack@,
            worn_below(world.equipped@, alive, owner, slot, 0),
            owner,
        ) =~= world.in_backpack@);
        while k < n
            invariant
                k <= n,
                n == alive.len(),
                alive == old(world).entities.alive@,
                by_player == (owner == old(world).player_entity),
                world.equipped@ == old(world).equipped@.remove_keys(
                    worn_below(old(world).equipped@, alive, owner, slot, k as int),
                ),
                world.in_backpack@ == backpack_with(
                    old(world).in_backpack@,
                    worn_below(old(world).equipped@, alive, owner, slot, k as int),
                    owner,
                ),
                world.log.entries@ == old(world).log.entries@ + if by_player {
                    unequip_notices(
                        old(world).equipped@,
                        alive,
                        old(world).names@,
                        owner,
                        slot,
                        k as int,
                    )
                } else {
                    Seq::empty()
                },
                *world == (World {
                    equipped: world.equipped,
                    in_backpack: world.in_backpack,
                    log: world.log,
                    ..*old(world)
                }),
            decreases n - k,
        {
            let worn_item = Entity { id: k };
            let matches: bool = world.entities.is_alive(worn_item) && match world.equipped.get(
                worn_item,
            ) {
                Some(worn) => worn.owner == owner && worn.slot == slot,
                None => false,
            };
            let ghost below = worn_below(old(world).equipped@, alive, owner, slot, k as int);
            let ghost next = worn_below(old(world).equipped@, alive, owner, slot, k as int + 1);
            if matches {
                assert(worn_in(old(world).equipped@, alive, owner, slot).contains(k as int));
                world.equipped.remove(worn_item);
                world.in_backpack.insert(worn_item, InBackpack { owner });
                if by_player {
                    let name = Name::lookup(&world.names, worn_item);
                    world.log.entries.push(LogEntry::Unequipped { item: name });
                    assert(world.log.entries@ =~= old(world).log.entries@ + unequip_notices(
                        old(world).equipped@,
                        alive,
                        old(world).names@,
                        owner,
                        slot,
                        k as int + 1,
                    ));
                }
                assert(next =~= below.insert(k as int));
                assert(world.equipped@ =~= old(world).equipped@.remove_keys(next));
                assert(world.in_backpack@ =~= backpack_with(old(world).in_backpack@, next, owner));
            } else {
                assert(!worn_in(old(world).equipped@, alive, owner, slot).contains(k as int));
                assert(next =~= below);
            }
            k = k + 1;
        }
        proof {
            assert(worn_below(old(world).equipped@, alive, owner, slot, n as int) =~= worn_in(
                old(world).equipped@,
                alive,
                owner,
                slot,
            ));
        }
        world.equipped.insert(item, Equipped { owner, slot });
        world.in_backpack.remove(item);
        if by_player {
            let name = Name::lookup(&world.names, item);
            world.log.entries.push(LogEntry::Equipped { item: name });
            assert(world.log.entries@ =~= old(world).log.entries@ + unequip_notices(
                old(world).equipped@,
                alive,
                old(world).names@,
                owner,
                slot,
                n as int,
            ).push(LogEntry::Equipped { item: name_of(old(world).names@, item.key()) }));
        } else {
            assert(world.log.entries@ =~= old(world).log.entries@ + Seq::<LogEntry>::empty());
        }
    }

    /// Heals every target that has combat stats by `amount`. Tells the log
    /// of each if `tell` is set. Returns whether anyone was healed.
    pub fn heal(
        world: &mut World,
        targets: &Vec<Entity>,
        item: &Option<String>,
        amount: i32,
        tell: bool,
    ) -> (used: bool)
        ensures
            final(world).combat_stats@ == heal_all(old(world).combat_stats@, targets@, amount),
            final(world).log.entries@ == old(world).log.entries@ + if tell {
                heal_notices(old(world).combat_stats@, targets@, *item, amount)
            } else {
                Seq::empty()
            },
            used == any_with_stats(old(world).combat_stats@, targets@),
            *final(world) == (World {
                combat_stats: final(world).combat_stats,
                log: final(world).log,
                ..*old(world)
            }),
    {
        let mut used = false;
        let mut j: usize = 0;
        assert(targets@.take(0) =~= Seq::<Entity>::empty());
        assert(world.log.entries@ =~= old(world).log.entries@ + Seq::<LogEntry>::empty());
        while j < targets.len()
            invariant
                j <= targets@.len(),
                world.combat_stats@.dom() == old(world).combat_stats@.dom(),
                world.combat_stats@ == heal_all(
                    old(world).combat_stats@,
                    targets@.take(j as int),
                    amount,
                ),
                world.log.entries@ == old(world).log.entries@ + if tell {
                    heal_notices(old(world).combat_stats@, targets@.take(j as int), *item, amount)
                } else {
                    Seq::empty()
                },
                used == any_with_stats(old(world).combat_stats@, targets@.take(j as int)),
                *world == (World {
                    combat_stats: world.combat_stats,
                    log: world.log,
                    ..*old(world)
                }),
            decreases targets@.len() - j,
        {
            let target = targets[j];
            let ghost shorter = targets@.take(j as int);
            let ghost longer = targets@.take(j as int + 1);
            let ghost before = world.combat_stats@;
            assert(longer.drop_last() =~= shorter);
            assert(longer.last() == target);
            let mut done = false;
            if let Some(stats) = world.combat_stats.get_mut(target) {
                let raised: i128 = stats.hp as i128 + amount as i128;
                stats.hp = if raised < stats.max_hp as i128 {
                    saturate(raised)
                } else {
                    stats.max_hp
                };
                done = true;
            }
            proof {
                if any_with_stats(old(world).combat_stats@, shorter) {
                    let a = choose|a: int|
                        0 <= a < shorter.len() && old(world).combat_stats@.contains_key(
                            (#[trigger] shorter[a]).key(),
                        );
                    assert(longer[a] == shorter[a]);
                }
                if any_with_stats(old(world).combat_stats@, longer) && !done {
                    let a = choose|a: int|
                        0 <= a < longer.len() && old(world).combat_stats@.contains_key(
                            (#[trigger] longer[a]).key(),
                        );
                    assert(a < j);
                    assert(shorter[a] == longer[a]);
                }
                if done {
                    assert(old(world).combat_stats@.contains_key(longer[j as int].key()));
                    assert(world.combat_stats@.dom() =~= before.dom());
                }
            }
            if done {
                used = true;
                if tell {
                    world.log.entries.push(LogEntry::Healed { item: copy_name(item), amount });
                    assert(world.log.entries@ =~= old(world).log.entries@ + heal_notices(
                        old(world).combat_stats@,
                        longer,
                        *item,
                        amount,
                    ));
                }
            }
            j = j + 1;
        }
        assert(targets@.take(j as int) =~= targets@);
        used
    }

    /// Deals `amount` to every living target, on top of what waits on it.
    /// Tells the log of each if `tell` is set. Returns whether anyone was
    /// hit.
    pub fn hurt(
        world: &mut World,
        targets: &Vec<Entity>,
        item: &Option<String>,
        amount: i32,
        tell: bool,
    ) -> (used: bool)
        ensures
            hits_of(final(world).suffer_damage@) == hurt_all(
                hits_of(old(world).suffer_damage@),
                old(world).entities.alive@,
                targets@,
                amount,
            ),
            final(world).log.entries@ == old(world).log.entries@ + if tell {
                hurt_notices(old(world).entities.alive@, old(world).names@, targets@, *item, amount)
            } else {
                Seq::empty()
            },
            used == any_alive(old(world).entities.alive@, targets@),
            *final(world) == (World {
                suffer_damage: final(world).suffer_damage,
                log: final(world).log,
                ..*old(world)
            }),
    {
        let mut used = false;
        let mut j: usize = 0;
        assert(targets@.take(0) =~= Seq::<Entity>::empty());
        assert(world.log.entries@ =~= old(world).log.entries@ + Seq::<LogEntry>::empty());
        while j < targets.len()
            invariant
                j <= targets@.len(),
                hits_of(world.suffer_damage@) == hurt_all(
                    hits_of(old(world).suffer_damage@),
                    old(world).entities.alive@,
                    targets@.take(j as int),
                    amount,
                ),
                world.log.entries@ == old(world).log.entries@ + if tell {
                    hurt_notices(
                        old(world).entities.alive@,
                        old(world).names@,
                        targets@.take(j as int),
                        *item,
                        amount,
                    )
                } else {
                    Seq::empty()
                },
                used == any_alive(old(world).entities.alive@, targets@.take(j as int)),
                *world == (World {
                    suffer_damage: world.suffer_damage,
                    log: world.log,
                    ..*old(world)
                }),
            decreases targets@.len() - j,
        {
            let target = targets[j];
            let ghost shorter = targets@.take(j as int);
            let ghost longer = targets@.take(j as int + 1);
            let ghost before = world.suffer_damage@;
            assert(longer.drop_last() =~= shorter);
            assert(longer.last() == target);
            let hit: bool = world.entities.is_alive(target);
            proof {
                if any_alive(old(world).entities.alive@, shorter) {
                    let a = choose|a: int|
                        0 <= a < shorter.len() && lives(
                            old(world).entities.alive@,
                            #[trigger] shorter[a],
                        );
                    assert(longer[a] == shorter[a]);
                }
                if any_alive(old(world).entities.alive@, longer) && !hit {
                    let a = choose|a: int|
                        0 <= a < longer.len() && lives(
                            old(world).entities.alive@,
                            #[trigger] longer[a],
                        );
                    assert(a < j);
                    assert(shorter[a] == longer[a]);
                }
                if hit {
                    assert(lives(old(world).entities.alive@, longer[j as int]));
                }
            }
            if hit {
                SufferDamage::new_damage(&mut world.suffer_damage, target, amount);
                assert(pending_damage(before, target.key()).push(amount) =~= if hits_of(
                    before,
                ).contains_key(target.key()) {
                    hits_of(before)[target.key()].push(amount)
                } else {
                    seq![amount]
                });
                used = true;
                if tell {
                    let name = Name::lookup(&world.names, target);
                    world.log.entries.push(
                        LogEntry::Damaged { item: copy_name(item), target: name, amount },
                    );
                    assert(world.log.entries@ =~= old(world).log.entries@ + hurt_notices(
                        old(world).entities.alive@,
                        old(world).names@,
                        longer,
                        *item,
                        amount,
                    ));
                }
            }
            j = j + 1;
        }
        assert(targets@.take(j as int) =~= targets@);
        used
    }

    /// Confuses every living target for `turns` turns, in place of any
    /// confusion it was in. Tells the log of each if `tell` is set. Returns
    /// whether anyone was confused.
    pub fn confuse(
        world: &mut World,
        targets: &Vec<Entity>,
        item: &Option<String>,
        turns: i32,
        tell: bool,
    ) -> (used: bool)
        ensures
            final(world).confusion@ == confuse_all(
                old(world).confusion@,
                old(world).entities.alive@,
                targets@,
                turns,
            ),
            final(world).log.entries@ == old(world).log.entries@ + if tell {
                confuse_notices(old(world).entities.alive@, old(world).names@, targets@, *item)
            } else {
                Seq::empty()
            },
            used == any_alive(old(world).entities.alive@, targets@),
            *final(world) == (World {
                confusion: final(world).confusion,
                log: final(world).log,
                ..*old(world)
            }),
    {
        let mut used = false;
        let mut j: usize = 0;
        assert(targets@.take(0) =~= Seq::<Entity>::empty());
        assert(world.log.entries@ =~= old(world).log.entries@ + Seq::<LogEntry>::empty());
        while j < targets.len()
            invariant
                j <= targets@.len(),
                world.confusion@ == confuse_all(
                    old(world).confusion@,
                    old(world).entities.alive@,
                    targets@.take(j as int),
                    turns,
                ),
                world.log.entries@ == old(world).log.entries@ + if tell {
                    confuse_notices(
                        old(world).entities.alive@,
                        old(world).names@,
                        targets@.take(j as int),
                        *item,
                    )
                } else {
                    Seq::empty()
                },
                used == any_alive(old(world).entities.alive@, targets@.take(j as int)),
                *world == (World { confusion: world.confusion, log: world.log, ..*old(world) }),
            decreases targets@.len() - j,
        {
            let target = targets[j];
            let ghost shorter = targets@.take(j as int);
            let ghost longer = targets@.take(j as int + 1);
            assert(longer.drop_last() =~= shorter);
            assert(longer.last() == target);
            let hit: bool = world.entities.is_alive(target);
            proof {
                if any_alive(old(world).entities.alive@, shorter) {
                    let a = choose|a: int|
                        0 <= a < shorter.len() && lives(
                            old(world).entities.alive@,
                            #[trigger] shorter[a],
                        );
                    assert(longer[a] == shorter[a]);
                }
                if any_alive(old(world).entities.alive@, longer) && !hit {
                    let a = choose|a: int|
                        0 <= a < longer.len() && lives(
                            old(world).entities.alive@,
                            #[trigger] longer[a],
                        );
                    assert(a < j);
                    assert(shorter[a] == longer[a]);
                }
                if hit {
                    assert(lives(old(world).entities.alive@, longer[j as int]));
                }
            }
            if hit {
                world.confusion.insert(target, Confusion { turns });
                used = true;
                if tell {
                    let name = Name::lookup(&world.names, target);
                    world.log.entries.push(LogEntry::Confused { item: copy_name(item), target: name });
                    assert(world.log.entries@ =~= old(world).log.entries@ + confuse_notices(
                        old(world).entities.alive@,
                        old(world).names@,
                        longer,
                        *item,
                    ));
                }
            }
            j = j + 1;
        }
        assert(targets@.take(j as int) =~= targets@);
        used
    }

    /// `user` uses `item` on `targets`.
    pub fn apply(world: &mut World, user: Entity, item: Entity, targets: &Vec<Entity>)
        ensures
            effects_of(*final(world)) == use_on(
                *old(world),
                effects_of(*old(world)),
                user.key(),
                item,
                targets@,
            ),
            only_effects_differ(*old(world), *final(world)),
            final(world).wants_to_use == old(world).wants_to_use,
    {
        let label = Name::lookup(&world.names, item);
        let mine = user == world.player_entity;
        let ghost s0 = effects_of(*world);
        let slot: Option<EquipmentSlot> = match world.equippable.get(item) {
            Some(e) => Some(e.slot),
            None => None,
        };
        if slot.is_some() && targets.len() > 0 {
            ItemUseSystem::equip(world, item, targets[0], slot.unwrap());
        }
        let ghost s1 = effects_of(*world);
        assert(s1 =~= after_equip(*old(world), s0, item, targets@));
        let mut used = false;
        let heal_amount: Option<i32> = match world.provides_healing.get(item) {
            Some(h) => Some(h.heal_amount),
            None => None,
        };
        if let Some(amount) = heal_amount {
            if ItemUseSystem::heal(world, targets, &label, amount, mine) {
                used = true;
            }
        }
        let ghost s2 = effects_of(*world);
        assert(s2 =~= after_heal(*old(world), s1, user.key(), item, targets@));
        let damage: Option<i32> = match world.inflicts_damage.get(item) {
            Some(d) => Some(d.damage),
            None => None,
        };
        if let Some(amount) = damage {
            if ItemUseSystem::hurt(world, targets, &label, amount, mine) {
                used = true;
            }
        }
        let ghost s3 = effects_of(*world);
        assert(s3 =~= after_hurt(*old(world), s2, user.key(), item, targets@));
        let turns: Option<i32> = match world.confusion.get(item) {
            Some(c) => Some(c.turns),
            None => None,
        };
        if let Some(turns) = turns {
            if ItemUseSystem::confuse(world, targets, &label, turns, mine) {
                used = true;
            }
        }
        let ghost s4 = effects_of(*world);
        assert(s4 =~= after_confuse(*old(world), s3, user.key(), item, targets@));
        assert(used == takes_effect(*old(world), s1, item, targets@));
        if used && world.consumables.contains(item) {
            world.entities.delete(item);
        }
        assert(effects_of(*world) =~= use_on(*old(world), s0, user.key(), item, targets@));
    }

    /// Resolves every intent to use an item, one user after the other, and
    /// then forgets all such intents.
    pub fn run(&mut self, world: &mut World)
        requires
            old(world).map.wf(),
        ensures
            Self::ran(*old(world), *final(world)),
    {
        let n: usize = world.wants_to_use.limit();
        let mut i: usize = 0;
        while i < n
            invariant
                i <= n,
                n == old(world).wants_to_use.bound(),
                world.map.wf(),
                effects_of(*world) == use_items(*old(world), i as int),
                only_effects_differ(*old(world), *world),
                world.wants_to_use == old(world).wants_to_use,
            decreases n - i,
        {
            let user = Entity { id: i };
            let intent: Option<WantsToUseItem> = match world.wants_to_use.get(user) {
                Some(u) => Some(*u),
                None => None,
            };
            if world.entities.is_alive(user) && intent.is_some() {
                let intent = intent.unwrap();
                let ghost mid = *world;
                let found = targets(world, user, &intent);
                ItemUseSystem::apply(world, user, intent.item, &found);
                proof {
                    assert(targets_of(mid, user, intent) == targets_of(*old(world), user, intent));
                    assert(use_on(mid, effects_of(mid), i as int, intent.item, found@) == use_on(
                        *old(world),
                        effects_of(mid),
                        i as int,
                        intent.item,
                        found@,
                    ));
                }
            }
            i = i + 1;
        }
        world.wants_to_use.clear();
    }
}

/// Whether no two living items are worn by the same owner in the same
/// slot.
pub open spec fn slots_exclusive(equipped: Map<int, Equipped>, alive: Seq<bool>) -> bool {
    forall|a: int, b: int|
        #![trigger equipped[a], equipped[b]]
        a != b && 0 <= a < alive.len() && alive[a] && 0 <= b < alive.len() && alive[b]
            && equipped.contains_key(a) && equipped.contains_key(b) ==> !(equipped[a].owner
            == equipped[b].owner && equipped[a].slot == equipped[b].slot)
}

/// Putting an item on keeps every slot to one item: what the owner wore
/// in that slot is worn no longer and lies in the owner's backpack, and of
/// the living items only the new one is worn there.
pub proof fn lemma_equip_is_exclusive(
    equipped: Map<int, Equipped>,
    backpack: Map<int, InBackpack>,
    alive: Seq<bool>,
    item: int,
    owner: Entity,
    slot: EquipmentSlot,
)
    requires
        slots_exclusive(equipped, alive),
    ensures
        slots_exclusive(equipped_after_equip(equipped, alive, item, owner, slot), alive),
        worn_in(equipped_after_equip(equipped, alive, item, owner, slot), alive, owner, slot)
            .subset_of(set![item]),
        forall|k: int|
            worn_in(equipped, alive, owner, slot).contains(k) && k != item ==> {
                &&& !equipped_after_equip(equipped, alive, item, owner, slot).contains_key(k)
                &&& #[trigger] backpack_after_equip(
                    backpack,
                    equipped,
                    alive,
                    item,
                    owner,
                    slot,
                ).contains_key(k)
                &&& backpack_after_equip(backpack, equipped, alive, item, owner, slot)[k] == (
                InBackpack { owner })
            },
{
    let after = equipped_after_equip(equipped, alive, item, owner, slot);
    assert forall|a: int, b: int|
        #![trigger after[a], after[b]]
        a != b && 0 <= a < alive.len() && alive[a] && 0 <= b < alive.len() && alive[b]
            && after.contains_key(a) && after.contains_key(b) implies !(after[a].owner
        == after[b].owner && after[a].slot == after[b].slot) by {
        if a != item && b != item {
            assert(equipped[a] == after[a] && equipped[b] == after[b]);
        } else if a == item {
            assert(!worn_in(equipped, alive, owner, slot).contains(b));
        } else {
            assert(!worn_in(equipped, alive, owner, slot).contains(a));
        }
    }
}

/// The use of items keeps every slot to one item.
pub proof fn lemma_use_keeps_slots_exclusive(pre: World, post: World)
    requires
        ItemUseSystem::ran(pre, post),
        slots_exclusive(pre.equipped@, pre.entities.alive@),
    ensures
        slots_exclusive(post.equipped@, post.entities.alive@),
{
    lemma_use_items_exclusive(pre, pre.wants_to_use.bound());
}

proof fn lemma_use_items_exclusive(w: World, n: int)
    requires
        slots_exclusive(w.equipped@, w.entities.alive@),
    ensures
        slots_exclusive(use_items(w, n).equipped, w.entities.alive@),
    decreases n,
{
    if n > 0 {
        lemma_use_items_exclusive(w, n - 1);
        let s = use_items(w, n - 1);
        let k = n - 1;
        if 0 <= k < w.entities.alive@.len() && w.entities.alive@[k]
            && w.wants_to_use@.contains_key(k) {
            let item = w.wants_to_use@[k].item;
            let targets = targets_of(w, Entity { id: k as usize }, w.wants_to_use@[k]);
            if w.equippable@.contains_key(item.key()) && targets.len() > 0 {
                lemma_equip_is_exclusive(
                    s.equipped,
                    s.backpack,
                    w.entities.alive@,
                    item.key(),
                    targets[0],
                    w.equippable@[item.key()].slot,
                );
            }
            assert(use_items(w, n).equipped == after_equip(w, s, item, targets).equipped);
        }
    }
}

/// Taking off equipment keeps every slot to one item.
pub proof fn lemma_removal_keeps_slots_exclusive(pre: World, post: World)
    requires
        EquipmentRemoveSystem::ran(pre, post),
        slots_exclusive(pre.equipped@, pre.entities.alive@),
    ensures
        slots_exclusive(post.equipped@, post.entities.alive@),
{
    lemma_removal_shrinks(pre, pre.wants_to_remove.bound());
    let after = post.equipped@;
    assert forall|a: int, b: int|
        #![trigger after[a], after[b]]
        a != b && 0 <= a < post.entities.alive@.len() && post.entities.alive@[a] && 0 <= b
            < post.entities.alive@.len() && post.entities.alive@[b] && after.contains_key(a)
            && after.contains_key(b) implies !(after[a].owner == after[b].owner && after[a].slot
        == after[b].slot) by {
        assert(pre.equipped@[a] == after[a] && pre.equipped@[b] == after[b]);
    }
}

proof fn lemma_removal_shrinks(w: World, n: int)
    ensures
        forall|k: int|
            #[trigger] equipped_after_removal(w, n).contains_key(k) ==> w.equipped@.contains_key(k)
                && equipped_after_removal(w, n)[k] == w.equipped@[k],
    decreases n,
{
    if n > 0 {
        lemma_removal_shrinks(w, n - 1);
        let earlier = equipped_after_removal(w, n - 1);
        let after = equipped_after_removal(w, n);
        assert forall|k: int| #[trigger] after.contains_key(k) implies w.equipped@.contains_key(k)
            && after[k] == w.equipped@[k] by {
            assert(earlier.contains_key(k));
            assert(after[k] == earlier[k]);
        }
    }
}

/// Removing entities keeps every slot to one item.
pub proof fn lemma_purge_keeps_slots_exclusive(pre: World, post: World, gone: Set<int>)
    requires
        post.purged(pre, gone),
        post.entities.alive@.len() == pre.entities.alive@.len(),
        forall|i: int|
            0 <= i < pre.entities.alive@.len() && #[trigger] post.entities.alive@[i]
                ==> pre.entities.alive@[i],
        slots_exclusive(pre.equipped@, pre.entities.alive@),
    ensures
        slots_exclusive(post.equipped@, post.entities.alive@),
{
    let after = post.equipped@;
    assert forall|a: int, b: int|
        #![trigger after[a], after[b]]
        a != b && 0 <= a < post.entities.alive@.len() && post.entities.alive@[a] && 0 <= b
            < post.entities.alive@.len() && post.entities.alive@[b] && after.contains_key(a)
            && after.contains_key(b) implies !(after[a].owner == after[b].owner && after[a].slot
        == after[b].slot) by {
        assert(pre.equipped@[a] == after[a] && pre.equipped@[b] == after[b]);
    }
}

/// Healing never lifts health above its greatest value, and leaves that
/// value as it is.
pub proof fn lemma_healing_stays_within_max(
    stats: Map<int, CombatStats>,
    targets: Seq<Entity>,
    amount: i32,
)
    ensures
        heal_all(stats, targets, amount).dom() == stats.dom(),
        forall|k: int|
            stats.contains_key(k) ==> (#[trigger] heal_all(stats, targets, amount)[k]).max_hp
                == stats[k].max_hp,
        forall|j: int|
            0 <= j < targets.len() && stats.contains_key((#[trigger] targets[j]).key())
                ==> heal_all(stats, targets, amount)[targets[j].key()].hp <= stats[targets[j].key()].max_hp,
        forall|s: CombatStats| (#[trigger] healed(s, amount)).hp <= s.max_hp,
        forall|s: CombatStats|
            s.hp + amount <= s.max_hp && s.hp + amount >= i32::MIN ==> (#[trigger] healed(
                s,
                amount,
            )).hp == s.hp + amount,
    decreases targets.len(),
{
    if targets.len() > 0 {
        let rest = targets.drop_last();
        lemma_healing_stays_within_max(stats, rest, amount);
        let earlier = heal_all(stats, rest, amount);
        let after = heal_all(stats, targets, amount);
        assert(after.dom() =~= stats.dom());
        assert forall|j: int|
            0 <= j < targets.len() && stats.contains_key(
                (#[trigger] targets[j]).key(),
            ) implies after[targets[j].key()].hp <= stats[targets[j].key()].max_hp by {
            let t = targets[j].key();
            if t != targets.last().key() {
                assert(rest[j] == targets[j]);
                assert(after[t] == earlier[t]);
            }
        }
    }
}

/// Picking up keeps apart what lies on the map and what is carried: where
/// nothing did both before, nothing does both after.
pub proof fn lemma_pickup_keeps_apart(pre: World, post: World)
    requires
        ItemBagSystem::ran(pre, post),
        pre.positions@.dom().disjoint(pre.in_backpack@.dom()),
    ensures
        post.positions@.dom().disjoint(post.in_backpack@.dom()),
{
    lemma_pickups_keep_apart(pre, pre.wants_to_pickup.bound());
}

proof fn lemma_pickups_keep_apart(w: World, n: int)
    requires
        w.positions@.dom().disjoint(w.in_backpack@.dom()),
    ensures
        positions_after_pickup(w, n).dom().disjoint(backpack_after_pickup(w, n).dom()),
    decreases n,
{
    if n > 0 {
        lemma_pickups_keep_apart(w, n - 1);
    }
}

/// Dropping keeps apart what lies on the map and what is carried.
pub proof fn lemma_drop_keeps_apart(pre: World, post: World)
    requires
        ItemDropSystem::ran(pre, post),
        pre.positions@.dom().disjoint(pre.in_backpack@.dom()),
    ensures
        post.positions@.dom().disjoint(post.in_backpack@.dom()),
{
    lemma_drops_keep_apart(pre, pre.wants_to_drop.bound());
}

proof fn lemma_drops_keep_apart(w: World, n: int)
    requires
        w.positions@.dom().disjoint(w.in_backpack@.dom()),
    ensures
        positions_after_drop(w, n).dom().disjoint(backpack_after_drop(w, n).dom()),
    decreases n,
{
    if n > 0 {
        lemma_drops_keep_apart(w, n - 1);
    }
}

/// The use of items keeps apart what is worn and what is carried: what is
/// put on leaves the backpack, and what is taken off for it enters the
/// backpack and is worn no longer.
pub proof fn lemma_use_keeps_worn_from_carried(pre: World, post: World)
    requires
        ItemUseSystem::ran(pre, post),
        pre.equipped@.dom().disjoint(pre.in_backpack@.dom()),
    ensures
        post.equipped@.dom().disjoint(post.in_backpack@.dom()),
{
    lemma_uses_keep_worn_from_carried(pre, pre.wants_to_use.bound());
}

proof fn lemma_uses_keep_worn_from_carried(w: World, n: int)
    requires
        w.equipped@.dom().disjoint(w.in_backpack@.dom()),
    ensures
        use_items(w, n).equipped.dom().disjoint(use_items(w, n).backpack.dom()),
    decreases n,
{
    if n > 0 {
        lemma_uses_keep_worn_from_carried(w, n - 1);
        let s = use_items(w, n - 1);
        let k = n - 1;
        if 0 <= k < w.entities.alive@.len() && w.entities.alive@[k]
            && w.wants_to_use@.contains_key(k) {
            let item = w.wants_to_use@[k].item;
            let targets = targets_of(w, Entity { id: k as usize }, w.wants_to_use@[k]);
            let worn = after_equip(w, s, item, targets);
            assert(use_items(w, n).equipped == worn.equipped);
            assert(use_items(w, n).backpack == worn.backpack);
        }
    }
}

/// Taking off equipment keeps apart what is worn and what is carried.
pub proof fn lemma_removal_keeps_worn_from_carried(pre: World, post: World)
    requires
        EquipmentRemoveSystem::ran(pre, post),
        pre.equipped@.dom().disjoint(pre.in_backpack@.dom()),
    ensures
        post.equipped@.dom().disjoint(post.in_backpack@.dom()),
{
    lemma_removals_keep_worn_from_carried(pre, pre.wants_to_remove.bound());
}

proof fn lemma_removals_keep_worn_from_carried(w: World, n: int)
    requires
        w.equipped@.dom().disjoint(w.in_backpack@.dom()),
    ensures
        equipped_after_removal(w, n).dom().disjoint(backpack_after_removal(w, n).dom()),
    decreases n,
{
    if n > 0 {
        lemma_removals_keep_worn_from_carried(w, n - 1);
    }
}

} // verus!
