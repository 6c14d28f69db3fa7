use roguelike::{
    AreaOfEffect, BlocksTile, CombatStats, Confusion, Consumable, Coord, Entity, EquipmentRemoveSystem,
    EquipmentSlot, Equippable, Equipped, InBackpack, InflictsDamage, Item, ItemBagSystem,
    ItemDropSystem, ItemUseSystem, LogEntry, MapIndexingSystem, Name, Player, Position,
    ProvidesHealing, TileMap, TileType, WantsToDropItem, WantsToPickUpItem,
    WantsToRemoveEquipment, WantsToUseItem, World,
};

fn open_world(size: i32) -> World {
    let mut w = World::new();
    let mut map = TileMap::new(size, size, 1);
    for y in 1..size - 1 {
        for x in 1..size - 1 {
            let idx = map.xy_index(x, y);
            map.tiles[idx] = TileType::Floor;
        }
    }
    w.map = map;
    w
}

fn hero(w: &mut World, x: i32, y: i32, hp: i32, max_hp: i32) -> Entity {
    let e = w.create_entity();
    w.players.insert(e, Player {});
    w.positions.insert(e, Position { x, y });
    w.names.insert(e, Name { value: "Player".to_string() });
    w.combat_stats.insert(e, CombatStats { max_hp, hp, defense: 2, power: 5 });
    w.player_entity = e;
    w.player_pos = Coord { x, y };
    e
}

fn creature(w: &mut World, x: i32, y: i32, name: &str) -> Entity {
    let e = w.create_entity();
    w.positions.insert(e, Position { x, y });
    w.names.insert(e, Name { value: name.to_string() });
    w.blockers.insert(e, BlocksTile {});
    w.combat_stats.insert(e, CombatStats { max_hp: 16, hp: 16, defense: 1, power: 4 });
    e
}

fn carried_item(w: &mut World, owner: Entity, name: &str) -> Entity {
    let e = w.create_entity();
    w.items.insert(e, Item {});
    w.names.insert(e, Name { value: name.to_string() });
    w.in_backpack.insert(e, InBackpack { owner });
    e
}

#[test]
fn healing_never_exceeds_max_hp() {
    let mut w = open_world(10);
    let h = hero(&mut w, 2, 2, 10, 16);
    let potion = carried_item(&mut w, h, "Health Potion");
    w.consumables.insert(potion, Consumable {});
    w.provides_healing.insert(potion, ProvidesHealing { heal_amount: 8 });
    w.wants_to_use.insert(h, WantsToUseItem { item: potion, target: None });
    ItemUseSystem {}.run(&mut w);
    assert_eq!(w.combat_stats.get(h).unwrap().hp, 16);
    assert_eq!(w.combat_stats.get(h).unwrap().max_hp, 16);
    assert!(!w.wants_to_use.contains(h));
    assert_eq!(
        w.log.entries,
        vec![LogEntry::Healed { item: Some("Health Potion".to_string()), amount: 8 }]
    );
    // The potion took effect and is used up: it goes at the commit point.
    assert!(w.entities.is_alive(potion));
    assert_eq!(w.entities.doomed, vec![potion]);
    w.maintain();
    assert!(!w.entities.is_alive(potion));
    assert!(!w.in_backpack.contains(potion));
}

#[test]
fn healing_below_the_maximum_adds_the_full_amount() {
    let mut w = open_world(10);
    let h = hero(&mut w, 2, 2, 3, 30);
    let potion = carried_item(&mut w, h, "Health Potion");
    w.provides_healing.insert(potion, ProvidesHealing { heal_amount: 8 });
    w.wants_to_use.insert(h, WantsToUseItem { item: potion, target: None });
    ItemUseSystem {}.run(&mut w);
    assert_eq!(w.combat_stats.get(h).unwrap().hp, 11);
    // Not a consumable: it stays.
    assert!(w.entities.doomed.is_empty());
}

#[test]
fn area_of_effect_hits_exactly_the_occupants_of_the_blast() {
    let mut w = open_world(20);
    let h = hero(&mut w, 12, 12, 30, 30);
    let near_a = creature(&mut w, 1, 2, "Orc");
    let near_b = creature(&mut w, 2, 1, "Goblin");
    let near_c = creature(&mut w, 3, 3, "Orc");
    let far = creature(&mut w, 10, 10, "Goblin");
    let outside = creature(&mut w, 5, 2, "Goblin");
    let fireball = carried_item(&mut w, h, "Fireball Scroll");
    w.consumables.insert(fireball, Consumable {});
    w.inflicts_damage.insert(fireball, InflictsDamage { damage: 20 });
    w.area_of_effect.insert(fireball, AreaOfEffect { radius: 2 });
    w.wants_to_use
        .insert(h, WantsToUseItem { item: fireball, target: Some(Coord { x: 2, y: 2 }) });
    MapIndexingSystem {}.run(&mut w);
    ItemUseSystem {}.run(&mut w);
    assert_eq!(w.suffer_damage.get(near_a).unwrap().amount, vec![20]);
    assert_eq!(w.suffer_damage.get(near_b).unwrap().amount, vec![20]);
    assert_eq!(w.suffer_damage.get(near_c).unwrap().amount, vec![20]);
    assert!(!w.suffer_damage.contains(far));
    assert!(!w.suffer_damage.contains(outside));
    assert!(!w.suffer_damage.contains(h));
    let hurt = w.suffer_damage.slots.iter().filter(|s| s.is_some()).count();
    assert_eq!(hurt, 3);
    assert_eq!(w.entities.doomed, vec![fireball]);
    assert_eq!(w.log.entries.len(), 3);
}

#[test]
fn a_blast_stops_one_tile_inside_the_border() {
    let mut w = open_world(8);
    let h = hero(&mut w, 5, 5, 30, 30);
    // A creature standing on the border itself is out of reach.
    let on_border = creature(&mut w, 0, 1, "Orc");
    let inside = creature(&mut w, 1, 1, "Orc");
    let bomb = carried_item(&mut w, h, "Bomb");
    w.inflicts_damage.insert(bomb, InflictsDamage { damage: 1 });
    w.area_of_effect.insert(bomb, AreaOfEffect { radius: 3 });
    w.wants_to_use.insert(h, WantsToUseItem { item: bomb, target: Some(Coord { x: 1, y: 1 }) });
    MapIndexingSystem {}.run(&mut w);
    ItemUseSystem {}.run(&mut w);
    assert!(w.suffer_damage.contains(inside));
    assert!(!w.suffer_damage.contains(on_border));
}

#[test]
fn a_targeted_item_without_area_hits_one_tile() {
    let mut w = open_world(10);
    let h = hero(&mut w, 2, 2, 30, 30);
    let victim = creature(&mut w, 4, 4, "Orc");
    let neighbour = creature(&mut w, 5, 4, "Orc");
    let missile = carried_item(&mut w, h, "Magic Missile Scroll");
    w.consumables.insert(missile, Consumable {});
    w.inflicts_damage.insert(missile, InflictsDamage { damage: 8 });
    w.wants_to_use.insert(h, WantsToUseItem { item: missile, target: Some(Coord { x: 4, y: 4 }) });
    MapIndexingSystem {}.run(&mut w);
    ItemUseSystem {}.run(&mut w);
    assert_eq!(w.suffer_damage.get(victim).unwrap().amount, vec![8]);
    assert!(!w.suffer_damage.contains(neighbour));
    assert_eq!(
        w.log.entries,
        vec![LogEntry::Damaged {
            item: Some("Magic Missile Scroll".to_string()),
            target: Some("Orc".to_string()),
            amount: 8
        }]
    );
}

#[test]
fn an_item_without_effect_is_not_used_up() {
    let mut w = open_world(10);
    let h = hero(&mut w, 2, 2, 30, 30);
    let missile = carried_item(&mut w, h, "Magic Missile Scroll");
    w.consumables.insert(missile, Consumable {});
    w.inflicts_damage.insert(missile, InflictsDamage { damage: 8 });
    // Nobody stands on the chosen tile.
    w.wants_to_use.insert(h, WantsToUseItem { item: missile, target: Some(Coord { x: 6, y: 6 }) });
    MapIndexingSystem {}.run(&mut w);
    ItemUseSystem {}.run(&mut w);
    assert!(w.entities.doomed.is_empty());
    assert!(w.suffer_damage.slots.iter().all(|s| s.is_none()));
    assert!(!w.wants_to_use.contains(h));
    // A tile off the map has no occupants either.
    w.wants_to_use.insert(h, WantsToUseItem { item: missile, target: Some(Coord { x: -3, y: 60 }) });
    ItemUseSystem {}.run(&mut w);
    assert!(w.entities.doomed.is_empty());
}

#[test]
fn confusion_is_attached_to_every_target() {
    let mut w = open_world(10);
    let h = hero(&mut w, 2, 2, 30, 30);
    let victim = creature(&mut w, 4, 4, "Orc");
    let scroll = carried_item(&mut w, h, "Confusion Scroll");
    w.consumables.insert(scroll, Consumable {});
    w.confusion.insert(scroll, Confusion { turns: 4 });
    w.confusion.insert(victim, Confusion { turns: 1 });
    w.wants_to_use.insert(h, WantsToUseItem { item: scroll, target: Some(Coord { x: 4, y: 4 }) });
    MapIndexingSystem {}.run(&mut w);
    ItemUseSystem {}.run(&mut w);
    assert_eq!(w.confusion.get(victim), Some(&Confusion { turns: 4 }));
    assert_eq!(w.entities.doomed, vec![scroll]);
    assert_eq!(
        w.log.entries,
        vec![LogEntry::Confused {
            item: Some("Confusion Scroll".to_string()),
            target: Some("Orc".to_string())
        }]
    );
}

#[test]
fn equipping_a_second_weapon_unequips_the_first() {
    let mut w = open_world(10);
    let h = hero(&mut w, 2, 2, 30, 30);
    let dagger = carried_item(&mut w, h, "Dagger");
    w.equippable.insert(dagger, Equippable { slot: EquipmentSlot::Melee });
    let sword = carried_item(&mut w, h, "Longsword");
    w.equippable.insert(sword, Equippable { slot: EquipmentSlot::Melee });
    let shield = carried_item(&mut w, h, "Shield");
    w.equippable.insert(shield, Equippable { slot: EquipmentSlot::Shield });

    w.wants_to_use.insert(h, WantsToUseItem { item: dagger, target: None });
    ItemUseSystem {}.run(&mut w);
    assert_eq!(w.equipped.get(dagger), Some(&Equipped { owner: h, slot: EquipmentSlot::Melee }));
    assert!(!w.in_backpack.contains(dagger));

    w.wants_to_use.insert(h, WantsToUseItem { item: shield, target: None });
    ItemUseSystem {}.run(&mut w);
    assert!(w.equipped.contains(dagger));
    assert!(w.equipped.contains(shield));

    w.wants_to_use.insert(h, WantsToUseItem { item: sword, target: None });
    ItemUseSystem {}.run(&mut w);
    assert!(!w.equipped.contains(dagger));
    assert_eq!(w.in_backpack.get(dagger), Some(&InBackpack { owner: h }));
    assert_eq!(w.equipped.get(sword), Some(&Equipped { owner: h, slot: EquipmentSlot::Melee }));
    assert!(!w.in_backpack.contains(sword));
    assert!(w.equipped.contains(shield));
    let in_melee = w
        .equipped
        .slots
        .iter()
        .filter(|s| matches!(s, Some(e) if e.owner == h && e.slot == EquipmentSlot::Melee))
        .count();
    assert_eq!(in_melee, 1);
    // Putting something on does not use it up.
    assert!(w.entities.doomed.is_empty());
    assert_eq!(
        w.log.entries,
        vec![
            LogEntry::Equipped { item: Some("Dagger".to_string()) },
            LogEntry::Equipped { item: Some("Shield".to_string()) },
            LogEntry::Unequipped { item: Some("Dagger".to_string()) },
            LogEntry::Equipped { item: Some("Longsword".to_string()) },
        ]
    );
}

#[test]
fn pickup_moves_the_item_into_the_backpack() {
    let mut w = open_world(10);
    let h = hero(&mut w, 2, 2, 30, 30);
    let other = creature(&mut w, 3, 3, "Goblin");
    let potion = w.create_entity();
    w.items.insert(potion, Item {});
    w.names.insert(potion, Name { value: "Health Potion".to_string() });
    w.positions.insert(potion, Position { x: 2, y: 2 });
    let rock = w.create_entity();
    w.positions.insert(rock, Position { x: 3, y: 3 });
    w.wants_to_pickup.insert(h, WantsToPickUpItem { collected_by: h, item: potion });
    w.wants_to_pickup.insert(other, WantsToPickUpItem { collected_by: other, item: rock });
    ItemBagSystem {}.run(&mut w);
    assert!(!w.positions.contains(potion));
    assert_eq!(w.in_backpack.get(potion), Some(&InBackpack { owner: h }));
    assert_eq!(w.in_backpack.get(rock), Some(&InBackpack { owner: other }));
    assert!(!w.wants_to_pickup.contains(h));
    assert!(!w.wants_to_pickup.contains(other));
    // Only the player's pickup is told.
    assert_eq!(w.log.entries, vec![LogEntry::PickedUp { item: Some("Health Potion".to_string()) }]);
}

#[test]
fn picking_up_what_is_gone_does_nothing() {
    let mut w = open_world(10);
    let h = hero(&mut w, 2, 2, 30, 30);
    let potion = w.create_entity();
    w.delete_entity(potion);
    w.wants_to_pickup.insert(h, WantsToPickUpItem { collected_by: h, item: potion });
    ItemBagSystem {}.run(&mut w);
    assert!(!w.in_backpack.contains(potion));
    assert!(w.log.entries.is_empty());
    assert!(!w.wants_to_pickup.contains(h));
}

#[test]
fn drop_places_the_item_where_the_dropper_stands() {
    let mut w = open_world(10);
    let h = hero(&mut w, 4, 7, 30, 30);
    let potion = carried_item(&mut w, h, "Health Potion");
    w.wants_to_drop.insert(h, WantsToDropItem { item: potion });
    ItemDropSystem {}.run(&mut w);
    assert_eq!(w.positions.get(potion), Some(&Position { x: 4, y: 7 }));
    assert!(!w.in_backpack.contains(potion));
    assert!(!w.wants_to_drop.contains(h));
    assert_eq!(w.log.entries, vec![LogEntry::Dropped { item: Some("Health Potion".to_string()) }]);
}

#[test]
fn unequip_returns_the_item_to_the_backpack() {
    let mut w = open_world(10);
    let h = hero(&mut w, 4, 7, 30, 30);
    let dagger = w.create_entity();
    w.equipped.insert(dagger, Equipped { owner: h, slot: EquipmentSlot::Melee });
    w.wants_to_remove.insert(h, WantsToRemoveEquipment { item: dagger });
    EquipmentRemoveSystem {}.run(&mut w);
    assert!(!w.equipped.contains(dagger));
    assert_eq!(w.in_backpack.get(dagger), Some(&InBackpack { owner: h }));
    assert!(!w.wants_to_remove.contains(h));
}

#[test]
fn map_indexing_rebuilds_blocked_and_content() {
    let mut w = open_world(6);
    let a = creature(&mut w, 2, 2, "Orc");
    let item = w.create_entity();
    w.positions.insert(item, Position { x: 2, y: 2 });
    let b = creature(&mut w, 3, 4, "Orc");
    let lost = creature(&mut w, 40, 40, "Orc");
    let stale = w.map.xy_index(4, 4);
    w.map.blocked[stale] = true;
    w.map.tile_content[stale].push(a);
    MapIndexingSystem {}.run(&mut w);
    let at = |x: i32, y: i32| (y * 6 + x) as usize;
    assert_eq!(w.map.tile_content[at(2, 2)], vec![a, item]);
    assert_eq!(w.map.tile_content[at(3, 4)], vec![b]);
    assert!(w.map.tile_content[stale].is_empty());
    assert!(w.map.blocked[at(2, 2)]);
    assert!(w.map.blocked[at(3, 4)]);
    assert!(!w.map.blocked[stale]);
    assert!(!w.map.blocked[at(1, 1)]);
    assert!(w.map.blocked[at(0, 0)]);
    assert!(w.map.blocked[at(5, 3)]);
    let listed: usize = w.map.tile_content.iter().map(|c| c.len()).sum();
    assert_eq!(listed, 3);
    assert!(w.entities.is_alive(lost));
}

#[test]
fn an_item_used_without_a_target_works_on_its_user() {
    let mut w = open_world(10);
    let h = hero(&mut w, 2, 2, 10, 30);
    let orc = creature(&mut w, 5, 5, "Orc");
    w.combat_stats.get_mut(orc).unwrap().hp = 4;
    let potion = carried_item(&mut w, orc, "Health Potion");
    w.consumables.insert(potion, Consumable {});
    w.provides_healing.insert(potion, ProvidesHealing { heal_amount: 8 });
    w.wants_to_use.insert(orc, WantsToUseItem { item: potion, target: None });
    ItemUseSystem {}.run(&mut w);
    assert_eq!(w.combat_stats.get(orc).unwrap().hp, 12);
    assert_eq!(w.combat_stats.get(h).unwrap().hp, 10);
    // Only what the player does is told.
    assert!(w.log.entries.is_empty());
    assert_eq!(w.entities.doomed, vec![potion]);
}
