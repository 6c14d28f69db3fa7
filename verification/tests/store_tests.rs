use roguelike::arith::{saturate, sum};
use roguelike::{CombatStats, Entities, Entity, Name, Position, Storage, SufferDamage, World};

#[test]
fn storage_insert_get_remove() {
    let mut s: Storage<Position> = Storage::new();
    let e = Entity { id: 3 };
    assert!(s.get(e).is_none());
    assert!(!s.contains(e));
    assert_eq!(s.insert(e, Position { x: 1, y: 2 }), None);
    assert_eq!(s.limit(), 4);
    assert_eq!(s.get(e), Some(&Position { x: 1, y: 2 }));
    assert_eq!(s.insert(e, Position { x: 5, y: 6 }), Some(Position { x: 1, y: 2 }));
    assert!(s.contains(e));
    assert!(!s.contains(Entity { id: 2 }));
    assert_eq!(s.remove(e), Some(Position { x: 5, y: 6 }));
    assert_eq!(s.remove(e), None);
    assert_eq!(s.remove(Entity { id: 100 }), None);
    assert!(!s.contains(e));
}

#[test]
fn storage_get_mut_changes_in_place() {
    let mut s: Storage<CombatStats> = Storage::new();
    let e = Entity { id: 0 };
    assert!(s.get_mut(e).is_none());
    s.insert(e, CombatStats { max_hp: 10, hp: 10, defense: 0, power: 1 });
    if let Some(stats) = s.get_mut(e) {
        stats.hp = 4;
    }
    assert_eq!(s.get(e).unwrap().hp, 4);
    assert_eq!(s.get(e).unwrap().max_hp, 10);
}

#[test]
fn storage_clear_and_duplicate() {
    let mut s: Storage<Position> = Storage::new();
    s.insert(Entity { id: 1 }, Position { x: 1, y: 1 });
    s.insert(Entity { id: 4 }, Position { x: 4, y: 4 });
    let copy = s.duplicate();
    s.clear();
    assert_eq!(s.limit(), 0);
    assert!(!s.contains(Entity { id: 1 }));
    assert_eq!(copy.get(Entity { id: 1 }), Some(&Position { x: 1, y: 1 }));
    assert_eq!(copy.get(Entity { id: 4 }), Some(&Position { x: 4, y: 4 }));
    assert!(copy.get(Entity { id: 2 }).is_none());
}

#[test]
fn entities_are_created_in_line_and_never_twice() {
    let mut es = Entities::new();
    let a = es.create();
    let b = es.create();
    assert_eq!(a, Entity { id: 0 });
    assert_eq!(b, Entity { id: 1 });
    assert_eq!(es.len(), 2);
    assert!(es.is_alive(a));
    es.kill(a);
    assert!(!es.is_alive(a));
    assert!(es.is_alive(b));
    let c = es.create();
    assert_eq!(c, Entity { id: 2 });
    es.kill(Entity { id: 77 });
    assert!(!es.is_alive(Entity { id: 77 }));
}

#[test]
fn deletion_is_deferred_until_maintain() {
    let mut w = World::new();
    let a = w.create_entity();
    let b = w.create_entity();
    w.positions.insert(a, Position { x: 1, y: 1 });
    w.names.insert(a, Name { value: "a".to_string() });
    w.positions.insert(b, Position { x: 2, y: 2 });
    w.entities.delete(a);
    assert!(w.entities.is_alive(a));
    assert!(w.positions.contains(a));
    w.maintain();
    assert!(!w.entities.is_alive(a));
    assert!(!w.positions.contains(a));
    assert!(!w.names.contains(a));
    assert!(w.entities.is_alive(b));
    assert_eq!(w.positions.get(b), Some(&Position { x: 2, y: 2 }));
    assert!(w.entities.doomed.is_empty());
}

#[test]
fn delete_entity_is_immediate_and_tolerates_the_dead() {
    let mut w = World::new();
    let a = w.create_entity();
    w.combat_stats.insert(a, CombatStats { max_hp: 1, hp: 1, defense: 0, power: 0 });
    assert!(w.delete_entity(a));
    assert!(!w.entities.is_alive(a));
    assert!(!w.combat_stats.contains(a));
    assert!(!w.delete_entity(a));
    assert!(!w.delete_entity(Entity { id: 999 }));
}

#[test]
fn a_fresh_entity_has_no_components() {
    let mut w = World::new();
    w.positions.insert(Entity { id: 0 }, Position { x: 9, y: 9 });
    let a = w.create_entity();
    assert_eq!(a, Entity { id: 0 });
    assert!(!w.positions.contains(a));
}

#[test]
fn new_damage_accumulates() {
    let mut store: Storage<SufferDamage> = Storage::new();
    let victim = Entity { id: 2 };
    SufferDamage::new_damage(&mut store, victim, 3);
    SufferDamage::new_damage(&mut store, victim, 4);
    SufferDamage::new_damage(&mut store, Entity { id: 0 }, 1);
    assert_eq!(store.get(victim).unwrap().amount, vec![3, 4]);
    assert_eq!(store.get(Entity { id: 0 }).unwrap().amount, vec![1]);
    assert!(store.get(Entity { id: 1 }).is_none());
}

#[test]
fn sums_are_exact_and_saturation_is_at_the_ends() {
    assert_eq!(sum(&vec![]), 0);
    assert_eq!(sum(&vec![1, 2, 3]), 6);
    assert_eq!(sum(&vec![i32::MAX, i32::MAX]), 2 * (i32::MAX as i128));
    assert_eq!(sum(&vec![-5, 2]), -3);
    assert_eq!(saturate(7), 7);
    assert_eq!(saturate(-7), -7);
    assert_eq!(saturate(i32::MAX as i128 + 1), i32::MAX);
    assert_eq!(saturate(i32::MIN as i128 - 1), i32::MIN);
}
