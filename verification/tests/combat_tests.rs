use roguelike::{
    delete_the_dead, CombatStats, DamageSystem, Entity, LogEntry, MeleeCombatSystem, Name, Player,
    RunState, SufferDamage, WantsToMelee, World,
};

fn fighter(w: &mut World, hp: i32, defense: i32, power: i32) -> Entity {
    let e = w.create_entity();
    w.combat_stats.insert(e, CombatStats { max_hp: 30, hp, defense, power });
    e
}

#[test]
fn melee_damage_is_power_less_defense() {
    let mut w = World::new();
    let attacker = fighter(&mut w, 30, 0, 5);
    let defender = fighter(&mut w, 30, 2, 0);
    w.wants_to_melee.insert(attacker, WantsToMelee { target: defender });
    MeleeCombatSystem {}.run(&mut w);
    assert_eq!(w.suffer_damage.get(defender).unwrap().amount, vec![3]);
    assert!(!w.wants_to_melee.contains(attacker));
    DamageSystem {}.run(&mut w);
    assert_eq!(w.combat_stats.get(defender).unwrap().hp, 27);
    assert_eq!(w.combat_stats.get(attacker).unwrap().hp, 30);
    assert!(!w.suffer_damage.contains(defender));
}

#[test]
fn melee_that_cannot_hurt_does_nothing() {
    let mut w = World::new();
    let attacker = fighter(&mut w, 30, 0, 1);
    let defender = fighter(&mut w, 30, 5, 0);
    w.wants_to_melee.insert(attacker, WantsToMelee { target: defender });
    MeleeCombatSystem {}.run(&mut w);
    assert!(!w.suffer_damage.contains(defender));
    assert!(!w.wants_to_melee.contains(attacker));
    DamageSystem {}.run(&mut w);
    assert_eq!(w.combat_stats.get(defender).unwrap().hp, 30);
}

#[test]
fn melee_damage_formula_values() {
    let a = CombatStats { max_hp: 1, hp: 1, defense: 0, power: 5 };
    let d = CombatStats { max_hp: 1, hp: 1, defense: 2, power: 0 };
    assert_eq!(MeleeCombatSystem::damage(&a, &d), 3);
    assert_eq!(MeleeCombatSystem::damage(&d, &a), 0);
    let strong = CombatStats { max_hp: 1, hp: 1, defense: 0, power: i32::MAX };
    let weak = CombatStats { max_hp: 1, hp: 1, defense: i32::MIN, power: 0 };
    assert_eq!(MeleeCombatSystem::damage(&strong, &weak), i32::MAX);
    assert_eq!(MeleeCombatSystem::damage(&a, &a), 5);
}

#[test]
fn several_attackers_accumulate_on_one_defender() {
    let mut w = World::new();
    let a = fighter(&mut w, 30, 0, 4);
    let b = fighter(&mut w, 30, 0, 7);
    let defender = fighter(&mut w, 30, 1, 0);
    SufferDamage::new_damage(&mut w.suffer_damage, defender, 2);
    w.wants_to_melee.insert(b, WantsToMelee { target: defender });
    w.wants_to_melee.insert(a, WantsToMelee { target: defender });
    MeleeCombatSystem {}.run(&mut w);
    assert_eq!(w.suffer_damage.get(defender).unwrap().amount, vec![2, 3, 6]);
    DamageSystem {}.run(&mut w);
    assert_eq!(w.combat_stats.get(defender).unwrap().hp, 19);
}

#[test]
fn an_attack_on_someone_who_is_gone_does_nothing() {
    let mut w = World::new();
    let attacker = fighter(&mut w, 30, 0, 5);
    let defender = fighter(&mut w, 30, 0, 0);
    w.delete_entity(defender);
    w.wants_to_melee.insert(attacker, WantsToMelee { target: defender });
    MeleeCombatSystem {}.run(&mut w);
    assert!(!w.suffer_damage.contains(defender));
    assert!(!w.wants_to_melee.contains(attacker));
}

#[test]
fn damage_is_summed_and_cleared_even_where_unused() {
    let mut w = World::new();
    let hurt = fighter(&mut w, 10, 0, 0);
    let bystander = w.create_entity();
    SufferDamage::new_damage(&mut w.suffer_damage, hurt, 4);
    SufferDamage::new_damage(&mut w.suffer_damage, hurt, 9);
    SufferDamage::new_damage(&mut w.suffer_damage, bystander, 5);
    DamageSystem {}.run(&mut w);
    assert_eq!(w.combat_stats.get(hurt).unwrap().hp, -3);
    assert_eq!(w.combat_stats.get(hurt).unwrap().max_hp, 30);
    assert!(!w.suffer_damage.contains(hurt));
    assert!(!w.suffer_damage.contains(bystander));
}

#[test]
fn damage_saturates_at_the_ends_of_the_range() {
    let mut w = World::new();
    let e = fighter(&mut w, i32::MIN + 1, 0, 0);
    SufferDamage::new_damage(&mut w.suffer_damage, e, 5);
    DamageSystem {}.run(&mut w);
    assert_eq!(w.combat_stats.get(e).unwrap().hp, i32::MIN);
}

#[test]
fn the_dead_are_swept_once_and_a_second_sweep_is_harmless() {
    let mut w = World::new();
    let dead = fighter(&mut w, -3, 0, 0);
    w.names.insert(dead, Name { value: "Orc".to_string() });
    let alive = fighter(&mut w, 1, 0, 0);
    let zero = fighter(&mut w, 0, 0, 0);
    delete_the_dead(&mut w);
    assert!(!w.entities.is_alive(dead));
    assert!(!w.combat_stats.contains(dead));
    assert!(!w.names.contains(dead));
    assert!(!w.entities.is_alive(zero));
    assert!(w.entities.is_alive(alive));
    assert_eq!(w.log.entries, vec![LogEntry::Died { name: "Orc".to_string() }]);
    let alive_before = w.entities.alive.clone();
    delete_the_dead(&mut w);
    assert_eq!(w.entities.alive, alive_before);
    assert_eq!(w.log.entries.len(), 1);
    assert!(w.entities.is_alive(alive));
    assert_eq!(w.combat_stats.get(alive).unwrap().hp, 1);
}

#[test]
fn a_dead_player_ends_the_game_and_is_not_removed() {
    let mut w = World::new();
    w.run_state = RunState::AwaitingInput;
    let hero = fighter(&mut w, 0, 0, 0);
    w.players.insert(hero, Player {});
    w.player_entity = hero;
    let orc = fighter(&mut w, -1, 0, 0);
    delete_the_dead(&mut w);
    assert!(w.entities.is_alive(hero));
    assert!(w.combat_stats.contains(hero));
    assert!(!w.entities.is_alive(orc));
    assert_eq!(w.run_state, RunState::GameOver);
    assert_eq!(w.log.entries, vec![LogEntry::PlayerDied]);
}

#[test]
fn without_dead_the_run_state_stays() {
    let mut w = World::new();
    w.run_state = RunState::MonsterTurn;
    let hero = fighter(&mut w, 5, 0, 0);
    w.players.insert(hero, Player {});
    delete_the_dead(&mut w);
    assert_eq!(w.run_state, RunState::MonsterTurn);
    assert!(w.log.entries.is_empty());
}
