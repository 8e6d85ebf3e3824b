use dungeon_core::combat_system::{DamageSystem, MeleeCombatSystem};
use dungeon_core::components::{CombatStats, Name, Player, WantsToMelee};
use dungeon_core::world::World;

fn named(n: &str) -> Name {
    Name { name: n.to_string() }
}

fn spawn_fighter(w: &mut World, name: &str, stats: CombatStats) -> usize {
    let id = w.spawn();
    w.insert_name(id, named(name));
    w.insert_combat_stats(id, stats);
    id
}

fn one_round(w: &mut World, attacker: usize, target: usize) {
    w.insert_wants_to_melee(attacker, WantsToMelee { target });
    MeleeCombatSystem::run(w);
    DamageSystem::run(w);
    DamageSystem::delete_the_dead(w);
}

fn hp_of(w: &World, e: usize) -> i32 {
    w.combat_stats[e].as_ref().unwrap().hp
}

#[test]
fn melee_round_trip_reduces_hp_by_power_minus_defense() {
    let mut w = World::new();
    let a = spawn_fighter(&mut w, "bruiser", CombatStats { max_hp: 20, hp: 20, defense: 1, power: 3 });
    let t = spawn_fighter(&mut w, "victim", CombatStats { max_hp: 5, hp: 5, defense: 1, power: 1 });
    one_round(&mut w, a, t);
    assert_eq!(hp_of(&w, t), 3);
    one_round(&mut w, a, t);
    assert_eq!(hp_of(&w, t), 1);
    one_round(&mut w, a, t);
    // The third round drops hp below one; the sweep removes the victim.
    assert!(!w.alive[t]);
    assert!(w.combat_stats[t].is_none());
    assert!(w.alive[a]);
}

#[test]
fn protected_entity_survives_the_sweep_at_nonpositive_hp() {
    let mut w = World::new();
    let a = spawn_fighter(&mut w, "bruiser", CombatStats { max_hp: 20, hp: 20, defense: 1, power: 9 });
    let t = spawn_fighter(&mut w, "hero", CombatStats { max_hp: 5, hp: 5, defense: 1, power: 1 });
    w.insert_player(t, Player {});
    one_round(&mut w, a, t);
    assert!(hp_of(&w, t) < 1);
    assert!(w.alive[t]);
}

#[test]
fn zero_damage_creates_no_accumulator_and_leaves_hp_unchanged() {
    let mut w = World::new();
    let a = spawn_fighter(&mut w, "weakling", CombatStats { max_hp: 5, hp: 5, defense: 1, power: 1 });
    let t = spawn_fighter(&mut w, "tank", CombatStats { max_hp: 9, hp: 9, defense: 3, power: 1 });
    w.insert_wants_to_melee(a, WantsToMelee { target: t });
    MeleeCombatSystem::run(&mut w);
    assert!(w.suffer_damage[t].is_none());
    DamageSystem::run(&mut w);
    assert_eq!(hp_of(&w, t), 9);
    assert!(w.alive[t]);
}

#[test]
fn simultaneous_attackers_accumulate_their_entries() {
    let mut w = World::new();
    let a1 = spawn_fighter(&mut w, "first", CombatStats { max_hp: 9, hp: 9, defense: 1, power: 4 });
    let a2 = spawn_fighter(&mut w, "second", CombatStats { max_hp: 9, hp: 9, defense: 1, power: 3 });
    let t = spawn_fighter(&mut w, "victim", CombatStats { max_hp: 9, hp: 9, defense: 1, power: 1 });
    w.insert_wants_to_melee(a1, WantsToMelee { target: t });
    w.insert_wants_to_melee(a2, WantsToMelee { target: t });
    MeleeCombatSystem::run(&mut w);
    assert_eq!(w.suffer_damage[t].as_ref().unwrap().amount, vec![3, 2]);
    DamageSystem::run(&mut w);
    assert_eq!(hp_of(&w, t), 4);
}

#[test]
fn dying_attacker_still_lands_its_queued_blow_before_the_sweep() {
    let mut w = World::new();
    let a = spawn_fighter(&mut w, "glass", CombatStats { max_hp: 3, hp: 0, defense: 1, power: 5 });
    let t = spawn_fighter(&mut w, "victim", CombatStats { max_hp: 5, hp: 5, defense: 1, power: 1 });
    w.insert_wants_to_melee(a, WantsToMelee { target: t });
    MeleeCombatSystem::run(&mut w);
    // An attacker already at zero hit points swings nothing.
    assert!(w.suffer_damage[t].is_none());
}

#[test]
fn pipeline_clears_intents_and_accumulators() {
    let mut w = World::new();
    let a = spawn_fighter(&mut w, "bruiser", CombatStats { max_hp: 20, hp: 20, defense: 1, power: 3 });
    let t = spawn_fighter(&mut w, "victim", CombatStats { max_hp: 5, hp: 5, defense: 1, power: 1 });
    w.insert_wants_to_melee(a, WantsToMelee { target: t });
    MeleeCombatSystem::run(&mut w);
    assert!(w.wants_to_melee.iter().all(|i| i.is_none()));
    assert!(w.suffer_damage[t].is_some());
    DamageSystem::run(&mut w);
    assert!(w.suffer_damage.iter().all(|s| s.is_none()));
}

#[test]
fn new_damage_appends_to_an_existing_accumulator() {
    let mut w = World::new();
    let t = spawn_fighter(&mut w, "victim", CombatStats { max_hp: 9, hp: 9, defense: 0, power: 0 });
    dungeon_core::components::SufferDamage::new_damage(&mut w.suffer_damage, t, 2);
    dungeon_core::components::SufferDamage::new_damage(&mut w.suffer_damage, t, 5);
    assert_eq!(w.suffer_damage[t].as_ref().unwrap().amount, vec![2, 5]);
}
