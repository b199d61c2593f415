use roguelike_core::colors::{desaturated_green, white};
use roguelike_core::fighter::{Ai, DeathCallback, Fighter};
use roguelike_core::game_object::GameObject;
use roguelike_core::messages::{i32_to_string, Messages};

fn player() -> GameObject {
    let mut p = GameObject::new(1, 1, '@', "Player", white(), false);
    p.alive = true;
    p.fighter = Some(Fighter { max_hp: 30, hp: 30, defense: 2, power: 5, on_death: DeathCallback::Player });
    p
}

fn orc(power: i32, defense: i32, hp: i32) -> GameObject {
    let mut o = GameObject::new(2, 1, 'o', "Orc", desaturated_green(), true);
    o.alive = true;
    o.fighter = Some(Fighter { max_hp: hp, hp, defense, power, on_death: DeathCallback::Monster });
    o.ai = Some(Ai::Basic);
    o
}

#[test]
fn attack_applies_power_minus_defense() {
    // power 5 against defense 2 takes exactly 3 hit points
    let mut a = player();
    let mut b = orc(3, 2, 10);
    let mut log = Messages::new();
    a.attack(&mut b, &mut log);
    assert_eq!(b.fighter.unwrap().hp, 7);
    assert_eq!(log.len(), 1);
    assert_eq!(log.get(0).text, "Player attacks Orc for 3 hit points.");
}

#[test]
fn attack_with_low_power_is_deflected() {
    // power 2 against defense 5 leaves the target untouched
    let mut a = player();
    a.fighter = Some(Fighter { max_hp: 30, hp: 30, defense: 2, power: 2, on_death: DeathCallback::Player });
    let mut b = orc(3, 5, 10);
    let mut log = Messages::new();
    a.attack(&mut b, &mut log);
    assert_eq!(b.fighter.unwrap().hp, 10);
    assert!(b.alive);
    assert_eq!(log.len(), 1);
    assert_eq!(
        log.get(0).text,
        "Player attacks Orc but the attack is deflected by Orc's armor."
    );
}

#[test]
fn lethal_damage_fires_the_death_transition() {
    let mut m = orc(3, 0, 1);
    let mut log = Messages::new();
    m.take_damage(1, &mut log);
    assert!(!m.alive);
    assert!(!m.blocks_tile);
    assert!(m.fighter.is_none());
    assert!(m.ai.is_none());
    assert_eq!(m.name, "The remains of Orc");
    assert_eq!(m.char, '%');
    assert_eq!(log.len(), 1);
    assert_eq!(log.get(0).text, "Orc has died!");
}

#[test]
fn a_corpse_takes_no_further_damage() {
    let mut m = orc(3, 0, 1);
    let mut log = Messages::new();
    m.take_damage(1, &mut log);
    let msgs_after_death = log.len();
    // the corpse is inert: more damage changes nothing and logs nothing
    m.take_damage(5, &mut log);
    assert!(!m.alive);
    assert!(m.fighter.is_none());
    assert_eq!(m.name, "The remains of Orc");
    assert_eq!(log.len(), msgs_after_death);
}

#[test]
fn killing_blow_logs_hit_then_death() {
    let mut a = player();
    let mut b = orc(3, 2, 3);
    let mut log = Messages::new();
    a.attack(&mut b, &mut log);
    assert!(b.fighter.is_none());
    assert_eq!(log.len(), 2);
    assert_eq!(log.get(0).text, "Player attacks Orc for 3 hit points.");
    assert_eq!(log.get(1).text, "Orc has died!");
}

#[test]
fn player_death_is_the_same_corpse_transition() {
    let mut p = player();
    let mut log = Messages::new();
    p.take_damage(30, &mut log);
    // the player's corpse is as inert as any other; only the
    // announcements are player-specific
    assert!(!p.alive);
    assert!(!p.blocks_tile);
    assert!(p.fighter.is_none());
    assert!(p.ai.is_none());
    assert_eq!(p.char, '%');
    assert_eq!(p.name, "The remains of Player");
    assert_eq!(log.len(), 2);
    assert_eq!(log.get(0).text, "You died!");
    assert_eq!(log.get(1).text, "Press ESC to QUIT.");
    // dying happens exactly once: more damage changes and logs nothing
    p.take_damage(5, &mut log);
    assert!(p.fighter.is_none());
    assert_eq!(p.name, "The remains of Player");
    assert_eq!(log.len(), 2);
}

#[test]
fn distance_sq_is_the_squared_euclidean_distance() {
    let a = GameObject::new(0, 0, '@', "a", white(), false);
    let b = GameObject::new(3, 4, 'b', "b", white(), false);
    assert_eq!(a.distance_sq(&b), 25);
    assert_eq!(b.distance_sq(&a), 25);
    assert_eq!(a.distance_sq(&a), 0);
}

#[test]
fn decimal_rendering_matches_the_standard_formatter() {
    assert_eq!(i32_to_string(0), "0");
    assert_eq!(i32_to_string(42), "42");
    assert_eq!(i32_to_string(-7), "-7");
    assert_eq!(i32_to_string(1000000), "1000000");
    assert_eq!(i32_to_string(i32::MAX), i32::MAX.to_string());
    assert_eq!(i32_to_string(i32::MIN), i32::MIN.to_string());
}
