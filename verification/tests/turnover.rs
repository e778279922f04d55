use asciiquarium::art::{BUBBLE, FISH_L_MASK, FISH_L_SHAPE, FISH_R_MASK, FISH_R_SHAPE, WATER_SEGMENTS};
use asciiquarium::collide::{aftermath, Outcome};
use asciiquarium::entity::{Body, EntityType, Frame, OnDeath};
use asciiquarium::scene::{blows_bubble, bubble_on_roll, successor, turnover};
use asciiquarium::spawn::Art;

const OLD_FISH: [&str; 4] = [FISH_R_SHAPE, FISH_R_MASK, FISH_L_SHAPE, FISH_L_MASK];

fn fish_only_art() -> Art<'static> {
    Art {
        water: &WATER_SEGMENTS,
        castle: &[],
        old_fish: &OLD_FISH,
        new_fish: &OLD_FISH,
        bubble: &BUBBLE,
        splat: &[],
        ship: &[],
        whale: &[],
        old_monster: &[],
        new_monster: &[],
        big_fish_1: &[],
        big_fish_2: &[],
        shark: &[],
    }
}

fn body(on_death: OnDeath, alive: bool) -> Body {
    let mut b = Body::new(EntityType::Fish, 5, vec![Frame::new("><>", "")]);
    b.on_death = on_death;
    b.alive = alive;
    b
}

#[test]
fn successor_needs_only_the_art_it_reads() {
    let art = fish_only_art();
    let mut rng = rand::thread_rng();
    let f = successor(OnDeath::Fish, 80, 30, true, 0, &mut rng, &art);
    assert_eq!(f.len(), 1);
    assert_eq!(f[0].body.on_death, OnDeath::Fish);
    let s = successor(OnDeath::Seaweed, 80, 30, true, 0, &mut rng, &art);
    assert_eq!(s.len(), 1);
    assert_eq!(s[0].body.on_death, OnDeath::Seaweed);
    assert!(successor(OnDeath::Nothing, 80, 30, true, 0, &mut rng, &art).is_empty());
}

#[test]
fn turnover_keeps_the_living_and_replaces_the_dead() {
    let art = fish_only_art();
    let mut rng = rand::thread_rng();
    let tank = vec![
        body(OnDeath::Fish, true),
        body(OnDeath::Fish, false),
        body(OnDeath::Nothing, false),
        body(OnDeath::Seaweed, true),
        body(OnDeath::Seaweed, false),
        body(OnDeath::Nothing, true),
    ];
    let (kept, fresh) = turnover(&tank, 80, 30, false, 0, &mut rng, &art);
    assert_eq!(kept, vec![0, 3, 5]);
    let acts: Vec<OnDeath> = fresh.iter().map(|s| s.body.on_death).collect();
    assert_eq!(acts, vec![OnDeath::Fish, OnDeath::Seaweed]);
    assert_eq!(fresh[0].body.etype, EntityType::Fish);
    assert_eq!(fresh[1].body.etype, EntityType::Seaweed);
}

#[test]
fn turnover_of_a_quiet_tank_changes_nothing() {
    let art = fish_only_art();
    let mut rng = rand::thread_rng();
    let tank = vec![body(OnDeath::Fish, true), body(OnDeath::Seaweed, true)];
    let (kept, fresh) = turnover(&tank, 80, 30, false, 0, &mut rng, &art);
    assert_eq!(kept, vec![0, 1]);
    assert!(fresh.is_empty());
}

#[test]
fn a_bubble_comes_on_a_roll_of_98_or_99() {
    assert!(!bubble_on_roll(0));
    assert!(!bubble_on_roll(97));
    assert!(bubble_on_roll(98));
    assert!(bubble_on_roll(99));
    let mut rng = rand::thread_rng();
    for _ in 0..200 {
        let (roll, blown) = blows_bubble(&mut rng);
        assert!((0..100).contains(&roll));
        assert_eq!(blown, roll > 97);
    }
}

#[test]
fn aftermath_of_each_outcome() {
    let art: [&str; 2] = ["*", "**"];
    let (lives, s) = aftermath(Outcome::Unharmed, &art);
    assert!(lives && s.is_none());
    let (lives, s) = aftermath(Outcome::Popped, &art);
    assert!(!lives && s.is_none());
    let (lives, s) = aftermath(Outcome::Eaten { x: 20, y: 10, z: 2 }, &art);
    assert!(!lives);
    let s = s.unwrap();
    assert_eq!(s.body.etype, EntityType::Splat);
    assert_eq!((s.x, s.y, s.body.z), (16, 8, 0));
    assert_eq!(s.body.frames.len(), 2);
}

#[test]
fn turnover_builds_each_successor_for_this_tank() {
    let art = fish_only_art();
    let mut rng = rand::thread_rng();
    let tank = vec![body(OnDeath::Fish, false), body(OnDeath::Seaweed, false)];
    let (kept, fresh) = turnover(&tank, 90, 25, true, 0, &mut rng, &art);
    assert!(kept.is_empty());
    assert_eq!(fresh.len(), 2);
    // The new strand stands on the floor of a tank 25 rows high.
    assert!((19..=22).contains(&fresh[1].y));
    // The new fish swims within the water of this tank.
    assert!(fresh[0].y >= 9 && fresh[0].y < 25);
}
