use asciiquarium::art::{BUBBLE, FISH_L_MASK, FISH_L_SHAPE, FISH_R_MASK, FISH_R_SHAPE, WATER_SEGMENTS};
use asciiquarium::chance::between;
use asciiquarium::entity::{EntityType, OnDeath};
use asciiquarium::render::Color;
use asciiquarium::scene::{bubble_pops, build_scene, fish_count, seaweed_count, successor};
use asciiquarium::spawn::{
    bubble_body, castle, fish, random_object, repeat_str, seaweed, shark, ship, splat, water, whale, Art, Rate,
    Z_SHARK, Z_TEETH,
};

const OLD_FISH: [&str; 4] = [FISH_R_SHAPE, FISH_R_MASK, FISH_L_SHAPE, FISH_L_MASK];
const CASTLE: [&str; 2] = ["\n |>\n[_]\n", "\n  R\nyyy\n"];
const SPLAT: [&str; 2] = ["\n*\n", "\n* *\n"];
const SHIP: [&str; 4] = ["\n |\n\\_/\n", "\n |\n\\_/\n", "\n y\nwww\n", "\n y\nwww\n"];
const SHARK: [&str; 4] = ["\n??/\\\n?<__(o)>\n", "\n  /\\??\n<(o)__>?\n", "\n  11\n1116111\n", "\n  11\n1116111\n"];
const WHALE: [&str; 11] = [
    "\n  .-----:\n.'  (o) `.\n",
    "\n:-----.\n.' (o)  `.\n",
    "\n  CCCCCCC\nCCC WWW CC\n",
    "\nCCCCCCC\nCC WWW CCC\n",
    "\n\n\n   :\n",
    "\n\n   :\n   :\n",
    "\n  . .\n  -:-\n   :\n",
    "\n  . .\n .-:-.\n   :\n",
    "\n  . .\n'.-:-.`\n'  :  '\n",
    "\n\n .- -.\n;  :  ;\n",
    "\n\n\n;     ;\n",
];
const OLD_MONSTER: [&str; 10] = ["a", "b", "c", "d", "e", "f", "g", "h", "G", "G"];
const NEW_MONSTER: [&str; 6] = ["a", "b", "c", "d", "G", "G"];
const BIG_FISH_1: [&str; 4] = ["\n<(o)_=<\n", "\n>=_(o)>\n", "\n1421166\n", "\n6611241\n"];
const BIG_FISH_2: [&str; 4] = ["\n<o_<\n", "\n>_o>\n", "\n1411\n", "\n1141\n"];

fn art() -> Art<'static> {
    Art {
        water: &WATER_SEGMENTS,
        castle: &CASTLE,
        old_fish: &OLD_FISH,
        new_fish: &OLD_FISH,
        bubble: &BUBBLE,
        splat: &SPLAT,
        ship: &SHIP,
        whale: &WHALE,
        old_monster: &OLD_MONSTER,
        new_monster: &NEW_MONSTER,
        big_fish_1: &BIG_FISH_1,
        big_fish_2: &BIG_FISH_2,
        shark: &SHARK,
    }
}

#[test]
fn whale_has_twelve_frames() {
    let mut rng = rand::thread_rng();
    let v = whale(200, 40, &mut rng, &WHALE);
    assert_eq!(v.len(), 1);
    assert_eq!(v[0].body.frames.len(), 12);
}

#[test]
fn shark_spawns_teeth_and_body() {
    let mut rng = rand::thread_rng();
    let v = shark(200, 40, &mut rng, &SHARK);
    assert_eq!(v.len(), 2);
    assert!(v.iter().any(|e| e.body.etype == EntityType::Teeth));
    assert!(v.iter().any(|e| e.body.etype == EntityType::Shark));
}

#[test]
fn shark_teeth_ride_at_the_mouth() {
    let mut rng = rand::thread_rng();
    for _ in 0..20 {
        let v = shark(200, 40, &mut rng, &SHARK);
        let (t, s) = (&v[0], &v[1]);
        assert_eq!(t.y, s.y + 7);
        assert!(9 <= s.y && s.y < 30);
        assert_eq!(t.body.z, Z_TEETH);
        assert_eq!(s.body.z, Z_SHARK);
        assert_eq!(t.body.frames[0].shape, vec!["*".to_string()]);
        match s.dx {
            Rate::Fixed(2000) => {
                assert_eq!(s.x, -53);
                assert_eq!(t.x, -9);
            }
            Rate::Fixed(-2000) => {
                assert_eq!(s.x, 198);
                assert_eq!(t.x, 207);
            }
            _ => panic!("unexpected shark speed"),
        }
        assert!(t.dx == s.dx);
        assert_eq!(s.body.on_death, OnDeath::RandomObject);
        assert_eq!(t.body.on_death, OnDeath::Nothing);
    }
}

#[test]
fn whale_frames_sit_low_then_spout() {
    let mut rng = rand::thread_rng();
    let e = whale(100, 40, &mut rng, &WHALE).remove(0);
    // The five spoutless frames carry three blank rows above the body.
    for i in 0..5 {
        let f = &e.body.frames[i];
        assert_eq!(f.shape[..3], ["", "", ""]);
        assert_eq!(f.shape.len(), 5);
    }
    let right = e.x == -18;
    let pad = " ".repeat(if right { 11 } else { 1 });
    // Spout stage three: its art starts on a new line, so every spout line
    // follows a break and is indented; the body follows the last one.
    let f = &e.body.frames[7];
    assert_eq!(f.shape[0], format!("{pad}  . ."));
    assert_eq!(f.shape[1], format!("{pad}  -:-"));
    assert_eq!(f.shape[2], format!("{pad}   :"));
    assert_eq!(f.shape.len(), 5);
}

#[test]
fn water_tiles_past_the_right_edge() {
    let v = water(70, &WATER_SEGMENTS);
    assert_eq!(v.len(), 4);
    for (i, e) in v.iter().enumerate() {
        assert_eq!(e.y, 5 + i as i32);
        assert_eq!(e.body.z, 8 - 2 * i as i32);
        assert_eq!(e.body.default_color, Color::DarkCyan);
        // 33-column segments, 70 / 33 + 1 = 3 copies.
        assert_eq!(e.body.frames[0].shape, vec![WATER_SEGMENTS[i].repeat(3)]);
    }
}

#[test]
fn repeat_str_matches_std() {
    assert_eq!(repeat_str("ab", 3), "ababab");
    assert_eq!(repeat_str("ab", 0), "");
}

#[test]
fn castle_sits_in_the_bottom_right_corner() {
    let e = castle(100, 40, &CASTLE);
    assert_eq!((e.x, e.y), (68, 27));
    assert_eq!(e.body.z, 22);
    assert_eq!(e.body.frames[0].shape, vec![" |>".to_string(), "[_]".to_string()]);
    assert_eq!(e.body.default_color, Color::DarkGrey);
}

#[test]
fn seaweed_leans_alternately_and_lives_minutes() {
    let mut rng = rand::thread_rng();
    for _ in 0..30 {
        let e = seaweed(80, 30, 1000, &mut rng);
        let f0 = &e.body.frames[0].shape;
        let f1 = &e.body.frames[1].shape;
        let height = f0.len();
        assert!((3..7).contains(&height));
        assert_eq!(e.y, 30 - height as i32);
        assert!(1 <= e.x && e.x < 79);
        for row in 0..height {
            let odd = (row + 1) % 2 == 1;
            assert_eq!(f1[row], if odd { "(" } else { " )" });
            assert_eq!(f0[row], if odd { " )" } else { "(" });
        }
        let t = e.body.die_tick.unwrap();
        assert!(1000 + 4800 <= t && t < 1000 + 7200);
        assert_eq!(e.body.on_death, OnDeath::Seaweed);
        assert!(e.frame_speed == Rate::Drawn { lo: 250, hi: 300, negate: false });
    }
}

#[test]
fn fish_enter_from_the_side_they_swim_away_from() {
    let mut rng = rand::thread_rng();
    for _ in 0..40 {
        let e = fish(120, 40, true, &mut rng, &OLD_FISH, &OLD_FISH);
        assert!(3 <= e.body.z && e.body.z < 20);
        assert!(9 <= e.y && e.y < 35);
        match e.dx {
            Rate::Drawn { lo: 250, hi: 2250, negate: false } => assert_eq!(e.x, 1 - 6),
            Rate::Drawn { lo: 250, hi: 2250, negate: true } => assert_eq!(e.x, 118),
            _ => panic!("unexpected fish speed"),
        }
        // The eye is white, the mask otherwise coloured at random.
        let eye_row = &e.body.frames[0].mask[2];
        assert!(eye_row.contains('W'));
        assert!(!eye_row.chars().any(|c| c.is_ascii_digit()));
        assert_eq!(e.body.on_death, OnDeath::Fish);
    }
}

#[test]
fn bubble_sits_in_front_of_its_fish() {
    let b = bubble_body(7, &BUBBLE);
    assert_eq!(b.z, 6);
    assert_eq!(b.frames.len(), 5);
    assert_eq!(b.trans, ' ');
    assert!(b.die_offscreen && b.physical);
}

#[test]
fn splat_is_centred_and_brief() {
    let e = splat(10, 10, 5, &SPLAT);
    assert_eq!((e.x, e.y, e.body.z), (6, 8, 3));
    assert_eq!(e.body.die_frame, Some(15));
    assert!(e.frame_speed == Rate::Fixed(250));
}

#[test]
fn ship_sails_at_the_surface() {
    let mut rng = rand::thread_rng();
    for _ in 0..10 {
        let e = ship(90, 30, &mut rng, &SHIP);
        assert_eq!(e.y, 0);
        assert!((e.x == -24 && e.dx == Rate::Fixed(1000)) || (e.x == 88 && e.dx == Rate::Fixed(-1000)));
    }
}

#[test]
fn random_object_brings_exactly_one_special() {
    let mut rng = rand::thread_rng();
    let art = art();
    for _ in 0..40 {
        let v = random_object(150, 40, false, &mut rng, &art);
        let specials = v.iter().filter(|e| e.body.on_death == OnDeath::RandomObject).count();
        assert_eq!(specials, 1);
    }
}

#[test]
fn successor_replaces_like_with_like() {
    let mut rng = rand::thread_rng();
    let art = art();
    assert!(successor(OnDeath::Nothing, 100, 40, true, 0, &mut rng, &art).is_empty());
    let f = successor(OnDeath::Fish, 100, 40, true, 0, &mut rng, &art);
    assert_eq!(f.len(), 1);
    assert_eq!(f[0].body.etype, EntityType::Fish);
    let s = successor(OnDeath::Seaweed, 100, 40, true, 0, &mut rng, &art);
    assert_eq!(s[0].body.etype, EntityType::Seaweed);
    let r = successor(OnDeath::RandomObject, 100, 40, true, 0, &mut rng, &art);
    assert_eq!(r.iter().filter(|e| e.body.on_death == OnDeath::RandomObject).count(), 1);
}

#[test]
fn scene_holds_the_full_cast() {
    let mut rng = rand::thread_rng();
    let art = art();
    // (40 - 9) * 200 / 350 = 17 fish, 200 / 15 = 13 strands.
    let v = build_scene(200, 40, false, 0, &mut rng, &art);
    let count = |t: EntityType| v.iter().filter(|e| e.body.etype == t).count();
    assert_eq!(count(EntityType::Waterline), 4);
    assert_eq!(count(EntityType::Castle), 1);
    assert_eq!(count(EntityType::Seaweed), 13);
    assert_eq!(count(EntityType::Fish), 17);
    assert_eq!(v.iter().filter(|e| e.body.on_death == OnDeath::RandomObject).count(), 1);
    // A short terminal has no room for fish.
    let small = build_scene(30, 8, true, 0, &mut rng, &art);
    assert_eq!(small.iter().filter(|e| e.body.etype == EntityType::Fish).count(), 0);
}

#[test]
fn between_handles_empty_ranges() {
    let mut rng = rand::thread_rng();
    assert_eq!(between(&mut rng, 5, 5), 5);
    assert_eq!(between(&mut rng, 5, 2), 5);
    for _ in 0..50 {
        let r = between(&mut rng, -3, 4);
        assert!((-3..4).contains(&r));
    }
}

#[test]
fn bubbles_pop_at_the_surface() {
    // Four surface rows from row 5: the last is row 8.
    assert!(bubble_pops(8, 4));
    assert!(bubble_pops(-3, 4));
    assert!(!bubble_pops(9, 4));
}

#[test]
fn quotas_follow_the_tank_size() {
    assert_eq!(fish_count(200, 40), 17);
    assert_eq!(fish_count(200, 9), 0);
    assert_eq!(fish_count(200, 3), 0);
    assert_eq!(seaweed_count(200), 13);
    assert_eq!(seaweed_count(14), 0);
}
