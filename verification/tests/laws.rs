use asciiquarium::art::{BUBBLE, FISH_L_MASK, FISH_L_SHAPE, FISH_R_MASK, FISH_R_SHAPE, WATER_SEGMENTS};
use asciiquarium::control::draw_order;
use asciiquarium::entity::{Body, EntityType, Frame, OnDeath};
use asciiquarium::render::{Color, Screen};
use asciiquarium::scene::{build_scene, successor};
use asciiquarium::spawn::Art;
use asciiquarium::text::{perl_split_nl, split_newlines};

#[test]
fn split_then_join_gives_the_text_back() {
    for s in ["", "a", "\n", "a\n\nb", "x\ny\n", "\n\n\n"] {
        assert_eq!(split_newlines(s).join("\n"), s);
    }
}

#[test]
fn perl_split_rejoins_without_trailing_newlines() {
    for s in ["a\nb\n\n", "\n\n   :\n", "\n\n", "a", ""] {
        let parts = perl_split_nl(s);
        if let Some(last) = parts.last() {
            assert!(!last.is_empty());
        }
        assert_eq!(parts.join("\n"), s.trim_end_matches('\n'));
    }
}

#[test]
fn occupied_cells_are_where_the_frame_draws() {
    let mut b = Body::new(EntityType::Fish, 4, vec![Frame::new(FISH_R_SHAPE, FISH_R_MASK)]);
    b.auto_trans = true;
    let f = b.current(0);
    let mut s = Screen::new(20, 10);
    s.blit(3, 2, &f.shape, &f.mask, Color::White, b.auto_trans, b.trans);
    let cells = b.cells(0, 3, 2);
    for &(x, y) in &cells {
        let c = s.cell_at(x as u16, y as u16);
        let glyph = f.shape[(y - 2) as usize].chars().nth((x - 3) as usize).unwrap();
        assert_eq!(c.ch, glyph);
        assert_ne!(c.ch, ' ');
    }
    for y in 0..10u16 {
        for x in 0..20u16 {
            if !cells.contains(&(x as i32, y as i32)) {
                assert_eq!(s.cell_at(x, y).ch, ' ');
            }
        }
    }
}

#[test]
fn lower_z_lands_on_top() {
    let deep = Body::new(EntityType::Castle, 22, vec![Frame::new("###", "")]);
    let near = Body::new(EntityType::Fish, 3, vec![Frame::new("><", "")]);
    let mid = Body::new(EntityType::Seaweed, 21, vec![Frame::new(" (", "")]);
    let bodies = [near, deep, mid];
    let zs: Vec<i32> = bodies.iter().map(|b| b.z).collect();
    let mut s = Screen::new(3, 1);
    for i in draw_order(&zs) {
        let f = bodies[i].current(0);
        s.blit(0, 0, &f.shape, &f.mask, Color::Reset, false, ' ');
    }
    assert_eq!(s.to_text(), "><#");
}

const OLD_FISH: [&str; 4] = [FISH_R_SHAPE, FISH_R_MASK, FISH_L_SHAPE, FISH_L_MASK];
const CASTLE: [&str; 2] = ["\n[_]\n", ""];
const SPLAT: [&str; 1] = ["*"];
const FOUR: [&str; 4] = ["\n<o>\n", "\n<o>\n", "", ""];
const WHALE: [&str; 11] = ["\n(o)\n", "\n(o)\n", "", "", ":", ":", ":", ":", ":", ":", ":"];
const OLD_MONSTER: [&str; 10] = ["a", "b", "c", "d", "e", "f", "g", "h", "", ""];
const NEW_MONSTER: [&str; 6] = ["a", "b", "c", "d", "", ""];

#[test]
fn the_tank_always_holds_one_special() {
    let art = Art {
        water: &WATER_SEGMENTS,
        castle: &CASTLE,
        old_fish: &OLD_FISH,
        new_fish: &OLD_FISH,
        bubble: &BUBBLE,
        splat: &SPLAT,
        ship: &FOUR,
        whale: &WHALE,
        old_monster: &OLD_MONSTER,
        new_monster: &NEW_MONSTER,
        big_fish_1: &FOUR,
        big_fish_2: &FOUR,
        shark: &FOUR,
    };
    let mut rng = rand::thread_rng();
    let mut tank: Vec<OnDeath> = build_scene(120, 40, false, 0, &mut rng, &art)
        .into_iter()
        .map(|e| e.body.on_death)
        .collect();
    let specials = |t: &Vec<OnDeath>| t.iter().filter(|d| **d == OnDeath::RandomObject).count();
    assert_eq!(specials(&tank), 1);
    for round in 0..30 {
        // Kill every third creature, and the special on even rounds.
        let mut survivors = Vec::new();
        let mut born = Vec::new();
        for (i, d) in tank.iter().enumerate() {
            let dies = i % 3 == round % 3 || (*d == OnDeath::RandomObject && round % 2 == 0);
            if dies {
                for e in successor(*d, 120, 40, false, 0, &mut rng, &art) {
                    born.push(e.body.on_death);
                }
            } else {
                survivors.push(*d);
            }
        }
        survivors.extend(born);
        tank = survivors;
        assert_eq!(specials(&tank), 1);
    }
}

#[test]
fn the_school_and_the_seaweed_keep_their_size() {
    let art = Art {
        water: &WATER_SEGMENTS,
        castle: &CASTLE,
        old_fish: &OLD_FISH,
        new_fish: &OLD_FISH,
        bubble: &BUBBLE,
        splat: &SPLAT,
        ship: &FOUR,
        whale: &WHALE,
        old_monster: &OLD_MONSTER,
        new_monster: &NEW_MONSTER,
        big_fish_1: &FOUR,
        big_fish_2: &FOUR,
        shark: &FOUR,
    };
    let mut rng = rand::thread_rng();
    let mut tank: Vec<OnDeath> = build_scene(120, 40, false, 0, &mut rng, &art)
        .into_iter()
        .map(|e| e.body.on_death)
        .collect();
    let count = |t: &Vec<OnDeath>, k: OnDeath| t.iter().filter(|d| **d == k).count();
    let fish = count(&tank, OnDeath::Fish);
    let weed = count(&tank, OnDeath::Seaweed);
    assert_eq!(fish, (40 - 9) * 120 / 350);
    assert_eq!(weed, 120 / 15);
    for round in 0..30 {
        let mut survivors = Vec::new();
        let mut born = Vec::new();
        for (i, d) in tank.iter().enumerate() {
            if i % 4 == round % 4 {
                for e in successor(*d, 120, 40, false, 0, &mut rng, &art) {
                    born.push(e.body.on_death);
                }
            } else {
                survivors.push(*d);
            }
        }
        survivors.extend(born);
        tank = survivors;
        assert_eq!(count(&tank, OnDeath::Fish), fish);
        assert_eq!(count(&tank, OnDeath::Seaweed), weed);
    }
}

#[test]
fn joined_lines_split_back_into_the_same_lines() {
    let lines = ["  ><>", "", "~~ ~", "x"];
    let block = format!("\n{}\n", lines.join("\n"));
    let f = Frame::new(&block, &block);
    assert_eq!(f.shape, lines.to_vec());
    assert_eq!(f.mask, lines.to_vec());
}

#[test]
fn split_block_gives_back_the_lines_it_was_written_from() {
    for lines in [vec!["a"], vec!["  ><>", "", " ~ "], vec!["", ""]] {
        let block = format!("\n{}\n", lines.join("\n"));
        assert_eq!(asciiquarium::entity::split_block(&block), lines);
    }
}
