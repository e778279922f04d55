use asciiquarium::entity::{picks_needed, resolve_with_picks};
use asciiquarium::entity::{rand_color, resolve_fish_mask, Body, EntityType, Frame, OnDeath};
use asciiquarium::render::Color;

#[test]
fn leading_newline_trimmed_and_dims_measured() {
    let f = Frame::new("\nAB\nC\n", "");
    assert_eq!(f.shape, vec!["AB".to_string(), "C".to_string()]);
    assert_eq!(f.width(), 2);
    assert_eq!(f.height(), 2);
}

#[test]
fn mask_is_stable_per_digit_eye_white() {
    let mut rng = rand::thread_rng();
    let out = resolve_fish_mask("11 4 22", &mut rng);
    let chars: Vec<char> = out.chars().collect();
    assert_eq!(chars[0], chars[1]); // both "1"s resolve to the same color
    assert_eq!(chars[3], 'W'); // eye
    assert_ne!(chars[5], '2'); // digit was replaced
    assert_eq!(chars[5], chars[6]);
}

#[test]
fn question_mark_is_transparent_when_set() {
    let mut e = Body::new(EntityType::Fish, 0, vec![Frame::new("a?b", "")]);
    e.default_color = Color::Reset;
    e.auto_trans = true;
    e.trans = '?';
    e.physical = false;
    e.die_offscreen = false;
    e.die_frame = None;
    e.die_tick = None;
    e.on_death = OnDeath::Nothing;
    e.age = 0;
    e.alive = true;
    assert!(e.is_transparent('?'));
    assert!(e.is_transparent(' '));
    assert!(!e.is_transparent('a'));
    // Occupies (0,0) and (2,0) but not the transparent (1,0).
    assert_eq!(e.cells(0, 0, 0), vec![(0, 0), (2, 0)]);
}

#[test]
fn frame_keeps_mask_lines_and_drops_crlf() {
    let f = Frame::new("\n ab\r\ncd\r\n\nx", "\n 12\n3");
    assert_eq!(f.shape, vec![" ab".to_string(), "cd".to_string(), "".to_string(), "x".to_string()]);
    assert_eq!(f.mask, vec![" 12".to_string(), "3".to_string()]);
    assert_eq!(f.width(), 3);
    assert_eq!(f.height(), 4);
}

#[test]
fn only_one_leading_newline_is_trimmed() {
    let f = Frame::new("\n\nA", "");
    assert_eq!(f.shape, vec!["".to_string(), "A".to_string()]);
    let g = Frame::new("", "");
    assert!(g.shape.is_empty());
    assert_eq!(g.width(), 0);
    assert_eq!(g.height(), 0);
}

#[test]
fn bare_carriage_return_at_end_stays() {
    let f = Frame::new("a\rb\r", "");
    assert_eq!(f.shape, vec!["a\rb\r".to_string()]);
}

#[test]
fn rand_color_keeps_letters_and_never_picks_bright_magenta() {
    let mut rng = rand::thread_rng();
    for _ in 0..200 {
        let out = rand_color("1 2 0 x W 1", &mut rng);
        let chars: Vec<char> = out.chars().collect();
        assert_eq!(chars.len(), 11);
        assert_eq!(chars[1], ' ');
        assert_eq!(chars[4], '0');
        assert_eq!(chars[6], 'x');
        assert_eq!(chars[8], 'W');
        assert_eq!(chars[0], chars[10]);
        for &i in &[0usize, 2] {
            assert!("cCrRyYbBgGm".contains(chars[i]));
            assert_ne!(chars[i], 'M');
        }
    }
}

#[test]
fn current_frame_wraps_around() {
    let e = Body::new(
        EntityType::Bubble,
        1,
        vec![Frame::new(".", ""), Frame::new("o", ""), Frame::new("O", "")],
    );
    assert_eq!(e.current(0).shape, vec![".".to_string()]);
    assert_eq!(e.current(4).shape, vec!["o".to_string()]);
    assert_eq!(e.current(5).shape, vec!["O".to_string()]);
}

#[test]
fn cells_skip_spaces_even_when_opaque() {
    let mut e = Body::new(EntityType::Castle, 22, vec![Frame::new("\n# #\n ##", "")]);
    e.auto_trans = false;
    assert_eq!(e.cells(0, 10, -1), vec![(10, -1), (12, -1), (11, 0), (12, 0)]);
}

#[test]
fn aging_applies_each_death_rule() {
    let mut e = Body::new(EntityType::Splat, 0, vec![Frame::new("*", "")]);
    e.die_frame = Some(2);
    e.age_one_tick(0, true);
    assert!(e.alive); // not die_offscreen
    e.age_one_tick(1, false);
    assert!(!e.alive);
    assert_eq!(e.age, 2);

    let mut s = Body::new(EntityType::Seaweed, 21, vec![Frame::new("(", "")]);
    s.die_tick = Some(100);
    s.age_one_tick(99, false);
    assert!(s.alive);
    s.age_one_tick(100, false);
    assert!(!s.alive);
    s.age_one_tick(0, false);
    assert!(!s.alive); // dead stays dead

    let mut f = Body::new(EntityType::Fish, 5, vec![Frame::new("><>", "")]);
    f.die_offscreen = true;
    f.age_one_tick(7, false);
    assert!(f.alive);
    f.age_one_tick(8, true);
    assert!(!f.alive);
}

#[test]
fn resolve_with_picks_gives_each_new_digit_the_next_pick() {
    let eye = [('4', 'W')];
    assert_eq!(picks_needed("2 1 1 4 2", &eye), 2);
    assert_eq!(picks_needed("2 1 1 4 2", &[]), 3);
    assert_eq!(resolve_with_picks("2 1 1 4 2", &eye, &[0, 3]), "c R R W c");
    assert_eq!(resolve_with_picks("2 1 1 4 2", &[], &[0, 3, 10]), "c R R m c");
    assert_eq!(resolve_with_picks("a1 b", &[], &[5]), "aY b");
    assert_eq!(picks_needed("abc ", &[]), 0);
    assert_eq!(resolve_with_picks("abc ", &[], &[]), "abc ");
}
