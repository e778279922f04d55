use asciiquarium::render::{mask_color, Cell, Color, Paint, Screen};

fn cell_at(s: &Screen, x: u16, y: u16) -> Cell {
    s.cell_at(x, y)
}

#[test]
fn space_is_transparent() {
    let mut s = Screen::new(4, 1);
    s.blit(0, 0, &["XX".into()], &[], Color::Reset, false, ' ');
    // A shape with a leading space must not overwrite the first cell.
    s.blit(0, 0, &[" Y".into()], &[], Color::Reset, false, ' ');
    assert_eq!(cell_at(&s, 0, 0).ch, 'X');
    assert_eq!(cell_at(&s, 1, 0).ch, 'Y');
}

#[test]
fn mask_selects_color_else_default() {
    let mut s = Screen::new(2, 1);
    s.blit(0, 0, &["ab".into()], &["R".into()], Color::Green, false, ' ');
    assert_eq!(cell_at(&s, 0, 0).fg, Color::Red); // masked
    assert_eq!(cell_at(&s, 1, 0).fg, Color::Green); // default
}

#[test]
fn question_mark_is_clear_and_opaque_spaces_draw() {
    let mut s = Screen::new(3, 1);
    s.blit(0, 0, &["XYZ".into()], &[], Color::Reset, false, '?');
    s.blit(0, 0, &["? a".into()], &[], Color::Blue, false, '?');
    assert_eq!(s.to_text(), "X a");
    s.clear();
    s.blit(0, 0, &["XYZ".into()], &[], Color::Reset, false, '?');
    s.blit(0, 0, &["b b".into()], &[], Color::Blue, true, '?');
    assert_eq!(s.to_text(), "bYb");
}

#[test]
fn blit_clips_at_every_edge() {
    let mut s = Screen::new(3, 2);
    s.blit(-1, -1, &["abcd".into(), "efgh".into(), "ijkl".into()], &[], Color::Reset, false, ' ');
    assert_eq!(s.to_text(), "fgh\njkl");
    s.clear();
    s.blit(2, 1, &["mn".into(), "op".into()], &[], Color::Reset, false, ' ');
    assert_eq!(s.to_text(), "   \n  m");
}

#[test]
fn mask_colors_map_letters() {
    assert_eq!(mask_color('c'), Some(Color::DarkCyan));
    assert_eq!(mask_color('W'), Some(Color::White));
    assert_eq!(mask_color('w'), Some(Color::Grey));
    assert_eq!(mask_color('M'), Some(Color::Magenta));
    assert_eq!(mask_color('1'), None);
    assert_eq!(mask_color(' '), None);
}

#[test]
fn new_screen_is_blank() {
    let s = Screen::new(2, 2);
    assert_eq!(s.width(), 2);
    assert_eq!(s.height(), 2);
    assert_eq!(s.to_text(), "  \n  ");
    assert_eq!(cell_at(&s, 1, 1), Cell::default());
}

#[test]
fn paint_ops_switch_colour_only_on_change() {
    let mut s = Screen::new(3, 2);
    s.blit(0, 0, &["ab".into(), "cd".into()], &["RR".into(), " G".into()], Color::White, false, ' ');
    let ops = s.paint_ops();
    let mut desc = Vec::new();
    for op in &ops {
        match op {
            Paint::Home => desc.push("home".to_string()),
            Paint::Ink(c) => desc.push(format!("ink {:?}", c)),
            Paint::Text(t) => desc.push(format!("text {:?}", t)),
        }
    }
    assert_eq!(
        desc,
        vec![
            "home",
            "ink Red",
            "text \"ab\"",
            "ink Reset",
            "text \" \\r\\n\"",
            "ink White",
            "text \"c\"",
            "ink Green",
            "text \"d\"",
            "ink Reset",
            "text \" \"",
        ]
    );
}
