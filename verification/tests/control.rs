use asciiquarium::control::{draw_order, Controls, Input, Reaction};

fn controls() -> Controls {
    Controls { w: 80, h: 24, paused: false }
}

#[test]
fn quit_keys_quit() {
    for input in [
        Input::Char { c: 'q', ctrl: false },
        Input::Char { c: 'q', ctrl: true },
        Input::Char { c: 'c', ctrl: true },
        Input::Char { c: 'd', ctrl: true },
    ] {
        let mut c = controls();
        assert_eq!(c.react(input), Reaction::Quit);
    }
}

#[test]
fn plain_c_and_d_do_nothing() {
    let mut c = controls();
    assert_eq!(c.react(Input::Char { c: 'c', ctrl: false }), Reaction::Continue);
    assert_eq!(c.react(Input::Char { c: 'd', ctrl: false }), Reaction::Continue);
    assert_eq!(c.react(Input::Other), Reaction::Continue);
    assert!(!c.paused);
}

#[test]
fn p_toggles_pause_and_r_rebuilds() {
    let mut c = controls();
    assert_eq!(c.react(Input::Char { c: 'p', ctrl: false }), Reaction::Continue);
    assert!(c.paused);
    assert_eq!(c.react(Input::Char { c: 'r', ctrl: false }), Reaction::Rebuild);
    assert!(c.paused);
    assert_eq!(c.react(Input::Char { c: 'p', ctrl: false }), Reaction::Continue);
    assert!(!c.paused);
}

#[test]
fn resize_records_size_and_rebuilds() {
    let mut c = controls();
    assert_eq!(c.react(Input::Resize { w: 120, h: 50 }), Reaction::Rebuild);
    assert_eq!((c.w, c.h), (120, 50));
}

#[test]
fn draw_order_is_back_to_front_and_stable() {
    assert_eq!(draw_order(&[2, 22, 3, 22, 8, 2]), vec![1, 3, 4, 2, 0, 5]);
    assert!(draw_order(&[]).is_empty());
}
