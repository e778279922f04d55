use asciiquarium::collide::{cells_meet, collisions, Contact, Outcome};
use asciiquarium::entity::{Body, EntityType, Frame};

fn contact(etype: EntityType, x: i32, y: i32, z: i32, cells: Vec<(i32, i32)>) -> Contact {
    Contact { etype, x, y, z, cells }
}

#[test]
fn cells_meet_only_on_a_shared_cell() {
    assert!(cells_meet(&vec![(1, 2), (3, 4)], &vec![(0, 0), (3, 4)]));
    assert!(!cells_meet(&vec![(1, 2), (3, 4)], &vec![(2, 1), (4, 3)]));
    assert!(!cells_meet(&vec![], &vec![(0, 0)]));
}

#[test]
fn teeth_eat_a_fish_and_leave_a_splat_where_they_are() {
    let v = vec![
        contact(EntityType::Fish, 10, 5, 7, vec![(10, 5), (11, 5), (12, 5)]),
        contact(EntityType::Teeth, 12, 5, 2, vec![(12, 5)]),
        contact(EntityType::Fish, 30, 8, 9, vec![(30, 8)]),
    ];
    let out = collisions(&v);
    assert_eq!(out, vec![Outcome::Eaten { x: 12, y: 5, z: 2 }, Outcome::Unharmed, Outcome::Unharmed]);
}

#[test]
fn a_bubble_pops_on_the_surface() {
    let v = vec![
        contact(EntityType::Waterline, 0, 5, 8, vec![(0, 5), (1, 5), (2, 5)]),
        contact(EntityType::Bubble, 1, 5, 6, vec![(1, 5)]),
        contact(EntityType::Bubble, 1, 9, 6, vec![(1, 9)]),
        contact(EntityType::Fish, 2, 5, 7, vec![(2, 5)]),
    ];
    let out = collisions(&v);
    assert_eq!(out, vec![Outcome::Unharmed, Outcome::Popped, Outcome::Unharmed, Outcome::Unharmed]);
}

#[test]
fn touching_is_judged_on_drawn_glyphs_not_the_box() {
    let mut a = Body::new(EntityType::Fish, 3, vec![Frame::new("\n> \n", "")]);
    a.auto_trans = true;
    let t = Body::new(EntityType::Teeth, 2, vec![Frame::new("*", "")]);
    // The fish's box covers (0,0) and (1,0); only (0,0) is drawn.
    let v = vec![
        contact(EntityType::Fish, 0, 0, 3, a.cells(0, 0, 0)),
        contact(EntityType::Teeth, 1, 0, 2, t.cells(0, 1, 0)),
    ];
    assert_eq!(collisions(&v), vec![Outcome::Unharmed, Outcome::Unharmed]);
    let v = vec![
        contact(EntityType::Fish, 0, 0, 3, a.cells(0, 0, 0)),
        contact(EntityType::Teeth, 0, 0, 2, t.cells(0, 0, 0)),
    ];
    assert_eq!(collisions(&v), vec![Outcome::Eaten { x: 0, y: 0, z: 2 }, Outcome::Unharmed]);
}
