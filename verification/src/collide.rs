//! The collision pass: physical creatures that share a screen cell touch.
//! A fish that the shark's teeth touch is eaten and leaves a splat where the
//! teeth are; a bubble that touches the water surface pops.

use vstd::prelude::*;

use crate::entity::{block_cells, int_pairs, lemma_block_cells_member, EntityType};
use crate::render::{glyph_at, is_clear};
use crate::spawn::{splat, Spawn};

verus! {

/// A physical entity as the collision pass sees it: its kind, its position
/// and depth, and the screen cells it occupies.
pub struct Contact {
    pub etype: EntityType,
    pub x: i32,
    pub y: i32,
    pub z: i32,
    pub cells: Vec<(i32, i32)>,
}

/// What the collision pass does to an entity.
#[derive(Clone, Copy, Debug, PartialEq, Eq, Structural)]
pub enum Outcome {
    /// It touched nothing it reacts to.
    Unharmed,
    /// A fish the shark's teeth touched: it dies, and a splat appears where
    /// the teeth stand, at column `x`, row `y`, depth `z`.
    Eaten { x: i32, y: i32, z: i32 },
    /// A bubble that reached the water surface: it pops.
    Popped,
}

/// Two lists of cells have a cell in common.
pub open spec fn share_cell(a: Seq<(int, int)>, b: Seq<(int, int)>) -> bool {
    exists|i: int, j: int| 0 <= i < a.len() && 0 <= j < b.len() && a[i] == b[j]
}

/// Contact `i` touches contact `j`: they are two entities with a cell in
/// common.
pub open spec fn touch(v: Seq<Contact>, i: int, j: int) -> bool {
    i != j && share_cell(int_pairs(v[i].cells@), int_pairs(v[j].cells@))
}

/// The first of the first `n` contacts that is of kind `k` and touches
/// contact `i`, if any.
pub open spec fn first_touching(v: Seq<Contact>, i: int, k: EntityType, n: nat) -> Option<int>
    decreases n,
{
    if n == 0 {
        None
    } else {
        match first_touching(v, i, k, (n - 1) as nat) {
            Some(j) => Some(j),
            None => if v[n - 1].etype == k && touch(v, i, n - 1) {
                Some(n - 1)
            } else {
                None
            },
        }
    }
}

/// What the collision pass does to contact `i`: a fish touched by teeth is
/// eaten, the splat going where the first such teeth stand; a bubble that
/// touches the water surface pops; anything else is unharmed.
pub open spec fn outcome_of(v: Seq<Contact>, i: int) -> Outcome {
    if v[i].etype == EntityType::Fish {
        match first_touching(v, i, EntityType::Teeth, v.len()) {
            Some(j) => Outcome::Eaten { x: v[j].x, y: v[j].y, z: v[j].z },
            None => Outcome::Unharmed,
        }
    } else if v[i].etype == EntityType::Bubble {
        match first_touching(v, i, EntityType::Waterline, v.len()) {
            Some(j) => Outcome::Popped,
            None => Outcome::Unharmed,
        }
    } else {
        Outcome::Unharmed
    }
}

/// A first touching contact, once found, stays the first as more contacts
/// are looked at; and a found one is of kind `k`, touches `i`, and no
/// earlier one does.
proof fn lemma_first_touching(v: Seq<Contact>, i: int, k: EntityType, m: nat, n: nat)
    requires
        m <= n,
    ensures
        first_touching(v, i, k, m) is Some ==> first_touching(v, i, k, n) == first_touching(v, i, k, m),
        match first_touching(v, i, k, n) {
            Some(j) => 0 <= j < n && v[j].etype == k && touch(v, i, j),
            None => forall|j: int| 0 <= j < n && v[j].etype == k ==> !touch(v, i, j),
        },
    decreases n,
{
    if n > 0 {
        if m < n {
            lemma_first_touching(v, i, k, m, (n - 1) as nat);
        } else {
            lemma_first_touching(v, i, k, (n - 1) as nat, (n - 1) as nat);
        }
    }
}

/// What the collision pass does, told by who touches whom: a bubble pops
/// exactly when it touches the water surface; a fish is eaten exactly when
/// it touches teeth, the splat going where the first teeth it touches stand;
/// nothing else is harmed.
pub proof fn law_who_touches_whom(v: Seq<Contact>, i: int)
    requires
        0 <= i < v.len(),
    ensures
        v[i].etype == EntityType::Bubble ==> (outcome_of(v, i) == Outcome::Popped <==> exists|j: int|
            0 <= j < v.len() && v[j].etype == EntityType::Waterline && #[trigger] touch(v, i, j)),
        v[i].etype == EntityType::Bubble ==> (outcome_of(v, i) == Outcome::Popped || outcome_of(v, i)
            == Outcome::Unharmed),
        v[i].etype == EntityType::Fish ==> (outcome_of(v, i) is Eaten <==> exists|j: int|
            0 <= j < v.len() && v[j].etype == EntityType::Teeth && #[trigger] touch(v, i, j)),
        v[i].etype == EntityType::Fish ==> (outcome_of(v, i) is Eaten || outcome_of(v, i) == Outcome::Unharmed),
        v[i].etype == EntityType::Fish && outcome_of(v, i) is Eaten ==> exists|j: int|
            0 <= j < v.len() && v[j].etype == EntityType::Teeth && #[trigger] touch(v, i, j) && outcome_of(v, i)
                == (Outcome::Eaten { x: v[j].x, y: v[j].y, z: v[j].z }) && forall|q: int|
                0 <= q < j && v[q].etype == EntityType::Teeth ==> !touch(v, i, q),
        v[i].etype != EntityType::Bubble && v[i].etype != EntityType::Fish ==> outcome_of(v, i) == Outcome::Unharmed,
{
    lemma_first_touching(v, i, EntityType::Waterline, v.len(), v.len());
    lemma_first_touching(v, i, EntityType::Teeth, v.len(), v.len());
    if v[i].etype == EntityType::Fish {
        match first_touching(v, i, EntityType::Teeth, v.len()) {
            Some(j) => {
                lemma_first_touching_is_first(v, i, EntityType::Teeth, v.len());
                assert(touch(v, i, j));
            },
            None => {},
        }
    }
    if v[i].etype == EntityType::Bubble {
        match first_touching(v, i, EntityType::Waterline, v.len()) {
            Some(j) => {
                assert(touch(v, i, j));
            },
            None => {},
        }
    }
}

/// A first touching contact has no earlier contact of its kind touching.
proof fn lemma_first_touching_is_first(v: Seq<Contact>, i: int, k: EntityType, n: nat)
    ensures
        first_touching(v, i, k, n) matches Some(j) ==> forall|q: int| 0 <= q < j && v[q].etype == k ==> !touch(v, i, q),
    decreases n,
{
    if n > 0 {
        lemma_first_touching_is_first(v, i, k, (n - 1) as nat);
        lemma_first_touching(v, i, k, (n - 1) as nat, (n - 1) as nat);
    }
}

/// Whether two lists of cells have a cell in common.
pub fn cells_meet(a: &Vec<(i32, i32)>, b: &Vec<(i32, i32)>) -> (r: bool)
    ensures
        r == share_cell(int_pairs(a@), int_pairs(b@)),
{
    let ghost pa = int_pairs(a@);
    let ghost pb = int_pairs(b@);
    let mut i: usize = 0;
    while i < a.len()
        invariant
            i <= a@.len(),
            pa == int_pairs(a@),
            pb == int_pairs(b@),
            forall|p: int, q: int| 0 <= p < i && 0 <= q < b@.len() ==> pa[p] != pb[q],
        decreases a@.len() - i,
    {
        let mut j: usize = 0;
        while j < b.len()
            invariant
                i < a@.len(),
                j <= b@.len(),
                pa == int_pairs(a@),
                pb == int_pairs(b@),
                forall|p: int, q: int| 0 <= p < i && 0 <= q < b@.len() ==> pa[p] != pb[q],
                forall|q: int| 0 <= q < j ==> pa[i as int] != pb[q],
            decreases b@.len() - j,
        {
            if a[i].0 == b[j].0 && a[i].1 == b[j].1 {
                assert(pa[i as int] == pb[j as int]);
                return true;
            }
            j += 1;
        }
        i += 1;
    }
    false
}

/// The index of the first contact of kind `k` that touches contact `i`.
fn find_touching(v: &Vec<Contact>, i: usize, k: EntityType) -> (r: Option<usize>)
    requires
        i < v@.len(),
    ensures
        match r {
            Some(j) => j < v@.len() && first_touching(v@, i as int, k, v@.len()) == Some(j as int),
            None => first_touching(v@, i as int, k, v@.len()) is None,
        },
{
    let mut j: usize = 0;
    while j < v.len()
        invariant
            i < v@.len(),
            j <= v@.len(),
            first_touching(v@, i as int, k, j as nat) is None,
        decreases v@.len() - j,
    {
        if j != i && v[j].etype == k && cells_meet(&v[i].cells, &v[j].cells) {
            assert(first_touching(v@, i as int, k, (j + 1) as nat) == Some(j as int));
            proof {
                lemma_first_touching(v@, i as int, k, (j + 1) as nat, v@.len());
            }
            return Some(j);
        }
        assert(first_touching(v@, i as int, k, (j + 1) as nat) is None);
        j += 1;
    }
    None
}

/// The collision pass over the physical entities of a frame: for each, what
/// touching the others does to it.
pub fn collisions(v: &Vec<Contact>) -> (out: Vec<Outcome>)
    ensures
        out@.len() == v@.len(),
        forall|i: int| 0 <= i < v@.len() ==> #[trigger] out@[i] == outcome_of(v@, i),
        forall|i: int|
            0 <= i < v@.len() && v@[i].etype == EntityType::Bubble ==> (#[trigger] out@[i] == Outcome::Popped
                <==> exists|j: int| 0 <= j < v@.len() && v@[j].etype == EntityType::Waterline && touch(v@, i, j)),
        forall|i: int|
            0 <= i < v@.len() && v@[i].etype == EntityType::Fish ==> (#[trigger] out@[i] is Eaten <==> exists|j: int|
                0 <= j < v@.len() && v@[j].etype == EntityType::Teeth && touch(v@, i, j)),
        forall|i: int|
            0 <= i < v@.len() && v@[i].etype != EntityType::Bubble && v@[i].etype != EntityType::Fish
                ==> #[trigger] out@[i] == Outcome::Unharmed,
{
    let mut out: Vec<Outcome> = Vec::new();
    let mut i: usize = 0;
    while i < v.len()
        invariant
            i <= v@.len(),
            out@.len() == i,
            forall|p: int| 0 <= p < i ==> #[trigger] out@[p] == outcome_of(v@, p),
        decreases v@.len() - i,
    {
        let o = if v[i].etype == EntityType::Fish {
            let found = find_touching(v, i, EntityType::Teeth);
            match found {
                Some(j) => {
                    assert(first_touching(v@, i as int, EntityType::Teeth, v@.len()) == Some(j as int));
                    Outcome::Eaten { x: v[j].x, y: v[j].y, z: v[j].z }
                },
                None => Outcome::Unharmed,
            }
        } else if v[i].etype == EntityType::Bubble {
            let found = find_touching(v, i, EntityType::Waterline);
            match found {
                Some(j) => {
                    assert(first_touching(v@, i as int, EntityType::Waterline, v@.len()) == Some(j as int));
                    Outcome::Popped
                },
                None => Outcome::Unharmed,
            }
        } else {
            Outcome::Unharmed
        };
        assert(o == outcome_of(v@, i as int));
        let ghost before = out@;
        out.push(o);
        assert forall|p: int| 0 <= p < i + 1 implies #[trigger] out@[p] == outcome_of(v@, p) by {
            if p < i {
                assert(out@[p] == before[p]);
            }
        }
        i += 1;
    }
    proof {
        assert forall|i: int| 0 <= i < v@.len() implies #[trigger] out@[i] == outcome_of(v@, i) && (v@[i].etype
            == EntityType::Bubble ==> (out@[i] == Outcome::Popped <==> exists|j: int|
            0 <= j < v@.len() && v@[j].etype == EntityType::Waterline && touch(v@, i, j))) && (v@[i].etype
            == EntityType::Fish ==> (out@[i] is Eaten <==> exists|j: int|
            0 <= j < v@.len() && v@[j].etype == EntityType::Teeth && touch(v@, i, j))) && (v@[i].etype
            != EntityType::Bubble && v@[i].etype != EntityType::Fish ==> out@[i] == Outcome::Unharmed) by {
            law_who_touches_whom(v@, i);
        }
    }
    out
}

/// What an outcome leaves behind: whether the entity lives on, and for a
/// meal the splat where the teeth stood, drawn from `splat_art`.
pub fn aftermath(o: Outcome, splat_art: &[&str]) -> (r: (bool, Option<Spawn>))
    requires
        o matches Outcome::Eaten { x, y, z } ==> x >= i32::MIN + 4 && y >= i32::MIN + 2 && z >= i32::MIN + 2,
    ensures
        r.0 == (o == Outcome::Unharmed),
        match o {
            Outcome::Eaten { x, y, z } => r.1 matches Some(s) && s.body.etype == EntityType::Splat && s.x == x - 4
                && s.y == y - 2 && s.body.z == z - 2 && s.body.frames@.len() == splat_art@.len(),
            _ => r.1 is None,
        },
{
    match o {
        Outcome::Unharmed => (true, None),
        Outcome::Popped => (false, None),
        Outcome::Eaten { x, y, z } => (false, Some(splat(x, y, z, splat_art))),
    }
}

/// The frame `lines` has a glyph at `(cx, cy)` when placed with its top-left
/// corner at `(x, y)` that is neither clear nor a space.
pub open spec fn shows_at(lines: Seq<Seq<char>>, x: int, y: int, auto_trans: bool, trans: char, cx: int, cy: int) -> bool {
    match glyph_at(lines, cy - y, cx - x) {
        Some(ch) => !is_clear(ch, auto_trans, trans) && ch != ' ',
        None => false,
    }
}

/// Two placed frames touch exactly when some screen cell is one where both
/// put a visible glyph: the cells an entity occupies are where it draws.
pub proof fn law_touch_is_a_shared_glyph(
    a: Seq<Seq<char>>,
    ax: int,
    ay: int,
    a_auto: bool,
    a_trans: char,
    b: Seq<Seq<char>>,
    bx: int,
    by: int,
    b_auto: bool,
    b_trans: char,
)
    ensures
        share_cell(block_cells(a, ax, ay, a_auto, a_trans), block_cells(b, bx, by, b_auto, b_trans)) <==> exists|
            cx: int,
            cy: int,
        |
            #[trigger] shows_at(a, ax, ay, a_auto, a_trans, cx, cy) && #[trigger] shows_at(
                b,
                bx,
                by,
                b_auto,
                b_trans,
                cx,
                cy,
            ),
{
    let ca = block_cells(a, ax, ay, a_auto, a_trans);
    let cb = block_cells(b, bx, by, b_auto, b_trans);
    if share_cell(ca, cb) {
        let (i, j) = choose|i: int, j: int| 0 <= i < ca.len() && 0 <= j < cb.len() && ca[i] == cb[j];
        let (cx, cy) = ca[i];
        lemma_block_cells_member(a, ax, ay, a_auto, a_trans, cx, cy);
        lemma_block_cells_member(b, bx, by, b_auto, b_trans, cx, cy);
        assert(ca.contains((cx, cy)));
        assert(cb.contains((cx, cy)));
        assert(shows_at(a, ax, ay, a_auto, a_trans, cx, cy) && shows_at(b, bx, by, b_auto, b_trans, cx, cy));
    }
    if exists|cx: int, cy: int|
        #[trigger] shows_at(a, ax, ay, a_auto, a_trans, cx, cy) && #[trigger] shows_at(b, bx, by, b_auto, b_trans, cx, cy) {
        let (cx, cy) = choose|cx: int, cy: int|
            #[trigger] shows_at(a, ax, ay, a_auto, a_trans, cx, cy) && #[trigger] shows_at(b, bx, by, b_auto, b_trans, cx, cy);
        lemma_block_cells_member(a, ax, ay, a_auto, a_trans, cx, cy);
        lemma_block_cells_member(b, bx, by, b_auto, b_trans, cx, cy);
        let i = choose|i: int| 0 <= i < ca.len() && ca[i] == (cx, cy);
        let j = choose|j: int| 0 <= j < cb.len() && cb[j] == (cx, cy);
        assert(ca[i] == cb[j]);
    }
}

} // verus!
