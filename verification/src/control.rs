//! The decisions of the run loop: what a key press or a resize does, and the
//! order in which the creatures are drawn.

use vstd::prelude::*;

verus! {

/// An event from the terminal, reduced to what the loop decides on.
pub enum Input {
    /// A character key, with whether Control was held.
    Char { c: char, ctrl: bool },
    /// The terminal now has `w` columns and `h` rows.
    Resize { w: u16, h: u16 },
    /// Any other key or event.
    Other,
}

/// What the loop does next.
#[derive(Clone, Copy, Debug, PartialEq, Eq, Structural)]
pub enum Reaction {
    /// Leave the aquarium.
    Quit,
    /// Build the scene afresh (the size may have changed).
    Rebuild,
    /// Carry on.
    Continue,
}

/// The state the loop keeps between events: the terminal size and whether
/// the animation is paused.
pub struct Controls {
    pub w: u16,
    pub h: u16,
    pub paused: bool,
}

impl Controls {
    /// Reacts to one event: Control-C or Control-D, and `q`, quit (raw mode
    /// swallows the interrupt signal, so those keys stand in for it); `p`
    /// pauses or resumes; `r` rebuilds the scene; a resize records the new
    /// size and rebuilds to fit it; anything else is ignored.
    pub fn react(&mut self, input: Input) -> (r: Reaction)
        ensures
            match input {
                Input::Char { c, ctrl } => if ctrl && (c == 'c' || c == 'd') || c == 'q' {
                    r == Reaction::Quit && *final(self) == *old(self)
                } else if c == 'p' {
                    r == Reaction::Continue && final(self).paused == !old(self).paused && final(self).w
                        == old(self).w && final(self).h == old(self).h
                } else if c == 'r' {
                    r == Reaction::Rebuild && *final(self) == *old(self)
                } else {
                    r == Reaction::Continue && *final(self) == *old(self)
                },
                Input::Resize { w, h } => r == Reaction::Rebuild && final(self).w == w && final(self).h == h
                    && final(self).paused == old(self).paused,
                Input::Other => r == Reaction::Continue && *final(self) == *old(self),
            },
    {
        match input {
            Input::Char { c, ctrl } => {
                if ctrl && (c == 'c' || c == 'd') {
                    Reaction::Quit
                } else if c == 'q' {
                    Reaction::Quit
                } else if c == 'p' {
                    self.paused = !self.paused;
                    Reaction::Continue
                } else if c == 'r' {
                    Reaction::Rebuild
                } else {
                    Reaction::Continue
                }
            },
            Input::Resize { w, h } => {
                self.w = w;
                self.h = h;
                Reaction::Rebuild
            },
            Input::Other => Reaction::Continue,
        }
    }
}

/// Entity `a` is drawn before entity `b`: it is deeper (higher z), or as
/// deep and earlier in the list.
pub open spec fn drawn_before(zs: Seq<i32>, a: int, b: int) -> bool {
    zs[a] > zs[b] || (zs[a] == zs[b] && a < b)
}

/// `order` lists every index of `zs` once, back to front.
pub open spec fn is_draw_order(zs: Seq<i32>, order: Seq<usize>) -> bool {
    &&& order.len() == zs.len()
    &&& forall|i: int| 0 <= i < order.len() ==> #[trigger] order[i] < zs.len()
    &&& forall|k: int| 0 <= k < zs.len() ==> #[trigger] order.contains(k as usize)
    &&& forall|i: int, j: int|
        0 <= i < j < order.len() ==> drawn_before(zs, #[trigger] order[i] as int, #[trigger] order[j] as int)
}

/// The order to draw entities whose depths are `zs`: back to front, so that
/// lower z lands on top; entities at equal depth keep their list order.
pub fn draw_order(zs: &[i32]) -> (order: Vec<usize>)
    ensures
        is_draw_order(zs@, order@),
{
    let mut order: Vec<usize> = Vec::new();
    let mut i: usize = 0;
    while i < zs.len()
        invariant
            i <= zs@.len(),
            order@.len() == i,
            forall|q: int| 0 <= q < order@.len() ==> #[trigger] order@[q] < i,
            forall|k: int| 0 <= k < i ==> #[trigger] order@.contains(k as usize),
            forall|a: int, b: int|
                0 <= a < b < order@.len() ==> drawn_before(zs@, #[trigger] order@[a] as int, #[trigger] order@[b] as int),
        decreases zs@.len() - i,
    {
        let z = zs[i];
        let mut p: usize = 0;
        while p < order.len() && zs[order[p]] >= z
            invariant
                p <= order@.len(),
                i < zs@.len(),
                z == zs@[i as int],
                forall|q: int| 0 <= q < order@.len() ==> #[trigger] order@[q] < i,
                forall|q: int| 0 <= q < p ==> zs@[#[trigger] order@[q] as int] >= z,
            decreases order@.len() - p,
        {
            p += 1;
        }
        assert forall|q: int| p <= q < order@.len() implies zs@[#[trigger] order@[q] as int] < z by {
            if q > p {
                assert(drawn_before(zs@, order@[p as int] as int, order@[q] as int));
            }
        }
        let ghost prev = order@;
        order.insert(p, i);
        assert forall|q: int| 0 <= q < order@.len() implies #[trigger] order@[q] < i + 1 by {
            if q < p {
                assert(order@[q] == prev[q]);
            } else if q > p {
                assert(order@[q] == prev[q - 1]);
            }
        }
        assert forall|k: int| 0 <= k < i + 1 implies #[trigger] order@.contains(k as usize) by {
            if k == i {
                assert(order@[p as int] == i);
            } else {
                assert(prev.contains(k as usize));
                let q = choose|q: int| 0 <= q < prev.len() && prev[q] == k as usize;
                if q < p {
                    assert(order@[q] == prev[q]);
                } else {
                    assert(order@[q + 1] == prev[q]);
                }
            }
        }
        assert forall|a: int, b: int| 0 <= a < b < order@.len() implies drawn_before(
            zs@,
            #[trigger] order@[a] as int,
            #[trigger] order@[b] as int,
        ) by {
            if a < p && b < p {
                assert(order@[a] == prev[a] && order@[b] == prev[b]);
            } else if a < p && b == p {
                assert(order@[a] == prev[a]);
            } else if a < p && b > p {
                assert(order@[a] == prev[a] && order@[b] == prev[b - 1]);
            } else if a == p {
                assert(order@[b] == prev[b - 1]);
            } else {
                assert(order@[a] == prev[a - 1] && order@[b] == prev[b - 1]);
            }
        }
        i += 1;
    }
    order
}

} // verus!
