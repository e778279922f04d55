//! Sprites: multi-frame shapes with a line-aligned colour mask, the kinds of
//! creature, and the part of a creature's state that decides how it draws,
//! ages and dies.

use vstd::prelude::*;

use rand::rngs::ThreadRng;

use crate::chance::between;
use crate::render::{glyph_at, is_clear, paint, tint_at, Cell, Color};
use crate::text::{lines, push_char, strip_leading_newline, text_lines, views};

verus! {

/// The longest of the lines, in characters (0 for no lines).
pub open spec fn max_len(ls: Seq<Seq<char>>) -> nat
    decreases ls.len(),
{
    if ls.len() == 0 {
        0
    } else {
        let m = max_len(ls.drop_last());
        if ls.last().len() > m {
            ls.last().len()
        } else {
            m
        }
    }
}

/// The width of a frame (`max_len` of its lines) bounds every line, and some
/// line, if there is one, is exactly that wide.
pub proof fn law_longest_line(ls: Seq<Seq<char>>)
    ensures
        forall|i: int| 0 <= i < ls.len() ==> #[trigger] ls[i].len() <= max_len(ls),
        ls.len() == 0 ==> max_len(ls) == 0,
        ls.len() > 0 ==> exists|i: int| 0 <= i < ls.len() && #[trigger] ls[i].len() == max_len(ls),
    decreases ls.len(),
{
    if ls.len() > 0 {
        law_longest_line(ls.drop_last());
        assert forall|i: int| 0 <= i < ls.len() - 1 implies #[trigger] ls[i].len() == ls.drop_last()[i].len() by {}
        if ls.len() > 1 && ls.last().len() <= max_len(ls.drop_last()) {
            let j = choose|j: int| 0 <= j < ls.len() - 1 && #[trigger] ls.drop_last()[j].len() == max_len(ls.drop_last());
            assert(ls[j].len() == max_len(ls));
        } else {
            assert(ls[ls.len() - 1].len() == max_len(ls));
        }
    }
}

/// Splits a text block into lines, trimming a single leading newline so that
/// art written on the line after its opening quote starts at row 0. Lines
/// written between a leading and a trailing newline come back exactly
/// (`law_block_lines_round_trip`).
pub fn split_block(s: &str) -> (out: Vec<String>)
    ensures
        views(out@) == text_lines(strip_leading_newline(s@)),
{
    let n = s.unicode_len();
    if n > 0 && s.get_char(0) == '\n' {
        let rest = s.substring_char(1, n);
        assert(rest@ == s@.drop_first());
        lines(rest)
    } else {
        lines(s)
    }
}

/// One animation frame: a shape and its line-aligned colour mask.
#[derive(Clone)]
pub struct Frame {
    pub shape: Vec<String>,
    pub mask: Vec<String>,
}

impl Frame {
    /// The shape's lines as characters.
    pub open spec fn shape_lines(&self) -> Seq<Seq<char>> {
        views(self.shape@)
    }

    /// The mask's lines as characters.
    pub open spec fn mask_lines(&self) -> Seq<Seq<char>> {
        views(self.mask@)
    }

    /// Builds a frame from a shape block and a mask block. A single leading
    /// newline is trimmed from each so that row 0 of the shape lines up with
    /// row 0 of the mask.
    pub fn new(shape: &str, mask: &str) -> (f: Self)
        ensures
            f.shape_lines() == text_lines(strip_leading_newline(shape@)),
            f.mask_lines() == text_lines(strip_leading_newline(mask@)),
    {
        Frame { shape: split_block(shape), mask: split_block(mask) }
    }

    /// The width of the widest shape line, in characters.
    pub fn width(&self) -> (w: i32)
        requires
            forall|i: int| 0 <= i < self.shape@.len() ==> #[trigger] self.shape@[i]@.len() <= i32::MAX,
        ensures
            w == max_len(self.shape_lines()),
    {
        let mut best: usize = 0;
        let mut i: usize = 0;
        while i < self.shape.len()
            invariant
                i <= self.shape@.len(),
                forall|j: int| 0 <= j < self.shape@.len() ==> #[trigger] self.shape@[j]@.len() <= i32::MAX,
                best == max_len(self.shape_lines().take(i as int)),
                best <= i32::MAX,
            decreases self.shape@.len() - i,
        {
            let n = self.shape[i].as_str().unicode_len();
            assert(self.shape_lines().take(i + 1).drop_last() == self.shape_lines().take(i as int));
            if n > best {
                best = n;
            }
            i += 1;
        }
        assert(self.shape_lines().take(i as int) == self.shape_lines());
        best as i32
    }

    /// The number of shape lines.
    pub fn height(&self) -> (h: i32)
        requires
            self.shape@.len() <= i32::MAX,
        ensures
            h == self.shape@.len(),
    {
        self.shape.len() as i32
    }
}

/// Entity kind. Drives depth defaults and, for the physical ones, collisions.
#[derive(Clone, Copy, Debug, PartialEq, Eq, Structural)]
pub enum EntityType {
    Waterline,
    Castle,
    Seaweed,
    Fish,
    Bubble,
    Teeth,
    Shark,
    Ship,
    Whale,
    Monster,
    BigFish,
    Splat,
}

/// What to spawn when an entity dies; the tick loop acts on it after the
/// corpse is removed.
#[derive(Clone, Copy, Debug, PartialEq, Eq, Structural)]
pub enum OnDeath {
    Nothing,
    Fish,
    Seaweed,
    RandomObject,
}

/// The cells a line of glyphs occupies when its first glyph sits at column
/// `x` of row `y`, left to right: every glyph that is neither clear nor a
/// space.
pub open spec fn line_cells(line: Seq<char>, x: int, y: int, auto_trans: bool, trans: char) -> Seq<(int, int)>
    decreases line.len(),
{
    if line.len() == 0 {
        Seq::empty()
    } else {
        let before = line_cells(line.drop_last(), x, y, auto_trans, trans);
        let ch = line.last();
        if !is_clear(ch, auto_trans, trans) && ch != ' ' {
            before.push((x + line.len() - 1, y))
        } else {
            before
        }
    }
}

/// The cells a block of lines occupies with its top-left corner at `(x, y)`,
/// row by row.
pub open spec fn block_cells(lines: Seq<Seq<char>>, x: int, y: int, auto_trans: bool, trans: char) -> Seq<(int, int)>
    decreases lines.len(),
{
    if lines.len() == 0 {
        Seq::empty()
    } else {
        block_cells(lines.drop_last(), x, y, auto_trans, trans) + line_cells(
            lines.last(),
            x,
            y + lines.len() - 1,
            auto_trans,
            trans,
        )
    }
}

/// A cell is among those a line occupies exactly when the line has a glyph
/// there that is neither clear nor a space.
proof fn lemma_line_cells_member(line: Seq<char>, x: int, y: int, auto_trans: bool, trans: char, cx: int, cy: int)
    ensures
        line_cells(line, x, y, auto_trans, trans).contains((cx, cy)) <==> (cy == y && 0 <= cx - x < line.len()
            && !is_clear(line[cx - x], auto_trans, trans) && line[cx - x] != ' '),
    decreases line.len(),
{
    if line.len() > 0 {
        let before = line_cells(line.drop_last(), x, y, auto_trans, trans);
        lemma_line_cells_member(line.drop_last(), x, y, auto_trans, trans, cx, cy);
        let ch = line.last();
        if !is_clear(ch, auto_trans, trans) && ch != ' ' {
            let after = before.push((x + line.len() - 1, y));
            if before.contains((cx, cy)) {
                let i = choose|i: int| 0 <= i < before.len() && before[i] == (cx, cy);
                assert(after[i] == (cx, cy));
            }
            if after.contains((cx, cy)) && !before.contains((cx, cy)) {
                let i = choose|i: int| 0 <= i < after.len() && after[i] == (cx, cy);
                if i < before.len() {
                    assert(before[i] == (cx, cy));
                }
            }
            if cy == y && cx - x == line.len() - 1 {
                assert(after[after.len() - 1] == (cx, cy));
            }
        }
    }
}

/// A cell is among those a block occupies exactly when the block has a
/// glyph there that is neither clear nor a space.
pub proof fn lemma_block_cells_member(
    lines: Seq<Seq<char>>,
    x: int,
    y: int,
    auto_trans: bool,
    trans: char,
    cx: int,
    cy: int,
)
    ensures
        block_cells(lines, x, y, auto_trans, trans).contains((cx, cy)) <==> (match glyph_at(lines, cy - y, cx - x) {
            Some(ch) => !is_clear(ch, auto_trans, trans) && ch != ' ',
            None => false,
        }),
    decreases lines.len(),
{
    if lines.len() > 0 {
        let before = block_cells(lines.drop_last(), x, y, auto_trans, trans);
        let row = line_cells(lines.last(), x, y + lines.len() - 1, auto_trans, trans);
        lemma_block_cells_member(lines.drop_last(), x, y, auto_trans, trans, cx, cy);
        lemma_line_cells_member(lines.last(), x, y + lines.len() - 1, auto_trans, trans, cx, cy);
        let all = before + row;
        if before.contains((cx, cy)) {
            let i = choose|i: int| 0 <= i < before.len() && before[i] == (cx, cy);
            assert(all[i] == (cx, cy));
        }
        if row.contains((cx, cy)) {
            let i = choose|i: int| 0 <= i < row.len() && row[i] == (cx, cy);
            assert(all[before.len() + i] == (cx, cy));
        }
        if all.contains((cx, cy)) {
            let i = choose|i: int| 0 <= i < all.len() && all[i] == (cx, cy);
            if i < before.len() {
                assert(before[i] == (cx, cy));
            } else {
                assert(row[i - before.len()] == (cx, cy));
            }
        }
        if 0 <= cy - y < lines.len() - 1 {
            assert(lines.drop_last()[cy - y] == lines[cy - y]);
        }
    }
}

/// The cells an entity occupies are exactly where painting its frame puts
/// one of the frame's visible glyphs: there the frame's glyph lands in its
/// colour; anywhere else painting either leaves the cell as it was or draws
/// an opaque space.
pub proof fn law_occupied_cells_are_painted(
    lines: Seq<Seq<char>>,
    mask: Seq<Seq<char>>,
    default: Color,
    auto_trans: bool,
    trans: char,
    x: int,
    y: int,
    below: Cell,
    cx: int,
    cy: int,
)
    ensures
        block_cells(lines, x, y, auto_trans, trans).contains((cx, cy)) ==> ({
            let ch = lines[cy - y][cx - x];
            &&& ch != ' '
            &&& paint(below, lines, mask, default, auto_trans, trans, cy - y, cx - x) == Cell {
                ch,
                fg: tint_at(mask, cy - y, cx - x, default),
            }
        }),
        !block_cells(lines, x, y, auto_trans, trans).contains((cx, cy)) ==> ({
            let after = paint(below, lines, mask, default, auto_trans, trans, cy - y, cx - x);
            after == below || after.ch == ' '
        }),
{
    lemma_block_cells_member(lines, x, y, auto_trans, trans, cx, cy);
}

/// The pairs as mathematical integers.
pub open spec fn int_pairs(v: Seq<(i32, i32)>) -> Seq<(int, int)> {
    v.map_values(|p: (i32, i32)| (p.0 as int, p.1 as int))
}

/// The part of a creature that does not move: what it is, how it draws, and
/// the rules by which it ages and dies. Position, velocity and the fractional
/// frame counter live beside it.
pub struct Body {
    pub etype: EntityType,
    pub z: i32,
    pub frames: Vec<Frame>,
    pub default_color: Color,
    /// Spaces are transparent when true.
    pub auto_trans: bool,
    /// The explicit transparency character ('?' unless a spawner says
    /// otherwise).
    pub trans: char,
    /// Takes part in collision detection.
    pub physical: bool,
    pub die_offscreen: bool,
    /// Die after this many ticks alive.
    pub die_frame: Option<u32>,
    /// Die at this absolute tick.
    pub die_tick: Option<u64>,
    pub on_death: OnDeath,
    pub age: u32,
    pub alive: bool,
}

impl Body {
    /// A body with neutral defaults, which spawners then adjust: default
    /// colour, no transparency but '?', not physical, immortal, nothing
    /// spawned on death, newborn and alive.
    pub fn new(etype: EntityType, z: i32, frames: Vec<Frame>) -> (b: Self)
        ensures
            b.etype == etype,
            b.z == z,
            b.frames@ == frames@,
            b.default_color == Color::Reset,
            !b.auto_trans,
            b.trans == '?',
            !b.physical,
            !b.die_offscreen,
            b.die_frame is None,
            b.die_tick is None,
            b.on_death == OnDeath::Nothing,
            b.age == 0,
            b.alive,
    {
        Body {
            etype,
            z,
            frames,
            default_color: Color::Reset,
            auto_trans: false,
            trans: '?',
            physical: false,
            die_offscreen: false,
            die_frame: None,
            die_tick: None,
            on_death: OnDeath::Nothing,
            age: 0,
            alive: true,
        }
    }

    /// The frame shown at frame counter `frame`: the counter wraps around the
    /// frames.
    pub fn current(&self, frame: usize) -> (f: &Frame)
        requires
            self.frames@.len() > 0,
        ensures
            *f == self.frames@[(frame as int) % (self.frames@.len() as int)],
    {
        let n = self.frames.len();
        &self.frames[frame % n]
    }

    /// True if this shape character does not draw, so that lower sprites
    /// show through.
    pub fn is_transparent(&self, ch: char) -> (r: bool)
        ensures
            r == is_clear(ch, self.auto_trans, self.trans),
    {
        ch == self.trans || (self.auto_trans && ch == ' ')
    }

    /// The screen cells that frame `frame` occupies with its top-left corner
    /// at `(x, y)`: every glyph that is neither transparent nor a space, row
    /// by row, left to right.
    pub fn cells(&self, frame: usize, x: i32, y: i32) -> (out: Vec<(i32, i32)>)
        requires
            self.frames@.len() > 0,
            ({
                let f = self.frames@[(frame as int) % (self.frames@.len() as int)];
                &&& f.shape@.len() <= i32::MAX
                &&& y + f.shape@.len() <= i32::MAX + 1
                &&& forall|r: int|
                    0 <= r < f.shape@.len() ==> #[trigger] f.shape@[r]@.len() <= i32::MAX && x
                        + f.shape@[r]@.len() <= i32::MAX + 1
            }),
        ensures
            int_pairs(out@) == block_cells(
                self.frames@[(frame as int) % (self.frames@.len() as int)].shape_lines(),
                x as int,
                y as int,
                self.auto_trans,
                self.trans,
            ),
    {
        let f = self.current(frame);
        let ghost ls = f.shape_lines();
        let mut out: Vec<(i32, i32)> = Vec::new();
        let mut row: usize = 0;
        while row < f.shape.len()
            invariant
                ls == f.shape_lines(),
                row <= f.shape@.len(),
                f.shape@.len() <= i32::MAX,
                y + f.shape@.len() <= i32::MAX + 1,
                forall|r: int|
                    0 <= r < f.shape@.len() ==> #[trigger] f.shape@[r]@.len() <= i32::MAX && x
                        + f.shape@[r]@.len() <= i32::MAX + 1,
                int_pairs(out@) == block_cells(ls.take(row as int), x as int, y as int, self.auto_trans, self.trans),
            decreases f.shape@.len() - row,
        {
            let line = f.shape[row].as_str();
            assert(ls[row as int] == line@);
            assert(ls.take(row + 1).drop_last() == ls.take(row as int));
            let ghost base = int_pairs(out@);
            let cy = y + row as i32;
            let mut col: usize = 0;
            let n = line.unicode_len();
            for ch in it: line.chars()
                invariant
                    it.seq() == line@,
                    col == it.index(),
                    n == line@.len(),
                    line@.len() <= i32::MAX,
                    x + line@.len() <= i32::MAX + 1,
                    cy == y + row,
                    int_pairs(out@) == base + line_cells(line@.take(col as int), x as int, cy as int, self.auto_trans, self.trans),
            {
                assert(line@.take(col + 1).drop_last() == line@.take(col as int));
                assert(line@.take(col + 1).last() == ch);
                if !self.is_transparent(ch) && ch != ' ' {
                    let ghost prev = out@;
                    out.push((x + col as i32, cy));
                    assert(int_pairs(out@) =~= int_pairs(prev).push(((x + col) as int, cy as int)));
                }
                col += 1;
            }
            assert(line@.take(col as int) == line@);
            row += 1;
        }
        assert(ls.take(row as int) == ls);
        out
    }

    /// Ages the body by one tick and applies the death rules: off-screen
    /// (when `offscreen` says the body has left the screen), after
    /// `die_frame` ticks alive, and at tick `die_tick`. A dead body stays
    /// dead.
    pub fn age_one_tick(&mut self, tick: u64, offscreen: bool)
        requires
            old(self).age < u32::MAX,
        ensures
            final(self).age == old(self).age + 1,
            final(self).alive == (old(self).alive && !(old(self).die_offscreen && offscreen) && !(match old(
                self,
            ).die_frame {
                Some(df) => final(self).age >= df,
                None => false,
            }) && !(match old(self).die_tick {
                Some(dt) => tick >= dt,
                None => false,
            })),
            final(self).etype == old(self).etype,
            final(self).z == old(self).z,
            final(self).frames@ == old(self).frames@,
            final(self).default_color == old(self).default_color,
            final(self).auto_trans == old(self).auto_trans,
            final(self).trans == old(self).trans,
            final(self).physical == old(self).physical,
            final(self).die_offscreen == old(self).die_offscreen,
            final(self).die_frame == old(self).die_frame,
            final(self).die_tick == old(self).die_tick,
            final(self).on_death == old(self).on_death,
    {
        self.age = self.age + 1;
        if self.die_offscreen && offscreen {
            self.alive = false;
        }
        if let Some(df) = self.die_frame {
            if self.age >= df {
                self.alive = false;
            }
        }
        if let Some(dt) = self.die_tick {
            if tick >= dt {
                self.alive = false;
            }
        }
    }
}

/// The twelve colours that mask digits are coloured from.
pub open spec fn palette() -> Seq<char> {
    seq!['c', 'C', 'r', 'R', 'y', 'Y', 'b', 'B', 'g', 'G', 'm', 'M']
}

/// The palette entries a random pick can land on: all but the last ('M'),
/// since the pick draws from `0..11` of the twelve entries.
pub open spec fn pickable() -> Seq<char> {
    palette().take(11)
}

/// The palette entry at `i`.
fn palette_at(i: i32) -> (c: char)
    requires
        0 <= i < 12,
    ensures
        c == palette()[i as int],
{
    match i {
        0 => 'c',
        1 => 'C',
        2 => 'r',
        3 => 'R',
        4 => 'y',
        5 => 'Y',
        6 => 'b',
        7 => 'B',
        8 => 'g',
        9 => 'G',
        10 => 'm',
        _ => 'M',
    }
}

/// A mask character that stands for a colour to be chosen: a digit `1`..`9`.
pub open spec fn is_color_digit(c: char) -> bool {
    '1' <= c <= '9'
}

/// The slot of a digit in a table indexed by digit value.
pub open spec fn digit_slot(c: char) -> int {
    c as int - '0' as int
}

/// The colour that `forced` assigns to digit `d`: that of the last pair whose
/// key is `d`, as inserting the pairs into a map in order would leave it.
pub open spec fn forced_lookup(forced: Seq<(char, char)>, d: char) -> Option<char>
    decreases forced.len(),
{
    if forced.len() == 0 {
        None
    } else if forced.last().0 == d {
        Some(forced.last().1)
    } else {
        forced_lookup(forced.drop_last(), d)
    }
}

/// What digit `d` may resolve to: its forced colour if it has one, else any
/// pickable palette colour.
pub open spec fn allowed_pick(forced: Seq<(char, char)>, d: char, c: char) -> bool {
    match forced_lookup(forced, d) {
        Some(v) => c == v,
        None => pickable().contains(c),
    }
}

/// The relation between a colour mask and its resolved form: same length,
/// every character other than a digit `1`..`9` kept, every digit replaced by
/// an allowed colour, and every cell that shares a digit sharing a colour.
pub open spec fn resolves_to(mask: Seq<char>, forced: Seq<(char, char)>, out: Seq<char>) -> bool {
    &&& out.len() == mask.len()
    &&& forall|i: int| 0 <= i < mask.len() && !is_color_digit(mask[i]) ==> #[trigger] out[i] == mask[i]
    &&& forall|i: int|
        0 <= i < mask.len() && is_color_digit(mask[i]) ==> allowed_pick(forced, mask[i], #[trigger] out[i])
    &&& forall|i: int, j: int|
        0 <= i < mask.len() && 0 <= j < mask.len() && is_color_digit(mask[i]) && mask[i] == mask[j]
            ==> #[trigger] out[i] == #[trigger] out[j]
}

/// A table of the colours chosen so far, indexed by digit value, that agrees
/// with `forced`.
spec fn table_ok(table: Seq<Option<char>>, forced: Seq<(char, char)>) -> bool {
    &&& table.len() == 10
    &&& forall|c: char|
        is_color_digit(c) ==> match #[trigger] table[digit_slot(c)] {
            Some(v) => allowed_pick(forced, c, v),
            None => forced_lookup(forced, c) is None,
        }
}

/// The first index at which `c` occurs in `list`, or its length if `c`
/// does not occur.
pub open spec fn pos(list: Seq<char>, c: char) -> int
    decreases list.len(),
{
    if list.len() == 0 {
        0
    } else {
        let p = pos(list.drop_last(), c);
        if p < list.len() - 1 {
            p
        } else if list.last() == c {
            list.len() - 1
        } else {
            list.len() as int
        }
    }
}

/// The digits of `mask` that no pair of `forced` assigns, in the order in
/// which they first occur: each needs a colour drawn at random.
pub open spec fn first_new(mask: Seq<char>, forced: Seq<(char, char)>) -> Seq<char>
    decreases mask.len(),
{
    if mask.len() == 0 {
        Seq::empty()
    } else {
        let s0 = first_new(mask.drop_last(), forced);
        let c = mask.last();
        if is_color_digit(c) && forced_lookup(forced, c) is None && pos(s0, c) == s0.len() {
            s0.push(c)
        } else {
            s0
        }
    }
}

/// The mask resolved with the palette indices `picks`: a digit that
/// `forced` assigns takes its forced colour; the `k`-th digit to need a
/// colour takes palette entry `picks[k]`, at each of its cells; any other
/// character is kept.
pub open spec fn with_picks(mask: Seq<char>, forced: Seq<(char, char)>, picks: Seq<i32>) -> Seq<char>
    decreases mask.len(),
{
    if mask.len() == 0 {
        Seq::empty()
    } else {
        let out0 = with_picks(mask.drop_last(), forced, picks);
        let s0 = first_new(mask.drop_last(), forced);
        let c = mask.last();
        if is_color_digit(c) {
            match forced_lookup(forced, c) {
                Some(v) => out0.push(v),
                None => out0.push(palette()[picks[pos(s0, c)] as int]),
            }
        } else {
            out0.push(c)
        }
    }
}

/// `pos` finds the first occurrence.
proof fn lemma_pos_found(l: Seq<char>, c: char, q: int)
    requires
        0 <= q < l.len(),
        l[q] == c,
        forall|r: int| 0 <= r < q ==> l[r] != c,
    ensures
        pos(l, c) == q,
    decreases l.len(),
{
    if q < l.len() - 1 {
        lemma_pos_found(l.drop_last(), c, q);
    } else {
        lemma_pos_absent(l.drop_last(), c);
    }
}

/// `pos` gives the length when `c` does not occur.
proof fn lemma_pos_absent(l: Seq<char>, c: char)
    requires
        forall|r: int| 0 <= r < l.len() ==> l[r] != c,
    ensures
        pos(l, c) == l.len(),
    decreases l.len(),
{
    if l.len() > 0 {
        lemma_pos_absent(l.drop_last(), c);
    }
}

/// `pos` lies between 0 and the length.
proof fn lemma_pos_range(l: Seq<char>, c: char)
    ensures
        0 <= pos(l, c) <= l.len(),
    decreases l.len(),
{
    if l.len() > 0 {
        lemma_pos_range(l.drop_last(), c);
    }
}

/// Where `pos` finds `c`, `c` is there.
proof fn lemma_pos_hit(l: Seq<char>, c: char)
    requires
        pos(l, c) < l.len(),
    ensures
        l[pos(l, c)] == c,
    decreases l.len(),
{
    if l.len() > 0 {
        let p = pos(l.drop_last(), c);
        lemma_pos_range(l.drop_last(), c);
        if p < l.len() - 1 {
            lemma_pos_hit(l.drop_last(), c);
            assert(l[p] == l.drop_last()[p]);
        } else {
            assert(l.last() == c);
        }
    }
}

/// Each digit that needs a colour has a pick of its own: the cells of such
/// digits take their colours from picks, the same pick for cells that share
/// a digit and different picks for different digits.
pub proof fn law_each_digit_its_own_pick(
    mask: Seq<char>,
    forced: Seq<(char, char)>,
    picks: Seq<i32>,
    i: int,
    j: int,
)
    requires
        0 <= i < mask.len(),
        0 <= j < mask.len(),
        is_color_digit(mask[i]),
        is_color_digit(mask[j]),
        forced_lookup(forced, mask[i]) is None,
        forced_lookup(forced, mask[j]) is None,
    ensures
        ({
            let s = first_new(mask, forced);
            let a = pos(s, mask[i]);
            let b = pos(s, mask[j]);
            &&& 0 <= a < s.len()
            &&& 0 <= b < s.len()
            &&& with_picks(mask, forced, picks)[i] == palette()[picks[a] as int]
            &&& with_picks(mask, forced, picks)[j] == palette()[picks[b] as int]
            &&& (a == b <==> mask[i] == mask[j])
        }),
{
    lemma_with_picks_prefix(mask, forced, picks, mask.len());
    assert(mask.take(mask.len() as int) =~= mask);
    let s = first_new(mask, forced);
    let a = pos(s, mask[i]);
    let b = pos(s, mask[j]);
    assert(a < s.len() && with_picks(mask, forced, picks)[i] == palette()[picks[a] as int]);
    assert(b < s.len() && with_picks(mask, forced, picks)[j] == palette()[picks[b] as int]);
    lemma_pos_range(s, mask[i]);
    lemma_pos_range(s, mask[j]);
    lemma_pos_hit(s, mask[i]);
    lemma_pos_hit(s, mask[j]);
    assert(s[a] == mask[i] && s[b] == mask[j]);
    assert(a == b <==> mask[i] == mask[j]);
}

/// With valid picks, the resolved mask meets `resolves_to`: same-digit
/// cells share their colour and every colour is an allowed one.
proof fn lemma_with_picks_resolves(mask: Seq<char>, forced: Seq<(char, char)>, picks: Seq<i32>)
    requires
        first_new(mask, forced).len() <= picks.len(),
        forall|i: int| 0 <= i < picks.len() ==> 0 <= #[trigger] picks[i] < 11,
    ensures
        resolves_to(mask, forced, with_picks(mask, forced, picks)),
{
    lemma_with_picks_prefix(mask, forced, picks, mask.len());
    assert(mask.take(mask.len() as int) =~= mask);
    let out = with_picks(mask, forced, picks);
    let s = first_new(mask, forced);
    assert(out == with_picks(mask.take(mask.len() as int), forced, picks));
    assert(s == first_new(mask.take(mask.len() as int), forced));
    assert forall|i: int| 0 <= i < mask.len() && is_color_digit(mask[i]) implies allowed_pick(
        forced,
        mask[i],
        #[trigger] out[i],
    ) by {
        if forced_lookup(forced, mask[i]) is None {
            assert(pos(s, mask[i]) < s.len() && out[i] == palette()[picks[pos(s, mask[i])] as int]);
            lemma_pos_range(s, mask[i]);
            let q = pos(s, mask[i]);
            assert(0 <= q < picks.len());
            let p = picks[q];
            assert(0 <= p < 11);
            assert(pickable()[p as int] == palette()[p as int]);
        }
    }
}

/// The invariant behind `lemma_with_picks_resolves`, over the first `k`
/// cells: each cell holds its kept character, its forced colour, or the
/// palette entry that its digit's rank in `first_new` picks.
proof fn lemma_with_picks_prefix(mask: Seq<char>, forced: Seq<(char, char)>, picks: Seq<i32>, k: nat)
    requires
        k <= mask.len(),
    ensures
        ({
            let m = mask.take(k as int);
            let out = with_picks(m, forced, picks);
            let s = first_new(m, forced);
            &&& out.len() == k
            &&& forall|i: int| #![trigger mask[i]] 0 <= i < k && !is_color_digit(mask[i]) ==> out[i] == mask[i]
            &&& forall|i: int|
                #![trigger mask[i]]
                0 <= i < k && is_color_digit(mask[i]) ==> match forced_lookup(forced, mask[i]) {
                    Some(v) => out[i] == v,
                    None => pos(s, mask[i]) < s.len() && out[i] == palette()[picks[pos(s, mask[i])] as int],
                }
        }),
    decreases k,
{
    if k > 0 {
        let k0 = (k - 1) as nat;
        lemma_with_picks_prefix(mask, forced, picks, k0);
        let m = mask.take(k as int);
        let m0 = mask.take(k0 as int);
        assert(m.drop_last() =~= m0);
        assert(m.last() == mask[k0 as int]);
        let s0 = first_new(m0, forced);
        let s = first_new(m, forced);
        let c = mask[k0 as int];
        lemma_pos_range(s0, c);
        let out0 = with_picks(m0, forced, picks);
        let out = with_picks(m, forced, picks);
        assert forall|i: int| 0 <= i < k0 implies #[trigger] out[i] == out0[i] by {}
        assert forall|d: char| pos(s0, d) < s0.len() implies #[trigger] pos(s, d) == pos(s0, d) by {
            if s != s0 {
                assert(s.drop_last() =~= s0);
            }
        }
        if is_color_digit(c) && forced_lookup(forced, c) is None {
            if pos(s0, c) == s0.len() {
                assert(s.drop_last() =~= s0);
                assert(pos(s, c) == s0.len());
            }
        }
    }
}

/// A table, indexed by digit value, of the colours that `forced` assigns.
fn forced_table(forced: &[(char, char)]) -> (table: Vec<Option<char>>)
    ensures
        table@.len() == 10,
        forall|c: char| is_color_digit(c) ==> #[trigger] table@[digit_slot(c)] == forced_lookup(forced@, c),
{
    let mut table: Vec<Option<char>> = Vec::new();
    while table.len() < 10
        invariant
            table@.len() <= 10,
            forall|i: int| 0 <= i < table@.len() ==> table@[i] is None,
        decreases 10 - table@.len(),
    {
        table.push(None);
    }
    let mut f: usize = 0;
    while f < forced.len()
        invariant
            f <= forced@.len(),
            table@.len() == 10,
            forall|c: char|
                is_color_digit(c) ==> #[trigger] table@[digit_slot(c)] == forced_lookup(
                    forced@.take(f as int),
                    c,
                ),
        decreases forced@.len() - f,
    {
        let (k, v) = forced[f];
        assert(forced@.take(f + 1).drop_last() == forced@.take(f as int));
        if '1' <= k && k <= '9' {
            let slot = (k as u32 - '0' as u32) as usize;
            table.set(slot, Some(v));
            assert forall|c: char| is_color_digit(c) implies #[trigger] table@[digit_slot(c)]
                == forced_lookup(forced@.take(f + 1), c) by {
                if c != k {
                    assert(digit_slot(c) != slot);
                }
            }
        }
        f += 1;
    }
    assert(forced@.take(f as int) == forced@);
    table
}

/// The index of `c` in `list`, or its length (see `pos`).
fn find_char(list: &Vec<char>, c: char) -> (p: usize)
    ensures
        p == pos(list@, c),
{
    let mut j: usize = 0;
    while j < list.len()
        invariant
            j <= list@.len(),
            forall|r: int| 0 <= r < j ==> list@[r] != c,
        decreases list@.len() - j,
    {
        if list[j] == c {
            proof {
                lemma_pos_found(list@, c, j as int);
            }
            return j;
        }
        j += 1;
    }
    proof {
        lemma_pos_absent(list@, c);
    }
    j
}

/// How many random colours resolving `mask` draws: one per digit that
/// `forced` does not assign.
pub fn picks_needed(mask: &str, forced: &[(char, char)]) -> (n: usize)
    ensures
        n == first_new(mask@, forced@).len(),
{
    let table = forced_table(forced);
    let mut seen: Vec<char> = Vec::new();
    let n = mask.unicode_len();
    let mut k: usize = 0;
    for c in it: mask.chars()
        invariant
            it.seq() == mask@,
            n == mask@.len(),
            k == it.index(),
            table@.len() == 10,
            forall|c2: char| is_color_digit(c2) ==> #[trigger] table@[digit_slot(c2)] == forced_lookup(forced@, c2),
            seen@ == first_new(mask@.take(k as int), forced@),
    {
        assert(mask@.take(k + 1).drop_last() =~= mask@.take(k as int));
        assert(mask@.take(k + 1).last() == c);
        if '1' <= c && c <= '9' {
            let slot = (c as u32 - '0' as u32) as usize;
            assert(slot == digit_slot(c));
            if table[slot].is_none() {
                let p = find_char(&seen, c);
                if p == seen.len() {
                    seen.push(c);
                }
            }
        }
        k += 1;
    }
    assert(mask@.take(k as int) =~= mask@);
    seen.len()
}

/// Resolves a colour mask with the palette indices `picks` drawn for it: a
/// digit that `forced` assigns takes its forced colour, the `k`-th digit to
/// need a colour takes palette entry `picks[k]` at each of its cells, and
/// letters and spaces are kept.
pub fn resolve_with_picks(mask: &str, forced: &[(char, char)], picks: &[i32]) -> (out: String)
    requires
        first_new(mask@, forced@).len() <= picks@.len(),
        forall|i: int| 0 <= i < picks@.len() ==> 0 <= #[trigger] picks@[i] < 12,
    ensures
        out@ == with_picks(mask@, forced@, picks@),
{
    let table = forced_table(forced);
    let mut seen: Vec<char> = Vec::new();
    let mut out = String::new();
    let n = mask.unicode_len();
    let mut k: usize = 0;
    for c in it: mask.chars()
        invariant
            it.seq() == mask@,
            n == mask@.len(),
            k == it.index(),
            table@.len() == 10,
            forall|c2: char| is_color_digit(c2) ==> #[trigger] table@[digit_slot(c2)] == forced_lookup(forced@, c2),
            seen@ == first_new(mask@.take(k as int), forced@),
            out@ == with_picks(mask@.take(k as int), forced@, picks@),
            first_new(mask@, forced@).len() <= picks@.len(),
            forall|i: int| 0 <= i < picks@.len() ==> 0 <= #[trigger] picks@[i] < 12,
    {
        let ghost m1 = mask@.take(k + 1);
        assert(m1.drop_last() =~= mask@.take(k as int));
        assert(m1.last() == c);
        if '1' <= c && c <= '9' {
            let slot = (c as u32 - '0' as u32) as usize;
            assert(slot == digit_slot(c));
            match table[slot] {
                Some(v) => {
                    push_char(&mut out, v);
                },
                None => {
                    let p = find_char(&seen, c);
                    proof {
                        lemma_pos_range(seen@, c);
                        lemma_first_new_grows(mask@, forced@, (k + 1) as nat);
                    }
                    if p == seen.len() {
                        seen.push(c);
                    }
                    let v = palette_at(picks[p]);
                    push_char(&mut out, v);
                },
            }
        } else {
            push_char(&mut out, c);
        }
        k += 1;
    }
    assert(mask@.take(k as int) =~= mask@);
    out
}

/// The digits needing a colour among the first `k` cells are no more than
/// among all of them.
proof fn lemma_first_new_grows(mask: Seq<char>, forced: Seq<(char, char)>, k: nat)
    requires
        k <= mask.len(),
    ensures
        first_new(mask.take(k as int), forced).len() <= first_new(mask, forced).len(),
    decreases mask.len() - k,
{
    if k < mask.len() {
        lemma_first_new_grows(mask, forced, k + 1);
        assert(mask.take(k as int + 1).drop_last() =~= mask.take(k as int));
    } else {
        assert(mask.take(k as int) =~= mask);
    }
}

/// Randomises a colour mask: each digit `1`..`9` becomes one colour for all
/// its cells, the one `forced` names for it or else a random palette colour;
/// letters and spaces are kept. One pick is drawn from the first eleven
/// palette entries for each digit that needs a colour, in the order the
/// digits first occur, so the last palette colour ('M') is never picked.
fn resolve(mask: &str, rng: &mut ThreadRng, forced: &[(char, char)]) -> (out: String)
    ensures
        resolves_to(mask@, forced@, out@),
        exists|picks: Seq<i32>|
            #![trigger with_picks(mask@, forced@, picks)]
            picks.len() == first_new(mask@, forced@).len() && (forall|i: int|
                0 <= i < picks.len() ==> 0 <= #[trigger] picks[i] < 11) && out@ == with_picks(mask@, forced@, picks),
{
    let n = picks_needed(mask, forced);
    let mut picks: Vec<i32> = Vec::new();
    while picks.len() < n
        invariant
            picks@.len() <= n,
            forall|i: int| 0 <= i < picks@.len() ==> 0 <= #[trigger] picks@[i] < 11,
        decreases n - picks@.len(),
    {
        picks.push(between(rng, 0, 11));
    }
    let out = resolve_with_picks(mask, forced, picks.as_slice());
    proof {
        lemma_with_picks_resolves(mask@, forced@, picks@);
    }
    out
}

/// Randomises a colour mask: every cell sharing a digit `1`..`9` gets the
/// same random colour, other characters are kept. The last palette colour
/// ('M') is never chosen.
pub fn rand_color(mask: &str, rng: &mut ThreadRng) -> (out: String)
    ensures
        resolves_to(mask@, Seq::empty(), out@),
        exists|picks: Seq<i32>|
            #![trigger with_picks(mask@, Seq::empty(), picks)]
            picks.len() == first_new(mask@, Seq::empty()).len() && (forall|i: int|
                0 <= i < picks.len() ==> 0 <= #[trigger] picks[i] < 11) && out@ == with_picks(mask@, Seq::empty(), picks),
{
    let none: [(char, char); 0] = [];
    let r = resolve(mask, rng, none.as_slice());
    assert(none@ =~= Seq::<(char, char)>::empty());
    r
}

/// Like `rand_color`, but the eye (digit 4) is first forced to white, as the
/// fish spawner does before randomising.
pub fn resolve_fish_mask(mask: &str, rng: &mut ThreadRng) -> (out: String)
    ensures
        resolves_to(mask@, seq![('4', 'W')], out@),
        exists|picks: Seq<i32>|
            #![trigger with_picks(mask@, seq![('4', 'W')], picks)]
            picks.len() == first_new(mask@, seq![('4', 'W')]).len() && (forall|i: int|
                0 <= i < picks.len() ==> 0 <= #[trigger] picks[i] < 11) && out@ == with_picks(
                mask@,
                seq![('4', 'W')],
                picks,
            ),
{
    let eye: [(char, char); 1] = [('4', 'W')];
    let r = resolve(mask, rng, eye.as_slice());
    assert(eye@ =~= seq![('4', 'W')]);
    r
}

} // verus!
