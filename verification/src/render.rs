//! The compositor: a grid of coloured cells that sprite frames are painted
//! into, back to front, where blank glyphs let what is below show through.

use vstd::prelude::*;

use crate::text::{push_char, views};

verus! {

/// The terminal colours the aquarium draws with.
#[derive(Clone, Copy, Debug, PartialEq, Eq, Structural)]
pub enum Color {
    Reset,
    DarkGrey,
    DarkCyan,
    Cyan,
    DarkRed,
    Red,
    DarkYellow,
    Yellow,
    DarkBlue,
    Blue,
    DarkGreen,
    Green,
    DarkMagenta,
    Magenta,
    Grey,
    White,
}

/// The colour a colour-mask letter stands for: lower case is the dim
/// variant, upper case the bright one; any other character names no colour.
pub open spec fn mask_color_of(c: char) -> Option<Color> {
    if c == 'c' { Some(Color::DarkCyan) }
    else if c == 'C' { Some(Color::Cyan) }
    else if c == 'r' { Some(Color::DarkRed) }
    else if c == 'R' { Some(Color::Red) }
    else if c == 'y' { Some(Color::DarkYellow) }
    else if c == 'Y' { Some(Color::Yellow) }
    else if c == 'b' { Some(Color::DarkBlue) }
    else if c == 'B' { Some(Color::Blue) }
    else if c == 'g' { Some(Color::DarkGreen) }
    else if c == 'G' { Some(Color::Green) }
    else if c == 'm' { Some(Color::DarkMagenta) }
    else if c == 'M' { Some(Color::Magenta) }
    else if c == 'w' { Some(Color::Grey) }
    else if c == 'W' { Some(Color::White) }
    else { None }
}

/// Every colour-mask letter names its colour: `c`yan, `r`ed, `y`ellow,
/// `b`lue, `g`reen, `m`agenta, and `w`hite (grey when dim), the lower-case
/// letter the dim variant and the upper-case one the bright; no other
/// character names a colour.
pub proof fn law_mask_letters_name_their_colours(c: char)
    ensures
        mask_color_of('c') == Some(Color::DarkCyan),
        mask_color_of('C') == Some(Color::Cyan),
        mask_color_of('r') == Some(Color::DarkRed),
        mask_color_of('R') == Some(Color::Red),
        mask_color_of('y') == Some(Color::DarkYellow),
        mask_color_of('Y') == Some(Color::Yellow),
        mask_color_of('b') == Some(Color::DarkBlue),
        mask_color_of('B') == Some(Color::Blue),
        mask_color_of('g') == Some(Color::DarkGreen),
        mask_color_of('G') == Some(Color::Green),
        mask_color_of('m') == Some(Color::DarkMagenta),
        mask_color_of('M') == Some(Color::Magenta),
        mask_color_of('w') == Some(Color::Grey),
        mask_color_of('W') == Some(Color::White),
        !(c == 'c' || c == 'C' || c == 'r' || c == 'R' || c == 'y' || c == 'Y' || c == 'b' || c == 'B' || c == 'g'
            || c == 'G' || c == 'm' || c == 'M' || c == 'w' || c == 'W') ==> mask_color_of(c) is None,
{
}

/// Maps a colour-mask letter to its colour.
pub fn mask_color(c: char) -> (r: Option<Color>)
    ensures
        r == mask_color_of(c),
        c == 'c' ==> r == Some(Color::DarkCyan),
        c == 'C' ==> r == Some(Color::Cyan),
        c == 'r' ==> r == Some(Color::DarkRed),
        c == 'R' ==> r == Some(Color::Red),
        c == 'y' ==> r == Some(Color::DarkYellow),
        c == 'Y' ==> r == Some(Color::Yellow),
        c == 'b' ==> r == Some(Color::DarkBlue),
        c == 'B' ==> r == Some(Color::Blue),
        c == 'g' ==> r == Some(Color::DarkGreen),
        c == 'G' ==> r == Some(Color::Green),
        c == 'm' ==> r == Some(Color::DarkMagenta),
        c == 'M' ==> r == Some(Color::Magenta),
        c == 'w' ==> r == Some(Color::Grey),
        c == 'W' ==> r == Some(Color::White),
        !(c == 'c' || c == 'C' || c == 'r' || c == 'R' || c == 'y' || c == 'Y' || c == 'b' || c == 'B' || c == 'g'
            || c == 'G' || c == 'm' || c == 'M' || c == 'w' || c == 'W') ==> r is None,
{
    match c {
        'c' => Some(Color::DarkCyan),
        'C' => Some(Color::Cyan),
        'r' => Some(Color::DarkRed),
        'R' => Some(Color::Red),
        'y' => Some(Color::DarkYellow),
        'Y' => Some(Color::Yellow),
        'b' => Some(Color::DarkBlue),
        'B' => Some(Color::Blue),
        'g' => Some(Color::DarkGreen),
        'G' => Some(Color::Green),
        'm' => Some(Color::DarkMagenta),
        'M' => Some(Color::Magenta),
        'w' => Some(Color::Grey),
        'W' => Some(Color::White),
        _ => None,
    }
}

/// One terminal cell: a glyph and its foreground colour.
#[derive(Clone, Copy, Debug, PartialEq, Eq, Structural)]
pub struct Cell {
    pub ch: char,
    pub fg: Color,
}

/// The blank cell: a space in the terminal's own colour.
pub open spec fn blank() -> Cell {
    Cell { ch: ' ', fg: Color::Reset }
}

impl Default for Cell {
    fn default() -> (c: Self)
        ensures
            c == blank(),
    {
        Cell { ch: ' ', fg: Color::Reset }
    }
}

/// The glyph in row `row`, column `col` of a block of lines, if the block
/// reaches that far.
pub open spec fn glyph_at(lines: Seq<Seq<char>>, row: int, col: int) -> Option<char> {
    if 0 <= row < lines.len() && 0 <= col < lines[row].len() {
        Some(lines[row][col])
    } else {
        None
    }
}

/// A glyph that does not draw: the sprite's own transparency character, or
/// a space where spaces are transparent.
pub open spec fn is_clear(ch: char, auto_trans: bool, trans: char) -> bool {
    ch == trans || (auto_trans && ch == ' ')
}

/// The colour the mask gives row `row`, column `col`: the colour its letter
/// names there, else `default` (no letter, or no mask that far).
pub open spec fn tint_at(mask: Seq<Seq<char>>, row: int, col: int, default: Color) -> Color {
    match glyph_at(mask, row, col) {
        Some(m) => match mask_color_of(m) {
            Some(c) => c,
            None => default,
        },
        None => default,
    }
}

/// What a cell holds after a sprite is painted over it, given the sprite
/// position `(row, col)` that lands on it: the sprite's glyph in its colour,
/// or the cell as it was where the sprite has no glyph or a clear one.
pub open spec fn paint(
    below: Cell,
    shape: Seq<Seq<char>>,
    mask: Seq<Seq<char>>,
    default: Color,
    auto_trans: bool,
    trans: char,
    row: int,
    col: int,
) -> Cell {
    match glyph_at(shape, row, col) {
        Some(ch) => if is_clear(ch, auto_trans, trans) {
            below
        } else {
            Cell { ch, fg: tint_at(mask, row, col, default) }
        },
        None => below,
    }
}

/// The glyphs of row `r` of a grid `w` cells wide.
pub open spec fn row_glyphs(g: Seq<Cell>, w: nat, r: int) -> Seq<char> {
    Seq::new(w, |c: int| g[r * w + c].ch)
}

/// The glyphs of the first `h` rows, one line per row, separated by `'\n'`.
pub open spec fn grid_text(g: Seq<Cell>, w: nat, h: nat) -> Seq<char>
    decreases h,
{
    if h == 0 {
        Seq::empty()
    } else if h == 1 {
        row_glyphs(g, w, 0)
    } else {
        grid_text(g, w, (h - 1) as nat) + seq!['\n'] + row_glyphs(g, w, h - 1)
    }
}

/// One step of drawing the grid on a terminal: move the cursor home, switch
/// the foreground colour, or print text in the current colour.
pub enum Paint {
    Home,
    Ink(Color),
    Text(String),
}

/// The foreground colour in effect after `ops`, starting from the terminal's
/// own colour.
pub open spec fn ink_after(ops: Seq<Paint>) -> Color
    decreases ops.len(),
{
    if ops.len() == 0 {
        Color::Reset
    } else {
        match ops.last() {
            Paint::Ink(c) => c,
            _ => ink_after(ops.drop_last()),
        }
    }
}

/// The characters that `ops` print, each with the colour it is printed in.
pub open spec fn shown(ops: Seq<Paint>) -> Seq<(char, Color)>
    decreases ops.len(),
{
    if ops.len() == 0 {
        Seq::empty()
    } else {
        let before = ops.drop_last();
        match ops.last() {
            Paint::Text(t) => shown(before) + t@.map_values(|ch: char| (ch, ink_after(before))),
            _ => shown(before),
        }
    }
}

/// The glyphs of row `r` with their colours.
pub open spec fn row_out(g: Seq<Cell>, w: nat, r: int) -> Seq<(char, Color)> {
    Seq::new(w, |c: int| (g[r * w + c].ch, g[r * w + c].fg))
}

/// The colour in effect once row `r` is printed: that of its last cell, or
/// the terminal's own colour if rows are empty.
pub open spec fn ink_after_row(g: Seq<Cell>, w: nat, r: int) -> Color {
    if w > 0 {
        g[r * w + w - 1].fg
    } else {
        Color::Reset
    }
}

/// A line break, printed in the colour in effect after row `r`.
pub open spec fn break_after(g: Seq<Cell>, w: nat, r: int) -> Seq<(char, Color)> {
    seq![('\r', ink_after_row(g, w, r)), ('\n', ink_after_row(g, w, r))]
}

/// What the terminal should show for the first `h` rows: each row's glyphs in
/// their colours, rows separated by `"\r\n"`.
pub open spec fn screen_out(g: Seq<Cell>, w: nat, h: nat) -> Seq<(char, Color)>
    decreases h,
{
    if h == 0 {
        Seq::empty()
    } else if h == 1 {
        row_out(g, w, 0)
    } else {
        screen_out(g, w, (h - 1) as nat) + break_after(g, w, h - 2) + row_out(g, w, h - 1)
    }
}

/// Every colour switch in `ops` changes the colour in effect.
pub open spec fn inks_change(ops: Seq<Paint>) -> bool {
    forall|i: int|
        0 <= i < ops.len() ==> match #[trigger] ops[i] {
            Paint::Ink(c) => c != ink_after(ops.take(i)),
            _ => true,
        }
}

/// The colour of the last character in `s`, or the terminal's own colour if
/// nothing was printed yet.
pub open spec fn last_ink(s: Seq<(char, Color)>) -> Color {
    if s.len() == 0 {
        Color::Reset
    } else {
        s.last().1
    }
}

/// For each printed character, whether its colour differs from that of the
/// character printed before it (the first one is compared with the
/// terminal's own colour).
pub open spec fn color_changes(s: Seq<(char, Color)>) -> Seq<bool> {
    Seq::new(s.len(), |k: int| s[k].1 != last_ink(s.take(k)))
}

/// Marks for `n` characters printed right after `before`: the first is
/// marked when the step just before is a colour switch.
pub open spec fn fresh_marks(before: Seq<Paint>, n: nat) -> Seq<bool> {
    Seq::new(n, |j: int| j == 0 && before.len() > 0 && before.last() is Ink)
}

/// For each character that `ops` print, whether a colour switch comes
/// directly before it.
pub open spec fn ink_led(ops: Seq<Paint>) -> Seq<bool>
    decreases ops.len(),
{
    if ops.len() == 0 {
        Seq::empty()
    } else {
        let before = ops.drop_last();
        match ops.last() {
            Paint::Text(t) => ink_led(before) + fresh_marks(before, t@.len()),
            _ => ink_led(before),
        }
    }
}

/// Every colour switch but a last step is followed directly by text that
/// prints something, so no two switches come without a character between
/// them.
pub open spec fn inks_lead_text(ops: Seq<Paint>) -> bool {
    forall|i: int|
        0 <= i < ops.len() - 1 && #[trigger] ops[i] is Ink ==> match ops[i + 1] {
            Paint::Text(t) => t@.len() > 0,
            _ => false,
        }
}

/// Printing one more character in colour `c`: it is marked as led by a
/// switch exactly when its colour differs from the one printed before it.
proof fn lemma_mark_next(ops: Seq<Paint>, n: nat, x: Seq<(char, Color)>, ch: char, c: Color)
    requires
        ink_led(ops) + fresh_marks(ops, n) == color_changes(x),
        (n == 0 && ops.len() > 0 && ops.last() is Ink) == (c != last_ink(x)),
    ensures
        ink_led(ops) + fresh_marks(ops, n + 1) == color_changes(x.push((ch, c))),
        last_ink(x.push((ch, c))) == c,
{
    let y = x.push((ch, c));
    assert(y.take(x.len() as int) =~= x);
    assert forall|k: int| 0 <= k < x.len() implies #[trigger] y.take(k) =~= x.take(k) by {}
    assert(color_changes(y) =~= color_changes(x).push(c != last_ink(x)));
    assert(fresh_marks(ops, n + 1) =~= fresh_marks(ops, n).push(n == 0 && ops.len() > 0 && ops.last() is Ink));
    assert(ink_led(ops) + fresh_marks(ops, n + 1) =~= (ink_led(ops) + fresh_marks(ops, n)).push(
        n == 0 && ops.len() > 0 && ops.last() is Ink,
    ));
}

/// What `ops` print followed by the pending text `line` in colour `cur`.
pub open spec fn printed(ops: Seq<Paint>, line: Seq<char>, cur: Color) -> Seq<(char, Color)> {
    shown(ops) + line.map_values(|ch: char| (ch, cur))
}

/// The state while the grid is drawn: steps so far and pending text in the
/// colour in effect, every switch a change and led to a character, and the
/// marks so far true exactly where the colour changed.
#[verifier::opaque]
pub open spec fn drawing(ops: Seq<Paint>, line: Seq<char>, cur: Color) -> bool {
    &&& home_first(ops)
    &&& inks_change(ops)
    &&& inks_lead_text(ops)
    &&& cur == ink_after(ops)
    &&& (ops.last() is Ink ==> line.len() > 0)
    &&& last_ink(printed(ops, line, cur)) == cur
    &&& ink_led(ops) + fresh_marks(ops, line.len()) == color_changes(printed(ops, line, cur))
}

/// Appending a step that is not a needless switch keeps every switch a
/// change.
proof fn lemma_push_inks_change(before: Seq<Paint>, op: Paint)
    requires
        inks_change(before),
        op is Ink ==> op->Ink_0 != ink_after(before),
    ensures
        inks_change(before.push(op)),
{
    let after = before.push(op);
    assert(after.take(before.len() as int) =~= before);
    assert forall|i: int| 0 <= i < after.len() implies match #[trigger] after[i] {
        Paint::Ink(c) => c != ink_after(after.take(i)),
        _ => true,
    } by {
        if i < before.len() {
            assert(after.take(i) =~= before.take(i));
            assert(after[i] == before[i]);
        }
    }
}

/// Appending a step keeps every switch led to a character, as long as a
/// trailing switch is followed by text that prints something.
proof fn lemma_push_lead(before: Seq<Paint>, op: Paint)
    requires
        inks_lead_text(before),
        before.len() > 0 && before.last() is Ink ==> match op {
            Paint::Text(t) => t@.len() > 0,
            _ => false,
        },
    ensures
        inks_lead_text(before.push(op)),
{
    let after = before.push(op);
    assert forall|i: int| 0 <= i < after.len() - 1 && #[trigger] after[i] is Ink implies match after[i + 1] {
        Paint::Text(t) => t@.len() > 0,
        _ => false,
    } by {
        assert(after[i] == before[i]);
        if i + 1 < before.len() {
            assert(after[i + 1] == before[i + 1]);
        }
    }
}

/// Appending text marks its characters; other steps mark none.
proof fn lemma_push_led(before: Seq<Paint>, op: Paint)
    ensures
        ink_led(before.push(op)) == ink_led(before) + match op {
            Paint::Text(t) => fresh_marks(before, t@.len()),
            _ => Seq::empty(),
        },
{
    let after = before.push(op);
    assert(after.drop_last() =~= before);
    match op {
        Paint::Text(t) => {},
        _ => {
            assert(ink_led(before) + Seq::<bool>::empty() =~= ink_led(before));
        },
    }
}

/// The cursor is sent home first and only then.
pub open spec fn home_first(ops: Seq<Paint>) -> bool {
    &&& ops.len() > 0
    &&& ops[0] is Home
    &&& forall|i: int| 0 < i < ops.len() ==> !(#[trigger] ops[i] is Home)
}

/// The colour in effect before column `c` of row `r` is printed.
spec fn ink_before(g: Seq<Cell>, w: nat, r: int, c: int) -> Color {
    if c > 0 {
        g[r * w + c - 1].fg
    } else if r > 0 {
        ink_after_row(g, w, r - 1)
    } else {
        Color::Reset
    }
}

/// Painting sprites back to front: where the front sprite has a glyph that
/// is not clear, that glyph is what shows, whatever the sprites behind it
/// drew; where it has none, or a clear one, what was painted behind it shows
/// through unchanged.
pub proof fn law_front_sprite_wins(
    below: Cell,
    back: Seq<Seq<char>>,
    back_mask: Seq<Seq<char>>,
    back_default: Color,
    back_auto: bool,
    back_trans: char,
    back_row: int,
    back_col: int,
    front: Seq<Seq<char>>,
    front_mask: Seq<Seq<char>>,
    front_default: Color,
    front_auto: bool,
    front_trans: char,
    front_row: int,
    front_col: int,
)
    ensures
        ({
            let behind = paint(below, back, back_mask, back_default, back_auto, back_trans, back_row, back_col);
            let shown = paint(behind, front, front_mask, front_default, front_auto, front_trans, front_row, front_col);
            match glyph_at(front, front_row, front_col) {
                Some(ch) => if is_clear(ch, front_auto, front_trans) {
                    shown == behind
                } else {
                    shown == Cell { ch, fg: tint_at(front_mask, front_row, front_col, front_default) }
                },
                None => shown == behind,
            }
        }),
{
}

/// Row-major positions are distinct: a cell index names one column and row.
pub proof fn lemma_index_unique(r1: int, c1: int, r2: int, c2: int, w: int)
    requires
        0 <= c1 < w,
        0 <= c2 < w,
        0 <= r1,
        0 <= r2,
        r1 * w + c1 == r2 * w + c2,
    ensures
        r1 == r2,
        c1 == c2,
{
    if r1 < r2 {
        assert(r1 * w + w <= r2 * w) by (nonlinear_arith)
            requires r1 < r2, w > 0;
    } else if r2 < r1 {
        assert(r2 * w + w <= r1 * w) by (nonlinear_arith)
            requires r2 < r1, w > 0;
    }
}

/// A position inside a `w` by `h` grid has its index inside the grid.
pub proof fn lemma_index_in_grid(r: int, c: int, w: int, h: int)
    requires
        0 <= c < w,
        0 <= r < h,
    ensures
        0 <= r * w + c < w * h,
{
    assert(0 <= r * w) by (nonlinear_arith)
        requires 0 <= r, 0 <= w;
    assert(r * w + w <= h * w) by (nonlinear_arith)
        requires r < h, 0 <= w;
    assert(h * w == w * h) by (nonlinear_arith);
}

/// The area of a grid fits a `usize` on every target.
pub proof fn lemma_area_fits(w: u16, h: u16)
    ensures
        0 <= w as int * h as int <= 0xFFFE_0001,
{
    assert(0 <= w as int * h as int <= 0xFFFE_0001) by (nonlinear_arith)
        requires 0 <= w <= 0xFFFF, 0 <= h <= 0xFFFF;
}

/// A `w` by `h` grid of cells.
pub struct Screen {
    w: u16,
    h: u16,
    cells: Vec<Cell>,
}

impl Screen {
    /// The grid holds exactly one cell per column and row.
    pub closed spec fn wf(&self) -> bool {
        self.cells@.len() == self.w as int * self.h as int
    }

    /// The number of columns.
    pub closed spec fn cols(&self) -> nat {
        self.w as nat
    }

    /// The number of rows.
    pub closed spec fn rows(&self) -> nat {
        self.h as nat
    }

    /// The cells, row by row.
    pub closed spec fn grid(&self) -> Seq<Cell> {
        self.cells@
    }

    /// The cell in column `x` of row `y`.
    pub open spec fn at(&self, x: int, y: int) -> Cell {
        self.grid()[y * self.cols() + x]
    }

    /// A blank grid of `w` columns and `h` rows.
    pub fn new(w: u16, h: u16) -> (s: Self)
        ensures
            s.wf(),
            s.cols() == w,
            s.rows() == h,
            s.grid().len() == w * h,
            forall|i: int| 0 <= i < s.grid().len() ==> s.grid()[i] == blank(),
            forall|x: int, y: int| 0 <= x < w && 0 <= y < h ==> #[trigger] s.at(x, y) == blank(),
    {
        proof {
            lemma_area_fits(w, h);
        }
        let n: usize = w as usize * h as usize;
        let mut cells: Vec<Cell> = Vec::new();
        while cells.len() < n
            invariant
                cells@.len() <= n,
                forall|i: int| 0 <= i < cells@.len() ==> cells@[i] == blank(),
            decreases n - cells@.len(),
        {
            cells.push(Cell::default());
        }
        let s = Screen { w, h, cells };
        assert forall|x: int, y: int| 0 <= x < w && 0 <= y < h implies #[trigger] s.at(x, y) == blank() by {
            lemma_index_in_grid(y, x, w as int, h as int);
        }
        s
    }

    /// A well-formed grid holds exactly one cell per column and row, so
    /// every position inside it names a cell.
    pub proof fn lemma_grid_len(&self)
        requires
            self.wf(),
        ensures
            self.grid().len() == self.cols() * self.rows(),
            forall|x: int, y: int|
                0 <= x < self.cols() && 0 <= y < self.rows() ==> 0 <= #[trigger] (y * self.cols() + x) < self.grid().len(),
    {
        assert forall|x: int, y: int|
            0 <= x < self.cols() && 0 <= y < self.rows() implies 0 <= #[trigger] (y * self.cols() + x) < self.grid().len() by {
            lemma_index_in_grid(y, x, self.cols() as int, self.rows() as int);
        }
    }

    /// The number of columns.
    pub fn width(&self) -> (r: u16)
        ensures
            r == self.cols(),
    {
        self.w
    }

    /// The number of rows.
    pub fn height(&self) -> (r: u16)
        ensures
            r == self.rows(),
    {
        self.h
    }

    /// The cell in column `x` of row `y`.
    pub fn cell_at(&self, x: u16, y: u16) -> (c: Cell)
        requires
            self.wf(),
            x < self.cols(),
            y < self.rows(),
        ensures
            c == self.at(x as int, y as int),
    {
        proof {
            lemma_area_fits(self.w, self.h);
            lemma_index_in_grid(y as int, x as int, self.w as int, self.h as int);
            assert(y as int * self.w as int <= y as int * self.w as int + x as int);
        }
        self.cells[y as usize * self.w as usize + x as usize]
    }

    /// Overwrites the cell in column `cx` of row `cy`.
    fn put(&mut self, cx: usize, cy: usize, c: Cell)
        requires
            old(self).wf(),
            cx < old(self).cols(),
            cy < old(self).rows(),
        ensures
            final(self).wf(),
            final(self).w == old(self).w,
            final(self).h == old(self).h,
            final(self).at(cx as int, cy as int) == c,
            forall|x: int, y: int|
                0 <= x < old(self).cols() && 0 <= y < old(self).rows() && (x != cx || y != cy)
                    ==> #[trigger] final(self).at(x, y) == old(self).at(x, y),
    {
        let ghost w = self.w as int;
        let ghost h = self.h as int;
        proof {
            lemma_area_fits(self.w, self.h);
            lemma_index_in_grid(cy as int, cx as int, w, h);
        }
        let idx = cy * (self.w as usize) + cx;
        self.cells.set(idx, c);
        assert forall|x: int, y: int|
            0 <= x < w && 0 <= y < h && (x != cx || y != cy) implies #[trigger] self.at(x, y) == old(
            self,
        ).at(x, y) by {
            lemma_index_in_grid(y, x, w, h);
            if y * w + x == cy * w + cx {
                lemma_index_unique(y, x, cy as int, cx as int, w);
            }
        }
    }

    /// The colour of column `col` in mask line `row`, or `default`.
    fn tint(mask: &[String], row: usize, col: usize, default: Color) -> (c: Color)
        ensures
            c == tint_at(views(mask@), row as int, col as int, default),
    {
        if row < mask.len() {
            let line = mask[row].as_str();
            assert(views(mask@)[row as int] == line@);
            if col < line.unicode_len() {
                match mask_color(line.get_char(col)) {
                    Some(c) => c,
                    None => default,
                }
            } else {
                default
            }
        } else {
            default
        }
    }

    /// Paints one sprite frame with its top-left corner at column `x`, row
    /// `y`. Each glyph that is not clear replaces the cell under it, in the
    /// colour its mask letter names or else `default`; clear glyphs leave
    /// what an earlier sprite drew. The frame is clipped to the grid.
    pub fn blit(
        &mut self,
        x: i32,
        y: i32,
        shape: &[String],
        mask: &[String],
        default: Color,
        auto_trans: bool,
        trans: char,
    )
        requires
            old(self).wf(),
        ensures
            final(self).wf(),
            final(self).cols() == old(self).cols(),
            final(self).rows() == old(self).rows(),
            forall|cx: int, cy: int|
                0 <= cx < old(self).cols() && 0 <= cy < old(self).rows() ==> #[trigger] final(self).at(cx, cy)
                    == paint(
                    old(self).at(cx, cy),
                    views(shape@),
                    views(mask@),
                    default,
                    auto_trans,
                    trans,
                    cy - y,
                    cx - x,
                ),
    {
        let ghost sh = views(shape@);
        let ghost mk = views(mask@);
        let ghost w = self.w as int;
        let ghost h = self.h as int;
        proof {
            lemma_area_fits(self.w, self.h);
        }
        let n_rows = shape.len();
        let mut r: usize = 0;
        while r < n_rows
            invariant
                n_rows == shape@.len(),
                sh == views(shape@),
                mk == views(mask@),
                w == self.w,
                h == self.h,
                self.w == old(self).w,
                self.h == old(self).h,
                self.wf(),
                w * h <= 0xFFFE_0001,
                r <= n_rows,
                forall|cx: int, cy: int|
                    0 <= cx < w && 0 <= cy < h ==> #[trigger] self.at(cx, cy) == if cy - y < r {
                        paint(old(self).at(cx, cy), sh, mk, default, auto_trans, trans, cy - y, cx - x)
                    } else {
                        old(self).at(cx, cy)
                    },
            decreases n_rows - r,
        {
            let line = shape[r].as_str();
            assert(sh[r as int] == line@);
            if (r as u64) <= 0x1_0000_0000 && 0 <= y as i64 + (r as u64) as i64 && y as i64 + ((r as u64) as i64)
                < self.h as i64 {
                let cy = (y as i64 + (r as u64) as i64) as usize;
                let mut k: usize = 0;
                let n_cols = line.unicode_len();
                for ch in it: line.chars()
                    invariant
                        it.seq() == line@,
                        n_cols == line@.len(),
                        k == it.index(),
                        line@ == sh[r as int],
                        r < n_rows,
                        n_rows == shape@.len(),
                        sh == views(shape@),
                        mk == views(mask@),
                        w == self.w,
                        h == self.h,
                        self.w == old(self).w,
                        self.h == old(self).h,
                        self.wf(),
                        w * h <= 0xFFFE_0001,
                        cy == y + r,
                        0 <= cy < h,
                        forall|cx: int, cy2: int|
                            0 <= cx < w && 0 <= cy2 < h ==> #[trigger] self.at(cx, cy2) == if cy2 - y < r
                                || (cy2 - y == r && cx - x < k) {
                                paint(
                                    old(self).at(cx, cy2),
                                    sh,
                                    mk,
                                    default,
                                    auto_trans,
                                    trans,
                                    cy2 - y,
                                    cx - x,
                                )
                            } else {
                                old(self).at(cx, cy2)
                            },
                {
                    assert(line@[k as int] == ch);
                    let clear = ch == trans || (auto_trans && ch == ' ');
                    if !clear && (k as u64) <= 0x1_0000_0000 && 0 <= x as i64 + (k as u64) as i64 && x as i64 + ((
                    k as u64) as i64) < self.w as i64 {
                        let cx = (x as i64 + (k as u64) as i64) as usize;
                        let fg = Self::tint(mask, r, k, default);
                        self.put(cx, cy, Cell { ch, fg });
                    }
                    k += 1;
                }
            }
            r += 1;
        }
    }

    /// The grid as plain text: one line per row, glyphs only, rows separated
    /// by newlines.
    pub fn to_text(&self) -> (out: String)
        requires
            self.wf(),
        ensures
            out@ == grid_text(self.grid(), self.cols(), self.rows()),
    {
        let ghost g = self.grid();
        let ghost w = self.cols();
        proof {
            lemma_area_fits(self.w, self.h);
        }
        let mut out = String::new();
        let mut r: u16 = 0;
        while r < self.h
            invariant
                self.wf(),
                g == self.grid(),
                w == self.cols(),
                self.w * self.h <= 0xFFFE_0001,
                r <= self.h,
                out@ == grid_text(g, w, r as nat),
            decreases self.h - r,
        {
            let ghost prefix = out@;
            if r > 0 {
                push_char(&mut out, '\n');
            }
            let ghost start = out@;
            let mut c: u16 = 0;
            while c < self.w
                invariant
                    self.wf(),
                    g == self.grid(),
                    w == self.cols(),
                    self.w * self.h <= 0xFFFE_0001,
                    r < self.h,
                    c <= self.w,
                    out@ == start + row_glyphs(g, w, r as int).take(c as int),
                decreases self.w - c,
            {
                let cell = self.cell_at(c, r);
                assert(row_glyphs(g, w, r as int).take(c + 1) == row_glyphs(g, w, r as int).take(c as int).push(cell.ch));
                push_char(&mut out, cell.ch);
                c += 1;
            }
            assert(row_glyphs(g, w, r as int).take(c as int) == row_glyphs(g, w, r as int));
            r += 1;
        }
        out
    }

    /// Appends `op` to `ops`, keeping `inks_change` and `home_first`.
    fn push_op(ops: &mut Vec<Paint>, op: Paint)
        requires
            inks_change(old(ops)@),
            home_first(old(ops)@) || (old(ops)@.len() == 0 && op is Home),
            op is Ink ==> op->Ink_0 != ink_after(old(ops)@),
            old(ops)@.len() > 0 ==> !(op is Home),
            inks_lead_text(old(ops)@),
            old(ops)@.len() > 0 && old(ops)@.last() is Ink ==> match op {
                Paint::Text(t) => t@.len() > 0,
                _ => false,
            },
        ensures
            final(ops)@ == old(ops)@.push(op),
            inks_change(final(ops)@),
            home_first(final(ops)@),
            inks_lead_text(final(ops)@),
            ink_led(final(ops)@) == ink_led(old(ops)@) + match op {
                Paint::Text(t) => fresh_marks(old(ops)@, t@.len()),
                _ => Seq::empty(),
            },
            ink_after(final(ops)@) == match op {
                Paint::Ink(c) => c,
                _ => ink_after(old(ops)@),
            },
            shown(final(ops)@) == shown(old(ops)@) + match op {
                Paint::Text(t) => t@.map_values(|ch: char| (ch, ink_after(old(ops)@))),
                _ => Seq::empty(),
            },
    {
        let ghost before = ops@;
        ops.push(op);
        proof {
            lemma_push_inks_change(before, op);
            lemma_push_lead(before, op);
            lemma_push_led(before, op);
            assert(ops@.drop_last() =~= before);
        }
    }

    /// Moves the pending text into a step of its own, so that the steps
    /// print what they printed before and the pending text is empty.
    fn flush(ops: &mut Vec<Paint>, line: &mut String, cur: Color)
        requires
            drawing(old(ops)@, old(line)@, cur),
        ensures
            drawing(final(ops)@, final(line)@, cur),
            final(line)@.len() == 0,
            printed(final(ops)@, final(line)@, cur) == printed(old(ops)@, old(line)@, cur),
            !(final(ops)@.last() is Ink),
    {
        reveal(drawing);
        let ghost before = ops@;
        let ghost text = line@;
        let mut t = String::new();
        std::mem::swap(&mut t, line);
        assert(t@ == text);
        Self::push_op(ops, Paint::Text(t));
        assert(shown(ops@) == shown(before) + text.map_values(|ch: char| (ch, cur)));
        assert(line@.map_values(|ch: char| (ch, cur)) =~= Seq::<(char, Color)>::empty());
        assert(printed(ops@, line@, cur) =~= shown(ops@));
        assert(ink_led(ops@) == ink_led(before) + fresh_marks(before, text.len()));
        assert(fresh_marks(ops@, 0) =~= Seq::<bool>::empty());
        assert(ink_led(ops@) + fresh_marks(ops@, 0) =~= ink_led(ops@));
    }

    /// Prints one more character in colour `fg`, switching colour first only
    /// when `fg` differs from the colour in effect.
    fn emit(ops: &mut Vec<Paint>, line: &mut String, cur: &mut Color, ch: char, fg: Color)
        requires
            drawing(old(ops)@, old(line)@, *old(cur)),
        ensures
            drawing(final(ops)@, final(line)@, *final(cur)),
            *final(cur) == fg,
            printed(final(ops)@, final(line)@, *final(cur)) == printed(old(ops)@, old(line)@, *old(cur)).push(
                (ch, fg),
            ),
    {
        reveal(drawing);
        let ghost x = printed(ops@, line@, *cur);
        if fg != *cur {
            if line.as_str().unicode_len() > 0 {
                Self::flush(ops, line, *cur);
            }
            assert(line@.map_values(|c: char| (c, *cur)) =~= Seq::<(char, Color)>::empty());
            assert(printed(ops@, line@, *cur) =~= shown(ops@));
            assert(fresh_marks(ops@, 0) =~= Seq::<bool>::empty());
            let ghost before = ops@;
            Self::push_op(ops, Paint::Ink(fg));
            *cur = fg;
            assert(ink_led(ops@) + Seq::<bool>::empty() =~= ink_led(before));
            assert(fresh_marks(ops@, 0) =~= Seq::<bool>::empty());
            assert(printed(ops@, line@, *cur) =~= shown(ops@));
            assert(ink_led(ops@) + fresh_marks(ops@, 0) =~= ink_led(ops@));
        }
        let ghost y = printed(ops@, line@, *cur);
        assert(y == x);
        proof {
            lemma_mark_next(ops@, line@.len(), y, ch, fg);
        }
        let ghost old_line = line@;
        push_char(line, ch);
        assert(line@.map_values(|c: char| (c, fg)) =~= old_line.map_values(|c: char| (c, fg)).push((ch, fg)));
        assert(printed(ops@, line@, *cur) =~= y.push((ch, fg)));
    }

    /// The steps that draw the grid on a terminal: cursor home, then each row
    /// left to right, rows separated by `"\r\n"`. A colour switch comes
    /// directly before exactly those characters whose colour differs from
    /// the one printed before them (the first compared with the terminal's
    /// own colour), and never two without a character between them.
    pub fn paint_ops(&self) -> (ops: Vec<Paint>)
        requires
            self.wf(),
        ensures
            home_first(ops@),
            inks_change(ops@),
            shown(ops@) == screen_out(self.grid(), self.cols(), self.rows()),
            ink_led(ops@) == color_changes(shown(ops@)),
            inks_lead_text(ops@),
            !(ops@.last() is Ink),
    {
        let ghost g = self.grid();
        let ghost w = self.cols();
        let ghost h = self.rows();
        proof {
            lemma_area_fits(self.w, self.h);
        }
        let mut ops: Vec<Paint> = Vec::new();
        Self::push_op(&mut ops, Paint::Home);
        let mut cur = Color::Reset;
        let mut line = String::new();
        assert(shown(ops@) =~= Seq::<(char, Color)>::empty()) by {
            assert(ops@.drop_last() =~= Seq::<Paint>::empty());
        }
        assert(ink_led(ops@) =~= Seq::<bool>::empty()) by {
            assert(ops@.drop_last() =~= Seq::<Paint>::empty());
        }
        assert(printed(ops@, line@, cur) =~= Seq::<(char, Color)>::empty());
        assert(color_changes(Seq::<(char, Color)>::empty()) =~= Seq::<bool>::empty());
        assert(fresh_marks(ops@, 0) =~= Seq::<bool>::empty());
        assert(drawing(ops@, line@, cur)) by {
            reveal(drawing);
        }
        let mut r: u16 = 0;
        while r < self.h
            invariant
                self.wf(),
                g == self.grid(),
                w == self.cols(),
                h == self.rows(),
                self.w * self.h <= 0xFFFE_0001,
                r <= self.h,
                drawing(ops@, line@, cur),
                cur == ink_before(g, w, r as int, 0),
                printed(ops@, line@, cur) == if r == 0 {
                    Seq::empty()
                } else if r < h {
                    screen_out(g, w, r as nat) + break_after(g, w, r - 1)
                } else {
                    screen_out(g, w, h)
                },
            decreases self.h - r,
        {
            let ghost base = printed(ops@, line@, cur);
            let mut c: u16 = 0;
            while c < self.w
                invariant
                    self.wf(),
                    g == self.grid(),
                    w == self.cols(),
                    h == self.rows(),
                    self.w * self.h <= 0xFFFE_0001,
                    r < self.h,
                    c <= self.w,
                    drawing(ops@, line@, cur),
                    cur == ink_before(g, w, r as int, c as int),
                    printed(ops@, line@, cur) == base + row_out(g, w, r as int).take(c as int),
                decreases self.w - c,
            {
                let cell = self.cell_at(c, r);
                Self::emit(&mut ops, &mut line, &mut cur, cell.ch, cell.fg);
                assert(row_out(g, w, r as int).take(c + 1) =~= row_out(g, w, r as int).take(c as int).push(
                    (cell.ch, cell.fg),
                ));
                c += 1;
            }
            assert(row_out(g, w, r as int).take(c as int) =~= row_out(g, w, r as int));
            assert(cur == ink_after_row(g, w, r as int));
            if r + 1 < self.h {
                let ghost mid = printed(ops@, line@, cur);
                let k = cur;
                Self::emit(&mut ops, &mut line, &mut cur, '\r', k);
                Self::emit(&mut ops, &mut line, &mut cur, '\n', k);
                assert(printed(ops@, line@, cur) =~= mid + break_after(g, w, r as int));
            }
            r += 1;
        }
        Self::flush(&mut ops, &mut line, cur);
        proof {
            reveal(drawing);
        }
        assert(line@.map_values(|c: char| (c, cur)) =~= Seq::<(char, Color)>::empty());
        assert(printed(ops@, line@, cur) =~= shown(ops@));
        assert(fresh_marks(ops@, 0) =~= Seq::<bool>::empty());
        assert(ink_led(ops@) + fresh_marks(ops@, 0) =~= ink_led(ops@));
        ops
    }

    /// Resets every cell to blank.
    pub fn clear(&mut self)
        requires
            old(self).wf(),
        ensures
            final(self).wf(),
            final(self).cols() == old(self).cols(),
            final(self).rows() == old(self).rows(),
            final(self).grid().len() == old(self).grid().len(),
            forall|i: int| 0 <= i < final(self).grid().len() ==> final(self).grid()[i] == blank(),
            forall|x: int, y: int|
                0 <= x < final(self).cols() && 0 <= y < final(self).rows() ==> #[trigger] final(self).at(x, y) == blank(),
    {
        let n = self.cells.len();
        let mut i: usize = 0;
        while i < n
            invariant
                n == self.cells@.len(),
                self.cells@.len() == self.w as int * self.h as int,
                self.w == old(self).w,
                self.h == old(self).h,
                self.cells@.len() == old(self).cells@.len(),
                i <= n,
                forall|j: int| 0 <= j < i ==> self.cells@[j] == blank(),
            decreases n - i,
        {
            self.cells.set(i, Cell::default());
            i += 1;
        }
        assert forall|x: int, y: int|
            0 <= x < self.cols() && 0 <= y < self.rows() implies #[trigger] self.at(x, y) == blank() by {
            lemma_index_in_grid(y, x, self.w as int, self.h as int);
        }
    }
}

} // verus!
