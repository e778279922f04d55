//! Spawners: how each creature of the aquarium is built from its art, where
//! it starts, which way it heads and how it ends.

use vstd::prelude::*;

use rand::rngs::ThreadRng;

use crate::chance::between;
use crate::entity::{max_len, rand_color, resolve_fish_mask, resolves_to, Body, EntityType, Frame, OnDeath};
use crate::render::Color;
use crate::text::{
    drop_trailing_empty, joined, perl_split_nl, push_char, split_on, strip_leading_newline, text_lines, views,
};

verus! {

/// Depths: lower draws on top.
pub const Z_SHARK: i32 = 2;
pub const Z_TEETH: i32 = 3;
pub const Z_SEAWEED: i32 = 21;
pub const Z_CASTLE: i32 = 22;
/// Depth of the ship, in the gap between the water lines.
pub const Z_WATER_GAP1: i32 = 7;
/// Depth of the whale and the sea monster.
pub const Z_WATER_GAP2: i32 = 5;
pub const Z_BIG_FISH: i32 = 2;
/// The top row of the water surface.
pub const WATER_TOP: i32 = 5;
/// Roughly ten ticks per second.
pub const TICKS_PER_SEC: u64 = 10;

/// A per-tick rate, in thousandths of a cell (or of a frame).
#[derive(PartialEq, Eq, Structural)]
pub enum Rate {
    /// Exactly this many thousandths per tick.
    Fixed(i32),
    /// Drawn when the creature is made, uniformly from the real interval
    /// `[lo, hi)` thousandths, then negated if `negate`.
    Drawn { lo: i32, hi: i32, negate: bool },
}

/// A creature ready to enter the tank: its body, the column and row of its
/// top-left corner, and how fast it moves and animates.
pub struct Spawn {
    pub body: Body,
    pub x: i32,
    pub y: i32,
    pub dx: Rate,
    pub dy: Rate,
    pub frame_speed: Rate,
}

/// `f` is the frame built from shape text `shape` and mask text `mask`.
pub open spec fn frame_of(f: Frame, shape: Seq<char>, mask: Seq<char>) -> bool {
    &&& f.shape_lines() == text_lines(strip_leading_newline(shape))
    &&& f.mask_lines() == text_lines(strip_leading_newline(mask))
}

/// `n` copies of `s`, one after another.
pub open spec fn repeated(s: Seq<char>, n: nat) -> Seq<char>
    decreases n,
{
    if n == 0 {
        Seq::empty()
    } else {
        repeated(s, (n - 1) as nat) + s
    }
}

/// `n` copies of `s`, one after another.
pub fn repeat_str(s: &str, n: usize) -> (out: String)
    ensures
        out@ == repeated(s@, n as nat),
{
    let mut out = String::new();
    let mut i: usize = 0;
    while i < n
        invariant
            i <= n,
            out@ == repeated(s@, i as nat),
        decreases n - i,
    {
        out.append(s);
        i += 1;
    }
    out
}

/// One strand of seaweed, `n` rows tall, as text: row `i` (counting from 1)
/// is `"("` when `i` is odd exactly if `odd_left`, else `" )"`.
pub open spec fn strand(n: nat, odd_left: bool) -> Seq<char>
    decreases n,
{
    if n == 0 {
        Seq::empty()
    } else {
        strand((n - 1) as nat, odd_left) + if (n % 2 == 1) == odd_left {
            seq!['(', '\n']
        } else {
            seq![' ', ')', '\n']
        }
    }
}

/// The two frames of a seaweed strand `height` rows tall, as text: the
/// first leans one way on odd rows, the second the other way.
fn strand_texts(height: i32) -> (r: (String, String))
    requires
        0 <= height < i32::MAX,
    ensures
        r.0@ == strand(height as nat, false),
        r.1@ == strand(height as nat, true),
{
    let mut f0 = String::new();
    let mut f1 = String::new();
    let mut i: i32 = 1;
    while i <= height
        invariant
            1 <= i <= height + 1,
            height < i32::MAX,
            f0@ == strand((i - 1) as nat, false),
            f1@ == strand((i - 1) as nat, true),
        decreases height + 1 - i,
    {
        if i % 2 == 1 {
            push_char(&mut f1, '(');
            push_char(&mut f1, '\n');
            push_char(&mut f0, ' ');
            push_char(&mut f0, ')');
            push_char(&mut f0, '\n');
        } else {
            push_char(&mut f0, '(');
            push_char(&mut f0, '\n');
            push_char(&mut f1, ' ');
            push_char(&mut f1, ')');
            push_char(&mut f1, '\n');
        }
        assert(f0@ =~= strand(i as nat, false));
        assert(f1@ =~= strand(i as nat, true));
        i += 1;
    }
    (f0, f1)
}

/// The surface rows as `water` builds them.
pub open spec fn water_built(out: Seq<Spawn>, w: u16, segments: Seq<&str>) -> bool {
    &&& out.len() == segments.len()
    &&& forall|i: int|
            0 <= i < out.len() ==> {
                let e = #[trigger] out[i];
                &&& e.body.etype == EntityType::Waterline
                &&& e.x == 0
                &&& e.y == WATER_TOP + i
                &&& e.body.z == 8 - 2 * i
                &&& e.body.frames@.len() == 1
                &&& frame_of(
                    e.body.frames@[0],
                    repeated(
                        segments[i]@,
                        (w as nat / (segments[0].len() as nat) + 1) as nat,
                    ),
                    Seq::empty(),
                )
                &&& e.body.default_color == Color::DarkCyan
                &&& e.body.physical
                &&& !e.body.auto_trans
                &&& e.body.trans == '?'
                &&& !e.body.die_offscreen
                &&& e.body.die_frame is None
                &&& e.body.die_tick is None
                &&& e.body.on_death == OnDeath::Nothing
                &&& e.body.alive
                &&& e.dx == Rate::Fixed(0)
                &&& e.dy == Rate::Fixed(0)
                &&& e.frame_speed == Rate::Fixed(0)
            }
}

/// The water surface: each segment tiled across the width (enough copies to
/// reach past the right edge), one row each from `WATER_TOP` down, at
/// descending depths 8, 6, 4, 2.
pub fn water(w: u16, segments: &[&str]) -> (out: Vec<Spawn>)
    requires
        1 <= segments@.len() <= 4,
        segments@[0].len() > 0,
    ensures
        water_built(out@, w, segments@),
{
    let seg_w = segments[0].len();
    let repeat = w as usize / seg_w + 1;
    let mut out: Vec<Spawn> = Vec::new();
    let mut i: usize = 0;
    while i < segments.len()
        invariant
            1 <= segments@.len() <= 4,
            seg_w == segments@[0].len(),
            seg_w > 0,
            repeat == w as nat / (seg_w as nat) + 1,
            i <= segments@.len(),
            out@.len() == i,
            forall|j: int|
                0 <= j < i ==> {
                    let e = #[trigger] out@[j];
                    &&& e.body.etype == EntityType::Waterline
                    &&& e.x == 0
                    &&& e.y == WATER_TOP + j
                    &&& e.body.z == 8 - 2 * j
                    &&& e.body.frames@.len() == 1
                    &&& frame_of(e.body.frames@[0], repeated(segments@[j]@, repeat as nat), Seq::empty())
                    &&& e.body.default_color == Color::DarkCyan
                    &&& e.body.physical
                    &&& !e.body.auto_trans
                    &&& e.body.trans == '?'
                    &&& !e.body.die_offscreen
                    &&& e.body.die_frame is None
                    &&& e.body.die_tick is None
                    &&& e.body.on_death == OnDeath::Nothing
                    &&& e.body.alive
                    &&& e.dx == Rate::Fixed(0)
                    &&& e.dy == Rate::Fixed(0)
                    &&& e.frame_speed == Rate::Fixed(0)
                },
        decreases segments@.len() - i,
    {
        let text = repeat_str(segments[i], repeat);
        let none = String::new();
        let frame = Frame::new(text.as_str(), none.as_str());
        let mut frames: Vec<Frame> = Vec::new();
        frames.push(frame);
        let z: i32 = 8 - 2 * (i as i32);
        let mut body = Body::new(EntityType::Waterline, z, frames);
        body.default_color = Color::DarkCyan;
        body.physical = true;
        out.push(
            Spawn {
                body,
                x: 0,
                y: WATER_TOP + i as i32,
                dx: Rate::Fixed(0),
                dy: Rate::Fixed(0),
                frame_speed: Rate::Fixed(0),
            },
        );
        i += 1;
    }
    out
}

/// The castle as `castle` builds it.
pub open spec fn castle_built(e: Spawn, w: u16, h: u16, art: Seq<&str>) -> bool {
    &&& e.body.etype == EntityType::Castle
    &&& e.x == w - 32
    &&& e.y == h - 13
    &&& e.body.z == Z_CASTLE
    &&& e.body.frames@.len() == 1
    &&& frame_of(e.body.frames@[0], art[0]@, art[1]@)
    &&& e.body.default_color == Color::DarkGrey
    &&& !e.body.auto_trans
    &&& e.body.trans == '?'
    &&& !e.body.physical
    &&& !e.body.die_offscreen
    &&& e.body.die_frame is None
    &&& e.body.die_tick is None
    &&& e.body.on_death == OnDeath::Nothing
    &&& e.body.alive
    &&& e.dx == Rate::Fixed(0)
    &&& e.dy == Rate::Fixed(0)
    &&& e.frame_speed == Rate::Fixed(0)
}

/// The castle, anchored to the bottom-right corner: 32 columns in from the
/// right edge and 13 rows up from the bottom. `art` holds its shape and mask.
pub fn castle(w: u16, h: u16, art: &[&str]) -> (e: Spawn)
    requires
        art@.len() >= 2,
    ensures
        castle_built(e, w, h, art@),
{
    let mut frames: Vec<Frame> = Vec::new();
    frames.push(Frame::new(art[0], art[1]));
    let mut body = Body::new(EntityType::Castle, Z_CASTLE, frames);
    // Filler spaces are opaque; the body renders in grey.
    body.default_color = Color::DarkGrey;
    Spawn {
        body,
        x: w as i32 - 32,
        y: h as i32 - 13,
        dx: Rate::Fixed(0),
        dy: Rate::Fixed(0),
        frame_speed: Rate::Fixed(0),
    }
}

/// The seaweed strand as `seaweed` builds it.
pub open spec fn seaweed_built(e: Spawn, w: u16, h: u16, tick: u64) -> bool {
    &&& e.body.etype == EntityType::Seaweed
    &&& e.body.z == Z_SEAWEED
    &&& exists|height: int|
            3 <= height < 7 && e.y == h - height && e.body.frames@.len() == 2 && frame_of(
                e.body.frames@[0],
                #[trigger] strand(height as nat, false),
                Seq::empty(),
            ) && frame_of(e.body.frames@[1], strand(height as nat, true), Seq::empty())
    &&& w >= 3 ==> 1 <= e.x < w - 1
    &&& w < 3 ==> e.x == 1
    &&& e.body.default_color == Color::DarkGreen
    &&& !e.body.auto_trans
    &&& e.body.trans == '?'
    &&& !e.body.physical
    &&& !e.body.die_offscreen
    &&& e.body.die_frame is None
    &&& e.body.die_tick matches Some(t) && tick + 480 * TICKS_PER_SEC <= t < tick + 720
            * TICKS_PER_SEC && (t - tick) % 10 == 0
    &&& e.body.on_death == OnDeath::Seaweed
    &&& e.body.age == 0
    &&& e.body.alive
    &&& e.dx == Rate::Fixed(0)
    &&& e.dy == Rate::Fixed(0)
    &&& e.frame_speed == (Rate::Drawn { lo: 250, hi: 300, negate: false })
}

/// One strand of seaweed: a random height of 3 to 6 rows, two alternating
/// frames leaning opposite ways, a random spot along the floor, a sway of
/// 0.25 to 0.30 frames per tick, and a life of 8 to 12 minutes (in ticks from
/// `tick`), after which a fresh strand replaces it.
pub fn seaweed(w: u16, h: u16, tick: u64, rng: &mut ThreadRng) -> (e: Spawn)
    requires
        tick <= u64::MAX - 720 * TICKS_PER_SEC,
    ensures
        seaweed_built(e, w, h, tick),
{
    let height = between(rng, 3, 7);
    let (f0, f1) = strand_texts(height);
    let none = String::new();
    let mut frames: Vec<Frame> = Vec::new();
    frames.push(Frame::new(f0.as_str(), none.as_str()));
    frames.push(Frame::new(f1.as_str(), none.as_str()));
    let x = between(rng, 1, w as i32 - 1);
    let y = h as i32 - height;
    let mut body = Body::new(EntityType::Seaweed, Z_SEAWEED, frames);
    body.default_color = Color::DarkGreen;
    // Lives 8 to 12 minutes, then a fresh strand replaces it.
    let secs = between(rng, 8 * 60, 12 * 60) as u64;
    body.die_tick = Some(tick + secs * TICKS_PER_SEC);
    body.on_death = OnDeath::Seaweed;
    Spawn {
        body,
        x,
        y,
        dx: Rate::Fixed(0),
        dy: Rate::Fixed(0),
        frame_speed: Rate::Drawn { lo: 250, hi: 300, negate: false },
    }
}

/// Art whose frames fit the `i32` measures of a frame: fewer than `i32::MAX`
/// lines, none longer than `i32::MAX` characters.
pub open spec fn fits_frame(text: Seq<char>) -> bool {
    let ls = text_lines(strip_leading_newline(text));
    &&& ls.len() <= i32::MAX
    &&& forall|i: int| 0 <= i < ls.len() ==> #[trigger] ls[i].len() <= i32::MAX
}

/// A fish set: shape and mask pairs, each shape in a frame that fits.
pub open spec fn fish_set_ok(set: Seq<&str>) -> bool {
    &&& 2 <= set.len() <= i32::MAX
    &&& forall|i: int| 0 <= i < set.len() ==> fits_frame(#[trigger] set[i]@)
}

/// `e` is fish number `k` of `set`, placed for a `w` by `h` tank: even
/// numbers face right and enter at the left edge, odd ones face left and
/// enter at the right edge; eye forced white, other mask digits random.
pub open spec fn fish_pick(e: Spawn, w: u16, h: u16, set: Seq<&str>, k: int) -> bool {
    let shape = text_lines(strip_leading_newline(set[2 * k]@));
    let fw = max_len(shape) as int;
    let fh = shape.len() as int;
    let right = k % 2 == 0;
    &&& 0 <= k < set.len() / 2
    &&& e.body.frames@.len() == 1
    &&& e.body.frames@[0].shape_lines() == shape
    &&& exists|m: Seq<char>|
        resolves_to(set[2 * k + 1]@, seq![('4', 'W')], m) && e.body.frames@[0].mask_lines()
            == #[trigger] text_lines(strip_leading_newline(m))
    &&& e.x == if right {
        1 - fw
    } else {
        w - 2
    }
    &&& (9 < h - fh ==> 9 <= e.y < h - fh)
    &&& (h - fh <= 9 ==> e.y == 9)
    &&& e.dx == (Rate::Drawn { lo: 250, hi: 2250, negate: !right })
}

/// The fish as `fish` builds it.
pub open spec fn fish_built(e: Spawn, w: u16, h: u16, classic: bool, old_set: Seq<&str>, new_set: Seq<&str>) -> bool {
    &&& e.body.etype == EntityType::Fish
    &&& 3 <= e.body.z < 20
    &&& exists|k: int|
            #![trigger fish_pick(e, w, h, old_set, k)]
            #![trigger fish_pick(e, w, h, new_set, k)]
            fish_pick(e, w, h, old_set, k) || (!classic && fish_pick(e, w, h, new_set, k))
    &&& e.body.default_color == Color::White
    &&& e.body.auto_trans
    &&& e.body.trans == '?'
    &&& e.body.physical
    &&& e.body.die_offscreen
    &&& e.body.die_frame is None
    &&& e.body.die_tick is None
    &&& e.body.on_death == OnDeath::Fish
    &&& e.body.age == 0
    &&& e.body.alive
    &&& e.dy == Rate::Fixed(0)
    &&& e.frame_speed == Rate::Fixed(0)
}

/// One fish built after the art-set roll `roll` (0 to 11): outside classic
/// mode a roll above 8 takes it from the new set, any other roll, and every
/// fish in classic mode, from the classic set. Its number, depth, facing,
/// speed, row and colours are drawn at random. Even fish numbers face
/// right; odd ones face left.
pub fn fish_with_roll(
    roll: i32,
    w: u16,
    h: u16,
    classic: bool,
    rng: &mut ThreadRng,
    old_set: &[&str],
    new_set: &[&str],
) -> (e: Spawn)
    requires
        0 <= roll < 12,
        fish_set_ok(old_set@),
        fish_set_ok(new_set@),
    ensures
        fish_built(e, w, h, classic, old_set@, new_set@),
        !classic && roll > 8 ==> exists|k: int| #[trigger] fish_pick(e, w, h, new_set@, k),
        !(!classic && roll > 8) ==> exists|k: int| #[trigger] fish_pick(e, w, h, old_set@, k),
{
    let new = !classic && roll > 8;
    let arr: &[&str] = if new { new_set } else { old_set };
    let count = arr.len() / 2;
    let fish_num = between(rng, 0, count as i32) as usize;
    let idx = fish_num * 2;
    let right = fish_num % 2 == 0;
    let mask = resolve_fish_mask(arr[idx + 1], rng);
    let frame = Frame::new(arr[idx], mask.as_str());
    assert(fits_frame(arr@[idx as int]@));
    assert(frame.shape_lines() == text_lines(strip_leading_newline(arr@[idx as int]@)));
    assert forall|i: int| 0 <= i < frame.shape@.len() implies #[trigger] frame.shape@[i]@.len() <= i32::MAX by {
        assert(frame.shape_lines()[i] == frame.shape@[i]@);
    }
    let fw = frame.width();
    let fh = frame.height();
    let z = between(rng, 3, 20);
    let y = between(rng, 9, h as i32 - fh);
    let x = if right {
        1 - fw
    } else {
        w as i32 - 2
    };
    let mut frames: Vec<Frame> = Vec::new();
    frames.push(frame);
    let mut body = Body::new(EntityType::Fish, z, frames);
    body.default_color = Color::White;
    body.auto_trans = true;
    body.physical = true;
    body.die_offscreen = true;
    body.on_death = OnDeath::Fish;
    let e = Spawn {
        body,
        x,
        y: y,
        dx: Rate::Drawn { lo: 250, hi: 2250, negate: !right },
        dy: Rate::Fixed(0),
        frame_speed: Rate::Fixed(0),
    };
    assert(e.body.frames@[0].mask_lines() == text_lines(strip_leading_newline(mask@)));
    assert(fish_pick(e, w, h, arr@, fish_num as int));
    assert(fish_pick(e, w, h, old_set@, fish_num as int) || (!classic && fish_pick(e, w, h, new_set@, fish_num as int)));
    e
}

/// One fish, at a random depth, facing, speed and row, from the classic set
/// or (outside classic mode, about one time in four: a roll of 9 to 11 out
/// of 0 to 11) the new set. Even fish numbers face right; odd ones face
/// left. In classic mode no roll is drawn.
pub fn fish(
    w: u16,
    h: u16,
    classic: bool,
    rng: &mut ThreadRng,
    old_set: &[&str],
    new_set: &[&str],
) -> (e: Spawn)
    requires
        fish_set_ok(old_set@),
        fish_set_ok(new_set@),
    ensures
        fish_built(e, w, h, classic, old_set@, new_set@),
        classic ==> exists|k: int| #[trigger] fish_pick(e, w, h, old_set@, k),
{
    let roll = if classic {
        0
    } else {
        between(rng, 0, 12)
    };
    fish_with_roll(roll, w, h, classic, rng, old_set, new_set)
}

/// The body of a bubble blown by a fish at depth `fish_z`: one frame per
/// growth stage of `art`, just in front of its fish, cyan, spaces clear,
/// popped when it leaves the screen.
pub fn bubble_body(fish_z: i32, art: &[&str]) -> (b: Body)
    requires
        fish_z > i32::MIN,
    ensures
        b.etype == EntityType::Bubble,
        b.z == fish_z - 1,
        b.frames@.len() == art@.len(),
        forall|i: int| 0 <= i < art@.len() ==> frame_of(#[trigger] b.frames@[i], art@[i]@, Seq::empty()),
        b.default_color == Color::Cyan,
        !b.auto_trans,
        b.trans == ' ',
        b.physical,
        b.die_offscreen,
        b.die_frame is None,
        b.die_tick is None,
        b.on_death == OnDeath::Nothing,
        b.age == 0,
        b.alive,
{
    let frames = frames_of(art);
    let mut b = Body::new(EntityType::Bubble, fish_z - 1, frames);
    b.default_color = Color::Cyan;
    b.trans = ' ';
    b.physical = true;
    b.die_offscreen = true;
    b
}

/// One frame per text of `art`, each with no mask.
fn frames_of(art: &[&str]) -> (out: Vec<Frame>)
    ensures
        out@.len() == art@.len(),
        forall|i: int| 0 <= i < art@.len() ==> frame_of(#[trigger] out@[i], art@[i]@, Seq::empty()),
{
    let none = String::new();
    let mut out: Vec<Frame> = Vec::new();
    let mut i: usize = 0;
    while i < art.len()
        invariant
            i <= art@.len(),
            none@ == Seq::<char>::empty(),
            out@.len() == i,
            forall|j: int| 0 <= j < i ==> frame_of(#[trigger] out@[j], art@[j]@, Seq::empty()),
        decreases art@.len() - i,
    {
        out.push(Frame::new(art[i], none.as_str()));
        i += 1;
    }
    out
}

/// A short-lived splat where a shark's teeth met a fish: centred on the
/// meal, drawn two depths in front of it, red, gone after 15 ticks.
pub fn splat(x: i32, y: i32, z: i32, art: &[&str]) -> (e: Spawn)
    requires
        x >= i32::MIN + 4,
        y >= i32::MIN + 2,
        z >= i32::MIN + 2,
    ensures
        e.body.etype == EntityType::Splat,
        e.x == x - 4,
        e.y == y - 2,
        e.body.z == z - 2,
        e.body.frames@.len() == art@.len(),
        forall|i: int| 0 <= i < art@.len() ==> frame_of(#[trigger] e.body.frames@[i], art@[i]@, Seq::empty()),
        e.body.default_color == Color::Red,
        !e.body.auto_trans,
        e.body.trans == ' ',
        !e.body.physical,
        !e.body.die_offscreen,
        e.body.die_frame == Some(15u32),
        e.body.die_tick is None,
        e.body.on_death == OnDeath::Nothing,
        e.body.age == 0,
        e.body.alive,
        e.dx == Rate::Fixed(0),
        e.dy == Rate::Fixed(0),
        e.frame_speed == Rate::Fixed(250),
{
    let frames = frames_of(art);
    let mut body = Body::new(EntityType::Splat, z - 2, frames);
    body.default_color = Color::Red;
    body.trans = ' ';
    body.die_frame = Some(15);
    Spawn { body, x: x - 4, y: y - 2, dx: Rate::Fixed(0), dy: Rate::Fixed(0), frame_speed: Rate::Fixed(250) }
}

/// The flags every roaming special shares: spaces clear, leaves by swimming
/// off-screen, and its death brings on the next special.
pub open spec fn special_flags(b: Body) -> bool {
    &&& b.auto_trans
    &&& b.trans == '?'
    &&& !b.physical
    &&& b.die_offscreen
    &&& b.die_frame is None
    &&& b.die_tick is None
    &&& b.on_death == OnDeath::RandomObject
    &&& b.age == 0
    &&& b.alive
}

/// Makes `b` a roaming special: spaces clear, dies off-screen, and its death
/// brings on the next special.
fn make_special(b: &mut Body)
    requires
        old(b).trans == '?',
        !old(b).physical,
        old(b).die_frame is None,
        old(b).die_tick is None,
        old(b).age == 0,
        old(b).alive,
    ensures
        special_flags(*final(b)),
        final(b).etype == old(b).etype,
        final(b).z == old(b).z,
        final(b).frames@ == old(b).frames@,
        final(b).default_color == old(b).default_color,
{
    b.auto_trans = true;
    b.die_offscreen = true;
    b.on_death = OnDeath::RandomObject;
}

/// The shark and its teeth as `shark` builds them.
pub open spec fn shark_built(out: Seq<Spawn>, w: u16, h: u16, art: Seq<&str>) -> bool {
    &&& out.len() == 2
    &&& ({
            let teeth = out[0];
            let s = out[1];
            &&& teeth.body.etype == EntityType::Teeth
            &&& s.body.etype == EntityType::Shark
            &&& exists|dir: int|
                0 <= dir < 2 && s.body.frames@.len() == 1 && frame_of(
                    s.body.frames@[0],
                    #[trigger] art[dir]@,
                    art[2 + dir]@,
                ) && (dir == 0 ==> s.x == -53 && teeth.x == -9 && s.dx == Rate::Fixed(2000)) && (dir
                    == 1 ==> s.x == w - 2 && teeth.x == w + 7 && s.dx == Rate::Fixed(-2000i32))
            &&& (9 < h - 10 ==> 9 <= s.y < h - 10)
            &&& (h - 10 <= 9 ==> s.y == 9)
            &&& teeth.y == s.y + 7
            &&& teeth.dx == s.dx
            &&& teeth.body.z == Z_TEETH
            &&& s.body.z == Z_SHARK
            &&& teeth.body.frames@.len() == 1
            &&& frame_of(teeth.body.frames@[0], seq!['*'], Seq::empty())
            &&& teeth.body.default_color == Color::White
            &&& teeth.body.physical
            &&& !teeth.body.auto_trans
            &&& !teeth.body.die_offscreen
            &&& teeth.body.on_death == OnDeath::Nothing
            &&& teeth.body.alive
            &&& s.body.default_color == Color::Cyan
            &&& special_flags(s.body)
            &&& teeth.dy == Rate::Fixed(0) && s.dy == Rate::Fixed(0)
            &&& teeth.frame_speed == Rate::Fixed(0) && s.frame_speed == Rate::Fixed(0)
        })
}

/// A shark and its teeth: the teeth are a single physical `*` at the mouth
/// that does the eating, moving with the shark. Facing right the shark
/// enters from 53 columns off the left edge, teeth 9 columns left of the
/// screen; facing left it enters at the right edge, teeth 9 columns behind
/// its entry column. The teeth sit 7 rows below the shark's top.
pub fn shark(w: u16, h: u16, rng: &mut ThreadRng, art: &[&str]) -> (out: Vec<Spawn>)
    requires
        art@.len() >= 4,
    ensures
        shark_built(out@, w, h, art@),
{
    let dir = between(rng, 0, 2) as usize;
    let mut x: i32 = -53;
    let mut speed: i32 = 2000;
    let y = between(rng, 9, h as i32 - 10);
    let mut teeth_x: i32 = -9;
    if dir == 1 {
        speed = -2000;
        x = w as i32 - 2;
        teeth_x = x + 9;
    }
    let teeth_y = y + 7;
    let star = "*";
    let none = "";
    proof {
        reveal_strlit("*");
        reveal_strlit("");
    }
    let mut teeth_frames: Vec<Frame> = Vec::new();
    teeth_frames.push(Frame::new(star, none));
    let mut teeth = Body::new(EntityType::Teeth, Z_TEETH, teeth_frames);
    teeth.default_color = Color::White;
    teeth.physical = true;
    let mut frames: Vec<Frame> = Vec::new();
    frames.push(Frame::new(art[dir], art[2 + dir]));
    let mut body = Body::new(EntityType::Shark, Z_SHARK, frames);
    body.default_color = Color::Cyan;
    make_special(&mut body);
    let mut out: Vec<Spawn> = Vec::new();
    out.push(
        Spawn {
            body: teeth,
            x: teeth_x,
            y: teeth_y,
            dx: Rate::Fixed(speed),
            dy: Rate::Fixed(0),
            frame_speed: Rate::Fixed(0),
        },
    );
    out.push(Spawn { body, x, y, dx: Rate::Fixed(speed), dy: Rate::Fixed(0), frame_speed: Rate::Fixed(0) });
    assert(star@ == seq!['*']);
    assert(none@ == Seq::<char>::empty());
    assert(art@[dir as int]@ == art@[dir as int]@);
    out
}

/// The ship as `ship` builds it.
pub open spec fn ship_built(e: Spawn, w: u16, art: Seq<&str>) -> bool {
    &&& e.body.etype == EntityType::Ship
    &&& exists|dir: int|
            0 <= dir < 2 && e.body.frames@.len() == 1 && frame_of(
                e.body.frames@[0],
                #[trigger] art[dir]@,
                art[2 + dir]@,
            ) && (dir == 0 ==> e.x == -24 && e.dx == Rate::Fixed(1000)) && (dir == 1 ==> e.x == w - 2
                && e.dx == Rate::Fixed(-1000i32))
    &&& e.y == 0
    &&& e.body.z == Z_WATER_GAP1
    &&& e.body.default_color == Color::White
    &&& special_flags(e.body)
    &&& e.dy == Rate::Fixed(0)
    &&& e.frame_speed == Rate::Fixed(0)
}

/// A ship sailing along the surface, one column per tick: facing right it
/// enters 24 columns off the left edge, facing left at the right edge.
pub fn ship(w: u16, h: u16, rng: &mut ThreadRng, art: &[&str]) -> (e: Spawn)
    requires
        art@.len() >= 4,
    ensures
        ship_built(e, w, art@),
{
    let dir = between(rng, 0, 2) as usize;
    let mut x: i32 = -24;
    let mut speed: i32 = 1000;
    if dir == 1 {
        speed = -1000;
        x = w as i32 - 2;
    }
    let mut frames: Vec<Frame> = Vec::new();
    frames.push(Frame::new(art[dir], art[2 + dir]));
    let mut body = Body::new(EntityType::Ship, Z_WATER_GAP1, frames);
    body.default_color = Color::White;
    make_special(&mut body);
    assert(art@[dir as int]@ == art@[dir as int]@);
    Spawn { body, x, y: 0, dx: Rate::Fixed(speed), dy: Rate::Fixed(0), frame_speed: Rate::Fixed(0) }
}

/// `n` spaces.
pub open spec fn spaces(n: nat) -> Seq<char> {
    Seq::new(n, |i: int| ' ')
}

/// The text of a whale frame with a spout: the spout's lines, each after the
/// first indented by `align` spaces, directly followed by the whale.
pub open spec fn spout_text(spout: Seq<char>, align: nat, whale: Seq<char>) -> Seq<char> {
    joined(drop_trailing_empty(split_on(spout, '\n')), seq!['\n'] + spaces(align)) + whale
}

/// The text of a spout frame (see `spout_text`).
fn spout_frame_text(spout: &str, align: usize, whale: &str) -> (out: String)
    ensures
        out@ == spout_text(spout@, align as nat, whale@),
{
    let parts = perl_split_nl(spout);
    let mut sep = String::new();
    push_char(&mut sep, '\n');
    let mut k: usize = 0;
    while k < align
        invariant
            k <= align,
            sep@ == seq!['\n'] + spaces(k as nat),
        decreases align - k,
    {
        push_char(&mut sep, ' ');
        k += 1;
        assert(sep@ =~= seq!['\n'] + spaces(k as nat));
    }
    let ghost ps = views(parts@);
    let mut out = String::new();
    let mut i: usize = 0;
    while i < parts.len()
        invariant
            ps == views(parts@),
            i <= parts@.len(),
            sep@ == seq!['\n'] + spaces(align as nat),
            out@ == joined(ps.take(i as int), sep@),
        decreases parts@.len() - i,
    {
        assert(ps[i as int] == parts@[i as int]@);
        assert(ps.take(i + 1).drop_last() == ps.take(i as int));
        if i > 0 {
            out.append(sep.as_str());
        } else {
            assert(out@ == Seq::<char>::empty());
        }
        out.append(parts[i].as_str());
        i += 1;
    }
    assert(ps.take(i as int) == ps);
    out.append(whale);
    out
}

/// The whale as `whale` builds it.
pub open spec fn whale_built(out: Seq<Spawn>, w: u16, art: Seq<&str>) -> bool {
    &&& out.len() == 1
    &&& ({
            let e = out[0];
            &&& e.body.etype == EntityType::Whale
            &&& e.body.frames@.len() == 12
            &&& exists|dir: int|
                #![trigger art[dir]]
                0 <= dir < 2 && (dir == 0 ==> e.x == -18 && e.dx == Rate::Fixed(1000)) && (dir == 1 ==> e.x
                    == w - 2 && e.dx == Rate::Fixed(-1000i32)) && (forall|i: int|
                    0 <= i < 5 ==> frame_of(
                        #[trigger] e.body.frames@[i],
                        seq!['\n', '\n', '\n'] + art[dir]@,
                        art[2 + dir]@,
                    )) && (forall|i: int|
                    5 <= i < 12 ==> frame_of(
                        #[trigger] e.body.frames@[i],
                        spout_text(art[i - 1]@, if dir == 1 { 1 } else { 11 }, art[dir]@),
                        art[2 + dir]@,
                    ))
            &&& e.y == 0
            &&& e.body.z == Z_WATER_GAP2
            &&& e.body.default_color == Color::White
            &&& special_flags(e.body)
            &&& e.dy == Rate::Fixed(0)
            &&& e.frame_speed == Rate::Fixed(1000)
        })
}

/// A whale that surfaces and blows an animated spout: five frames of the
/// whale alone, three rows lower to line up with the spout frames, then one
/// frame per spout stage with the spout above the blowhole (11 columns in
/// facing right, 1 facing left). `art` holds the whale facing right and left,
/// their masks, then the seven spout stages.
pub fn whale(w: u16, h: u16, rng: &mut ThreadRng, art: &[&str]) -> (out: Vec<Spawn>)
    requires
        art@.len() >= 11,
    ensures
        whale_built(out@, w, art@),
{
    let dir = between(rng, 0, 2) as usize;
    let (x, speed, align): (i32, i32, usize) = if dir == 1 {
        (w as i32 - 2, -1000, 1)
    } else {
        (-18, 1000, 11)
    };
    let whale_img = art[dir];
    let whale_mask = art[2 + dir];
    let mut frames: Vec<Frame> = Vec::new();
    let mut lowered = String::new();
    push_char(&mut lowered, '\n');
    push_char(&mut lowered, '\n');
    push_char(&mut lowered, '\n');
    lowered.append(whale_img);
    let mut i: usize = 0;
    while i < 5
        invariant
            i <= 5,
            lowered@ == seq!['\n', '\n', '\n'] + whale_img@,
            frames@.len() == i,
            forall|j: int| 0 <= j < i ==> frame_of(#[trigger] frames@[j], lowered@, whale_mask@),
        decreases 5 - i,
    {
        frames.push(Frame::new(lowered.as_str(), whale_mask));
        i += 1;
    }
    while i < 12
        invariant
            5 <= i <= 12,
            art@.len() >= 11,
            lowered@ == seq!['\n', '\n', '\n'] + whale_img@,
            frames@.len() == i,
            forall|j: int| 0 <= j < 5 ==> frame_of(#[trigger] frames@[j], lowered@, whale_mask@),
            forall|j: int|
                5 <= j < i ==> frame_of(
                    #[trigger] frames@[j],
                    spout_text(art@[j - 1]@, align as nat, whale_img@),
                    whale_mask@,
                ),
        decreases 12 - i,
    {
        let text = spout_frame_text(art[i - 1], align, whale_img);
        frames.push(Frame::new(text.as_str(), whale_mask));
        i += 1;
    }
    let mut body = Body::new(EntityType::Whale, Z_WATER_GAP2, frames);
    body.default_color = Color::White;
    make_special(&mut body);
    let mut out: Vec<Spawn> = Vec::new();
    out.push(Spawn { body, x, y: 0, dx: Rate::Fixed(speed), dy: Rate::Fixed(0), frame_speed: Rate::Fixed(1000) });
    assert(art@[dir as int] == whale_img);
    out
}

/// The sea monster as `monster` builds it.
pub open spec fn monster_built(out: Seq<Spawn>, w: u16, classic: bool, old_art: Seq<&str>, new_art: Seq<&str>) -> bool {
    &&& out.len() == 1
    &&& ({
            let e = out[0];
            let n: int = if classic { 4 } else { 2 };
            &&& e.body.etype == EntityType::Monster
            &&& e.body.frames@.len() == n
            &&& exists|dir: int|
                #![trigger old_art[dir]]
                0 <= dir < 2 && (dir == 0 ==> e.x == (if classic { -64int } else { -54int }) && e.dx == Rate::Fixed(2000))
                    && (dir == 1 ==> e.x == w - 2 && e.dx == Rate::Fixed(-2000i32)) && (forall|f: int|
                    0 <= f < n ==> frame_of(
                        #[trigger] e.body.frames@[f],
                        if classic {
                            old_art[dir * 4 + f]@
                        } else {
                            new_art[dir * 2 + f]@
                        },
                        if classic {
                            old_art[8 + dir]@
                        } else {
                            new_art[4 + dir]@
                        },
                    ))
            &&& e.y == 2
            &&& e.body.z == Z_WATER_GAP2
            &&& e.body.default_color == Color::Green
            &&& special_flags(e.body)
            &&& e.dy == Rate::Fixed(0)
            &&& e.frame_speed == Rate::Fixed(250)
        })
}

/// A sea monster undulating across the surface, two columns per tick: four
/// frames from the classic art (`old_art`: four per facing, then a mask per
/// facing) or two from the new art (`new_art`: two per facing, then a mask
/// per facing). Facing right it enters 64 (classic) or 54 (new) columns off
/// the left edge; facing left at the right edge.
pub fn monster(w: u16, h: u16, classic: bool, rng: &mut ThreadRng, old_art: &[&str], new_art: &[&str]) -> (out: Vec<Spawn>)
    requires
        old_art@.len() >= 10,
        new_art@.len() >= 6,
    ensures
        monster_built(out@, w, classic, old_art@, new_art@),
{
    let dir = between(rng, 0, 2) as usize;
    let speed: i32 = if dir == 1 {
        -2000
    } else {
        2000
    };
    let (art, n, mask_base): (&[&str], usize, usize) = if classic {
        (old_art, 4, 8)
    } else {
        (new_art, 2, 4)
    };
    let base = dir * n;
    let mask = art[mask_base + dir];
    let mut frames: Vec<Frame> = Vec::new();
    let mut f: usize = 0;
    while f < n
        invariant
            f <= n,
            n == 2 || n == 4,
            base == dir * n,
            dir < 2,
            art@.len() >= mask_base + 2,
            mask_base == 2 * n,
            frames@.len() == f,
            forall|j: int| 0 <= j < f ==> frame_of(#[trigger] frames@[j], art@[base + j]@, mask@),
        decreases n - f,
    {
        frames.push(Frame::new(art[base + f], mask));
        f += 1;
    }
    let x: i32 = if dir == 1 {
        w as i32 - 2
    } else if classic {
        -64
    } else {
        -54
    };
    let mut body = Body::new(EntityType::Monster, Z_WATER_GAP2, frames);
    body.default_color = Color::Green;
    make_special(&mut body);
    let mut out: Vec<Spawn> = Vec::new();
    out.push(Spawn { body, x, y: 2, dx: Rate::Fixed(speed), dy: Rate::Fixed(0), frame_speed: Rate::Fixed(250) });
    assert(old_art@[dir as int] == old_art@[dir as int]);
    out
}

/// `e` is the big fish of the second kind (if `second`) or the first,
/// facing right (`dir` 0) or left (`dir` 1), placed for a `w` by `h` tank.
pub open spec fn big_fish_pick(
    e: Spawn,
    w: u16,
    h: u16,
    classic: bool,
    art1: Seq<&str>,
    art2: Seq<&str>,
    second: bool,
    dir: int,
) -> bool {
    let art = if second { art2 } else { art1 };
    let speed: int = if second { 2500 } else { 3000 };
    let gap: int = if second { 14 } else { 15 };
    &&& second ==> !classic
    &&& 0 <= dir < 2
    &&& e.body.frames@.len() == 1
    &&& e.body.frames@[0].shape_lines() == text_lines(strip_leading_newline(art[dir]@))
    &&& exists|m: Seq<char>|
        resolves_to(art[2 + dir]@, Seq::empty(), m) && e.body.frames@[0].mask_lines()
            == #[trigger] text_lines(strip_leading_newline(m))
    &&& dir == 0 ==> e.x == (if second { -33int } else { -34int }) && e.dx == Rate::Fixed(speed as i32)
    &&& dir == 1 ==> e.x == w - 1 && e.dx == Rate::Fixed(-speed as i32)
    &&& 9 < h - gap ==> 9 <= e.y < h - gap
    &&& h - gap <= 9 ==> e.y == 9
}

/// The big fish as `big_fish` builds it.
pub open spec fn big_fish_built(e: Spawn, w: u16, h: u16, classic: bool, art1: Seq<&str>, art2: Seq<&str>) -> bool {
    &&& e.body.etype == EntityType::BigFish
    &&& exists|second: bool, dir: int| #[trigger] big_fish_pick(e, w, h, classic, art1, art2, second, dir)
    &&& e.body.z == Z_BIG_FISH
    &&& e.body.default_color == Color::Yellow
    &&& special_flags(e.body)
    &&& e.dy == Rate::Fixed(0)
    &&& e.frame_speed == Rate::Fixed(0)
}

/// A big fish: outside classic mode, one time in three the second kind.
/// The first kind swims three columns per tick and enters 34 columns off the
/// left edge (facing right); the second 2.5 columns per tick, 33 columns off.
/// Facing left either enters at the right edge. Its mask digits get random
/// colours.
pub fn big_fish(w: u16, h: u16, classic: bool, rng: &mut ThreadRng, art1: &[&str], art2: &[&str]) -> (e: Spawn)
    requires
        art1@.len() >= 4,
        art2@.len() >= 4,
    ensures
        big_fish_built(e, w, h, classic, art1@, art2@),
{
    let second = !classic && between(rng, 0, 3) > 1;
    let (art, base_speed, left_x, min_gap): (&[&str], i32, i32, i32) = if second {
        (art2, 2500, -33, 14)
    } else {
        (art1, 3000, -34, 15)
    };
    let dir = between(rng, 0, 2) as usize;
    let (x, speed): (i32, i32) = if dir == 1 {
        (w as i32 - 1, -base_speed)
    } else {
        (left_x, base_speed)
    };
    let y = between(rng, 9, h as i32 - min_gap);
    let mask = rand_color(art[2 + dir], rng);
    let mut frames: Vec<Frame> = Vec::new();
    frames.push(Frame::new(art[dir], mask.as_str()));
    let mut body = Body::new(EntityType::BigFish, Z_BIG_FISH, frames);
    body.default_color = Color::Yellow;
    make_special(&mut body);
    let e = Spawn { body, x, y, dx: Rate::Fixed(speed), dy: Rate::Fixed(0), frame_speed: Rate::Fixed(0) };
    assert(e.body.frames@[0].mask_lines() == text_lines(strip_leading_newline(mask@)));
    assert(big_fish_pick(e, w, h, classic, art1@, art2@, second, dir as int));
    e
}

/// The art every spawner draws from, each slice laid out as its spawner
/// reads it.
pub struct Art<'a> {
    /// The surface segments, top to bottom.
    pub water: &'a [&'a str],
    /// Shape and mask.
    pub castle: &'a [&'a str],
    /// Shape and mask pairs; even fish face right.
    pub old_fish: &'a [&'a str],
    pub new_fish: &'a [&'a str],
    /// Growth stages.
    pub bubble: &'a [&'a str],
    /// Animation stages.
    pub splat: &'a [&'a str],
    /// Right, left, right mask, left mask.
    pub ship: &'a [&'a str],
    /// Right, left, right mask, left mask, seven spout stages.
    pub whale: &'a [&'a str],
    /// Four frames per facing, then a mask per facing.
    pub old_monster: &'a [&'a str],
    /// Two frames per facing, then a mask per facing.
    pub new_monster: &'a [&'a str],
    /// Right, left, right mask, left mask.
    pub big_fish_1: &'a [&'a str],
    pub big_fish_2: &'a [&'a str],
    pub shark: &'a [&'a str],
}

impl<'a> Art<'a> {
    /// Every slice holds what its spawner reads.
    pub open spec fn wf(&self) -> bool {
        &&& 1 <= self.water@.len() <= 4
        &&& self.water@[0].len() > 0
        &&& self.castle@.len() >= 2
        &&& fish_set_ok(self.old_fish@)
        &&& fish_set_ok(self.new_fish@)
        &&& self.ship@.len() >= 4
        &&& self.whale@.len() >= 11
        &&& self.old_monster@.len() >= 10
        &&& self.new_monster@.len() >= 6
        &&& self.big_fish_1@.len() >= 4
        &&& self.big_fish_2@.len() >= 4
        &&& self.shark@.len() >= 4
    }

    /// The art holds what the spawner of the successor to a death `d` reads:
    /// both fish sets for a fish, everything for the next special, nothing
    /// for seaweed or a quiet death.
    pub open spec fn can_replace(&self, d: OnDeath) -> bool {
        match d {
            OnDeath::Fish => fish_set_ok(self.old_fish@) && fish_set_ok(self.new_fish@),
            OnDeath::RandomObject => self.wf(),
            _ => true,
        }
    }
}

/// One entity of `v` ends with the next special; the others end quietly.
pub open spec fn one_special(v: Seq<Spawn>) -> bool {
    &&& exists|i: int| 0 <= i < v.len() && (#[trigger] v[i]).body.on_death == OnDeath::RandomObject
    &&& forall|i: int, j: int|
        0 <= i < v.len() && 0 <= j < v.len() && (#[trigger] v[i]).body.on_death == OnDeath::RandomObject
            && (#[trigger] v[j]).body.on_death == OnDeath::RandomObject ==> i == j
}

/// `v` is a roaming special as one of the special spawners builds it.
pub open spec fn special_built(v: Seq<Spawn>, w: u16, h: u16, classic: bool, art: &Art) -> bool {
    ||| (v.len() == 1 && ship_built(v[0], w, art.ship@))
    ||| whale_built(v, w, art.whale@)
    ||| monster_built(v, w, classic, art.old_monster@, art.new_monster@)
    ||| (v.len() == 1 && big_fish_built(v[0], w, h, classic, art.big_fish_1@, art.big_fish_2@))
    ||| shark_built(v, w, h, art.shark@)
}

/// The roaming special for the pick `pick`: 0 a ship, 1 a whale, 2 a sea
/// monster, 3 a big fish, 4 a shark (with its teeth). Its death brings on
/// the next, so exactly one roams at a time.
pub fn special_for_pick(pick: i32, w: u16, h: u16, classic: bool, rng: &mut ThreadRng, art: &Art) -> (out: Vec<Spawn>)
    requires
        art.wf(),
        0 <= pick < 5,
    ensures
        1 <= out@.len() <= 2,
        one_special(out@),
        out@.last().body.on_death == OnDeath::RandomObject,
        forall|i: int|
            0 <= i < out@.len() ==> (#[trigger] out@[i]).body.on_death == OnDeath::RandomObject || out@[i].body.on_death
                == OnDeath::Nothing,
        ({
            let t = out@.last().body.etype;
            t == EntityType::Ship || t == EntityType::Whale || t == EntityType::Monster || t
                == EntityType::BigFish || t == EntityType::Shark
        }),
        out@.len() == 2 ==> out@[0].body.etype == EntityType::Teeth && out@[1].body.etype == EntityType::Shark,
        special_built(out@, w, h, classic, art),
        pick == 0 <==> out@.last().body.etype == EntityType::Ship,
        pick == 1 <==> out@.last().body.etype == EntityType::Whale,
        pick == 2 <==> out@.last().body.etype == EntityType::Monster,
        pick == 3 <==> out@.last().body.etype == EntityType::BigFish,
        pick == 4 <==> out@.last().body.etype == EntityType::Shark,
        pick == 0 ==> out@.len() == 1 && ship_built(out@[0], w, art.ship@),
        pick == 1 ==> whale_built(out@, w, art.whale@),
        pick == 2 ==> monster_built(out@, w, classic, art.old_monster@, art.new_monster@),
        pick == 3 ==> out@.len() == 1 && big_fish_built(out@[0], w, h, classic, art.big_fish_1@, art.big_fish_2@),
        pick == 4 ==> shark_built(out@, w, h, art.shark@),
{
    let out = if pick == 0 {
        let mut v: Vec<Spawn> = Vec::new();
        v.push(ship(w, h, rng, art.ship));
        v
    } else if pick == 1 {
        whale(w, h, rng, art.whale)
    } else if pick == 2 {
        monster(w, h, classic, rng, art.old_monster, art.new_monster)
    } else if pick == 3 {
        let mut v: Vec<Spawn> = Vec::new();
        v.push(big_fish(w, h, classic, rng, art.big_fish_1, art.big_fish_2));
        v
    } else {
        shark(w, h, rng, art.shark)
    };
    assert(out@[out@.len() - 1].body.on_death == OnDeath::RandomObject);
    out
}

/// The roaming special: a ship, whale, sea monster, big fish or shark, one
/// chosen at random by a pick of 0 to 4 (see `special_for_pick`). Its death
/// brings on the next, so exactly one roams at a time.
pub fn random_object(w: u16, h: u16, classic: bool, rng: &mut ThreadRng, art: &Art) -> (out: Vec<Spawn>)
    requires
        art.wf(),
    ensures
        1 <= out@.len() <= 2,
        one_special(out@),
        out@.last().body.on_death == OnDeath::RandomObject,
        forall|i: int|
            0 <= i < out@.len() ==> (#[trigger] out@[i]).body.on_death == OnDeath::RandomObject || out@[i].body.on_death
                == OnDeath::Nothing,
        ({
            let t = out@.last().body.etype;
            t == EntityType::Ship || t == EntityType::Whale || t == EntityType::Monster || t
                == EntityType::BigFish || t == EntityType::Shark
        }),
        out@.len() == 2 ==> out@[0].body.etype == EntityType::Teeth && out@[1].body.etype == EntityType::Shark,
        special_built(out@, w, h, classic, art),
{
    let pick = between(rng, 0, 5);
    special_for_pick(pick, w, h, classic, rng, art)
}

} // verus!
