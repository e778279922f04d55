# asciiquarium

An aquarium animation in ASCII art for the terminal: fish and their bubbles,
seaweed, a castle, and a rotating headliner (shark, ship, whale with a spout,
sea monster or big fish). Pass `-c` for classic mode (the classic art set
only). Keys: `q` quit, `p` pause, `r` rebuild; the scene refits when the
terminal is resized.

## Layout

- `src/` is the library, verified with Verus:
  - `text.rs`: splitting art into lines (`str::lines` semantics) and Perl-style
    `split`, with the laws that splitting and joining undo each other.
  - `entity.rs`: frames (shape plus line-aligned colour mask), creature kinds,
    the body of a creature (how it draws, ages and dies), and colour-mask
    randomisation (every cell sharing a digit shares a colour; the eye of a
    fish is white; the last palette colour is never picked).
  - `render.rs`: the compositor: a grid of cells that frames are painted into
    back to front, clear glyphs letting lower sprites show through; the text
    of the grid; and the terminal drawing steps, with a colour switch only
    where the colour changes.
  - `spawn.rs`: how each creature is built from its art, where it starts and
    how it moves (rates in thousandths of a cell per tick).
  - `scene.rs`: the scene built from scratch, the turnover after each tick
    (who lives on, and the successor of each creature that died), and the laws that the tank always holds one roaming special and
    keeps the size of its school and of its seaweed.
  - `collide.rs`: the collision pass: physical creatures that share a drawn
    cell touch; teeth eat fish (leaving a splat where the teeth are) and
    bubbles pop on the water surface.
  - `control.rs`: what a key press or resize does, and the back-to-front
    draw order.
  - `chance.rs`: random draws from `rand`.
  - `art.rs`: the art at hand (the water surface, bubbles, one small fish).
- `app/main.rs` is the program: the terminal (`crossterm`), the command line
  (`clap`), the frame clock, and each creature's floating-point position,
  speed and frame counter.
- `tests/` runs the library on concrete values.
