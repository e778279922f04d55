//! The assembled creatures: the ones drawn with '?' (shark, sea monster, big
//! fish) must render with no leftover '?' glyphs, and the whale must blow a
//! spout above its body. The specials' art here is a small stand-in.

use asciiquarium::art::{FISH_L_MASK, FISH_L_SHAPE, FISH_R_MASK, FISH_R_SHAPE};
use asciiquarium::render::Screen;
use asciiquarium::spawn::{self, Spawn};

const OLD_FISH: [&str; 4] = [FISH_R_SHAPE, FISH_R_MASK, FISH_L_SHAPE, FISH_L_MASK];

const SHARK: [&str; 4] = [
    "\n??/\\\n?<__(o)>\n",
    "\n  /\\??\n<(o)__>?\n",
    "\n  11\n1116111\n",
    "\n  11\n1116111\n",
];

const WHALE: [&str; 11] = [
    "\n  .-----:\n.'  (o) `.\n",
    "\n:-----.\n.' (o)  `.\n",
    "\n  CCCCCCC\nCCC WWW CC\n",
    "\nCCCCCCC\nCC WWW CCC\n",
    "\n\n\n   :\n",
    "\n\n   :\n   :\n",
    "\n  . .\n  -:-\n   :\n",
    "\n  . .\n .-:-.\n   :\n",
    "\n  . .\n'.-:-.`\n'  :  '\n",
    "\n\n .- -.\n;  :  ;\n",
    "\n\n\n;     ;\n",
];

const OLD_MONSTER: [&str; 10] = [
    "\n ??_\n?(o)~~\n",
    "\n ??_\n?(o)~-\n",
    "\n ??_\n?(o)-~\n",
    "\n ??_\n?(o)--\n",
    "\n_??\n~~(o)?\n",
    "\n_??\n-~(o)?\n",
    "\n_??\n~-(o)?\n",
    "\n_??\n--(o)?\n",
    "\n  W\n GWG\n",
    "\nW\nGWG\n",
];

const NEW_MONSTER: [&str; 6] = [
    "\n ?__\n(o)~~\n",
    "\n ?__\n(o)--\n",
    "\n__?\n~~(o)\n",
    "\n__?\n--(o)\n",
    "\n  W\n W\n",
    "\nW\n  W\n",
];

const BIG_FISH_1: [&str; 4] = [
    "\n??___\n<(o)_=<\n",
    "\n___??\n>=_(o)>\n",
    "\n  111\n1421166\n",
    "\n111\n6611241\n",
];

const BIG_FISH_2: [&str; 4] = [
    "\n?__\n<o_<\n",
    "\n__?\n>_o>\n",
    "\n 11\n1411\n",
    "\n11\n1141\n",
];

/// Render each frame of a creature on its own blank screen, as plain text.
fn frames_text(e: &Spawn) -> Vec<String> {
    let (x, y) = (5, 2);
    (0..e.body.frames.len())
        .map(|i| {
            let f = e.body.current(i);
            let mut s = Screen::new(140, 40);
            s.blit(x, y, &f.shape, &f.mask, e.body.default_color, e.body.auto_trans, e.body.trans);
            s.to_text()
        })
        .collect()
}

fn assert_no_question_marks(entities: Vec<Spawn>) {
    for e in entities {
        for (i, text) in frames_text(&e).into_iter().enumerate() {
            assert!(
                !text.contains('?'),
                "frame {i} rendered a literal '?': it should be transparent\n{text}"
            );
        }
    }
}

#[test]
fn specials_have_no_stray_transparency_glyphs() {
    let mut rng = rand::thread_rng();
    // Run each a few times to cover both facings and the new/classic art.
    for _ in 0..8 {
        assert_no_question_marks(spawn::shark(200, 40, &mut rng, &SHARK));
        assert_no_question_marks(spawn::monster(200, 40, false, &mut rng, &OLD_MONSTER, &NEW_MONSTER));
        assert_no_question_marks(spawn::monster(200, 40, true, &mut rng, &OLD_MONSTER, &NEW_MONSTER));
        assert_no_question_marks(vec![spawn::big_fish(200, 40, false, &mut rng, &BIG_FISH_1, &BIG_FISH_2)]);
        assert_no_question_marks(vec![spawn::big_fish(200, 40, true, &mut rng, &BIG_FISH_1, &BIG_FISH_2)]);
        assert_no_question_marks(spawn::whale(200, 40, &mut rng, &WHALE));
    }
}

#[test]
fn fish_render_without_transparency_glyphs() {
    let mut rng = rand::thread_rng();
    for _ in 0..40 {
        assert_no_question_marks(vec![spawn::fish(200, 40, false, &mut rng, &OLD_FISH, &OLD_FISH)]);
    }
}

#[test]
fn whale_blows_a_spout_above_its_body() {
    let mut rng = rand::thread_rng();
    let whale = spawn::whale(200, 40, &mut rng, &WHALE).into_iter().next().unwrap();
    let texts = frames_text(&whale);

    // The body (with its eye) is present in every frame ...
    assert!(
        texts.iter().all(|t| t.contains("(o)")),
        "whale body/eye missing from some frame"
    );
    // ... and the spout frames draw strictly more ink than the body-only ones
    // (the whale body itself contains a ':', so glyph-matching won't do).
    let ink: Vec<usize> = texts
        .iter()
        .map(|t| t.chars().filter(|c| !c.is_whitespace()).count())
        .collect();
    let (min, max) = (*ink.iter().min().unwrap(), *ink.iter().max().unwrap());
    assert!(
        max > min,
        "no frame drew a spout above the body (ink range {min}..={max})"
    );
}
