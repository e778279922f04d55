//! The tank as a whole: the scene built from scratch, what replaces a
//! creature that dies, and the rule that one roaming special is always about.

use vstd::prelude::*;

use rand::rngs::ThreadRng;

use crate::chance::between;
use crate::entity::{Body, EntityType, OnDeath};
use crate::spawn::{
    castle, castle_built, fish, fish_built, one_special, random_object, seaweed, seaweed_built, special_built, water,
    water_built, Art, Spawn, TICKS_PER_SEC, WATER_TOP,
};

verus! {

/// How many of `v` bring on the next special when they die.
pub open spec fn count_specials(v: Seq<OnDeath>) -> nat
    decreases v.len(),
{
    if v.len() == 0 {
        0
    } else {
        count_specials(v.drop_last()) + if v.last() == OnDeath::RandomObject {
            1nat
        } else {
            0nat
        }
    }
}

/// The death actions of the spawned creatures.
pub open spec fn death_actions(v: Seq<Spawn>) -> Seq<OnDeath> {
    v.map_values(|e: Spawn| e.body.on_death)
}

/// Counting specials adds up over concatenation.
proof fn lemma_count_specials_concat(a: Seq<OnDeath>, b: Seq<OnDeath>)
    ensures
        count_specials(a + b) == count_specials(a) + count_specials(b),
    decreases b.len(),
{
    if b.len() > 0 {
        lemma_count_specials_concat(a, b.drop_last());
        assert((a + b).drop_last() =~= a + b.drop_last());
    } else {
        assert(a + b =~= a);
    }
}

/// None of `v` brings on a special, so none is counted.
proof fn lemma_no_specials(v: Seq<OnDeath>)
    requires
        forall|i: int| 0 <= i < v.len() ==> v[i] != OnDeath::RandomObject,
    ensures
        count_specials(v) == 0,
    decreases v.len(),
{
    if v.len() > 0 {
        lemma_no_specials(v.drop_last());
    }
}

/// Exactly one spawn of `v` brings on the next special when it dies.
proof fn lemma_one_special_count(v: Seq<Spawn>)
    requires
        one_special(v),
    ensures
        count_specials(death_actions(v)) == 1,
    decreases v.len(),
{
    let d = death_actions(v);
    let i = choose|i: int| 0 <= i < v.len() && (#[trigger] v[i]).body.on_death == OnDeath::RandomObject;
    lemma_no_specials_before(v, v.len() as int, i);
    assert(d.take(v.len() as int) =~= d);
}

/// With the only special of `v` at index `i`, the first `n` spawns hold one
/// special if `i < n`, else none.
proof fn lemma_no_specials_before(v: Seq<Spawn>, n: int, i: int)
    requires
        0 <= n <= v.len(),
        0 <= i < v.len(),
        v[i].body.on_death == OnDeath::RandomObject,
        forall|a: int, b: int|
            0 <= a < v.len() && 0 <= b < v.len() && (#[trigger] v[a]).body.on_death == OnDeath::RandomObject
                && (#[trigger] v[b]).body.on_death == OnDeath::RandomObject ==> a == b,
    ensures
        count_specials(death_actions(v).take(n)) == if i < n { 1nat } else { 0nat },
    decreases n,
{
    let d = death_actions(v);
    if n > 0 {
        lemma_no_specials_before(v, n - 1, i);
        assert(d.take(n).drop_last() =~= d.take(n - 1));
        assert(d.take(n).last() == v[n - 1].body.on_death);
    } else {
        assert(d.take(0) =~= Seq::<OnDeath>::empty());
    }
}

/// The creatures that survive a tick, in order.
pub open spec fn survivors(tank: Seq<OnDeath>, alive: Seq<bool>) -> Seq<OnDeath>
    decreases tank.len(),
{
    if tank.len() == 0 {
        Seq::empty()
    } else {
        survivors(tank.drop_last(), alive.drop_last()) + if alive[tank.len() - 1] {
            seq![tank.last()]
        } else {
            Seq::empty()
        }
    }
}

/// The successors of the creatures that died in a tick, in order; `born[i]`
/// replaces creature `i` if it died.
pub open spec fn newborn(tank: Seq<OnDeath>, alive: Seq<bool>, born: Seq<Seq<OnDeath>>) -> Seq<OnDeath>
    decreases tank.len(),
{
    if tank.len() == 0 {
        Seq::empty()
    } else {
        newborn(tank.drop_last(), alive.drop_last(), born.drop_last()) + if alive[tank.len() - 1] {
            Seq::empty()
        } else {
            born[tank.len() - 1]
        }
    }
}

/// Replacing each dead creature by its successor keeps the number of
/// roaming specials: every special that dies brings exactly one more, and no
/// other death brings one. So a tank that starts with one special always
/// has exactly one.
pub proof fn law_specials_are_conserved(tank: Seq<OnDeath>, alive: Seq<bool>, born: Seq<Seq<OnDeath>>)
    requires
        alive.len() == tank.len(),
        born.len() == tank.len(),
        forall|i: int|
            0 <= i < tank.len() && !alive[i] ==> count_specials(#[trigger] born[i]) == if tank[i]
                == OnDeath::RandomObject {
                1nat
            } else {
                0nat
            },
    ensures
        count_specials(survivors(tank, alive) + newborn(tank, alive, born)) == count_specials(tank),
    decreases tank.len(),
{
    if tank.len() > 0 {
        let n = tank.len() - 1;
        law_specials_are_conserved(tank.drop_last(), alive.drop_last(), born.drop_last());
        let s0 = survivors(tank.drop_last(), alive.drop_last());
        let b0 = newborn(tank.drop_last(), alive.drop_last(), born.drop_last());
        let s1: Seq<OnDeath> = if alive[n] { seq![tank.last()] } else { Seq::empty() };
        let b1: Seq<OnDeath> = if alive[n] { Seq::empty() } else { born[n] };
        lemma_count_specials_concat(s0, s1);
        lemma_count_specials_concat(b0, b1);
        lemma_count_specials_concat(s0 + s1, b0 + b1);
        lemma_count_specials_concat(s0, b0);
        lemma_count_specials_concat(tank.drop_last(), seq![tank.last()]);
        assert(tank.drop_last() + seq![tank.last()] =~= tank);
        assert(count_specials(s1) + count_specials(b1) == count_specials(seq![tank.last()])) by {
            assert(seq![tank.last()].drop_last() =~= Seq::<OnDeath>::empty());
        }
    }
}

/// How many of `v` are `k`.
pub open spec fn count_of(v: Seq<OnDeath>, k: OnDeath) -> nat
    decreases v.len(),
{
    if v.len() == 0 {
        0
    } else {
        count_of(v.drop_last(), k) + if v.last() == k {
            1nat
        } else {
            0nat
        }
    }
}

/// Counting adds up over concatenation.
proof fn lemma_count_of_concat(a: Seq<OnDeath>, b: Seq<OnDeath>, k: OnDeath)
    ensures
        count_of(a + b, k) == count_of(a, k) + count_of(b, k),
    decreases b.len(),
{
    if b.len() > 0 {
        lemma_count_of_concat(a, b.drop_last(), k);
        assert((a + b).drop_last() =~= a + b.drop_last());
    } else {
        assert(a + b =~= a);
    }
}

/// None of `v` is `k`, so none is counted.
proof fn lemma_none_of(v: Seq<OnDeath>, k: OnDeath)
    requires
        forall|i: int| 0 <= i < v.len() ==> v[i] != k,
    ensures
        count_of(v, k) == 0,
    decreases v.len(),
{
    if v.len() > 0 {
        lemma_none_of(v.drop_last(), k);
    }
}

/// Replacing each dead creature by its successors keeps the number of
/// creatures that die with `k`, when each one that dies with `k` brings
/// exactly one more and no other death brings one.
proof fn lemma_kind_conserved(tank: Seq<OnDeath>, alive: Seq<bool>, born: Seq<Seq<OnDeath>>, k: OnDeath)
    requires
        alive.len() == tank.len(),
        born.len() == tank.len(),
        forall|i: int|
            0 <= i < tank.len() && !alive[i] ==> count_of(#[trigger] born[i], k) == if tank[i] == k {
                1nat
            } else {
                0nat
            },
    ensures
        count_of(survivors(tank, alive) + newborn(tank, alive, born), k) == count_of(tank, k),
    decreases tank.len(),
{
    if tank.len() > 0 {
        let n = tank.len() - 1;
        lemma_kind_conserved(tank.drop_last(), alive.drop_last(), born.drop_last(), k);
        let s0 = survivors(tank.drop_last(), alive.drop_last());
        let b0 = newborn(tank.drop_last(), alive.drop_last(), born.drop_last());
        let s1: Seq<OnDeath> = if alive[n] { seq![tank.last()] } else { Seq::empty() };
        let b1: Seq<OnDeath> = if alive[n] { Seq::empty() } else { born[n] };
        lemma_count_of_concat(s0, s1, k);
        lemma_count_of_concat(b0, b1, k);
        lemma_count_of_concat(s0 + s1, b0 + b1, k);
        lemma_count_of_concat(s0, b0, k);
        lemma_count_of_concat(tank.drop_last(), seq![tank.last()], k);
        assert(tank.drop_last() + seq![tank.last()] =~= tank);
        assert(count_of(s1, k) + count_of(b1, k) == count_of(seq![tank.last()], k)) by {
            assert(seq![tank.last()].drop_last() =~= Seq::<OnDeath>::empty());
        }
    }
}

/// The school never shrinks or grows: replacing each dead creature by its
/// successors keeps the number of fish, since every fish that dies brings
/// exactly one fresh fish and no other death brings one.
pub proof fn law_fish_are_conserved(tank: Seq<OnDeath>, alive: Seq<bool>, born: Seq<Seq<OnDeath>>)
    requires
        alive.len() == tank.len(),
        born.len() == tank.len(),
        forall|i: int|
            0 <= i < tank.len() && !alive[i] ==> count_of(#[trigger] born[i], OnDeath::Fish) == if tank[i]
                == OnDeath::Fish {
                1nat
            } else {
                0nat
            },
    ensures
        count_of(survivors(tank, alive) + newborn(tank, alive, born), OnDeath::Fish) == count_of(tank, OnDeath::Fish),
{
    lemma_kind_conserved(tank, alive, born, OnDeath::Fish);
}

/// Likewise the seaweed: every strand that dies brings exactly one fresh
/// strand and no other death brings one, so their number stays the same.
pub proof fn law_seaweed_is_conserved(tank: Seq<OnDeath>, alive: Seq<bool>, born: Seq<Seq<OnDeath>>)
    requires
        alive.len() == tank.len(),
        born.len() == tank.len(),
        forall|i: int|
            0 <= i < tank.len() && !alive[i] ==> count_of(#[trigger] born[i], OnDeath::Seaweed) == if tank[i]
                == OnDeath::Seaweed {
                1nat
            } else {
                0nat
            },
    ensures
        count_of(survivors(tank, alive) + newborn(tank, alive, born), OnDeath::Seaweed) == count_of(
            tank,
            OnDeath::Seaweed,
        ),
{
    lemma_kind_conserved(tank, alive, born, OnDeath::Seaweed);
}

/// `g` is what replaces a creature that died with `d` in a `w` by `h` tank at
/// tick `tick`: nothing after a quiet death, one fresh fish, one fresh
/// strand of seaweed, or the next roaming special; none of it a fish unless
/// it replaces one.
pub open spec fn replaces(g: Seq<Spawn>, d: OnDeath, w: u16, h: u16, classic: bool, tick: u64, art: &Art) -> bool {
    &&& match d {
        OnDeath::Nothing => g.len() == 0,
        OnDeath::Fish => g.len() == 1 && fish_built(g[0], w, h, classic, art.old_fish@, art.new_fish@),
        OnDeath::Seaweed => g.len() == 1 && seaweed_built(g[0], w, h, tick),
        OnDeath::RandomObject => one_special(g) && special_built(g, w, h, classic, art),
    }
    &&& forall|j: int|
        0 <= j < g.len() ==> ((#[trigger] g[j]).body.etype == EntityType::Fish) == (g[j].body.on_death
            == OnDeath::Fish)
}

/// The groups one after another.
pub open spec fn concat_groups(groups: Seq<Seq<Spawn>>) -> Seq<Spawn>
    decreases groups.len(),
{
    if groups.len() == 0 {
        Seq::empty()
    } else {
        concat_groups(groups.drop_last()) + groups.last()
    }
}

/// How many of `kinds` are fish.
pub open spec fn count_fish(kinds: Seq<EntityType>) -> nat
    decreases kinds.len(),
{
    if kinds.len() == 0 {
        0
    } else {
        count_fish(kinds.drop_last()) + if kinds.last() == EntityType::Fish {
            1nat
        } else {
            0nat
        }
    }
}

/// Every body of `v` is a fish exactly when it dies as one.
pub open spec fn fish_tagged(v: Seq<Body>) -> bool {
    forall|i: int| 0 <= i < v.len() ==> ((#[trigger] v[i]).etype == EntityType::Fish) == (v[i].on_death == OnDeath::Fish)
}

/// Where every body is a fish exactly when it dies as one, counting fish by
/// kind and by death action agree.
proof fn lemma_fish_tags(v: Seq<Body>)
    requires
        fish_tagged(v),
    ensures
        count_fish(v.map_values(|b: Body| b.etype)) == count_of(v.map_values(|b: Body| b.on_death), OnDeath::Fish),
    decreases v.len(),
{
    if v.len() > 0 {
        let d = v.drop_last();
        assert(fish_tagged(d)) by {
            assert forall|i: int| 0 <= i < d.len() implies ((#[trigger] d[i]).etype == EntityType::Fish) == (
            d[i].on_death == OnDeath::Fish) by {
                assert(d[i] == v[i]);
            }
        }
        lemma_fish_tags(d);
        assert(v.map_values(|b: Body| b.etype).drop_last() =~= d.map_values(|b: Body| b.etype));
        assert(v.map_values(|b: Body| b.on_death).drop_last() =~= d.map_values(|b: Body| b.on_death));
        assert(v[v.len() - 1] == v.last());
    }
}

/// Counting fish adds up over concatenation.
proof fn lemma_count_fish_concat(a: Seq<EntityType>, b: Seq<EntityType>)
    ensures
        count_fish(a + b) == count_fish(a) + count_fish(b),
    decreases b.len(),
{
    if b.len() > 0 {
        lemma_count_fish_concat(a, b.drop_last());
        assert((a + b).drop_last() =~= a + b.drop_last());
    } else {
        assert(a + b =~= a);
    }
}

/// What replaces an entity that died with `on_death`: a fresh fish, a fresh
/// strand of seaweed, the next special, or nothing.
pub fn successor(
    on_death: OnDeath,
    w: u16,
    h: u16,
    classic: bool,
    tick: u64,
    rng: &mut ThreadRng,
    art: &Art,
) -> (out: Vec<Spawn>)
    requires
        art.can_replace(on_death),
        tick <= u64::MAX - 720 * TICKS_PER_SEC,
    ensures
        on_death == OnDeath::Nothing ==> out@.len() == 0,
        on_death == OnDeath::Fish ==> out@.len() == 1 && fish_built(out@[0], w, h, classic, art.old_fish@, art.new_fish@),
        on_death == OnDeath::Seaweed ==> out@.len() == 1 && seaweed_built(out@[0], w, h, tick),
        on_death == OnDeath::RandomObject ==> one_special(out@),
        on_death == OnDeath::RandomObject ==> special_built(out@, w, h, classic, art),
        count_specials(death_actions(out@)) == if on_death == OnDeath::RandomObject {
            1nat
        } else {
            0nat
        },
        count_of(death_actions(out@), OnDeath::Fish) == if on_death == OnDeath::Fish {
            1nat
        } else {
            0nat
        },
        count_of(death_actions(out@), OnDeath::Seaweed) == if on_death == OnDeath::Seaweed {
            1nat
        } else {
            0nat
        },
        replaces(out@, on_death, w, h, classic, tick, art),
{
    match on_death {
        OnDeath::Nothing => {
            let v: Vec<Spawn> = Vec::new();
            assert(death_actions(v@) =~= Seq::<OnDeath>::empty());
            assert(count_specials(death_actions(v@)) == 0);
            assert(count_of(death_actions(v@), OnDeath::Fish) == 0);
            assert(count_of(death_actions(v@), OnDeath::Seaweed) == 0);
            v
        },
        OnDeath::Fish => {
            let mut v: Vec<Spawn> = Vec::new();
            v.push(fish(w, h, classic, rng, art.old_fish, art.new_fish));
            assert(death_actions(v@).drop_last() =~= Seq::<OnDeath>::empty());
            assert(count_specials(Seq::<OnDeath>::empty()) == 0);
            assert(count_of(Seq::<OnDeath>::empty(), OnDeath::Fish) == 0);
            assert(count_of(Seq::<OnDeath>::empty(), OnDeath::Seaweed) == 0);
            assert(death_actions(v@).last() == OnDeath::Fish);
            v
        },
        OnDeath::Seaweed => {
            let mut v: Vec<Spawn> = Vec::new();
            v.push(seaweed(w, h, tick, rng));
            assert(death_actions(v@).drop_last() =~= Seq::<OnDeath>::empty());
            assert(count_specials(Seq::<OnDeath>::empty()) == 0);
            assert(count_of(Seq::<OnDeath>::empty(), OnDeath::Fish) == 0);
            assert(count_of(Seq::<OnDeath>::empty(), OnDeath::Seaweed) == 0);
            assert(death_actions(v@).last() == OnDeath::Seaweed);
            v
        },
        OnDeath::RandomObject => {
            let v = random_object(w, h, classic, rng, art);
            proof {
                lemma_one_special_count(v@);
                lemma_none_of(death_actions(v@), OnDeath::Fish);
                lemma_none_of(death_actions(v@), OnDeath::Seaweed);
            }
            v
        },
    }
}

/// What each creature of the tank brings on when it dies.
pub open spec fn actions(tank: Seq<Body>) -> Seq<OnDeath> {
    tank.map_values(|b: Body| b.on_death)
}

/// Which creatures of the tank are alive.
pub open spec fn alive_flags(tank: Seq<Body>) -> Seq<bool> {
    tank.map_values(|b: Body| b.alive)
}

/// The turnover after a tick: the indices of the creatures that live on, in
/// order, and the successors of those that died, in the order of the dead.
/// Every fish that died is replaced by one fresh fish, every strand of
/// seaweed by one fresh strand, and the roaming special by the next one; so
/// the tank keeps its school, its seaweed and its one special.
pub fn turnover(
    tank: &Vec<Body>,
    w: u16,
    h: u16,
    classic: bool,
    tick: u64,
    rng: &mut ThreadRng,
    art: &Art,
) -> (r: (Vec<usize>, Vec<Spawn>))
    requires
        tick <= u64::MAX - 720 * TICKS_PER_SEC,
        forall|i: int| 0 <= i < tank@.len() && !tank@[i].alive ==> art.can_replace(#[trigger] tank@[i].on_death),
    ensures
        forall|k: int| 0 <= k < r.0@.len() ==> r.0@[k] < tank@.len() && tank@[r.0@[k] as int].alive,
        forall|k1: int, k2: int| 0 <= k1 < k2 < r.0@.len() ==> r.0@[k1] < r.0@[k2],
        forall|i: int| 0 <= i < tank@.len() && tank@[i].alive ==> exists|k: int| 0 <= k < r.0@.len() && r.0@[k] == i,
        r.0@.map_values(|k: usize| actions(tank@)[k as int]) == survivors(actions(tank@), alive_flags(tank@)),
        count_specials(survivors(actions(tank@), alive_flags(tank@)) + death_actions(r.1@)) == count_specials(
            actions(tank@),
        ),
        count_of(survivors(actions(tank@), alive_flags(tank@)) + death_actions(r.1@), OnDeath::Fish) == count_of(
            actions(tank@),
            OnDeath::Fish,
        ),
        count_of(survivors(actions(tank@), alive_flags(tank@)) + death_actions(r.1@), OnDeath::Seaweed) == count_of(
            actions(tank@),
            OnDeath::Seaweed,
        ),
        exists|groups: Seq<Seq<Spawn>>|
            #![trigger concat_groups(groups)]
            groups.len() == tank@.len() && r.1@ == concat_groups(groups) && forall|i: int|
                0 <= i < tank@.len() ==> if tank@[i].alive {
                    (#[trigger] groups[i]).len() == 0
                } else {
                    replaces(groups[i], tank@[i].on_death, w, h, classic, tick, art)
                },
        fish_tagged(r.1@.map_values(|s: Spawn| s.body)),
        fish_tagged(tank@) ==> count_fish(
            r.0@.map_values(|k: usize| tank@[k as int].etype) + r.1@.map_values(|s: Spawn| s.body.etype),
        ) == count_fish(tank@.map_values(|b: Body| b.etype)),
{
    let ghost acts = actions(tank@);
    let ghost alive = alive_flags(tank@);
    let ghost mut born: Seq<Seq<OnDeath>> = Seq::empty();
    let ghost mut groups: Seq<Seq<Spawn>> = Seq::empty();
    let mut kept: Vec<usize> = Vec::new();
    let mut fresh: Vec<Spawn> = Vec::new();
    let mut i: usize = 0;
    while i < tank.len()
        invariant
            acts == actions(tank@),
            alive == alive_flags(tank@),
            i <= tank@.len(),
            tick <= u64::MAX - 720 * TICKS_PER_SEC,
            forall|j: int| 0 <= j < tank@.len() && !tank@[j].alive ==> art.can_replace(#[trigger] tank@[j].on_death),
            born.len() == i,
            groups.len() == i,
            fresh@ == concat_groups(groups),
            forall|j: int|
                0 <= j < i ==> if tank@[j].alive {
                    (#[trigger] groups[j]).len() == 0
                } else {
                    replaces(groups[j], tank@[j].on_death, w, h, classic, tick, art)
                },
            forall|j: int|
                0 <= j < fresh@.len() ==> ((#[trigger] fresh@[j]).body.etype == EntityType::Fish) == (
                fresh@[j].body.on_death == OnDeath::Fish),
            forall|k: int| 0 <= k < kept@.len() ==> kept@[k] < i && tank@[kept@[k] as int].alive,
            forall|k1: int, k2: int| 0 <= k1 < k2 < kept@.len() ==> kept@[k1] < kept@[k2],
            forall|j: int| 0 <= j < i && tank@[j].alive ==> exists|k: int| 0 <= k < kept@.len() && kept@[k] == j,
            kept@.map_values(|k: usize| acts[k as int]) == survivors(acts.take(i as int), alive.take(i as int)),
            death_actions(fresh@) == newborn(acts.take(i as int), alive.take(i as int), born),
            forall|j: int|
                0 <= j < i && !alive[j] ==> {
                    &&& count_specials(#[trigger] born[j]) == if acts[j] == OnDeath::RandomObject {
                        1nat
                    } else {
                        0nat
                    }
                    &&& count_of(born[j], OnDeath::Fish) == if acts[j] == OnDeath::Fish {
                        1nat
                    } else {
                        0nat
                    }
                    &&& count_of(born[j], OnDeath::Seaweed) == if acts[j] == OnDeath::Seaweed {
                        1nat
                    } else {
                        0nat
                    }
                },
        decreases tank@.len() - i,
    {
        let ghost old_kept = kept@;
        let ghost old_fresh = fresh@;
        let ghost old_born = born;
        let ghost old_groups = groups;
        assert(acts.take(i + 1).drop_last() =~= acts.take(i as int));
        assert(alive.take(i + 1).drop_last() =~= alive.take(i as int));
        assert(acts.take(i + 1).last() == acts[i as int]);
        assert(alive.take(i + 1)[i as int] == alive[i as int]);
        if tank[i].alive {
            kept.push(i);
            proof {
                groups = groups.push(Seq::empty());
                assert(groups.drop_last() =~= old_groups);
                assert(concat_groups(groups) =~= concat_groups(old_groups));
                assert forall|j: int| 0 <= j < i + 1 implies if tank@[j].alive {
                    (#[trigger] groups[j]).len() == 0
                } else {
                    replaces(groups[j], tank@[j].on_death, w, h, classic, tick, art)
                } by {
                    if j < i {
                        assert(groups[j] == old_groups[j]);
                    }
                }
                born = born.push(Seq::empty());
                assert(born.drop_last() =~= old_born);
                assert(kept@.map_values(|k: usize| acts[k as int]) =~= old_kept.map_values(|k: usize| acts[k as int]).push(
                    acts[i as int],
                ));
                assert(newborn(acts.take(i + 1), alive.take(i + 1), born) =~= newborn(
                    acts.take(i as int),
                    alive.take(i as int),
                    old_born,
                ) + Seq::<OnDeath>::empty());
                assert forall|j: int| 0 <= j < i + 1 && tank@[j].alive implies exists|k: int|
                    0 <= k < kept@.len() && kept@[k] == j by {
                    if j == i {
                        assert(kept@[kept@.len() - 1] == j);
                    } else {
                        let k = choose|k: int| 0 <= k < old_kept.len() && old_kept[k] == j;
                        assert(kept@[k] == j);
                    }
                }
            }
        } else {
            let mut next = successor(tank[i].on_death, w, h, classic, tick, rng, art);
            let ghost sp = next@;
            fresh.append(&mut next);
            proof {
                groups = groups.push(sp);
                assert(groups.drop_last() =~= old_groups);
                assert(fresh@ =~= old_fresh + sp);
                assert(concat_groups(groups) =~= concat_groups(old_groups) + sp);
                assert forall|j: int| 0 <= j < i + 1 implies if tank@[j].alive {
                    (#[trigger] groups[j]).len() == 0
                } else {
                    replaces(groups[j], tank@[j].on_death, w, h, classic, tick, art)
                } by {
                    if j < i {
                        assert(groups[j] == old_groups[j]);
                    }
                }
                assert forall|j: int| 0 <= j < fresh@.len() implies ((#[trigger] fresh@[j]).body.etype
                    == EntityType::Fish) == (fresh@[j].body.on_death == OnDeath::Fish) by {
                    if j < old_fresh.len() {
                        assert(fresh@[j] == old_fresh[j]);
                    } else {
                        assert(fresh@[j] == sp[j - old_fresh.len()]);
                    }
                }
                born = born.push(death_actions(sp));
                assert(born.drop_last() =~= old_born);
                assert(death_actions(fresh@) =~= death_actions(old_fresh) + death_actions(sp));
                assert(survivors(acts.take(i + 1), alive.take(i + 1)) =~= survivors(
                    acts.take(i as int),
                    alive.take(i as int),
                ) + Seq::<OnDeath>::empty());
                assert forall|j: int| 0 <= j < i + 1 && tank@[j].alive implies exists|k: int|
                    0 <= k < kept@.len() && kept@[k] == j by {
                    let k = choose|k: int| 0 <= k < old_kept.len() && old_kept[k] == j;
                }
            }
        }
        i += 1;
    }
    proof {
        assert(acts.take(tank@.len() as int) =~= acts);
        assert(alive.take(tank@.len() as int) =~= alive);
        law_specials_are_conserved(acts, alive, born);
        lemma_kind_conserved(acts, alive, born, OnDeath::Fish);
        lemma_kind_conserved(acts, alive, born, OnDeath::Seaweed);
        assert(fresh@ == concat_groups(groups));
        let fb = fresh@.map_values(|s: Spawn| s.body);
        assert(fish_tagged(fb)) by {
            assert forall|j: int| 0 <= j < fb.len() implies ((#[trigger] fb[j]).etype == EntityType::Fish) == (
            fb[j].on_death == OnDeath::Fish) by {
                assert(fb[j] == fresh@[j].body);
            }
        }
        if fish_tagged(tank@) {
            let kb = kept@.map_values(|k: usize| tank@[k as int]);
            assert(fish_tagged(kb)) by {
                assert forall|j: int| 0 <= j < kb.len() implies ((#[trigger] kb[j]).etype == EntityType::Fish) == (
                kb[j].on_death == OnDeath::Fish) by {
                    assert(kb[j] == tank@[kept@[j] as int]);
                }
            }
            lemma_fish_tags(kb);
            lemma_fish_tags(fb);
            lemma_fish_tags(tank@);
            assert(kb.map_values(|b: Body| b.etype) =~= kept@.map_values(|k: usize| tank@[k as int].etype));
            assert(kb.map_values(|b: Body| b.on_death) =~= kept@.map_values(|k: usize| acts[k as int]));
            assert(fb.map_values(|b: Body| b.etype) =~= fresh@.map_values(|s: Spawn| s.body.etype));
            assert(fb.map_values(|b: Body| b.on_death) =~= death_actions(fresh@));
            assert(tank@.map_values(|b: Body| b.on_death) =~= acts);
            lemma_count_fish_concat(
                kept@.map_values(|k: usize| tank@[k as int].etype),
                fresh@.map_values(|s: Spawn| s.body.etype),
            );
            lemma_count_of_concat(survivors(acts, alive), death_actions(fresh@), OnDeath::Fish);
        }
    }
    (kept, fresh)
}

/// How many fish a `w` by `h` tank holds: one per 350 cells of water below
/// the surface (the top 9 rows).
pub open spec fn fish_quota(w: u16, h: u16) -> int {
    (if h >= 9 { (h - 9) * w } else { 0int }) / 350
}

/// How many seaweed strands a tank `w` wide holds: one per 15 columns.
pub open spec fn seaweed_quota(w: u16) -> int {
    (w / 15) as int
}

/// How many fish a `w` by `h` tank holds (see `fish_quota`).
pub fn fish_count(w: u16, h: u16) -> (n: u32)
    ensures
        n == fish_quota(w, h),
{
    let area: u32 = if h >= 9 {
        assert((h - 9) as int * w as int <= 0xFFFE_0001) by (nonlinear_arith)
            requires 0 <= h - 9 <= 0xFFFF, 0 <= w <= 0xFFFF;
        (h - 9) as u32 * w as u32
    } else {
        0
    };
    area / 350
}

/// How many seaweed strands a tank `w` wide holds (see `seaweed_quota`).
pub fn seaweed_count(w: u16) -> (n: u16)
    ensures
        n == seaweed_quota(w),
{
    w / 15
}

/// The whole scene from scratch: the water surface, the castle, the
/// seaweed, a school of fish sized to the water, and one roaming special,
/// in that order.
pub fn build_scene(w: u16, h: u16, classic: bool, tick: u64, rng: &mut ThreadRng, art: &Art) -> (out: Vec<Spawn>)
    requires
        art.wf(),
        tick <= u64::MAX - 720 * TICKS_PER_SEC,
    ensures
        ({
            let nw = art.water@.len() as int;
            let ns = seaweed_quota(w);
            let nf = fish_quota(w, h);
            &&& out@.len() >= nw + 1 + ns + nf + 1
            &&& water_built(out@.take(nw), w, art.water@)
            &&& castle_built(out@[nw], w, h, art.castle@)
            &&& forall|i: int| nw + 1 <= i < nw + 1 + ns ==> seaweed_built(#[trigger] out@[i], w, h, tick)
            &&& forall|i: int|
                nw + 1 + ns <= i < nw + 1 + ns + nf ==> fish_built(#[trigger] out@[i], w, h, classic, art.old_fish@, art.new_fish@)
            &&& one_special(out@.skip(nw + 1 + ns + nf))
            &&& special_built(out@.skip(nw + 1 + ns + nf), w, h, classic, art)
            &&& forall|i: int| 0 <= i < nw + 1 + ns + nf ==> (#[trigger] out@[i]).body.on_death != OnDeath::RandomObject
        }),
        count_specials(death_actions(out@)) == 1,
{
    let ghost nw = art.water@.len() as int;
    let mut out = water(w, art.water);
    let ghost ws = out@;
    out.push(castle(w, h, art.castle));
    assert(out@.take(nw) =~= ws);
    let strands: u16 = seaweed_count(w);
    let mut i: u16 = 0;
    while i < strands
        invariant
            i <= strands,
            strands == seaweed_quota(w),
            nw == art.water@.len(),
            art.wf(),
            tick <= u64::MAX - 720 * TICKS_PER_SEC,
            out@.len() == nw + 1 + i,
            water_built(out@.take(nw), w, art.water@),
            castle_built(out@[nw], w, h, art.castle@),
            forall|j: int| nw + 1 <= j < nw + 1 + i ==> seaweed_built(#[trigger] out@[j], w, h, tick),
            forall|j: int| 0 <= j < out@.len() ==> (#[trigger] out@[j]).body.on_death != OnDeath::RandomObject,
        decreases strands - i,
    {
        let ghost prev = out@;
        out.push(seaweed(w, h, tick, rng));
        assert(out@.take(nw) =~= prev.take(nw));
        i += 1;
    }
    let count: u32 = fish_count(w, h);
    let mut k: u32 = 0;
    while k < count
        invariant
            k <= count,
            count == fish_quota(w, h),
            strands == seaweed_quota(w),
            nw == art.water@.len(),
            art.wf(),
            out@.len() == nw + 1 + strands + k,
            water_built(out@.take(nw), w, art.water@),
            castle_built(out@[nw], w, h, art.castle@),
            forall|j: int| nw + 1 <= j < nw + 1 + strands ==> seaweed_built(#[trigger] out@[j], w, h, tick),
            forall|j: int|
                nw + 1 + strands <= j < nw + 1 + strands + k ==> fish_built(
                    #[trigger] out@[j],
                    w,
                    h,
                    classic,
                    art.old_fish@,
                    art.new_fish@,
                ),
            forall|j: int| 0 <= j < out@.len() ==> (#[trigger] out@[j]).body.on_death != OnDeath::RandomObject,
        decreases count - k,
    {
        let ghost prev = out@;
        out.push(fish(w, h, classic, rng, art.old_fish, art.new_fish));
        assert(out@.take(nw) =~= prev.take(nw));
        k += 1;
    }
    let ghost before = out@;
    let mut special = random_object(w, h, classic, rng, art);
    let ghost sp = special@;
    out.append(&mut special);
    assert(out@ =~= before + sp);
    assert(out@.skip(before.len() as int) =~= sp);
    assert forall|j: int| 0 <= j < before.len() implies #[trigger] out@[j] == before[j] by {}
    assert(out@.take(nw) =~= before.take(nw));
    proof {
        lemma_one_special_count(sp);
        lemma_no_specials(death_actions(before));
        lemma_count_specials_concat(death_actions(before), death_actions(sp));
        assert(death_actions(out@) =~= death_actions(before) + death_actions(sp));
    }
    out
}

/// Whether a fish blows a bubble on a roll of `roll` out of 100: on 98 and
/// 99, about one tick in fifty.
pub fn bubble_on_roll(roll: i32) -> (r: bool)
    ensures
        r == (roll > 97),
{
    roll > 97
}

/// Whether a fish blows a bubble this tick: a roll of 0 to 99 is drawn and
/// judged by `bubble_on_roll`. Returns the roll and the verdict.
pub fn blows_bubble(rng: &mut ThreadRng) -> (r: (i32, bool))
    ensures
        0 <= r.0 < 100,
        r.1 == (r.0 > 97),
{
    let roll = between(rng, 0, 100);
    (roll, bubble_on_roll(roll))
}

/// Whether a bubble whose top is on row `row` has reached the surface, whose
/// `water_rows` rows start at `WATER_TOP`: it pops on the surface's last row
/// or above.
pub fn bubble_pops(row: i32, water_rows: u16) -> (r: bool)
    ensures
        r == (row <= WATER_TOP + water_rows - 1),
{
    (row as i64) <= WATER_TOP as i64 + water_rows as i64 - 1
}

} // verus!
