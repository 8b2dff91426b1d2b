//! The random number generator the simulation draws from, and the chances whose
//! odds the caller decides.

use rand::Rng;
use rand::SeedableRng;
use rand_chacha::ChaCha12Rng;
use vstd::prelude::*;

verus! {

/// `rand_chacha`'s ChaCha generator with twelve rounds, carried through as an
/// opaque value.
#[verifier::external_type_specification]
#[verifier::external_body]
pub struct ExChaCha12Rng(ChaCha12Rng);

/// `Clone::clone` of `ChaCha12Rng`, which `rand_chacha` derives: the copy holds
/// the same key, counter and buffered output. The claim is that the copy equals
/// the generator it was made from.
pub assume_specification[ <ChaCha12Rng as Clone>::clone ](rng: &ChaCha12Rng) -> (copy: ChaCha12Rng)
    ensures
        copy == *rng,
;

/// Random number generator wrapper used by the simulation.
///
/// `ChaCha12Rng` gives deterministic seeded runs while `from_os_rng` provides
/// non-deterministic default runs from the operating system. It is named
/// directly rather than through `rand::rngs::StdRng`, whose algorithm `rand` may
/// change between releases, so a given seed keeps producing the same run.
#[derive(Clone)]
pub struct Random {
    /// Internal generator from the `rand_chacha` crate. Front ends draw the
    /// floating-point values that decide a `Chance` from it.
    pub rng: ChaCha12Rng,
    /// Every draw the simulation has taken through this generator, in order.
    pub log: Ghost<Seq<Draw>>,
}

/// Whether `after` is `before` with more draws taken: what `before` drew
/// stays, in order, at the front.
pub open spec fn extends(before: Random, after: Random) -> bool {
    &&& before.draws().len() <= after.draws().len()
    &&& after.draws().take(before.draws().len() as int) == before.draws()
}

/// A generator extends itself: no draws taken is a sequence of draws too.
pub proof fn lemma_extends_itself(random: Random)
    ensures
        extends(random, random),
        drawn_since(random, random) == Seq::<Draw>::empty(),
{
    assert(random.draws().take(random.draws().len() as int) =~= random.draws());
    assert(drawn_since(random, random) =~= Seq::<Draw>::empty());
}

/// Taking draws `taken` extends a generator, by exactly those draws.
pub proof fn lemma_extends_append(before: Random, after: Random, taken: Seq<Draw>)
    requires
        after.draws() == before.draws() + taken,
    ensures
        extends(before, after),
        drawn_since(before, after) == taken,
{
    assert(after.draws().take(before.draws().len() as int) =~= before.draws());
    assert(drawn_since(before, after) =~= taken);
}

/// Taking one draw extends a generator by that draw.
pub proof fn lemma_extends_push(before: Random, after: Random, taken: Draw)
    requires
        after.draws() == before.draws().push(taken),
    ensures
        extends(before, after),
        drawn_since(before, after) == seq![taken],
{
    assert(before.draws().push(taken) =~= before.draws() + seq![taken]);
    lemma_extends_append(before, after, seq![taken]);
}

/// Extending is transitive, and the draws taken add up.
pub proof fn lemma_extends_trans(a: Random, b: Random, c: Random)
    requires
        extends(a, b),
        extends(b, c),
    ensures
        extends(a, c),
        drawn_since(a, c) == drawn_since(a, b) + drawn_since(b, c),
{
    assert(c.draws().take(a.draws().len() as int) =~= b.draws().take(a.draws().len() as int)) by {
        assert forall|i: int| 0 <= i < a.draws().len() implies c.draws()[i] == b.draws()[i] by {
            assert(c.draws().take(b.draws().len() as int)[i] == c.draws()[i]);
        }
    }
    assert(drawn_since(a, c) =~= drawn_since(a, b) + drawn_since(b, c)) by {
        assert forall|i: int| 0 <= i < drawn_since(a, c).len() implies drawn_since(a, c)[i] == (drawn_since(a, b)
            + drawn_since(b, c))[i] by {
            let n = a.draws().len() as int;
            let m = b.draws().len() as int;
            if n + i < m {
                assert(c.draws().take(m)[n + i] == c.draws()[n + i]);
            }
        }
    }
}

/// The draws `after` took since it was `before`.
pub open spec fn drawn_since(before: Random, after: Random) -> Seq<Draw> {
    after.draws().skip(before.draws().len() as int)
}

/// The number the latest draw of `random` picked; 0 when that draw was a
/// chance or there was none.
pub open spec fn last_number(random: Random) -> i32 {
    if random.draws().len() > 0 {
        match random.draws().last() {
            Draw::Number { value, .. } => value,
            Draw::Asked { .. } => 0,
        }
    } else {
        0
    }
}

/// One draw the simulation takes: a chance put to the odds with the answer
/// they gave, or a whole number picked from an inclusive range.
#[derive(Clone, Copy, Debug, PartialEq, Eq, Structural)]
pub enum Draw {
    Asked { chance: Chance, answer: bool },
    Number { min: i32, max: i32, value: i32 },
}

impl Random {
    /// Creates a generator seeded from operating system randomness, or `None`
    /// when the operating system cannot provide it.
    ///
    /// Calls `SeedableRng::try_from_os_rng`, which reports that failure as an
    /// error instead of panicking. Which generator comes back is not claimed;
    /// it has taken no draws yet.
    #[verifier::external_body]
    pub fn new() -> (random: Option<Random>)
        ensures
            random matches Some(random) ==> random.draws() == Seq::<Draw>::empty(),
    {
        match ChaCha12Rng::try_from_os_rng() {
            Ok(rng) => Some(Random { rng, log: Ghost(Seq::empty()) }),
            Err(_) => None,
        }
    }

    /// Creates a generator from an explicit seed.
    ///
    /// Calls `SeedableRng::seed_from_u64`. Which generator comes back is not
    /// claimed; it has taken no draws yet.
    #[verifier::external_body]
    pub fn with_seed(seed: u64) -> (random: Random)
        ensures
            random.draws() == Seq::<Draw>::empty(),
    {
        Random { rng: ChaCha12Rng::seed_from_u64(seed), log: Ghost(Seq::empty()) }
    }

    /// A generator in the same state as this one, which draws the same values
    /// from here on.
    pub fn duplicate(&self) -> (copy: Random)
        ensures
            copy == *self,
    {
        Random { rng: self.rng.clone(), log: self.log }
    }

    /// Returns a random integer in the inclusive range `min..=max`.
    ///
    /// Calls `Rng::random_range` with `min..=max`. The claim is the range that
    /// `rand` documents for the result; `rand` panics on an empty range, which
    /// `requires` leaves out. Which value comes back is left open.
    #[verifier::external_body]
    fn int_inclusive(&mut self, min: i32, max: i32) -> (value: i32)
        requires
            min <= max,
        ensures
            min <= value <= max,
    {
        self.rng.random_range(min..=max)
    }

    /// The draws taken through this generator so far.
    pub open spec fn draws(&self) -> Seq<Draw> {
        self.log@
    }

    /// Picks a whole number in `min..=max` and records the draw.
    pub fn draw(&mut self, min: i32, max: i32) -> (value: i32)
        requires
            min <= max,
        ensures
            min <= value <= max,
            final(self).draws() == old(self).draws().push(Draw::Number { min, max, value }),
    {
        let ghost taken = self.log@;
        let value = self.int_inclusive(min, max);
        self.log = Ghost(taken.push(Draw::Number { min, max, value }));
        value
    }

    /// Puts `chance` to `odds` and records the answer.
    pub fn ask<O: Odds>(&mut self, odds: &O, chance: Chance) -> (answer: bool)
        ensures
            final(self).draws() == old(self).draws().push(Draw::Asked { chance, answer }),
    {
        let ghost taken = self.log@;
        let answer = odds.succeeds(self, chance);
        self.log = Ghost(taken.push(Draw::Asked { chance, answer }));
        answer
    }
}

/// A chance the simulation takes. Which one it is, and what it depends on, is
/// all a front end needs to decide it with its own odds.
#[derive(Clone, Copy, Debug, PartialEq, Eq, Structural)]
pub enum Chance {
    /// An aphid moves during the movement phase.
    AphidMove,
    /// An aphid kills a ladybug in its cell, helped by `accomplices` other aphids
    /// there.
    AphidKill { accomplices: usize },
    /// An aphid sharing its cell with another aphid creates a child.
    AphidProcreate,
    /// A ladybug picks a new set of preferred directions before moving.
    LadybugDirection,
    /// A ladybug moves during the movement phase.
    LadybugMove,
    /// A ladybug kills an aphid in its cell.
    LadybugKill,
    /// A ladybug sharing its cell with another ladybug creates a child.
    LadybugProcreate,
    /// A cell below the food cap regains one food.
    FoodRegeneration,
}

/// The odds of every `Chance`, as a front end holds them.
///
/// `succeeds` decides one chance, drawing whatever it needs from `random`; a
/// turn takes its chances in a fixed order, so a seeded generator gives a
/// repeatable run. Nothing is assumed of the answers: the library asks through
/// `Random::ask`, which records each chance with its answer, and its contracts
/// state what follows from the answers recorded.
pub trait Odds {
    fn succeeds(&self, random: &mut Random, chance: Chance) -> bool;
}

} // verus!
