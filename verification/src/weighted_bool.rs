//! Confidence counters: small state machines that read as a boolean
//! prediction and absorb branch outcomes, nudging their state toward the
//! observed polarity.

use rand::Rng;
use vstd::prelude::*;

verus! {

/// One absorbed outcome, described abstractly over every counter variant.
///
/// `v0`/`s0` are the predicted value and the strength before the update,
/// `v1`/`s1` after it, and `taken` is the outcome absorbed. Strength `s`
/// means `s` consecutive contrary outcomes are needed before the predicted
/// value flips: an agreeing outcome reinforces the counter (strength at
/// least 2 afterwards, growing by at most one rank), a contrary outcome
/// flips a weak counter in place and otherwise weakens it by exactly one
/// rank without changing its value.
pub open spec fn counter_step_ok(v0: bool, s0: nat, taken: bool, v1: bool, s1: nat) -> bool {
    &&& (v0 == taken ==> v1 == v0 && s0 <= s1 <= s0 + 1 && s1 >= 2)
    &&& (v0 != taken && s0 <= 1 ==> v1 == taken && s1 == 1)
    &&& (v0 != taken && s0 > 1 ==> v1 == v0 && s1 == s0 - 1)
}

/// A value that can be interpreted as a boolean but internally takes more
/// states: reading never mutates, only `update` does.
pub trait Boolish: Sized {
    /// Internal well-formedness of the counter state.
    spec fn inv(&self) -> bool;

    /// The boolean the counter currently predicts.
    spec fn spec_value(&self) -> bool;

    /// How many consecutive contrary outcomes are needed to flip the value.
    spec fn strength(&self) -> nat;

    /// Seed a counter: it predicts `b`, in the weak state of that polarity,
    /// so a single contrary outcome flips it.
    fn new(b: bool) -> (r: Self)
        ensures
            r.inv(),
            r.spec_value() == b,
            r.strength() == 1,
    ;

    /// Read the prediction.
    fn value(&self) -> (r: bool)
        requires
            self.inv(),
        ensures
            r == self.spec_value(),
    ;

    /// Absorb one outcome, nudging the state toward it.
    fn update(&mut self, taken: bool)
        requires
            old(self).inv(),
        ensures
            final(self).inv(),
            counter_step_ok(
                old(self).spec_value(),
                old(self).strength(),
                taken,
                final(self).spec_value(),
                final(self).strength(),
            ),
    ;
}

/// Saturating two-bit counter: four ordered states, predicting taken in the
/// upper two.
#[derive(Clone, Copy)]
pub struct TwoBitCounter {
    pub counter: u8,
}

impl TwoBitCounter {
    /// The seeded state: the weak state of the requested polarity, never a
    /// saturated extreme.
    pub open spec fn spec_new(b: bool) -> TwoBitCounter {
        TwoBitCounter { counter: if b { 2 } else { 1 } }
    }

    /// The full transition table: clamped increment toward 3 on a taken
    /// outcome, clamped decrement toward 0 otherwise.
    pub open spec fn spec_stepped(self, taken: bool) -> TwoBitCounter {
        if taken {
            TwoBitCounter { counter: if self.counter < 3 { (self.counter + 1) as u8 } else { self.counter } }
        } else {
            TwoBitCounter { counter: if self.counter > 0 { (self.counter - 1) as u8 } else { self.counter } }
        }
    }

    /// Exact executable seeding; `Boolish::new` delegates here.
    pub fn seeded(b: bool) -> (r: TwoBitCounter)
        ensures
            r == TwoBitCounter::spec_new(b),
            r.inv(),
    {
        TwoBitCounter { counter: if b { 2 } else { 1 } }
    }

    /// Exact executable transition; `Boolish::update` delegates here.
    pub fn stepped(self, taken: bool) -> (r: TwoBitCounter)
        requires
            self.inv(),
        ensures
            r == self.spec_stepped(taken),
            r.inv(),
    {
        if taken {
            if self.counter < 3 {
                TwoBitCounter { counter: self.counter + 1 }
            } else {
                self
            }
        } else {
            if self.counter > 0 {
                TwoBitCounter { counter: self.counter - 1 }
            } else {
                self
            }
        }
    }
}

impl Boolish for TwoBitCounter {
    open spec fn inv(&self) -> bool {
        self.counter <= 3
    }

    open spec fn spec_value(&self) -> bool {
        self.counter >= 2
    }

    open spec fn strength(&self) -> nat {
        if self.counter == 0 || self.counter == 3 {
            2
        } else {
            1
        }
    }

    fn new(b: bool) -> (r: Self) {
        TwoBitCounter::seeded(b)
    }

    fn value(&self) -> (r: bool) {
        self.counter >= 2
    }

    fn update(&mut self, taken: bool) {
        *self = self.stepped(taken);
    }
}

#[verifier::external_type_specification]
#[verifier::external_body]
pub struct ExThreadRng(rand::rngs::ThreadRng);

/// Relies on `rand::thread_rng`: a handle to the thread-local pseudorandom
/// generator. Nothing is assumed of the numbers it will produce.
#[verifier::external_body]
fn fresh_rng() -> rand::rngs::ThreadRng {
    rand::thread_rng()
}

/// Relies on `rand::Rng::gen_range`: a draw from the non-empty range
/// `1..101`, so the result lies in `[1, 101)`; which value comes back is
/// not promised.
#[verifier::external_body]
fn die_roll(rng: &mut rand::rngs::ThreadRng) -> (r: u32)
    ensures
        1 <= r < 101,
{
    rng.gen_range(1..101)
}

/// One roll of the ambient pseudorandom source: true with probability about
/// one percent. Nothing is promised of which outcome comes back.
fn lucky_die_roll() -> bool {
    let mut rng = fresh_rng();
    die_roll(&mut rng) == 42
}

/// The four confidence ranks of [`ProbablyBool`], from weakest to strongest.
#[derive(Clone, Copy)]
pub enum Confidence {
    Weak,
    Fair,
    Strong,
    Conviction,
}

/// A remembered boolean with a confidence rank. Agreement escalates the rank
/// (only probabilistically at the higher ranks); disagreement drops straight
/// to `Fair` from the two high ranks, from `Fair` to `Weak`, and at `Weak`
/// flips the remembered value outright.
pub struct ProbablyBool {
    value: bool,
    confidence: Confidence,
}

/// The exact transition of a [`ProbablyBool`], given the outcome and the
/// two die rolls that the probabilistic escalations would consume: the new
/// remembered value and the new confidence rank.
pub open spec fn probably_step(
    v: bool,
    c: Confidence,
    new_value: bool,
    fair_roll: bool,
    strong_roll: bool,
) -> (bool, Confidence) {
    if v == new_value {
        (
            v,
            match c {
                Confidence::Weak => Confidence::Fair,
                Confidence::Fair => if fair_roll { Confidence::Strong } else { Confidence::Fair },
                Confidence::Strong => if strong_roll {
                    Confidence::Conviction
                } else {
                    Confidence::Strong
                },
                Confidence::Conviction => Confidence::Conviction,
            },
        )
    } else {
        match c {
            Confidence::Weak => (new_value, Confidence::Weak),
            Confidence::Fair => (v, Confidence::Weak),
            Confidence::Strong => (v, Confidence::Fair),
            Confidence::Conviction => (v, Confidence::Fair),
        }
    }
}

impl ProbablyBool {
    /// The current confidence rank.
    pub closed spec fn spec_confidence(&self) -> Confidence {
        self.confidence
    }

    /// Exact executable seeding: the requested value at the weakest rank;
    /// `Boolish::new` delegates here.
    pub fn seeded(b: bool) -> (r: ProbablyBool)
        ensures
            r.spec_value() == b,
            r.spec_confidence() == Confidence::Weak,
    {
        ProbablyBool { value: b, confidence: Confidence::Weak }
    }

    /// The deterministic part of one update: the outcome plus the two die
    /// rolls that the probabilistic escalations would consume. A test can
    /// drive this with a chosen roll sequence.
    pub fn update_with_rolls(&mut self, new_value: bool, fair_roll: bool, strong_roll: bool)
        ensures
            (final(self).spec_value(), final(self).spec_confidence()) == probably_step(
                old(self).spec_value(),
                old(self).spec_confidence(),
                new_value,
                fair_roll,
                strong_roll,
            ),
            counter_step_ok(
                old(self).spec_value(),
                old(self).strength(),
                new_value,
                final(self).spec_value(),
                final(self).strength(),
            ),
    {
        if self.value == new_value {
            self.confidence = match self.confidence {
                Confidence::Weak => Confidence::Fair,
                Confidence::Fair => if fair_roll { Confidence::Strong } else { Confidence::Fair },
                Confidence::Strong => if strong_roll { Confidence::Conviction } else { Confidence::Strong },
                Confidence::Conviction => Confidence::Conviction,
            };
        } else {
            self.confidence = match self.confidence {
                Confidence::Weak => {
                    self.value = new_value;
                    Confidence::Weak
                },
                Confidence::Fair => Confidence::Weak,
                Confidence::Strong => Confidence::Fair,
                Confidence::Conviction => Confidence::Fair,
            };
        }
    }

    /// Whether the counter has left the weakest rank.
    pub fn confident(&self) -> (r: bool)
        ensures
            r == (self.strength() > 1),
    {
        !matches!(self.confidence, Confidence::Weak)
    }

    /// Whether the counter has reached the strongest rank.
    pub fn highly_confident(&self) -> (r: bool)
        ensures
            r == (self.spec_confidence() is Conviction),
            r ==> self.strength() > 2,
    {
        matches!(self.confidence, Confidence::Conviction)
    }
}

impl Boolish for ProbablyBool {
    closed spec fn inv(&self) -> bool {
        true
    }

    closed spec fn spec_value(&self) -> bool {
        self.value
    }

    closed spec fn strength(&self) -> nat {
        match self.confidence {
            Confidence::Weak => 1,
            Confidence::Fair => 2,
            Confidence::Strong => 3,
            Confidence::Conviction => 3,
        }
    }

    fn new(b: bool) -> (r: Self) {
        ProbablyBool::seeded(b)
    }

    fn value(&self) -> (r: bool) {
        self.value
    }

    fn update(&mut self, taken: bool) {
        let fair_roll = lucky_die_roll();
        let strong_roll = lucky_die_roll();
        self.update_with_rolls(taken, fair_roll, strong_roll);
    }
}

/// Michaud-style eight-state random-walk counter: states ordered
/// NotTaken{100,99,1,0} then Taken{0,1,99,100} (the numbers are confidence
/// labels), held here as 0..=7 with the taken half at 4..=7. A taken outcome
/// moves one step up, a not-taken outcome one step down; the promotions from
/// a 99-state to the neighbouring 100-extreme happen only probabilistically,
/// and a contrary outcome at an extreme moves just one step inward.
#[derive(Clone, Copy)]
pub struct RandomWalkCounter {
    state: u8,
}

/// The exact transition of a [`RandomWalkCounter`] state (0..=7, the taken
/// half at 4..=7), given the outcome and the die roll that a promotion to
/// an extreme would consume.
pub open spec fn walk_step(s: u8, taken: bool, promote_roll: bool) -> u8 {
    if taken {
        if s == 6 {
            if promote_roll { 7 } else { 6 }
        } else if s < 7 {
            (s + 1) as u8
        } else {
            s
        }
    } else {
        if s == 1 {
            if promote_roll { 0 } else { 1 }
        } else if s > 0 {
            (s - 1) as u8
        } else {
            s
        }
    }
}

impl RandomWalkCounter {
    /// The current state, 0..=7, with the taken half at 4..=7.
    pub closed spec fn spec_state(&self) -> u8 {
        self.state
    }

    /// Exact executable seeding: the innermost (weak) state of the
    /// requested polarity; `Boolish::new` delegates here.
    pub fn seeded(b: bool) -> (r: RandomWalkCounter)
        ensures
            r.inv(),
            r.spec_state() == (if b { 4u8 } else { 3u8 }),
    {
        RandomWalkCounter { state: if b { 4 } else { 3 } }
    }

    /// The deterministic part of one update: the outcome plus the die roll
    /// that a promotion to an extreme would consume. A test can drive this
    /// with a chosen roll sequence.
    pub fn update_with_roll(&mut self, taken: bool, promote_roll: bool)
        requires
            old(self).inv(),
        ensures
            final(self).inv(),
            final(self).spec_state() == walk_step(old(self).spec_state(), taken, promote_roll),
            counter_step_ok(
                old(self).spec_value(),
                old(self).strength(),
                taken,
                final(self).spec_value(),
                final(self).strength(),
            ),
    {
        if taken {
            if self.state == 6 {
                if promote_roll {
                    self.state = 7;
                }
            } else if self.state < 7 {
                self.state = self.state + 1;
            }
        } else {
            if self.state == 1 {
                if promote_roll {
                    self.state = 0;
                }
            } else if self.state > 0 {
                self.state = self.state - 1;
            }
        }
    }
}

impl Boolish for RandomWalkCounter {
    closed spec fn inv(&self) -> bool {
        self.state <= 7
    }

    closed spec fn spec_value(&self) -> bool {
        self.state >= 4
    }

    closed spec fn strength(&self) -> nat {
        if self.state == 3 || self.state == 4 {
            1
        } else if self.state == 2 || self.state == 5 {
            2
        } else if self.state == 1 || self.state == 6 {
            3
        } else {
            4
        }
    }

    fn new(b: bool) -> (r: Self) {
        RandomWalkCounter::seeded(b)
    }

    fn value(&self) -> (r: bool) {
        self.state >= 4
    }

    fn update(&mut self, taken: bool) {
        let promote_roll = lucky_die_roll();
        self.update_with_roll(taken, promote_roll);
    }
}

/// A counter seeded at the weakest rank cannot reach conviction within two
/// updates, whatever the outcomes and however the escalation rolls fall:
/// the top rank takes at least three agreeing updates.
pub proof fn lemma_conviction_needs_three_updates(
    b: bool,
    o1: bool,
    f1: bool,
    s1: bool,
    o2: bool,
    f2: bool,
    s2: bool,
)
    ensures
        ({
            let (v1, c1) = probably_step(b, Confidence::Weak, o1, f1, s1);
            let (v2, c2) = probably_step(v1, c1, o2, f2, s2);
            !(c1 is Conviction) && !(c2 is Conviction)
        }),
{
}

/// Strengthening: an outcome agreeing with the predicted value never changes
/// the value, whatever the counter variant.
pub proof fn lemma_counter_strengthening(v0: bool, s0: nat, v1: bool, s1: nat)
    requires
        counter_step_ok(v0, s0, v0, v1, s1),
    ensures
        v1 == v0,
{
}

/// Weak flip: a contrary outcome flips a freshly seeded (weak) counter,
/// whatever the counter variant.
pub proof fn lemma_counter_weak_flip(v0: bool, v1: bool, s1: nat)
    requires
        counter_step_ok(v0, 1, !v0, v1, s1),
    ensures
        v1 == !v0,
{
}

/// Strong resistance: a seeded counter reinforced once by an agreeing
/// outcome survives one contrary outcome with its value intact, and only a
/// second consecutive contrary outcome flips it.
pub proof fn lemma_counter_strong_resistance(
    b: bool,
    v1: bool,
    s1: nat,
    v2: bool,
    s2: nat,
    v3: bool,
    s3: nat,
)
    requires
        counter_step_ok(b, 1, b, v1, s1),
        counter_step_ok(v1, s1, !b, v2, s2),
        counter_step_ok(v2, s2, !b, v3, s3),
    ensures
        v2 == b,
        v3 == !b,
{
}

} // verus!
