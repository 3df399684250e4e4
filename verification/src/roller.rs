//! The roller: single dice, groups of dice, and dice notation, rolled from
//! a random source that the roller owns.

use crate::error::{DiceError, ErrorView};
use crate::model::{
    answers, face, faces, lemma_faces_in_range, lemma_faces_push,
    lemma_total_push, total, Call, Reply,
};
use crate::notation::{parse, parse_spec, RollSpec};
use crate::random::{advance, seed_state, starts_at, step, RandomSource};
use vstd::prelude::*;

verus! {

/// The version of this library.
pub open spec fn version_text() -> Seq<char> {
    "1.0.0"@
}

/// Whether the sum of `count` dice of `sides` sides is sure to fit the
/// integer that holds it.
pub open spec fn fits(count: i32, sides: i32) -> bool {
    count * sides <= i32::MAX
}

/// What a call that gives one number has answered.
pub open spec fn reply_of(result: Result<i32, DiceError>) -> Reply {
    match result {
        Ok(value) => Reply::Value(value as int),
        Err(error) => Reply::Failed(error@),
    }
}

/// What a call that gives a sum and its dice has answered.
pub open spec fn reply_of_each(result: Result<(i32, Vec<i32>), DiceError>) -> Reply {
    match result {
        Ok((sum, individual)) => Reply::Values(sum as int, individual@),
        Err(error) => Reply::Failed(error@),
    }
}

/// A dice roller. It owns its random source; `init` seeds it, and a roller
/// that rolls before it was seeded seeds itself from the clock.
#[derive(Debug, Clone)]
pub struct Dice {
    source: RandomSource,
}

impl View for Dice {
    type V = Option<u64>;

    closed spec fn view(&self) -> Option<u64> {
        self.source@
    }
}

impl Dice {
    /// A roller whose source has not been seeded yet.
    pub fn new() -> (dice: Dice)
        ensures
            dice@ is None,
    {
        Dice { source: RandomSource::new() }
    }

    /// The state of the roller's source, or `None` where it has not been
    /// seeded.
    pub fn state(&self) -> (state: Option<u64>)
        ensures
            state == self@,
    {
        self.source.state()
    }

    /// Seeds the roller anew: with `seed` where one is given, from the clock
    /// otherwise. Nothing of the earlier state remains.
    pub fn init(&mut self, seed: Option<u32>)
        ensures
            answers(old(self)@, Call::Init(seed), Reply::Seeded, final(self)@),
            final(self)@ is Some,
            seed matches Some(seed) ==> final(self)@ == Some(seed_state(seed)),
    {
        self.source.init(seed);
    }

    /// The version of this library.
    pub fn version() -> (version: String)
        ensures
            version@ == version_text(),
            version@.len() > 0,
    {
        proof {
            reveal_strlit("1.0.0");
        }
        "1.0.0".to_owned()
    }

    /// Whether the sum of `count` dice of `sides` sides is sure to fit the
    /// integer that holds it.
    pub fn fits(count: i32, sides: i32) -> (yes: bool)
        ensures
            yes == fits(count, sides),
    {
        assert(-0x4000_0000_0000_0000 <= count * sides <= 0x4000_0000_0000_0000)
            by (nonlinear_arith)
            requires
                -0x8000_0000 <= count <= 0x7fff_ffff,
                -0x8000_0000 <= sides <= 0x7fff_ffff,
        ;
        count as i64 * sides as i64 <= 0x7fff_ffff
    }

    /// Rolls one die of `sides` sides.
    pub fn roll(&mut self, sides: i32) -> (result: Result<i32, DiceError>)
        ensures
            answers(old(self)@, Call::Roll(sides), reply_of(result), final(self)@),
            sides <= 0 ==> result == Err::<i32, DiceError>(DiceError::InvalidSides(sides))
                && final(self)@ == old(self)@,
            sides > 0 ==> (result matches Ok(value) && 1 <= value <= sides),
    {
        if sides <= 0 {
            return Err(DiceError::InvalidSides(sides));
        }
        let value = self.source.next_in_range(1, sides);
        proof {
            let start = choose|start: u64|
                #[trigger] starts_at(old(self)@, start) && value == face(start, sides)
                    && self@ == Some(step(start));
            assert(advance(start, 1) == step(advance(start, 0)));
            assert(starts_at(old(self)@, start));
        }
        Ok(value)
    }

    /// Rolls `count` dice of `sides` sides and returns their sum.
    pub fn roll_multiple(&mut self, count: i32, sides: i32) -> (result: Result<i32, DiceError>)
        requires
            count > 0 && sides > 0 ==> fits(count, sides),
        ensures
            answers(old(self)@, Call::RollMultiple(count, sides), reply_of(result), final(self)@),
            count <= 0 ==> result == Err::<i32, DiceError>(DiceError::InvalidCount(count))
                && final(self)@ == old(self)@,
            count > 0 && sides <= 0 ==> result == Err::<i32, DiceError>(
                DiceError::InvalidSides(sides),
            ) && final(self)@ == old(self)@,
            count > 0 && sides > 0 ==> (result matches Ok(sum) && count <= sum <= count * sides),
    {
        if count <= 0 {
            return Err(DiceError::InvalidCount(count));
        }
        if sides <= 0 {
            return Err(DiceError::InvalidSides(sides));
        }
        Ok(self.sum_of(count, sides) as i32)
    }

    /// Rolls `count` dice of `sides` sides and returns their sum and what
    /// each die shows, in the order rolled.
    pub fn roll_individual(&mut self, count: i32, sides: i32) -> (result: Result<
        (i32, Vec<i32>),
        DiceError,
    >)
        requires
            count > 0 && sides > 0 ==> fits(count, sides),
        ensures
            answers(
                old(self)@,
                Call::RollIndividual(count, sides),
                reply_of_each(result),
                final(self)@,
            ),
            count <= 0 ==> result == Err::<(i32, Vec<i32>), DiceError>(
                DiceError::InvalidCount(count),
            ) && final(self)@ == old(self)@,
            count > 0 && sides <= 0 ==> result == Err::<(i32, Vec<i32>), DiceError>(
                DiceError::InvalidSides(sides),
            ) && final(self)@ == old(self)@,
            count > 0 && sides > 0 ==> (result matches Ok((sum, individual)) && individual@.len()
                == count && (forall|i: int|
                0 <= i < count ==> 1 <= #[trigger] individual@[i] <= sides) && sum == total(
                individual@,
            ) && count <= sum <= count * sides),
    {
        if count <= 0 {
            return Err(DiceError::InvalidCount(count));
        }
        if sides <= 0 {
            return Err(DiceError::InvalidSides(sides));
        }
        self.source.ensure_seeded();
        let ghost start = self@->0;
        let mut individual: Vec<i32> = Vec::new();
        let mut sum: i32 = 0;
        let mut rolled: i32 = 0;
        while rolled < count
            invariant
                0 <= rolled <= count,
                sides > 0,
                fits(count, sides),
                self@ == Some(advance(start, rolled as nat)),
                individual@ == faces(start, rolled as nat, sides),
                sum == total(individual@),
            decreases count - rolled,
        {
            let value = self.source.next_in_range(1, sides);
            proof {
                lemma_faces_push(start, rolled as nat, sides);
                lemma_total_push(individual@, value);
                lemma_faces_in_range(start, (rolled + 1) as nat, sides);
                lemma_sum_fits(rolled + 1, count as int, sides as int);
            }
            individual.push(value);
            sum = sum + value;
            rolled = rolled + 1;
        }
        proof {
            lemma_faces_in_range(start, count as nat, sides);
            assert(starts_at(old(self)@, start));
        }
        Ok((sum, individual))
    }

    /// Rolls what `notation` asks for: the dice, and the modifier added to
    /// their sum. Notation that does not parse is turned away, and so is
    /// notation that can come to more than `i32::MAX`.
    pub fn roll_notation(&mut self, notation: &str) -> (result: Result<i32, DiceError>)
        ensures
            answers(
                old(self)@,
                Call::RollNotation(notation@),
                reply_of(result),
                final(self)@,
            ),
            result matches Err(error) ==> error@ == ErrorView::InvalidNotation(notation@)
                && final(self)@ == old(self)@,
            result matches Ok(value) ==> (parse_spec(notation@) matches Some(spec) && spec.least()
                <= value <= spec.most()),
    {
        let spec: RollSpec = match parse(notation) {
            Ok(spec) => spec,
            Err(error) => {
                return Err(error);
            },
        };
        proof {
            lemma_product_bound(spec.count as int, spec.sides as int);
        }
        if spec.count as i64 * spec.sides as i64 + spec.modifier as i64 > 0x7fff_ffff {
            return Err(DiceError::InvalidNotation(notation.to_owned()));
        }
        let sum = self.sum_of(spec.count, spec.sides);
        Ok((sum + spec.modifier as i64) as i32)
    }

    /// Rolls `count` dice of `sides` sides, one after the other, and returns
    /// their sum.
    fn sum_of(&mut self, count: i32, sides: i32) -> (sum: i64)
        requires
            count > 0,
            sides > 0,
        ensures
            answers(old(self)@, Call::RollMultiple(count, sides), Reply::Value(sum as int), final(self)@),
            count <= sum <= count * sides,
    {
        self.source.ensure_seeded();
        let ghost start = self@->0;
        let mut sum: i64 = 0;
        let mut rolled: i32 = 0;
        while rolled < count
            invariant
                0 <= rolled <= count,
                sides > 0,
                self@ == Some(advance(start, rolled as nat)),
                sum == total(faces(start, rolled as nat, sides)),
            decreases count - rolled,
        {
            let value = self.source.next_in_range(1, sides);
            proof {
                lemma_faces_push(start, rolled as nat, sides);
                lemma_total_push(faces(start, rolled as nat, sides), value);
                lemma_faces_in_range(start, (rolled + 1) as nat, sides);
                lemma_product_bound(rolled + 1, sides as int);
            }
            sum = sum + value as i64;
            rolled = rolled + 1;
        }
        proof {
            lemma_faces_in_range(start, count as nat, sides);
            assert(starts_at(old(self)@, start));
        }
        sum
    }
}

/// The product of two numbers that fit 32 bits fits 64 bits with room to
/// spare.
proof fn lemma_product_bound(a: int, b: int)
    requires
        0 <= a <= i32::MAX,
        0 <= b <= i32::MAX,
    ensures
        0 <= a * b <= 0x3fff_ffff_0000_0001,
{
    assert(0 <= a * b <= 0x3fff_ffff_0000_0001) by (nonlinear_arith)
        requires
            0 <= a <= 0x7fff_ffff,
            0 <= b <= 0x7fff_ffff,
    ;
}

/// Fewer dice come to no more than all of them can.
proof fn lemma_sum_fits(rolled: int, count: int, sides: int)
    requires
        0 <= rolled <= count,
        sides > 0,
    ensures
        rolled * sides <= count * sides,
{
    assert(rolled * sides <= count * sides) by (nonlinear_arith)
        requires
            0 <= rolled <= count,
            sides > 0,
    ;
}

} // verus!
