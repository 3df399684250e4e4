//! Dice rolling from RPG notation such as `3d6+5`, with a seedable random
//! source.
//!
//! A [`Dice`] owns its random source. Seed it with `init` to make its rolls
//! repeatable; a roller that rolls before it was seeded seeds itself from the
//! clock. Every call is held to the mathematical account of it in [`model`].

use vstd::prelude::*;

pub mod error;
pub mod model;
pub mod notation;
pub mod random;
pub mod roller;

pub use crate::error::{DiceError, DiceResult};
pub use crate::notation::{parse, RollSpec};
pub use crate::random::RandomSource;
pub use crate::roller::Dice;

use crate::error::ErrorView;
use crate::model::{answers, total, Call, Reply};
use crate::notation::parse_spec;
use crate::random::seed_state;
use crate::roller::{fits, reply_of, reply_of_each, version_text};

verus! {

/// Seeds `dice` anew: with `seed` where one is given, from the clock
/// otherwise.
pub fn init(dice: &mut Dice, seed: Option<u32>)
    ensures
        answers(old(dice)@, Call::Init(seed), Reply::Seeded, final(dice)@),
        final(dice)@ is Some,
        seed matches Some(seed) ==> final(dice)@ == Some(seed_state(seed)),
{
    dice.init(seed);
}

/// The version of this library.
pub fn version() -> (version: String)
    ensures
        version@ == version_text(),
        version@.len() > 0,
{
    Dice::version()
}

/// Rolls one die of `sides` sides with `dice`.
pub fn roll(dice: &mut Dice, sides: i32) -> (result: DiceResult<i32>)
    ensures
        answers(old(dice)@, Call::Roll(sides), reply_of(result), final(dice)@),
        sides <= 0 ==> result == Err::<i32, DiceError>(DiceError::InvalidSides(sides))
            && final(dice)@ == old(dice)@,
        sides > 0 ==> (result matches Ok(value) && 1 <= value <= sides),
{
    dice.roll(sides)
}

/// Rolls `count` dice of `sides` sides with `dice` and returns their sum.
pub fn roll_multiple(dice: &mut Dice, count: i32, sides: i32) -> (result: DiceResult<i32>)
    requires
        count > 0 && sides > 0 ==> fits(count, sides),
    ensures
        answers(old(dice)@, Call::RollMultiple(count, sides), reply_of(result), final(dice)@),
        count <= 0 ==> result == Err::<i32, DiceError>(DiceError::InvalidCount(count))
            && final(dice)@ == old(dice)@,
        count > 0 && sides <= 0 ==> result == Err::<i32, DiceError>(DiceError::InvalidSides(sides))
            && final(dice)@ == old(dice)@,
        count > 0 && sides > 0 ==> (result matches Ok(sum) && count <= sum <= count * sides),
{
    dice.roll_multiple(count, sides)
}

/// Rolls `count` dice of `sides` sides with `dice` and returns their sum and
/// what each die shows, in the order rolled.
pub fn roll_individual(dice: &mut Dice, count: i32, sides: i32) -> (result: DiceResult<
    (i32, Vec<i32>),
>)
    requires
        count > 0 && sides > 0 ==> fits(count, sides),
    ensures
        answers(
            old(dice)@,
            Call::RollIndividual(count, sides),
            reply_of_each(result),
            final(dice)@,
        ),
        count <= 0 ==> result == Err::<(i32, Vec<i32>), DiceError>(DiceError::InvalidCount(count))
            && final(dice)@ == old(dice)@,
        count > 0 && sides <= 0 ==> result == Err::<(i32, Vec<i32>), DiceError>(
            DiceError::InvalidSides(sides),
        ) && final(dice)@ == old(dice)@,
        count > 0 && sides > 0 ==> (result matches Ok((sum, individual)) && individual@.len()
            == count && (forall|i: int| 0 <= i < count ==> 1 <= #[trigger] individual@[i] <= sides)
            && sum == total(individual@) && count <= sum <= count * sides),
{
    dice.roll_individual(count, sides)
}

/// Rolls with `dice` what `notation` asks for.
pub fn roll_notation(dice: &mut Dice, notation: &str) -> (result: DiceResult<i32>)
    ensures
        answers(old(dice)@, Call::RollNotation(notation@), reply_of(result), final(dice)@),
        result matches Err(error) ==> error@ == ErrorView::InvalidNotation(notation@)
            && final(dice)@ == old(dice)@,
        result matches Ok(value) ==> (parse_spec(notation@) matches Some(spec) && spec.least()
            <= value <= spec.most()),
{
    dice.roll_notation(notation)
}

} // verus!
