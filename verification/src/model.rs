//! What the roller does, as mathematics: the sides that dice show from a
//! given state of the random source, what each call answers, and the laws
//! that follow.
//!
//! A call is turned away before anything is rolled, or it rolls its dice one
//! after the other, each from the state that the one before left. What it
//! answers is then fixed by the state in which its first die is rolled.

use crate::error::ErrorView;
use crate::notation::parse_spec;
use crate::random::{advance, lemma_pick_in_range, pick, seed_state, seeded, starts_at};
use vstd::prelude::*;

verus! {

/// The side that a die of `sides` sides shows when a source in `state` rolls
/// it.
pub open spec fn face(state: u64, sides: i32) -> i32
    recommends
        sides > 0,
{
    pick(state, 1, sides as int) as i32
}

/// The sides that `count` dice of `sides` sides show, in the order rolled,
/// when the first of them is rolled in `start`.
pub open spec fn faces(start: u64, count: nat, sides: i32) -> Seq<i32> {
    Seq::new(count, |i: int| face(advance(start, i as nat), sides))
}

/// The sum of `rolls`.
pub open spec fn total(rolls: Seq<i32>) -> int
    decreases rolls.len(),
{
    if rolls.len() == 0 {
        0
    } else {
        total(rolls.drop_last()) + rolls.last()
    }
}

/// A call on the roller, as a value.
pub enum Call {
    /// Seed the source: with the number given, or from the clock.
    Init(Option<u32>),
    /// Roll one die of so many sides.
    Roll(i32),
    /// Roll a count of dice of so many sides, for their sum.
    RollMultiple(i32, i32),
    /// Roll a count of dice of so many sides, for their sum and each of them.
    RollIndividual(i32, i32),
    /// Roll what the notation asks for.
    RollNotation(Seq<char>),
}

/// What a call answers, as a value.
pub enum Reply {
    /// The source was seeded.
    Seeded,
    /// The side of one die, or a sum.
    Value(int),
    /// A sum and the dice that make it up, in the order rolled.
    Values(int, Seq<i32>),
    /// The call was turned away.
    Failed(ErrorView),
}

/// The error with which `call` is turned away, if it is. The count is looked
/// at before the sides. Notation is turned away where it does not parse, and
/// where the most it can come to exceeds `i32::MAX`.
pub open spec fn rejection(call: Call) -> Option<ErrorView> {
    match call {
        Call::Init(_) => None,
        Call::Roll(sides) => if sides <= 0 {
            Some(ErrorView::InvalidSides(sides))
        } else {
            None
        },
        Call::RollMultiple(count, sides) | Call::RollIndividual(count, sides) => if count <= 0 {
            Some(ErrorView::InvalidCount(count))
        } else if sides <= 0 {
            Some(ErrorView::InvalidSides(sides))
        } else {
            None
        },
        Call::RollNotation(text) => match parse_spec(text) {
            Some(spec) => if spec.most() <= i32::MAX {
                None
            } else {
                Some(ErrorView::InvalidNotation(text))
            },
            None => Some(ErrorView::InvalidNotation(text)),
        },
    }
}

/// How many dice `call` rolls where it is not turned away.
pub open spec fn dice_rolled(call: Call) -> nat {
    match call {
        Call::Init(_) => 0,
        Call::Roll(_) => 1,
        Call::RollMultiple(count, _) | Call::RollIndividual(count, _) => count as nat,
        Call::RollNotation(text) => parse_spec(text)->0.count as nat,
    }
}

/// What `call` answers where it is not turned away and its first die is
/// rolled in `start`.
pub open spec fn answer(start: u64, call: Call) -> Reply {
    match call {
        Call::Init(_) => Reply::Seeded,
        Call::Roll(sides) => Reply::Value(face(start, sides) as int),
        Call::RollMultiple(count, sides) => Reply::Value(total(faces(start, count as nat, sides))),
        Call::RollIndividual(count, sides) => Reply::Values(
            total(faces(start, count as nat, sides)),
            faces(start, count as nat, sides),
        ),
        Call::RollNotation(text) => {
            let spec = parse_spec(text)->0;
            Reply::Value(total(faces(start, spec.count as nat, spec.sides)) + spec.modifier)
        },
    }
}

/// Whether `call`, made on a roller whose source was in `before`, may answer
/// `reply` and leave the source in `after`.
///
/// Seeding answers `Seeded` and leaves what `seeded` says. A call that is
/// turned away leaves the source as it was. Any other call rolls its dice
/// from the state the source holds, or from the state of some seed where the
/// source was unseeded, and leaves the source one step further for each die.
pub open spec fn answers(before: Option<u64>, call: Call, reply: Reply, after: Option<u64>) -> bool {
    match call {
        Call::Init(seed) => reply == Reply::Seeded && seeded(seed, after),
        _ => match rejection(call) {
            Some(error) => reply == Reply::Failed(error) && after == before,
            None => exists|start: u64|
                #[trigger] starts_at(before, start) && reply == answer(start, call) && after
                    == Some(advance(start, dice_rolled(call))),
        },
    }
}

/// Whether the calls `calls`, made in this order on a roller whose source
/// was in `before`, may answer `replies` and leave the source in `after`.
pub open spec fn runs(
    before: Option<u64>,
    calls: Seq<Call>,
    replies: Seq<Reply>,
    after: Option<u64>,
) -> bool
    decreases calls.len(),
{
    if calls.len() == 0 {
        replies.len() == 0 && after == before
    } else {
        replies.len() == calls.len() && exists|between: Option<u64>|
            #[trigger] answers(before, calls[0], replies[0], between) && runs(
                between,
                calls.drop_first(),
                replies.drop_first(),
                after,
            )
    }
}

/// Whether none of `calls` seeds the source from the clock.
pub open spec fn clock_free(calls: Seq<Call>) -> bool {
    forall|i: int| 0 <= i < calls.len() ==> #[trigger] calls[i] != Call::Init(None)
}

/// A die shows one of its sides.
pub proof fn lemma_face_in_range(state: u64, sides: i32)
    requires
        sides > 0,
    ensures
        1 <= face(state, sides) <= sides,
{
    lemma_pick_in_range(state, 1, sides as int);
}

/// One die more is one face more, rolled in the state that the dice before
/// it have left.
pub proof fn lemma_faces_push(start: u64, count: nat, sides: i32)
    ensures
        faces(start, count + 1, sides) == faces(start, count, sides).push(
            face(advance(start, count), sides),
        ),
{
    assert(faces(start, count + 1, sides) =~= faces(start, count, sides).push(
        face(advance(start, count), sides),
    ));
}

/// One roll more adds to the sum what it shows.
pub proof fn lemma_total_push(rolls: Seq<i32>, value: i32)
    ensures
        total(rolls.push(value)) == total(rolls) + value,
{
    assert(rolls.push(value).drop_last() =~= rolls);
}

/// Dice of `sides` sides show one of their sides each, however many are
/// rolled, and their sum lies between their number and their number times
/// `sides`.
pub proof fn lemma_faces_in_range(start: u64, count: nat, sides: i32)
    requires
        sides > 0,
    ensures
        faces(start, count, sides).len() == count,
        forall|i: int| 0 <= i < count ==> 1 <= #[trigger] faces(start, count, sides)[i] <= sides,
        count <= total(faces(start, count, sides)) <= count * sides,
    decreases count,
{
    assert forall|i: int| 0 <= i < count implies 1 <= #[trigger] faces(start, count, sides)[i]
        <= sides by {
        lemma_face_in_range(advance(start, i as nat), sides);
    }
    if count > 0 {
        let fewer = (count - 1) as nat;
        lemma_faces_in_range(start, fewer, sides);
        lemma_faces_push(start, fewer, sides);
        lemma_total_push(faces(start, fewer, sides), face(advance(start, fewer), sides));
        lemma_face_in_range(advance(start, fewer), sides);
        assert(count * sides == fewer * sides + sides) by (nonlinear_arith)
            requires
                count == fewer + 1,
        ;
    }
}

/// What a seeded roller answers to a call is fixed by its state and the
/// call, and so is the state it is left in, unless the call seeds it from the
/// clock. A roller that was seeded stays seeded.
pub proof fn lemma_answer_determined(
    state: u64,
    call: Call,
    reply: Reply,
    after: Option<u64>,
    other_reply: Reply,
    other_after: Option<u64>,
)
    requires
        call != Call::Init(None),
        answers(Some(state), call, reply, after),
        answers(Some(state), call, other_reply, other_after),
    ensures
        reply == other_reply,
        after == other_after,
        after is Some,
{
}

/// Seeding with a number leaves the state of that number, whatever state
/// the source was in.
pub proof fn lemma_init_forgets(
    before: Option<u64>,
    other_before: Option<u64>,
    seed: u32,
    reply: Reply,
    after: Option<u64>,
    other_reply: Reply,
    other_after: Option<u64>,
)
    requires
        answers(before, Call::Init(Some(seed)), reply, after),
        answers(other_before, Call::Init(Some(seed)), other_reply, other_after),
    ensures
        reply == other_reply,
        after == other_after,
        after == Some(seed_state(seed)),
{
}

/// Two runs of the same calls from the same state of a seeded roller answer
/// alike and end in the same state, where none of the calls seeds from the
/// clock.
pub proof fn lemma_runs_determined(
    state: u64,
    calls: Seq<Call>,
    replies: Seq<Reply>,
    after: Option<u64>,
    other_replies: Seq<Reply>,
    other_after: Option<u64>,
)
    requires
        clock_free(calls),
        runs(Some(state), calls, replies, after),
        runs(Some(state), calls, other_replies, other_after),
    ensures
        replies == other_replies,
        after == other_after,
        after is Some,
    decreases calls.len(),
{
    if calls.len() == 0 {
        assert(replies =~= other_replies);
    } else {
        let between = choose|between: Option<u64>|
            #[trigger] answers(Some(state), calls[0], replies[0], between) && runs(
                between,
                calls.drop_first(),
                replies.drop_first(),
                after,
            );
        let other_between = choose|between: Option<u64>|
            #[trigger] answers(Some(state), calls[0], other_replies[0], between) && runs(
                between,
                calls.drop_first(),
                other_replies.drop_first(),
                other_after,
            );
        lemma_answer_determined(
            state,
            calls[0],
            replies[0],
            between,
            other_replies[0],
            other_between,
        );
        assert forall|i: int| 0 <= i < calls.drop_first().len() implies #[trigger] calls.drop_first()[i]
            != Call::Init(None) by {
            assert(calls.drop_first()[i] == calls[i + 1]);
        }
        lemma_runs_determined(
            between->0,
            calls.drop_first(),
            replies.drop_first(),
            after,
            other_replies.drop_first(),
            other_after,
        );
        assert(replies =~= other_replies) by {
            assert forall|i: int| 0 <= i < replies.len() implies replies[i] == other_replies[i] by {
                if i > 0 {
                    assert(replies[i] == replies.drop_first()[i - 1]);
                    assert(other_replies[i] == other_replies.drop_first()[i - 1]);
                }
            }
        }
    }
}

/// Determinism under a fixed seed. Two runs that seed with the same number
/// and then make the same calls, none of which seeds from the clock, answer
/// alike and end in the same state, whatever state each run began in.
pub proof fn lemma_same_seed_same_replies(
    seed: u32,
    calls: Seq<Call>,
    before: Option<u64>,
    replies: Seq<Reply>,
    after: Option<u64>,
    other_before: Option<u64>,
    other_replies: Seq<Reply>,
    other_after: Option<u64>,
)
    requires
        clock_free(calls),
        runs(before, seq![Call::Init(Some(seed))] + calls, replies, after),
        runs(other_before, seq![Call::Init(Some(seed))] + calls, other_replies, other_after),
    ensures
        replies == other_replies,
        after == other_after,
{
    let session = seq![Call::Init(Some(seed))] + calls;
    assert(session[0] == Call::Init(Some(seed)));
    assert(session.drop_first() =~= calls);
    let between = choose|between: Option<u64>|
        #[trigger] answers(before, session[0], replies[0], between) && runs(
            between,
            session.drop_first(),
            replies.drop_first(),
            after,
        );
    let other_between = choose|between: Option<u64>|
        #[trigger] answers(other_before, session[0], other_replies[0], between) && runs(
            between,
            session.drop_first(),
            other_replies.drop_first(),
            other_after,
        );
    lemma_init_forgets(
        before,
        other_before,
        seed,
        replies[0],
        between,
        other_replies[0],
        other_between,
    );
    lemma_runs_determined(
        seed_state(seed),
        calls,
        replies.drop_first(),
        after,
        other_replies.drop_first(),
        other_after,
    );
    assert(replies =~= other_replies) by {
        assert forall|i: int| 0 <= i < replies.len() implies replies[i] == other_replies[i] by {
            if i > 0 {
                assert(replies[i] == replies.drop_first()[i - 1]);
                assert(other_replies[i] == other_replies.drop_first()[i - 1]);
            }
        }
    }
}

/// Seeding anew leaves nothing behind. A roller that is seeded with a
/// number, makes some calls, is seeded with the same number again and makes
/// the same calls again answers the second time as it did the first, where
/// none of the calls seeds from the clock.
pub proof fn lemma_reseeding_repeats(
    seed: u32,
    calls: Seq<Call>,
    before: Option<u64>,
    first: Seq<Reply>,
    between: Option<u64>,
    second: Seq<Reply>,
    after: Option<u64>,
)
    requires
        clock_free(calls),
        runs(before, seq![Call::Init(Some(seed))] + calls, first, between),
        runs(between, seq![Call::Init(Some(seed))] + calls, second, after),
    ensures
        first == second,
        between == after,
{
    lemma_same_seed_same_replies(seed, calls, before, first, between, between, second, after);
}

} // verus!
