//! Runs of operations on a checkpointed stream.
//!
//! A run is a sequence of states of the stream, each left by an operation on the one before it.
//! The operations may come in any order: reads which succeed or fail, checkpoints within
//! checkpoints, and going back in between.

use vstd::prelude::*;

use crate::stream::model;
use crate::stream::model::{Mark, StreamModel};
use crate::stream::{Positioned, StreamErrorFor, StreamOnce};

verus! {

/// An operation on a checkpointed stream, with what it gave.
pub enum Step<Input: StreamOnce> {
    /// A read.
    Read(Result<Input::Token, StreamErrorFor<Input>>),
    /// A checkpoint begun with a budget, by itself or with a guard.
    Begin(nat),
    /// A commit of the innermost checkpoint, by itself or through its guard.
    Commit,
    /// A reset to the innermost checkpoint, by itself or through its guard.
    Reset(Result<(), Input::Error>),
    /// The drop of a guard which was neither committed nor reset.
    Abandon,
    /// The read head moved to an offset at which the stream retains tokens.
    Backtrack(nat),
    /// A change to the wrapped stream alone, made through a reference to it.
    Adjust,
    /// Anything which leaves the stream as it was, such as asking for the position or being
    /// refused to go back.
    Look,
}

impl<Input: StreamOnce + Positioned> Step<Input> {
    /// Whether the step gives up the innermost checkpoint.
    pub open spec fn ends(self) -> bool {
        self is Commit || self is Reset || self is Abandon
    }

    /// Whether the step on `before` may leave `after`.
    pub open spec fn takes(self, before: StreamModel<Input>, after: StreamModel<Input>) -> bool {
        match self {
            Step::Read(result) => before.unconses(after, result),
            Step::Begin(budget) => after == before.begun(budget),
            Step::Commit => after == before.committed(),
            Step::Reset(result) => before.rewinds(after, result),
            Step::Abandon => before.abandons(after),
            Step::Backtrack(offset) => before.start() <= offset <= before.pulled && after
                == StreamModel { offset, ..before },
            Step::Adjust => after == StreamModel { source: after.source, ..before },
            Step::Look => after == before,
        }
    }
}

/// Whether `steps`, one after the other, may lead through `states`.
pub open spec fn is_run<Input: StreamOnce + Positioned>(
    states: Seq<StreamModel<Input>>,
    steps: Seq<Step<Input>>,
) -> bool {
    &&& states.len() == steps.len() + 1
    &&& forall|k: int| 0 <= k < states.len() ==> (#[trigger] states[k]).inv()
    &&& forall|k: int|
        0 <= k < steps.len() ==> (#[trigger] steps[k]).takes(states[k], states[k + 1])
}

/// Whether operations on `before` may lead to `after`.
pub open spec fn reaches<Input: StreamOnce + Positioned>(
    before: StreamModel<Input>,
    after: StreamModel<Input>,
) -> bool {
    exists|states: Seq<StreamModel<Input>>, steps: Seq<Step<Input>>| #[trigger]
        is_run(states, steps) && states[0] == before && states.last() == after
}

/// Whether operations on `before` which end every checkpoint they begin, and no other, may lead to
/// `after`.
pub open spec fn balances<Input: StreamOnce + Positioned>(
    before: StreamModel<Input>,
    after: StreamModel<Input>,
) -> bool {
    exists|states: Seq<StreamModel<Input>>, steps: Seq<Step<Input>>|
        {
            &&& #[trigger] is_run(states, steps)
            &&& is_balanced(steps)
            &&& states[0] == before
            &&& states.last() == after
        }
}

/// How many of `steps` begin a checkpoint.
pub open spec fn begun<Input: StreamOnce + Positioned>(steps: Seq<Step<Input>>) -> nat
    decreases steps.len(),
{
    if steps.len() == 0 {
        0
    } else {
        begun(steps.drop_last()) + if steps.last() is Begin {
            1nat
        } else {
            0nat
        }
    }
}

/// How many of `steps` end a checkpoint.
pub open spec fn ended<Input: StreamOnce + Positioned>(steps: Seq<Step<Input>>) -> nat
    decreases steps.len(),
{
    if steps.len() == 0 {
        0
    } else {
        ended(steps.drop_last()) + if steps.last().ends() {
            1nat
        } else {
            0nat
        }
    }
}

/// How many of `steps` are reads which gave a token.
pub open spec fn tokens_read<Input: StreamOnce + Positioned>(steps: Seq<Step<Input>>) -> nat
    decreases steps.len(),
{
    if steps.len() == 0 {
        0
    } else {
        tokens_read(steps.drop_last()) + if steps.last() matches Step::Read(Ok(_)) {
            1nat
        } else {
            0nat
        }
    }
}

/// The furthest offset to which a read among `steps` led on the way through `states`; `from`
/// where none led further.
pub open spec fn furthest_read<Input: StreamOnce + Positioned>(
    states: Seq<StreamModel<Input>>,
    steps: Seq<Step<Input>>,
    from: nat,
) -> nat
    decreases steps.len(),
{
    if steps.len() == 0 {
        from
    } else {
        let rest = furthest_read(states, steps.drop_last(), from);
        let before = states[steps.len() - 1];
        if steps.last() matches Step::Read(Ok(_)) && rest < before.offset + 1 {
            before.offset + 1
        } else {
            rest
        }
    }
}

/// Whether nothing but reads moves the read head forward on the way through `states`.
pub open spec fn only_reads_advance<Input: StreamOnce + Positioned>(
    states: Seq<StreamModel<Input>>,
    steps: Seq<Step<Input>>,
) -> bool {
    forall|k: int|
        0 <= k < steps.len() && !((#[trigger] steps[k]) matches Step::Read(Ok(_)))
            ==> states[k + 1].offset <= states[k].offset
}

/// Whether `steps` end only checkpoints which were begun among them.
pub open spec fn is_nested<Input: StreamOnce + Positioned>(steps: Seq<Step<Input>>) -> bool {
    forall|k: int|
        0 <= k <= steps.len() ==> ended(#[trigger] steps.take(k)) <= begun(steps.take(k))
}

/// Whether `steps` are nested and end every checkpoint which was begun among them.
pub open spec fn is_balanced<Input: StreamOnce + Positioned>(steps: Seq<Step<Input>>) -> bool {
    is_nested(steps) && begun(steps) == ended(steps)
}

/// Whether `after` retains what `before` did, where it does not give it up: no token which was
/// given up comes back, and what is retained at an offset, token and position, does not change.
pub open spec fn keeps_tokens<Input: StreamOnce + Positioned>(
    before: StreamModel<Input>,
    after: StreamModel<Input>,
) -> bool {
    &&& before.start() <= after.start()
    &&& before.pulled <= after.pulled
    &&& forall|offset: int|
        after.start() <= offset < before.pulled ==> #[trigger] after.held(offset) == before.held(
            offset,
        )
}

/// Whether `again` can be what a second read gives where the first gave `token`: both are tied
/// by a copy which the stream held. Where cloning gives an equal value, they are equal.
pub open spec fn replays<T: Clone>(token: T, again: T) -> bool {
    exists|held: T|
        is_held_as(token, held) && #[trigger] vstd::pervasive::strictly_cloned(held, again)
}

/// Whether `held` can be what the stream holds of a token which a read gave: one is a clone of
/// the other, depending on whether the token was pulled by that read.
pub open spec fn is_held_as<T: Clone>(token: T, held: T) -> bool {
    vstd::pervasive::strictly_cloned(token, held) || vstd::pervasive::strictly_cloned(held, token)
}

/// Whether `position` is one at which `s` is, or a clone of such a position.
pub open spec fn is_known_position<Input: StreamOnce + Positioned>(
    s: StreamModel<Input>,
    position: Input::Position,
) -> bool {
    ||| s.is_at(position)
    ||| exists|known: Input::Position|
        s.is_at(known) && #[trigger] vstd::pervasive::strictly_cloned(known, position)
}

/// A read which gives a token moves the read head by one token, keeps all that was retained, and
/// is noted in all checkpoints. It pulls a token only where no retained one is left, and retains
/// it.
pub proof fn lemma_read<Input: StreamOnce + Positioned>(
    before: StreamModel<Input>,
    after: StreamModel<Input>,
    token: Input::Token,
)
    requires
        0 <= before.start() <= before.offset <= before.pulled,
        before.unconses(after, Ok::<Input::Token, StreamErrorFor<Input>>(token)),
    ensures
        before.deferred is None,
        after.deferred is None,
        after.marks == model::read_to(before.marks, before.offset + 1),
        after.offset == before.offset + 1,
        after.start() == before.start(),
        after.pulled == if before.pulled < before.offset + 1 {
            before.offset + 1
        } else {
            before.pulled
        },
        keeps_tokens(before, after),
        is_held_as(token, after.held(before.offset as int).0),
        before.offset < before.pulled || before.source.is_at(after.held(before.offset as int).1),
{
    if before.offset >= before.pulled {
        let (copy, position) = choose|copy: Input::Token, position: Input::Position| #[trigger]
            before.pulls(after, token, copy, position);
        assert(after.held(before.offset as int) == (copy, position));
    }
}

/// Giving up what cannot be observed keeps the tokens which stay.
proof fn lemma_evicted_keeps_tokens<Input: StreamOnce + Positioned>(s: StreamModel<Input>)
    requires
        s.inv(),
    ensures
        keeps_tokens(s, s.evicted()),
{
    model::lemma_evicted_inv(s);
}

/// Every step keeps the tokens which it does not give up. Only a read which gives a token pulls
/// one, and is noted in the checkpoints. Only beginning and ending change which checkpoints there
/// are, by one.
pub proof fn lemma_step<Input: StreamOnce + Positioned>(
    before: StreamModel<Input>,
    step: Step<Input>,
    after: StreamModel<Input>,
)
    requires
        before.inv(),
        step.takes(before, after),
    ensures
        keeps_tokens(before, after),
        after.pulled <= before.pulled + if step matches Step::Read(Ok(_)) {
            1nat
        } else {
            0nat
        },
        match step {
            Step::Begin(budget) => after.marks == before.begun(budget).marks,
            Step::Read(Ok(_)) => after.marks == model::read_to(before.marks, before.offset + 1),
            _ => after.marks == if step.ends() && before.marks.len() > 0 {
                before.marks.drop_last()
            } else {
                before.marks
            },
        },
{
    match step {
        Step::Read(Ok(token)) => {
            lemma_read(before, after, token);
        },
        _ => {
            if step.ends() && before.marks.len() > 0 {
                let popped = StreamModel { marks: before.marks.drop_last(), ..before };
                let back = StreamModel { offset: before.marks.last().offset, ..popped };
                model::lemma_popped_inv(before, before.offset);
                model::lemma_popped_inv(before, before.marks.last().offset);
                lemma_evicted_keeps_tokens(popped);
                lemma_evicted_keeps_tokens(back);
                assert forall|offset: int|
                    after.start() <= offset < before.pulled implies #[trigger] after.held(offset)
                    == before.held(offset) by {
                    if after.retained == popped.evicted().retained {
                        assert(popped.evicted().held(offset) == popped.held(offset));
                    } else {
                        assert(back.evicted().held(offset) == back.held(offset));
                    }
                }
            }
        },
    }
}

/// A step of a run, with what holds of it.
pub proof fn lemma_run_step<Input: StreamOnce + Positioned>(
    states: Seq<StreamModel<Input>>,
    steps: Seq<Step<Input>>,
    k: int,
)
    requires
        is_run(states, steps),
        0 <= k < steps.len(),
    ensures
        states[k].inv(),
        states[k + 1].inv(),
        steps[k].takes(states[k], states[k + 1]),
        keeps_tokens(states[k], states[k + 1]),
{
    lemma_step(states[k], steps[k], states[k + 1]);
}

/// What is retained at an offset does not change over a run.
pub proof fn lemma_run_keeps_tokens<Input: StreamOnce + Positioned>(
    states: Seq<StreamModel<Input>>,
    steps: Seq<Step<Input>>,
    i: int,
    k: int,
)
    requires
        is_run(states, steps),
        0 <= i <= k < states.len(),
    ensures
        keeps_tokens(states[i], states[k]),
    decreases k - i,
{
    if i < k {
        lemma_run_keeps_tokens(states, steps, i, k - 1);
        lemma_run_step(states, steps, k - 1);
        assert forall|offset: int|
            states[k].start() <= offset < states[i].pulled implies #[trigger] states[k].held(offset)
            == states[i].held(offset) by {
            assert(states[k].held(offset) == states[k - 1].held(offset));
        }
    }
}

/// A nested run leaves the checkpoints which were active at its start active, with how far it
/// read noted in each, and has as many more active as it began and did not end.
pub proof fn lemma_run_marks<Input: StreamOnce + Positioned>(
    states: Seq<StreamModel<Input>>,
    steps: Seq<Step<Input>>,
    k: int,
)
    requires
        is_run(states, steps),
        is_nested(steps),
        0 <= k <= steps.len(),
    ensures
        states[k].marks.len() == states[0].marks.len() + begun(steps.take(k)) - ended(
            steps.take(k),
        ),
        states[k].marks.len() >= states[0].marks.len(),
        forall|i: int|
            0 <= i < states[0].marks.len() ==> (#[trigger] states[k].marks[i]) == (Mark {
                reached: furthest_read(states, steps.take(k), states[0].marks[i].reached),
                ..states[0].marks[i]
            }),
        model::continues(
            states[0].marks,
            states[k].marks.take(states[0].marks.len() as int),
        ),
    decreases k,
{
    let active = states[0].marks.len() as int;
    assert(ended(steps.take(k)) <= begun(steps.take(k)));
    if k == 0 {
        assert(steps.take(0).len() == 0);
    } else {
        lemma_run_marks(states, steps, k - 1);
        lemma_run_step(states, steps, k - 1);
        lemma_step(states[k - 1], steps[k - 1], states[k]);
        assert(steps.take(k).drop_last() =~= steps.take(k - 1));
        assert(steps.take(k).last() == steps[k - 1]);
        assert forall|i: int| 0 <= i < active implies (#[trigger] states[k].marks[i]) == (Mark {
            reached: furthest_read(states, steps.take(k), states[0].marks[i].reached),
            ..states[0].marks[i]
        }) by {
            let rest = furthest_read(states, steps.take(k - 1), states[0].marks[i].reached);
            assert(states[k - 1].marks[i].reached == rest);
        }
    }
    assert forall|i: int| 0 <= i < active implies states[0].marks[i].reached <= furthest_read(
        states,
        steps.take(k),
        #[trigger] states[0].marks[i].reached,
    ) by {
        lemma_furthest_read(states, steps.take(k), states[0].marks[i].reached);
    }
    assert forall|i: int| 0 <= i < active implies states[k].marks.take(active)[i]
        == #[trigger] states[k].marks[i] by {}
}

/// How far a run read is no less than where one starts to look.
proof fn lemma_furthest_read<Input: StreamOnce + Positioned>(
    states: Seq<StreamModel<Input>>,
    steps: Seq<Step<Input>>,
    from: nat,
)
    ensures
        from <= furthest_read(states, steps, from),
    decreases steps.len(),
{
    if steps.len() > 0 {
        lemma_furthest_read(states, steps.drop_last(), from);
    }
}

/// Where only reads advance, a run comes no further than it reads tokens. Without that, it pulls
/// no token past where it reads.
pub proof fn lemma_run_advances<Input: StreamOnce + Positioned>(
    states: Seq<StreamModel<Input>>,
    steps: Seq<Step<Input>>,
    k: int,
)
    requires
        is_run(states, steps),
        0 <= k <= steps.len(),
    ensures
        states[0].pulled <= states[k].pulled,
        states[k].pulled <= states[0].pulled || states[k].pulled <= furthest_read(
            states,
            steps.take(k),
            states[0].offset,
        ),
        only_reads_advance(states, steps) ==> {
            &&& states[k].offset <= states[0].offset + tokens_read(steps.take(k))
            &&& furthest_read(states, steps.take(k), states[0].offset) <= states[0].offset
                + tokens_read(steps.take(k))
        },
    decreases k,
{
    if k == 0 {
        assert(steps.take(0).len() == 0);
    } else {
        lemma_run_advances(states, steps, k - 1);
        lemma_run_step(states, steps, k - 1);
        assert(steps.take(k).drop_last() =~= steps.take(k - 1));
        assert(steps.take(k).last() == steps[k - 1]);
        lemma_step(states[k - 1], steps[k - 1], states[k]);
        if let Step::Read(Ok(token)) = steps[k - 1] {
            lemma_read(states[k - 1], states[k], token);
        } else {
            assert(only_reads_advance(states, steps) ==> states[k - 1 + 1].offset <= states[k
                - 1].offset);
        }
    }
}

/// What one step leads to is reached.
pub proof fn lemma_step_reaches<Input: StreamOnce + Positioned>(
    before: StreamModel<Input>,
    step: Step<Input>,
    after: StreamModel<Input>,
)
    requires
        before.inv(),
        after.inv(),
        step.takes(before, after),
    ensures
        reaches(before, after),
{
    let states = seq![before, after];
    assert(is_run(states, seq![step]));
    assert(states[0] == before && states.last() == after);
}

/// One run after another is a run.
pub proof fn lemma_runs_join<Input: StreamOnce + Positioned>(
    first: Seq<StreamModel<Input>>,
    first_steps: Seq<Step<Input>>,
    second: Seq<StreamModel<Input>>,
    second_steps: Seq<Step<Input>>,
)
    requires
        is_run(first, first_steps),
        is_run(second, second_steps),
        first.last() == second[0],
    ensures
        is_run(first.drop_last() + second, first_steps + second_steps),
        (first.drop_last() + second)[0] == first[0],
        (first.drop_last() + second).last() == second.last(),
{
    let states = first.drop_last() + second;
    let steps = first_steps + second_steps;
    let n = first_steps.len() as int;
    assert forall|k: int| 0 <= k < states.len() implies (#[trigger] states[k]).inv() by {
        if k < n {
            assert(states[k] == first[k]);
        } else {
            assert(states[k] == second[k - n]);
        }
    }
    assert forall|k: int| 0 <= k < steps.len() implies (#[trigger] steps[k]).takes(
        states[k],
        states[k + 1],
    ) by {
        if k < n {
            assert(steps[k] == first_steps[k]);
            assert(states[k + 1] == first[k + 1]);
        } else {
            assert(steps[k] == second_steps[k - n]);
        }
    }
}

/// What is reached from what is reached is reached.
pub proof fn lemma_reaches_transitive<Input: StreamOnce + Positioned>(
    before: StreamModel<Input>,
    middle: StreamModel<Input>,
    after: StreamModel<Input>,
)
    requires
        reaches(before, middle),
        reaches(middle, after),
    ensures
        reaches(before, after),
{
    let (first, first_steps) = choose|states: Seq<StreamModel<Input>>, steps: Seq<Step<Input>>|
        #[trigger] is_run(states, steps) && states[0] == before && states.last() == middle;
    let (second, second_steps) = choose|states: Seq<StreamModel<Input>>, steps: Seq<Step<Input>>|
        #[trigger] is_run(states, steps) && states[0] == middle && states.last() == after;
    lemma_runs_join(first, first_steps, second, second_steps);
    assert(is_run(first.drop_last() + second, first_steps + second_steps));
}

/// The checkpoints begun and ended over two runs are those of both.
proof fn lemma_counts_add<Input: StreamOnce + Positioned>(
    first: Seq<Step<Input>>,
    second: Seq<Step<Input>>,
)
    ensures
        begun(first + second) == begun(first) + begun(second),
        ended(first + second) == ended(first) + ended(second),
    decreases second.len(),
{
    if second.len() == 0 {
        assert(first + second =~= first);
    } else {
        lemma_counts_add(first, second.drop_last());
        assert((first + second).drop_last() =~= first + second.drop_last());
        assert((first + second).last() == second.last());
    }
}

/// A balanced run behind a checkpoint, with the step which begins the checkpoint and the one which
/// ends it, is balanced.
pub proof fn lemma_wrapped_is_balanced<Input: StreamOnce + Positioned>(
    budget: nat,
    steps: Seq<Step<Input>>,
    end: Step<Input>,
)
    requires
        is_balanced(steps),
        end.ends(),
    ensures
        is_balanced((seq![Step::<Input>::Begin(budget)] + steps) + seq![end]),
{
    let begin = seq![Step::<Input>::Begin(budget)];
    let wrapped = (begin + steps) + seq![end];
    reveal_with_fuel(begun, 2);
    reveal_with_fuel(ended, 2);
    lemma_counts_add(begin, steps);
    lemma_counts_add(begin + steps, seq![end]);
    assert forall|k: int| 0 <= k <= wrapped.len() implies ended(#[trigger] wrapped.take(k))
        <= begun(wrapped.take(k)) by {
        if k == 0 {
            assert(wrapped.take(k).len() == 0);
        } else if k == wrapped.len() {
            assert(wrapped.take(k) =~= wrapped);
        } else {
            assert(wrapped.take(k) =~= begin + steps.take(k - 1));
            lemma_counts_add(begin, steps.take(k - 1));
            assert(ended(steps.take(k - 1)) <= begun(steps.take(k - 1)));
        }
    }
}

/// A checkpoint which is begun, with operations behind it which end every checkpoint they begin,
/// and ended after them.
pub proof fn lemma_wrapped_balances<Input: StreamOnce + Positioned>(
    before: StreamModel<Input>,
    budget: nat,
    left: StreamModel<Input>,
    end: Step<Input>,
    after: StreamModel<Input>,
)
    requires
        before.inv(),
        after.inv(),
        balances(before.begun(budget), left),
        end.ends(),
        end.takes(left, after),
    ensures
        balances(before, after),
{
    let (states, steps) = choose|states: Seq<StreamModel<Input>>, steps: Seq<Step<Input>>|
        {
            &&& #[trigger] is_run(states, steps)
            &&& is_balanced(steps)
            &&& states[0] == before.begun(budget)
            &&& states.last() == left
        };
    let first = seq![before, before.begun(budget)];
    let begin = seq![Step::<Input>::Begin(budget)];
    let last = seq![left, after];
    assert(states[0].inv() && states.last().inv());
    assert(is_run(first, begin));
    assert(is_run(last, seq![end]));
    lemma_runs_join(first, begin, states, steps);
    lemma_runs_join(first.drop_last() + states, begin + steps, last, seq![end]);
    lemma_wrapped_is_balanced(budget, steps, end);
    let all = (first.drop_last() + states).drop_last() + last;
    assert(is_run(all, (begin + steps) + seq![end]));
    assert(all[0] == before && all.last() == after);
}

/// What is reached keeps the tokens which are not given up on the way.
pub proof fn lemma_reaches_keeps_tokens<Input: StreamOnce + Positioned>(
    before: StreamModel<Input>,
    after: StreamModel<Input>,
)
    requires
        reaches(before, after),
    ensures
        keeps_tokens(before, after),
{
    let (states, steps) = choose|states: Seq<StreamModel<Input>>, steps: Seq<Step<Input>>|
        #[trigger] is_run(states, steps) && states[0] == before && states.last() == after;
    lemma_run_keeps_tokens(states, steps, 0, states.len() - 1);
}

} // verus!
