//! What holds of checkpointed streams over several operations.

use vstd::prelude::*;

use crate::stream::history;
use crate::stream::history::Step;
use crate::stream::model;
use crate::stream::model::{Mark, StreamModel};
use crate::stream::{Positioned, StreamErrorFor, StreamOnce};

verus! {

/// Whether reading `tokens`, one after the other, may lead through `states`.
pub open spec fn reads<Input: StreamOnce + Positioned>(
    states: Seq<StreamModel<Input>>,
    tokens: Seq<Input::Token>,
) -> bool {
    &&& states.len() == tokens.len() + 1
    &&& forall|i: int|
        0 <= i < tokens.len() ==> (#[trigger] states[i]).unconses(
            states[i + 1],
            Ok::<Input::Token, StreamErrorFor<Input>>(tokens[i]),
        )
}

/// A run of successful reads from `states[0]`: the read head moves token by token, which is noted
/// in the checkpoints, and the stream keeps what it retains.
proof fn lemma_reads<Input: StreamOnce + Positioned>(
    states: Seq<StreamModel<Input>>,
    tokens: Seq<Input::Token>,
    k: int,
)
    requires
        0 <= states[0].start() <= states[0].offset <= states[0].pulled,
        reads(states, tokens),
        0 <= k <= tokens.len(),
    ensures
        states[k].marks == if k == 0 {
            states[0].marks
        } else {
            model::read_to(states[0].marks, (states[0].offset + k) as nat)
        },
        states[k].offset == states[0].offset + k,
        states[k].start() == states[0].start(),
        states[k].pulled == if states[0].pulled < states[0].offset + k {
            (states[0].offset + k) as nat
        } else {
            states[0].pulled
        },
        k > 0 ==> states[0].deferred is None && states[k].deferred is None,
        history::keeps_tokens(states[0], states[k]),
    decreases k,
{
    if k > 0 {
        lemma_reads(states, tokens, k - 1);
        assert(states[k - 1].unconses(
            states[k - 1 + 1],
            Ok::<Input::Token, StreamErrorFor<Input>>(tokens[k - 1]),
        ));
        history::lemma_read(states[k - 1], states[k], tokens[k - 1]);
        assert(states[k].marks =~= model::read_to(
            states[0].marks,
            (states[0].offset + k) as nat,
        ));
        assert forall|offset: int|
            states[k].start() <= offset < states[0].pulled implies #[trigger] states[k].held(offset)
            == states[0].held(offset) by {
            assert(states[k].held(offset) == states[k - 1].held(offset));
        }
    }
}

/// What a stream retains at an offset, token and position, does not change over any run of
/// operations, and what it gave up does not come back.
pub proof fn law_retained_tokens_stay<Input: StreamOnce + Positioned>(
    states: Seq<StreamModel<Input>>,
    steps: Seq<Step<Input>>,
    i: int,
    k: int,
)
    requires
        history::is_run(states, steps),
        0 <= i <= k < states.len(),
    ensures
        history::keeps_tokens(states[i], states[k]),
{
    history::lemma_run_keeps_tokens(states, steps, i, k);
}

/// Whether `after` retains at `offset` what `before` does: the same token, with its position.
pub open spec fn retains_as<Input: StreamOnce + Positioned>(
    after: StreamModel<Input>,
    before: StreamModel<Input>,
    offset: int,
) -> bool {
    after.start() <= offset < after.pulled && after.held(offset) == before.held(offset)
}

/// Whether `after` retains every token which any of `states` retained at `from` or past it, at
/// the same offset and with the same position.
pub open spec fn retains_all<Input: StreamOnce + Positioned>(
    after: StreamModel<Input>,
    states: Seq<StreamModel<Input>>,
    from: int,
) -> bool {
    forall|k: int, offset: int|
        0 <= k < states.len() && from <= offset && states[k].start() <= offset < states[k].pulled
            ==> #[trigger] retains_as(after, states[k], offset)
}

/// At the end of a run, everything is retained which was retained on the way at or past an
/// offset that is not given up.
proof fn lemma_run_retains_all<Input: StreamOnce + Positioned>(
    states: Seq<StreamModel<Input>>,
    steps: Seq<Step<Input>>,
    from: int,
)
    requires
        history::is_run(states, steps),
        states.last().start() <= from,
    ensures
        retains_all(states.last(), states, from),
{
    assert forall|k: int, offset: int|
        0 <= k < states.len() && from <= offset && states[k].start() <= offset
            < states[k].pulled implies #[trigger] retains_as(states.last(), states[k], offset) by {
        history::lemma_run_keeps_tokens(states, steps, k, states.len() - 1);
        assert(states.last().held(offset) == states[k].held(offset));
    }
}

/// A successful reset puts the stream back where its checkpoint was begun, with the checkpoints
/// active which were active then, whatever happened in between: reads which succeeded or failed,
/// inner checkpoints, and going back and forth. Every token which the stream retained since, from
/// there on, is retained.
pub proof fn law_reset_restores<Input: StreamOnce + Positioned>(
    s: StreamModel<Input>,
    budget: nat,
    states: Seq<StreamModel<Input>>,
    steps: Seq<Step<Input>>,
    after: StreamModel<Input>,
)
    requires
        states[0] == s.begun(budget),
        history::is_run(states, steps),
        model::continues(s.begun(budget).marks, states.last().marks),
        states.last().rewinds(after, Ok(())),
    ensures
        after.inv(),
        after.offset == s.offset,
        after.marks == states.last().marks.drop_last(),
        model::continues(s.marks, after.marks),
        after.pulled == states.last().pulled,
        after.source == states.last().source,
        after.deferred == states.last().deferred,
        retains_all(after, states, s.offset as int),
{
    let last = states.last();
    assert(last.inv());
    model::lemma_continued(s, budget, last.marks);
    let back = StreamModel { marks: last.marks.drop_last(), offset: s.offset, ..last };
    model::lemma_popped_inv(last, s.offset);
    model::lemma_evicted_inv(back);
    lemma_run_retains_all(states, steps, s.offset as int);
    assert forall|k: int, offset: int|
        0 <= k < states.len() && s.offset <= offset && states[k].start() <= offset
            < states[k].pulled implies #[trigger] retains_as(after, states[k], offset) by {
        assert(retains_as(last, states[k], offset));
    }
}

/// Whether the reads which lead through `again` and give `replayed` repeat what `steps` read
/// before from the same offsets, on the way through `states`.
///
/// - Each token is the one which any earlier read at its offset gave.
/// - Each position is the one which the stream had where a token was retained or read there.
/// - No read fails or touches the wrapped stream before all retained tokens are read.
pub open spec fn rereads<Input: StreamOnce + Positioned>(
    states: Seq<StreamModel<Input>>,
    steps: Seq<Step<Input>>,
    again: Seq<StreamModel<Input>>,
    replayed: Seq<Input::Token>,
) -> bool {
    &&& forall|k: int, i: int|
        #![trigger steps[k], replayed[i]]
        0 <= k < steps.len() && 0 <= i < replayed.len() && states[k].offset == again[i].offset
            ==> (steps[k] matches Step::Read(Ok(token)) ==> history::replays(token, replayed[i]))
    &&& forall|k: int, i: int, position: Input::Position|
        #![trigger states[k], again[i].is_at(position)]
        {
            &&& 0 <= k < states.len()
            &&& 0 <= i < again.len()
            &&& states[k].offset == again[i].offset
            &&& states[k].offset < states[k].pulled || k < steps.len() && (
            steps[k] matches Step::Read(Ok(_)))
            &&& again[i].is_at(position)
        } ==> history::is_known_position(states[k], position)
    &&& forall|
        i: int,
        next: StreamModel<Input>,
        result: Result<Input::Token, StreamErrorFor<Input>>,
    |
        {
            &&& again[0].deferred is None
            &&& 0 <= i < again.len()
            &&& again[i].offset < again[0].pulled
            &&& #[trigger] again[i].unconses(next, result)
        } ==> result is Ok && next.source == again[i].source
}

/// Where a stream retains what was retained before, reading goes as it went before.
pub proof fn law_retained_tokens_replay<Input: StreamOnce + Positioned>(
    states: Seq<StreamModel<Input>>,
    steps: Seq<Step<Input>>,
    again: Seq<StreamModel<Input>>,
    replayed: Seq<Input::Token>,
)
    requires
        history::is_run(states, steps),
        again[0].inv(),
        retains_all(again[0], states, again[0].offset as int),
        reads(again, replayed),
    ensures
        rereads(states, steps, again, replayed),
{
    assert forall|i: int| 0 <= i < again.len() implies {
        &&& (#[trigger] again[i]).offset == again[0].offset + i
        &&& again[0].deferred is None ==> again[i].deferred is None
        &&& again[i].offset < again[0].pulled ==> again[i].offset < again[i].pulled
            && again[i].current() == again[0].held(again[i].offset as int)
    } by {
        lemma_reads(again, replayed, i);
        assert(again[i].held(again[i].offset as int) == again[i].current());
    }
    assert forall|k: int, i: int|
        #![trigger steps[k], replayed[i]]
        0 <= k < steps.len() && 0 <= i < replayed.len() && states[k].offset
            == again[i].offset implies (steps[k] matches Step::Read(Ok(token))
        ==> history::replays(token, replayed[i])) by {
        if let Step::Read(Ok(token)) = steps[k] {
            history::lemma_run_step(states, steps, k);
            history::lemma_read(states[k], states[k + 1], token);
            let held = states[k + 1].held(states[k].offset as int);
            assert(retains_as(again[0], states[k + 1], states[k].offset as int));
            assert(again[i].unconses(
                again[i + 1],
                Ok::<Input::Token, StreamErrorFor<Input>>(replayed[i]),
            ));
            assert(vstd::pervasive::strictly_cloned(held.0, replayed[i]));
        }
    }
    assert forall|k: int, i: int, position: Input::Position|
        #![trigger states[k], again[i].is_at(position)]
        {
            &&& 0 <= k < states.len()
            &&& 0 <= i < again.len()
            &&& states[k].offset == again[i].offset
            &&& states[k].offset < states[k].pulled || k < steps.len() && (
            steps[k] matches Step::Read(Ok(_)))
            &&& again[i].is_at(position)
        } implies history::is_known_position(states[k], position) by {
        assert(states[k].inv());
        if states[k].offset < states[k].pulled {
            assert(retains_as(again[0], states[k], states[k].offset as int));
        } else {
            history::lemma_run_step(states, steps, k);
            let token = steps[k]->Read_0->Ok_0;
            history::lemma_read(states[k], states[k + 1], token);
            let held = states[k + 1].held(states[k].offset as int);
            assert(retains_as(again[0], states[k + 1], states[k].offset as int));
            assert(states[k].is_at(held.1));
            assert(vstd::pervasive::strictly_cloned(held.1, position));
        }
    }
}

/// After a successful reset, the tokens which were read since the checkpoint was begun are read
/// again from there, at the positions which they had, whatever else happened in between.
pub proof fn law_reset_replays<Input: StreamOnce + Positioned>(
    s: StreamModel<Input>,
    budget: nat,
    states: Seq<StreamModel<Input>>,
    steps: Seq<Step<Input>>,
    again: Seq<StreamModel<Input>>,
    replayed: Seq<Input::Token>,
)
    requires
        states[0] == s.begun(budget),
        history::is_run(states, steps),
        model::continues(s.begun(budget).marks, states.last().marks),
        states.last().rewinds(again[0], Ok(())),
        reads(again, replayed),
    ensures
        again[0].offset == s.offset,
        model::continues(s.marks, again[0].marks),
        rereads(states, steps, again, replayed),
{
    law_reset_restores(s, budget, states, steps, again[0]);
    law_retained_tokens_replay(states, steps, again, replayed);
}

/// Going back to any offset which is not given up lets the tokens be read again which were read
/// from there on, at the positions which they had.
pub proof fn law_backtrack_replays<Input: StreamOnce + Positioned>(
    states: Seq<StreamModel<Input>>,
    steps: Seq<Step<Input>>,
    offset: nat,
    again: Seq<StreamModel<Input>>,
    replayed: Seq<Input::Token>,
)
    requires
        history::is_run(states, steps),
        Step::Backtrack(offset).takes(states.last(), again[0]),
        reads(again, replayed),
    ensures
        rereads(states, steps, again, replayed),
{
    let last = states.last();
    assert(last.inv());
    lemma_run_retains_all(states, steps, offset as int);
    assert(again[0].inv()) by {
        assert(again[0].marks == last.marks);
    }
    assert forall|k: int, o: int|
        0 <= k < states.len() && offset <= o && states[k].start() <= o
            < states[k].pulled implies #[trigger] retains_as(again[0], states[k], o) by {
        assert(retains_as(last, states[k], o));
    }
    law_retained_tokens_replay(states, steps, again, replayed);
}

/// While a checkpoint is active, every token since it stays available, whatever else happens:
/// the stream can go back to any offset from the checkpoint on, and reads the same tokens there,
/// at the positions which they had.
pub proof fn law_active_checkpoint_keeps_tokens<Input: StreamOnce + Positioned>(
    s: StreamModel<Input>,
    budget: nat,
    states: Seq<StreamModel<Input>>,
    steps: Seq<Step<Input>>,
    offset: nat,
    again: Seq<StreamModel<Input>>,
    replayed: Seq<Input::Token>,
)
    requires
        states[0] == s.begun(budget),
        history::is_run(states, steps),
        history::is_nested(steps),
        s.offset <= offset <= states.last().pulled,
        again[0] == (StreamModel { offset, ..states.last() }),
        reads(again, replayed),
    ensures
        states.last().start() <= s.offset,
        retains_all(states.last(), states, s.offset as int),
        Step::Backtrack(offset).takes(states.last(), again[0]),
        rereads(states, steps, again, replayed),
{
    let last = states.last();
    let active = states[0].marks.len() as int;
    assert(last.inv());
    history::lemma_run_marks(states, steps, steps.len() as int);
    assert(last.marks[active - 1].offset == s.offset);
    lemma_run_retains_all(states, steps, s.offset as int);
    law_backtrack_replays(states, steps, offset, again, replayed);
}

/// Where cloning gives an equal value, reading again gives equal tokens.
pub proof fn law_replayed_tokens_are_equal<Input: StreamOnce + Positioned>(
    states: Seq<StreamModel<Input>>,
    steps: Seq<Step<Input>>,
    again: Seq<StreamModel<Input>>,
    replayed: Seq<Input::Token>,
)
    requires
        rereads(states, steps, again, replayed),
        forall|a: Input::Token, b: Input::Token| #[trigger]
            vstd::pervasive::strictly_cloned(a, b) ==> a == b,
    ensures
        forall|k: int, i: int|
            #![trigger steps[k], replayed[i]]
            0 <= k < steps.len() && 0 <= i < replayed.len() && states[k].offset == again[i].offset
                ==> (steps[k] matches Step::Read(Ok(token)) ==> replayed[i] == token),
{
}

/// Whether two streams tell the same positions.
pub open spec fn same_position<Input: StreamOnce + Positioned>(a: Input, b: Input) -> bool {
    forall|position: Input::Position| #[trigger] a.is_at(position) <==> b.is_at(position)
}

/// What the token at an offset has for a position, up to the moment at which it is pulled and
/// after that.
proof fn lemma_position_stays<Input: StreamOnce + Positioned>(
    states: Seq<StreamModel<Input>>,
    steps: Seq<Step<Input>>,
    k: int,
)
    requires
        history::is_run(states, steps),
        0 <= k < states.len(),
        states[0].offset == states[0].pulled,
        states[k].start() <= states[0].offset,
        forall|m: int|
            0 <= m < steps.len() && states[m + 1].pulled == (#[trigger] states[m]).pulled
                ==> same_position(states[m].source, states[m + 1].source),
    ensures
        if states[k].pulled == states[0].pulled {
            same_position(states[0].source, states[k].source)
        } else {
            states[0].source.is_at(states[k].held(states[0].offset as int).1)
        },
    decreases k,
{
    if k > 0 {
        let before = states[k - 1];
        let after = states[k];
        let step = steps[k - 1];
        let offset = states[0].offset as int;
        history::lemma_run_step(states, steps, k - 1);
        history::lemma_step(before, step, after);
        history::lemma_run_keeps_tokens(states, steps, 0, k - 1);
        lemma_position_stays(states, steps, k - 1);
        if before.pulled > offset {
            assert(after.held(offset) == before.held(offset));
        } else if after.pulled > before.pulled {
            history::lemma_read(before, after, step->Read_0->Ok_0);
            assert(before.source.is_at(after.held(offset).1));
        } else {
            assert(states[k - 1 + 1].pulled == states[k - 1].pulled);
        }
    }
}

/// The position at an offset is the same whenever the read head is there, whatever happened in
/// between. The wrapped stream may tell its position as it likes, as long as it tells the same
/// one until a token is pulled from it.
pub proof fn law_position_stays<Input: StreamOnce + Positioned>(
    states: Seq<StreamModel<Input>>,
    steps: Seq<Step<Input>>,
    position: Input::Position,
)
    requires
        history::is_run(states, steps),
        states.last().offset == states[0].offset,
        forall|m: int|
            0 <= m < steps.len() && states[m + 1].pulled == (#[trigger] states[m]).pulled
                ==> same_position(states[m].source, states[m + 1].source),
        states.last().is_at(position),
    ensures
        history::is_known_position(states[0], position),
{
    let k = states.len() - 1;
    let last = states[k];
    let offset = states[0].offset as int;
    assert(last.inv() && states[0].inv());
    history::lemma_run_keeps_tokens(states, steps, 0, k);
    if offset < states[0].pulled {
        assert(last.held(offset) == states[0].held(offset));
    } else {
        lemma_position_stays(states, steps, k);
        if last.pulled > offset {
            assert(states[0].is_at(last.held(offset).1));
            assert(vstd::pervasive::strictly_cloned(last.held(offset).1, position));
        }
    }
}

/// A stream on which one only reads, begins and commits checkpoints and asks for positions is the
/// wrapped stream, read by read and position by position. Each read goes to the wrapped stream,
/// and nothing else does.
pub proof fn law_forward_reads_pass_through<Input: StreamOnce + Positioned>(
    source: Input,
    states: Seq<StreamModel<Input>>,
    steps: Seq<Step<Input>>,
    k: int,
)
    requires
        states[0] == StreamModel::fresh(source),
        history::is_run(states, steps),
        forall|m: int|
            0 <= m < steps.len() ==> (#[trigger] steps[m]) is Read || steps[m] is Begin
                || steps[m] is Commit || steps[m] is Look,
        0 <= k < states.len(),
    ensures
        states[k].offset == states[k].pulled,
        states[k].deferred is None,
        forall|position: Input::Position| #[trigger]
            states[k].is_at(position) <==> states[k].source.is_at(position),
        k < steps.len() ==> match steps[k] {
            Step::Read(result) => Input::unconses(states[k].source, states[k + 1].source, result),
            _ => states[k + 1].source == states[k].source,
        },
    decreases k,
{
    if k > 0 {
        law_forward_reads_pass_through(source, states, steps, k - 1);
        history::lemma_run_step(states, steps, k - 1);
        if let Step::Read(Ok(token)) = steps[k - 1] {
            history::lemma_read(states[k - 1], states[k], token);
        }
    }
    if k < steps.len() {
        history::lemma_run_step(states, steps, k);
    }
}

/// A read fails only where the wrapped stream gives the same error, unless a guard was dropped
/// beyond its budget: nothing else defers an error, neither a commit nor a reset nor going back.
pub proof fn law_errors_come_from_the_source<Input: StreamOnce + Positioned>(
    states: Seq<StreamModel<Input>>,
    steps: Seq<Step<Input>>,
    k: int,
)
    requires
        history::is_run(states, steps),
        states[0].deferred is None,
        forall|m: int| 0 <= m < steps.len() ==> !((#[trigger] steps[m]) is Abandon),
        0 <= k < states.len(),
    ensures
        states[k].deferred is None,
        k < steps.len() ==> (steps[k] matches Step::Read(Err(err)) ==> {
            &&& states[k].offset == states[k].pulled
            &&& Input::unconses(
                states[k].source,
                states[k + 1].source,
                Err::<Input::Token, StreamErrorFor<Input>>(err),
            )
        }),
    decreases k,
{
    if k > 0 {
        law_errors_come_from_the_source(states, steps, k - 1);
        history::lemma_run_step(states, steps, k - 1);
        if let Step::Read(Ok(token)) = steps[k - 1] {
            history::lemma_read(states[k - 1], states[k], token);
        }
    }
    if k < steps.len() {
        history::lemma_run_step(states, steps, k);
    }
}

/// Whether reads may lead through `states` and give `results`, tokens or errors.
pub open spec fn gives<Input: StreamOnce + Positioned>(
    states: Seq<StreamModel<Input>>,
    results: Seq<Result<Input::Token, StreamErrorFor<Input>>>,
) -> bool {
    &&& states.len() == results.len() + 1
    &&& forall|i: int|
        0 <= i < results.len() ==> (#[trigger] states[i]).unconses(states[i + 1], results[i])
}

/// Whether two streams differ at most in their checkpoints and in what they retain before the
/// read head.
pub open spec fn same_ahead<Input: StreamOnce + Positioned>(
    a: StreamModel<Input>,
    b: StreamModel<Input>,
) -> bool {
    &&& b == StreamModel { retained: b.retained, marks: b.marks, ..a }
    &&& 0 <= a.start() <= a.offset <= a.pulled
    &&& 0 <= b.start() <= b.offset <= b.pulled
    &&& forall|offset: int|
        a.offset <= offset < a.pulled ==> #[trigger] a.held(offset) == b.held(offset)
}

/// Neither checkpoints nor what is retained before the read head make a difference to a read.
proof fn lemma_read_alike<Input: StreamOnce + Positioned>(
    a: StreamModel<Input>,
    b: StreamModel<Input>,
    next: StreamModel<Input>,
    result: Result<Input::Token, StreamErrorFor<Input>>,
) -> (alike: StreamModel<Input>)
    requires
        same_ahead(a, b),
        a.unconses(next, result),
    ensures
        same_ahead(next, alike),
        b.unconses(alike, result),
{
    let pulls = next.pulled > a.pulled;
    let alike = StreamModel {
        retained: if pulls {
            b.retained.push(next.retained.last())
        } else {
            b.retained
        },
        marks: if result is Ok {
            model::read_to(b.marks, a.offset + 1)
        } else {
            b.marks
        },
        ..next
    };
    if a.deferred is None && a.offset < a.pulled {
        assert(a.held(a.offset as int) == b.held(a.offset as int));
    } else if a.deferred is None && result is Ok {
        let token = result->Ok_0;
        let (copy, position) = choose|copy: Input::Token, position: Input::Position| #[trigger]
            a.pulls(next, token, copy, position);
        assert(b.pulls(alike, token, copy, position));
    }
    assert forall|offset: int| next.offset <= offset < next.pulled implies #[trigger] next.held(
        offset,
    ) == alike.held(offset) by {
        assert(a.held(offset) == b.held(offset));
    }
    alike
}

/// Streams which differ only in their checkpoints and in what they retain before the read head are
/// at the same positions.
proof fn lemma_positions_alike<Input: StreamOnce + Positioned>(
    a: StreamModel<Input>,
    b: StreamModel<Input>,
    position: Input::Position,
)
    requires
        same_ahead(a, b),
    ensures
        a.is_at(position) <==> b.is_at(position),
{
    if a.offset < a.pulled {
        assert(a.held(a.offset as int) == b.held(a.offset as int));
    }
}

/// The streams which reads lead through from `other`, where they give the same as from
/// `states[0]`.
proof fn lemma_reads_alike<Input: StreamOnce + Positioned>(
    states: Seq<StreamModel<Input>>,
    results: Seq<Result<Input::Token, StreamErrorFor<Input>>>,
    other: StreamModel<Input>,
    k: int,
) -> (others: Seq<StreamModel<Input>>)
    requires
        gives(states, results),
        same_ahead(states[0], other),
        0 <= k <= results.len(),
    ensures
        others[0] == other,
        gives(others, results.take(k)),
        forall|i: int| 0 <= i <= k ==> same_ahead(states[i], #[trigger] others[i]),
    decreases k,
{
    if k == 0 {
        seq![other]
    } else {
        let before = lemma_reads_alike(states, results, other, k - 1);
        assert(same_ahead(states[k - 1], before[k - 1]));
        assert(states[k - 1].unconses(states[k - 1 + 1], results[k - 1]));
        let next = lemma_read_alike(states[k - 1], before[k - 1], states[k], results[k - 1]);
        let others = before.push(next);
        assert forall|i: int| 0 <= i <= k implies same_ahead(states[i], #[trigger] others[i]) by {
            if i < k {
                assert(others[i] == before[i]);
            }
        }
        assert forall|i: int| 0 <= i < k implies (#[trigger] others[i]).unconses(
            others[i + 1],
            results.take(k)[i],
        ) by {
            assert(others[i] == before[i]);
            if i < k - 1 {
                assert(before[i].unconses(before[i + 1], results.take(k - 1)[i]));
            }
        }
        others
    }
}

/// Neither checkpoints nor what is retained before the read head make a difference to what is read:
/// two streams which differ in nothing else give the same results and tell the same positions,
/// read by read.
pub proof fn law_read_history_is_not_observed<Input: StreamOnce + Positioned>(
    states: Seq<StreamModel<Input>>,
    results: Seq<Result<Input::Token, StreamErrorFor<Input>>>,
    other: StreamModel<Input>,
) -> (others: Seq<StreamModel<Input>>)
    requires
        gives(states, results),
        same_ahead(states[0], other),
    ensures
        others[0] == other,
        gives(others, results),
        forall|i: int, position: Input::Position|
            0 <= i < states.len() ==> (#[trigger] states[i].is_at(position) <==> others[i].is_at(
                position,
            )),
{
    let others = lemma_reads_alike(states, results, other, results.len() as int);
    assert(results.take(results.len() as int) =~= results);
    assert forall|i: int, position: Input::Position| 0 <= i < states.len() implies (
    #[trigger] states[i].is_at(position) <==> others[i].is_at(position)) by {
        assert(same_ahead(states[i], others[i]));
        lemma_positions_alike(states[i], others[i], position);
    }
    others
}

/// Giving up what neither the read head nor a checkpoint needs changes no later read: with it and
/// without it, the stream gives the same results and tells the same positions, read by read.
pub proof fn law_eviction_is_not_observed<Input: StreamOnce + Positioned>(
    s: StreamModel<Input>,
    states: Seq<StreamModel<Input>>,
    results: Seq<Result<Input::Token, StreamErrorFor<Input>>>,
) -> (others: Seq<StreamModel<Input>>)
    requires
        s.inv(),
        gives(states, results),
        states[0] == s || states[0] == s.evicted(),
    ensures
        states[0] == s ==> others[0] == s.evicted(),
        states[0] == s.evicted() ==> others[0] == s,
        gives(others, results),
        forall|i: int, position: Input::Position|
            0 <= i < states.len() ==> (#[trigger] states[i].is_at(position) <==> others[i].is_at(
                position,
            )),
{
    model::lemma_evicted_inv(s);
    let other = if states[0] == s {
        s.evicted()
    } else {
        s
    };
    assert forall|offset: int| s.offset <= offset < s.pulled implies s.held(offset)
        == s.evicted().held(offset) by {}
    law_read_history_is_not_observed(states, results, other)
}

/// A commit changes no later read: with it and without it, the stream gives the same results and
/// tells the same positions, read by read.
pub proof fn law_commit_is_not_observed<Input: StreamOnce + Positioned>(
    s: StreamModel<Input>,
    states: Seq<StreamModel<Input>>,
    results: Seq<Result<Input::Token, StreamErrorFor<Input>>>,
) -> (others: Seq<StreamModel<Input>>)
    requires
        s.inv(),
        gives(states, results),
        states[0] == s,
    ensures
        others[0] == s.committed(),
        gives(others, results),
        forall|i: int, position: Input::Position|
            0 <= i < states.len() ==> (#[trigger] states[i].is_at(position) <==> others[i].is_at(
                position,
            )),
{
    let after = s.committed();
    if s.marks.len() > 0 {
        model::lemma_popped_inv(s, s.offset);
        model::lemma_evicted_inv(StreamModel { marks: s.marks.drop_last(), ..s });
    }
    assert forall|offset: int| s.offset <= offset < s.pulled implies s.held(offset) == after.held(
        offset,
    ) by {}
    law_read_history_is_not_observed(states, results, after)
}

/// The number of active checkpoints is the number of those begun less the number of those ended,
/// as long as none is ended where none is active. Reads, positions, going back and changes to the
/// wrapped stream never change which checkpoints there are.
pub proof fn law_active_checkpoints<Input: StreamOnce + Positioned>(
    states: Seq<StreamModel<Input>>,
    steps: Seq<Step<Input>>,
    k: int,
)
    requires
        history::is_run(states, steps),
        forall|m: int|
            0 <= m < steps.len() && (#[trigger] steps[m]).ends() ==> states[m].marks.len() > 0,
        0 <= k <= steps.len(),
    ensures
        states[k].marks.len() == states[0].marks.len() + history::begun(steps.take(k))
            - history::ended(steps.take(k)),
        k < steps.len() && !(steps[k] is Begin) && !steps[k].ends() ==> model::continues(
            states[k].marks,
            states[k + 1].marks,
        ),
    decreases k,
{
    if k == 0 {
        assert(steps.take(0).len() == 0);
    } else {
        law_active_checkpoints(states, steps, k - 1);
        history::lemma_run_step(states, steps, k - 1);
        history::lemma_step(states[k - 1], steps[k - 1], states[k]);
        assert(steps.take(k).drop_last() =~= steps.take(k - 1));
        assert(steps.take(k).last() == steps[k - 1]);
    }
    if k < steps.len() {
        history::lemma_run_step(states, steps, k);
        history::lemma_step(states[k], steps[k], states[k + 1]);
    }
}

/// Checkpoints form a stack. Whatever checkpoints are begun inside another one and committed,
/// reset or dropped there, in any number and depth, the outer one stays active with its budget,
/// and can be reset to as if they had not been. What is read behind them is read behind it.
pub proof fn law_inner_checkpoints_keep_outer<Input: StreamOnce + Positioned>(
    s: StreamModel<Input>,
    budget: nat,
    states: Seq<StreamModel<Input>>,
    steps: Seq<Step<Input>>,
)
    requires
        states[0] == s.begun(budget),
        history::is_run(states, steps),
        history::is_balanced(steps),
    ensures
        model::continues(s.begun(budget).marks, states.last().marks),
        states.last().marks.last().read() == history::furthest_read(states, steps, s.offset)
            - s.offset,
        states.last().can_rewind() ==> {
            &&& states.last().rewinds(states.last().rewound(), Ok(()))
            &&& states.last().rewound().offset == s.offset
            &&& model::continues(s.marks, states.last().rewound().marks)
            &&& retains_all(states.last().rewound(), states, s.offset as int)
        },
{
    let last = states.last();
    let active = states[0].marks.len() as int;
    assert(steps.take(steps.len() as int) =~= steps);
    history::lemma_run_marks(states, steps, steps.len() as int);
    assert(last.marks.take(active) =~= last.marks);
    assert(last.marks[active - 1] == last.marks.last());
    if last.can_rewind() {
        law_reset_restores(s, budget, states, steps, last.rewound());
    }
}

/// Guards which are ended in stack order each end their own checkpoint and no other, whether they
/// are committed, reset or dropped. A guard dropped within its budget leaves the stream as a
/// reset does, with nothing deferred to the next read; one dropped beyond it leaves the read head
/// where it is.
pub proof fn law_guard_ends_its_checkpoint<Input: StreamOnce + Positioned>(
    s: StreamModel<Input>,
    budget: nat,
    states: Seq<StreamModel<Input>>,
    steps: Seq<Step<Input>>,
    end: Step<Input>,
    after: StreamModel<Input>,
)
    requires
        states[0] == s.begun(budget),
        history::is_run(states, steps),
        history::is_balanced(steps),
        end.ends(),
        end.takes(states.last(), after),
    ensures
        model::continues(s.marks, after.marks),
        ({
            let within = history::furthest_read(states, steps, s.offset) - s.offset <= budget;
            &&& after.offset == if !(end is Commit) && within {
                s.offset
            } else {
                states.last().offset
            }
            &&& end matches Step::Reset(result) ==> (result is Ok <==> within)
            &&& end is Abandon && within ==> states.last().rewinds(after, Ok(()))
                && after.deferred == states.last().deferred
            &&& end is Abandon && !within ==> after.deferred is Some
        }),
{
    let last = states.last();
    law_inner_checkpoints_keep_outer(s, budget, states, steps);
    assert(last.inv());
    history::lemma_step(last, end, after);
    model::lemma_continued(s, budget, last.marks);
}

/// A checkpoint can be reset to for as long as no read led further past it than its budget since
/// it was begun, whatever else happened. It makes no difference whether the tokens came from the
/// wrapped stream or were retained ahead. Those which lie ahead and are not read do not count;
/// those which were read and gone back over do. Where nothing but reads moves the read head
/// forward, reading no more tokens than the budget is enough.
pub proof fn law_budget<Input: StreamOnce + Positioned>(
    s: StreamModel<Input>,
    budget: nat,
    states: Seq<StreamModel<Input>>,
    steps: Seq<Step<Input>>,
)
    requires
        states[0] == s.begun(budget),
        history::is_run(states, steps),
        history::is_balanced(steps),
    ensures
        states.last().can_rewind() <==> history::furthest_read(states, steps, s.offset) - s.offset
            <= budget,
        history::only_reads_advance(states, steps) && history::tokens_read(steps) <= budget
            ==> states.last().can_rewind(),
{
    assert(steps.take(steps.len() as int) =~= steps);
    law_inner_checkpoints_keep_outer(s, budget, states, steps);
    model::lemma_continued(s, budget, states.last().marks);
    history::lemma_run_advances(states, steps, steps.len() as int);
}

/// Of tokens read one after the other behind a checkpoint, every one counts against its budget.
pub proof fn law_budget_of_reads<Input: StreamOnce + Positioned>(
    s: StreamModel<Input>,
    budget: nat,
    states: Seq<StreamModel<Input>>,
    tokens: Seq<Input::Token>,
)
    requires
        s.inv(),
        states[0] == s.begun(budget),
        reads(states, tokens),
    ensures
        states.last().can_rewind() <==> tokens.len() <= budget,
{
    lemma_reads(states, tokens, tokens.len() as int);
    assert(states[0].marks.last() == Mark { offset: s.offset, reached: s.offset, budget });
}

/// What the budget of a checkpoint allows does not depend on what the stream retained when it was
/// begun, nor on anything else which came before: of two runs behind checkpoints at the same
/// offset which read as far, both can be reset or neither.
pub proof fn law_budget_does_not_depend_on_the_past<Input: StreamOnce + Positioned>(
    s: StreamModel<Input>,
    states: Seq<StreamModel<Input>>,
    steps: Seq<Step<Input>>,
    other: StreamModel<Input>,
    other_states: Seq<StreamModel<Input>>,
    other_steps: Seq<Step<Input>>,
    budget: nat,
)
    requires
        s.offset == other.offset,
        states[0] == s.begun(budget),
        history::is_run(states, steps),
        history::is_balanced(steps),
        other_states[0] == other.begun(budget),
        history::is_run(other_states, other_steps),
        history::is_balanced(other_steps),
        history::furthest_read(states, steps, s.offset) == history::furthest_read(
            other_states,
            other_steps,
            other.offset,
        ),
    ensures
        states.last().can_rewind() <==> other_states.last().can_rewind(),
{
    law_budget(s, budget, states, steps);
    law_budget(other, budget, other_states, other_steps);
}

/// Whether a parser which ran out of input behind a checkpoint with `budget` on `before` may have
/// to start over on `after`: the stream was reset to the checkpoint, and more input has arrived.
pub open spec fn starts_over<Input: StreamOnce + Positioned>(
    before: StreamModel<Input>,
    budget: nat,
    after: StreamModel<Input>,
) -> bool {
    exists|states: Seq<StreamModel<Input>>, steps: Seq<Step<Input>>|
        {
            &&& #[trigger] history::is_run(states, steps)
            &&& history::is_balanced(steps)
            &&& states[0] == before.begun(budget)
            &&& states.last().can_rewind()
            &&& after == StreamModel { source: after.source, ..states.last().rewound() }
        }
}

/// What any number of waits leaves of a stream: the read head where it was, the checkpoints which
/// were active, and no more tokens ahead than the budget or than there were.
proof fn lemma_waits<Input: StreamOnce + Positioned>(
    attempts: Seq<StreamModel<Input>>,
    budget: nat,
    k: int,
)
    requires
        forall|i: int|
            0 <= i < attempts.len() - 1 ==> starts_over(
                #[trigger] attempts[i],
                budget,
                attempts[i + 1],
            ),
        0 <= k < attempts.len(),
    ensures
        attempts[k].offset == attempts[0].offset,
        model::continues(attempts[0].marks, attempts[k].marks),
        attempts[k].pulled <= attempts[0].pulled || attempts[k].pulled - attempts[0].offset
            <= budget,
    decreases k,
{
    if k > 0 {
        let before = attempts[k - 1];
        let after = attempts[k - 1 + 1];
        lemma_waits(attempts, budget, k - 1);
        assert(starts_over(before, budget, after));
        let (states, steps) = choose|states: Seq<StreamModel<Input>>, steps: Seq<Step<Input>>|
            {
                &&& #[trigger] history::is_run(states, steps)
                &&& history::is_balanced(steps)
                &&& states[0] == before.begun(budget)
                &&& states.last().can_rewind()
                &&& after == StreamModel { source: after.source, ..states.last().rewound() }
            };
        assert(steps.take(steps.len() as int) =~= steps);
        law_budget(before, budget, states, steps);
        law_inner_checkpoints_keep_outer(before, budget, states, steps);
        history::lemma_run_advances(states, steps, steps.len() as int);
        model::lemma_continues_transitive(attempts[0].marks, before.marks, after.marks);
    }
}

/// A run which waits for more input and starts over, any number of times, is held to the same
/// budget as one which does not wait: what counts is how far it reads past the offset at which
/// the first attempt began, however the input arrived. While it waits, no more tokens lie ahead
/// than the budget, where no more lay ahead at first.
pub proof fn law_waiting_keeps_the_budget<Input: StreamOnce + Positioned>(
    attempts: Seq<StreamModel<Input>>,
    budget: nat,
    states: Seq<StreamModel<Input>>,
    steps: Seq<Step<Input>>,
    direct_states: Seq<StreamModel<Input>>,
    direct_steps: Seq<Step<Input>>,
)
    requires
        attempts.len() > 0,
        forall|i: int|
            0 <= i < attempts.len() - 1 ==> starts_over(
                #[trigger] attempts[i],
                budget,
                attempts[i + 1],
            ),
        states[0] == attempts.last().begun(budget),
        history::is_run(states, steps),
        history::is_balanced(steps),
        direct_states[0] == attempts[0].begun(budget),
        history::is_run(direct_states, direct_steps),
        history::is_balanced(direct_steps),
    ensures
        attempts.last().offset == attempts[0].offset,
        model::continues(attempts[0].marks, attempts.last().marks),
        states.last().can_rewind() <==> history::furthest_read(states, steps, attempts[0].offset)
            - attempts[0].offset <= budget,
        history::furthest_read(states, steps, attempts[0].offset) == history::furthest_read(
            direct_states,
            direct_steps,
            attempts[0].offset,
        ) ==> (states.last().can_rewind() <==> direct_states.last().can_rewind()),
        attempts[0].pulled - attempts[0].offset <= budget ==> attempts.last().pulled
            - attempts[0].offset <= budget,
{
    lemma_waits(attempts, budget, attempts.len() - 1);
    law_budget(attempts.last(), budget, states, steps);
    law_budget(attempts[0], budget, direct_states, direct_steps);
}

/// Once a budget is exceeded it stays exceeded: nothing which is done behind the checkpoint makes
/// up for it.
pub proof fn law_exceeded_budget_stays_exceeded<Input: StreamOnce + Positioned>(
    states: Seq<StreamModel<Input>>,
    steps: Seq<Step<Input>>,
)
    requires
        history::is_run(states, steps),
        history::is_balanced(steps),
        !states[0].can_rewind(),
    ensures
        !states.last().can_rewind(),
{
    let last = states.last();
    let active = states[0].marks.len() as int;
    assert(steps.take(steps.len() as int) =~= steps);
    history::lemma_run_marks(states, steps, steps.len() as int);
    assert(last.marks.take(active) =~= last.marks);
    if active > 0 {
        assert(last.marks[active - 1] == last.marks.last());
        assert(states[0].marks[active - 1] == states[0].marks.last());
    }
}

/// A commit succeeds however many tokens were read. It gives up the innermost checkpoint and
/// leaves the read head, the wrapped stream and every enclosing checkpoint as they were. Tokens
/// which neither the read head nor an active checkpoint needs are given up.
pub proof fn law_commit<Input: StreamOnce + Positioned>(s: StreamModel<Input>)
    requires
        s.inv(),
        s.marks.len() > 0,
    ensures
        s.committed().inv(),
        s.committed().offset == s.offset,
        s.committed().pulled == s.pulled,
        s.committed().source == s.source,
        s.committed().deferred == s.deferred,
        s.committed().marks == s.marks.drop_last(),
        s.committed().start() == s.committed().floor(),
{
    model::lemma_popped_inv(s, s.offset);
    model::lemma_evicted_inv(StreamModel { marks: s.marks.drop_last(), ..s });
}

/// A reset gives up the innermost checkpoint whether it succeeds or not, and leaves every
/// enclosing one active. One which fails leaves the read head where it was. Tokens which neither
/// the read head nor an active checkpoint needs are given up.
pub proof fn law_reset<Input: StreamOnce + Positioned>(
    before: StreamModel<Input>,
    after: StreamModel<Input>,
    result: Result<(), Input::Error>,
)
    requires
        before.inv(),
        before.marks.len() > 0,
        before.rewinds(after, result),
    ensures
        after.inv(),
        after.marks == before.marks.drop_last(),
        after.pulled == before.pulled,
        after.source == before.source,
        after.deferred == before.deferred,
        result is Ok <==> before.marks.last().read() <= before.marks.last().budget,
        after.offset == if result is Ok {
            before.marks.last().offset
        } else {
            before.offset
        },
        after.start() == after.floor(),
{
    law_commit(before);
    model::lemma_popped_inv(before, before.marks.last().offset);
    model::lemma_evicted_inv(
        StreamModel {
            marks: before.marks.drop_last(),
            offset: before.marks.last().offset,
            ..before
        },
    );
}

/// While checkpoints are active, every token since each of them is retained.
pub proof fn law_checkpoints_retain<Input: StreamOnce + Positioned>(s: StreamModel<Input>, i: int)
    requires
        s.inv(),
        0 <= i < s.marks.len(),
    ensures
        s.retained.len() >= s.pulled - s.marks[i].offset,
        s.retained.len() >= s.pulled - s.offset,
{
}

/// Once the last checkpoint is committed or reset, only tokens which were not read yet are
/// retained: none where the read head is at the end of what was pulled.
pub proof fn law_last_checkpoint_releases<Input: StreamOnce + Positioned>(s: StreamModel<Input>)
    requires
        s.inv(),
        s.marks.len() == 1,
    ensures
        s.committed().retained.len() == s.pulled - s.offset,
        s.rewound().retained.len() == s.pulled - s.marks[0].offset,
{
    model::lemma_popped_inv(s, s.offset);
    model::lemma_popped_inv(s, s.marks.last().offset);
    model::lemma_evicted_inv(StreamModel { marks: s.marks.drop_last(), ..s });
    model::lemma_evicted_inv(
        StreamModel { marks: s.marks.drop_last(), offset: s.marks.last().offset, ..s },
    );
    assert(s.marks[s.marks.len() - 1] == s.marks.last());
}

/// A reset which succeeds leaves no more tokens than the budget retained, where no other
/// checkpoint is active and no more lay ahead when the checkpoint was begun.
pub proof fn law_reset_retains_at_most_budget<Input: StreamOnce + Positioned>(
    s: StreamModel<Input>,
    budget: nat,
    states: Seq<StreamModel<Input>>,
    steps: Seq<Step<Input>>,
)
    requires
        s.marks.len() == 0,
        s.pulled - s.offset <= budget,
        states[0] == s.begun(budget),
        history::is_run(states, steps),
        history::is_balanced(steps),
        states.last().can_rewind(),
    ensures
        states.last().rewound().retained.len() <= budget,
{
    let last = states.last();
    assert(last.inv());
    assert(steps.take(steps.len() as int) =~= steps);
    law_budget(s, budget, states, steps);
    law_inner_checkpoints_keep_outer(s, budget, states, steps);
    model::lemma_continued(s, budget, last.marks);
    history::lemma_run_advances(states, steps, steps.len() as int);
    law_last_checkpoint_releases(last);
}

/// While a checkpoint is active which was begun with nothing retained before it, exactly the
/// tokens since it are retained, whatever else happens.
pub proof fn law_active_checkpoint_retains_no_more<Input: StreamOnce + Positioned>(
    s: StreamModel<Input>,
    budget: nat,
    states: Seq<StreamModel<Input>>,
    steps: Seq<Step<Input>>,
)
    requires
        s.start() == s.offset,
        states[0] == s.begun(budget),
        history::is_run(states, steps),
        history::is_nested(steps),
    ensures
        states.last().retained.len() == states.last().pulled - s.offset,
{
    let last = states.last();
    let active = states[0].marks.len() as int;
    assert(last.inv());
    history::lemma_run_keeps_tokens(states, steps, 0, states.len() - 1);
    history::lemma_run_marks(states, steps, steps.len() as int);
    assert(last.marks[active - 1].offset == s.offset);
}

/// Once a checkpoint is committed or reset while others stay active, no more tokens are retained
/// than were pulled since the oldest of them, where neither the read head nor a later checkpoint
/// lies before it.
pub proof fn law_retained_since_oldest<Input: StreamOnce + Positioned>(s: StreamModel<Input>)
    requires
        s.inv(),
        s.marks.len() > 1,
        s.marks[0].offset <= s.offset,
        forall|i: int|
            0 <= i < s.marks.len() ==> s.marks[0].offset <= (#[trigger] s.marks[i]).offset,
    ensures
        s.committed().retained.len() == s.pulled - s.marks[0].offset,
        s.rewound().retained.len() == s.pulled - s.marks[0].offset,
{
    let popped = StreamModel { marks: s.marks.drop_last(), ..s };
    let back = StreamModel { offset: s.marks.last().offset, ..popped };
    model::lemma_popped_inv(s, s.offset);
    model::lemma_popped_inv(s, s.marks.last().offset);
    model::lemma_evicted_inv(popped);
    model::lemma_evicted_inv(back);
    model::lemma_lowest(popped.marks, popped.offset);
    model::lemma_lowest(back.marks, back.offset);
    assert(popped.marks[0] == s.marks[0]);
    assert(forall|i: int| 0 <= i < popped.marks.len() ==> popped.marks[i] == s.marks[i]);
    assert(s.marks[s.marks.len() - 1] == s.marks.last());
}

/// Dropping a guard without committing it is a reset. Where the reset fails, the next read gives
/// an error, once, and the reads after it go on where the stream was.
pub proof fn law_dropped_guard<Input: StreamOnce + Positioned>(
    before: StreamModel<Input>,
    after: StreamModel<Input>,
    next: StreamModel<Input>,
    result: Result<Input::Token, StreamErrorFor<Input>>,
)
    requires
        before.inv(),
        before.marks.len() > 0,
        before.abandons(after),
        after.unconses(next, result),
    ensures
        before.can_rewind() ==> before.rewinds(after, Ok(())),
        !before.can_rewind() ==> result is Err && next.deferred is None && next.offset
            == before.offset && next.source == before.source && next.marks
            == before.marks.drop_last(),
{
}

} // verus!
