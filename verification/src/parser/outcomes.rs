//! What running a parser gives, with and without a checkpoint.
//!
//! The laws say what becomes of the result, of the stream and of the state of a parser which runs
//! behind a checkpoint, in terms of what it gave and how far it read.

use vstd::prelude::*;

use crate::error::{ParseError, ParseResult, StreamError};
use crate::parser;
use crate::parser::checkpoint;
use crate::parser::checkpoint::Checkpoint;
use crate::parser::combinator;
use crate::parser::combinator::{CheckpointState, Checkpointed};
use crate::parser::laws;
use crate::parser::token;
use crate::parser::token::Any;
use crate::parser::{ParseMode, Parser, Run};
use crate::stream;
use crate::stream::checkpoint::{CheckpointGuard, CheckpointStream, Stream};
use crate::stream::history;
use crate::stream::history::Step;
use crate::stream::model;
use crate::stream::model::StreamModel;
use crate::stream::operations;
use crate::stream::{Positioned, StreamErrorFor, StreamOnce};

verus! {

/// Whether `noted` is `err` with a note added that the budget was exceeded.
pub open spec fn is_noted<Input: StreamOnce>(err: Input::Error, noted: Input::Error) -> bool {
    exists|note: StreamErrorFor<Input>|
        note.is_message("checkpoint reset failed: token budget exceeded")
            && #[trigger] Input::Error::adds(err, note, noted)
}

/// What a checkpoint parser gives on a checkpointed stream, whatever checkpoints are active. Its
/// parser is run once, in the same mode and from the same state, on the stream as it is but for
/// one more checkpoint. What counts is the checkpoint which the parser leaves innermost, which is
/// that one where the parser leaves the checkpoints as they were.
///
/// - Where it succeeds, its result stands and the stream is where the parser left it.
/// - Where it fails after reading at most the budget past the offset at which it began, the stream
///   is back at that offset, and the failure is reported as uncommitted with the same error; only
///   one which had committed and ran out of input while more may arrive stays committed, and is
///   to start over from a default state.
/// - Where it fails after reading more, the failure is committed, and notes so.
pub proof fn law_checkpoint_run<Input, P>(
    mode: ParseMode,
    before: Run<Checkpoint<P>, Stream<Input>, P::PartialState>,
    after: Run<Checkpoint<P>, Stream<Input>, P::PartialState>,
    result: ParseResult<P::Output, Input::Error>,
) where Input: StreamOnce + Positioned, P: Parser<Stream<Input>>
    requires
        before.input.inv(),
        Checkpoint::<P>::parses(mode, before, after, result),
    ensures
        after.parser.budget() == before.parser.budget(),
        exists|
            begun: Stream<Input>,
            left: Run<P, Stream<Input>, P::PartialState>,
            inner: ParseResult<P::Output, Input::Error>,
        |
            {
                let budget = before.parser.budget();
                let mark = left.input@.marks.last();
                &&& #[trigger] P::parses(
                    mode,
                    Run { parser: before.parser.inner(), input: begun, state: before.state },
                    left,
                    inner,
                )
                &&& begun.inv()
                &&& operations::is_begun(before.input@, budget as nat, begun@)
                &&& left.input.inv()
                &&& laws::keeps_checkpoints::<Input, P>() ==> {
                    &&& left.input@.marks.len() == before.input@.marks.len() + 1
                    &&& mark.offset == before.input@.offset
                    &&& mark.budget == budget
                    &&& model::continues(before.input@.marks, after.input@.marks)
                }
                &&& after.parser.inner() == left.parser
                &&& after.input@.deferred == left.input@.deferred
                &&& match inner {
                    ParseResult::CommitOk(_) | ParseResult::PeekOk(_) => {
                        &&& result == inner
                        &&& operations::is_committed(left.input@, after.input@)
                        &&& after.state == left.state
                    },
                    ParseResult::CommitErr(err) | ParseResult::PeekErr(err) => if left.input@
                        .marks.len() > 0 && mark.reached - mark.offset <= mark.budget {
                        &&& operations::gives_up_innermost(left.input@, after.input@)
                        &&& after.input@.offset == mark.offset
                        &&& if inner is CommitErr && before.input@.source.partial()
                            && err.is_eoi() {
                            &&& result == ParseResult::<P::Output, Input::Error>::CommitErr(err)
                            &&& call_ensures(
                                <P::PartialState as Default>::default,
                                (),
                                after.state,
                            )
                        } else {
                            &&& result == ParseResult::<P::Output, Input::Error>::PeekErr(err)
                            &&& after.state == left.state
                        }
                    } else {
                        &&& operations::is_committed(left.input@, after.input@)
                        &&& after.state == left.state
                        &&& result matches ParseResult::CommitErr(noted)
                            && is_noted::<Input>(err, noted)
                    },
                }
            },
{
    let budget = before.parser.budget() as nat;
    let (begun, left, inner) = choose|
        begun: Stream<Input>,
        left: Run<P, Stream<Input>, P::PartialState>,
        inner: ParseResult<P::Output, Input::Error>,
    |
        {
            &&& begun@ == before.input@.begun(budget)
            &&& begun.inv()
            &&& left.input.inv()
            &&& #[trigger] P::parses(
                mode,
                Run { parser: before.parser.inner(), input: begun, state: before.state },
                left,
                inner,
            )
            &&& after.parser.inner() == left.parser
            &&& checkpoint::settles(
                before.input.partial(),
                inner,
                left.input,
                left.state,
                after.input,
                after.state,
                result,
            )
        };
    assert(P::parses(
        mode,
        Run { parser: before.parser.inner(), input: begun, state: before.state },
        left,
        inner,
    ));
    assert(begun@.marks.drop_last() =~= before.input@.marks);
    operations::lemma_committed(left.input@);
    if left.input@.marks.len() > 0 {
        operations::lemma_rewound(left.input@);
    }
    if laws::keeps_checkpoints::<Input, P>() {
        model::lemma_continued(before.input@, budget, left.input@.marks);
    }
}

/// A failure of a checkpoint parser within its budget is uncommitted and leaves the stream where
/// it was, and beyond its budget is committed, whatever checkpoints are active around it. What is
/// within the budget is what reads at most as many tokens past where the run began as were given
/// to the checkpoint.
pub proof fn law_failure_within_budget_is_uncommitted<Input, P>(
    mode: ParseMode,
    before: Run<Checkpoint<P>, Stream<Input>, P::PartialState>,
    after: Run<Checkpoint<P>, Stream<Input>, P::PartialState>,
    result: ParseResult<P::Output, Input::Error>,
    within: bool,
) where Input: StreamOnce + Positioned, P: Parser<Stream<Input>>
    requires
        laws::keeps_checkpoints::<Input, P>(),
        before.input.inv(),
        Checkpoint::<P>::parses(mode, before, after, result),
        !before.input@.source.partial(),
        forall|
            begun: Stream<Input>,
            left: Run<P, Stream<Input>, P::PartialState>,
            inner: ParseResult<P::Output, Input::Error>,
        |
            operations::is_begun(before.input@, before.parser.budget() as nat, begun@)
                && #[trigger] P::parses(
                mode,
                Run { parser: before.parser.inner(), input: begun, state: before.state },
                left,
                inner,
            ) ==> inner.outcome() is Err && (within <==> left.input@.marks.last().reached
                - before.input@.offset <= before.parser.budget()),
    ensures
        within ==> result is PeekErr && after.input@.offset == before.input@.offset,
        !within ==> result is CommitErr,
{
    law_checkpoint_run::<Input, P>(mode, before, after, result);
}

/// Whether the parser behind a checkpoint, run on `before`, runs out of input within the budget
/// while more may arrive.
pub open spec fn runs_out<Input, P>(
    mode: ParseMode,
    before: Run<Checkpoint<P>, Stream<Input>, P::PartialState>,
) -> bool where Input: StreamOnce + Positioned, P: Parser<Stream<Input>> {
    &&& before.input@.source.partial()
    &&& forall|
        begun: Stream<Input>,
        left: Run<P, Stream<Input>, P::PartialState>,
        inner: ParseResult<P::Output, Input::Error>,
    |
        operations::is_begun(before.input@, before.parser.budget() as nat, begun@)
            && #[trigger] P::parses(
            mode,
            Run { parser: before.parser.inner(), input: begun, state: before.state },
            left,
            inner,
        ) ==> (inner matches ParseResult::CommitErr(err) && err.is_eoi())
            && left.input@.marks.last().reached - before.input@.offset <= before.parser.budget()
}

/// A checkpoint parser which runs out of input within its budget while more may arrive waits, on
/// every attempt however many came before: its failure stays committed, the stream is back where
/// the first attempt began, and the next one starts from a default state.
pub proof fn law_every_attempt_waits<Input, P>(
    mode: ParseMode,
    befores: Seq<Run<Checkpoint<P>, Stream<Input>, P::PartialState>>,
    afters: Seq<Run<Checkpoint<P>, Stream<Input>, P::PartialState>>,
    results: Seq<ParseResult<P::Output, Input::Error>>,
    k: int,
) where Input: StreamOnce + Positioned, P: Parser<Stream<Input>>
    requires
        laws::keeps_checkpoints::<Input, P>(),
        forall|i: int|
            0 <= i < befores.len() ==> (#[trigger] befores[i]).input.inv() && runs_out::<
                Input,
                P,
            >(mode, befores[i]) && Checkpoint::<P>::parses(
                mode,
                befores[i],
                afters[i],
                results[i],
            ),
        forall|i: int|
            0 < i < befores.len() ==> (#[trigger] befores[i]).input@ == (StreamModel {
                source: befores[i].input@.source,
                ..afters[i - 1].input@
            }),
        0 <= k < befores.len(),
    ensures
        results[k] matches ParseResult::CommitErr(err) && err.is_eoi(),
        befores[k].input@.offset == befores[0].input@.offset,
        afters[k].input@.offset == befores[0].input@.offset,
        model::continues(befores[0].input@.marks, afters[k].input@.marks),
        call_ensures(<P::PartialState as Default>::default, (), afters[k].state),
    decreases k,
{
    law_checkpoint_run::<Input, P>(mode, befores[k], afters[k], results[k]);
    if k > 0 {
        law_every_attempt_waits::<Input, P>(mode, befores, afters, results, k - 1);
        model::lemma_continues_transitive(
            befores[0].input@.marks,
            befores[k].input@.marks,
            afters[k].input@.marks,
        );
    }
}

/// Whether a parser operates on the stream, and ends every checkpoint which it begins.
pub open spec fn operates_in_balance<Input, P>() -> bool where
    Input: StreamOnce + Positioned,
    P: Parser<Stream<Input>>,
 {
    forall|
        mode: ParseMode,
        before: Run<P, Stream<Input>, P::PartialState>,
        after: Run<P, Stream<Input>, P::PartialState>,
        result: ParseResult<P::Output, Input::Error>,
    |
        before.input.inv() && after.input.inv() && #[trigger] P::parses(
            mode,
            before,
            after,
            result,
        ) ==> history::balances(before.input@, after.input@)
}

/// A parser which ends every checkpoint which it begins leaves the checkpoints as they were.
pub proof fn law_balance_keeps_checkpoints<Input, P>() where
    Input: StreamOnce + Positioned,
    P: Parser<Stream<Input>>,

    requires
        operates_in_balance::<Input, P>(),
    ensures
        laws::keeps_checkpoints::<Input, P>(),
{
    assert forall|
        mode: ParseMode,
        before: Run<P, Stream<Input>, P::PartialState>,
        after: Run<P, Stream<Input>, P::PartialState>,
        result: ParseResult<P::Output, Input::Error>,
    |
        before.input.inv() && after.input.inv() && #[trigger] P::parses(
            mode,
            before,
            after,
            result,
        ) implies model::continues(before.input@.marks, after.input@.marks) by {
        let (states, steps) = choose|states: Seq<StreamModel<Input>>, steps: Seq<Step<Input>>|
            {
                &&& #[trigger] history::is_run(states, steps)
                &&& history::is_balanced(steps)
                &&& states[0] == before.input@
                &&& states.last() == after.input@
            };
        assert(steps.take(steps.len() as int) =~= steps);
        history::lemma_run_marks(states, steps, steps.len() as int);
        assert(after.input@.marks.take(before.input@.marks.len() as int) =~= after.input@.marks);
    }
}

/// Reading a token begins and ends no checkpoint.
pub proof fn law_any_is_in_balance<Input: StreamOnce + Positioned>()
    ensures
        operates_in_balance::<Input, Any>(),
{
    assert forall|
        mode: ParseMode,
        before: Run<Any, Stream<Input>, ()>,
        after: Run<Any, Stream<Input>, ()>,
        result: ParseResult<Input::Token, Input::Error>,
    |
        before.input.inv() && after.input.inv() && #[trigger] Any::parses(
            mode,
            before,
            after,
            result,
        ) implies history::balances(before.input@, after.input@) by {
        let read = choose|read: Result<Input::Token, StreamErrorFor<Input>>| #[trigger]
            Stream::<Input>::unconses(before.input, after.input, read);
        let states = seq![before.input@, after.input@];
        let steps = seq![Step::<Input>::Read(read)];
        assert(history::is_run(states, steps));
        assert forall|k: int| 0 <= k <= steps.len() implies history::ended(
            #[trigger] steps.take(k),
        ) <= history::begun(steps.take(k)) by {
            reveal_with_fuel(history::ended, 2);
            if k == 1 {
                assert(steps.take(k) =~= steps);
            }
        }
        assert(history::begun(steps) == history::ended(steps)) by {
            reveal_with_fuel(history::begun, 2);
            reveal_with_fuel(history::ended, 2);
        }
        assert(states[0] == before.input@ && states.last() == after.input@);
    }
}

/// A checkpoint around a parser which ends every checkpoint which it begins is such a parser
/// again.
pub proof fn law_checkpoint_is_in_balance<Input, P>() where
    Input: StreamOnce + Positioned,
    P: Parser<Stream<Input>>,

    requires
        operates_in_balance::<Input, P>(),
    ensures
        operates_in_balance::<Input, Checkpoint<P>>(),
{
    assert forall|
        mode: ParseMode,
        before: Run<Checkpoint<P>, Stream<Input>, P::PartialState>,
        after: Run<Checkpoint<P>, Stream<Input>, P::PartialState>,
        result: ParseResult<P::Output, Input::Error>,
    |
        before.input.inv() && after.input.inv() && #[trigger] Checkpoint::<P>::parses(
            mode,
            before,
            after,
            result,
        ) implies history::balances(before.input@, after.input@) by {
        let budget = before.parser.budget() as nat;
        let (begun, left, inner) = choose|
            begun: Stream<Input>,
            left: Run<P, Stream<Input>, P::PartialState>,
            inner: ParseResult<P::Output, Input::Error>,
        |
            {
                &&& begun@ == before.input@.begun(budget)
                &&& begun.inv()
                &&& left.input.inv()
                &&& #[trigger] P::parses(
                    mode,
                    Run { parser: before.parser.inner(), input: begun, state: before.state },
                    left,
                    inner,
                )
                &&& after.parser.inner() == left.parser
                &&& checkpoint::settles(
                    before.input.partial(),
                    inner,
                    left.input,
                    left.state,
                    after.input,
                    after.state,
                    result,
                )
            };
        let end: Step<Input> = if inner.outcome() is Ok || !left.input@.can_rewind() {
            Step::Commit
        } else {
            Step::Reset(Ok(()))
        };
        history::lemma_wrapped_balances(before.input@, budget, left.input@, end, after.input@);
    }
}

/// What a checkpoint parser gives in terms of the reads of its parser, however deeply checkpoints
/// are nested in it or around it: a failure is rewound exactly if none of these reads led further
/// past where it began than the budget given to it.
pub proof fn law_checkpoint_is_bounded_by_reads<Input, P>(
    mode: ParseMode,
    before: Run<Checkpoint<P>, Stream<Input>, P::PartialState>,
    after: Run<Checkpoint<P>, Stream<Input>, P::PartialState>,
    result: ParseResult<P::Output, Input::Error>,
) where Input: StreamOnce + Positioned, P: Parser<Stream<Input>>
    requires
        operates_in_balance::<Input, P>(),
        before.input.inv(),
        Checkpoint::<P>::parses(mode, before, after, result),
    ensures
        exists|
            begun: Stream<Input>,
            left: Run<P, Stream<Input>, P::PartialState>,
            inner: ParseResult<P::Output, Input::Error>,
            states: Seq<StreamModel<Input>>,
            steps: Seq<Step<Input>>,
        |
            {
                let budget = before.parser.budget();
                let start = before.input@.offset;
                let read = history::furthest_read(states, steps, start) - start;
                &&& #[trigger] P::parses(
                    mode,
                    Run { parser: before.parser.inner(), input: begun, state: before.state },
                    left,
                    inner,
                )
                &&& operations::is_begun(before.input@, budget as nat, begun@)
                &&& #[trigger] history::is_run(states, steps)
                &&& history::is_balanced(steps)
                &&& states[0] == begun@
                &&& states.last() == left.input@
                &&& match inner {
                    ParseResult::CommitOk(_) | ParseResult::PeekOk(_) => result == inner,
                    ParseResult::CommitErr(err) | ParseResult::PeekErr(err) => if read > budget {
                        result is CommitErr && after.input@.offset == left.input@.offset
                    } else if inner is CommitErr && before.input@.source.partial()
                        && err.is_eoi() {
                        result == inner && after.input@.offset == start
                    } else {
                        result == ParseResult::<P::Output, Input::Error>::PeekErr(err)
                            && after.input@.offset == start
                    },
                }
            },
{
    let budget = before.parser.budget() as nat;
    let (begun, left, inner) = choose|
        begun: Stream<Input>,
        left: Run<P, Stream<Input>, P::PartialState>,
        inner: ParseResult<P::Output, Input::Error>,
    |
        {
            &&& begun@ == before.input@.begun(budget)
            &&& begun.inv()
            &&& left.input.inv()
            &&& #[trigger] P::parses(
                mode,
                Run { parser: before.parser.inner(), input: begun, state: before.state },
                left,
                inner,
            )
            &&& after.parser.inner() == left.parser
            &&& checkpoint::settles(
                before.input.partial(),
                inner,
                left.input,
                left.state,
                after.input,
                after.state,
                result,
            )
        };
    let (states, steps) = choose|states: Seq<StreamModel<Input>>, steps: Seq<Step<Input>>|
        {
            &&& #[trigger] history::is_run(states, steps)
            &&& history::is_balanced(steps)
            &&& states[0] == begun@
            &&& states.last() == left.input@
        };
    assert(begun@.marks.drop_last() =~= before.input@.marks);
    stream::laws::law_budget(before.input@, budget, states, steps);
    stream::laws::law_inner_checkpoints_keep_outer(before.input@, budget, states, steps);
    laws::law_settled_checkpoint(
        before.input@,
        budget,
        before.input.partial(),
        inner,
        left.input,
        left.state,
        after.input,
        after.state,
        result,
    );
    assert(P::parses(
        mode,
        Run { parser: before.parser.inner(), input: begun, state: before.state },
        left,
        inner,
    ));
    assert(history::is_run(states, steps));
}

/// What the generic combinator gives on any stream with checkpoints: its parser is run once, in
/// the same mode, behind a checkpoint which is begun unless it is active since an earlier call.
///
/// The result is that of the parser, and the checkpoint is committed. Only where the parser fails
/// without committing is the stream reset instead; where the reset fails, the failure is committed
/// with both errors merged. Where the parser ran out of input while more may arrive, the
/// checkpoint stays active.
pub proof fn law_generic_checkpoint_run<Input, P>(
    mode: ParseMode,
    before: Run<Checkpointed<P>, Input, CheckpointState<P::PartialState>>,
    after: Run<Checkpointed<P>, Input, CheckpointState<P::PartialState>>,
    result: ParseResult<P::Output, Input::Error>,
) where Input: CheckpointStream, P: Parser<Input>
    requires
        Checkpointed::<P>::parses(mode, before, after, result),
    ensures
        after.parser.budget() == before.parser.budget(),
        exists|
            begun: Input,
            left: Run<P, Input, P::PartialState>,
            inner: ParseResult<P::Output, Input::Error>,
        |
            {
                &&& #[trigger] P::parses(
                    mode,
                    Run { parser: before.parser.inner(), input: begun, state: before.state.inner },
                    left,
                    inner,
                )
                &&& if mode == ParseMode::First || !before.state.begun {
                    Input::begins(before.input, before.parser.budget(), begun)
                } else {
                    begun == before.input
                }
                &&& after.parser.inner() == left.parser
                &&& after.state.inner == left.state
                &&& !(inner is PeekErr) ==> result == inner
                &&& match inner {
                    ParseResult::CommitOk(_) | ParseResult::PeekOk(_) => {
                        &&& Input::commits(left.input, after.input)
                        &&& !after.state.begun
                    },
                    ParseResult::PeekErr(err) => {
                        &&& !after.state.begun
                        &&& exists|reset: Result<(), Input::Error>| #[trigger]
                            Input::rewinds(left.input, after.input, reset) && match reset {
                                Ok(_) => result == inner,
                                Err(reason) => result matches ParseResult::CommitErr(merged)
                                    && merged.is_merge_of(err, reason),
                            }
                    },
                    ParseResult::CommitErr(err) => if left.input.partial() && err.is_eoi() {
                        after.input == left.input && after.state.begun
                    } else {
                        Input::commits(left.input, after.input) && !after.state.begun
                    },
                }
            },
{
    let (begun, left, inner) = choose|
        begun: Input,
        left: Run<P, Input, P::PartialState>,
        inner: ParseResult<P::Output, Input::Error>,
    |
        {
            &&& Checkpointed::<P>::enters(mode, before, begun)
            &&& begun.inv()
            &&& left.input.inv()
            &&& #[trigger] P::parses(
                mode,
                Run { parser: before.parser.inner(), input: begun, state: before.state.inner },
                left,
                inner,
            )
            &&& after.parser.inner() == left.parser
            &&& combinator::resolves(
                inner,
                left.input,
                CheckpointState { begun: true, inner: left.state },
                after.input,
                after.state,
                result,
            )
        };
    assert(P::parses(
        mode,
        Run { parser: before.parser.inner(), input: begun, state: before.state.inner },
        left,
        inner,
    ));
}

/// What the generic combinator gives on a checkpointed stream, in either mode, resumed or not,
/// where its parser may hold checkpoints of its own while it waits. `s` is the stream on which the
/// checkpoint was begun, with `budget`.
///
/// The result is that of the parser, unless the parser fails without committing after reading more
/// than the budget past where the checkpoint was begun. Within the budget the stream is back there;
/// beyond it the failure is committed, merged with a report at the furthest position.
pub proof fn law_generic_checkpoint_result<Input, P>(
    s: StreamModel<Input>,
    budget: nat,
    mode: ParseMode,
    before: Run<Checkpointed<P>, Stream<Input>, CheckpointState<P::PartialState>>,
    after: Run<Checkpointed<P>, Stream<Input>, CheckpointState<P::PartialState>>,
    result: ParseResult<P::Output, Input::Error>,
    held: spec_fn(P::PartialState) -> nat,
    ready: spec_fn(P::PartialState) -> bool,
) where Input: StreamOnce + Positioned, P: Parser<Stream<Input>>
    requires
        laws::holds_checkpoints::<Input, P>(held, ready),
        before.input.inv(),
        mode == ParseMode::First || laws::ready_behind(held, ready)(before.state),
        if mode == ParseMode::First || !before.state.begun {
            s == before.input@ && budget == before.parser.budget()
        } else {
            &&& before.input@.marks.len() == s.marks.len() + 1 + held(before.state.inner)
            &&& model::continues(
                s.begun(budget).marks,
                before.input@.marks.take(s.marks.len() as int + 1),
            )
        },
        Checkpointed::<P>::parses(mode, before, after, result),
    ensures
        exists|
            begun: Stream<Input>,
            left: Run<P, Stream<Input>, P::PartialState>,
            inner: ParseResult<P::Output, Input::Error>,
        |
            {
                let mark = left.input@.marks[s.marks.len() as int];
                let read = mark.reached - s.offset;
                &&& #[trigger] P::parses(
                    mode,
                    Run { parser: before.parser.inner(), input: begun, state: before.state.inner },
                    left,
                    inner,
                )
                &&& if mode == ParseMode::First || !before.state.begun {
                    operations::is_begun(before.input@, budget, begun@)
                } else {
                    begun == before.input
                }
                &&& left.input@.marks.len() > s.marks.len()
                &&& mark.offset == s.offset
                &&& mark.budget == budget
                &&& after.parser.inner() == left.parser
                &&& after.state.inner == left.state
                &&& after.input@.source == left.input@.source
                &&& after.input@.pulled == left.input@.pulled
                &&& after.input@.deferred == left.input@.deferred
                &&& match inner {
                    ParseResult::PeekErr(err) => if read <= budget {
                        &&& result == ParseResult::<P::Output, Input::Error>::PeekErr(err)
                        &&& after.input@.offset == s.offset
                    } else {
                        &&& after.input@.offset == left.input@.offset
                        &&& result matches ParseResult::CommitErr(merged) && exists|
                            reason: Input::Error,
                        |
                            #[trigger] merged.is_merge_of(err, reason)
                                && operations::reports_at_source(
                                reason,
                                left.input@.source,
                                "checkpoint token budget exceeded",
                            )
                    },
                    _ => {
                        &&& result == inner
                        &&& after.input@.offset == left.input@.offset
                    },
                }
                &&& if inner matches ParseResult::CommitErr(err) && err.is_eoi()
                    && left.input@.source.partial() {
                    after.state.begun && after.input@ == left.input@
                } else {
                    !after.state.begun && model::continues(s.marks, after.input@.marks)
                }
            },
{
    let base = (s.marks.len() + 1) as int;
    let (begun, left, inner) = choose|
        begun: Stream<Input>,
        left: Run<P, Stream<Input>, P::PartialState>,
        inner: ParseResult<P::Output, Input::Error>,
    |
        {
            &&& Checkpointed::<P>::enters(mode, before, begun)
            &&& begun.inv()
            &&& left.input.inv()
            &&& #[trigger] P::parses(
                mode,
                Run { parser: before.parser.inner(), input: begun, state: before.state.inner },
                left,
                inner,
            )
            &&& after.parser.inner() == left.parser
            &&& combinator::resolves(
                inner,
                left.input,
                CheckpointState { begun: true, inner: left.state },
                after.input,
                after.state,
                result,
            )
        };
    assert(P::parses(
        mode,
        Run { parser: before.parser.inner(), input: begun, state: before.state.inner },
        left,
        inner,
    ));
    if mode == ParseMode::First || !before.state.begun {
        assert(begun@.marks.drop_last() =~= before.input@.marks);
    }
    assert(model::continues(s.begun(budget).marks, begun@.marks.take(base)));
    assert(model::continues(begun@.marks.take(base), left.input@.marks.take(base)));
    model::lemma_continues_transitive(
        s.begun(budget).marks,
        begun@.marks.take(base),
        left.input@.marks.take(base),
    );
    model::lemma_continued(s, budget, left.input@.marks.take(base));
    assert(left.input@.marks.take(base).last() == left.input@.marks[base - 1]);
    operations::lemma_committed(left.input@);
    if !laws::waits(left.input, inner) {
        assert(left.input@.marks.take(base) =~= left.input@.marks);
        laws::law_resolved_checkpoint(
            s,
            budget,
            inner,
            left.input,
            CheckpointState { begun: true, inner: left.state },
            after.input,
            after.state,
            result,
        );
        if let ParseResult::PeekErr(err) = inner {
            let reset = choose|reset: Result<(), Input::Error>| #[trigger]
                Stream::<Input>::rewinds(left.input, after.input, reset) && match reset {
                    Ok(_) => result == inner,
                    Err(reason) => result matches ParseResult::CommitErr(merged)
                        && merged.is_merge_of(err, reason),
                };
            operations::lemma_rewinds(left.input@, after.input@, reset);
            if let Err(reason) = reset {
                assert((result->CommitErr_0).is_merge_of(err, reason));
            }
        }
    }
}

/// What settling a checkpoint through its guard gives, in terms of what the parser behind it gave
/// and how far it read.
pub proof fn law_settle<'a, Input, T, State>(
    guard: CheckpointGuard<'a, Input>,
    partial: bool,
    inner: ParseResult<T, Input::Error>,
    state: &'a mut State,
    result: ParseResult<T, Input::Error>,
) where Input: StreamOnce + Positioned, State: Default
    requires
        old(guard.target()).inv(),
        old(guard.target())@.marks.len() > 0,
        call_ensures(
            checkpoint::settle::<Input, T, State>,
            (guard, partial, inner, state),
            result,
        ),
    ensures
        final(guard.target()).inv(),
        ({
            let before = old(guard.target())@;
            let after = final(guard.target())@;
            let mark = before.marks.last();
            &&& operations::gives_up_innermost(before, after)
            &&& after.deferred == before.deferred
            &&& match inner {
                ParseResult::CommitOk(_) | ParseResult::PeekOk(_) => {
                    &&& result == inner
                    &&& after.offset == before.offset
                    &&& *final(state) == *old(state)
                },
                ParseResult::CommitErr(err) | ParseResult::PeekErr(err) => if mark.reached
                    - mark.offset <= mark.budget {
                    &&& after.offset == mark.offset
                    &&& if inner is CommitErr && partial && err.is_eoi() {
                        &&& result == inner
                        &&& call_ensures(<State as Default>::default, (), *final(state))
                    } else {
                        &&& result == ParseResult::<T, Input::Error>::PeekErr(err)
                        &&& *final(state) == *old(state)
                    }
                } else {
                    &&& after.offset == before.offset
                    &&& *final(state) == *old(state)
                    &&& result matches ParseResult::CommitErr(noted)
                        && is_noted::<Input>(err, noted)
                },
            }
        }),
{
    operations::lemma_committed(old(guard.target())@);
    operations::lemma_rewound(old(guard.target())@);
}

/// What resolving a checkpoint gives, on any stream with checkpoints, in terms of what the parser
/// behind it gave.
pub proof fn law_resolve<'a, Input, T, S>(
    input: &'a mut Input,
    state: &'a mut CheckpointState<S>,
    inner: ParseResult<T, Input::Error>,
    result: ParseResult<T, Input::Error>,
) where Input: CheckpointStream
    requires
        call_ensures(
            combinator::resolve::<Input, T, S>,
            (input, state, inner),
            result,
        ),
    ensures
        final(input).inv(),
        final(state).inner == old(state).inner,
        !(inner is PeekErr) ==> result == inner,
        match inner {
            ParseResult::CommitOk(_) | ParseResult::PeekOk(_) => {
                &&& Input::commits(*old(input), *final(input))
                &&& !final(state).begun
            },
            ParseResult::PeekErr(err) => {
                &&& !final(state).begun
                &&& exists|reset: Result<(), Input::Error>| #[trigger]
                    Input::rewinds(*old(input), *final(input), reset) && match reset {
                        Ok(_) => result == inner,
                        Err(reason) => result matches ParseResult::CommitErr(merged)
                            && merged.is_merge_of(err, reason),
                    }
            },
            ParseResult::CommitErr(err) => if old(input).partial() && err.is_eoi() {
                *final(input) == *old(input) && final(state).begun == old(state).begun
            } else {
                Input::commits(*old(input), *final(input)) && !final(state).begun
            },
        },
{
}

/// A checkpoint parser has the budget and the parser which it was made with.
pub proof fn law_checkpoint_new<Input, P>(budget: usize, parser: P, made: Checkpoint<P>) where
    Input: StreamOnce + Positioned,
    P: Parser<Stream<Input>>,

    requires
        call_ensures(checkpoint::checkpoint::<Input, P>, (budget, parser), made),
    ensures
        made.budget() == budget,
        made.inner() == parser,
{
}

/// The generic combinator has the budget and the parser which it was made with.
pub proof fn law_generic_checkpoint_new<Input, P>(
    budget: usize,
    parser: P,
    made: Checkpointed<P>,
) where Input: CheckpointStream, P: Parser<Input>
    requires
        call_ensures(combinator::checkpoint::<Input, P>, (budget, parser), made),
    ensures
        made.budget() == budget,
        made.inner() == parser,
{
}

/// Checkpoints can be settled and resolved wherever the stream is sound, and checkpoint parsers can
/// be made of any budget and parser.
pub proof fn law_checkpoints_may_be_settled<'a, Input, Other, T, State, P, Q>(
    guard: CheckpointGuard<'a, Input>,
    partial: bool,
    inner: ParseResult<T, Input::Error>,
    state: &'a mut State,
    other: &'a mut Other,
    other_inner: ParseResult<T, Other::Error>,
    other_state: &'a mut CheckpointState<State>,
    budget: usize,
    parser: P,
    other_parser: Q,
) where
    Input: StreamOnce + Positioned,
    Other: CheckpointStream,
    State: Default,
    P: Parser<Stream<Input>>,
    Q: Parser<Other>,

    requires
        old(guard.target()).inv(),
        old(other).inv(),
    ensures
        call_requires(
            checkpoint::settle::<Input, T, State>,
            (guard, partial, inner, state),
        ),
        call_requires(
            combinator::resolve::<Other, T, State>,
            (other, other_state, other_inner),
        ),
        call_requires(checkpoint::checkpoint::<Input, P>, (budget, parser)),
        call_requires(combinator::checkpoint::<Other, Q>, (budget, other_parser)),
{
}

/// A fresh state of the generic combinator has no checkpoint active, and is one of its parser.
pub proof fn law_fresh_state<S: Default>(state: CheckpointState<S>)
    requires
        call_ensures(<CheckpointState<S> as Default>::default, (), state),
    ensures
        !state.begun,
        call_ensures(<S as Default>::default, (), state.inner),
{
}

/// What is expected of a checkpoint parser is what is expected of its parser.
pub proof fn law_checkpoint_expects_what_its_parser_does<Input, P>(
    before: Checkpoint<P>,
    error: Input::Error,
    after: Checkpoint<P>,
    explained: Input::Error,
) where Input: StreamOnce + Positioned, P: Parser<Stream<Input>>
    ensures
        <Checkpoint<P> as Parser<Stream<Input>>>::explains(before, error, after, explained) <==> {
            &&& P::explains(before.inner(), error, after.inner(), explained)
            &&& after.budget() == before.budget()
        },
        <Checkpoint<P> as Parser<Stream<Input>>>::explains_committed(
            before,
            error,
            after,
            explained,
        ) <==> {
            &&& P::explains_committed(before.inner(), error, after.inner(), explained)
            &&& after.budget() == before.budget()
        },
        <Checkpoint<P> as Parser<Stream<Input>>>::count(&before) == <P as Parser<
            Stream<Input>,
        >>::count(&before.inner()),
{
}

/// What is expected of the generic combinator is what is expected of its parser.
pub proof fn law_generic_checkpoint_expects_what_its_parser_does<Input, P>(
    before: Checkpointed<P>,
    error: Input::Error,
    after: Checkpointed<P>,
    explained: Input::Error,
) where Input: CheckpointStream, P: Parser<Input>
    ensures
        <Checkpointed<P> as Parser<Input>>::explains(before, error, after, explained) <==> {
            &&& P::explains(before.inner(), error, after.inner(), explained)
            &&& after.budget() == before.budget()
        },
        <Checkpointed<P> as Parser<Input>>::explains_committed(
            before,
            error,
            after,
            explained,
        ) <==> {
            &&& P::explains_committed(before.inner(), error, after.inner(), explained)
            &&& after.budget() == before.budget()
        },
        <Checkpointed<P> as Parser<Input>>::count(&before) == <P as Parser<Input>>::count(
            &before.inner(),
        ),
{
}

/// A checkpoint parser may be run wherever its parser may be, behind one more checkpoint.
pub proof fn law_checkpoint_may_be_run<Input, P>(
    mode: ParseMode,
    before: Run<Checkpoint<P>, Stream<Input>, P::PartialState>,
) where Input: StreamOnce + Positioned, P: Parser<Stream<Input>>
    requires
        forall|begun: Stream<Input>|
            begun.inv() && #[trigger] operations::is_begun(
                before.input@,
                before.parser.budget() as nat,
                begun@,
            ) ==> P::can_parse(
                mode,
                Run { parser: before.parser.inner(), input: begun, state: before.state },
            ),
    ensures
        Checkpoint::<P>::can_parse(mode, before),
{
    assert forall|begun: Stream<Input>| #[trigger]
        begun@ == before.input@.begun(before.parser.budget() as nat)
            && begun.inv() implies P::can_parse(
        mode,
        Run { parser: before.parser.inner(), input: begun, state: before.state },
    ) by {
        assert(begun@.marks.drop_last() =~= before.input@.marks);
        assert(operations::is_begun(before.input@, before.parser.budget() as nat, begun@));
    }
}

/// The generic combinator may be run wherever its parser may be, behind its checkpoint.
pub proof fn law_generic_checkpoint_may_be_run<Input, P>(
    mode: ParseMode,
    before: Run<Checkpointed<P>, Input, CheckpointState<P::PartialState>>,
) where Input: CheckpointStream, P: Parser<Input>
    requires
        mode == ParseMode::First || !before.state.begun ==> forall|begun: Input|
            begun.inv() && #[trigger] Input::begins(before.input, before.parser.budget(), begun)
                ==> P::can_parse(
                mode,
                Run { parser: before.parser.inner(), input: begun, state: before.state.inner },
            ),
        mode != ParseMode::First && before.state.begun ==> P::can_parse(
            mode,
            Run { parser: before.parser.inner(), input: before.input, state: before.state.inner },
        ),
    ensures
        Checkpointed::<P>::can_parse(mode, before),
{
    assert forall|begun: Input| #[trigger]
        Checkpointed::<P>::enters(mode, before, begun) && begun.inv() implies P::can_parse(
        mode,
        Run { parser: before.parser.inner(), input: begun, state: before.state.inner },
    ) by {}
}

/// Whether `result` is a failure with `err`, reported where `input` is: committed where more input
/// may arrive, else uncommitted.
pub open spec fn is_failed_read<Input: StreamOnce + Positioned, T>(
    input: Input,
    err: StreamErrorFor<Input>,
    result: ParseResult<T, Input::Error>,
) -> bool {
    exists|position: Input::Position, error: Input::Error|
        {
            &&& input.is_at(position)
            &&& #[trigger] error.is_error_at(position, err)
            &&& input.partial() ==> result == ParseResult::<T, Input::Error>::CommitErr(error)
            &&& !input.partial() ==> result == ParseResult::<T, Input::Error>::PeekErr(error)
        }
}

/// A parser of any token reads once. It commits to a token which it gets, and fails where it gets
/// none.
pub proof fn law_any<Input: StreamOnce + Positioned>(
    mode: ParseMode,
    before: Run<Any, Input, ()>,
    after: Run<Any, Input, ()>,
    result: ParseResult<Input::Token, Input::Error>,
)
    requires
        Any::parses(mode, before, after, result),
    ensures
        exists|read: Result<Input::Token, StreamErrorFor<Input>>| #[trigger]
            Input::unconses(before.input, after.input, read) && match read {
                Ok(token) => result == ParseResult::<Input::Token, Input::Error>::CommitOk(token),
                Err(err) => is_failed_read(after.input, err, result),
            },
        before.input.can_uncons() ==> <Any as Parser<Input>>::can_parse(mode, before),
{
    let read = choose|read: Result<Input::Token, StreamErrorFor<Input>>| #[trigger]
        Input::unconses(before.input, after.input, read) && match read {
            Ok(token) => result == ParseResult::<Input::Token, Input::Error>::CommitOk(token),
            Err(err) => token::fails_with(after.input, err, result),
        };
    assert(Input::unconses(before.input, after.input, read));
    if let Err(err) = read {
        let (position, error) = choose|position: Input::Position, error: Input::Error|
            {
                &&& after.input.is_at(position)
                &&& #[trigger] error.is_error_at(position, err)
                &&& result == if after.input.partial() {
                    ParseResult::<Input::Token, Input::Error>::CommitErr(error)
                } else {
                    ParseResult::<Input::Token, Input::Error>::PeekErr(error)
                }
            };
        assert(error.is_error_at(position, err));
    }
}

/// A parser of any token adds nothing to an error, and is one parser.
pub proof fn law_any_expects_nothing<Input: StreamOnce + Positioned>(
    before: Any,
    error: Input::Error,
    after: Any,
    explained: Input::Error,
    made: Any,
)
    requires
        call_ensures(token::any, (), made),
    ensures
        <Any as Parser<Input>>::explains(before, error, after, explained) ==> explained == error,
        <Any as Parser<Input>>::explains_committed(before, error, after, explained) ==> explained
            == error,
        <Any as Parser<Input>>::count(&made) == 1,
{
}

/// Running a parser, by itself or as a part of another one which has committed, is what its
/// relation says.
pub proof fn law_parse_mode<'a, Input: StreamOnce, P: Parser<Input>>(
    parser: &'a mut P,
    mode: ParseMode,
    input: &'a mut Input,
    state: &'a mut P::PartialState,
    result: ParseResult<P::Output, Input::Error>,
)
    requires
        call_ensures(
            <P as Parser<Input>>::parse_mode_impl,
            (parser, mode, input, state),
            result,
        ) || call_ensures(
            <P as Parser<Input>>::parse_committed_mode,
            (parser, mode, input, state),
            result,
        ),
    ensures
        final(input).inv(),
        P::parses(
            mode,
            Run { parser: *old(parser), input: *old(input), state: *old(state) },
            Run { parser: *final(parser), input: *final(input), state: *final(state) },
            result,
        ),
{
}

/// Parsing a stream once runs the parser from its beginning, in the first mode.
pub proof fn law_parse_stream<'a, Input: StreamOnce, P: Parser<Input>>(
    parser: &'a mut P,
    input: &'a mut Input,
    result: ParseResult<P::Output, Input::Error>,
)
    requires
        call_ensures(<P as Parser<Input>>::parse_stream, (parser, input), result),
    ensures
        final(input).inv(),
        exists|before: P::PartialState, after: P::PartialState|
            parser::is_default(before) && #[trigger] P::parses(
                ParseMode::First,
                Run { parser: *old(parser), input: *old(input), state: before },
                Run { parser: *final(parser), input: *final(input), state: after },
                result,
            ),
{
}

/// Parsing once gives the value and what is left of the input where the parser succeeds, and its
/// error where it fails, whether or not it had committed.
pub proof fn law_parse<'a, Input: StreamOnce, P: Parser<Input>>(
    parser: &'a mut P,
    input: Input,
    result: Result<(P::Output, Input), Input::Error>,
)
    requires
        call_ensures(<P as Parser<Input>>::parse, (parser, input), result),
    ensures
        exists|
            before: P::PartialState,
            after: P::PartialState,
            left: Input,
            inner: ParseResult<P::Output, Input::Error>,
        |
            {
                &&& parser::is_default(before)
                &&& #[trigger] P::parses(
                    ParseMode::First,
                    Run { parser: *old(parser), input, state: before },
                    Run { parser: *final(parser), input: left, state: after },
                    inner,
                )
                &&& left.inv()
                &&& match inner {
                    ParseResult::CommitOk(value) | ParseResult::PeekOk(value) => result
                        == Ok::<(P::Output, Input), Input::Error>((value, left)),
                    ParseResult::CommitErr(err) | ParseResult::PeekErr(err) => result
                        == Err::<(P::Output, Input), Input::Error>(err),
                }
            },
{
}

/// Parsing with a state resumes the parser from it, and leaves it to be resumed again.
pub proof fn law_parse_with_state<'a, Input: StreamOnce, P: Parser<Input>>(
    parser: &'a mut P,
    input: &'a mut Input,
    state: &'a mut P::PartialState,
    result: Result<P::Output, Input::Error>,
)
    requires
        call_ensures(<P as Parser<Input>>::parse_with_state, (parser, input, state), result),
    ensures
        final(input).inv(),
        exists|inner: ParseResult<P::Output, Input::Error>|
            {
                &&& #[trigger] P::parses(
                    ParseMode::Partial,
                    Run { parser: *old(parser), input: *old(input), state: *old(state) },
                    Run { parser: *final(parser), input: *final(input), state: *final(state) },
                    inner,
                )
                &&& match inner {
                    ParseResult::CommitOk(value) | ParseResult::PeekOk(value) => result
                        == Ok::<P::Output, Input::Error>(value),
                    ParseResult::CommitErr(err) | ParseResult::PeekErr(err) => result
                        == Err::<P::Output, Input::Error>(err),
                }
            },
{
}

/// A parser may be asked to parse wherever it may be run, in each of the ways to ask for it.
pub proof fn law_parsers_may_be_called<'a, Input: StreamOnce, P: Parser<Input>>(
    parser: &'a mut P,
    mode: ParseMode,
    input: &'a mut Input,
    state: &'a mut P::PartialState,
)
    requires
        old(input).inv(),
        forall|mode: ParseMode, state: P::PartialState| #[trigger]
            P::can_parse(mode, Run { parser: *old(parser), input: *old(input), state }),
    ensures
        call_requires(<P as Parser<Input>>::parse_mode_impl, (parser, mode, input, state)),
        call_requires(<P as Parser<Input>>::parse_committed_mode, (parser, mode, input, state)),
        call_requires(<P as Parser<Input>>::parse_stream, (parser, input)),
        call_requires(<P as Parser<Input>>::parse, (parser, *old(input))),
        call_requires(<P as Parser<Input>>::parse_with_state, (parser, input, state)),
{
}

/// The first mode is told from the other.
pub proof fn law_is_first(mode: ParseMode, first: bool)
    requires
        call_ensures(ParseMode::is_first, (mode,), first),
    ensures
        first <==> mode == ParseMode::First,
        !first <==> mode == ParseMode::Partial,
{
}

} // verus!
