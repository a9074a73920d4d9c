//! What holds of parsers behind checkpoints.

use vstd::prelude::*;

use crate::error::{ParseError, ParseResult};
use crate::parser::checkpoint;
use crate::parser::checkpoint::Checkpoint;
use crate::parser::combinator;
use crate::parser::combinator::{CheckpointState, Checkpointed};
use crate::parser::token::Any;
use crate::parser::{ParseMode, Parser, Run};
use crate::stream::checkpoint::{CheckpointStream, Stream};
use crate::stream::history;
use crate::stream::history::Step;
use crate::stream::laws;
use crate::stream::model;
use crate::stream::model::StreamModel;
use crate::stream::{Positioned, StreamErrorFor, StreamOnce};

verus! {

/// Whether a parser ends with the checkpoints active with which it started.
pub open spec fn keeps_checkpoints<Input, P>() -> bool where
    Input: StreamOnce + Positioned,
    P: Parser<Stream<Input>>,
 {
    forall|
        mode: ParseMode,
        before: Run<P, Stream<Input>, P::PartialState>,
        after: Run<P, Stream<Input>, P::PartialState>,
        result: ParseResult<P::Output, Input::Error>,
    |
        before.input.inv() && after.input.inv() && #[trigger] P::parses(
            mode,
            before,
            after,
            result,
        ) ==> model::continues(before.input@.marks, after.input@.marks)
}

/// What becomes of a parser behind a checkpoint which was begun on `s`, where the parser leaves
/// the checkpoints as they were. In every case the checkpoint is given up.
///
/// - If it succeeds, its result stands and the stream goes on where the parser left it.
/// - If it fails within the budget, the stream is back where the checkpoint was begun, and the
///   failure is reported as uncommitted. Only a parser which ran out of input while more may
///   arrive is reported as committed, so that it is run again.
/// - If it fails beyond the budget, the failure is committed.
pub proof fn law_settled_checkpoint<Input: StreamOnce + Positioned, T, State: Default>(
    s: StreamModel<Input>,
    budget: nat,
    partial: bool,
    inner: ParseResult<T, Input::Error>,
    left: Stream<Input>,
    left_state: State,
    after: Stream<Input>,
    after_state: State,
    result: ParseResult<T, Input::Error>,
)
    requires
        left.inv(),
        model::continues(s.begun(budget).marks, left@.marks),
        checkpoint::settles(partial, inner, left, left_state, after, after_state, result),
    ensures
        model::continues(s.marks, after@.marks),
        after@.source == left@.source,
        after@.pulled == left@.pulled,
        inner.outcome() is Ok ==> result == inner && after@.offset == left@.offset,
        inner.outcome() is Err && left@.marks.last().read() <= budget ==> {
            &&& after@.offset == s.offset
            &&& result.outcome() == inner.outcome()
            &&& result is CommitErr <==> inner is CommitErr && partial && inner.outcome()->Err_0
                .is_eoi()
        },
        inner.outcome() is Err && left@.marks.last().read() > budget ==> result is CommitErr
            && after@.offset == left@.offset,
{
    model::lemma_continued(s, budget, left@.marks);
}

/// A parser behind a checkpoint which waited for more input and is run again is held to the same
/// budget as if it had not waited: whether its failure is rewound depends on how far it reads
/// past the offset at which it first began, whatever it had read before it waited.
pub proof fn law_resumed_checkpoint_keeps_the_budget<Input, T, State>(
    s: StreamModel<Input>,
    budget: nat,
    first: ParseResult<T, Input::Error>,
    first_left: Stream<Input>,
    first_left_state: State,
    waiting: Stream<Input>,
    waiting_state: State,
    resumed: StreamModel<Input>,
    states: Seq<StreamModel<Input>>,
    steps: Seq<Step<Input>>,
    partial: bool,
    inner: ParseResult<T, Input::Error>,
    left: Stream<Input>,
    left_state: State,
    after: Stream<Input>,
    after_state: State,
    result: ParseResult<T, Input::Error>,
) where Input: StreamOnce + Positioned, State: Default
    requires
        first_left.inv(),
        model::continues(s.begun(budget).marks, first_left@.marks),
        first_left@.can_rewind(),
        first matches ParseResult::CommitErr(err) && err.is_eoi(),
        checkpoint::settles(
            true,
            first,
            first_left,
            first_left_state,
            waiting,
            waiting_state,
            first,
        ),
        resumed == (StreamModel { source: resumed.source, ..waiting@ }),
        states[0] == resumed.begun(budget),
        history::is_run(states, steps),
        history::is_balanced(steps),
        left@ == states.last(),
        inner.outcome() is Err,
        checkpoint::settles(partial, inner, left, left_state, after, after_state, result),
    ensures
        resumed.offset == s.offset,
        model::continues(s.marks, resumed.marks),
        model::continues(resumed.marks, after@.marks),
        ({
            let read = history::furthest_read(states, steps, s.offset) - s.offset;
            &&& read <= budget ==> {
                &&& after@.offset == s.offset
                &&& result.outcome() == inner.outcome()
                &&& result is CommitErr <==> inner is CommitErr && partial && inner.outcome()->Err_0
                    .is_eoi()
            }
            &&& read > budget ==> result is CommitErr && after@.offset == left@.offset
        }),
{
    law_settled_checkpoint(
        s,
        budget,
        true,
        first,
        first_left,
        first_left_state,
        waiting,
        waiting_state,
        first,
    );
    assert(states.last().inv());
    laws::law_inner_checkpoints_keep_outer(resumed, budget, states, steps);
    law_settled_checkpoint(
        resumed,
        budget,
        partial,
        inner,
        left,
        left_state,
        after,
        after_state,
        result,
    );
}

/// A failure of a checkpoint parser which is reported as uncommitted leaves the stream where it
/// was, with the checkpoints which were active. So does, for the checkpoints, every other result.
pub proof fn law_uncommitted_failure_rewinds<Input, P>(
    mode: ParseMode,
    before: Run<Checkpoint<P>, Stream<Input>, P::PartialState>,
    after: Run<Checkpoint<P>, Stream<Input>, P::PartialState>,
    result: ParseResult<P::Output, Input::Error>,
) where Input: StreamOnce + Positioned, P: Parser<Stream<Input>>
    requires
        keeps_checkpoints::<Input, P>(),
        before.input.inv(),
        Checkpoint::<P>::parses(mode, before, after, result),
    ensures
        model::continues(before.input@.marks, after.input@.marks),
        result is PeekErr ==> after.input@.offset == before.input@.offset,
{
    let budget = before.parser.budget() as nat;
    let (begun, left, inner) = choose|
        begun: Stream<Input>,
        left: Run<P, Stream<Input>, P::PartialState>,
        inner: ParseResult<P::Output, Input::Error>,
    |
        {
            &&& begun@ == before.input@.begun(budget)
            &&& begun.inv()
            &&& left.input.inv()
            &&& #[trigger] P::parses(
                mode,
                Run { parser: before.parser.inner(), input: begun, state: before.state },
                left,
                inner,
            )
            &&& after.parser.inner() == left.parser
            &&& checkpoint::settles(
                before.input.partial(),
                inner,
                left.input,
                left.state,
                after.input,
                after.state,
                result,
            )
        };
    law_settled_checkpoint(
        before.input@,
        budget,
        before.input.partial(),
        inner,
        left.input,
        left.state,
        after.input,
        after.state,
        result,
    );
}

/// Checkpoint parsers nest: a checkpoint around a parser which leaves the checkpoints as they
/// were is such a parser again.
pub proof fn law_checkpoint_keeps_checkpoints<Input, P>() where
    Input: StreamOnce + Positioned,
    P: Parser<Stream<Input>>,

    requires
        keeps_checkpoints::<Input, P>(),
    ensures
        keeps_checkpoints::<Input, Checkpoint<P>>(),
{
    assert forall|
        mode: ParseMode,
        before: Run<Checkpoint<P>, Stream<Input>, P::PartialState>,
        after: Run<Checkpoint<P>, Stream<Input>, P::PartialState>,
        result: ParseResult<P::Output, Input::Error>,
    |
        before.input.inv() && after.input.inv() && #[trigger] Checkpoint::<P>::parses(
            mode,
            before,
            after,
            result,
        ) implies model::continues(before.input@.marks, after.input@.marks) by {
        law_uncommitted_failure_rewinds::<Input, P>(mode, before, after, result);
    }
}

/// What becomes of a parser behind a checkpoint of the generic combinator, on a checkpointed
/// stream, where the parser leaves the checkpoints as they were.
///
/// - If it succeeds, its result stands, the stream goes on where the parser left it and the
///   checkpoint is given up.
/// - If it fails without committing, within the budget, the stream is back where the checkpoint
///   was begun and the failure stays uncommitted; beyond the budget the failure is committed.
/// - If it fails after committing, the failure stays committed. The checkpoint stays active
///   exactly where the parser ran out of input while more may arrive.
pub proof fn law_resolved_checkpoint<Input: StreamOnce + Positioned, T, S>(
    s: StreamModel<Input>,
    budget: nat,
    inner: ParseResult<T, Input::Error>,
    left: Stream<Input>,
    left_state: CheckpointState<S>,
    after: Stream<Input>,
    after_state: CheckpointState<S>,
    result: ParseResult<T, Input::Error>,
)
    requires
        left.inv(),
        model::continues(s.begun(budget).marks, left@.marks),
        left_state.begun,
        combinator::resolves(inner, left, left_state, after, after_state, result),
    ensures
        after@.source == left@.source,
        after@.pulled == left@.pulled,
        after_state.begun <==> inner is CommitErr && left.partial() && inner.outcome()->Err_0
            .is_eoi(),
        after_state.begun ==> after@ == left@,
        !after_state.begun ==> model::continues(s.marks, after@.marks),
        inner.outcome() is Ok || inner is CommitErr ==> result == inner && after@.offset
            == left@.offset,
        inner is PeekErr && left@.marks.last().read() <= budget ==> result == inner && after@.offset
            == s.offset,
        inner is PeekErr && left@.marks.last().read() > budget ==> result is CommitErr
            && after@.offset == left@.offset,
{
    model::lemma_continued(s, budget, left@.marks);
}

/// Reading a token leaves the checkpoints as they were.
pub proof fn law_any_keeps_checkpoints<Input: StreamOnce + Positioned>()
    ensures
        keeps_checkpoints::<Input, Any>(),
{
    assert forall|
        mode: ParseMode,
        before: Run<Any, Stream<Input>, ()>,
        after: Run<Any, Stream<Input>, ()>,
        result: ParseResult<Input::Token, Input::Error>,
    |
        before.input.inv() && after.input.inv() && #[trigger] Any::parses(
            mode,
            before,
            after,
            result,
        ) implies model::continues(before.input@.marks, after.input@.marks) by {
        let read = choose|read: Result<Input::Token, StreamErrorFor<Input>>| #[trigger]
            Stream::<Input>::unconses(before.input, after.input, read);
        assert(before.input@.unconses(after.input@, read));
    }
}

/// Whether `result`, with `input` left, is that of a parser which ran out of input while more may
/// arrive, and is to be run again.
pub open spec fn waits<Input: StreamOnce, T>(
    input: Input,
    result: ParseResult<T, Input::Error>,
) -> bool {
    result matches ParseResult::CommitErr(err) && err.is_eoi() && input.partial()
}

/// Whether a parser which starts from its beginning ends with the checkpoints active with which
/// it started, unless it waits for more input.
pub open spec fn keeps_checkpoints_unless_waiting<Input, P>() -> bool where
    Input: StreamOnce + Positioned,
    P: Parser<Stream<Input>>,
 {
    forall|
        before: Run<P, Stream<Input>, P::PartialState>,
        after: Run<P, Stream<Input>, P::PartialState>,
        result: ParseResult<P::Output, Input::Error>,
    |
        before.input.inv() && after.input.inv() && #[trigger] P::parses(
            ParseMode::First,
            before,
            after,
            result,
        ) && !waits(after.input, result) ==> model::continues(
            before.input@.marks,
            after.input@.marks,
        )
}

/// A parser which always leaves the checkpoints as they were does so where it does not wait.
pub proof fn law_keeping_checkpoints_is_enough<Input, P>() where
    Input: StreamOnce + Positioned,
    P: Parser<Stream<Input>>,

    requires
        keeps_checkpoints::<Input, P>(),
    ensures
        keeps_checkpoints_unless_waiting::<Input, P>(),
{
}

/// What a run of the generic combinator from its beginning does to the checkpoints, where its
/// parser leaves them as they were unless it waits. Unless the combinator waits, they are as they
/// were. An uncommitted failure leaves the stream where it was.
pub proof fn law_generic_checkpoint_from_beginning<Input, P>(
    before: Run<Checkpointed<P>, Stream<Input>, CheckpointState<P::PartialState>>,
    after: Run<Checkpointed<P>, Stream<Input>, CheckpointState<P::PartialState>>,
    result: ParseResult<P::Output, Input::Error>,
) where Input: StreamOnce + Positioned, P: Parser<Stream<Input>>
    requires
        keeps_checkpoints_unless_waiting::<Input, P>(),
        before.input.inv(),
        Checkpointed::<P>::parses(ParseMode::First, before, after, result),
    ensures
        !waits(after.input, result) ==> model::continues(before.input@.marks, after.input@.marks)
            && !after.state.begun,
        result is PeekErr ==> after.input@.offset == before.input@.offset,
{
    let s = before.input@;
    let budget = before.parser.budget() as nat;
    let (begun, left, inner) = choose|
        begun: Stream<Input>,
        left: Run<P, Stream<Input>, P::PartialState>,
        inner: ParseResult<P::Output, Input::Error>,
    |
        {
            &&& Checkpointed::<P>::enters(ParseMode::First, before, begun)
            &&& begun.inv()
            &&& left.input.inv()
            &&& #[trigger] P::parses(
                ParseMode::First,
                Run { parser: before.parser.inner(), input: begun, state: before.state.inner },
                left,
                inner,
            )
            &&& after.parser.inner() == left.parser
            &&& combinator::resolves(
                inner,
                left.input,
                CheckpointState { begun: true, inner: left.state },
                after.input,
                after.state,
                result,
            )
        };
    if !waits(left.input, inner) {
        law_resolved_checkpoint(
            s,
            budget,
            inner,
            left.input,
            CheckpointState { begun: true, inner: left.state },
            after.input,
            after.state,
            result,
        );
    }
}

/// Checkpoint parsers of the generic combinator nest: a checkpoint around a parser which leaves
/// the checkpoints as they were unless it waits is such a parser again.
pub proof fn law_generic_checkpoint_keeps_checkpoints<Input, P>() where
    Input: StreamOnce + Positioned,
    P: Parser<Stream<Input>>,

    requires
        keeps_checkpoints_unless_waiting::<Input, P>(),
    ensures
        keeps_checkpoints_unless_waiting::<Input, Checkpointed<P>>(),
{
    assert forall|
        before: Run<Checkpointed<P>, Stream<Input>, CheckpointState<P::PartialState>>,
        after: Run<Checkpointed<P>, Stream<Input>, CheckpointState<P::PartialState>>,
        result: ParseResult<P::Output, Input::Error>,
    |
        before.input.inv() && after.input.inv() && #[trigger] Checkpointed::<P>::parses(
            ParseMode::First,
            before,
            after,
            result,
        ) && !waits(after.input, result) implies model::continues(
        before.input@.marks,
        after.input@.marks,
    ) by {
        law_generic_checkpoint_from_beginning::<Input, P>(before, after, result);
    }
}

/// Whether `held` tells of the state of a parser how many checkpoints it holds active while it
/// waits, where `ready` tells whether the parser can be resumed from it.
///
/// Such a parser ends with the checkpoints active with which it first started, and with those
/// which it holds. It holds none but while it waits.
pub open spec fn holds_checkpoints<Input, P>(
    held: spec_fn(P::PartialState) -> nat,
    ready: spec_fn(P::PartialState) -> bool,
) -> bool where Input: StreamOnce + Positioned, P: Parser<Stream<Input>> {
    forall|
        mode: ParseMode,
        before: Run<P, Stream<Input>, P::PartialState>,
        after: Run<P, Stream<Input>, P::PartialState>,
        result: ParseResult<P::Output, Input::Error>,
    |
        {
            &&& before.input.inv()
            &&& after.input.inv()
            &&& #[trigger] P::parses(mode, before, after, result)
            &&& mode == ParseMode::First || ready(before.state) && held(before.state)
                <= before.input@.marks.len()
        } ==> {
            let base = before.input@.marks.len() - if mode == ParseMode::First {
                0
            } else {
                held(before.state)
            };
            &&& ready(after.state)
            &&& after.input@.marks.len() == base + held(after.state)
            &&& model::continues(before.input@.marks.take(base), after.input@.marks.take(base))
            &&& held(after.state) > 0 ==> waits(after.input, result)
        }
}

/// No checkpoints, whatever the state.
pub open spec fn holds_none<S>() -> spec_fn(S) -> nat {
    |state: S| 0
}

/// Every state.
pub open spec fn always_ready<S>() -> spec_fn(S) -> bool {
    |state: S| true
}

/// The checkpoints which the generic combinator holds: its own, and those of its parser.
pub open spec fn held_behind<S>(held: spec_fn(S) -> nat) -> spec_fn(CheckpointState<S>) -> nat {
    |state: CheckpointState<S>|
        if state.begun {
            1 + held(state.inner)
        } else {
            0
        }
}

/// The states from which the generic combinator can be resumed.
pub open spec fn ready_behind<S>(
    held: spec_fn(S) -> nat,
    ready: spec_fn(S) -> bool,
) -> spec_fn(CheckpointState<S>) -> bool {
    |state: CheckpointState<S>|
        ready(state.inner) && (!state.begun ==> held(state.inner) == 0)
}

/// A parser which always leaves the checkpoints as they were holds none.
pub proof fn law_keeping_checkpoints_holds_none<Input, P>() where
    Input: StreamOnce + Positioned,
    P: Parser<Stream<Input>>,

    requires
        keeps_checkpoints::<Input, P>(),
    ensures
        holds_checkpoints::<Input, P>(holds_none(), always_ready()),
{
    assert forall|
        mode: ParseMode,
        before: Run<P, Stream<Input>, P::PartialState>,
        after: Run<P, Stream<Input>, P::PartialState>,
        result: ParseResult<P::Output, Input::Error>,
    |
        before.input.inv() && after.input.inv() && #[trigger] P::parses(
            mode,
            before,
            after,
            result,
        ) implies ({
        let base = before.input@.marks.len() as int;
        &&& after.input@.marks.len() == base
        &&& model::continues(before.input@.marks.take(base), after.input@.marks.take(base))
    }) by {
        let base = before.input@.marks.len() as int;
        assert(before.input@.marks.take(base) =~= before.input@.marks);
        assert(after.input@.marks.take(base) =~= after.input@.marks);
    }
}

/// What becomes of a run of the generic combinator on a checkpointed stream, where its parser may
/// hold checkpoints of its own while it waits. `s` is the stream on which the checkpoint was
/// begun, with `budget`: the input, or the input of an earlier call where the parser resumes.
///
/// An uncommitted failure leaves the stream where the checkpoint was begun. The checkpoint is
/// active afterwards exactly if the state says so, and then only while the parser waits, with
/// what the parser holds inside it; the checkpoints around it stay active in any case.
pub proof fn law_generic_checkpoint<Input, P>(
    s: StreamModel<Input>,
    budget: nat,
    mode: ParseMode,
    before: Run<Checkpointed<P>, Stream<Input>, CheckpointState<P::PartialState>>,
    after: Run<Checkpointed<P>, Stream<Input>, CheckpointState<P::PartialState>>,
    result: ParseResult<P::Output, Input::Error>,
    held: spec_fn(P::PartialState) -> nat,
    ready: spec_fn(P::PartialState) -> bool,
) where Input: StreamOnce + Positioned, P: Parser<Stream<Input>>
    requires
        holds_checkpoints::<Input, P>(held, ready),
        before.input.inv(),
        mode == ParseMode::First || ready_behind(held, ready)(before.state),
        if mode == ParseMode::First || !before.state.begun {
            s == before.input@ && budget == before.parser.budget()
        } else {
            &&& before.input@.marks.len() == s.marks.len() + 1 + held(before.state.inner)
            &&& model::continues(
                s.begun(budget).marks,
                before.input@.marks.take(s.marks.len() as int + 1),
            )
        },
        Checkpointed::<P>::parses(mode, before, after, result),
    ensures
        result is PeekErr ==> after.input@.offset == s.offset && !after.state.begun,
        ready_behind(held, ready)(after.state),
        if after.state.begun {
            &&& waits(after.input, result)
            &&& after.input@.marks.len() == s.marks.len() + 1 + held(after.state.inner)
            &&& model::continues(
                s.begun(budget).marks,
                after.input@.marks.take(s.marks.len() as int + 1),
            )
        } else {
            model::continues(s.marks, after.input@.marks)
        },
{
    let base = (s.marks.len() + 1) as int;
    let (begun, left, inner) = choose|
        begun: Stream<Input>,
        left: Run<P, Stream<Input>, P::PartialState>,
        inner: ParseResult<P::Output, Input::Error>,
    |
        {
            &&& Checkpointed::<P>::enters(mode, before, begun)
            &&& begun.inv()
            &&& left.input.inv()
            &&& #[trigger] P::parses(
                mode,
                Run { parser: before.parser.inner(), input: begun, state: before.state.inner },
                left,
                inner,
            )
            &&& after.parser.inner() == left.parser
            &&& combinator::resolves(
                inner,
                left.input,
                CheckpointState { begun: true, inner: left.state },
                after.input,
                after.state,
                result,
            )
        };
    assert(model::continues(s.begun(budget).marks, begun@.marks.take(base)));
    assert(model::continues(begun@.marks.take(base), left.input@.marks.take(base)));
    model::lemma_continues_transitive(
        s.begun(budget).marks,
        begun@.marks.take(base),
        left.input@.marks.take(base),
    );
    if !waits(left.input, inner) {
        assert(left.input@.marks.take(base) =~= left.input@.marks);
        law_resolved_checkpoint(
            s,
            budget,
            inner,
            left.input,
            CheckpointState { begun: true, inner: left.state },
            after.input,
            after.state,
            result,
        );
    }
}

/// A checkpoint of the generic combinator around a parser which may hold checkpoints while it
/// waits is such a parser again, to any depth: it holds its own checkpoint as well.
pub proof fn law_generic_checkpoint_holds_its_own<Input, P>(
    held: spec_fn(P::PartialState) -> nat,
    ready: spec_fn(P::PartialState) -> bool,
) where Input: StreamOnce + Positioned, P: Parser<Stream<Input>>
    requires
        holds_checkpoints::<Input, P>(held, ready),
    ensures
        holds_checkpoints::<Input, Checkpointed<P>>(held_behind(held), ready_behind(held, ready)),
{
    let outer_held = held_behind(held);
    let outer_ready = ready_behind(held, ready);
    assert forall|
        mode: ParseMode,
        before: Run<Checkpointed<P>, Stream<Input>, CheckpointState<P::PartialState>>,
        after: Run<Checkpointed<P>, Stream<Input>, CheckpointState<P::PartialState>>,
        result: ParseResult<P::Output, Input::Error>,
    |
        {
            &&& before.input.inv()
            &&& after.input.inv()
            &&& #[trigger] Checkpointed::<P>::parses(mode, before, after, result)
            &&& mode == ParseMode::First || outer_ready(before.state) && outer_held(before.state)
                <= before.input@.marks.len()
        } implies ({
        let base = before.input@.marks.len() - if mode == ParseMode::First {
            0
        } else {
            outer_held(before.state)
        };
        &&& outer_ready(after.state)
        &&& after.input@.marks.len() == base + outer_held(after.state)
        &&& model::continues(before.input@.marks.take(base), after.input@.marks.take(base))
        &&& outer_held(after.state) > 0 ==> waits(after.input, result)
    }) by {
        let all = before.input@.marks;
        let resumes = mode != ParseMode::First && before.state.begun;
        let base = if resumes {
            all.len() - outer_held(before.state)
        } else {
            all.len() as int
        };
        // The stream on which the checkpoint was begun, as far as it is known
        let s = if resumes {
            StreamModel { marks: all.take(base), offset: all[base].offset, ..before.input@ }
        } else {
            before.input@
        };
        let budget = if resumes {
            all[base].budget
        } else {
            before.parser.budget() as nat
        };
        if resumes {
            let begun = s.begun(budget).marks;
            assert(before.input@.inv());
            assert forall|i: int| 0 <= i < begun.len() implies all.take(base + 1)[i].offset
                == begun[i].offset && all.take(base + 1)[i].budget == begun[i].budget
                && begun[i].reached <= (#[trigger] all.take(base + 1)[i]).reached by {
                assert(all[i].offset <= all[i].reached);
            }
        }
        assert(s.marks =~= all.take(base));
        law_generic_checkpoint::<Input, P>(s, budget, mode, before, after, result, held, ready);
        let kept = after.input@.marks.take(base);
        if after.state.begun {
            let longer = after.input@.marks.take(base + 1);
            assert forall|i: int| 0 <= i < base implies kept[i].offset == s.marks[i].offset
                && kept[i].budget == s.marks[i].budget && s.marks[i].reached <= (
            #[trigger] kept[i]).reached by {
                assert(longer[i] == kept[i]);
                assert(s.begun(budget).marks[i] == s.marks[i]);
            }
        } else {
            assert(kept =~= after.input@.marks);
        }
    }
}

/// A checkpoint of the generic combinator directly inside another, around a parser which leaves
/// the checkpoints as they were, resumed while both wait: an uncommitted failure leaves the
/// stream where the outer one was begun, on `s`, with the checkpoints active which were active
/// there. Unless the outer one goes on waiting, neither stays active.
pub proof fn law_nested_generic_checkpoints_resume<Input, P>(
    s: StreamModel<Input>,
    budget: nat,
    before: Run<
        Checkpointed<Checkpointed<P>>,
        Stream<Input>,
        CheckpointState<CheckpointState<P::PartialState>>,
    >,
    after: Run<
        Checkpointed<Checkpointed<P>>,
        Stream<Input>,
        CheckpointState<CheckpointState<P::PartialState>>,
    >,
    result: ParseResult<P::Output, Input::Error>,
) where Input: StreamOnce + Positioned, P: Parser<Stream<Input>>
    requires
        keeps_checkpoints::<Input, P>(),
        before.input.inv(),
        before.state.begun,
        before.state.inner.begun,
        before.input@.marks.len() == s.marks.len() + 2,
        model::continues(
            s.begun(budget).marks,
            before.input@.marks.take(s.marks.len() as int + 1),
        ),
        Checkpointed::<Checkpointed<P>>::parses(ParseMode::Partial, before, after, result),
    ensures
        result is PeekErr ==> after.input@.offset == s.offset && model::continues(
            s.marks,
            after.input@.marks,
        ),
        !after.state.begun ==> model::continues(s.marks, after.input@.marks),
        after.state.begun ==> waits(after.input, result),
{
    law_keeping_checkpoints_holds_none::<Input, P>();
    law_generic_checkpoint_holds_its_own::<Input, P>(holds_none(), always_ready());
    law_generic_checkpoint::<Input, Checkpointed<P>>(
        s,
        budget,
        ParseMode::Partial,
        before,
        after,
        result,
        held_behind(holds_none()),
        ready_behind(holds_none(), always_ready()),
    );
}

/// Whether a parser does nothing to the stream but operate on it.
pub open spec fn only_operates<Input, P>() -> bool where
    Input: StreamOnce + Positioned,
    P: Parser<Stream<Input>>,
 {
    forall|
        mode: ParseMode,
        before: Run<P, Stream<Input>, P::PartialState>,
        after: Run<P, Stream<Input>, P::PartialState>,
        result: ParseResult<P::Output, Input::Error>,
    |
        before.input.inv() && after.input.inv() && #[trigger] P::parses(
            mode,
            before,
            after,
            result,
        ) ==> history::reaches(before.input@, after.input@)
}

/// Reading a token does nothing to the stream but read.
pub proof fn law_any_only_operates<Input: StreamOnce + Positioned>()
    ensures
        only_operates::<Input, Any>(),
{
    assert forall|
        mode: ParseMode,
        before: Run<Any, Stream<Input>, ()>,
        after: Run<Any, Stream<Input>, ()>,
        result: ParseResult<Input::Token, Input::Error>,
    |
        before.input.inv() && after.input.inv() && #[trigger] Any::parses(
            mode,
            before,
            after,
            result,
        ) implies history::reaches(before.input@, after.input@) by {
        let read = choose|read: Result<Input::Token, StreamErrorFor<Input>>| #[trigger]
            Stream::<Input>::unconses(before.input, after.input, read);
        history::lemma_step_reaches(before.input@, Step::Read(read), after.input@);
    }
}

/// A checkpoint around a parser which only operates on the stream only operates on it.
pub proof fn law_checkpoint_only_operates<Input, P>() where
    Input: StreamOnce + Positioned,
    P: Parser<Stream<Input>>,

    requires
        only_operates::<Input, P>(),
    ensures
        only_operates::<Input, Checkpoint<P>>(),
{
    assert forall|
        mode: ParseMode,
        before: Run<Checkpoint<P>, Stream<Input>, P::PartialState>,
        after: Run<Checkpoint<P>, Stream<Input>, P::PartialState>,
        result: ParseResult<P::Output, Input::Error>,
    |
        before.input.inv() && after.input.inv() && #[trigger] Checkpoint::<P>::parses(
            mode,
            before,
            after,
            result,
        ) implies history::reaches(before.input@, after.input@) by {
        let budget = before.parser.budget() as nat;
        let (begun, left, inner) = choose|
            begun: Stream<Input>,
            left: Run<P, Stream<Input>, P::PartialState>,
            inner: ParseResult<P::Output, Input::Error>,
        |
            {
                &&& begun@ == before.input@.begun(budget)
                &&& begun.inv()
                &&& left.input.inv()
                &&& #[trigger] P::parses(
                    mode,
                    Run { parser: before.parser.inner(), input: begun, state: before.state },
                    left,
                    inner,
                )
                &&& after.parser.inner() == left.parser
                &&& checkpoint::settles(
                    before.input.partial(),
                    inner,
                    left.input,
                    left.state,
                    after.input,
                    after.state,
                    result,
                )
            };
        let end: Step<Input> = if inner.outcome() is Ok || !left.input@.can_rewind() {
            Step::Commit
        } else {
            Step::Reset(Ok(()))
        };
        history::lemma_step_reaches(before.input@, Step::Begin(budget), begun@);
        history::lemma_step_reaches(left.input@, end, after.input@);
        history::lemma_reaches_transitive(before.input@, begun@, left.input@);
        history::lemma_reaches_transitive(before.input@, left.input@, after.input@);
    }
}

/// A checkpoint of the generic combinator around a parser which only operates on the stream only
/// operates on it.
pub proof fn law_generic_checkpoint_only_operates<Input, P>() where
    Input: StreamOnce + Positioned,
    P: Parser<Stream<Input>>,

    requires
        only_operates::<Input, P>(),
    ensures
        only_operates::<Input, Checkpointed<P>>(),
{
    assert forall|
        mode: ParseMode,
        before: Run<Checkpointed<P>, Stream<Input>, CheckpointState<P::PartialState>>,
        after: Run<Checkpointed<P>, Stream<Input>, CheckpointState<P::PartialState>>,
        result: ParseResult<P::Output, Input::Error>,
    |
        before.input.inv() && after.input.inv() && #[trigger] Checkpointed::<P>::parses(
            mode,
            before,
            after,
            result,
        ) implies history::reaches(before.input@, after.input@) by {
        let budget = before.parser.budget() as nat;
        let (begun, left, inner) = choose|
            begun: Stream<Input>,
            left: Run<P, Stream<Input>, P::PartialState>,
            inner: ParseResult<P::Output, Input::Error>,
        |
            {
                &&& Checkpointed::<P>::enters(mode, before, begun)
                &&& begun.inv()
                &&& left.input.inv()
                &&& #[trigger] P::parses(
                    mode,
                    Run { parser: before.parser.inner(), input: begun, state: before.state.inner },
                    left,
                    inner,
                )
                &&& after.parser.inner() == left.parser
                &&& combinator::resolves(
                    inner,
                    left.input,
                    CheckpointState { begun: true, inner: left.state },
                    after.input,
                    after.state,
                    result,
                )
            };
        let start: Step<Input> = if mode == ParseMode::First || !before.state.begun {
            Step::Begin(budget)
        } else {
            Step::Look
        };
        let end: Step<Input> = if inner is PeekErr {
            Step::Reset(
                choose|reset: Result<(), Input::Error>| #[trigger]
                    Stream::<Input>::rewinds(left.input, after.input, reset),
            )
        } else if after.input@ == left.input@ {
            Step::Look
        } else {
            Step::Commit
        };
        history::lemma_step_reaches(before.input@, start, begun@);
        history::lemma_step_reaches(left.input@, end, after.input@);
        history::lemma_reaches_transitive(before.input@, begun@, left.input@);
        history::lemma_reaches_transitive(before.input@, left.input@, after.input@);
    }
}

/// After an uncommitted failure of a checkpoint parser, an alternative finds the stream as it
/// was: at the same offset, with the same checkpoints active, and with the same tokens and
/// positions retained from there on.
pub proof fn law_uncommitted_failure_restores<Input, P>(
    mode: ParseMode,
    before: Run<Checkpoint<P>, Stream<Input>, P::PartialState>,
    after: Run<Checkpoint<P>, Stream<Input>, P::PartialState>,
    result: ParseResult<P::Output, Input::Error>,
) where Input: StreamOnce + Positioned, P: Parser<Stream<Input>>
    requires
        keeps_checkpoints::<Input, P>(),
        only_operates::<Input, P>(),
        before.input.inv(),
        after.input.inv(),
        Checkpoint::<P>::parses(mode, before, after, result),
        result is PeekErr,
    ensures
        after.input@.offset == before.input@.offset,
        model::continues(before.input@.marks, after.input@.marks),
        history::keeps_tokens(before.input@, after.input@),
        after.input@.start() <= before.input@.offset,
{
    law_uncommitted_failure_rewinds::<Input, P>(mode, before, after, result);
    law_checkpoint_only_operates::<Input, P>();
    history::lemma_reaches_keeps_tokens(before.input@, after.input@);
}

/// After an uncommitted failure of the generic combinator, which started from its beginning, an
/// alternative finds the stream as it was: at the same offset, with the same checkpoints active,
/// and with the same tokens and positions retained from there on.
pub proof fn law_generic_uncommitted_failure_restores<Input, P>(
    before: Run<Checkpointed<P>, Stream<Input>, CheckpointState<P::PartialState>>,
    after: Run<Checkpointed<P>, Stream<Input>, CheckpointState<P::PartialState>>,
    result: ParseResult<P::Output, Input::Error>,
) where Input: StreamOnce + Positioned, P: Parser<Stream<Input>>
    requires
        keeps_checkpoints_unless_waiting::<Input, P>(),
        only_operates::<Input, P>(),
        before.input.inv(),
        after.input.inv(),
        Checkpointed::<P>::parses(ParseMode::First, before, after, result),
        result is PeekErr,
    ensures
        after.input@.offset == before.input@.offset,
        model::continues(before.input@.marks, after.input@.marks),
        history::keeps_tokens(before.input@, after.input@),
        after.input@.start() <= before.input@.offset,
{
    law_generic_checkpoint_from_beginning::<Input, P>(before, after, result);
    law_generic_checkpoint_only_operates::<Input, P>();
    history::lemma_reaches_keeps_tokens(before.input@, after.input@);
}

} // verus!
