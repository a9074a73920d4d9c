//! Bounded checkpoint combinator for any stream which supports checkpoints.
//!
//! [`checkpoint`] commits its checkpoint when its parser succeeds and resets to it when the parser
//! fails without committing. A committed failure stays committed, as if there were no checkpoint.
//! While the parser waits for more input its checkpoint stays active.

use vstd::prelude::*;

use crate::error::{ParseError, ParseResult};
use crate::parser;
use crate::parser::{ParseMode, Parser, Run};
use crate::stream::checkpoint::CheckpointStream;
use crate::stream::StreamOnce;

verus! {

/// What a checkpoint parser keeps while it waits for more input.
pub struct CheckpointState<S> {
    /// Whether the checkpoint is active.
    pub begun: bool,
    /// What the parser behind the checkpoint keeps.
    pub inner: S,
}

impl<S: Default> Default for CheckpointState<S> {
    fn default() -> (state: Self)
        ensures
            !state.begun,
            parser::is_default(state.inner),
    {
        CheckpointState { begun: false, inner: Default::default() }
    }
}

/// Whether a checkpoint on `before`, behind which a parser gave `inner`, may be resolved with
/// `result`, leaving `after` and `after_state`.
pub open spec fn resolves<Input: CheckpointStream, T, S>(
    inner: ParseResult<T, Input::Error>,
    before: Input,
    before_state: CheckpointState<S>,
    after: Input,
    after_state: CheckpointState<S>,
    result: ParseResult<T, Input::Error>,
) -> bool {
    match inner {
        ParseResult::CommitOk(_) | ParseResult::PeekOk(_) => {
            &&& result == inner
            &&& Input::commits(before, after)
            &&& after_state == CheckpointState { begun: false, ..before_state }
        },
        ParseResult::PeekErr(err) => {
            &&& exists|reset: Result<(), Input::Error>| #[trigger]
                Input::rewinds(before, after, reset) && match reset {
                    Ok(_) => result == inner,
                    Err(reason) => result matches ParseResult::CommitErr(merged)
                        && merged.is_merge_of(err, reason),
                }
            &&& after_state == CheckpointState { begun: false, ..before_state }
        },
        ParseResult::CommitErr(err) => {
            &&& result == inner
            &&& if before.partial() && err.is_eoi() {
                &&& after == before
                &&& after_state == before_state
            } else {
                &&& Input::commits(before, after)
                &&& after_state == CheckpointState { begun: false, ..before_state }
            }
        },
    }
}

/// Resolves a checkpoint, given what the parser behind it returned: commits it, resets to it, or
/// leaves it active for a parser which waits for more input.
pub fn resolve<Input, T, S>(
    input: &mut Input,
    state: &mut CheckpointState<S>,
    inner: ParseResult<T, Input::Error>,
) -> (result: ParseResult<T, Input::Error>) where Input: CheckpointStream
    requires
        old(input).inv(),
    ensures
        final(input).inv(),
        resolves(inner, *old(input), *old(state), *final(input), *final(state), result),
{
    match inner {
        ParseResult::CommitOk(x) => {
            input.commit_checkpoint();
            state.begun = false;
            ParseResult::CommitOk(x)
        },
        ParseResult::PeekOk(x) => {
            input.commit_checkpoint();
            state.begun = false;
            ParseResult::PeekOk(x)
        },
        ParseResult::PeekErr(err) => {
            state.begun = false;
            let reset = input.reset_checkpoint();
            assert(Input::rewinds(*old(input), *input, reset));
            match reset {
                Ok(()) => ParseResult::PeekErr(err),
                // The budget was exceeded: the failure is committed, and merging keeps the
                // error at the furthest position.
                Err(reason) => ParseResult::CommitErr(err.merge(reason)),
            }
        },
        ParseResult::CommitErr(err) => {
            if input.is_partial() && err.is_unexpected_end_of_input() {
                // The parser waits for more input, its checkpoint stays active.
                ParseResult::CommitErr(err)
            } else {
                input.commit_checkpoint();
                state.begun = false;
                ParseResult::CommitErr(err)
            }
        },
    }
}

/// Parser returned by [`checkpoint`].
#[derive(Copy, Clone)]
pub struct Checkpointed<P> {
    budget: usize,
    parser: P,
}

impl<P> Checkpointed<P> {
    /// How many tokens the parser may read and still be rewound.
    pub closed spec fn budget(self) -> usize {
        self.budget
    }

    /// The parser behind the checkpoint.
    pub closed spec fn inner(self) -> P {
        self.parser
    }

    /// Whether the parser behind the checkpoint may start on `begun`: the input with a checkpoint
    /// begun on it, or the input itself where the checkpoint is active since an earlier call.
    pub open spec fn enters<Input: CheckpointStream, S>(
        mode: ParseMode,
        before: Run<Self, Input, CheckpointState<S>>,
        begun: Input,
    ) -> bool {
        if mode == ParseMode::First || !before.state.begun {
            Input::begins(before.input, before.parser.budget(), begun)
        } else {
            begun == before.input
        }
    }
}

impl<Input, P> Parser<Input> for Checkpointed<P> where Input: CheckpointStream, P: Parser<Input> {
    type Output = P::Output;

    type PartialState = CheckpointState<P::PartialState>;

    open spec fn can_parse(
        mode: ParseMode,
        before: Run<Self, Input, CheckpointState<P::PartialState>>,
    ) -> bool {
        forall|begun: Input| #[trigger]
            Self::enters(mode, before, begun) && begun.inv() ==> P::can_parse(
                mode,
                Run { parser: before.parser.inner(), input: begun, state: before.state.inner },
            )
    }

    open spec fn parses(
        mode: ParseMode,
        before: Run<Self, Input, CheckpointState<P::PartialState>>,
        after: Run<Self, Input, CheckpointState<P::PartialState>>,
        result: ParseResult<P::Output, Input::Error>,
    ) -> bool {
        &&& after.parser.budget() == before.parser.budget()
        &&& exists|
            begun: Input,
            left: Run<P, Input, P::PartialState>,
            inner: ParseResult<P::Output, Input::Error>,
        |
            {
                &&& Self::enters(mode, before, begun)
                &&& begun.inv()
                &&& left.input.inv()
                &&& #[trigger] P::parses(
                    mode,
                    Run { parser: before.parser.inner(), input: begun, state: before.state.inner },
                    left,
                    inner,
                )
                &&& after.parser.inner() == left.parser
                &&& resolves(
                    inner,
                    left.input,
                    CheckpointState { begun: true, inner: left.state },
                    after.input,
                    after.state,
                    result,
                )
            }
    }

    open spec fn explains(
        before: Self,
        error: Input::Error,
        after: Self,
        explained: Input::Error,
    ) -> bool {
        &&& after.budget() == before.budget()
        &&& P::explains(before.inner(), error, after.inner(), explained)
    }

    open spec fn explains_committed(
        before: Self,
        error: Input::Error,
        after: Self,
        explained: Input::Error,
    ) -> bool {
        &&& after.budget() == before.budget()
        &&& P::explains_committed(before.inner(), error, after.inner(), explained)
    }

    open spec fn count(&self) -> usize {
        self.inner().count()
    }

    fn parse_mode_impl(
        &mut self,
        mode: ParseMode,
        input: &mut Input,
        state: &mut CheckpointState<P::PartialState>,
    ) -> (result: ParseResult<P::Output, Input::Error>) {
        if mode.is_first() || !state.begun {
            input.begin_checkpoint(self.budget);
            state.begun = true;
        }
        assert(Self::enters(
            mode,
            Run { parser: *old(self), input: *old(input), state: *old(state) },
            *input,
        ));
        let inner = self.parser.parse_committed_mode(mode, input, &mut state.inner);
        resolve(input, state, inner)
    }

    fn add_error(&mut self, error: &mut Input::Error) {
        self.parser.add_error(error)
    }

    fn add_committed_expected_error(&mut self, error: &mut Input::Error) {
        self.parser.add_committed_expected_error(error)
    }

    fn parser_count(&self) -> (count: usize) {
        self.parser.parser_count()
    }
}

/// Creates a bounded checkpoint around `parser`, on any stream which supports checkpoints.
///
/// If `parser` succeeds the checkpoint is committed. If it fails without committing the stream is
/// reset to the checkpoint; where more than `budget` tokens were read the reset fails, and the
/// failure is committed, with the errors merged so that the furthest one is kept.
pub fn checkpoint<Input, P>(budget: usize, parser: P) -> (checkpoint: Checkpointed<P>) where
    Input: CheckpointStream,
    P: Parser<Input>,

    ensures
        checkpoint.budget() == budget,
        checkpoint.inner() == parser,
{
    Checkpointed { budget, parser }
}

} // verus!
