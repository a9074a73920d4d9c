//! Bounded checkpoint combinator: rewindable parsing over streams which cannot be cloned.
//!
//! [`checkpoint`] wraps a parser so that, while it runs, the tokens it reads are buffered by a
//! [checkpointed stream](CheckpointStream). If the parser fails the stream is rewound to the
//! position at which the checkpoint was created -- as long as no more than `budget` tokens were
//! read -- and the failure is reported as uncommitted, whether or not the parser had committed.
//! This lets a caller speculatively parse (for example) the optional header of a frame and fall
//! back to an older format without cloning the remaining input.
//!
//! The rewind is *bounded*: if more than `budget` tokens were read before the failure, the reset
//! fails and the error is instead reported as **committed**, preserving the furthest error (a
//! "token budget exceeded" error is added to it).
//!
//! [`combinator::checkpoint`](crate::parser::combinator::checkpoint) differs in what it makes of
//! a committed failure, which it leaves committed.

use vstd::prelude::*;

use crate::error::{ParseError, ParseResult, StreamError};
use crate::parser;
use crate::parser::{ParseMode, Parser, Run};
use crate::stream::checkpoint::{CheckpointGuard, Stream as CheckpointStream};
use crate::stream::{Positioned, StreamErrorFor, StreamOnce};

verus! {

/// Whether `after` is the error `before` with a note that a checkpoint could not be reset.
pub open spec fn notes_exceeded_budget<Input: StreamOnce>(
    before: Input::Error,
    after: Input::Error,
) -> bool {
    exists|err: StreamErrorFor<Input>|
        err.is_message("checkpoint reset failed: token budget exceeded")
            && #[trigger] Input::Error::adds(before, err, after)
}

/// Notes in `error` that a checkpoint could not be reset because more tokens than its budget were
/// read.
fn budget_exceeded<Input>(error: Input::Error) -> (noted: Input::Error) where
    Input: StreamOnce + Positioned,

    ensures
        notes_exceeded_budget::<Input>(error, noted),
{
    let mut error = error;
    error.add(
        StreamError::message_static_message("checkpoint reset failed: token budget exceeded"),
    );
    error
}

/// Whether a checkpoint on `before`, behind which a parser gave `inner` and left `before_state`,
/// may be settled with `result`, leaving `after` and `after_state`. `partial` says whether more
/// input may arrive.
///
/// A success commits the checkpoint. A failure resets to it and becomes uncommitted, unless the
/// parser ran out of input while more may arrive: then it stays committed, and the parser is to
/// start over. Where the reset fails, the failure is committed and says so.
pub open spec fn settles<Input: StreamOnce + Positioned, T, State: Default>(
    partial: bool,
    inner: ParseResult<T, Input::Error>,
    before: CheckpointStream<Input>,
    before_state: State,
    after: CheckpointStream<Input>,
    after_state: State,
    result: ParseResult<T, Input::Error>,
) -> bool {
    match inner {
        ParseResult::CommitOk(_) | ParseResult::PeekOk(_) => {
            &&& result == inner
            &&& after@ == before@.committed()
            &&& after_state == before_state
        },
        ParseResult::CommitErr(err) | ParseResult::PeekErr(err) => if !before@.can_rewind() {
            &&& result matches ParseResult::CommitErr(noted)
            &&& notes_exceeded_budget::<Input>(err, noted)
            &&& after@ == before@.committed()
            &&& after_state == before_state
        } else if inner is CommitErr && partial && err.is_eoi() {
            &&& result == inner
            &&& after@ == before@.rewound()
            &&& parser::is_default(after_state)
        } else {
            &&& result == ParseResult::<T, Input::Error>::PeekErr(err)
            &&& after@ == before@.rewound()
            &&& after_state == before_state
        },
    }
}

/// Settles a checkpoint, given what the parser behind it returned.
pub fn settle<Input, T, State>(
    checkpoint: CheckpointGuard<'_, Input>,
    partial: bool,
    inner: ParseResult<T, Input::Error>,
    state: &mut State,
) -> (result: ParseResult<T, Input::Error>) where
    Input: StreamOnce + Positioned,
    State: Default,

    requires
        checkpoint.target().inv(),
    ensures
        final(checkpoint.target()).inv(),
        settles(
            partial,
            inner,
            *old(checkpoint.target()),
            *old(state),
            *final(checkpoint.target()),
            *final(state),
            result,
        ),
{
    match inner {
        ParseResult::CommitOk(x) => {
            checkpoint.commit();
            ParseResult::CommitOk(x)
        },
        ParseResult::PeekOk(x) => {
            checkpoint.commit();
            ParseResult::PeekOk(x)
        },
        ParseResult::PeekErr(err) => match checkpoint.reset() {
            Ok(()) => ParseResult::PeekErr(err),
            // The budget was exceeded: the failure stays committed and the furthest
            // error is preserved, with the reset failure noted in it.
            Err(_) => ParseResult::CommitErr(budget_exceeded::<Input>(err)),
        },
        ParseResult::CommitErr(err) => {
            if partial && err.is_unexpected_end_of_input() {
                // The inner parser needs more input to decide. Rewind to the checkpoint so
                // that none of the checkpointed input is committed; the next call (with
                // more input available) re-parses from the checkpoint with a fresh state.
                match checkpoint.reset() {
                    Ok(()) => {
                        *state = Default::default();
                        ParseResult::CommitErr(err)
                    },
                    Err(_) => ParseResult::CommitErr(budget_exceeded::<Input>(err)),
                }
            } else {
                match checkpoint.reset() {
                    // The failure did not commit any input.
                    Ok(()) => ParseResult::PeekErr(err),
                    // The budget was exceeded: the failure stays committed and the
                    // furthest error is preserved, with the reset failure noted in it.
                    Err(_) => ParseResult::CommitErr(budget_exceeded::<Input>(err)),
                }
            }
        },
    }
}

/// Parser returned by [`checkpoint`].
#[derive(Copy, Clone)]
pub struct Checkpoint<P>(usize, P);

impl<P> Checkpoint<P> {
    /// How many tokens the parser may read and still be rewound.
    pub closed spec fn budget(self) -> usize {
        self.0
    }

    /// The parser behind the checkpoint.
    pub closed spec fn inner(self) -> P {
        self.1
    }
}

impl<Input, P> Parser<CheckpointStream<Input>> for Checkpoint<P> where
    Input: StreamOnce + Positioned,
    P: Parser<CheckpointStream<Input>>,
 {
    type Output = P::Output;

    type PartialState = P::PartialState;

    open spec fn can_parse(
        mode: ParseMode,
        before: Run<Self, CheckpointStream<Input>, P::PartialState>,
    ) -> bool {
        forall|begun: CheckpointStream<Input>| #[trigger]
            begun@ == before.input@.begun(before.parser.budget() as nat) && begun.inv()
                ==> P::can_parse(
                mode,
                Run { parser: before.parser.inner(), input: begun, state: before.state },
            )
    }

    open spec fn parses(
        mode: ParseMode,
        before: Run<Self, CheckpointStream<Input>, P::PartialState>,
        after: Run<Self, CheckpointStream<Input>, P::PartialState>,
        result: ParseResult<P::Output, Input::Error>,
    ) -> bool {
        &&& after.parser.budget() == before.parser.budget()
        &&& exists|
            begun: CheckpointStream<Input>,
            left: Run<P, CheckpointStream<Input>, P::PartialState>,
            inner: ParseResult<P::Output, Input::Error>,
        |
            {
                &&& begun@ == before.input@.begun(before.parser.budget() as nat)
                &&& begun.inv()
                &&& left.input.inv()
                &&& #[trigger] P::parses(
                    mode,
                    Run { parser: before.parser.inner(), input: begun, state: before.state },
                    left,
                    inner,
                )
                &&& after.parser.inner() == left.parser
                &&& settles(
                    before.input.partial(),
                    inner,
                    left.input,
                    left.state,
                    after.input,
                    after.state,
                    result,
                )
            }
    }

    open spec fn explains(
        before: Self,
        error: Input::Error,
        after: Self,
        explained: Input::Error,
    ) -> bool {
        &&& after.budget() == before.budget()
        &&& P::explains(before.inner(), error, after.inner(), explained)
    }

    open spec fn explains_committed(
        before: Self,
        error: Input::Error,
        after: Self,
        explained: Input::Error,
    ) -> bool {
        &&& after.budget() == before.budget()
        &&& P::explains_committed(before.inner(), error, after.inner(), explained)
    }

    open spec fn count(&self) -> usize {
        self.inner().count()
    }

    fn parse_mode_impl(
        &mut self,
        mode: ParseMode,
        input: &mut CheckpointStream<Input>,
        state: &mut P::PartialState,
    ) -> (result: ParseResult<P::Output, Input::Error>) {
        let is_partial = input.is_partial();
        let mut checkpoint = input.checkpoint_guard(self.0);
        let inner = self.1.parse_committed_mode(mode, &mut *checkpoint, state);
        settle(checkpoint, is_partial, inner, state)
    }

    fn add_error(&mut self, error: &mut Input::Error) {
        self.1.add_error(error)
    }

    fn add_committed_expected_error(&mut self, error: &mut Input::Error) {
        self.1.add_committed_expected_error(error)
    }

    fn parser_count(&self) -> (count: usize) {
        self.1.parser_count()
    }
}

/// Creates a bounded checkpoint around `parser` on a checkpointed stream.
///
/// If `parser` fails after reading at most `budget` tokens, the stream is rewound to the
/// position at which the checkpoint was created and the failure is reported as uncommitted,
/// allowing another alternative to be tried. If `parser` succeeds the checkpoint is committed and
/// the buffered tokens are released.
///
/// If more than `budget` tokens were read before the failure the reset fails: the failure is
/// then reported as **committed** and the furthest error is preserved (with a "token budget
/// exceeded" error added to it). Tokens which the stream retains ahead of the checkpoint count
/// when the parser reads them.
///
/// On partial streams a checkpoint which runs out of input rewinds to the checkpoint position
/// before signaling that more input is needed, so no checkpointed input is committed while the
/// parser waits and the token budget as well as error positions stay accurate when parsing
/// resumes.
pub fn checkpoint<Input, P>(budget: usize, parser: P) -> (checkpoint: Checkpoint<P>) where
    Input: StreamOnce + Positioned,
    P: Parser<CheckpointStream<Input>>,

    ensures
        checkpoint.budget() == budget,
        checkpoint.inner() == parser,
{
    Checkpoint(budget, parser)
}

} // verus!
