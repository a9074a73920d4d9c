//! Parsers and how they are run.

use vstd::prelude::*;

use crate::error::ParseResult;
use crate::stream::StreamOnce;

pub mod checkpoint;
pub mod combinator;
pub mod laws;
pub mod outcomes;
pub mod token;

verus! {

/// How a parser is to use the state which is handed to it.
#[derive(Debug, Clone, Copy, PartialEq, Eq, Structural)]
pub enum ParseMode {
    /// The parser starts from its beginning.
    First,
    /// The parser resumes from its state, which an earlier call may have left behind when it ran
    /// out of input.
    Partial,
}

impl ParseMode {
    /// Returns whether the parser starts from its beginning.
    pub fn is_first(self) -> (first: bool)
        ensures
            first == (self == ParseMode::First),
    {
        matches!(self, ParseMode::First)
    }
}

/// A parser with the input which it reads and the state which it keeps between calls.
pub struct Run<P, Input, State> {
    pub parser: P,
    pub input: Input,
    pub state: State,
}

/// Whether `value` is a default value of its type.
pub open spec fn is_default<T: Default>(value: T) -> bool {
    call_ensures(T::default, (), value)
}

/// A parser over `Input`.
///
/// What a parser does is a relation, which the implementation defines, between the parser, the
/// input and the state before the call, the same after it, and the result.
pub trait Parser<Input: StreamOnce>: Sized {
    /// What the parser gives when it succeeds.
    type Output;

    /// What the parser keeps between calls when it runs out of input.
    type PartialState: Default;

    /// Whether the parser may be run.
    open spec fn can_parse(mode: ParseMode, before: Run<Self, Input, Self::PartialState>) -> bool {
        true
    }

    /// Whether running the parser on `before` may give `result` and leave `after`.
    open spec fn parses(
        mode: ParseMode,
        before: Run<Self, Input, Self::PartialState>,
        after: Run<Self, Input, Self::PartialState>,
        result: ParseResult<Self::Output, Input::Error>,
    ) -> bool {
        true
    }

    /// Whether adding what the parser expects to `error` may give `explained`, and make `after`
    /// of the parser `before`.
    open spec fn explains(
        before: Self,
        error: Input::Error,
        after: Self,
        explained: Input::Error,
    ) -> bool {
        true
    }

    /// Whether adding what the parser expects once it has committed to its input to `error` may
    /// give `explained`, and make `after` of the parser `before`.
    open spec fn explains_committed(
        before: Self,
        error: Input::Error,
        after: Self,
        explained: Input::Error,
    ) -> bool {
        true
    }

    /// How many parsers this one is made of, in sequence.
    spec fn count(&self) -> usize;

    /// Runs the parser.
    fn parse_mode_impl(
        &mut self,
        mode: ParseMode,
        input: &mut Input,
        state: &mut Self::PartialState,
    ) -> (result: ParseResult<Self::Output, Input::Error>)
        requires
            old(input).inv(),
            Self::can_parse(
                mode,
                Run { parser: *old(self), input: *old(input), state: *old(state) },
            ),
        ensures
            final(input).inv(),
            Self::parses(
                mode,
                Run { parser: *old(self), input: *old(input), state: *old(state) },
                Run { parser: *final(self), input: *final(input), state: *final(state) },
                result,
            ),
    ;

    /// Runs the parser as a part of another one which has committed to its input.
    fn parse_committed_mode(
        &mut self,
        mode: ParseMode,
        input: &mut Input,
        state: &mut Self::PartialState,
    ) -> (result: ParseResult<Self::Output, Input::Error>)
        requires
            old(input).inv(),
            Self::can_parse(
                mode,
                Run { parser: *old(self), input: *old(input), state: *old(state) },
            ),
        ensures
            final(input).inv(),
            Self::parses(
                mode,
                Run { parser: *old(self), input: *old(input), state: *old(state) },
                Run { parser: *final(self), input: *final(input), state: *final(state) },
                result,
            ),
    {
        self.parse_mode_impl(mode, input, state)
    }

    /// Adds what the parser expects to an error which it gave without committing.
    fn add_error(&mut self, error: &mut Input::Error)
        ensures
            Self::explains(*old(self), *old(error), *final(self), *final(error)),
    ;

    /// Adds what the parser expects to an error which it gave after committing.
    fn add_committed_expected_error(&mut self, error: &mut Input::Error)
        ensures
            Self::explains_committed(*old(self), *old(error), *final(self), *final(error)),
    ;

    /// Returns how many parsers this one is made of, in sequence.
    fn parser_count(&self) -> (count: usize)
        ensures
            count == self.count(),
    ;

    /// Runs the parser once, from its beginning.
    fn parse_stream(&mut self, input: &mut Input) -> (result: ParseResult<
        Self::Output,
        Input::Error,
    >)
        requires
            old(input).inv(),
            forall|state: Self::PartialState| #[trigger]
                is_default(state) ==> Self::can_parse(
                    ParseMode::First,
                    Run { parser: *old(self), input: *old(input), state },
                ),
        ensures
            final(input).inv(),
            exists|before: Self::PartialState, after: Self::PartialState|
                is_default(before) && #[trigger] Self::parses(
                    ParseMode::First,
                    Run { parser: *old(self), input: *old(input), state: before },
                    Run { parser: *final(self), input: *final(input), state: after },
                    result,
                ),
    {
        let mut state: Self::PartialState = Default::default();
        assert(is_default(state));
        self.parse_mode_impl(ParseMode::First, input, &mut state)
    }

    /// Runs the parser once, from its beginning, and gives back what is left of the input.
    fn parse(&mut self, input: Input) -> (result: Result<(Self::Output, Input), Input::Error>)
        requires
            input.inv(),
            forall|state: Self::PartialState| #[trigger]
                is_default(state) ==> Self::can_parse(
                    ParseMode::First,
                    Run { parser: *old(self), input, state },
                ),
        ensures
            exists|
                before: Self::PartialState,
                after: Self::PartialState,
                left: Input,
                inner: ParseResult<Self::Output, Input::Error>,
            |
                {
                    &&& is_default(before)
                    &&& #[trigger] Self::parses(
                        ParseMode::First,
                        Run { parser: *old(self), input, state: before },
                        Run { parser: *final(self), input: left, state: after },
                        inner,
                    )
                    &&& left.inv()
                    &&& result == match inner.outcome() {
                        Ok(value) => Ok((value, left)),
                        Err(err) => Err(err),
                    }
                },
    {
        let mut left = input;
        let inner = self.parse_stream(&mut left);
        match inner.into_result() {
            Ok(value) => Ok((value, left)),
            Err(err) => Err(err),
        }
    }

    /// Runs the parser from `state`, which it leaves such that it can be run again once more
    /// input has arrived.
    fn parse_with_state(
        &mut self,
        input: &mut Input,
        state: &mut Self::PartialState,
    ) -> (result: Result<Self::Output, Input::Error>)
        requires
            old(input).inv(),
            Self::can_parse(
                ParseMode::Partial,
                Run { parser: *old(self), input: *old(input), state: *old(state) },
            ),
        ensures
            final(input).inv(),
            exists|inner: ParseResult<Self::Output, Input::Error>|
                result == inner.outcome() && #[trigger] Self::parses(
                    ParseMode::Partial,
                    Run { parser: *old(self), input: *old(input), state: *old(state) },
                    Run { parser: *final(self), input: *final(input), state: *final(state) },
                    inner,
                ),
    {
        self.parse_mode_impl(ParseMode::Partial, input, state).into_result()
    }
}

} // verus!
