//! Parsers of single tokens.

use vstd::prelude::*;

use crate::error::{ParseError, ParseResult};
use crate::parser::{ParseMode, Parser, Run};
use crate::stream::{Positioned, StreamErrorFor, StreamOnce};

verus! {

/// Parser returned by [`any`].
#[derive(Debug, Clone, Copy, PartialEq, Eq, Structural)]
pub struct Any;

/// Whether `result` is what a parser gives of an error `err` which it met on reading, where
/// `input` is left: more input may arrive, or the parser fails without committing.
pub open spec fn fails_with<Input: StreamOnce + Positioned, T>(
    input: Input,
    err: StreamErrorFor<Input>,
    result: ParseResult<T, Input::Error>,
) -> bool {
    exists|position: Input::Position, error: Input::Error|
        {
            &&& input.is_at(position)
            &&& #[trigger] error.is_error_at(position, err)
            &&& result == if input.partial() {
                ParseResult::<T, Input::Error>::CommitErr(error)
            } else {
                ParseResult::<T, Input::Error>::PeekErr(error)
            }
        }
}

/// Whether taking a token off `before` may give `result` and leave `after`.
pub open spec fn takes_any<Input: StreamOnce + Positioned>(
    before: Input,
    after: Input,
    result: ParseResult<Input::Token, Input::Error>,
) -> bool {
    exists|read: Result<Input::Token, StreamErrorFor<Input>>| #[trigger]
        Input::unconses(before, after, read) && match read {
            Ok(token) => result == ParseResult::<Input::Token, Input::Error>::CommitOk(token),
            Err(err) => fails_with(after, err, result),
        }
}

impl<Input: StreamOnce + Positioned> Parser<Input> for Any {
    type Output = Input::Token;

    type PartialState = ();

    open spec fn can_parse(mode: ParseMode, before: Run<Self, Input, ()>) -> bool {
        before.input.can_uncons()
    }

    open spec fn parses(
        mode: ParseMode,
        before: Run<Self, Input, ()>,
        after: Run<Self, Input, ()>,
        result: ParseResult<Input::Token, Input::Error>,
    ) -> bool {
        takes_any(before.input, after.input, result)
    }

    open spec fn explains(
        before: Self,
        error: Input::Error,
        after: Self,
        explained: Input::Error,
    ) -> bool {
        explained == error
    }

    open spec fn explains_committed(
        before: Self,
        error: Input::Error,
        after: Self,
        explained: Input::Error,
    ) -> bool {
        explained == error
    }

    open spec fn count(&self) -> usize {
        1
    }

    fn parse_mode_impl(&mut self, mode: ParseMode, input: &mut Input, state: &mut ()) -> (result:
        ParseResult<Input::Token, Input::Error>) {
        let read = input.uncons();
        assert(Input::unconses(*old(input), *input, read));
        match read {
            Ok(token) => ParseResult::CommitOk(token),
            Err(err) => {
                let error = ParseError::from_error(input.position(), err);
                if input.is_partial() {
                    ParseResult::CommitErr(error)
                } else {
                    ParseResult::PeekErr(error)
                }
            },
        }
    }

    fn add_error(&mut self, error: &mut Input::Error) {
    }

    fn add_committed_expected_error(&mut self, error: &mut Input::Error) {
    }

    fn parser_count(&self) -> (count: usize) {
        1
    }
}

/// A parser which takes any token. Where there is none, it fails without committing, unless more
/// input may arrive.
pub fn any() -> (parser: Any)
    ensures
        parser == Any,
{
    Any
}

} // verus!
