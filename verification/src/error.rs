//! Errors of streams and of parsers.

use vstd::prelude::*;

verus! {

/// An error of a stream over tokens of type `Item` and ranges of type `Range`.
///
/// Here as in the other traits of this crate, the specification functions are for an
/// implementation to define. Where it leaves out a relation it promises nothing; what a method
/// returns exactly it has to say.
pub trait StreamError<Item, Range>: Sized {
    /// Whether this is an error that holds the message `msg`.
    open spec fn is_message(&self, msg: &str) -> bool {
        true
    }

    /// Makes an error out of a fixed message.
    fn message_static_message(msg: &'static str) -> (err: Self)
        ensures
            err.is_message(msg),
    ;
}

/// An error of a parser: a position in the input and what went wrong there.
///
/// What an implementation keeps of positions and messages is its own choice, so each operation
/// is described by a relation that the implementation defines.
pub trait ParseError<Item, Range, Position>: Sized {
    /// The errors of the stream which a parse error can take up.
    type StreamError: StreamError<Item, Range>;

    /// Whether this is the error at `position` which says nothing else.
    open spec fn is_empty_at(&self, position: Position) -> bool {
        true
    }

    /// Whether this is the error at `position` which holds `err`.
    open spec fn is_error_at(&self, position: Position, err: Self::StreamError) -> bool {
        true
    }

    /// Whether `after` is what adding `err` makes of `before`.
    open spec fn adds(before: Self, err: Self::StreamError, after: Self) -> bool {
        true
    }

    /// Whether this is what `first` and `second` give together.
    open spec fn is_merge_of(&self, first: Self, second: Self) -> bool {
        true
    }

    /// Whether the error came from reaching the end of the input.
    spec fn is_eoi(&self) -> bool;

    /// An error at `position` which says nothing else.
    fn empty(position: Position) -> (err: Self)
        ensures
            err.is_empty_at(position),
    ;

    /// An error at `position` which holds `err`.
    fn from_error(position: Position, err: Self::StreamError) -> (error: Self)
        ensures
            error.is_error_at(position, err),
    ;

    /// Adds `err` to this error, at the position which it has.
    fn add(&mut self, err: Self::StreamError)
        ensures
            Self::adds(*old(self), err, *final(self)),
    ;

    /// Merges two errors, keeping what is known of the position furthest ahead.
    fn merge(self, other: Self) -> (error: Self)
        ensures
            error.is_merge_of(self, other),
    ;

    /// Returns whether the error came from reaching the end of the input.
    fn is_unexpected_end_of_input(&self) -> (eoi: bool)
        ensures
            eoi == self.is_eoi(),
    ;
}

/// The smallest error there is: it only knows whether the input ended.
#[derive(Debug, Clone, Copy, PartialEq, Eq, Structural)]
pub enum UnexpectedParse {
    /// The input ended.
    Eoi,
    /// Anything else.
    Unexpected,
}

impl<Item, Range> StreamError<Item, Range> for UnexpectedParse {
    open spec fn is_message(&self, msg: &str) -> bool {
        *self == UnexpectedParse::Unexpected
    }

    fn message_static_message(msg: &'static str) -> (err: Self) {
        UnexpectedParse::Unexpected
    }
}

impl<Item, Range, Position> ParseError<Item, Range, Position> for UnexpectedParse {
    type StreamError = UnexpectedParse;

    open spec fn is_empty_at(&self, position: Position) -> bool {
        *self == UnexpectedParse::Unexpected
    }

    open spec fn is_error_at(&self, position: Position, err: UnexpectedParse) -> bool {
        *self == err
    }

    open spec fn adds(before: Self, err: UnexpectedParse, after: Self) -> bool {
        after == if before == UnexpectedParse::Eoi {
            before
        } else {
            err
        }
    }

    open spec fn is_merge_of(&self, first: Self, second: Self) -> bool {
        *self == second
    }

    open spec fn is_eoi(&self) -> bool {
        *self == UnexpectedParse::Eoi
    }

    fn empty(position: Position) -> (err: Self) {
        UnexpectedParse::Unexpected
    }

    fn from_error(position: Position, err: UnexpectedParse) -> (error: Self) {
        err
    }

    fn add(&mut self, err: UnexpectedParse) {
        match *self {
            UnexpectedParse::Eoi => {},
            UnexpectedParse::Unexpected => {
                *self = err;
            },
        }
    }

    fn merge(self, other: Self) -> (error: Self) {
        other
    }

    fn is_unexpected_end_of_input(&self) -> (eoi: bool) {
        matches!(*self, UnexpectedParse::Eoi)
    }
}

/// What a parser returns: whether it succeeded, and whether it has committed to the input which
/// it read.
#[derive(Debug, Clone, Copy, PartialEq, Eq)]
pub enum ParseResult<T, E> {
    /// Success after consuming input.
    CommitOk(T),
    /// Success without consuming input.
    PeekOk(T),
    /// Failure after consuming input: no alternative may be tried.
    CommitErr(E),
    /// Failure without consuming input: an alternative may be tried.
    PeekErr(E),
}

impl<T, E> ParseResult<T, E> {
    /// The result without the distinction of whether input was consumed.
    pub open spec fn outcome(self) -> Result<T, E> {
        match self {
            ParseResult::CommitOk(value) => Ok(value),
            ParseResult::PeekOk(value) => Ok(value),
            ParseResult::CommitErr(err) => Err(err),
            ParseResult::PeekErr(err) => Err(err),
        }
    }

    /// Returns whether the parser succeeded.
    pub fn is_ok(&self) -> (ok: bool)
        ensures
            ok == (self.outcome() is Ok),
    {
        matches!(*self, ParseResult::CommitOk(_) | ParseResult::PeekOk(_))
    }

    /// Forgets whether input was consumed.
    pub fn into_result(self) -> (result: Result<T, E>)
        ensures
            result == self.outcome(),
    {
        match self {
            ParseResult::CommitOk(value) => Ok(value),
            ParseResult::PeekOk(value) => Ok(value),
            ParseResult::CommitErr(err) => Err(err),
            ParseResult::PeekErr(err) => Err(err),
        }
    }
}

/// What a parser returns says whether it succeeded and with what, apart from whether it had
/// committed.
pub proof fn law_parse_result<T, E>(
    parsed: ParseResult<T, E>,
    ok: bool,
    result: Result<T, E>,
)
    requires
        call_ensures(ParseResult::<T, E>::is_ok, (&parsed,), ok),
        call_ensures(ParseResult::<T, E>::into_result, (parsed,), result),
    ensures
        ok <==> result is Ok,
        parsed.outcome() == result,
        match parsed {
            ParseResult::CommitOk(value) | ParseResult::PeekOk(value) => result == Ok::<T, E>(
                value,
            ),
            ParseResult::CommitErr(err) | ParseResult::PeekErr(err) => result == Err::<T, E>(err),
        },
{
}

/// What the call to make an error promises.
proof fn lemma_from_error_call<Item, Range, Position, E: ParseError<Item, Range, Position>>(
    position: Position,
    err: E::StreamError,
    made: E,
)
    requires
        call_ensures(
            <E as ParseError<Item, Range, Position>>::from_error,
            (position, err),
            made,
        ),
    ensures
        made.is_error_at(position, err),
{
}

/// What the call to add to an error promises.
proof fn lemma_add_call<'a, Item, Range, Position, E: ParseError<Item, Range, Position>>(
    error: &'a mut E,
    err: E::StreamError,
)
    requires
        call_ensures(<E as ParseError<Item, Range, Position>>::add, (error, err), ()),
    ensures
        E::adds(*old(error), err, *final(error)),
{
}

/// The smallest error forgets positions and messages. It remembers the end of the input when more
/// is added, and merging gives the later error.
pub proof fn law_unexpected_parse<'a, Item, Range, Position>(
    position: Position,
    msg: &'static str,
    message: UnexpectedParse,
    empty: UnexpectedParse,
    err: UnexpectedParse,
    made: UnexpectedParse,
    error: &'a mut UnexpectedParse,
    merged: UnexpectedParse,
    eoi: bool,
)
    requires
        call_ensures(
            <UnexpectedParse as StreamError<Item, Range>>::message_static_message,
            (msg,),
            message,
        ),
        call_ensures(
            <UnexpectedParse as ParseError<Item, Range, Position>>::empty,
            (position,),
            empty,
        ),
        call_ensures(
            <UnexpectedParse as ParseError<Item, Range, Position>>::from_error,
            (position, err),
            made,
        ),
        call_ensures(
            <UnexpectedParse as ParseError<Item, Range, Position>>::add,
            (error, err),
            (),
        ),
        call_ensures(
            <UnexpectedParse as ParseError<Item, Range, Position>>::merge,
            (made, message),
            merged,
        ),
        call_ensures(
            <UnexpectedParse as ParseError<Item, Range, Position>>::is_unexpected_end_of_input,
            (&made,),
            eoi,
        ),
    ensures
        message == UnexpectedParse::Unexpected,
        empty == UnexpectedParse::Unexpected,
        made == err,
        *final(error) == UnexpectedParse::Eoi <==> *old(error) == UnexpectedParse::Eoi || err
            == UnexpectedParse::Eoi,
        merged == message,
        eoi <==> made == UnexpectedParse::Eoi,
{
    lemma_from_error_call::<Item, Range, Position, UnexpectedParse>(position, err, made);
    lemma_add_call::<Item, Range, Position, UnexpectedParse>(error, err);
}

} // verus!
