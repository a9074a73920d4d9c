//! Streams: what parsers read their tokens from.

use vstd::prelude::*;

use crate::error::{ParseError, UnexpectedParse};

pub mod checkpoint;
pub mod debug;
pub mod history;
pub mod laws;
pub mod model;
pub mod operations;
pub mod slices;

verus! {

/// The errors which reading from `Input` gives.
pub type StreamErrorFor<Input> = <<Input as StreamOnce>::Error as ParseError<
    <Input as StreamOnce>::Token,
    <Input as StreamOnce>::Range,
    <Input as StreamOnce>::Position,
>>::StreamError;

/// A stream which yields one token after another.
///
/// An implementation says what reading from it does by a relation between the stream before and
/// after: a stream may depend on more than what it holds, so reading need not be a function.
pub trait StreamOnce: Sized {
    /// What the stream yields.
    type Token: Clone;

    /// What a run of tokens is held in.
    type Range: Clone;

    /// Where a token stands in the input.
    type Position: Clone + Ord;

    /// The errors of parsers which read this stream.
    type Error: ParseError<Self::Token, Self::Range, Self::Position>;

    /// What holds of the stream between any two operations.
    open spec fn inv(&self) -> bool {
        true
    }

    /// Whether `uncons` may be called. An implementation uses this for machine limits, such as
    /// that of a counter of tokens.
    open spec fn can_uncons(&self) -> bool {
        true
    }

    /// Whether reading from `before` may give `result` and leave `after`.
    open spec fn unconses(
        before: Self,
        after: Self,
        result: Result<Self::Token, StreamErrorFor<Self>>,
    ) -> bool {
        true
    }

    /// Whether more input may arrive after the stream has reported its end.
    spec fn partial(&self) -> bool;

    /// Takes the next token off the stream.
    fn uncons(&mut self) -> (result: Result<Self::Token, StreamErrorFor<Self>>)
        requires
            old(self).inv(),
            old(self).can_uncons(),
        ensures
            final(self).inv(),
            Self::unconses(*old(self), *final(self), result),
    ;

    /// Returns whether more input may arrive after the stream has reported its end.
    fn is_partial(&self) -> (partial: bool)
        ensures
            partial == self.partial(),
    ;
}

/// A stream which knows where in the input it is.
pub trait Positioned: StreamOnce {
    /// Whether `position` is where the next token stands.
    open spec fn is_at(&self, position: Self::Position) -> bool {
        true
    }

    /// Returns where the next token stands.
    fn position(&self) -> (position: Self::Position)
        requires
            self.inv(),
        ensures
            self.is_at(position),
    ;
}

/// A stream which can go back to where it was.
pub trait ResetStream: StreamOnce {
    /// A place to go back to.
    type Checkpoint: Clone;

    /// Whether `checkpoint` stands for where the stream is.
    open spec fn is_marked_by(&self, checkpoint: Self::Checkpoint) -> bool {
        true
    }

    /// Whether going back to `checkpoint` from `before` may give `result` and leave `after`.
    open spec fn resets(
        before: Self,
        checkpoint: Self::Checkpoint,
        after: Self,
        result: Result<(), Self::Error>,
    ) -> bool {
        true
    }

    /// Returns where the stream is.
    fn checkpoint(&self) -> (checkpoint: Self::Checkpoint)
        requires
            self.inv(),
        ensures
            self.is_marked_by(checkpoint),
    ;

    /// Goes back to `checkpoint`.
    fn reset(&mut self, checkpoint: Self::Checkpoint) -> (result: Result<(), Self::Error>)
        requires
            old(self).inv(),
        ensures
            final(self).inv(),
            Self::resets(*old(self), checkpoint, *final(self), result),
    ;
}

/// A stream which parsers can backtrack on and report positions of.
pub trait Stream: StreamOnce + ResetStream + Positioned {

}

impl<Input> Stream for Input where Input: StreamOnce + ResetStream + Positioned {

}

/// A stream over a slice. A position is the number of tokens before it.
#[derive(Debug)]
pub struct SliceStream<'a, T> {
    tokens: &'a [T],
    position: usize,
}

impl<'a, T> SliceStream<'a, T> {
    /// All tokens of the slice, those already read included.
    pub closed spec fn tokens(&self) -> Seq<T> {
        self.tokens@
    }

    /// The number of tokens read so far.
    pub closed spec fn read(&self) -> nat {
        self.position as nat
    }

    /// A stream at the start of `tokens`.
    pub fn new(tokens: &'a [T]) -> (stream: Self)
        ensures
            stream.tokens() == tokens@,
            stream.read() == 0,
    {
        SliceStream { tokens, position: 0 }
    }
}

impl<'a, T: Clone> StreamOnce for SliceStream<'a, T> {
    type Token = T;

    type Range = &'a [T];

    type Position = usize;

    type Error = UnexpectedParse;

    open spec fn inv(&self) -> bool {
        self.read() <= self.tokens().len()
    }

    open spec fn can_uncons(&self) -> bool {
        true
    }

    open spec fn unconses(
        before: Self,
        after: Self,
        result: Result<T, UnexpectedParse>,
    ) -> bool {
        &&& after.tokens() == before.tokens()
        &&& if before.read() < before.tokens().len() {
            &&& result matches Ok(token)
            &&& vstd::pervasive::strictly_cloned(before.tokens()[before.read() as int], token)
            &&& after.read() == before.read() + 1
        } else {
            &&& result == Err::<T, UnexpectedParse>(UnexpectedParse::Eoi)
            &&& after.read() == before.read()
        }
    }

    open spec fn partial(&self) -> bool {
        false
    }

    fn uncons(&mut self) -> (result: Result<T, UnexpectedParse>) {
        if self.position < self.tokens.len() {
            let token = self.tokens[self.position].clone();
            self.position = self.position + 1;
            Ok(token)
        } else {
            Err(UnexpectedParse::Eoi)
        }
    }

    fn is_partial(&self) -> (partial: bool) {
        false
    }
}

impl<'a, T: Clone> Positioned for SliceStream<'a, T> {
    open spec fn is_at(&self, position: usize) -> bool {
        position == self.read()
    }

    fn position(&self) -> (position: usize) {
        self.position
    }
}

} // verus!
