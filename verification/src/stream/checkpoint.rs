//! Bounded checkpoints which let parsers backtrack over streams which cannot
//! be cloned.
//!
//! [`Stream`] wraps any [`StreamOnce`] + [`Positioned`] stream and records the
//! tokens it yields in a buffer. While at least one checkpoint is active the
//! buffer retains every token since the active checkpoints so that the stream
//! can be reset to them. Checkpoints form a stack: a checkpoint created while
//! another one is active is nested inside it and committing the inner
//! checkpoint does **not** commit the outer one. Once the last checkpoint is
//! committed the buffered data is released.
//!
//! Each checkpoint is created with a *token budget*. Resetting to the
//! checkpoint succeeds only if no more than `budget` tokens past it were read
//! since the checkpoint was created, be it from the underlying stream or from
//! the buffer. Buffered tokens which are not read do not count. If the budget was
//! exceeded the reset fails explicitly and reports the furthest
//! position. Committing a checkpoint always succeeds, regardless of how many
//! tokens were read.
//!
//! Checkpoints are usually created through the
//! [`checkpoint`](crate::parser::combinator::checkpoint) parser combinator
//! which commits the checkpoint when its parser succeeds and resets to it when
//! the parser fails without committing. For imperative use,
//! [`Stream::checkpoint_guard`] returns a guard: **dropping the guard without
//! committing it resets the stream to the checkpoint** (if the token budget was
//! exceeded the reset fails and an error is returned by the next call to
//! `uncons`).
//!
//! The contracts speak of [`StreamModel`]; what holds over runs of operations
//! stands in [`laws`](crate::stream::laws).
//!
//! # Notes
//!
//! * The wrapper is token oriented.
//! * Outside of an active checkpoint the wrapper retains its read history so
//!   that parsers which go back to where they were keep working. This history is
//!   trimmed every time a checkpoint is committed or reset, so parsers which
//!   commit their checkpoints promptly only ever retain a bounded amount of
//!   input.

use std::collections::VecDeque;

use vstd::prelude::*;

use crate::error::{ParseError, StreamError};
use crate::stream::debug;
use crate::stream::model;
use crate::stream::model::{Mark, StreamModel};
use crate::stream::{Positioned, ResetStream, StreamErrorFor, StreamOnce};

verus! {

/// A stream which supports bounded, stack ordered checkpoints.
///
/// This is implemented by [`Stream`] and may be implemented for custom
/// streams. The [`checkpoint`](crate::parser::combinator::checkpoint)
/// combinator is generic over this trait.
///
/// Checkpoints form a stack: `commit_checkpoint` and `reset_checkpoint`
/// always apply to the most recently begun checkpoint which is still active.
/// Committing an inner checkpoint does not commit the checkpoints which
/// enclose it.
pub trait CheckpointStream: crate::stream::Stream {
    /// Whether beginning a checkpoint on `before` may leave `after`.
    open spec fn begins(before: Self, budget: usize, after: Self) -> bool {
        true
    }

    /// Whether committing the innermost checkpoint of `before` may leave `after`.
    open spec fn commits(before: Self, after: Self) -> bool {
        true
    }

    /// Whether resetting `before` to its innermost checkpoint may give `result` and leave `after`.
    open spec fn rewinds(before: Self, after: Self, result: Result<(), Self::Error>) -> bool {
        true
    }

    /// Begins a new checkpoint at the current position. At most `budget`
    /// tokens may be read before a later `reset_checkpoint` to this checkpoint
    /// fails.
    fn begin_checkpoint(&mut self, budget: usize)
        requires
            old(self).inv(),
        ensures
            final(self).inv(),
            Self::begins(*old(self), budget, *final(self)),
    ;

    /// Commits the innermost active checkpoint. Any buffered data which is
    /// only needed by checkpoints which are no longer active is released.
    /// Nothing is done where no checkpoint is active.
    fn commit_checkpoint(&mut self)
        requires
            old(self).inv(),
        ensures
            final(self).inv(),
            Self::commits(*old(self), *final(self)),
    ;

    /// Resets the stream to the innermost active checkpoint.
    ///
    /// Fails if more tokens than the checkpoint's budget were read since the
    /// checkpoint was begun, and where no checkpoint is active. The checkpoint
    /// is removed from the stack in either case.
    fn reset_checkpoint(&mut self) -> (result: Result<(), Self::Error>)
        requires
            old(self).inv(),
        ensures
            final(self).inv(),
            Self::rewinds(*old(self), *final(self), result),
    ;
}

/// A checkpoint which was begun and neither committed nor reset yet.
struct ActiveCheckpoint {
    /// Absolute offset to reset to.
    offset: usize,
    /// Furthest absolute offset to which a read led while this was the innermost checkpoint, or
    /// behind a checkpoint inside it which is no longer active; zero before the first read.
    read: usize,
    /// Maximum number of tokens which may be read before resetting fails.
    budget: usize,
}

/// The furthest offset to which a read led behind any of `checkpoints`.
spec fn furthest(checkpoints: Seq<ActiveCheckpoint>) -> nat
    decreases checkpoints.len(),
{
    if checkpoints.len() == 0 {
        0
    } else {
        let rest = furthest(checkpoints.drop_last());
        if rest < checkpoints.last().read {
            checkpoints.last().read as nat
        } else {
            rest
        }
    }
}

/// What the stack of checkpoints stands for. A read behind a checkpoint is one behind those
/// around it as well.
spec fn marks(checkpoints: Seq<ActiveCheckpoint>) -> Seq<Mark> {
    Seq::new(
        checkpoints.len(),
        |i: int|
            Mark {
                offset: checkpoints[i].offset as nat,
                reached: checkpoints[i].offset as nat,
                budget: checkpoints[i].budget as nat,
            }.read_to(furthest(checkpoints.skip(i))),
    )
}

/// A checkpoint which was just begun has nothing read behind it.
proof fn lemma_pushed(checkpoints: Seq<ActiveCheckpoint>, checkpoint: ActiveCheckpoint)
    requires
        checkpoint.read == 0,
    ensures
        marks(checkpoints.push(checkpoint)) == marks(checkpoints).push(
            Mark {
                offset: checkpoint.offset as nat,
                reached: checkpoint.offset as nat,
                budget: checkpoint.budget as nat,
            },
        ),
{
    let pushed = checkpoints.push(checkpoint);
    assert forall|i: int| 0 <= i < pushed.len() implies furthest(#[trigger] pushed.skip(i))
        == furthest(checkpoints.skip(i)) by {
        assert(pushed.skip(i).drop_last() =~= checkpoints.skip(i));
    }
    assert(furthest(checkpoints.skip(checkpoints.len() as int)) == 0);
}

/// It is enough to note how far a read came in the innermost checkpoint.
proof fn lemma_noted(
    before: Seq<ActiveCheckpoint>,
    after: Seq<ActiveCheckpoint>,
    head: usize,
)
    requires
        before.len() > 0,
        after =~= before.update(
            before.len() - 1,
            ActiveCheckpoint {
                read: if before.last().read < head {
                    head
                } else {
                    before.last().read
                },
                ..before.last()
            },
        ),
    ensures
        marks(after) == model::read_to(marks(before), head as nat),
{
    assert forall|i: int| 0 <= i < before.len() implies #[trigger] marks(after)[i]
        == model::read_to(marks(before), head as nat)[i] by {
        assert(after.skip(i).drop_last() =~= before.skip(i).drop_last());
    }
}

/// What was read behind the innermost checkpoint stays read behind those around it, where it is
/// passed on to the next one.
proof fn lemma_popped(before: Seq<ActiveCheckpoint>, after: Seq<ActiveCheckpoint>)
    requires
        before.len() > 0,
        before.len() == 1 ==> after.len() == 0,
        before.len() > 1 ==> after =~= before.drop_last().update(
            before.len() - 2,
            ActiveCheckpoint {
                read: if before[before.len() - 2].read < before.last().read {
                    before.last().read
                } else {
                    before[before.len() - 2].read
                },
                ..before[before.len() - 2]
            },
        ),
    ensures
        marks(after) == marks(before).drop_last(),
{
    reveal_with_fuel(furthest, 2);
    assert forall|i: int| 0 <= i < after.len() implies #[trigger] marks(after)[i] == marks(
        before,
    ).drop_last()[i] by {
        let inner = before.skip(i).drop_last();
        assert(inner.last() == before[before.len() - 2]);
        assert(after.skip(i).drop_last() =~= inner.drop_last());
    }
}

/// A `Stream` wrapper which adds bounded, stack ordered checkpoints to any
/// `StreamOnce + Positioned` stream without requiring the stream to be
/// `Clone`.
///
/// See the [module level documentation](self) for more information.
pub struct Stream<Input> where Input: StreamOnce + Positioned {
    iter: Input,
    /// Absolute offset of the read head.
    offset: usize,
    /// Absolute offset one past the last token pulled from `iter`.
    buffer_offset: usize,
    /// Tokens pulled from `iter` but not yet past the retention floor.
    buffer: VecDeque<(Input::Token, Input::Position)>,
    /// Stack of active checkpoints, oldest first.
    checkpoints: Vec<ActiveCheckpoint>,
    /// Error produced by a failed reset of a dropped checkpoint guard, returned by the next
    /// `uncons` call.
    deferred_error: Option<StreamErrorFor<Input>>,
}

impl<Input> View for Stream<Input> where Input: StreamOnce + Positioned {
    type V = StreamModel<Input>;

    closed spec fn view(&self) -> StreamModel<Input> {
        StreamModel {
            source: self.iter,
            offset: self.offset as nat,
            pulled: self.buffer_offset as nat,
            retained: self.buffer@,
            marks: marks(self.checkpoints@),
            deferred: self.deferred_error,
        }
    }
}

impl<Input> Stream<Input> where Input: StreamOnce + Positioned {
    /// Constructs a new checkpoint stream wrapping `iter`.
    pub fn new(iter: Input) -> (stream: Stream<Input>)
        ensures
            stream@ == StreamModel::fresh(iter),
    {
        let stream = Stream {
            iter,
            offset: 0,
            buffer_offset: 0,
            buffer: VecDeque::new(),
            checkpoints: Vec::new(),
            deferred_error: None,
        };
        assert(stream@ =~= StreamModel::fresh(iter));
        stream
    }

    /// Returns a reference to the wrapped stream.
    pub fn get_ref(&self) -> (iter: &Input)
        ensures
            *iter == self@.source,
    {
        &self.iter
    }

    /// Returns a mutable reference to the wrapped stream.
    ///
    /// It is inadvisable to directly read from the underlying stream.
    pub fn get_mut(&mut self) -> (iter: &mut Input)
        ensures
            *iter == old(self)@.source,
            final(self)@ == (StreamModel { source: *final(iter), ..old(self)@ }),
    {
        &mut self.iter
    }

    /// Consumes this wrapper, returning the wrapped stream.
    pub fn into_inner(self) -> (iter: Input)
        ensures
            iter == self@.source,
    {
        self.iter
    }

    /// Returns the number of tokens which are currently retained in the
    /// buffer.
    ///
    /// While checkpoints are active these reach back to each of them. Tokens
    /// before the read head and before every active checkpoint go whenever a
    /// checkpoint is committed or reset. Once all checkpoints are committed only
    /// tokens which have not been consumed yet are retained.
    pub fn buffered_len(&self) -> (len: usize)
        ensures
            len == self@.retained.len(),
    {
        self.buffer.len()
    }

    /// Returns the number of currently active (not yet committed or reset)
    /// checkpoints.
    pub fn active_checkpoints(&self) -> (active: usize)
        ensures
            active == self@.marks.len(),
    {
        self.checkpoints.len()
    }

    /// Begins a checkpoint with the given token budget and returns a guard
    /// for it.
    ///
    /// The guard dereferences to the stream so parsers can be run on it while
    /// the checkpoint is active. Guards nest according to stack order: a
    /// guard created from another guard must be committed, reset or dropped
    /// before the outer guard.
    ///
    /// **[Dropping](CheckpointGuard::drop) the guard without committing it
    /// resets the stream to the checkpoint.** If more tokens than `budget` were
    /// read the reset fails and an error is returned by the next call to
    /// `uncons` instead.
    #[must_use]
    pub fn checkpoint_guard(&mut self, budget: usize) -> (guard: CheckpointGuard<'_, Input>)
        requires
            old(self).inv(),
        ensures
            guard.target()@ == old(self)@.begun(budget as nat),
            guard.target().inv(),
            *final(guard.target()) == *final(self),
    {
        self.begin_checkpoint(budget);
        CheckpointGuard { stream: self }
    }

    /// Returns what the stream shows of itself when it is formatted for debugging.
    pub fn debug(&self) -> (parts: debug::Stream<'_, Input>)
        ensures
            *parts.iter == self@.source,
            parts.offset == self@.offset,
            parts.buffer_offset == self@.pulled,
            parts.buffer@ == self@.retained,
            parts.checkpoints@.len() == self@.marks.len(),
            forall|i: int|
                0 <= i < self@.marks.len() ==> (#[trigger] parts.checkpoints@[i]).offset
                    == self@.marks[i].offset && parts.checkpoints@[i].budget
                    == self@.marks[i].budget,
    {
        let mut checkpoints: Vec<debug::ActiveCheckpoint> = Vec::new();
        let mut i: usize = 0;
        while i < self.checkpoints.len()
            invariant
                i <= self.checkpoints.len(),
                checkpoints.len() == i,
                forall|j: int|
                    0 <= j < i ==> (#[trigger] checkpoints@[j]).offset == self.checkpoints[j].offset
                        && checkpoints@[j].budget == self.checkpoints[j].budget,
            decreases self.checkpoints.len() - i,
        {
            let checkpoint = &self.checkpoints[i];
            checkpoints.push(
                debug::ActiveCheckpoint { offset: checkpoint.offset, budget: checkpoint.budget },
            );
            i = i + 1;
        }
        debug::Stream {
            iter: &self.iter,
            offset: self.offset,
            buffer_offset: self.buffer_offset,
            buffer: &self.buffer,
            checkpoints,
        }
    }

    /// Notes that a read led to where the read head is.
    fn note_read(&mut self)
        ensures
            final(self)@ == (StreamModel {
                marks: model::read_to(old(self)@.marks, old(self)@.offset),
                ..old(self)@
            }),
    {
        let ghost before = self.checkpoints@;
        let active: usize = self.checkpoints.len();
        if active > 0 {
            if self.checkpoints[active - 1].read < self.offset {
                self.checkpoints[active - 1].read = self.offset;
            }
            proof {
                lemma_noted(before, self.checkpoints@, self.offset);
            }
        }
        assert(self@ =~= (StreamModel {
            marks: model::read_to(old(self)@.marks, old(self)@.offset),
            ..old(self)@
        }));
    }

    /// Takes the innermost checkpoint off the stack. What was read behind it was read behind the
    /// checkpoint around it, too.
    fn pop_checkpoint(&mut self) -> (popped: Option<ActiveCheckpoint>)
        ensures
            match popped {
                Some(checkpoint) => {
                    &&& old(self)@.marks.len() > 0
                    &&& old(self)@.marks.last() == Mark {
                        offset: checkpoint.offset as nat,
                        reached: checkpoint.offset as nat,
                        budget: checkpoint.budget as nat,
                    }.read_to(checkpoint.read as nat)
                    &&& final(self)@ == (StreamModel {
                        marks: old(self)@.marks.drop_last(),
                        ..old(self)@
                    })
                },
                None => old(self)@.marks.len() == 0 && final(self)@ == old(self)@,
            },
    {
        let ghost before = self.checkpoints@;
        let popped = self.checkpoints.pop();
        if let Some(checkpoint) = &popped {
            let active: usize = self.checkpoints.len();
            if active > 0 && self.checkpoints[active - 1].read < checkpoint.read {
                self.checkpoints[active - 1].read = checkpoint.read;
            }
            proof {
                lemma_popped(before, self.checkpoints@);
                let innermost = before.skip(before.len() - 1);
                reveal_with_fuel(furthest, 2);
                assert(innermost.drop_last().len() == 0 && innermost.last() == *checkpoint);
            }
            assert(self@ =~= (StreamModel { marks: old(self)@.marks.drop_last(), ..old(self)@ }));
        } else {
            assert(self@ =~= old(self)@);
        }
        popped
    }

    /// Evicts buffered tokens which can no longer be observed: tokens before
    /// the read head which no active checkpoint can reset to.
    fn evict(&mut self)
        requires
            old(self)@.inv(),
        ensures
            final(self)@ == old(self)@.evicted(),
            final(self)@.inv(),
    {
        let ghost before = self@;
        let mut floor: usize = self.offset;
        let mut i: usize = 0;
        assert(before.marks.take(0) =~= Seq::<Mark>::empty());
        while i < self.checkpoints.len()
            invariant
                self@ == before,
                i <= self.checkpoints.len(),
                before.marks.len() == self.checkpoints.len(),
                floor == model::lowest(before.marks.take(i as int), before.offset),
            decreases self.checkpoints.len() - i,
        {
            let offset: usize = self.checkpoints[i].offset;
            assert(before.marks.take(i + 1).drop_last() =~= before.marks.take(i as int));
            assert(before.marks.take(i + 1).last() == before.marks[i as int]);
            if offset < floor {
                floor = offset;
            }
            i = i + 1;
        }
        assert(before.marks.take(i as int) =~= before.marks);
        proof {
            model::lemma_evicted_inv(before);
        }
        let mut start: usize = self.buffer_offset - self.buffer.len();
        while start < floor
            invariant
                before.start() <= start,
                before.inv(),
                start <= floor,
                floor == before.floor(),
                before.floor() <= before.offset,
                self@ == (StreamModel {
                    retained: before.retained.skip(start - before.start()),
                    ..before
                }),
            decreases floor - start,
        {
            self.buffer.pop_front();
            start = start + 1;
            assert(self@.retained =~= before.retained.skip(start - before.start()));
            assert(self@ =~= (StreamModel {
                retained: before.retained.skip(start - before.start()),
                ..before
            }));
        }
        if self.checkpoints.len() == 0 && self.buffer.len() == 0 {
            // Release the buffer capacity promptly once nothing can reference it anymore
            self.buffer = VecDeque::new();
        }
        assert(self@ =~= before.evicted());
    }
}

impl<Input> StreamOnce for Stream<Input> where Input: StreamOnce + Positioned {
    type Token = Input::Token;

    type Range = Input::Range;

    type Position = Input::Position;

    type Error = Input::Error;

    open spec fn inv(&self) -> bool {
        self@.inv()
    }

    open spec fn can_uncons(&self) -> bool {
        ||| self@.deferred is Some
        ||| self@.offset < self@.pulled
        ||| self@.source.can_uncons() && self@.pulled < usize::MAX
    }

    open spec fn unconses(
        before: Self,
        after: Self,
        result: Result<Input::Token, StreamErrorFor<Input>>,
    ) -> bool {
        before@.unconses(after@, result)
    }

    open spec fn partial(&self) -> bool {
        self@.source.partial()
    }

    fn uncons(&mut self) -> (result: Result<Input::Token, StreamErrorFor<Input>>) {
        let ghost before = self@;
        if let Some(err) = self.deferred_error.take() {
            assert(self@ =~= (StreamModel { deferred: None, ..before }));
            return Err(err);
        }
        assert(self@ =~= before);
        if self.offset >= self.buffer_offset {
            let position = self.iter.position();
            match self.iter.uncons() {
                Ok(token) => {
                    self.buffer_offset = self.buffer_offset + 1;
                    self.offset = self.offset + 1;
                    let copy = token.clone();
                    self.buffer.push_back((copy, position));
                    self.note_read();
                    assert(before.pulls(self@, token, copy, position));
                    Ok(token)
                },
                Err(err) => {
                    assert(self@ =~= (StreamModel { source: self.iter, ..before }));
                    Err(err)
                },
            }
        } else {
            let index: usize = self.buffer.len() - (self.buffer_offset - self.offset);
            let value = self.buffer[index].0.clone();
            self.offset = self.offset + 1;
            self.note_read();
            assert(self@ =~= (StreamModel {
                offset: before.offset + 1,
                marks: model::read_to(before.marks, before.offset + 1),
                ..before
            }));
            Ok(value)
        }
    }

    fn is_partial(&self) -> (partial: bool) {
        self.iter.is_partial()
    }
}

impl<Input> Positioned for Stream<Input> where Input: StreamOnce + Positioned {
    open spec fn is_at(&self, position: Input::Position) -> bool {
        self@.is_at(position)
    }

    fn position(&self) -> (position: Input::Position) {
        if self.offset >= self.buffer_offset {
            self.iter.position()
        } else {
            self.buffer[self.buffer.len() - (self.buffer_offset - self.offset)].1.clone()
        }
    }
}

impl<Input> ResetStream for Stream<Input> where Input: StreamOnce + Positioned {
    type Checkpoint = usize;

    open spec fn is_marked_by(&self, checkpoint: usize) -> bool {
        checkpoint == self@.offset
    }

    open spec fn resets(
        before: Self,
        checkpoint: usize,
        after: Self,
        result: Result<(), Input::Error>,
    ) -> bool {
        if before@.start() <= checkpoint <= before@.pulled {
            &&& result is Ok
            &&& after@ == StreamModel { offset: checkpoint as nat, ..before@ }
        } else {
            &&& result matches Err(error)
            &&& model::is_report_of(error, before@, "Backtracked to far")
            &&& after@ == before@
        }
    }

    fn checkpoint(&self) -> (checkpoint: usize) {
        self.offset
    }

    fn reset(&mut self, checkpoint: usize) -> (result: Result<(), Input::Error>) {
        let ghost before = self@;
        if checkpoint < self.buffer_offset - self.buffer.len() || checkpoint > self.buffer_offset {
            // We have backtracked to far
            Err(
                ParseError::from_error(
                    self.position(),
                    StreamError::message_static_message("Backtracked to far"),
                ),
            )
        } else {
            self.offset = checkpoint;
            assert(self@ =~= (StreamModel { offset: checkpoint as nat, ..before }));
            Ok(())
        }
    }
}

impl<Input> CheckpointStream for Stream<Input> where Input: StreamOnce + Positioned {
    open spec fn begins(before: Self, budget: usize, after: Self) -> bool {
        after@ == before@.begun(budget as nat)
    }

    open spec fn commits(before: Self, after: Self) -> bool {
        after@ == before@.committed()
    }

    open spec fn rewinds(before: Self, after: Self, result: Result<(), Input::Error>) -> bool {
        before@.rewinds(after@, result)
    }

    fn begin_checkpoint(&mut self, budget: usize) {
        let checkpoint = ActiveCheckpoint { offset: self.offset, read: 0, budget };
        proof {
            lemma_pushed(self.checkpoints@, checkpoint);
        }
        self.checkpoints.push(checkpoint);
        assert(self@ =~= old(self)@.begun(budget as nat));
        assert(Self::begins(*old(self), budget, *self));
    }

    fn commit_checkpoint(&mut self) {
        if self.pop_checkpoint().is_some() {
            proof {
                model::lemma_popped_inv(old(self)@, old(self)@.offset);
            }
            self.evict();
        }
    }

    fn reset_checkpoint(&mut self) -> (result: Result<(), Input::Error>) {
        let ghost before = self@;
        let checkpoint = match self.pop_checkpoint() {
            Some(checkpoint) => checkpoint,
            None => {
                return Err(
                    ParseError::from_error(
                        self.position(),
                        StreamError::message_static_message(
                            "reset_checkpoint called without an active checkpoint",
                        ),
                    ),
                );
            },
        };
        proof {
            model::lemma_popped_inv(before, before.offset);
            model::lemma_popped_inv(before, before.marks.last().offset);
        }
        if checkpoint.read > checkpoint.offset && checkpoint.read - checkpoint.offset
            > checkpoint.budget {
            self.evict();
            // Report the error at the furthest position reached so that
            // merging it with the parse error keeps the most useful
            // information
            return Err(
                ParseError::from_error(
                    self.iter.position(),
                    StreamError::message_static_message("checkpoint token budget exceeded"),
                ),
            );
        }
        self.offset = checkpoint.offset;
        assert(self@ =~= (StreamModel {
            marks: before.marks.drop_last(),
            offset: before.marks.last().offset,
            ..before
        }));
        self.evict();
        Ok(())
    }
}

/// Guard for a checkpoint created with [`Stream::checkpoint_guard`].
///
/// While the guard is alive it dereferences to the stream so that parsers can
/// be run on it. It is used up by one of [`commit`](CheckpointGuard::commit),
/// [`reset`](CheckpointGuard::reset) and [`drop`](CheckpointGuard::drop). The
/// guard has no destructor, so what it does to the stream happens in these calls
/// alone; a guard which merely goes out of scope leaves its checkpoint active.
#[must_use]
pub struct CheckpointGuard<'a, Input> where Input: StreamOnce + Positioned {
    stream: &'a mut Stream<Input>,
}

impl<'a, Input> CheckpointGuard<'a, Input> where Input: StreamOnce + Positioned {
    /// The stream which the guard was created from.
    pub closed spec fn target(self) -> &'a mut Stream<Input> {
        self.stream
    }

    /// Commits the checkpoint, consuming the guard. Buffered data which is no
    /// longer needed by any active checkpoint is released.
    pub fn commit(self)
        requires
            self.target().inv(),
        ensures
            final(self.target())@ == old(self.target())@.committed(),
            final(self.target()).inv(),
    {
        self.stream.commit_checkpoint();
    }

    /// Resets the stream to the checkpoint, consuming the guard.
    ///
    /// Fails if more tokens than the checkpoint's budget were read since the
    /// checkpoint was begun.
    pub fn reset(self) -> (result: Result<(), Input::Error>)
        requires
            self.target().inv(),
        ensures
            old(self.target())@.rewinds(final(self.target())@, result),
            final(self.target()).inv(),
    {
        self.stream.reset_checkpoint()
    }

    /// Drops the guard without committing it, which resets the stream to the
    /// checkpoint (best effort: if the token budget was exceeded the reset fails
    /// and an error is returned by the next call to `uncons`). Use
    /// [`reset`](CheckpointGuard::reset) to handle a failed reset explicitly.
    pub fn drop(self)
        requires
            self.target().inv(),
        ensures
            old(self.target())@.abandons(final(self.target())@),
            final(self.target()).inv(),
    {
        let ghost before = self.stream@;
        // A failed reset cannot be reported here so it is deferred to the next
        // `uncons` call.
        if self.stream.reset_checkpoint().is_err() {
            let ghost failed = self.stream@;
            let err = StreamError::message_static_message(
                "checkpoint dropped after its token budget was exceeded",
            );
            self.stream.deferred_error = Some(err);
            assert(self.stream@ =~= (StreamModel { deferred: Some(err), ..failed }));
        }
    }
}

impl<'a, Input> std::ops::Deref for CheckpointGuard<'a, Input> where
    Input: StreamOnce + Positioned,
 {
    type Target = Stream<Input>;

    fn deref(&self) -> (stream: &Stream<Input>)
        ensures
            *stream == *self.target(),
    {
        &*self.stream
    }
}

impl<'a, Input> std::ops::DerefMut for CheckpointGuard<'a, Input> where
    Input: StreamOnce + Positioned,
 {
    fn deref_mut(&mut self) -> (stream: &mut Stream<Input>)
        ensures
            *stream == *old(self).target(),
            *final(self).target() == *final(stream),
            *final(final(self).target()) == *final(old(self).target()),
    {
        &mut *self.stream
    }
}

} // verus!
