//! What each call on a checkpointed stream does, and how calls relate to one another.
//!
//! The laws speak of the calls themselves: of whatever the contract of a method admits. Together
//! with [`laws`](crate::stream::laws), to which [`law_uncons_is_a_step`] and the laws after it
//! lead over, they hold of every sequence of calls.

use vstd::prelude::*;

use crate::error::{ParseError, StreamError};
use crate::stream::checkpoint::{CheckpointGuard, CheckpointStream, Stream};
use crate::stream::debug;
use crate::stream::history;
use crate::stream::history::Step;
use crate::stream::laws;
use crate::stream::model;
use crate::stream::model::StreamModel;
use crate::stream::{Positioned, ResetStream, StreamErrorFor, StreamOnce};

verus! {

/// Whether `error` reports `msg` at a position of the wrapped stream `source`.
pub open spec fn reports_at_source<Input: StreamOnce + Positioned>(
    error: Input::Error,
    source: Input,
    msg: &str,
) -> bool {
    exists|position: Input::Position, err: StreamErrorFor<Input>|
        source.is_at(position) && err.is_message(msg) && #[trigger] error.is_error_at(position, err)
}

/// Whether `error` reports `msg` at a position of the stream `s`: that which was retained with
/// the token at the read head, or that of the wrapped stream where no token is retained there.
pub open spec fn reports_at_head<Input: StreamOnce + Positioned>(
    error: Input::Error,
    s: StreamModel<Input>,
    msg: &str,
) -> bool {
    exists|position: Input::Position, err: StreamErrorFor<Input>|
        {
            &&& if s.offset < s.pulled {
                vstd::pervasive::strictly_cloned(
                    s.retained[s.retained.len() - (s.pulled - s.offset)].1,
                    position,
                )
            } else {
                s.source.is_at(position)
            }
            &&& err.is_message(msg)
            &&& #[trigger] error.is_error_at(position, err)
        }
}

/// Whether `after` retains of the tokens of `before` exactly those which the read head or an
/// active checkpoint of `after` can still need, and nothing was pulled.
pub open spec fn retains_what_is_needed<Input: StreamOnce + Positioned>(
    before: StreamModel<Input>,
    after: StreamModel<Input>,
) -> bool {
    let start = after.pulled - after.retained.len();
    &&& after.pulled == before.pulled
    &&& after.source == before.source
    &&& after.retained.len() <= before.retained.len()
    &&& after.retained == before.retained.skip(before.retained.len() - after.retained.len())
    &&& start <= after.offset
    &&& forall|i: int| 0 <= i < after.marks.len() ==> start <= (#[trigger] after.marks[i]).offset
    &&& start == after.offset || exists|i: int|
        0 <= i < after.marks.len() && start == (#[trigger] after.marks[i]).offset
}

/// Whether the innermost checkpoint of `before` was given up and nothing else happened, but that
/// tokens were released which nothing needs any more.
pub open spec fn gives_up_innermost<Input: StreamOnce + Positioned>(
    before: StreamModel<Input>,
    after: StreamModel<Input>,
) -> bool {
    &&& before.marks.len() > 0
    &&& after.marks == before.marks.drop_last()
    &&& retains_what_is_needed(before, after)
}

/// What the call to go back promises.
proof fn lemma_reset_call<'a, S: ResetStream>(
    stream: &'a mut S,
    mark: S::Checkpoint,
    result: Result<(), S::Error>,
)
    requires
        call_ensures(<S as ResetStream>::reset, (stream, mark), result),
    ensures
        final(stream).inv(),
        S::resets(*old(stream), mark, *final(stream), result),
{
}

/// When the call to go back may be made.
proof fn lemma_reset_may_be_called<'a, S: ResetStream>(stream: &'a mut S, mark: S::Checkpoint)
    requires
        old(stream).inv(),
    ensures
        call_requires(<S as ResetStream>::reset, (stream, mark)),
{
}

/// A new stream wraps the given one, and has read nothing.
pub proof fn law_new<Input: StreamOnce + Positioned>(iter: Input, stream: Stream<Input>)
    requires
        call_ensures(Stream::<Input>::new, (iter,), stream),
    ensures
        stream@.source == iter,
        stream@.offset == 0,
        stream@.pulled == 0,
        stream@.retained.len() == 0,
        stream@.marks.len() == 0,
        stream@.deferred is None,
        iter.inv() ==> stream.inv(),
{
}

/// Every stream can be wrapped.
pub proof fn law_new_may_be_called<Input: StreamOnce + Positioned>(iter: Input)
    ensures
        call_requires(Stream::<Input>::new, (iter,)),
{
}

/// What can be learned of a stream without changing it: the wrapped stream, how many tokens are
/// retained and how many checkpoints are active.
pub proof fn law_accessors<Input: StreamOnce + Positioned>(
    stream: &Stream<Input>,
    iter: &Input,
    buffered: usize,
    active: usize,
    inner: Input,
)
    requires
        call_ensures(Stream::<Input>::get_ref, (stream,), iter),
        call_ensures(Stream::<Input>::buffered_len, (stream,), buffered),
        call_ensures(Stream::<Input>::active_checkpoints, (stream,), active),
        call_ensures(Stream::<Input>::into_inner, (*stream,), inner),
    ensures
        *iter == stream@.source,
        inner == stream@.source,
        buffered == stream@.retained.len(),
        active == stream@.marks.len(),
{
}

/// Through a reference to the wrapped stream, the wrapped stream is changed and nothing else.
pub proof fn law_get_mut<'a, Input: StreamOnce + Positioned>(
    stream: &'a mut Stream<Input>,
    iter: &'a mut Input,
)
    requires
        call_ensures(Stream::<Input>::get_mut, (stream,), iter),
    ensures
        *old(iter) == old(stream)@.source,
        final(stream)@.source == *final(iter),
        final(stream)@.offset == old(stream)@.offset,
        final(stream)@.pulled == old(stream)@.pulled,
        final(stream)@.retained == old(stream)@.retained,
        final(stream)@.marks == old(stream)@.marks,
        final(stream)@.deferred == old(stream)@.deferred,
{
}

/// A stream can be looked at, and taken apart, at any time.
pub proof fn law_accessors_may_be_called<'a, Input: StreamOnce + Positioned>(
    stream: &'a Stream<Input>,
    changed: &'a mut Stream<Input>,
)
    ensures
        call_requires(Stream::<Input>::get_ref, (stream,)),
        call_requires(Stream::<Input>::get_mut, (changed,)),
        call_requires(Stream::<Input>::into_inner, (*stream,)),
        call_requires(Stream::<Input>::buffered_len, (stream,)),
        call_requires(Stream::<Input>::active_checkpoints, (stream,)),
        call_requires(Stream::<Input>::debug, (stream,)),
        call_requires(<Stream<Input> as StreamOnce>::is_partial, (stream,)),
        stream.inv() ==> call_requires(<Stream<Input> as ResetStream>::checkpoint, (stream,)),
{
}

/// What is shown of a stream for debugging is what it holds.
pub proof fn law_debug<'a, Input: StreamOnce + Positioned>(
    stream: &'a Stream<Input>,
    parts: debug::Stream<'a, Input>,
)
    requires
        call_ensures(Stream::<Input>::debug, (stream,), parts),
    ensures
        *parts.iter == stream@.source,
        parts.offset == stream@.offset,
        parts.buffer_offset == stream@.pulled,
        parts.buffer@ == stream@.retained,
        parts.checkpoints@.len() == stream@.marks.len(),
        forall|i: int|
            0 <= i < stream@.marks.len() ==> (#[trigger] parts.checkpoints@[i]).offset
                == stream@.marks[i].offset && parts.checkpoints@[i].budget
                == stream@.marks[i].budget,
{
}

/// The invariant asks for no more than that the wrapped stream has its own, that tokens are
/// retained from the read head and from every checkpoint on, and that numbers fit.
pub proof fn law_invariant<Input: StreamOnce + Positioned>(stream: &Stream<Input>)
    ensures
        stream.inv() <==> {
            let s = stream@;
            &&& s.source.inv()
            &&& s.retained.len() <= s.pulled
            &&& s.pulled - s.retained.len() <= s.offset <= s.pulled <= usize::MAX
            &&& forall|i: int|
                0 <= i < s.marks.len() ==> s.pulled - s.retained.len() <= (
                #[trigger] s.marks[i]).offset <= s.marks[i].reached <= s.pulled
                    && s.marks[i].budget <= usize::MAX
        },
{
}

/// A checkpointed stream is partial exactly if its wrapped stream is, whatever was read, reset or
/// retained.
pub proof fn law_partial<Input: StreamOnce + Positioned>(
    stream: &Stream<Input>,
    partial: bool,
    source_partial: bool,
)
    requires
        call_ensures(<Stream<Input> as StreamOnce>::is_partial, (stream,), partial),
        call_ensures(<Input as StreamOnce>::is_partial, (&stream@.source,), source_partial),
    ensures
        partial == source_partial,
        stream.partial() <==> stream@.source.partial(),
{
}

/// No operation but a change to the wrapped stream can make a checkpointed stream partial, or no
/// longer partial, where reading leaves the wrapped stream partial or not as it was.
pub proof fn law_partial_stays<Input: StreamOnce + Positioned>(
    before: &Stream<Input>,
    after: &Stream<Input>,
)
    requires
        before@.source.partial() == after@.source.partial(),
    ensures
        before.partial() == after.partial(),
{
}

/// A read gives the deferred error, once; else a clone of the retained token at the read head;
/// else what the wrapped stream gives. A token which it gives moves the read head, and every
/// active checkpoint notes how far it led.
pub proof fn law_uncons<'a, Input: StreamOnce + Positioned>(
    stream: &'a mut Stream<Input>,
    result: Result<Input::Token, StreamErrorFor<Input>>,
)
    requires
        old(stream).inv(),
        call_ensures(<Stream<Input> as StreamOnce>::uncons, (stream,), result),
    ensures
        final(stream).inv(),
        ({
            let before = old(stream)@;
            let after = final(stream)@;
            &&& after.deferred is None
            &&& match before.deferred {
                Some(err) => {
                    &&& result == Err::<Input::Token, StreamErrorFor<Input>>(err)
                    &&& after.source == before.source
                    &&& after.pulled == before.pulled
                    &&& after.retained == before.retained
                },
                None => if before.offset < before.pulled {
                    &&& result is Ok
                    &&& vstd::pervasive::strictly_cloned(
                        before.retained[before.retained.len() - (before.pulled - before.offset)].0,
                        result->Ok_0,
                    )
                    &&& after.source == before.source
                    &&& after.pulled == before.pulled
                    &&& after.retained == before.retained
                } else {
                    &&& Input::unconses(before.source, after.source, result)
                    &&& match result {
                        Ok(token) => {
                            &&& after.pulled == before.pulled + 1
                            &&& after.retained.len() == before.retained.len() + 1
                            &&& after.retained.drop_last() == before.retained
                            &&& vstd::pervasive::strictly_cloned(token, after.retained.last().0)
                            &&& before.source.is_at(after.retained.last().1)
                        },
                        Err(_) => {
                            &&& after.pulled == before.pulled
                            &&& after.retained == before.retained
                        },
                    }
                },
            }
            &&& match result {
                Ok(_) => {
                    &&& after.offset == before.offset + 1
                    &&& after.marks.len() == before.marks.len()
                    &&& forall|i: int|
                        0 <= i < before.marks.len() ==> {
                            &&& (#[trigger] after.marks[i]).offset == before.marks[i].offset
                            &&& after.marks[i].budget == before.marks[i].budget
                            &&& after.marks[i].reached == if before.marks[i].reached
                                < before.offset + 1 {
                                before.offset + 1
                            } else {
                                before.marks[i].reached
                            }
                        }
                },
                Err(_) => {
                    &&& after.offset == before.offset
                    &&& after.marks == before.marks
                },
            }
        }),
{
    let before = old(stream)@;
    let after = final(stream)@;
    if before.deferred is None && before.offset >= before.pulled && result is Ok {
        let (copy, position) = choose|copy: Input::Token, position: Input::Position| #[trigger]
            before.pulls(after, result->Ok_0, copy, position);
        assert(after.retained.last() == (copy, position));
        assert(after.retained.drop_last() =~= before.retained);
    }
}

/// A read may be asked for wherever it needs nothing of the wrapped stream, and wherever the
/// wrapped stream may be read and the count of tokens does not overflow.
pub proof fn law_uncons_may_be_called<'a, Input: StreamOnce + Positioned>(
    stream: &'a mut Stream<Input>,
)
    requires
        old(stream).inv(),
        old(stream)@.deferred is Some || old(stream)@.offset < old(stream)@.pulled || (old(
            stream,
        )@.source.can_uncons() && old(stream)@.pulled < usize::MAX),
    ensures
        call_requires(<Stream<Input> as StreamOnce>::uncons, (stream,)),
        old(stream).can_uncons(),
{
}

/// The position is that which was retained with the token at the read head, or that of the
/// wrapped stream where no token is retained there.
pub proof fn law_position<Input: StreamOnce + Positioned>(
    stream: &Stream<Input>,
    position: Input::Position,
)
    requires
        call_ensures(<Stream<Input> as Positioned>::position, (stream,), position),
    ensures
        stream.is_at(position),
        if stream@.offset < stream@.pulled {
            vstd::pervasive::strictly_cloned(
                stream@.retained[stream@.retained.len() - (stream@.pulled - stream@.offset)].1,
                position,
            )
        } else {
            stream@.source.is_at(position)
        },
{
}

/// What the position is does not depend on anything else.
pub proof fn law_is_at<Input: StreamOnce + Positioned>(
    stream: &Stream<Input>,
    position: Input::Position,
)
    ensures
        stream.is_at(position) <==> if stream@.offset < stream@.pulled {
            vstd::pervasive::strictly_cloned(
                stream@.retained[stream@.retained.len() - (stream@.pulled - stream@.offset)].1,
                position,
            )
        } else {
            stream@.source.is_at(position)
        },
        stream.inv() ==> call_requires(<Stream<Input> as Positioned>::position, (stream,)),
{
}

/// Where a stream stands is told by the number of tokens before the read head.
pub proof fn law_mark<Input: StreamOnce + Positioned>(stream: &Stream<Input>, mark: usize)
    requires
        call_ensures(<Stream<Input> as ResetStream>::checkpoint, (stream,), mark),
    ensures
        stream.is_marked_by(mark),
        mark == stream@.offset,
{
}

/// Going back moves the read head to where tokens are retained, and does nothing else. Anywhere
/// else it is refused, and nothing is changed.
pub proof fn law_backtrack<'a, Input: StreamOnce + Positioned>(
    stream: &'a mut Stream<Input>,
    mark: usize,
    result: Result<(), Input::Error>,
)
    requires
        old(stream).inv(),
        call_ensures(<Stream<Input> as ResetStream>::reset, (stream, mark), result),
    ensures
        final(stream).inv(),
        ({
            let before = old(stream)@;
            let after = final(stream)@;
            &&& result is Ok <==> before.pulled - before.retained.len() <= mark <= before.pulled
            &&& after.offset == if result is Ok {
                mark as nat
            } else {
                before.offset
            }
            &&& result matches Err(error) ==> reports_at_head(error, before, "Backtracked to far")
            &&& after.source == before.source
            &&& after.pulled == before.pulled
            &&& after.retained == before.retained
            &&& after.marks == before.marks
            &&& after.deferred == before.deferred
        }),
{
    lemma_reset_call(stream, mark, result);
    if let Err(error) = result {
        let before = old(stream)@;
        let (position, err) = choose|position: Input::Position, err: StreamErrorFor<Input>|
            before.is_at(position) && err.is_message("Backtracked to far")
                && #[trigger] error.is_error_at(position, err);
        assert(error.is_error_at(position, err));
    }
}

/// Marking where a stream stands and going back there are inverse, whatever was done in between,
/// as long as no token since was given up. Then the tokens are read again which were read from
/// there on, at the positions which they had.
pub proof fn law_mark_and_return<'a, Input: StreamOnce + Positioned>(
    marked: &Stream<Input>,
    mark: usize,
    states: Seq<StreamModel<Input>>,
    steps: Seq<Step<Input>>,
    stream: &'a mut Stream<Input>,
    result: Result<(), Input::Error>,
    again: Seq<StreamModel<Input>>,
    replayed: Seq<Input::Token>,
)
    requires
        marked.is_marked_by(mark),
        states[0] == marked@,
        history::is_run(states, steps),
        states.last() == old(stream)@,
        old(stream)@.pulled - old(stream)@.retained.len() <= marked@.offset,
        call_ensures(<Stream<Input> as ResetStream>::reset, (stream, mark), result),
        again[0] == final(stream)@,
        laws::reads(again, replayed),
    ensures
        result is Ok,
        final(stream)@.offset == marked@.offset,
        laws::rereads(states, steps, again, replayed),
{
    lemma_reset_call(stream, mark, result);
    assert(old(stream)@.inv());
    history::lemma_run_keeps_tokens(states, steps, 0, states.len() - 1);
    laws::law_backtrack_replays(states, steps, mark as nat, again, replayed);
}

/// The same, said of the relation which every stream with marks promises.
pub proof fn law_marked_place_is_found_again<Input: StreamOnce + Positioned>(
    marked: Stream<Input>,
    mark: usize,
    before: Stream<Input>,
    after: Stream<Input>,
    result: Result<(), Input::Error>,
)
    requires
        marked.is_marked_by(mark),
        before@.pulled - before@.retained.len() <= marked@.offset <= before@.pulled,
        Stream::<Input>::resets(before, mark, after, result),
    ensures
        result is Ok,
        after@ == (StreamModel { offset: marked@.offset, ..before@ }),
        after.is_marked_by(mark),
        Step::<Input>::Backtrack(marked@.offset).takes(before@, after@),
{
}

/// Beginning a checkpoint notes where the read head is and the budget, with nothing read behind
/// it, inside the checkpoints which are active. Nothing else changes.
pub proof fn law_begin<'a, Input: StreamOnce + Positioned>(
    stream: &'a mut Stream<Input>,
    budget: usize,
)
    requires
        old(stream).inv(),
        call_ensures(<Stream<Input> as CheckpointStream>::begin_checkpoint, (stream, budget), ()),
    ensures
        final(stream).inv(),
        is_begun(old(stream)@, budget as nat, final(stream)@),
{
    assert(final(stream)@.marks.drop_last() =~= old(stream)@.marks);
}

/// Whether `after` is `before` with one more checkpoint, inside those which are active.
pub open spec fn is_begun<Input: StreamOnce + Positioned>(
    before: StreamModel<Input>,
    budget: nat,
    after: StreamModel<Input>,
) -> bool {
    &&& after.source == before.source
    &&& after.offset == before.offset
    &&& after.pulled == before.pulled
    &&& after.retained == before.retained
    &&& after.deferred == before.deferred
    &&& after.marks.len() == before.marks.len() + 1
    &&& after.marks.drop_last() == before.marks
    &&& after.marks.last().offset == before.offset
    &&& after.marks.last().reached == before.offset
    &&& after.marks.last().budget == budget
}

/// Checkpoints can be begun, committed and reset at any time.
pub proof fn law_checkpoints_may_be_used<'a, Input: StreamOnce + Positioned>(
    stream: &'a mut Stream<Input>,
    budget: usize,
    mark: usize,
)
    requires
        old(stream).inv(),
    ensures
        call_requires(<Stream<Input> as CheckpointStream>::begin_checkpoint, (stream, budget)),
        call_requires(<Stream<Input> as CheckpointStream>::commit_checkpoint, (stream,)),
        call_requires(<Stream<Input> as CheckpointStream>::reset_checkpoint, (stream,)),
        call_requires(<Stream<Input> as ResetStream>::reset, (stream, mark)),
        call_requires(Stream::<Input>::checkpoint_guard, (stream, budget)),
{
    lemma_reset_may_be_called(stream, mark);
}

/// Whether `after` is `before` with its innermost checkpoint committed, at any depth and however
/// many tokens were read: the read head, what is deferred, the wrapped stream and the enclosing
/// checkpoints are as they were. Where no checkpoint is active, nothing happens.
pub open spec fn is_committed<Input: StreamOnce + Positioned>(
    before: StreamModel<Input>,
    after: StreamModel<Input>,
) -> bool {
    if before.marks.len() == 0 {
        after == before
    } else {
        &&& gives_up_innermost(before, after)
        &&& after.offset == before.offset
        &&& after.deferred == before.deferred
    }
}

/// Whether `after` is `before` with its innermost checkpoint reset, with `result`: back where the
/// checkpoint was begun exactly if no more tokens past it were read than its budget, else with the
/// read head where it was. Where no checkpoint is active, nothing happens.
pub open spec fn is_reset<Input: StreamOnce + Positioned>(
    before: StreamModel<Input>,
    after: StreamModel<Input>,
    result: Result<(), Input::Error>,
) -> bool {
    if before.marks.len() == 0 {
        &&& result matches Err(error)
        &&& reports_at_head(error, before, "reset_checkpoint called without an active checkpoint")
        &&& after == before
    } else {
        &&& gives_up_innermost(before, after)
        &&& after.deferred == before.deferred
        &&& result is Ok <==> before.marks.last().reached - before.marks.last().offset
            <= before.marks.last().budget
        &&& after.offset == if result is Ok {
            before.marks.last().offset
        } else {
            before.offset
        }
        &&& result matches Err(error) ==> reports_at_source(
            error,
            before.source,
            "checkpoint token budget exceeded",
        )
    }
}

/// What giving up tokens leaves is what is needed.
proof fn lemma_evicted<Input: StreamOnce + Positioned>(s: StreamModel<Input>)
    requires
        s.inv(),
    ensures
        retains_what_is_needed(s, s.evicted()),
        s.evicted().marks == s.marks,
        s.evicted().offset == s.offset,
        s.evicted().deferred == s.deferred,
{
    let after = s.evicted();
    model::lemma_evicted_inv(s);
    model::lemma_lowest(s.marks, s.offset);
    assert(s.retained.len() - after.retained.len() == s.floor() - s.start());
    assert(after.pulled - after.retained.len() == s.floor());
    if s.floor() != s.offset {
        let i = choose|i: int|
            0 <= i < s.marks.len() && model::lowest(s.marks, s.offset) == (
            #[trigger] s.marks[i]).offset;
        assert(after.marks[i].offset == s.floor());
    }
}

/// A commit does what it is for.
pub proof fn lemma_committed<Input: StreamOnce + Positioned>(s: StreamModel<Input>)
    requires
        s.inv(),
    ensures
        is_committed(s, s.committed()),
{
    if s.marks.len() > 0 {
        model::lemma_popped_inv(s, s.offset);
        lemma_evicted(StreamModel { marks: s.marks.drop_last(), ..s });
    }
}

/// A reset does what it is for.
pub proof fn lemma_rewinds<Input: StreamOnce + Positioned>(
    before: StreamModel<Input>,
    after: StreamModel<Input>,
    result: Result<(), Input::Error>,
)
    requires
        before.inv(),
        before.rewinds(after, result),
    ensures
        is_reset(before, after, result),
{
    lemma_committed(before);
    if before.marks.len() > 0 {
        lemma_rewound(before);
    } else {
        let error = result->Err_0;
        let (position, err) = choose|position: Input::Position, err: StreamErrorFor<Input>|
            before.is_at(position) && err.is_message(
                "reset_checkpoint called without an active checkpoint",
            ) && #[trigger] error.is_error_at(position, err);
        assert(error.is_error_at(position, err));
    }
}

/// What going back to the innermost checkpoint leaves.
pub proof fn lemma_rewound<Input: StreamOnce + Positioned>(s: StreamModel<Input>)
    requires
        s.inv(),
        s.marks.len() > 0,
    ensures
        gives_up_innermost(s, s.rewound()),
        s.rewound().offset == s.marks.last().offset,
        s.rewound().deferred == s.deferred,
{
    model::lemma_popped_inv(s, s.marks.last().offset);
    lemma_evicted(
        StreamModel { marks: s.marks.drop_last(), offset: s.marks.last().offset, ..s },
    );
}

/// Committing gives up the innermost checkpoint, however many tokens were read, and changes
/// nothing which a read can tell.
pub proof fn law_commit<'a, Input: StreamOnce + Positioned>(stream: &'a mut Stream<Input>)
    requires
        old(stream).inv(),
        call_ensures(<Stream<Input> as CheckpointStream>::commit_checkpoint, (stream,), ()),
    ensures
        final(stream).inv(),
        is_committed(old(stream)@, final(stream)@),
{
    lemma_committed(old(stream)@);
}

/// The relation which the commit of a checkpointed stream promises says no less.
pub proof fn law_commits<Input: StreamOnce + Positioned>(
    before: Stream<Input>,
    after: Stream<Input>,
)
    requires
        before.inv(),
        Stream::<Input>::commits(before, after),
    ensures
        after@.offset == before@.offset,
        after@.deferred == before@.deferred,
        after@.source == before@.source,
        after@.pulled == before@.pulled,
        before@.marks.len() > 0 ==> after@.marks == before@.marks.drop_last(),
        before@.marks.len() == 0 ==> after@ == before@,
        is_committed(before@, after@),
{
    lemma_committed(before@);
}

/// The reads after a commit give what they would have given without it, and at the same
/// positions, at any depth and however many tokens were read.
pub proof fn law_commit_changes_no_read<'a, Input: StreamOnce + Positioned>(
    stream: &'a mut Stream<Input>,
    states: Seq<StreamModel<Input>>,
    results: Seq<Result<Input::Token, StreamErrorFor<Input>>>,
) -> (others: Seq<StreamModel<Input>>)
    requires
        old(stream).inv(),
        call_ensures(<Stream<Input> as CheckpointStream>::commit_checkpoint, (stream,), ()),
        states[0] == old(stream)@,
        laws::gives(states, results),
    ensures
        others[0] == final(stream)@,
        laws::gives(others, results),
        forall|i: int, position: Input::Position|
            0 <= i < states.len() ==> (#[trigger] states[i].is_at(position) <==> others[i].is_at(
                position,
            )),
{
    laws::law_commit_is_not_observed(old(stream)@, states, results)
}

/// Resetting gives up the innermost checkpoint in any case, and goes back to it exactly if no more
/// tokens past it were read than its budget.
pub proof fn law_reset<'a, Input: StreamOnce + Positioned>(
    stream: &'a mut Stream<Input>,
    result: Result<(), Input::Error>,
)
    requires
        old(stream).inv(),
        call_ensures(<Stream<Input> as CheckpointStream>::reset_checkpoint, (stream,), result),
    ensures
        final(stream).inv(),
        is_reset(old(stream)@, final(stream)@, result),
{
    lemma_rewinds(old(stream)@, final(stream)@, result);
}

/// The relations which a checkpointed stream promises for beginning and resetting say no less.
pub proof fn law_begins_and_rewinds<Input: StreamOnce + Positioned>(
    before: Stream<Input>,
    budget: usize,
    begun: Stream<Input>,
    after: Stream<Input>,
    result: Result<(), Input::Error>,
)
    requires
        before.inv(),
        Stream::<Input>::begins(before, budget, begun),
        Stream::<Input>::rewinds(before, after, result),
    ensures
        is_begun(before@, budget as nat, begun@),
        is_reset(before@, after@, result),
{
    lemma_rewinds(before@, after@, result);
    assert(begun@.marks.drop_last() =~= before@.marks);
}

/// A reset straight after beginning a checkpoint succeeds whatever its budget, and so does a
/// commit. Either leaves the read head, the checkpoints, the wrapped stream and what is deferred
/// as they were before.
pub proof fn law_begin_and_end<Input: StreamOnce + Positioned>(
    before: Stream<Input>,
    budget: usize,
    begun: Stream<Input>,
    after: Stream<Input>,
    result: Result<(), Input::Error>,
    committed: Stream<Input>,
)
    requires
        before.inv(),
        begun.inv(),
        Stream::<Input>::begins(before, budget, begun),
        Stream::<Input>::rewinds(begun, after, result),
        Stream::<Input>::commits(begun, committed),
    ensures
        result is Ok,
        after@ == committed@,
        after@.source == before@.source,
        after@.offset == before@.offset,
        after@.pulled == before@.pulled,
        after@.marks == before@.marks,
        after@.deferred == before@.deferred,
{
    lemma_rewinds(begun@, after@, result);
    law_commits(begun, committed);
    assert(begun@.marks.drop_last() =~= before@.marks);
}

/// A guard begins a checkpoint on the stream, holds it, and hands it back as it leaves it.
pub proof fn law_guard<'a, Input: StreamOnce + Positioned>(
    stream: &'a mut Stream<Input>,
    budget: usize,
    guard: CheckpointGuard<'a, Input>,
)
    requires
        old(stream).inv(),
        call_ensures(Stream::<Input>::checkpoint_guard, (stream, budget), guard),
    ensures
        old(guard.target()).inv(),
        is_begun(old(stream)@, budget as nat, old(guard.target())@),
        *final(guard.target()) == *final(stream),
{
    assert(old(guard.target())@.marks.drop_last() =~= old(stream)@.marks);
}

/// A guard which is committed commits the innermost checkpoint.
pub proof fn law_guard_commit<'a, Input: StreamOnce + Positioned>(
    guard: CheckpointGuard<'a, Input>,
)
    requires
        old(guard.target()).inv(),
        call_ensures(CheckpointGuard::<'a, Input>::commit, (guard,), ()),
    ensures
        final(guard.target()).inv(),
        is_committed(old(guard.target())@, final(guard.target())@),
{
    lemma_committed(old(guard.target())@);
}

/// A guard which is reset resets the innermost checkpoint.
pub proof fn law_guard_reset<'a, Input: StreamOnce + Positioned>(
    guard: CheckpointGuard<'a, Input>,
    result: Result<(), Input::Error>,
)
    requires
        old(guard.target()).inv(),
        call_ensures(CheckpointGuard::<'a, Input>::reset, (guard,), result),
    ensures
        final(guard.target()).inv(),
        is_reset(old(guard.target())@, final(guard.target())@, result),
{
    lemma_rewinds(old(guard.target())@, final(guard.target())@, result);
}

/// A guard which is dropped resets the innermost checkpoint. Where that fails the read head stays,
/// the next read gives an error which says so and reads nothing, and the reads after it go on
/// from there. Where it succeeds nothing is deferred which was not before.
pub proof fn law_guard_drop<'a, Input: StreamOnce + Positioned>(
    guard: CheckpointGuard<'a, Input>,
    next: StreamModel<Input>,
    read: Result<Input::Token, StreamErrorFor<Input>>,
)
    requires
        old(guard.target()).inv(),
        old(guard.target())@.marks.len() > 0,
        call_ensures(CheckpointGuard::<'a, Input>::drop, (guard,), ()),
        final(guard.target())@.unconses(next, read),
    ensures
        final(guard.target()).inv(),
        ({
            let before = old(guard.target())@;
            let after = final(guard.target())@;
            let mark = before.marks.last();
            &&& gives_up_innermost(before, after)
            &&& if mark.reached - mark.offset <= mark.budget {
                &&& after.offset == mark.offset
                &&& after.deferred == before.deferred
            } else {
                &&& after.offset == before.offset
                &&& read matches Err(err) && err.is_message(
                    "checkpoint dropped after its token budget was exceeded",
                )
                &&& next == StreamModel { deferred: None, ..after }
            }
        }),
{
    let before = old(guard.target())@;
    let after = final(guard.target())@;
    lemma_committed(before);
    lemma_rewound(before);
}

/// A guard whose target is sound can be ended in each way.
pub proof fn law_guards_may_be_ended<'a, Input: StreamOnce + Positioned>(
    guard: CheckpointGuard<'a, Input>,
)
    requires
        old(guard.target()).inv(),
    ensures
        call_requires(CheckpointGuard::<'a, Input>::commit, (guard,)),
        call_requires(CheckpointGuard::<'a, Input>::reset, (guard,)),
        call_requires(CheckpointGuard::<'a, Input>::drop, (guard,)),
{
}

/// A guard stands for the stream which it was created from.
pub proof fn law_guard_is_the_stream<'a, 'b, Input: StreamOnce + Positioned>(
    guard: &'b CheckpointGuard<'a, Input>,
    stream: &'b Stream<Input>,
)
    requires
        call_ensures(
            <CheckpointGuard<'a, Input> as std::ops::Deref>::deref,
            (guard,),
            stream,
        ),
    ensures
        *stream == *old(guard.target()),
{
}

/// Changes made through a guard are made to the stream which it was created from.
pub proof fn law_guard_changes_the_stream<'a, 'b, Input: StreamOnce + Positioned>(
    guard: &'b mut CheckpointGuard<'a, Input>,
    stream: &'b mut Stream<Input>,
)
    requires
        call_ensures(
            <CheckpointGuard<'a, Input> as std::ops::DerefMut>::deref_mut,
            (guard,),
            stream,
        ),
    ensures
        *old(stream) == *old(old(guard).target()),
        *old(final(guard).target()) == *final(stream),
        *final(final(guard).target()) == *final(old(guard).target()),
{
}

/// A read is a step of a run.
pub proof fn law_uncons_is_a_step<'a, Input: StreamOnce + Positioned>(
    stream: &'a mut Stream<Input>,
    result: Result<Input::Token, StreamErrorFor<Input>>,
)
    requires
        call_ensures(<Stream<Input> as StreamOnce>::uncons, (stream,), result),
    ensures
        final(stream).inv(),
        Step::Read(result).takes(old(stream)@, final(stream)@),
        Stream::<Input>::unconses(*old(stream), *final(stream), result),
{
}

/// Beginning a checkpoint is a step of a run, and so is beginning one with a guard.
pub proof fn law_begin_is_a_step<'a, Input: StreamOnce + Positioned>(
    stream: &'a mut Stream<Input>,
    other: &'a mut Stream<Input>,
    guard: CheckpointGuard<'a, Input>,
    budget: usize,
)
    requires
        call_ensures(<Stream<Input> as CheckpointStream>::begin_checkpoint, (stream, budget), ()),
        call_ensures(Stream::<Input>::checkpoint_guard, (other, budget), guard),
    ensures
        final(stream).inv(),
        Step::Begin(budget as nat).takes(old(stream)@, final(stream)@),
        old(guard.target()).inv(),
        Step::Begin(budget as nat).takes(old(other)@, old(guard.target())@),
{
}

/// Committing is a step of a run, by itself and through a guard.
pub proof fn law_commit_is_a_step<'a, Input: StreamOnce + Positioned>(
    stream: &'a mut Stream<Input>,
    guard: CheckpointGuard<'a, Input>,
)
    requires
        call_ensures(<Stream<Input> as CheckpointStream>::commit_checkpoint, (stream,), ()),
        call_ensures(CheckpointGuard::<'a, Input>::commit, (guard,), ()),
    ensures
        final(stream).inv(),
        Step::Commit.takes(old(stream)@, final(stream)@),
        final(guard.target()).inv(),
        Step::Commit.takes(old(guard.target())@, final(guard.target())@),
{
}

/// Resetting is a step of a run, by itself and through a guard.
pub proof fn law_reset_is_a_step<'a, Input: StreamOnce + Positioned>(
    stream: &'a mut Stream<Input>,
    result: Result<(), Input::Error>,
    guard: CheckpointGuard<'a, Input>,
    guard_result: Result<(), Input::Error>,
)
    requires
        call_ensures(<Stream<Input> as CheckpointStream>::reset_checkpoint, (stream,), result),
        call_ensures(CheckpointGuard::<'a, Input>::reset, (guard,), guard_result),
    ensures
        final(stream).inv(),
        Step::Reset(result).takes(old(stream)@, final(stream)@),
        final(guard.target()).inv(),
        Step::Reset(guard_result).takes(old(guard.target())@, final(guard.target())@),
{
}

/// Dropping a guard is a step of a run.
pub proof fn law_drop_is_a_step<'a, Input: StreamOnce + Positioned>(
    guard: CheckpointGuard<'a, Input>,
)
    requires
        call_ensures(CheckpointGuard::<'a, Input>::drop, (guard,), ()),
    ensures
        final(guard.target()).inv(),
        Step::Abandon.takes(old(guard.target())@, final(guard.target())@),
{
}

/// Going back is a step of a run, whether it is refused or not.
pub proof fn law_backtrack_is_a_step<'a, Input: StreamOnce + Positioned>(
    stream: &'a mut Stream<Input>,
    mark: usize,
    result: Result<(), Input::Error>,
)
    requires
        call_ensures(<Stream<Input> as ResetStream>::reset, (stream, mark), result),
    ensures
        final(stream).inv(),
        match result {
            Ok(_) => Step::Backtrack(mark as nat).takes(old(stream)@, final(stream)@),
            Err(_) => Step::Look.takes(old(stream)@, final(stream)@),
        },
{
    lemma_reset_call(stream, mark, result);
}

} // verus!
