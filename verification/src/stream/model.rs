//! What a checkpointed stream holds, as mathematics.

use vstd::prelude::*;

use crate::error::{ParseError, StreamError};
use crate::stream::{Positioned, StreamErrorFor, StreamOnce};

verus! {

/// An active checkpoint.
pub struct Mark {
    /// Where it was begun.
    pub offset: nat,
    /// How far a read came since then.
    pub reached: nat,
    /// How many tokens may be read past it before the stream can no longer be reset to it.
    pub budget: nat,
}

impl Mark {
    /// How many tokens past the checkpoint were read since it was begun.
    pub open spec fn read(self) -> int {
        self.reached - self.offset
    }

    /// The checkpoint once a read has led to `head`.
    pub open spec fn read_to(self, head: nat) -> Mark {
        Mark {
            reached: if self.reached < head {
                head
            } else {
                self.reached
            },
            ..self
        }
    }
}

/// The checkpoints once a read has led to `head`.
pub open spec fn read_to(marks: Seq<Mark>, head: nat) -> Seq<Mark> {
    marks.map_values(|mark: Mark| mark.read_to(head))
}

/// Whether `after` are the checkpoints `before`, behind which more may have been read.
pub open spec fn continues(before: Seq<Mark>, after: Seq<Mark>) -> bool {
    &&& after.len() == before.len()
    &&& forall|i: int|
        #![trigger before[i]]
        #![trigger after[i]]
        0 <= i < before.len() ==> after[i].offset == before[i].offset && after[i].budget
            == before[i].budget && before[i].reached <= after[i].reached
}

/// The least of `head` and the offsets of the marks.
pub open spec fn lowest(marks: Seq<Mark>, head: nat) -> nat
    decreases marks.len(),
{
    if marks.len() == 0 {
        head
    } else {
        let rest = lowest(marks.drop_last(), head);
        if marks.last().offset < rest {
            marks.last().offset
        } else {
            rest
        }
    }
}

/// A checkpointed stream. Offsets count tokens from the start of the wrapped stream.
#[verifier::ext_equal]
pub struct StreamModel<Input: StreamOnce> {
    /// The wrapped stream.
    pub source: Input,
    /// The offset of the next token to hand out.
    pub offset: nat,
    /// How many tokens were pulled from the wrapped stream.
    pub pulled: nat,
    /// The last of the pulled tokens, each with its position.
    pub retained: Seq<(Input::Token, Input::Position)>,
    /// The active checkpoints, oldest first.
    pub marks: Seq<Mark>,
    /// An error which the next read gives.
    pub deferred: Option<StreamErrorFor<Input>>,
}

impl<Input: StreamOnce + Positioned> StreamModel<Input> {
    /// A stream from which nothing was read yet.
    pub open spec fn fresh(source: Input) -> Self {
        StreamModel {
            source,
            offset: 0,
            pulled: 0,
            retained: Seq::empty(),
            marks: Seq::empty(),
            deferred: None,
        }
    }

    /// The offset of the first retained token.
    pub open spec fn start(self) -> int {
        self.pulled - self.retained.len()
    }

    /// The read head and every active checkpoint lie where tokens are retained.
    pub open spec fn inv(self) -> bool {
        &&& self.source.inv()
        &&& 0 <= self.start() <= self.offset <= self.pulled <= usize::MAX
        &&& forall|i: int|
            0 <= i < self.marks.len() ==> self.start() <= (#[trigger] self.marks[i]).offset
                <= self.marks[i].reached <= self.pulled && self.marks[i].budget <= usize::MAX
    }

    /// The token retained at `offset`, with its position.
    pub open spec fn held(self, offset: int) -> (Input::Token, Input::Position)
        recommends
            self.start() <= offset < self.pulled,
    {
        self.retained[offset - self.start()]
    }

    /// The retained token at the read head, with its position.
    pub open spec fn current(self) -> (Input::Token, Input::Position) {
        self.held(self.offset as int)
    }

    /// The offset before which no token can be observed any more: neither the read head nor an
    /// active checkpoint lies before it.
    pub open spec fn floor(self) -> nat {
        lowest(self.marks, self.offset)
    }

    /// The stream with the tokens before its floor given up.
    pub open spec fn evicted(self) -> Self {
        StreamModel { retained: self.retained.skip(self.floor() - self.start()), ..self }
    }

    /// The stream with one more checkpoint, at the read head.
    pub open spec fn begun(self, budget: nat) -> Self {
        let mark = Mark { offset: self.offset, reached: self.offset, budget };
        StreamModel { marks: self.marks.push(mark), ..self }
    }

    /// The stream once its innermost checkpoint is given up, if it has one.
    pub open spec fn committed(self) -> Self {
        if self.marks.len() == 0 {
            self
        } else {
            (StreamModel { marks: self.marks.drop_last(), ..self }).evicted()
        }
    }

    /// Whether there is an innermost checkpoint, with no more tokens read past it since it was
    /// begun than its budget allows.
    pub open spec fn can_rewind(self) -> bool {
        &&& self.marks.len() > 0
        &&& self.marks.last().read() <= self.marks.last().budget
    }

    /// The stream back at its innermost checkpoint, which is given up.
    pub open spec fn rewound(self) -> Self
        recommends
            self.marks.len() > 0,
    {
        (StreamModel {
            marks: self.marks.drop_last(),
            offset: self.marks.last().offset,
            ..self
        }).evicted()
    }
}

impl<Input: StreamOnce + Positioned> StreamModel<Input> {
    /// Whether `position` is where the token at the read head stands.
    pub open spec fn is_at(self, position: Input::Position) -> bool {
        if self.offset < self.pulled {
            vstd::pervasive::strictly_cloned(self.current().1, position)
        } else {
            self.source.is_at(position)
        }
    }

    /// Whether `after` is this stream after pulling `token` from the wrapped stream, at
    /// `position`, and retaining `copy` of it.
    pub open spec fn pulls(
        self,
        after: Self,
        token: Input::Token,
        copy: Input::Token,
        position: Input::Position,
    ) -> bool {
        &&& self.source.is_at(position)
        &&& vstd::pervasive::strictly_cloned(token, copy)
        &&& after == StreamModel {
            source: after.source,
            offset: self.offset + 1,
            pulled: self.pulled + 1,
            retained: self.retained.push((copy, position)),
            marks: read_to(self.marks, self.offset + 1),
            ..self
        }
    }

    /// Whether reading from this stream may give `result` and leave `after`: a deferred error
    /// comes first, then the retained tokens past the read head, then the wrapped stream.
    pub open spec fn unconses(
        self,
        after: Self,
        result: Result<Input::Token, StreamErrorFor<Input>>,
    ) -> bool {
        match self.deferred {
            Some(err) => {
                &&& result == Err::<Input::Token, StreamErrorFor<Input>>(err)
                &&& after == StreamModel { deferred: None, ..self }
            },
            None => if self.offset < self.pulled {
                &&& result matches Ok(token)
                &&& vstd::pervasive::strictly_cloned(self.current().0, token)
                &&& after == StreamModel {
                    offset: self.offset + 1,
                    marks: read_to(self.marks, self.offset + 1),
                    ..self
                }
            } else {
                &&& Input::unconses(self.source, after.source, result)
                &&& match result {
                    Ok(token) => exists|copy: Input::Token, position: Input::Position| #[trigger]
                        self.pulls(after, token, copy, position),
                    Err(_) => after == StreamModel { source: after.source, ..self },
                }
            },
        }
    }
}

impl<Input: StreamOnce + Positioned> StreamModel<Input> {
    /// Whether resetting this stream to its innermost checkpoint may give `result` and leave
    /// `after`.
    pub open spec fn rewinds(self, after: Self, result: Result<(), Input::Error>) -> bool {
        if self.can_rewind() {
            &&& result is Ok
            &&& after == self.rewound()
        } else {
            &&& result matches Err(error)
            &&& if self.marks.len() == 0 {
                is_report_of(error, self, "reset_checkpoint called without an active checkpoint")
            } else {
                is_furthest_report_of(error, self, "checkpoint token budget exceeded")
            }
            &&& after == self.committed()
        }
    }

    /// Whether dropping a guard of this stream without committing it may leave `after`: the
    /// stream is reset, and where it cannot be, the next read gives an error.
    pub open spec fn abandons(self, after: Self) -> bool {
        if self.can_rewind() {
            after == self.rewound()
        } else {
            &&& after.deferred matches Some(err)
            &&& err.is_message("checkpoint dropped after its token budget was exceeded")
            &&& after == StreamModel { deferred: after.deferred, ..self.committed() }
        }
    }
}

/// Whether `error` reports `msg` at the read head of `s`.
pub open spec fn is_report_of<Input: StreamOnce + Positioned>(
    error: Input::Error,
    s: StreamModel<Input>,
    msg: &str,
) -> bool {
    exists|position: Input::Position, err: StreamErrorFor<Input>|
        s.is_at(position) && err.is_message(msg) && #[trigger] error.is_error_at(position, err)
}

/// Whether `error` reports `msg` at the furthest position reached by `s`.
pub open spec fn is_furthest_report_of<Input: StreamOnce + Positioned>(
    error: Input::Error,
    s: StreamModel<Input>,
    msg: &str,
) -> bool {
    exists|position: Input::Position, err: StreamErrorFor<Input>|
        s.source.is_at(position) && err.is_message(msg) && #[trigger] error.is_error_at(
            position,
            err,
        )
}

/// The least of some offsets is one of them, and no greater than any.
pub proof fn lemma_lowest(marks: Seq<Mark>, head: nat)
    ensures
        lowest(marks, head) <= head,
        forall|i: int|
            0 <= i < marks.len() ==> lowest(marks, head) <= (#[trigger] marks[i]).offset,
        lowest(marks, head) == head || exists|i: int|
            0 <= i < marks.len() && lowest(marks, head) == (#[trigger] marks[i]).offset,
    decreases marks.len(),
{
    if marks.len() > 0 {
        lemma_lowest(marks.drop_last(), head);
        assert forall|i: int| 0 <= i < marks.len() implies lowest(marks, head) <= (
        #[trigger] marks[i]).offset by {
            if i < marks.len() - 1 {
                assert(marks.drop_last()[i] == marks[i]);
            }
        }
        if lowest(marks, head) != head {
            if lowest(marks, head) == lowest(marks.drop_last(), head) {
                let i = choose|i: int|
                    0 <= i < marks.len() - 1 && lowest(marks, head) == (
                    #[trigger] marks.drop_last()[i]).offset;
                assert(marks[i].offset == lowest(marks, head));
            } else {
                assert(marks[marks.len() - 1].offset == lowest(marks, head));
            }
        }
    }
}

/// Giving up what cannot be observed keeps the invariant.
pub proof fn lemma_evicted_inv<Input: StreamOnce + Positioned>(s: StreamModel<Input>)
    requires
        s.inv(),
    ensures
        s.evicted().inv(),
        s.start() <= s.floor() <= s.offset,
        s.evicted().start() == s.floor(),
        s.evicted().retained.len() == s.pulled - s.floor(),
{
    lemma_lowest(s.marks, s.offset);
}

/// Giving up a checkpoint, with the read head anywhere in what is retained, keeps the invariant.
pub proof fn lemma_popped_inv<Input: StreamOnce + Positioned>(s: StreamModel<Input>, offset: nat)
    requires
        s.inv(),
        s.marks.len() > 0,
        offset == s.offset || offset == s.marks.last().offset,
    ensures
        (StreamModel { marks: s.marks.drop_last(), offset, ..s }).inv(),
{
    let popped = StreamModel { marks: s.marks.drop_last(), offset, ..s };
    assert forall|i: int| 0 <= i < popped.marks.len() implies popped.start() <= (
    #[trigger] popped.marks[i]).offset <= popped.marks[i].reached <= popped.pulled
        && popped.marks[i].budget <= usize::MAX by {
        assert(popped.marks[i] == s.marks[i]);
    }
    assert(s.marks[s.marks.len() - 1] == s.marks.last());
}

/// Checkpoints which continue those of a stream on which one was begun: the innermost is that
/// one, and the others continue those which were active before.
pub proof fn lemma_continued<Input: StreamOnce + Positioned>(
    s: StreamModel<Input>,
    budget: nat,
    marks: Seq<Mark>,
)
    requires
        continues(s.begun(budget).marks, marks),
    ensures
        marks.len() > 0,
        marks.last().offset == s.offset,
        marks.last().budget == budget,
        continues(s.marks, marks.drop_last()),
{
    let begun = s.begun(budget).marks;
    assert(marks.last().offset == begun[begun.len() - 1].offset);
    assert forall|i: int| 0 <= i < s.marks.len() implies marks.drop_last()[i].offset
        == s.marks[i].offset && marks.drop_last()[i].budget == s.marks[i].budget
        && s.marks[i].reached <= (#[trigger] marks.drop_last()[i]).reached by {
        assert(begun[i] == s.marks[i]);
    }
}

/// What continues what continues some checkpoints continues them.
pub proof fn lemma_continues_transitive(before: Seq<Mark>, middle: Seq<Mark>, after: Seq<Mark>)
    requires
        continues(before, middle),
        continues(middle, after),
    ensures
        continues(before, after),
{
    assert forall|i: int| 0 <= i < before.len() implies after[i].offset == before[i].offset
        && after[i].budget == before[i].budget && before[i].reached <= (
    #[trigger] after[i]).reached by {
        assert(middle[i].offset == before[i].offset);
    }
}

} // verus!
