//! What is read from a slice, directly and through checkpoints.

use vstd::prelude::*;

use crate::error::UnexpectedParse;
use crate::stream::history;
use crate::stream::history::Step;
use crate::stream::model::StreamModel;
use crate::stream::{Positioned, SliceStream, StreamOnce};

verus! {

/// A new stream over a slice is at its start.
pub proof fn law_slice_new<'a, T>(tokens: &'a [T], stream: SliceStream<'a, T>)
    requires
        call_ensures(SliceStream::<'a, T>::new, (tokens,), stream),
    ensures
        stream.tokens() == tokens@,
        stream.read() == 0,
{
}

/// Reading a slice gives its tokens one after the other, and the end of the input once there is
/// none left. A position is the number of tokens before it.
pub proof fn law_slice<'a, 'b, T: Clone>(
    stream: &'b mut SliceStream<'a, T>,
    result: Result<T, UnexpectedParse>,
    position: usize,
    partial: bool,
)
    requires
        old(stream).inv(),
        call_ensures(<SliceStream<'a, T> as StreamOnce>::uncons, (stream,), result),
        call_ensures(<SliceStream<'a, T> as Positioned>::position, (old(stream),), position),
        call_ensures(<SliceStream<'a, T> as StreamOnce>::is_partial, (old(stream),), partial),
    ensures
        position == old(stream).read(),
        !partial,
        final(stream).tokens() == old(stream).tokens(),
        if old(stream).read() < old(stream).tokens().len() {
            &&& result is Ok
            &&& vstd::pervasive::strictly_cloned(
                old(stream).tokens()[old(stream).read() as int],
                result->Ok_0,
            )
            &&& final(stream).read() == old(stream).read() + 1
        } else {
            &&& result == Err::<T, UnexpectedParse>(UnexpectedParse::Eoi)
            &&& final(stream).read() == old(stream).read()
        },
{
}

/// Whether a checkpointed stream over a slice holds what the slice holds at the same offsets.
pub open spec fn mirrors<'a, T: Clone>(
    s: StreamModel<SliceStream<'a, T>>,
    tokens: Seq<T>,
) -> bool {
    &&& s.source.tokens() == tokens
    &&& s.source.read() == s.pulled
    &&& s.pulled <= tokens.len()
    &&& forall|offset: int|
        s.start() <= offset < s.pulled ==> (#[trigger] s.held(offset)).0 == tokens[offset]
            && s.held(offset).1 == offset
}

/// Whatever is done with a checkpointed stream over a slice, the token at an offset is that of the
/// slice, its position is the offset, and the input ends where the slice does. No other read
/// fails, but for one error after each guard which was dropped beyond its budget.
pub proof fn law_checkpointed_slice<'a, T: Clone>(
    source: SliceStream<'a, T>,
    states: Seq<StreamModel<SliceStream<'a, T>>>,
    steps: Seq<Step<SliceStream<'a, T>>>,
    k: int,
    position: usize,
)
    requires
        source.read() == 0,
        states[0] == StreamModel::fresh(source),
        history::is_run(states, steps),
        forall|m: int| 0 <= m < steps.len() ==> !((#[trigger] steps[m]) is Adjust),
        forall|a: T, b: T| #[trigger] vstd::pervasive::strictly_cloned(a, b) ==> a == b,
        0 <= k < states.len(),
    ensures
        mirrors(states[k], source.tokens()),
        states[k].is_at(position) ==> position == states[k].offset,
        k < steps.len() && states[k].deferred is None ==> (steps[k] matches Step::Read(result)
            ==> result == if states[k].offset < source.tokens().len() {
            Ok::<T, UnexpectedParse>(source.tokens()[states[k].offset as int])
        } else {
            Err::<T, UnexpectedParse>(UnexpectedParse::Eoi)
        }),
    decreases k,
{
    let tokens = source.tokens();
    assert(states[k].inv());
    if k > 0 {
        let before = states[k - 1];
        let after = states[k];
        let step = steps[k - 1];
        law_checkpointed_slice(source, states, steps, k - 1, position);
        history::lemma_run_step(states, steps, k - 1);
        history::lemma_step(before, step, after);
        if let Step::Read(Ok(token)) = step {
            history::lemma_read(before, after, token);
        }
        assert forall|offset: int| after.start() <= offset < after.pulled implies (
        #[trigger] after.held(offset)).0 == tokens[offset] && after.held(offset).1 == offset by {
            if offset < before.pulled {
                assert(after.held(offset) == before.held(offset));
            }
        }
    }
    if states[k].offset < states[k].pulled {
        assert(states[k].held(states[k].offset as int) == states[k].current());
    }
    if k < steps.len() {
        history::lemma_run_step(states, steps, k);
        if let Step::Read(Ok(token)) = steps[k] {
            history::lemma_read(states[k], states[k + 1], token);
        }
    }
}

} // verus!
