//! What a checkpointed stream shows of itself.

use std::collections::VecDeque;

use vstd::prelude::*;

use crate::stream::{Positioned, StreamOnce};

verus! {

/// The parts of a [checkpointed stream](crate::stream::checkpoint::Stream) which are shown when
/// it is formatted for debugging.
#[derive(Debug)]
pub struct Stream<'a, Input> where Input: StreamOnce + Positioned {
    /// The wrapped stream.
    pub iter: &'a Input,
    /// Absolute offset of the read head.
    pub offset: usize,
    /// Absolute offset one past the last token pulled from the wrapped stream.
    pub buffer_offset: usize,
    /// The retained tokens with their positions.
    pub buffer: &'a VecDeque<(Input::Token, Input::Position)>,
    /// Stack of active checkpoints, oldest first.
    pub checkpoints: Vec<ActiveCheckpoint>,
}

/// What is shown of an active checkpoint.
#[derive(Debug)]
pub struct ActiveCheckpoint {
    /// Absolute offset to reset to.
    pub offset: usize,
    /// Maximum number of tokens which may be read before resetting fails.
    pub budget: usize,
}

} // verus!
