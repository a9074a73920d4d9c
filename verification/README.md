# combine: bounded checkpoints

Rewindable parsing over streams which cannot be cloned, verified with Verus.

`stream::checkpoint::Stream` wraps a stream which yields one token at a time and buffers what it
yields. Checkpoints on it form a stack, each with a token budget: the stream can be reset to a
checkpoint as long as no more tokens past it than its budget were read since it was begun.

- `src/error.rs`: errors of streams and parsers, and what parsers return.
- `src/stream/`: streams. `model.rs` holds the mathematical model of a checkpointed stream, over
  which the contracts of `checkpoint.rs` are stated; `history.rs` describes runs of operations in
  any order, and `laws.rs` holds what follows over such runs: that a reset lets the same tokens be
  read again at the same positions, when a budget is exceeded, that waiting for input does not
  renew it, that inner checkpoints leave outer ones alone, that nothing can be told from what is
  given up, and how much is retained.
- `src/parser/`: parsers. `checkpoint.rs` runs a parser behind a checkpoint and reports every
  failure which it could rewind as uncommitted; `combinator.rs` does so on any stream with
  checkpoints and leaves committed failures committed. `laws.rs` holds what becomes of the stream.
- `app/`: a guard which resets its stream when it goes out of scope, and formatting.

What a stream, an error or a parser of a user does is described by relations which the traits
declare and the implementation defines. A relation which it leaves out promises nothing. What a
method returns exactly (`partial`, `is_eoi` and `count`) every implementation defines.
