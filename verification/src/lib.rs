//! Bounded checkpoints for parsers over streams which cannot be cloned.
//!
//! [`stream::checkpoint::Stream`] wraps any stream which yields one token at a time and buffers
//! what it yields, so that parsers can backtrack on it. Checkpoints taken on the wrapper form a
//! stack; each carries a token budget, beyond which the stream can no longer be reset to it.
//! [`parser::checkpoint`] and [`parser::combinator`] hold the parsers that run another parser
//! behind such a checkpoint.

pub mod error;
pub mod stream;
pub mod parser;
