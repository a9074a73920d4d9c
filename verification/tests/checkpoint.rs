//! Tests for bounded checkpoints (`stream::checkpoint` and
//! the parsers of `parser::combinator` and `parser::checkpoint`).

use std::collections::VecDeque;
use std::io::Read;

use combine::error::{ParseError, ParseResult, StreamError, UnexpectedParse};
use combine::parser::checkpoint::checkpoint as rewinding;
use combine::parser::combinator::checkpoint;
use combine::parser::token::any;
use combine::parser::{ParseMode, Parser};
use combine::stream::checkpoint::{CheckpointStream, Stream as CheckpointedStream};
use combine::stream::{Positioned, SliceStream, Stream, StreamErrorFor, StreamOnce};

// ---------------------------------------------------------------------------
// Errors which keep their position and all that was reported there
// ---------------------------------------------------------------------------

#[derive(Debug, Clone, Copy, PartialEq, Eq)]
enum EasyError {
    EndOfInput,
    Message(&'static str),
}

#[derive(Debug, Clone, PartialEq, Eq)]
struct EasyErrors {
    position: usize,
    errors: Vec<EasyError>,
}

impl<Range> StreamError<u8, Range> for EasyError {
    fn message_static_message(msg: &'static str) -> Self {
        EasyError::Message(msg)
    }
}

impl<Range> ParseError<u8, Range, usize> for EasyErrors {
    type StreamError = EasyError;

    fn empty(position: usize) -> Self {
        EasyErrors {
            position,
            errors: Vec::new(),
        }
    }

    fn from_error(position: usize, err: EasyError) -> Self {
        EasyErrors {
            position,
            errors: vec![err],
        }
    }

    fn add(&mut self, err: EasyError) {
        self.errors.push(err);
    }

    fn merge(mut self, other: Self) -> Self {
        if self.position < other.position {
            other
        } else if self.position > other.position {
            self
        } else {
            self.errors.extend(other.errors);
            self
        }
    }

    fn is_eoi(&self) -> bool {
        self.errors.contains(&EasyError::EndOfInput)
    }

    fn is_unexpected_end_of_input(&self) -> bool {
        self.errors.contains(&EasyError::EndOfInput)
    }
}

/// Gives a stream of bytes errors which keep their position.
struct EasyStream<S>(S);

impl<S> StreamOnce for EasyStream<S>
where
    S: StreamOnce<Token = u8, Position = usize, Error = UnexpectedParse>,
{
    type Token = u8;
    type Range = S::Range;
    type Position = usize;
    type Error = EasyErrors;

    fn uncons(&mut self) -> Result<u8, EasyError> {
        match self.0.uncons() {
            Ok(token) => Ok(token),
            Err(UnexpectedParse::Eoi) => Err(EasyError::EndOfInput),
            Err(UnexpectedParse::Unexpected) => Err(EasyError::Message("unexpected")),
        }
    }

    fn partial(&self) -> bool {
        self.is_partial()
    }

    fn is_partial(&self) -> bool {
        self.0.is_partial()
    }
}

impl<S> Positioned for EasyStream<S>
where
    S: Positioned<Token = u8, Position = usize, Error = UnexpectedParse>,
{
    fn position(&self) -> usize {
        self.0.position()
    }
}

/// A stream over a reader, which cannot be cloned.
struct ReadStream<R> {
    reader: R,
    position: usize,
}

impl<R: Read> StreamOnce for ReadStream<R> {
    type Token = u8;
    type Range = Vec<u8>;
    type Position = usize;
    type Error = UnexpectedParse;

    fn uncons(&mut self) -> Result<u8, UnexpectedParse> {
        let mut byte = [0u8];
        match self.reader.read(&mut byte) {
            Ok(1) => {
                self.position += 1;
                Ok(byte[0])
            }
            Ok(_) => Err(UnexpectedParse::Eoi),
            Err(_) => Err(UnexpectedParse::Unexpected),
        }
    }

    fn partial(&self) -> bool {
        self.is_partial()
    }

    fn is_partial(&self) -> bool {
        false
    }
}

impl<R: Read> Positioned for ReadStream<R> {
    fn position(&self) -> usize {
        self.position
    }
}

/// A growable stream which behaves like a asynchronous stream: it returns
/// `Eoi` while it is partial (more input may arrive).
struct PendingStream {
    buffer: VecDeque<u8>,
    position: usize,
    eof: bool,
}

impl PendingStream {
    fn new() -> Self {
        PendingStream {
            buffer: VecDeque::new(),
            position: 0,
            eof: false,
        }
    }

    fn feed(&mut self, bytes: &[u8]) {
        self.buffer.extend(bytes);
    }

    fn finish(&mut self) {
        self.eof = true;
    }
}

impl StreamOnce for PendingStream {
    type Token = u8;
    type Range = &'static [u8];
    type Position = usize;
    type Error = UnexpectedParse;

    fn uncons(&mut self) -> Result<u8, UnexpectedParse> {
        match self.buffer.pop_front() {
            Some(b) => {
                self.position += 1;
                Ok(b)
            }
            None => Err(UnexpectedParse::Eoi),
        }
    }

    fn partial(&self) -> bool {
        self.is_partial()
    }

    fn is_partial(&self) -> bool {
        !self.eof
    }
}

impl Positioned for PendingStream {
    fn position(&self) -> usize {
        self.position
    }
}

// ---------------------------------------------------------------------------
// A few parsers to put behind checkpoints
// ---------------------------------------------------------------------------

fn stream_error<T, Input: Positioned>(
    input: &Input,
    err: StreamErrorFor<Input>,
) -> ParseResult<T, Input::Error> {
    let err = Input::Error::from_error(input.position(), err);
    if input.is_partial() {
        ParseResult::CommitErr(err)
    } else {
        ParseResult::PeekErr(err)
    }
}

/// One given byte.
#[derive(Clone, Copy)]
struct Byte(u8);

fn byte(b: u8) -> Byte {
    Byte(b)
}

fn token(b: u8) -> Byte {
    Byte(b)
}

impl<Input: Stream<Token = u8>> Parser<Input> for Byte {
    type Output = u8;
    type PartialState = ();

    fn add_error(&mut self, error: &mut Input::Error) {
        error.add(StreamError::message_static_message("expected a byte"));
    }

    fn add_committed_expected_error(&mut self, _: &mut Input::Error) {}

    fn count(&self) -> usize {
        1
    }

    fn parser_count(&self) -> usize {
        1
    }

    fn parse_mode_impl(
        &mut self,
        _: ParseMode,
        input: &mut Input,
        _: &mut (),
    ) -> ParseResult<u8, Input::Error> {
        let position = input.position();
        match input.uncons() {
            Ok(token) if token == self.0 => ParseResult::CommitOk(token),
            Ok(_) => ParseResult::PeekErr(Input::Error::empty(position)),
            Err(err) => stream_error(input, err),
        }
    }
}

/// One parser after the other.
#[derive(Clone, Copy)]
struct Pair<P, Q>(P, Q);

fn pair<P, Q>(p: P, q: Q) -> Pair<P, Q> {
    Pair(p, q)
}

struct PairState<A, S, T> {
    first: Option<A>,
    p: S,
    q: T,
}

impl<A, S: Default, T: Default> Default for PairState<A, S, T> {
    fn default() -> Self {
        PairState {
            first: None,
            p: S::default(),
            q: T::default(),
        }
    }
}

impl<Input, P, Q> Parser<Input> for Pair<P, Q>
where
    Input: Stream<Token = u8>,
    P: Parser<Input>,
    Q: Parser<Input>,
{
    type Output = (P::Output, Q::Output);
    type PartialState = PairState<P::Output, P::PartialState, Q::PartialState>;

    fn add_error(&mut self, error: &mut Input::Error) {
        self.0.add_error(error)
    }

    fn add_committed_expected_error(&mut self, error: &mut Input::Error) {
        self.1.add_committed_expected_error(error)
    }

    fn count(&self) -> usize {
        self.0.parser_count() + self.1.parser_count()
    }

    fn parser_count(&self) -> usize {
        self.0.parser_count() + self.1.parser_count()
    }

    fn parse_mode_impl(
        &mut self,
        mode: ParseMode,
        input: &mut Input,
        state: &mut Self::PartialState,
    ) -> ParseResult<Self::Output, Input::Error> {
        if mode.is_first() {
            *state = Default::default();
        }
        let (first, committed) = match state.first.take() {
            Some(first) => (first, true),
            None => match self.0.parse_mode_impl(mode, input, &mut state.p) {
                ParseResult::CommitOk(first) => (first, true),
                ParseResult::PeekOk(first) => (first, false),
                ParseResult::CommitErr(err) => return ParseResult::CommitErr(err),
                ParseResult::PeekErr(err) => return ParseResult::PeekErr(err),
            },
        };
        let before = input.checkpoint();
        match self.1.parse_mode_impl(mode, input, &mut state.q) {
            ParseResult::CommitOk(second) => ParseResult::CommitOk((first, second)),
            ParseResult::PeekOk(second) if committed => ParseResult::CommitOk((first, second)),
            ParseResult::PeekOk(second) => ParseResult::PeekOk((first, second)),
            ParseResult::PeekErr(err) if committed => {
                if let Err(err) = input.reset(before) {
                    return ParseResult::CommitErr(err);
                }
                ParseResult::CommitErr(err)
            }
            ParseResult::PeekErr(err) => ParseResult::PeekErr(err),
            ParseResult::CommitErr(err) => {
                state.first = Some(first);
                ParseResult::CommitErr(err)
            }
        }
    }
}

/// Reports a committed failure as uncommitted.
#[derive(Clone, Copy)]
struct Attempt<P>(P);

fn attempt<P>(p: P) -> Attempt<P> {
    Attempt(p)
}

impl<Input: Stream<Token = u8>, P: Parser<Input>> Parser<Input> for Attempt<P> {
    type Output = P::Output;
    type PartialState = P::PartialState;

    fn add_error(&mut self, error: &mut Input::Error) {
        self.0.add_error(error)
    }

    fn add_committed_expected_error(&mut self, error: &mut Input::Error) {
        self.0.add_committed_expected_error(error)
    }

    fn count(&self) -> usize {
        self.0.parser_count()
    }

    fn parser_count(&self) -> usize {
        self.0.parser_count()
    }

    fn parse_mode_impl(
        &mut self,
        mode: ParseMode,
        input: &mut Input,
        state: &mut P::PartialState,
    ) -> ParseResult<P::Output, Input::Error> {
        match self.0.parse_committed_mode(mode, input, state) {
            ParseResult::CommitErr(err)
                if !(input.is_partial() && err.is_unexpected_end_of_input()) =>
            {
                ParseResult::PeekErr(err)
            }
            result => result,
        }
    }
}

/// Applies a function to what a parser gives.
struct Mapped<P, F>(P, F);

fn map<P, F>(p: P, f: F) -> Mapped<P, F> {
    Mapped(p, f)
}

impl<Input, P, F, T> Parser<Input> for Mapped<P, F>
where
    Input: Stream<Token = u8>,
    P: Parser<Input>,
    F: FnMut(P::Output) -> T,
{
    type Output = T;
    type PartialState = P::PartialState;

    fn add_error(&mut self, error: &mut Input::Error) {
        self.0.add_error(error)
    }

    fn add_committed_expected_error(&mut self, error: &mut Input::Error) {
        self.0.add_committed_expected_error(error)
    }

    fn count(&self) -> usize {
        self.0.parser_count()
    }

    fn parser_count(&self) -> usize {
        self.0.parser_count()
    }

    fn parse_mode_impl(
        &mut self,
        mode: ParseMode,
        input: &mut Input,
        state: &mut P::PartialState,
    ) -> ParseResult<T, Input::Error> {
        match self.0.parse_mode_impl(mode, input, state) {
            ParseResult::CommitOk(value) => ParseResult::CommitOk((self.1)(value)),
            ParseResult::PeekOk(value) => ParseResult::PeekOk((self.1)(value)),
            ParseResult::CommitErr(err) => ParseResult::CommitErr(err),
            ParseResult::PeekErr(err) => ParseResult::PeekErr(err),
        }
    }
}

/// The second parser where the first fails without committing.
struct Or<P, Q>(P, Q);

fn or<P, Q>(p: P, q: Q) -> Or<P, Q> {
    Or(p, q)
}

/// Which alternative waits for more input: none, the first or the second.
#[derive(Default)]
struct OrState<S, T> {
    waiting: u8,
    p: S,
    q: T,
}

impl<Input, P, Q> Parser<Input> for Or<P, Q>
where
    Input: Stream<Token = u8>,
    P: Parser<Input>,
    Q: Parser<Input, Output = P::Output>,
{
    type Output = P::Output;
    type PartialState = OrState<P::PartialState, Q::PartialState>;

    fn add_error(&mut self, error: &mut Input::Error) {
        self.0.add_error(error);
        self.1.add_error(error)
    }

    fn add_committed_expected_error(&mut self, error: &mut Input::Error) {
        self.0.add_committed_expected_error(error);
        self.1.add_committed_expected_error(error)
    }

    fn count(&self) -> usize {
        1
    }

    fn parser_count(&self) -> usize {
        1
    }

    fn parse_mode_impl(
        &mut self,
        mode: ParseMode,
        input: &mut Input,
        state: &mut Self::PartialState,
    ) -> ParseResult<P::Output, Input::Error> {
        if mode.is_first() {
            *state = Default::default();
        }
        let mut failed = None;
        if state.waiting < 2 {
            let before = input.checkpoint();
            let resumed = state.waiting == 1;
            match self.0.parse_mode_impl(mode, input, &mut state.p) {
                ParseResult::PeekErr(err) if resumed => return ParseResult::PeekErr(err),
                ParseResult::PeekErr(err) => {
                    if let Err(err) = input.reset(before) {
                        return ParseResult::CommitErr(err);
                    }
                    failed = Some(err);
                }
                ParseResult::CommitErr(err) => {
                    state.waiting = 1;
                    return ParseResult::CommitErr(err);
                }
                result => return result,
            }
        }
        match self.1.parse_mode_impl(mode, input, &mut state.q) {
            ParseResult::PeekErr(err) => ParseResult::PeekErr(match failed {
                Some(first) => first.merge(err),
                None => err,
            }),
            ParseResult::CommitErr(err) => {
                state.waiting = 2;
                ParseResult::CommitErr(err)
            }
            result => result,
        }
    }
}

/// As many tokens as a parser asks for.
struct Payload<P>(P);

fn payload<P>(len: P) -> Payload<P> {
    Payload(len)
}

#[derive(Default)]
struct PayloadState<S> {
    len: Option<usize>,
    p: S,
    read: Vec<u8>,
}

impl<Input, P> Parser<Input> for Payload<P>
where
    Input: Stream<Token = u8>,
    P: Parser<Input, Output = usize>,
{
    type Output = Vec<u8>;
    type PartialState = PayloadState<P::PartialState>;

    fn add_error(&mut self, error: &mut Input::Error) {
        self.0.add_error(error)
    }

    fn add_committed_expected_error(&mut self, error: &mut Input::Error) {
        self.0.add_committed_expected_error(error)
    }

    fn count(&self) -> usize {
        self.0.parser_count()
    }

    fn parser_count(&self) -> usize {
        self.0.parser_count()
    }

    fn parse_mode_impl(
        &mut self,
        mode: ParseMode,
        input: &mut Input,
        state: &mut Self::PartialState,
    ) -> ParseResult<Vec<u8>, Input::Error> {
        if mode.is_first() {
            *state = Default::default();
        }
        let len = match state.len {
            Some(len) => len,
            None => match self.0.parse_mode_impl(mode, input, &mut state.p) {
                ParseResult::CommitOk(len) | ParseResult::PeekOk(len) => len,
                ParseResult::CommitErr(err) => return ParseResult::CommitErr(err),
                ParseResult::PeekErr(err) => return ParseResult::PeekErr(err),
            },
        };
        state.len = Some(len);
        while state.read.len() < len {
            match input.uncons() {
                Ok(token) => state.read.push(token),
                Err(err) => {
                    return ParseResult::CommitErr(Input::Error::from_error(input.position(), err))
                }
            }
        }
        state.len = None;
        ParseResult::CommitOk(std::mem::take(&mut state.read))
    }
}

/// The framing parser used in the documentation: a frame starts with a
/// versioned header (`N2` new, `N1` old) followed by a length prefixed
/// payload. Both versions share the payload parser and the new header is
/// probed speculatively behind a bounded checkpoint.
fn frame_parser<Input>() -> impl Parser<Input, Output = Vec<u8>>
where
    Input: CheckpointStream<Token = u8>,
{
    let new_header = map(
        checkpoint::<Input, _>(3, attempt(pair(token(b'N'), pair(token(b'2'), any())))),
        |(_, (_, len)): (u8, (u8, u8))| len as usize,
    );
    let old_header = map(
        pair(token(b'N'), pair(token(b'1'), any())),
        |(_, (_, len)): (u8, (u8, u8))| len as usize,
    );
    payload(or(new_header, old_header))
}

type Slices<'a> = CheckpointedStream<SliceStream<'a, u8>>;

fn slice(bytes: &[u8]) -> Slices<'_> {
    CheckpointedStream::new(SliceStream::new(bytes))
}

#[test]
fn checkpoint_framing_new_and_old_headers_share_payload() {
    let mut frame = frame_parser();
    let result = frame.parse(slice(&b"N2\x03abc"[..]));
    assert_eq!(result.map(|t| t.0), Ok(b"abc".to_vec()));

    let result = frame.parse(slice(&b"N1\x02hi"[..]));
    assert_eq!(result.map(|t| t.0), Ok(b"hi".to_vec()));
}

#[test]
fn slice_checkpoint_reset_and_commit() {
    let mut parser = or(
        checkpoint::<Slices, _>(2, attempt(pair(byte(b'a'), byte(b'b')))),
        pair(byte(b'a'), byte(b'c')),
    );

    // Committed: the first alternative matches and the checkpoint is committed
    let result = parser.parse(slice(&b"ab"[..]));
    assert_eq!(result.map(|t| t.0), Ok((b'a', b'b')));

    // Reset within the token budget: the second alternative is tried from the
    // checkpoint
    let result = parser.parse(slice(&b"ac"[..]));
    assert_eq!(result.map(|t| t.0), Ok((b'a', b'c')));
}

#[test]
fn slice_checkpoint_budget_exceeded_is_committed() {
    // The attempted parser reads 2 tokens before failing which is more than
    // the budget of 1, so the reset fails and no alternative is tried
    let mut parser = or(
        checkpoint::<Slices, _>(1, attempt(pair(byte(b'a'), byte(b'b')))),
        pair(byte(b'a'), byte(b'c')),
    );
    let result = parser.parse(slice(&b"ac"[..]));
    assert!(result.is_err());
}

#[test]
fn easy_checkpoint_budget_exceeded_keeps_furthest_error() {
    // The attempted parser reads 4 tokens before failing, exceeding the
    // budget of 2
    let mut parser = or(
        map(
            checkpoint::<CheckpointedStream<EasyStream<SliceStream<u8>>>, _>(
                2,
                attempt(pair(
                    byte(b'A'),
                    pair(byte(b'B'), pair(byte(b'C'), byte(b'D'))),
                )),
            ),
            |_| "new",
        ),
        map(
            pair(byte(b'A'), pair(byte(b'B'), byte(b'C'))),
            |_| "old",
        ),
    );

    let input = &b"ABCX"[..];
    let stream = CheckpointedStream::new(EasyStream(SliceStream::new(input)));
    let err = match parser.parse(stream) {
        Ok((value, _)) => panic!("{:?}", value),
        Err(err) => err,
    };

    // The reset failed explicitly and the error is reported at the furthest
    // position which was reached (4 tokens were read)
    assert_eq!(err.position, 4);
    assert!(
        err.errors.iter().any(|e| matches!(
            e,
            EasyError::Message(msg)
                if *msg == "checkpoint token budget exceeded"
        )),
        "{:?}",
        err
    );
}

#[test]
fn buffered_reader_checkpoint() {
    // A `Read` based stream cannot be cloned, the checkpoint stream provides
    // backtracking for it regardless
    let input = b"N1\x02hi";
    let stream = CheckpointedStream::new(ReadStream {
        reader: &input[..],
        position: 0,
    });
    let mut frame = frame_parser();
    assert_eq!(frame.parse(stream).map(|t| t.0).ok(), Some(b"hi".to_vec()));
}

#[test]
fn async_checkpoint_survives_pending() {
    let mut stream = CheckpointedStream::new(EasyStream(PendingStream::new()));
    // Only the first byte of the header is available
    stream.get_mut().0.feed(b"N");

    let mut frame = frame_parser();
    let mut state = Default::default();

    // The parse cannot complete yet, it is `Pending` until more input arrives
    let err = frame
        .parse_with_state(&mut stream, &mut state)
        .unwrap_err();
    assert!(ParseError::<u8, &'static [u8], usize>::is_unexpected_end_of_input(&err));
    // The checkpoint is still active and retains the token read so far
    assert_eq!(stream.active_checkpoints(), 1);
    assert_eq!(stream.buffered_len(), 1);

    // The rest of the frame arrives
    stream.get_mut().0.feed(b"2\x03abc");
    stream.get_mut().0.finish();

    let payload = frame.parse_with_state(&mut stream, &mut state).unwrap();
    assert_eq!(payload, b"abc");
    assert_eq!(stream.active_checkpoints(), 0);
}

#[test]
fn async_checkpoint_reset_across_pending() {
    let mut stream = CheckpointedStream::new(EasyStream(PendingStream::new()));
    // Only the first byte of the header is available, the parser suspends in
    // the middle of the speculative new header parse
    stream.get_mut().0.feed(b"N");

    // Speculatively parse the new frame format behind a checkpoint guard
    let mut new_frame = payload(map(
        checkpoint::<CheckpointedStream<EasyStream<PendingStream>>, _>(
            3,
            attempt(pair(token(b'N'), pair(token(b'2'), any()))),
        ),
        |(_, (_, len)): (u8, (u8, u8))| len as usize,
    ));
    let mut state = Default::default();

    {
        let mut guard = stream.checkpoint_guard(3);
        // Suspends while waiting for more input: `Pending`
        let err = new_frame
            .parse_with_state(&mut *guard, &mut state)
            .unwrap_err();
        assert!(ParseError::<u8, &'static [u8], usize>::is_unexpected_end_of_input(&err));

        // The frame turns out to use the old header, so the checkpoint
        // (created before the suspension) is reset across the `Pending`
        // boundary
        guard.get_mut().0.feed(b"1\x02hi");
        guard.get_mut().0.finish();

        let err = new_frame
            .parse_with_state(&mut *guard, &mut state)
            .unwrap_err();
        assert!(!ParseError::<u8, &'static [u8], usize>::is_unexpected_end_of_input(&err));
        guard.reset().unwrap();
    }

    // The old format can now be parsed from the reset position
    let mut old_frame = payload(map(
        pair(token(b'N'), pair(token(b'1'), any())),
        |(_, (_, len)): (u8, (u8, u8))| len as usize,
    ));
    let payload = old_frame
        .parse_with_state(&mut stream, &mut Default::default())
        .unwrap();
    assert_eq!(payload, b"hi");
}

#[test]
fn async_checkpoint_error_position_across_pending() {
    let mut stream = CheckpointedStream::new(EasyStream(PendingStream::new()));
    stream.get_mut().0.feed(b"N2\x05ab");

    let mut frame = frame_parser();
    let mut state = Default::default();

    // The header promises 5 payload bytes but only 2 are available
    let err = frame
        .parse_with_state(&mut stream, &mut state)
        .unwrap_err();
    assert!(ParseError::<u8, &'static [u8], usize>::is_unexpected_end_of_input(&err));

    // One more byte arrives and then the stream ends unexpectedly
    stream.get_mut().0.feed(b"c");
    stream.get_mut().0.finish();

    let err = frame
        .parse_with_state(&mut stream, &mut state)
        .unwrap_err();
    // All 6 bytes were consumed so the error is reported at position 6, the
    // suspension did not disturb the positions
    assert_eq!(err.position, 6);
}

#[test]
fn nested_checkpoints_follow_stack_order() {
    // The inner checkpoint commits `AB` successfully but the outer parser
    // fails afterwards, so the outer checkpoint must still be active and
    // reset the stream all the way to the start
    let inner = checkpoint::<Slices, _>(5, attempt(pair(byte(b'A'), byte(b'B'))));
    let mut parser = or(
        map(
            checkpoint::<Slices, _>(10, attempt(pair(inner, byte(b'X')))),
            |_| "inner",
        ),
        map(
            pair(byte(b'A'), pair(byte(b'B'), byte(b'C'))),
            |_| "fallback",
        ),
    );

    let result = parser.parse(slice(&b"ABC"[..]));
    assert_eq!(result.map(|t| t.0), Ok("fallback"));
}

#[test]
fn nested_checkpoint_guards_follow_stack_order() {
    let mut stream = slice(&b"abcd"[..]);
    let mut outer = stream.checkpoint_guard(10);
    assert_eq!(outer.uncons(), Ok(b'a'));
    {
        let mut inner = outer.checkpoint_guard(5);
        assert_eq!(inner.uncons(), Ok(b'b'));
        inner.commit();
    }
    // Committing the inner guard must not commit the outer one
    assert_eq!(outer.active_checkpoints(), 1);
    outer.reset().unwrap();
    assert_eq!(stream.uncons(), Ok(b'a'));
}

#[test]
fn checkpoint_guard_drop_resets_stream() {
    let mut stream = slice(&b"ab"[..]);
    {
        let mut guard = stream.checkpoint_guard(2);
        assert_eq!(guard.uncons(), Ok(b'a'));
        // Dropped without `commit`: equivalent to `reset`
        guard.drop();
    }
    assert_eq!(stream.active_checkpoints(), 0);
    assert_eq!(stream.uncons(), Ok(b'a'));
}

#[test]
fn checkpoint_guard_drop_after_budget_exceeded_defers_error() {
    let mut stream = slice(&b"abc"[..]);
    {
        let mut guard = stream.checkpoint_guard(1);
        assert_eq!(guard.uncons(), Ok(b'a'));
        assert_eq!(guard.uncons(), Ok(b'b'));
        // Dropped after reading more tokens than the budget allows: the reset
        // fails and the error is reported by the next `uncons` call
        guard.drop();
    }
    assert_eq!(stream.uncons(), Err(UnexpectedParse::Unexpected));
}

#[test]
fn checkpoint_guard_commit_keeps_position() {
    let mut stream = slice(&b"ab"[..]);
    {
        let mut guard = stream.checkpoint_guard(2);
        assert_eq!(guard.uncons(), Ok(b'a'));
        guard.commit();
    }
    assert_eq!(stream.active_checkpoints(), 0);
    // Committed, so the stream continues after the tokens read in the guard
    assert_eq!(stream.uncons(), Ok(b'b'));
}

/// A given number of tokens.
fn count(n: usize) -> Payload<Constant> {
    Payload(Constant(n))
}

struct Constant(usize);

impl<Input: Stream<Token = u8>> Parser<Input> for Constant {
    type Output = usize;
    type PartialState = ();

    fn add_error(&mut self, _: &mut Input::Error) {}

    fn add_committed_expected_error(&mut self, _: &mut Input::Error) {}

    fn count(&self) -> usize {
        1
    }

    fn parser_count(&self) -> usize {
        1
    }

    fn parse_mode_impl(
        &mut self,
        _: ParseMode,
        _: &mut Input,
        _: &mut (),
    ) -> ParseResult<usize, Input::Error> {
        ParseResult::PeekOk(self.0)
    }
}

#[test]
fn checkpoint_memory_bound_long_stream() {
    const FRAMES: usize = 25_000;
    let mut input = Vec::with_capacity(FRAMES * 4);
    for i in 0..FRAMES as u32 {
        input.push(0xFF);
        input.extend_from_slice(&i.to_le_bytes()[..3]);
    }

    let mut stream = slice(&input[..]);
    let mut frame = pair(byte(0xFF), count(3));
    let mut parsed = 0;
    loop {
        let mut guard = stream.checkpoint_guard(4);
        if frame.parse_stream(&mut *guard).is_ok() {
            guard.commit();
            parsed += 1;
            // Committing the checkpoint releases the buffered frame, the
            // whole input is never retained
            assert_eq!(stream.buffered_len(), 0);
        } else {
            guard.drop();
            break;
        }
    }
    assert_eq!(parsed, FRAMES);
    assert_eq!(stream.buffered_len(), 0);
    assert_eq!(stream.active_checkpoints(), 0);
}

#[test]
fn checkpoint_preserves_attempt_choice_and_commit_semantics() {
    // A committed failure inside a checkpoint stays committed: `or` does not
    // try the alternative, exactly as if the checkpoint were not present
    let mut parser = or(
        checkpoint::<Slices, _>(8, pair(byte(b'a'), byte(b'b'))),
        pair(byte(b'a'), byte(b'c')),
    );
    let result = parser.parse(slice(&b"ac"[..]));
    assert!(result.is_err());

    // `attempt` inside the checkpoint downgrades the committed failure so
    // the alternative is tried after the reset
    let mut parser = or(
        checkpoint::<Slices, _>(8, attempt(pair(byte(b'a'), byte(b'b')))),
        pair(byte(b'a'), byte(b'c')),
    );
    let result = parser.parse(slice(&b"ac"[..]));
    assert_eq!(result.map(|t| t.0), Ok((b'a', b'c')));
}

// ---------------------------------------------------------------------------
// `parser::checkpoint::checkpoint`, which reports every failure it can rewind
// as uncommitted
// ---------------------------------------------------------------------------

type EasySlices<'a> = CheckpointedStream<EasyStream<SliceStream<'a, u8>>>;

fn easy(bytes: &[u8]) -> EasySlices<'_> {
    CheckpointedStream::new(EasyStream(SliceStream::new(bytes)))
}

#[derive(Debug, PartialEq)]
enum Version {
    V1,
    V2,
}

#[derive(Debug, PartialEq)]
struct Frame {
    version: Version,
    payload: Vec<u8>,
}

#[test]
fn rewinding_framing_parser() {
    let len = |(_, len): (_, u8)| len as usize;
    // Try the new `V2` header, rewinding at most 4 tokens if it does not match.
    let v2 = map(
        payload(map(
            pair(
                rewinding::<SliceStream<u8>, _>(4, pair(byte(b'V'), byte(b'2'))),
                any(),
            ),
            len,
        )),
        |payload| Frame {
            version: Version::V2,
            payload,
        },
    );
    // Fall back to the old `V1` header.
    let v1 = map(
        payload(map(pair(pair(byte(b'V'), byte(b'1')), any()), len)),
        |payload| Frame {
            version: Version::V1,
            payload,
        },
    );
    let mut frame = or(v2, v1);

    // Old format input: the `V2` attempt fails and is rewound, `V1` succeeds.
    let (frame_v1, _) = frame.parse(slice(&b"V1\x03abc"[..])).ok().unwrap();
    assert_eq!(
        frame_v1,
        Frame {
            version: Version::V1,
            payload: b"abc".to_vec()
        }
    );

    // New format input: the checkpoint commits after the `V2` header matches.
    let (frame_v2, _) = frame.parse(slice(&b"V2\x03abc"[..])).ok().unwrap();
    assert_eq!(
        frame_v2,
        Frame {
            version: Version::V2,
            payload: b"abc".to_vec()
        }
    );
}

#[test]
fn rewinding_makes_committed_failures_uncommitted() {
    let mut stream = easy(b"ac");
    let mut parser = rewinding::<EasyStream<SliceStream<u8>>, _>(2, pair(byte(b'a'), byte(b'b')));
    let failed = EasyErrors {
        position: 1,
        errors: vec![],
    };
    assert_eq!(
        parser.parse_stream(&mut stream),
        ParseResult::PeekErr(failed)
    );
    assert_eq!(stream.position(), 0);
    assert_eq!(stream.active_checkpoints(), 0);
    assert_eq!(stream.uncons(), Ok(b'a'));
}

#[test]
fn rewinding_rewinds_uncommitted_failures() {
    let mut stream = easy(b"ac");
    let mut parser = rewinding::<EasyStream<SliceStream<u8>>, _>(1, byte(b'b'));
    let failed = EasyErrors {
        position: 0,
        errors: vec![],
    };
    assert_eq!(
        parser.parse_stream(&mut stream),
        ParseResult::PeekErr(failed)
    );
    assert_eq!(stream.uncons(), Ok(b'a'));
}

#[test]
fn rewinding_beyond_the_budget_notes_it_in_the_error() {
    let noted = ParseResult::CommitErr(EasyErrors {
        position: 1,
        errors: vec![EasyError::Message(
            "checkpoint reset failed: token budget exceeded",
        )],
    });

    let mut stream = easy(b"ac");
    let mut parser = rewinding::<EasyStream<SliceStream<u8>>, _>(1, pair(byte(b'a'), byte(b'b')));
    assert_eq!(parser.parse_stream(&mut stream), noted);
    assert_eq!(stream.active_checkpoints(), 0);

    // An uncommitted failure is committed by it as well
    let mut stream = easy(b"ac");
    let mut parser =
        rewinding::<EasyStream<SliceStream<u8>>, _>(1, attempt(pair(byte(b'a'), byte(b'b'))));
    assert_eq!(parser.parse_stream(&mut stream), noted);
}

#[test]
fn rewinding_commits_successes() {
    let mut stream = easy(b"abc");
    let mut parser = rewinding::<EasyStream<SliceStream<u8>>, _>(0, pair(byte(b'a'), byte(b'b')));
    assert_eq!(
        parser.parse_stream(&mut stream),
        ParseResult::CommitOk((b'a', b'b'))
    );
    assert_eq!(stream.active_checkpoints(), 0);
    assert_eq!(stream.buffered_len(), 0);

    let mut parser = rewinding::<EasyStream<SliceStream<u8>>, _>(0, Constant(5));
    assert_eq!(parser.parse_stream(&mut stream), ParseResult::PeekOk(5));
    assert_eq!(stream.uncons(), Ok(b'c'));
}

#[test]
fn rewinding_starts_over_when_more_input_arrives() {
    let mut stream = CheckpointedStream::new(EasyStream(PendingStream::new()));
    stream.get_mut().0.feed(b"N");
    let mut parser = rewinding::<EasyStream<PendingStream>, _>(
        3,
        pair(token(b'N'), pair(token(b'2'), any())),
    );
    let mut state = Default::default();

    let err = parser
        .parse_with_state(&mut stream, &mut state)
        .unwrap_err();
    assert_eq!(err.errors, vec![EasyError::EndOfInput]);
    // Rewound: no checkpointed input is committed while the parser waits
    assert_eq!(stream.active_checkpoints(), 0);
    assert_eq!(stream.position(), 0);
    assert!(state.first.is_none());

    stream.get_mut().0.feed(b"2\x03");
    let parsed = parser.parse_with_state(&mut stream, &mut state).unwrap();
    assert_eq!(parsed, (b'N', (b'2', 3)));
    assert_eq!(stream.buffered_len(), 0);
}

#[test]
fn rewinding_beyond_the_budget_while_waiting() {
    let mut stream = CheckpointedStream::new(EasyStream(PendingStream::new()));
    stream.get_mut().0.feed(b"N2");
    let mut parser = rewinding::<EasyStream<PendingStream>, _>(
        1,
        pair(token(b'N'), pair(token(b'2'), any())),
    );
    let mut state = Default::default();
    let err = parser
        .parse_with_state(&mut stream, &mut state)
        .unwrap_err();
    assert_eq!(
        err.errors,
        vec![
            EasyError::EndOfInput,
            EasyError::Message("checkpoint reset failed: token budget exceeded"),
        ]
    );
    assert_eq!(stream.position(), 2);
}

#[test]
fn rewinding_nests() {
    let inner = rewinding::<SliceStream<u8>, _>(2, pair(byte(b'A'), byte(b'B')));
    let mut parser = or(
        map(
            rewinding::<SliceStream<u8>, _>(3, pair(inner, byte(b'X'))),
            |_| "inner",
        ),
        map(
            pair(byte(b'A'), pair(byte(b'B'), byte(b'C'))),
            |_| "fallback",
        ),
    );
    let result = parser.parse(slice(&b"ABC"[..]));
    assert_eq!(result.map(|t| t.0), Ok("fallback"));
}

#[test]
fn checkpoints_forward_what_their_parser_expects() {
    let expected = vec![EasyError::Message("expected a byte")];

    let mut rewinds = rewinding::<EasyStream<SliceStream<u8>>, _>(2, pair(byte(b'a'), any()));
    let mut err = EasyErrors {
        position: 0,
        errors: vec![],
    };
    Parser::<EasySlices>::add_error(&mut rewinds, &mut err);
    assert_eq!(err.errors, expected);
    Parser::<EasySlices>::add_committed_expected_error(&mut rewinds, &mut err);
    assert_eq!(err.errors, expected);
    assert_eq!(Parser::<EasySlices>::parser_count(&rewinds), 2);

    let mut generic = checkpoint::<EasySlices, _>(2, pair(byte(b'a'), any()));
    let mut err = EasyErrors {
        position: 0,
        errors: vec![],
    };
    Parser::<EasySlices>::add_error(&mut generic, &mut err);
    assert_eq!(err.errors, expected);
    Parser::<EasySlices>::add_committed_expected_error(&mut generic, &mut err);
    assert_eq!(err.errors, expected);
    assert_eq!(Parser::<EasySlices>::parser_count(&generic), 2);
}

#[test]
fn generic_checkpoint_gives_up_its_checkpoint_on_committed_failures() {
    let mut stream = easy(b"ac");
    let mut parser = checkpoint::<EasySlices, _>(8, pair(byte(b'a'), byte(b'b')));
    assert!(!parser.parse_stream(&mut stream).is_ok());
    assert_eq!(stream.active_checkpoints(), 0);
    assert_eq!(stream.position(), 1);
}

#[test]
fn generic_checkpoints_nest() {
    // Both checkpoints are given up when the parser succeeds, fails uncommitted or fails committed
    let mut parser = checkpoint::<EasySlices, _>(
        4,
        pair(
            checkpoint::<EasySlices, _>(2, pair(byte(b'a'), byte(b'b'))),
            byte(b'c'),
        ),
    );
    for input in [&b"abc"[..], b"abx", b"ax", b"x"] {
        let mut stream = easy(input);
        stream.begin_checkpoint(9);
        assert_eq!(parser.parse_stream(&mut stream).is_ok(), input == b"abc");
        assert_eq!(stream.active_checkpoints(), 1);
    }
    let mut stream = easy(b"x");
    assert!(matches!(
        parser.parse_stream(&mut stream),
        ParseResult::PeekErr(_)
    ));
    assert_eq!(stream.position(), 0);
    assert_eq!(stream.uncons(), Ok(b'x'));
}

#[test]
fn nested_generic_checkpoints_stay_active_while_waiting() {
    let mut stream = CheckpointedStream::new(EasyStream(PendingStream::new()));
    stream.get_mut().0.feed(b"a");
    let mut parser = checkpoint::<CheckpointedStream<EasyStream<PendingStream>>, _>(
        4,
        checkpoint::<CheckpointedStream<EasyStream<PendingStream>>, _>(
            2,
            pair(byte(b'a'), byte(b'b')),
        ),
    );
    let mut state = Default::default();
    let err = parser
        .parse_with_state(&mut stream, &mut state)
        .unwrap_err();
    assert_eq!(err.errors, vec![EasyError::EndOfInput]);
    assert_eq!(stream.active_checkpoints(), 2);
    stream.get_mut().0.feed(b"b");
    let parsed = parser.parse_with_state(&mut stream, &mut state).unwrap();
    assert_eq!(parsed, (b'a', b'b'));
    assert_eq!(stream.active_checkpoints(), 0);
}

#[test]
fn tokens_retained_ahead_count_against_the_budget_of_a_parser() {
    // With three tokens ahead or none, a parser which reads four is held to the same budget
    for budget in 0..6 {
        let mut stream = easy(b"abcd");
        let mut ahead = rewinding::<EasyStream<SliceStream<u8>>, _>(3, pair(count(2), byte(b'x')));
        assert!(matches!(
            ahead.parse_stream(&mut stream),
            ParseResult::PeekErr(_)
        ));
        assert_eq!(stream.position(), 0);
        let mut fresh = easy(b"abcd");
        for stream in [&mut stream, &mut fresh] {
            let mut parser =
                rewinding::<EasyStream<SliceStream<u8>>, _>(budget, pair(count(3), byte(b'y')));
            let result = parser.parse_stream(stream);
            if budget >= 4 {
                assert!(matches!(result, ParseResult::PeekErr(_)));
                assert_eq!(stream.uncons(), Ok(b'a'));
            } else {
                assert!(matches!(result, ParseResult::CommitErr(_)));
            }
            assert_eq!(stream.active_checkpoints(), 0);
        }
    }
}

#[test]
fn waiting_does_not_renew_the_budget() {
    // The same input in one piece and in two
    for budget in 0..4 {
        let mut results = Vec::new();
        for pieces in [&[&b"Nx"[..]][..], &[b"N", b"x"]] {
            let mut stream = CheckpointedStream::new(EasyStream(PendingStream::new()));
            let mut parser = rewinding::<EasyStream<PendingStream>, _>(
                budget,
                pair(token(b'N'), token(b'2')),
            );
            let mut state = Default::default();
            let mut last = None;
            for piece in pieces {
                stream.get_mut().0.feed(piece);
                last = Some(parser.parse_mode_impl(ParseMode::Partial, &mut stream, &mut state));
            }
            results.push(matches!(last, Some(ParseResult::PeekErr(_))));
            if budget >= 2 {
                assert_eq!(stream.position(), 0);
                assert_eq!(stream.buffered_len(), 2);
            } else if budget == 1 {
                assert_eq!(
                    last,
                    Some(ParseResult::CommitErr(EasyErrors {
                        position: 1,
                        errors: vec![EasyError::Message(
                            "checkpoint reset failed: token budget exceeded"
                        )],
                    }))
                );
            }
        }
        assert_eq!(results, [budget >= 2, budget >= 2]);
    }
}

#[test]
fn nested_generic_checkpoints_resume_to_the_outer_one() {
    let mut stream = CheckpointedStream::new(EasyStream(PendingStream::new()));
    stream.begin_checkpoint(9);
    stream.get_mut().0.feed(b"za");
    assert_eq!(stream.uncons(), Ok(b'z'));
    let mut parser = checkpoint::<CheckpointedStream<EasyStream<PendingStream>>, _>(
        4,
        checkpoint::<CheckpointedStream<EasyStream<PendingStream>>, _>(
            2,
            attempt(pair(byte(b'a'), byte(b'b'))),
        ),
    );
    let mut state = Default::default();
    assert!(parser
        .parse_with_state(&mut stream, &mut state)
        .is_err());
    assert_eq!(stream.active_checkpoints(), 3);
    // Resumed while both wait, the parser fails without committing
    stream.get_mut().0.feed(b"x");
    assert!(matches!(
        parser.parse_mode_impl(ParseMode::Partial, &mut stream, &mut state),
        ParseResult::PeekErr(_)
    ));
    assert_eq!(stream.active_checkpoints(), 1);
    assert_eq!(stream.position(), 1);
    assert_eq!(stream.uncons(), Ok(b'a'));
}
