//! Checkpointed streams, operation by operation.

use combine::error::{ParseError, ParseResult, StreamError, UnexpectedParse};
use combine::stream::checkpoint::{CheckpointStream, Stream};
use combine::stream::{Positioned, ResetStream, SliceStream, StreamOnce};

/// An error which keeps its position and one message.
#[derive(Debug, Clone, PartialEq, Eq)]
struct Report {
    position: usize,
    reason: Reason,
}

#[derive(Debug, Clone, Copy, PartialEq, Eq)]
enum Reason {
    End,
    Message(&'static str),
}

impl<Range> StreamError<u8, Range> for Reason {
    fn message_static_message(msg: &'static str) -> Self {
        Reason::Message(msg)
    }
}

impl<Range> ParseError<u8, Range, usize> for Report {
    type StreamError = Reason;

    fn empty(position: usize) -> Self {
        Report {
            position,
            reason: Reason::Message(""),
        }
    }

    fn from_error(position: usize, reason: Reason) -> Self {
        Report { position, reason }
    }

    fn add(&mut self, reason: Reason) {
        self.reason = reason;
    }

    fn merge(self, other: Self) -> Self {
        if self.position > other.position {
            self
        } else {
            other
        }
    }

    fn is_eoi(&self) -> bool {
        self.reason == Reason::End
    }

    fn is_unexpected_end_of_input(&self) -> bool {
        self.reason == Reason::End
    }
}

/// The bytes of a string, with positions which count from 100 on.
#[derive(Debug)]
struct Letters {
    bytes: Vec<u8>,
    read: usize,
    more: bool,
}

fn letters(text: &str) -> Letters {
    Letters {
        bytes: text.as_bytes().to_vec(),
        read: 0,
        more: false,
    }
}

impl StreamOnce for Letters {
    type Token = u8;
    type Range = Vec<u8>;
    type Position = usize;
    type Error = Report;

    fn uncons(&mut self) -> Result<u8, Reason> {
        match self.bytes.get(self.read) {
            Some(b) => {
                self.read += 1;
                Ok(*b)
            }
            None => Err(Reason::End),
        }
    }

    fn partial(&self) -> bool {
        self.is_partial()
    }

    fn is_partial(&self) -> bool {
        self.more
    }
}

impl Positioned for Letters {
    fn position(&self) -> usize {
        100 + self.read
    }
}

fn read<Input>(stream: &mut Stream<Input>, n: usize) -> Vec<u8>
where
    Input: Positioned<Token = u8>,
{
    let mut tokens = Vec::new();
    for _ in 0..n {
        match stream.uncons() {
            Ok(token) => tokens.push(token),
            Err(_) => break,
        }
    }
    tokens
}

#[test]
fn reset_replays_tokens_and_positions() {
    let mut stream = Stream::new(letters("abcdef"));
    assert_eq!(read(&mut stream, 1), b"a");
    stream.begin_checkpoint(3);
    assert_eq!(read(&mut stream, 3), b"bcd");
    assert_eq!(stream.position(), 104);
    assert_eq!(stream.reset_checkpoint(), Ok(()));
    assert_eq!(stream.active_checkpoints(), 0);
    assert_eq!(stream.position(), 101);
    assert_eq!(stream.uncons(), Ok(b'b'));
    assert_eq!(stream.position(), 102);
    assert_eq!(read(&mut stream, 2), b"cd");
    // The wrapped stream was not read again, and goes on after the replay
    assert_eq!(stream.get_ref().read, 4);
    assert_eq!(stream.position(), 104);
    assert_eq!(read(&mut stream, 9), b"ef");
    assert_eq!(stream.uncons(), Err(Reason::End));
}

#[test]
fn budget_is_exact() {
    for budget in 0..5 {
        for n in 0..5 {
            let mut stream = Stream::new(letters("abcdef"));
            stream.begin_checkpoint(budget);
            read(&mut stream, n);
            assert_eq!(stream.reset_checkpoint().is_ok(), n <= budget);
        }
    }
}

#[test]
fn tokens_retained_ahead_count_once_they_are_read() {
    let mut stream = Stream::new(letters("abcdef"));
    assert_eq!(read(&mut stream, 3), b"abc");
    assert_eq!(stream.reset(0), Ok(()));
    // Three tokens lie ahead, none of which is read
    stream.begin_checkpoint(1);
    assert_eq!(stream.reset_checkpoint(), Ok(()));
    stream.begin_checkpoint(0);
    assert_eq!(stream.reset_checkpoint(), Ok(()));
    // It makes no difference where the tokens come from
    for n in 0..6 {
        stream.begin_checkpoint(n);
        assert_eq!(read(&mut stream, n), b"abcdef"[..n].to_vec());
        assert_eq!(stream.reset_checkpoint(), Ok(()));
        assert_eq!(stream.position(), 100);
    }
    stream.begin_checkpoint(2);
    assert_eq!(read(&mut stream, 3), b"abc");
    assert!(stream.reset_checkpoint().is_err());
    assert_eq!(stream.position(), 103);
}

#[test]
fn a_token_read_from_the_buffer_exceeds_the_budget() {
    let mut stream = Stream::new(letters("abc"));
    assert_eq!(read(&mut stream, 1), b"a");
    assert_eq!(stream.reset(0), Ok(()));
    stream.begin_checkpoint(1);
    assert_eq!(read(&mut stream, 2), b"ab");
    assert_eq!(
        stream.reset_checkpoint(),
        Err(Report {
            position: 102,
            reason: Reason::Message("checkpoint token budget exceeded"),
        })
    );
    assert_eq!(stream.position(), 102);

    let mut stream = Stream::new(letters("abc"));
    assert_eq!(read(&mut stream, 1), b"a");
    assert_eq!(stream.reset(0), Ok(()));
    let mut guard = stream.checkpoint_guard(1);
    assert_eq!(read(&mut guard, 2), b"ab");
    guard.drop();
    assert_eq!(stream.active_checkpoints(), 0);
    assert_eq!(
        stream.uncons(),
        Err(Reason::Message(
            "checkpoint dropped after its token budget was exceeded"
        ))
    );
    assert_eq!(stream.uncons(), Ok(b'c'));
}

#[test]
fn going_ahead_without_reading_does_not_count() {
    let mut stream = Stream::new(letters("abcdef"));
    read(&mut stream, 4);
    assert_eq!(stream.reset(0), Ok(()));
    stream.begin_checkpoint(0);
    assert_eq!(stream.reset(3), Ok(()));
    // Nor does it count to begin a checkpoint there
    stream.begin_checkpoint(0);
    stream.commit_checkpoint();
    assert_eq!(stream.reset_checkpoint(), Ok(()));
    assert_eq!(stream.position(), 100);
}

#[test]
fn reads_behind_inner_checkpoints_count_for_outer_ones() {
    for end in 0..3 {
        let mut stream = Stream::new(letters("abcdef"));
        stream.begin_checkpoint(2);
        assert_eq!(read(&mut stream, 1), b"a");
        stream.begin_checkpoint(9);
        stream.begin_checkpoint(9);
        assert_eq!(read(&mut stream, 2), b"bc");
        for _ in 0..2 {
            match end {
                0 => stream.commit_checkpoint(),
                1 => assert_eq!(stream.reset_checkpoint(), Ok(())),
                _ => assert_eq!(stream.reset(0), Ok(())),
            }
        }
        if end == 2 {
            stream.commit_checkpoint();
            stream.commit_checkpoint();
        }
        assert!(stream.reset_checkpoint().is_err());
    }
    // A read behind an inner checkpoint which lies ahead of it
    let mut stream = Stream::new(letters("abcdef"));
    read(&mut stream, 5);
    assert_eq!(stream.reset(0), Ok(()));
    stream.begin_checkpoint(1);
    assert_eq!(stream.reset(4), Ok(()));
    stream.begin_checkpoint(9);
    assert_eq!(stream.reset(0), Ok(()));
    assert_eq!(read(&mut stream, 2), b"ab");
    assert_eq!(stream.reset_checkpoint(), Ok(()));
    assert_eq!(stream.position(), 104);
    assert!(stream.reset_checkpoint().is_err());
}

#[test]
fn an_active_checkpoint_retains_exactly_what_was_pulled_since() {
    let mut stream = Stream::new(letters("abcdef"));
    read(&mut stream, 2);
    stream.begin_checkpoint(0);
    stream.commit_checkpoint();
    assert_eq!(stream.buffered_len(), 0);
    stream.begin_checkpoint(0);
    for n in 1..4 {
        read(&mut stream, 1);
        assert_eq!(stream.buffered_len(), n);
        stream.begin_checkpoint(0);
        assert_eq!(stream.reset(2), Ok(()));
        assert_eq!(stream.reset_checkpoint(), Ok(()));
        assert_eq!(stream.buffered_len(), n);
        assert_eq!(stream.position(), 102 + n);
    }
}

#[test]
fn commits_change_no_later_read() {
    let mut kept = Stream::new(letters("abcdef"));
    let mut committed = Stream::new(letters("abcdef"));
    for stream in [&mut kept, &mut committed] {
        read(stream, 1);
        stream.begin_checkpoint(9);
        read(stream, 3);
        assert_eq!(stream.reset(2), Ok(()));
    }
    committed.commit_checkpoint();
    for _ in 0..6 {
        assert_eq!(kept.position(), committed.position());
        assert_eq!(kept.uncons(), committed.uncons());
    }
}

#[test]
fn tokens_gone_back_over_count_against_the_budget() {
    let mut stream = Stream::new(letters("abcdef"));
    stream.begin_checkpoint(2);
    assert_eq!(read(&mut stream, 3), b"abc");
    assert_eq!(stream.reset(0), Ok(()));
    assert!(stream.reset_checkpoint().is_err());
    assert_eq!(stream.position(), 100);

    stream.begin_checkpoint(1);
    stream.begin_checkpoint(9);
    assert_eq!(read(&mut stream, 5), b"abcde");
    assert_eq!(stream.reset_checkpoint(), Ok(()));
    assert!(stream.reset_checkpoint().is_err());
}

#[test]
fn reset_replays_whatever_happened_in_between() {
    let mut stream = Stream::new(letters("abcd"));
    assert_eq!(read(&mut stream, 1), b"a");
    stream.begin_checkpoint(3);
    assert_eq!(read(&mut stream, 1), b"b");
    // Checkpoints within the checkpoint, of each kind
    stream.begin_checkpoint(1);
    assert_eq!(read(&mut stream, 1), b"c");
    stream.commit_checkpoint();
    stream.begin_checkpoint(0);
    assert_eq!(read(&mut stream, 1), b"d");
    assert!(stream.reset_checkpoint().is_err());
    // A read which fails, a change of the wrapped stream and going back and forth
    assert_eq!(stream.uncons(), Err(Reason::End));
    stream.get_mut().bytes.push(b'e');
    assert_eq!(stream.reset(2), Ok(()));
    assert_eq!(stream.position(), 102);
    assert!(stream.reset(0).is_err());
    assert_eq!(stream.reset(4), Ok(()));
    let mut guard = stream.checkpoint_guard(0);
    assert_eq!(guard.position(), 104);
    guard = {
        guard.drop();
        stream.checkpoint_guard(5)
    };
    guard.commit();
    assert_eq!(stream.reset_checkpoint(), Ok(()));
    for (token, position) in [(b'b', 101), (b'c', 102), (b'd', 103), (b'e', 104)] {
        assert_eq!(stream.position(), position);
        assert_eq!(stream.uncons(), Ok(token));
    }
    assert_eq!(stream.position(), 105);
}

#[test]
fn tokens_since_an_active_checkpoint_stay_available() {
    let mut stream = Stream::new(letters("abcdef"));
    read(&mut stream, 2);
    stream.begin_checkpoint(0);
    read(&mut stream, 3);
    stream.begin_checkpoint(0);
    read(&mut stream, 1);
    stream.commit_checkpoint();
    assert!(stream.uncons().is_err());
    // The budget is exceeded, and still all since the checkpoint can be read again
    for i in 2..6 {
        assert_eq!(stream.reset(i), Ok(()));
        assert_eq!(stream.position(), 100 + i);
        assert_eq!(stream.uncons(), Ok(b"abcdef"[i]));
    }
    assert_eq!(stream.reset(6), Ok(()));
    assert!(stream.reset(1).is_err());
}

#[test]
fn forward_reads_are_those_of_the_wrapped_stream() {
    let mut bare = letters("abcd");
    let mut stream = Stream::new(letters("abcd"));
    for i in 0..6 {
        assert_eq!(stream.position(), bare.position());
        stream.begin_checkpoint(i);
        assert_eq!(stream.uncons(), bare.uncons());
        if i % 2 == 0 {
            stream.commit_checkpoint();
        }
        assert_eq!(stream.get_ref().read, bare.read);
    }
    assert_eq!(stream.active_checkpoints(), 3);
}

#[test]
fn giving_tokens_up_changes_no_later_read() {
    let mut kept = Stream::new(letters("abcdef"));
    let mut evicted = Stream::new(letters("abcdef"));
    for stream in [&mut kept, &mut evicted] {
        read(stream, 4);
        assert_eq!(stream.reset(2), Ok(()));
    }
    evicted.begin_checkpoint(0);
    evicted.commit_checkpoint();
    assert_eq!(kept.buffered_len(), 4);
    assert_eq!(evicted.buffered_len(), 2);
    for _ in 0..6 {
        assert_eq!(kept.position(), evicted.position());
        assert_eq!(kept.uncons(), evicted.uncons());
    }
}

#[test]
fn positions_stay_where_they_were() {
    let mut stream = Stream::new(letters("abc"));
    read(&mut stream, 1);
    // Before the token is pulled, once it is, and after going back
    assert_eq!(stream.position(), 101);
    stream.begin_checkpoint(2);
    read(&mut stream, 2);
    assert!(stream.uncons().is_err());
    assert_eq!(stream.reset(1), Ok(()));
    assert_eq!(stream.position(), 101);
    assert_eq!(stream.reset_checkpoint(), Ok(()));
    assert_eq!(stream.position(), 101);
}

#[test]
fn guards_end_their_own_checkpoints() {
    let mut stream = Stream::new(letters("abcdef"));
    stream.begin_checkpoint(9);
    let mut first = stream.checkpoint_guard(9);
    read(&mut first, 1);
    let mut second = first.checkpoint_guard(9);
    read(&mut second, 1);
    let mut third = second.checkpoint_guard(9);
    read(&mut third, 1);
    assert_eq!(third.active_checkpoints(), 4);
    third.drop();
    assert_eq!(second.active_checkpoints(), 3);
    // Nothing was deferred: the next read goes on at the third checkpoint
    assert_eq!(second.uncons(), Ok(b'c'));
    second.commit();
    assert_eq!(first.active_checkpoints(), 2);
    assert_eq!(first.position(), 103);
    assert_eq!(first.reset(), Ok(()));
    assert_eq!(stream.active_checkpoints(), 1);
    assert_eq!(stream.position(), 100);
}

#[test]
fn active_checkpoints_are_those_begun_and_not_ended() {
    let mut stream = Stream::new(letters("ab"));
    let mut active = 0;
    for round in 0..4 {
        stream.begin_checkpoint(round);
        stream.begin_checkpoint(round);
        active += 2;
        let _ = stream.uncons();
        let _ = stream.position();
        let _ = stream.reset(9);
        assert_eq!(stream.active_checkpoints(), active);
        if round % 2 == 0 {
            stream.commit_checkpoint();
        } else {
            let _ = stream.reset_checkpoint();
        }
        active -= 1;
        assert_eq!(stream.active_checkpoints(), active);
    }
}

#[test]
fn exceeded_budget_stays_exceeded() {
    let mut stream = Stream::new(letters("ab"));
    stream.begin_checkpoint(1);
    read(&mut stream, 2);
    assert_eq!(stream.uncons(), Err(Reason::End));
    assert!(stream.reset_checkpoint().is_err());
}

#[test]
fn failed_reset_reports_the_furthest_position_and_stays() {
    let mut stream = Stream::new(letters("abcdef"));
    stream.begin_checkpoint(2);
    let mark = ResetStream::checkpoint(&stream);
    read(&mut stream, 4);
    assert_eq!(stream.reset(mark + 1), Ok(()));
    assert_eq!(
        stream.reset_checkpoint(),
        Err(Report {
            position: 104,
            reason: Reason::Message("checkpoint token budget exceeded"),
        })
    );
    assert_eq!(stream.active_checkpoints(), 0);
    // The read head stays, and only what lies past it is retained
    assert_eq!(stream.buffered_len(), 3);
    assert_eq!(stream.position(), 101);
    assert_eq!(stream.uncons(), Ok(b'b'));
}

#[test]
fn reset_without_a_checkpoint_is_an_error_at_the_read_head() {
    let mut stream = Stream::new(letters("abc"));
    let start = ResetStream::checkpoint(&stream);
    read(&mut stream, 2);
    assert_eq!(stream.reset(start + 1), Ok(()));
    assert_eq!(
        stream.reset_checkpoint(),
        Err(Report {
            position: 101,
            reason: Reason::Message("reset_checkpoint called without an active checkpoint"),
        })
    );
    assert_eq!(stream.uncons(), Ok(b'b'));
    assert_eq!(stream.buffered_len(), 2);
}

#[test]
fn commit_without_a_checkpoint_changes_nothing() {
    let mut stream = Stream::new(letters("abc"));
    read(&mut stream, 2);
    stream.commit_checkpoint();
    assert_eq!(stream.buffered_len(), 2);
    assert_eq!(stream.uncons(), Ok(b'c'));
}

#[test]
fn commit_succeeds_beyond_the_budget() {
    let mut stream = Stream::new(letters("abcdef"));
    stream.begin_checkpoint(1);
    read(&mut stream, 4);
    stream.commit_checkpoint();
    assert_eq!(stream.active_checkpoints(), 0);
    assert_eq!(stream.buffered_len(), 0);
    assert_eq!(stream.uncons(), Ok(b'e'));
}

#[test]
fn inner_checkpoints_leave_outer_ones_alone() {
    let mut stream = Stream::new(letters("abcdef"));
    stream.begin_checkpoint(6);
    read(&mut stream, 2);
    stream.begin_checkpoint(1);
    read(&mut stream, 1);
    stream.commit_checkpoint();
    assert_eq!(stream.active_checkpoints(), 1);
    stream.begin_checkpoint(1);
    read(&mut stream, 1);
    assert_eq!(stream.reset_checkpoint(), Ok(()));
    assert_eq!(stream.active_checkpoints(), 1);
    assert_eq!(stream.uncons(), Ok(b'd'));
    stream.begin_checkpoint(0);
    read(&mut stream, 1);
    assert!(stream.reset_checkpoint().is_err());
    assert_eq!(stream.active_checkpoints(), 1);
    // All since the outer checkpoint is retained, and it can be reset to
    assert_eq!(stream.buffered_len(), 5);
    assert_eq!(stream.reset_checkpoint(), Ok(()));
    assert_eq!(read(&mut stream, 6), b"abcdef");
}

#[test]
fn history_is_retained_until_a_checkpoint_ends() {
    let mut stream = Stream::new(letters("abcdef"));
    let start = ResetStream::checkpoint(&stream);
    read(&mut stream, 3);
    assert_eq!(stream.buffered_len(), 3);
    stream.begin_checkpoint(4);
    read(&mut stream, 2);
    assert_eq!(stream.buffered_len(), 5);
    stream.begin_checkpoint(4);
    stream.commit_checkpoint();
    // The history before the oldest checkpoint is gone
    assert_eq!(stream.buffered_len(), 2);
    assert_eq!(stream.reset_checkpoint(), Ok(()));
    assert_eq!(stream.buffered_len(), 2);
    assert_eq!(
        stream.reset(start),
        Err(Report {
            position: 103,
            reason: Reason::Message("Backtracked to far"),
        })
    );
    assert_eq!(read(&mut stream, 3), b"def");
}

#[test]
fn backtracking_stays_within_what_is_retained() {
    let mut stream = Stream::new(letters("abc"));
    let start = ResetStream::checkpoint(&stream);
    assert_eq!(read(&mut stream, 2), b"ab");
    let later = ResetStream::checkpoint(&stream);
    assert_eq!(later, 2);
    assert_eq!(stream.reset(start), Ok(()));
    assert_eq!(read(&mut stream, 1), b"a");
    assert_eq!(stream.reset(later), Ok(()));
    assert_eq!(stream.uncons(), Ok(b'c'));
    assert_eq!(
        stream.reset(4),
        Err(Report {
            position: 103,
            reason: Reason::Message("Backtracked to far"),
        })
    );
    assert_eq!(stream.reset(3), Ok(()));
    assert_eq!(stream.uncons(), Err(Reason::End));
}

#[test]
fn checkpoints_begun_before_older_ones_can_be_reset_to() {
    let mut stream = Stream::new(letters("abcdef"));
    read(&mut stream, 5);
    stream.begin_checkpoint(10);
    assert_eq!(stream.reset(1), Ok(()));
    stream.begin_checkpoint(10);
    assert_eq!(read(&mut stream, 4), b"bcde");
    stream.begin_checkpoint(10);
    stream.commit_checkpoint();
    // What lies before the oldest checkpoint is needed by the one which was begun there
    assert_eq!(stream.buffered_len(), 4);
    assert_eq!(stream.reset_checkpoint(), Ok(()));
    assert_eq!(stream.position(), 101);
    assert_eq!(read(&mut stream, 5), b"bcdef");
}

#[test]
fn a_successful_reset_retains_at_most_the_budget() {
    let mut stream = Stream::new(letters("abcdef"));
    read(&mut stream, 2);
    stream.begin_checkpoint(3);
    read(&mut stream, 3);
    assert_eq!(stream.buffered_len(), 5);
    assert_eq!(stream.reset_checkpoint(), Ok(()));
    assert_eq!(stream.buffered_len(), 3);
}

#[test]
fn dropped_guards_reset_or_defer_an_error_once() {
    let mut stream = Stream::new(letters("abcd"));
    let mut guard = stream.checkpoint_guard(1);
    assert_eq!(guard.uncons(), Ok(b'a'));
    guard.drop();
    assert_eq!(stream.position(), 100);

    let mut guard = stream.checkpoint_guard(1);
    assert_eq!(guard.uncons(), Ok(b'a'));
    assert_eq!(guard.uncons(), Ok(b'b'));
    guard.drop();
    assert_eq!(stream.active_checkpoints(), 0);
    assert_eq!(
        stream.uncons(),
        Err(Reason::Message(
            "checkpoint dropped after its token budget was exceeded"
        ))
    );
    assert_eq!(stream.uncons(), Ok(b'c'));
}

#[test]
fn guards_report_failed_resets() {
    let mut stream = Stream::new(letters("abcd"));
    let mut guard = stream.checkpoint_guard(1);
    assert_eq!(guard.uncons(), Ok(b'a'));
    assert_eq!(guard.uncons(), Ok(b'b'));
    assert_eq!(
        guard.reset(),
        Err(Report {
            position: 102,
            reason: Reason::Message("checkpoint token budget exceeded"),
        })
    );
    assert_eq!(stream.uncons(), Ok(b'c'));
}

#[test]
fn the_wrapped_stream_is_reachable() {
    let mut stream = Stream::new(letters("ab"));
    assert!(!stream.is_partial());
    stream.get_mut().more = true;
    assert!(stream.is_partial());
    assert_eq!(stream.uncons(), Ok(b'a'));
    assert_eq!(stream.get_ref().read, 1);
    assert_eq!(stream.into_inner().bytes, b"ab");
}

#[test]
fn debug_shows_all_but_the_deferred_error() {
    let mut stream = Stream::new(letters("ab"));
    stream.begin_checkpoint(7);
    assert_eq!(stream.uncons(), Ok(b'a'));
    assert_eq!(
        format!("{:?}", stream.debug()),
        "Stream { iter: Letters { bytes: [97, 98], read: 1, more: false }, offset: 1, \
         buffer_offset: 1, buffer: [(97, 100)], \
         checkpoints: [ActiveCheckpoint { offset: 0, budget: 7 }] }"
    );
}

#[test]
fn slices_are_streams() {
    let tokens = [10u32, 20];
    let mut stream = SliceStream::new(&tokens[..]);
    assert!(!stream.is_partial());
    assert_eq!(stream.position(), 0);
    assert_eq!(stream.uncons(), Ok(10));
    assert_eq!(stream.uncons(), Ok(20));
    assert_eq!(stream.position(), 2);
    assert_eq!(stream.uncons(), Err(UnexpectedParse::Eoi));
    assert_eq!(stream.position(), 2);
}

#[test]
fn unexpected_parse_knows_the_end_of_input() {
    type Error = UnexpectedParse;
    fn empty() -> Error {
        ParseError::<u8, Vec<u8>, usize>::empty(3)
    }
    fn add(error: Error, err: Error) -> Error {
        let mut error = error;
        ParseError::<u8, Vec<u8>, usize>::add(&mut error, err);
        error
    }
    assert_eq!(empty(), Error::Unexpected);
    assert_eq!(add(Error::Unexpected, Error::Eoi), Error::Eoi);
    assert_eq!(add(Error::Eoi, Error::Unexpected), Error::Eoi);
    let merged = ParseError::<u8, Vec<u8>, usize>::merge(Error::Eoi, Error::Unexpected);
    assert_eq!(merged, Error::Unexpected);
    let error: Error = ParseError::<u8, Vec<u8>, usize>::from_error(1, Error::Eoi);
    assert!(ParseError::<u8, Vec<u8>, usize>::is_unexpected_end_of_input(&error));
    assert!(!ParseError::<u8, Vec<u8>, usize>::is_unexpected_end_of_input(&empty()));
    let message: Error = StreamError::<u8, Vec<u8>>::message_static_message("no");
    assert_eq!(message, Error::Unexpected);
}

#[test]
fn parse_results_forget_commitment() {
    type Parsed = ParseResult<u8, u8>;
    assert_eq!(Parsed::CommitOk(1).into_result(), Ok(1));
    assert_eq!(Parsed::PeekOk(1).into_result(), Ok(1));
    assert_eq!(Parsed::CommitErr(2).into_result(), Err(2));
    assert_eq!(Parsed::PeekErr(2).into_result(), Err(2));
    assert!(Parsed::PeekOk(1).is_ok() && Parsed::CommitOk(1).is_ok());
    assert!(!Parsed::PeekErr(1).is_ok() && !Parsed::CommitErr(1).is_ok());
}
