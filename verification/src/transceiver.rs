//! The serial exchange: one request line out, one response line back.
//!
//! A request is the command's text followed by a carriage return. A response
//! is a line that ends in a line feed. Writing and reading are the caller's;
//! what is written, and what the bytes that were read amount to, is decided
//! here.

use crate::command::{
    is_well_formed, lemma_terminator_free_encoding, terminator_free_bytes, Command, CR, LF,
};
use crate::fault::DeviceError;
use vstd::prelude::*;
use vstd::string::StrSliceExecFns;
use vstd::utf8::*;

verus! {

/// The error type of `String::from_utf8`; nothing is read from it.
#[verifier::external_type_specification]
#[verifier::external_body]
pub struct ExFromUtf8Error(std::string::FromUtf8Error);

/// `String::from_utf8` takes a byte vector and gives the string that the
/// bytes encode. It succeeds exactly on valid UTF-8, and the string then
/// holds the characters that the bytes decode to.
pub assume_specification[ String::from_utf8 ](vec: Vec<u8>) -> (r: Result<
    String,
    std::string::FromUtf8Error,
>)
    ensures
        r is Ok <==> valid_utf8(vec@),
        r is Ok ==> r->Ok_0@ == decode_utf8(vec@),
;

/// The bytes that carry the command `text` to the device.
pub open spec fn request_frame(text: Seq<char>) -> Seq<u8> {
    encode_utf8(text).push(CR)
}

/// Frames a command for the wire. The frame ends in a carriage return and
/// holds no other line terminator, so the device sees exactly one line.
pub fn encode_request(command: &Command) -> (bytes: Vec<u8>)
    ensures
        bytes@ == request_frame(command@),
        bytes@.len() >= 2,
        bytes@.last() == CR,
        terminator_free_bytes(bytes@.drop_last()),
{
    let text = command.as_str();
    let mut bytes = text.as_bytes_vec();
    proof {
        lemma_terminator_free_encoding(text@);
    }
    bytes.push(CR);
    assert(bytes@.drop_last() =~= encode_utf8(text@));
    bytes
}

/// How the write and flush of a request ended.
#[derive(Clone, Copy, Debug, PartialEq, Eq, Structural)]
pub enum WriteOutcome {
    /// All bytes were written and flushed.
    Flushed,
    /// The write or the flush failed.
    Failed,
}

/// How one read on the device ended.
#[derive(Debug, PartialEq, Eq)]
pub enum ReadOutcome {
    /// The bytes that the read returned; none at all when the device has
    /// reached its end.
    Data(Vec<u8>),
    /// Nothing came within the read timeout.
    TimedOut,
    /// The read failed.
    Failed,
}

/// What the caller does after a read.
#[derive(Debug, PartialEq, Eq)]
pub enum ReadStep {
    /// No response yet: read again.
    Again,
    /// The response line, without its terminator.
    Line(String),
    /// The exchange cannot go on.
    Fail(DeviceError),
}

/// What a read amounts to: the step to take, and for `Again` the bytes of the
/// unfinished line that are kept.
pub enum Reading {
    Line(Seq<char>),
    Again(Seq<u8>),
    Fail(DeviceError),
}

/// `i` is the place of the first line feed in `bytes`.
pub open spec fn is_first_line_feed(bytes: Seq<u8>, i: int) -> bool {
    &&& 0 <= i < bytes.len()
    &&& bytes[i] == LF
    &&& forall|j: int| 0 <= j < i ==> bytes[j] != LF
}

/// `bytes` holds a line feed.
pub open spec fn has_line_feed(bytes: Seq<u8>) -> bool {
    exists|i: int| is_first_line_feed(bytes, i)
}

/// The place of the first line feed in `bytes`, where there is one.
pub open spec fn first_line_feed(bytes: Seq<u8>) -> int {
    choose|i: int| is_first_line_feed(bytes, i)
}

/// A line without the carriage return that may stand before its line feed.
pub open spec fn strip_carriage_return(line: Seq<u8>) -> Seq<u8> {
    if line.len() > 0 && line.last() == CR {
        line.drop_last()
    } else {
        line
    }
}

/// What the bytes `chunk` amount to when `partial` was read before them.
/// The bytes up to the first line feed end the line that `partial` began. A
/// line that is valid UTF-8 is the response, and what follows it is dropped.
/// A line that is not is skipped, and the rest of the chunk is looked at
/// afresh. Bytes after the last line feed begin the next line.
pub open spec fn scan(partial: Seq<u8>, chunk: Seq<u8>) -> Reading
    decreases chunk.len(),
{
    if has_line_feed(chunk) {
        let end = first_line_feed(chunk);
        let line = strip_carriage_return(partial + chunk.take(end));
        if valid_utf8(line) {
            Reading::Line(decode_utf8(line))
        } else {
            scan(Seq::empty(), chunk.skip(end + 1))
        }
    } else {
        Reading::Again(partial + chunk)
    }
}

/// What is left to do when the device has reached its end: the unfinished
/// line, if there is one, is the last line, taken as it stands.
pub open spec fn at_end_of_stream(partial: Seq<u8>) -> Reading {
    if partial.len() == 0 {
        Reading::Fail(DeviceError::IoFailure)
    } else if valid_utf8(partial) {
        Reading::Line(decode_utf8(partial))
    } else {
        Reading::Again(Seq::empty())
    }
}

/// What a read amounts to when `partial` was read before it. A timeout gives
/// up the unfinished line and asks for another read; a failed read ends the
/// exchange.
pub open spec fn reading(partial: Seq<u8>, outcome: ReadOutcome) -> Reading {
    match outcome {
        ReadOutcome::Data(chunk) => if chunk@.len() == 0 {
            at_end_of_stream(partial)
        } else {
            scan(partial, chunk@)
        },
        ReadOutcome::TimedOut => Reading::Again(Seq::empty()),
        ReadOutcome::Failed => Reading::Fail(DeviceError::IoFailure),
    }
}

/// The place of the first line feed is unique.
pub proof fn lemma_first_line_feed(bytes: Seq<u8>, i: int)
    requires
        is_first_line_feed(bytes, i),
    ensures
        has_line_feed(bytes),
        first_line_feed(bytes) == i,
{
    let k = first_line_feed(bytes);
    assert(is_first_line_feed(bytes, k));
    if k < i {
        assert(bytes[k] != LF);
    }
    if i < k {
        assert(bytes[i] != LF);
    }
}

/// Scanning a chunk is scanning it byte by byte: a line feed ends the line,
/// any other byte is added to it.
pub proof fn lemma_scan_first_byte(partial: Seq<u8>, chunk: Seq<u8>)
    requires
        chunk.len() > 0,
    ensures
        chunk[0] != LF ==> scan(partial, chunk) == scan(partial.push(chunk[0]), chunk.drop_first()),
        chunk[0] == LF ==> scan(partial, chunk) == if valid_utf8(strip_carriage_return(partial)) {
            Reading::Line(decode_utf8(strip_carriage_return(partial)))
        } else {
            scan(Seq::empty(), chunk.drop_first())
        },
{
    let rest = chunk.drop_first();
    if chunk[0] == LF {
        lemma_first_line_feed(chunk, 0);
        assert(partial + chunk.take(0) =~= partial);
        assert(chunk.skip(1) =~= rest);
    } else {
        let grown = partial.push(chunk[0]);
        if has_line_feed(chunk) {
            let end = first_line_feed(chunk);
            assert(is_first_line_feed(chunk, end));
            assert(is_first_line_feed(rest, end - 1)) by {
                assert(rest[end - 1] == chunk[end]);
                assert forall|j: int| 0 <= j < end - 1 implies rest[j] != LF by {
                    assert(rest[j] == chunk[j + 1]);
                }
            }
            lemma_first_line_feed(rest, end - 1);
            assert(partial + chunk.take(end) =~= grown + rest.take(end - 1));
            assert(chunk.skip(end + 1) =~= rest.skip(end));
        } else {
            if has_line_feed(rest) {
                let end = first_line_feed(rest);
                assert(is_first_line_feed(rest, end));
                assert(is_first_line_feed(chunk, end + 1)) by {
                    assert(chunk[end + 1] == rest[end]);
                    assert forall|j: int| 0 <= j < end + 1 implies chunk[j] != LF by {
                        if j > 0 {
                            assert(chunk[j] == rest[j - 1]);
                        }
                    }
                }
                assert(false);
            }
            assert(partial + chunk =~= grown + rest);
        }
    }
}

/// The reading side of one exchange: the bytes of the line that is not
/// complete yet.
#[derive(Debug)]
pub struct LineReader {
    partial: Vec<u8>,
}

impl View for LineReader {
    type V = Seq<u8>;

    closed spec fn view(&self) -> Seq<u8> {
        self.partial@
    }
}

/// What follows the write of a request. A request that was written and
/// flushed is followed by reads, which start with no line begun; a failed
/// write ends the exchange.
pub fn after_write(outcome: WriteOutcome) -> (r: Result<LineReader, DeviceError>)
    ensures
        outcome == WriteOutcome::Flushed ==> r is Ok && r->Ok_0@ == Seq::<u8>::empty(),
        outcome == WriteOutcome::Failed ==> r == Err::<LineReader, DeviceError>(
            DeviceError::IoFailure,
        ),
{
    match outcome {
        WriteOutcome::Flushed => Ok(LineReader { partial: Vec::new() }),
        WriteOutcome::Failed => Err(DeviceError::IoFailure),
    }
}

impl LineReader {
    /// Takes in the outcome of one read and says what comes next.
    pub fn on_read(&mut self, outcome: ReadOutcome) -> (step: ReadStep)
        ensures
            match reading(old(self)@, outcome) {
                Reading::Line(text) => {
                    &&& step matches ReadStep::Line(line)
                    &&& line@ == text
                    &&& final(self)@ == Seq::<u8>::empty()
                },
                Reading::Again(partial) => step == ReadStep::Again && final(self)@ == partial,
                Reading::Fail(e) => step == ReadStep::Fail(e) && final(self)@ == old(self)@,
            },
    {
        match outcome {
            ReadOutcome::Data(chunk) => {
                if chunk.len() == 0 {
                    self.finish()
                } else {
                    self.take_in(&chunk)
                }
            },
            ReadOutcome::TimedOut => {
                self.partial.clear();
                ReadStep::Again
            },
            ReadOutcome::Failed => ReadStep::Fail(DeviceError::IoFailure),
        }
    }

    /// Ends the unfinished line at the end of the stream.
    fn finish(&mut self) -> (step: ReadStep)
        ensures
            match at_end_of_stream(old(self)@) {
                Reading::Line(text) => {
                    &&& step matches ReadStep::Line(line)
                    &&& line@ == text
                    &&& final(self)@ == Seq::<u8>::empty()
                },
                Reading::Again(partial) => step == ReadStep::Again && final(self)@ == partial,
                Reading::Fail(e) => step == ReadStep::Fail(e) && final(self)@ == old(self)@,
            },
    {
        if self.partial.len() == 0 {
            return ReadStep::Fail(DeviceError::IoFailure);
        }
        let mut line: Vec<u8> = Vec::new();
        std::mem::swap(&mut self.partial, &mut line);
        match String::from_utf8(line) {
            Ok(text) => ReadStep::Line(text),
            Err(_) => ReadStep::Again,
        }
    }

    /// Goes through the bytes of one read.
    fn take_in(&mut self, chunk: &Vec<u8>) -> (step: ReadStep)
        ensures
            match scan(old(self)@, chunk@) {
                Reading::Line(text) => {
                    &&& step matches ReadStep::Line(line)
                    &&& line@ == text
                    &&& final(self)@ == Seq::<u8>::empty()
                },
                Reading::Again(partial) => step == ReadStep::Again && final(self)@ == partial,
                Reading::Fail(e) => false,
            },
    {
        let mut i: usize = 0;
        assert(chunk@.skip(0) =~= chunk@);
        while i < chunk.len()
            invariant
                i <= chunk.len(),
                scan(self@, chunk@.skip(i as int)) == scan(old(self)@, chunk@),
            decreases chunk.len() - i,
        {
            let byte = chunk[i];
            proof {
                let ahead = chunk@.skip(i as int);
                assert(ahead[0] == chunk@[i as int]);
                assert(ahead.drop_first() =~= chunk@.skip(i + 1));
                lemma_scan_first_byte(self@, ahead);
            }
            if byte == LF {
                let ghost whole = self@;
                let mut line: Vec<u8> = Vec::new();
                std::mem::swap(&mut self.partial, &mut line);
                let n = line.len();
                if n > 0 && line[n - 1] == CR {
                    line.pop();
                }
                assert(line@ =~= strip_carriage_return(whole));
                match String::from_utf8(line) {
                    Ok(text) => {
                        return ReadStep::Line(text);
                    },
                    Err(_) => {},
                }
            } else {
                self.partial.push(byte);
            }
            i += 1;
        }
        assert(chunk@.skip(i as int) =~= Seq::<u8>::empty());
        assert(!has_line_feed(Seq::<u8>::empty()));
        assert(self@ + Seq::<u8>::empty() =~= self@);
        ReadStep::Again
    }
}

} // verus!
