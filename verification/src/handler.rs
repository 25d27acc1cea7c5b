//! What is done with one connection: the head of the request is read line
//! by line up to the first empty line, the request is logged, and a fixed
//! response goes back.

use crate::log::{Level, Logger, LoggerView, Record};
use crate::text::{decimal, push_decimal};
use vstd::prelude::*;
use vstd::string::{is_ascii, is_ascii_spec_bytes};

verus! {

/// The byte that ends a line.
pub const LF: u8 = 10;

/// The byte that may stand in front of the one that ends a line.
pub const CR: u8 = 13;

/// The place of the first line end in `input`, or the length of `input`
/// where it holds none.
pub open spec fn first_newline(input: Seq<u8>) -> nat
    decreases input.len(),
{
    if input.len() == 0 || input[0] == LF {
        0
    } else {
        1 + first_newline(input.drop_first())
    }
}

/// `line` without a carriage return at its end.
pub open spec fn strip_cr(line: Seq<u8>) -> Seq<u8> {
    if line.len() > 0 && line.last() == CR {
        line.drop_last()
    } else {
        line
    }
}

/// What has been read of the head of a request.
#[verifier::ext_equal]
pub struct Head {
    /// The lines in front of the first empty line, without their line ends.
    pub lines: Seq<Seq<u8>>,
    /// Whether the empty line was reached.
    pub complete: bool,
    /// The bytes of the line that has not ended yet; nothing once the head
    /// is complete.
    pub partial: Seq<u8>,
}

/// The head of a request of which `input` has arrived so far: `input` is
/// cut at each line end, a carriage return in front of a line end goes with
/// it, and the first line that is empty ends the head.
pub open spec fn head(input: Seq<u8>) -> Head
    decreases input.len(),
{
    let end = first_newline(input) as int;
    if end >= input.len() {
        Head { lines: Seq::empty(), complete: false, partial: input }
    } else {
        let line = strip_cr(input.take(end));
        if line.len() == 0 {
            Head { lines: Seq::empty(), complete: true, partial: Seq::empty() }
        } else {
            let tail = head(input.skip(end + 1));
            Head { lines: seq![line] + tail.lines, ..tail }
        }
    }
}

/// The head after one more byte has arrived.
pub open spec fn head_after(before: Head, byte: u8) -> Head {
    if before.complete {
        before
    } else if byte != LF {
        Head { partial: before.partial.push(byte), ..before }
    } else if strip_cr(before.partial).len() == 0 {
        Head { lines: before.lines, complete: true, partial: Seq::empty() }
    } else {
        Head {
            lines: before.lines.push(strip_cr(before.partial)),
            complete: false,
            partial: Seq::empty(),
        }
    }
}

/// The lines of a request whose stream ended after `input`: those of its
/// head and, where the stream ended in the middle of a line, that line as
/// it stands.
pub open spec fn request_lines(input: Seq<u8>) -> Seq<Seq<u8>> {
    let read = head(input);
    if !read.complete && read.partial.len() > 0 {
        read.lines.push(read.partial)
    } else {
        read.lines
    }
}

/// The first line end lies inside the input or at its end, no line end
/// stands in front of it, and one stands at it where it lies inside.
pub proof fn lemma_first_newline(input: Seq<u8>)
    ensures
        first_newline(input) <= input.len(),
        forall|i: int| 0 <= i < first_newline(input) ==> input[i] != LF,
        first_newline(input) < input.len() ==> input[first_newline(input) as int] == LF,
    decreases input.len(),
{
    if !(input.len() == 0 || input[0] == LF) {
        let rest = input.drop_first();
        lemma_first_newline(rest);
        assert forall|i: int| 0 <= i < first_newline(input) implies input[i] != LF by {
            if i > 0 {
                assert(rest[i - 1] == input[i]);
            }
        }
    }
}

proof fn lemma_first_newline_is(input: Seq<u8>, end: int)
    requires
        0 <= end <= input.len(),
        forall|i: int| 0 <= i < end ==> input[i] != LF,
        end < input.len() ==> input[end] == LF,
    ensures
        first_newline(input) == end,
{
    lemma_first_newline(input);
}

/// A head that is not complete grows byte by byte: reading the input with
/// one more byte gives what [`head_after`] makes of the head so far.
pub proof fn lemma_head_push(input: Seq<u8>, byte: u8)
    requires
        !head(input).complete,
    ensures
        head(input.push(byte)) == head_after(head(input), byte),
    decreases input.len(),
{
    let longer = input.push(byte);
    let end = first_newline(input) as int;
    lemma_first_newline(input);
    if end >= input.len() {
        if byte == LF {
            lemma_first_newline_is(longer, input.len() as int);
            assert(longer.take(input.len() as int) =~= input);
            assert(longer.skip(input.len() as int + 1) =~= Seq::<u8>::empty());
            let line = strip_cr(input);
            if line.len() > 0 {
                assert(seq![line] + head(Seq::<u8>::empty()).lines =~= Seq::<Seq<u8>>::empty().push(
                    line,
                ));
                assert(head(longer) =~= head_after(head(input), byte));
            }
        } else {
            lemma_first_newline_is(longer, longer.len() as int);
        }
    } else {
        lemma_first_newline_is(longer, end);
        assert(longer.take(end) =~= input.take(end));
        assert(longer.skip(end + 1) =~= input.skip(end + 1).push(byte));
        let line = strip_cr(input.take(end));
        let tail = head(input.skip(end + 1));
        lemma_head_push(input.skip(end + 1), byte);
        assert(seq![line] + tail.lines.push(strip_cr(tail.partial)) =~= (seq![line]
            + tail.lines).push(strip_cr(tail.partial)));
        assert(head(longer) =~= head_after(head(input), byte));
    }
}

/// Reads the head of a request from the bytes of a connection as they
/// arrive.
pub struct RequestReader {
    lines: Vec<Vec<u8>>,
    partial: Vec<u8>,
    complete: bool,
    input: Ghost<Seq<u8>>,
}

impl View for RequestReader {
    type V = Seq<u8>;

    /// The bytes that the reader has taken so far.
    closed spec fn view(&self) -> Seq<u8> {
        self.input@
    }
}

impl RequestReader {
    /// Whether what the reader holds is the head of what it has taken. A
    /// reader that is in order has taken nothing behind the empty line.
    pub closed spec fn wf(&self) -> bool {
        &&& self.lines.deep_view() == head(self.input@).lines
        &&& self.partial@ == head(self.input@).partial
        &&& self.complete == head(self.input@).complete
    }

    /// A reader that has taken nothing.
    pub fn new() -> (reader: RequestReader)
        ensures
            reader.wf(),
            reader@ == Seq::<u8>::empty(),
    {
        let reader = RequestReader {
            lines: Vec::new(),
            partial: Vec::new(),
            complete: false,
            input: Ghost(Seq::empty()),
        };
        assert(reader.lines.deep_view() =~= head(Seq::<u8>::empty()).lines);
        reader
    }

    /// Whether the empty line that ends the head was reached.
    pub fn is_complete(&self) -> (complete: bool)
        requires
            self.wf(),
        ensures
            complete == head(self@).complete,
    {
        self.complete
    }

    /// The number of lines that have ended so far, the empty line not
    /// counted.
    pub fn line_count(&self) -> (count: usize)
        requires
            self.wf(),
        ensures
            count == head(self@).lines.len(),
    {
        self.lines.len()
    }

    /// Takes one byte, unless the head is complete already.
    pub fn push(&mut self, byte: u8)
        requires
            old(self).wf(),
        ensures
            final(self).wf(),
            final(self)@ == if head(old(self)@).complete {
                old(self)@
            } else {
                old(self)@.push(byte)
            },
    {
        if self.complete {
            return ;
        }
        proof {
            lemma_head_push(self.input@, byte);
        }
        let ghost before = self.lines.deep_view();
        if byte != LF {
            self.partial.push(byte);
        } else {
            let mut line = Vec::new();
            std::mem::swap(&mut line, &mut self.partial);
            let len = line.len();
            if len > 0 && line[len - 1] == CR {
                line.pop();
            }
            if line.len() == 0 {
                self.complete = true;
            } else {
                assert(line.deep_view() =~= line@);
                self.lines.push(line);
                assert(self.lines.deep_view() =~= before.push(line@));
            }
        }
        proof {
            self.input@ = self.input@.push(byte);
        }
    }

    /// Takes the bytes of `chunk` up to the end of the head, and returns
    /// how many it took.
    pub fn feed(&mut self, chunk: &[u8]) -> (taken: usize)
        requires
            old(self).wf(),
        ensures
            final(self).wf(),
            taken <= chunk@.len(),
            final(self)@ == old(self)@ + chunk@.take(taken as int),
            taken < chunk@.len() ==> head(final(self)@).complete,
            forall|k: int| 0 <= k < taken ==> !head(old(self)@ + chunk@.take(k)).complete,
    {
        let mut taken: usize = 0;
        while taken < chunk.len() && !self.complete
            invariant
                self.wf(),
                taken <= chunk@.len(),
                self@ == old(self)@ + chunk@.take(taken as int),
                forall|k: int| 0 <= k < taken ==> !head(old(self)@ + chunk@.take(k)).complete,
            decreases chunk@.len() - taken,
        {
            self.push(chunk[taken]);
            taken = taken + 1;
        }
        taken
    }

    /// Ends the reading, because the head is complete or the stream has
    /// ended, and returns the lines of the request.
    pub fn finish(self) -> (lines: Vec<Vec<u8>>)
        requires
            self.wf(),
        ensures
            lines.deep_view() == request_lines(self@),
    {
        let mut lines = self.lines;
        if !self.complete && self.partial.len() > 0 {
            let last = self.partial;
            assert(last.deep_view() =~= last@);
            lines.push(last);
        }
        lines
    }
}

/// The bytes of a text that holds ASCII characters only.
pub open spec fn ascii_bytes(text: Seq<char>) -> Seq<u8> {
    Seq::new(text.len(), |i: int| text[i] as u8)
}

/// The response that every request gets.
pub open spec fn response_bytes() -> Seq<u8> {
    ascii_bytes("HTTP/1.1 200 OK\r\n\r\nHello, World!"@)
}

/// The message that is logged for a request of `lines` lines from `peer`.
pub open spec fn request_message(peer: Seq<char>, lines: nat) -> Seq<char> {
    "Incoming request from "@ + peer + " {bytes="@ + decimal(lines) + "}"@
}

/// The message that is logged when a connection fails for `reason`.
pub open spec fn failure_message(reason: Seq<char>) -> Seq<char> {
    "Connection failed: "@ + reason
}

/// What a handler does with a request: the record for the log and the
/// bytes to write back.
#[derive(Debug, PartialEq, Eq)]
pub struct Reply {
    pub record: Option<Record>,
    pub response: Vec<u8>,
}

/// The body of the job that serves one connection.
#[derive(Debug)]
pub struct Handler {
    logger: Logger,
}

impl View for Handler {
    type V = LoggerView;

    /// The logger of the handler.
    closed spec fn view(&self) -> LoggerView {
        self.logger@
    }
}

impl Clone for Handler {
    fn clone(&self) -> (copy: Handler)
        ensures
            copy@ == self@,
    {
        Handler { logger: self.logger.clone() }
    }
}

impl Handler {
    /// A handler that logs through `logger`.
    pub fn new(logger: Logger) -> (handler: Handler)
        ensures
            handler@ == logger@,
    {
        Handler { logger }
    }

    /// The fixed response.
    pub fn response() -> (bytes: Vec<u8>)
        ensures
            bytes@ == response_bytes(),
    {
        let text = "HTTP/1.1 200 OK\r\n\r\nHello, World!";
        proof {
            reveal_strlit("HTTP/1.1 200 OK\r\n\r\nHello, World!");
            is_ascii_spec_bytes(text);
        }
        let bytes = text.as_bytes_vec();
        bytes
    }

    /// Serves a request that came from `peer` and was read by `request`:
    /// logs the peer and the number of lines, and answers with the fixed
    /// response, whatever the lines hold.
    pub fn execute(&self, peer: &str, request: RequestReader) -> (reply: Reply)
        requires
            request.wf(),
        ensures
            reply.record.deep_view() == self@.record(
                request_message(peer@, request_lines(request@).len()),
            ),
            reply.response@ == response_bytes(),
    {
        let lines = request.finish();
        let mut message = String::from_str("Incoming request from ");
        message.append(peer);
        message.append(" {bytes=");
        push_decimal(&mut message, lines.len() as u64);
        message.append("}");
        Reply { record: self.logger.log(message.as_str()), response: Self::response() }
    }

    /// What is logged when the connection fails for `reason`: its peer
    /// cannot be told, or reading from it or writing to it goes wrong. The
    /// failure is that of this one connection.
    pub fn failed(&self, reason: &str) -> (record: Option<Record>)
        ensures
            record.deep_view() == (LoggerView { level: Level::SystemError, ..self@ }).record(
                failure_message(reason@),
            ),
    {
        let mut message = String::from_str("Connection failed: ");
        message.append(reason);
        self.logger.with_level(Level::SystemError).log(message.as_str())
    }
}

} // verus!
