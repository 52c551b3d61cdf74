//! The control channel: lines come in, requests come out.
//!
//! Reading is bounded, so an outside process that never ends a line costs nothing but that
//! line, and so is taking requests, so one that floods the channel cannot stall a frame.

use std::sync::mpsc::Receiver;

use vstd::prelude::*;
use vstd::string::*;

use crate::mail;
use crate::mail::Arrival;
use crate::protocol;
use crate::protocol::{
    DecodeError, DecodeErrorView, MAX_LINE_BYTES, Refusal, RefusalView, Request, RequestView,
};

verus! {

/// Requests handled per frame.
pub const MAX_REQUESTS_PER_FRAME: usize = 64;

/// What ends a line.
pub const NEWLINE: u8 = 10;

/// A line that has been read.
#[derive(Debug, PartialEq, Eq)]
pub enum Line {
    /// A whole line, without its end.
    Read(Vec<u8>),
    /// A line that was too long, and has been skipped.
    TooLong,
    /// The end of the stream.
    Eof,
}

/// A line that has been read, by its bytes.
#[verifier::ext_equal]
pub enum LineView {
    Read(Seq<u8>),
    TooLong,
    Eof,
}

impl View for Line {
    type V = LineView;

    open spec fn view(&self) -> LineView {
        match self {
            Line::Read(bytes) => LineView::Read(bytes@),
            Line::TooLong => LineView::TooLong,
            Line::Eof => LineView::Eof,
        }
    }
}

/// Puts lines together out of the pieces that a stream comes in.
#[derive(Debug)]
pub struct LineReader {
    buffer: Vec<u8>,
    overflowed: bool,
}

/// What has been read of a line so far. Nothing is kept of one that is too long.
#[verifier::ext_equal]
pub struct LineReaderView {
    pub buffer: Seq<u8>,
    pub overflowed: bool,
}

impl View for LineReader {
    type V = LineReaderView;

    closed spec fn view(&self) -> LineReaderView {
        LineReaderView { buffer: self.buffer@, overflowed: self.overflowed }
    }
}

/// Where the first line ends in `chunk`, or how long it is if none does.
pub open spec fn line_end(chunk: Seq<u8>) -> int
    decreases chunk.len(),
{
    if chunk.len() == 0 || chunk.first() == NEWLINE {
        0
    } else {
        1 + line_end(chunk.drop_first())
    }
}

/// What feeding a piece of the stream does: what is kept, how much of the piece is used up,
/// and the line that is whole now, if one is.
#[verifier::ext_equal]
pub struct Feeding {
    pub after: LineReaderView,
    pub consumed: int,
    pub line: Option<LineView>,
}

impl LineReaderView {
    /// Nothing read yet.
    pub open spec fn fresh() -> LineReaderView {
        LineReaderView { buffer: Seq::empty(), overflowed: false }
    }

    /// Feeds a piece of the stream. An empty one is its end.
    pub open spec fn fed(self, chunk: Seq<u8>) -> Feeding {
        let end = line_end(chunk);
        if chunk.len() == 0 {
            Feeding {
                after: LineReaderView::fresh(),
                consumed: 0,
                line: Some(
                    if self.overflowed {
                        LineView::TooLong
                    } else if self.buffer.len() == 0 {
                        LineView::Eof
                    } else {
                        LineView::Read(self.buffer)
                    },
                ),
            }
        } else if end < chunk.len() {
            Feeding {
                after: LineReaderView::fresh(),
                consumed: end + 1,
                line: Some(
                    if self.overflowed || self.buffer.len() + end > MAX_LINE_BYTES {
                        LineView::TooLong
                    } else {
                        LineView::Read(self.buffer + chunk.take(end))
                    },
                ),
            }
        } else {
            Feeding {
                after: if self.overflowed || self.buffer.len() + chunk.len() > MAX_LINE_BYTES {
                    LineReaderView { buffer: Seq::empty(), overflowed: true }
                } else {
                    LineReaderView { buffer: self.buffer + chunk, overflowed: false }
                },
                consumed: chunk.len() as int,
                line: None,
            }
        }
    }
}

/// Where the first line ends in `chunk`, or how long it is if none does.
fn find_line_end(chunk: &[u8]) -> (end: usize)
    ensures
        end == line_end(chunk@),
        end <= chunk@.len(),
{
    let mut end: usize = 0;
    proof {
        assert(chunk@.skip(0) =~= chunk@);
    }
    while end < chunk.len() && chunk[end] != NEWLINE
        invariant
            end <= chunk.len(),
            line_end(chunk@) == end + line_end(chunk@.skip(end as int)),
        decreases chunk.len() - end,
    {
        proof {
            assert(chunk@.skip(end as int).drop_first() =~= chunk@.skip(end + 1));
        }
        end += 1;
    }
    end
}

/// Adds the first `count` bytes of `chunk`.
fn extend(buffer: &mut Vec<u8>, chunk: &[u8], count: usize)
    requires
        count <= chunk@.len(),
    ensures
        final(buffer)@ == old(buffer)@ + chunk@.take(count as int),
{
    let mut i: usize = 0;
    while i < count
        invariant
            i <= count <= chunk@.len(),
            buffer@ == old(buffer)@ + chunk@.take(i as int),
        decreases count - i,
    {
        buffer.push(chunk[i]);
        i += 1;
        proof {
            assert(buffer@ =~= old(buffer)@ + chunk@.take(i as int));
        }
    }
}

impl LineReader {
    /// Nothing read yet.
    pub fn new() -> (reader: LineReader)
        ensures
            reader@ == LineReaderView::fresh(),
    {
        LineReader { buffer: Vec::new(), overflowed: false }
    }

    /// Feeds a piece of the stream, of which an empty one is its end. Reports how much of it was
    /// used up, and the line that is whole now, if one is.
    pub fn feed(&mut self, chunk: &[u8]) -> (fed: (usize, Option<Line>))
        ensures
            ({
                let feeding = old(self)@.fed(chunk@);
                &&& final(self)@ == feeding.after
                &&& fed.0 == feeding.consumed
                &&& match fed.1 {
                    Some(line) => feeding.line == Some(line@),
                    None => feeding.line is None,
                }
            }),
    {
        let overflowed = self.overflowed;
        let end = find_line_end(chunk);
        if chunk.len() == 0 || end < chunk.len() {
            let mut buffer: Vec<u8> = Vec::new();
            std::mem::swap(&mut buffer, &mut self.buffer);
            self.overflowed = false;
            if overflowed {
                return (if chunk.len() == 0 {
                    0
                } else {
                    end + 1
                }, Some(Line::TooLong));
            }
            if chunk.len() == 0 {
                if buffer.len() == 0 {
                    return (0, Some(Line::Eof));
                }
                return (0, Some(Line::Read(buffer)));
            }
            if end > MAX_LINE_BYTES || buffer.len() > MAX_LINE_BYTES - end {
                return (end + 1, Some(Line::TooLong));
            }
            extend(&mut buffer, chunk, end);
            return (end + 1, Some(Line::Read(buffer)));
        }
        if !overflowed {
            if chunk.len() > MAX_LINE_BYTES || self.buffer.len() > MAX_LINE_BYTES - chunk.len() {
                self.overflowed = true;
                self.buffer = Vec::new();
            } else {
                extend(&mut self.buffer, chunk, chunk.len());
                proof {
                    assert(chunk@.take(chunk@.len() as int) =~= chunk@);
                }
            }
        } else {
            self.buffer = Vec::new();
        }
        (chunk.len(), None)
    }
}

/// What has been read after pieces of the stream of which none ends a line.
pub open spec fn fed_all(reader: LineReaderView, chunks: Seq<Seq<u8>>) -> LineReaderView
    decreases chunks.len(),
{
    if chunks.len() == 0 {
        reader
    } else {
        fed_all(reader, chunks.drop_last()).fed(chunks.last()).after
    }
}

/// Whether none of the pieces is empty and none ends a line.
pub open spec fn unfinished(chunks: Seq<Seq<u8>>) -> bool {
    forall|i: int|
        0 <= i < chunks.len() ==> (#[trigger] chunks[i]).len() > 0 && line_end(chunks[i])
            == chunks[i].len()
}

/// A line within the limit is read whole, byte for byte, however the stream was cut into
/// pieces.
pub proof fn law_a_line_is_read_whole(chunks: Seq<Seq<u8>>, last: Seq<u8>)
    requires
        unfinished(chunks),
        chunks.flatten().len() + line_end(last) <= MAX_LINE_BYTES,
        line_end(last) < last.len(),
    ensures
        ({
            let feeding = fed_all(LineReaderView::fresh(), chunks).fed(last);
            &&& feeding.line == Some(
                LineView::Read(chunks.flatten() + last.take(line_end(last))),
            )
            &&& feeding.consumed == line_end(last) + 1
            &&& feeding.after == LineReaderView::fresh()
        }),
{
    lemma_line_end_counts(last);
    lemma_pieces_are_kept(chunks);
}

/// A line ends after as many bytes as it has.
proof fn lemma_line_end_counts(chunk: Seq<u8>)
    ensures
        0 <= line_end(chunk) <= chunk.len(),
    decreases chunk.len(),
{
    if chunk.len() > 0 && chunk.first() != NEWLINE {
        lemma_line_end_counts(chunk.drop_first());
    }
}

/// What is kept of a line within the limit is all of it, and nothing of one beyond it.
proof fn lemma_pieces_are_kept(chunks: Seq<Seq<u8>>)
    requires
        unfinished(chunks),
    ensures
        fed_all(LineReaderView::fresh(), chunks) == (if chunks.flatten().len() > MAX_LINE_BYTES {
            LineReaderView { buffer: Seq::empty(), overflowed: true }
        } else {
            LineReaderView { buffer: chunks.flatten(), overflowed: false }
        }),
    decreases chunks.len(),
{
    if chunks.len() == 0 {
        assert(chunks.flatten() =~= Seq::empty());
    } else {
        let front = chunks.drop_last();
        assert(chunks =~= front.push(chunks.last()));
        front.lemma_flatten_push(chunks.last());
        assert forall|i: int| 0 <= i < front.len() implies (#[trigger] front[i]).len() > 0
            && line_end(front[i]) == front[i].len() by {
            assert(front[i] == chunks[i]);
        }
        lemma_pieces_are_kept(front);
        assert(chunks[chunks.len() - 1] == chunks.last());
    }
}

/// A line that is too long costs that line and no other: it is skipped to its end, and what
/// follows is read as if it had never been there. Meanwhile nothing is kept of it.
pub proof fn law_an_over_long_line_is_skipped(
    reader: LineReaderView,
    chunks: Seq<Seq<u8>>,
    last: Seq<u8>,
)
    requires
        reader.overflowed,
        reader.buffer.len() == 0,
        unfinished(chunks),
        line_end(last) < last.len(),
    ensures
        fed_all(reader, chunks) == reader,
        fed_all(reader, chunks).fed(last).line == Some(LineView::TooLong),
        fed_all(reader, chunks).fed(last).after == LineReaderView::fresh(),
    decreases chunks.len(),
{
    if chunks.len() > 0 {
        let front = chunks.drop_last();
        assert forall|i: int| 0 <= i < front.len() implies (#[trigger] front[i]).len() > 0
            && line_end(front[i]) == front[i].len() by {
            assert(front[i] == chunks[i]);
        }
        law_an_over_long_line_is_skipped(reader, front, last);
        assert(chunks[chunks.len() - 1] == chunks.last());
        assert(reader.buffer =~= Seq::empty());
    }
}

/// A line beyond the limit is refused, however the stream was cut into pieces, and what
/// follows is read as if it had never been there.
pub proof fn law_a_line_beyond_the_limit_is_refused(chunks: Seq<Seq<u8>>, last: Seq<u8>)
    requires
        unfinished(chunks),
        chunks.flatten().len() + line_end(last) > MAX_LINE_BYTES,
        line_end(last) < last.len(),
    ensures
        ({
            let feeding = fed_all(LineReaderView::fresh(), chunks).fed(last);
            &&& feeding.line == Some(LineView::TooLong)
            &&& feeding.consumed == line_end(last) + 1
            &&& feeding.after == LineReaderView::fresh()
        }),
{
    lemma_line_end_counts(last);
    lemma_pieces_are_kept(chunks);
}

/// No line that is handed out is longer than the limit.
pub proof fn law_no_line_is_longer_than_the_limit(reader: LineReaderView, chunk: Seq<u8>)
    requires
        reader.buffer.len() <= MAX_LINE_BYTES,
    ensures
        reader.fed(chunk).line matches Some(LineView::Read(bytes)) ==> bytes.len()
            <= MAX_LINE_BYTES,
{
    lemma_line_end_counts(chunk);
}

/// What comes of a line depends on its bytes alone, and not on how the stream was cut into
/// pieces.
pub proof fn law_the_line_does_not_depend_on_the_cut(
    chunks: Seq<Seq<u8>>,
    last: Seq<u8>,
    other_chunks: Seq<Seq<u8>>,
    other_last: Seq<u8>,
)
    requires
        unfinished(chunks),
        unfinished(other_chunks),
        line_end(last) < last.len(),
        line_end(other_last) < other_last.len(),
        chunks.flatten() + last.take(line_end(last)) == other_chunks.flatten() + other_last.take(
            line_end(other_last),
        ),
    ensures
        fed_all(LineReaderView::fresh(), chunks).fed(last).line == fed_all(
            LineReaderView::fresh(),
            other_chunks,
        ).fed(other_last).line,
        fed_all(LineReaderView::fresh(), chunks).fed(last).after == fed_all(
            LineReaderView::fresh(),
            other_chunks,
        ).fed(other_last).after,
{
    lemma_line_end_counts(last);
    lemma_line_end_counts(other_last);
    lemma_pieces_are_kept(chunks);
    lemma_pieces_are_kept(other_chunks);
    let whole = chunks.flatten() + last.take(line_end(last));
    assert(whole.len() == chunks.flatten().len() + line_end(last));
    assert(whole.len() == other_chunks.flatten().len() + line_end(other_last));
}

/// The last line of a stream, which nothing ends, does not depend on the cut either.
pub proof fn law_the_last_line_does_not_depend_on_the_cut(
    chunks: Seq<Seq<u8>>,
    other_chunks: Seq<Seq<u8>>,
)
    requires
        unfinished(chunks),
        unfinished(other_chunks),
        chunks.flatten() == other_chunks.flatten(),
    ensures
        fed_all(LineReaderView::fresh(), chunks).fed(Seq::empty()).line == fed_all(
            LineReaderView::fresh(),
            other_chunks,
        ).fed(Seq::empty()).line,
{
    lemma_pieces_are_kept(chunks);
    lemma_pieces_are_kept(other_chunks);
}

/// Never more than a line's limit is held, whatever comes in.
pub proof fn law_what_is_held_is_bounded(reader: LineReaderView, chunk: Seq<u8>)
    requires
        reader.buffer.len() <= MAX_LINE_BYTES,
    ensures
        reader.fed(chunk).after.buffer.len() <= MAX_LINE_BYTES,
{
}

/// What [`std::str::from_utf8`] says of bytes that are not UTF-8.
pub uninterp spec fn utf8_complaint(bytes: Seq<u8>) -> Seq<char>;

/// [`std::str::from_utf8`], with its error in words: the text that valid UTF-8 encodes, and a
/// complaint about anything else. What the complaint says is left to it.
#[verifier::external_body]
fn utf8(bytes: &[u8]) -> (decoded: Result<&str, String>)
    ensures
        match decoded {
            Ok(decoded) => decoded.spec_bytes() == bytes@,
            Err(complaint) => !vstd::utf8::valid_utf8(bytes@) && complaint@ == utf8_complaint(
                bytes@,
            ),
        },
{
    std::str::from_utf8(bytes).map_err(|error| error.to_string())
}

/// What comes of a line.
#[derive(Debug)]
pub enum Incoming {
    /// A request, or why there is none.
    Message(Result<Request, Refusal>),
    /// Nothing: the line was blank.
    Nothing,
    /// The end of the stream.
    End,
}

/// What comes of a line, by its texts and numbers.
#[verifier::ext_equal]
pub enum IncomingView {
    Message(Result<RequestView, RefusalView>),
    Nothing,
    End,
}

impl View for Incoming {
    type V = IncomingView;

    open spec fn view(&self) -> IncomingView {
        match self {
            Incoming::Message(Ok(request)) => IncomingView::Message(Ok(request@)),
            Incoming::Message(Err(refusal)) => IncomingView::Message(Err(refusal@)),
            Incoming::Nothing => IncomingView::Nothing,
            Incoming::End => IncomingView::End,
        }
    }
}

/// What comes of a line.
pub open spec fn incoming(line: LineView) -> IncomingView {
    match line {
        LineView::Eof => IncomingView::End,
        LineView::TooLong => IncomingView::Message(
            Err(RefusalView { id: None, reason: DecodeErrorView::TooLong }),
        ),
        LineView::Read(bytes) => if vstd::utf8::valid_utf8(bytes) {
            match protocol::received(vstd::utf8::decode_utf8(bytes)) {
                Ok(Some(request)) => IncomingView::Message(Ok(request)),
                Ok(None) => IncomingView::Nothing,
                Err(refusal) => IncomingView::Message(Err(refusal)),
            }
        } else {
            IncomingView::Message(
                Err(
                    RefusalView {
                        id: None,
                        reason: DecodeErrorView::NotUtf8 { detail: utf8_complaint(bytes) },
                    },
                ),
            )
        },
    }
}

/// Turns a line into a request. One bad line is answered and costs nothing else.
pub fn read_line(line: &Line) -> (message: Incoming)
    ensures
        message@ == incoming(line@),
{
    match line {
        Line::Eof => Incoming::End,
        Line::TooLong => Incoming::Message(
            Err(Refusal { id: None, reason: DecodeError::TooLong }),
        ),
        Line::Read(bytes) => match utf8(bytes.as_slice()) {
            Ok(decoded) => {
                proof {
                    vstd::utf8::encode_utf8_decode_utf8(decoded@);
                    vstd::utf8::encode_utf8_valid_utf8(decoded@);
                }
                match protocol::receive(decoded) {
                    Ok(Some(request)) => Incoming::Message(Ok(request)),
                    Ok(None) => Incoming::Nothing,
                    Err(refusal) => Incoming::Message(Err(refusal)),
                }
            },
            Err(detail) => Incoming::Message(
                Err(Refusal { id: None, reason: DecodeError::NotUtf8 { detail } }),
            ),
        },
    }
}

/// The receiving end of the control channel.
#[derive(Debug)]
pub struct Control {
    incoming: Receiver<Result<Request, Refusal>>,
    hung_up: bool,
}

impl Control {
    /// Whether the other side has gone.
    pub closed spec fn spec_hung_up(&self) -> bool {
        self.hung_up
    }

    /// The channel that requests come in on.
    pub closed spec fn spec_incoming(&self) -> Receiver<Result<Request, Refusal>> {
        self.incoming
    }

    /// A channel that requests come in on.
    pub fn new(incoming: Receiver<Result<Request, Refusal>>) -> (control: Control)
        ensures
            control.spec_incoming() == incoming,
            !control.spec_hung_up(),
    {
        Control { incoming, hung_up: false }
    }

    /// Whether the other side has gone. That is a request to exit.
    pub fn hung_up(&self) -> (hung_up: bool)
        ensures
            hung_up == self.spec_hung_up(),
    {
        self.hung_up
    }

    /// Takes in what was found in the channel: a message goes at the end of `batch`, and that
    /// the other side has gone is remembered. Reports whether to look for more, which is so
    /// until there is nothing, or as much as one frame handles.
    pub fn take_in(
        &mut self,
        batch: &mut Vec<Result<Request, Refusal>>,
        arrival: Arrival<Result<Request, Refusal>>,
    ) -> (more: bool)
        ensures
            match arrival {
                Arrival::Message(message) => {
                    &&& final(batch)@ == old(batch)@.push(message)
                    &&& *final(self) == *old(self)
                    &&& more == (old(batch)@.len() + 1 < MAX_REQUESTS_PER_FRAME)
                },
                Arrival::Empty => {
                    &&& final(batch)@ == old(batch)@
                    &&& *final(self) == *old(self)
                    &&& !more
                },
                Arrival::Disconnected => {
                    &&& final(batch)@ == old(batch)@
                    &&& final(self).spec_incoming() == old(self).spec_incoming()
                    &&& final(self).spec_hung_up()
                    &&& !more
                },
            },
    {
        match arrival {
            Arrival::Message(message) => {
                batch.push(message);
                batch.len() < MAX_REQUESTS_PER_FRAME
            },
            Arrival::Empty => false,
            Arrival::Disconnected => {
                self.hung_up = true;
                false
            },
        }
    }

    /// Takes what has come in, in the order it came, and at most so much as one frame handles.
    /// Never waits. Nothing changes, but that the other side may be found to have gone, which is
    /// only noticed once everything that it sent has been taken. What is found in the channel
    /// decides, as [`Control::take_in`] says.
    pub fn poll(&mut self) -> (batch: Vec<Result<Request, Refusal>>)
        ensures
            batch@.len() <= MAX_REQUESTS_PER_FRAME,
            final(self).spec_incoming() == old(self).spec_incoming(),
            *final(self) == *old(self) || final(self).spec_hung_up(),
            batch@.len() == MAX_REQUESTS_PER_FRAME ==> *final(self) == *old(self),
    {
        let mut batch: Vec<Result<Request, Refusal>> = Vec::new();
        let mut more = true;
        while more
            invariant
                more ==> batch@.len() < MAX_REQUESTS_PER_FRAME,
                batch@.len() <= MAX_REQUESTS_PER_FRAME,
                more || batch@.len() == MAX_REQUESTS_PER_FRAME ==> *self == *old(self),
                self.spec_incoming() == old(self).spec_incoming(),
                *self == *old(self) || self.spec_hung_up(),
            decreases
                MAX_REQUESTS_PER_FRAME - batch@.len(),
                if more {
                    1int
                } else {
                    0int
                },
        {
            let arrival = mail::receive(&self.incoming);
            more = self.take_in(&mut batch, arrival);
        }
        batch
    }
}

} // verus!
