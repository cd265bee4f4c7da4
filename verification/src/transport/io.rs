//! Reading and writing whole messages over a stream.
//!
//! Nothing here does I/O. A reader says when bytes are to be read and where they are to go, and
//! is told what became of it; a writer stages the bytes that are to be written.

use crate::error::TransportError;
use crate::error::TransportErrorView;
use crate::numeral;
use crate::span::Span;
use crate::transport::Framing;
use vstd::prelude::*;

verus! {

/// The largest frame that is accepted by default: 16 MiB.
pub const DEFAULT_MAX_FRAME_SIZE: usize = 16 * 1024 * 1024;

/// How many bytes a single read may bring.
pub const CHUNK_SIZE: usize = 4096;

/// What became of a read, or that none was made yet.
pub enum ReadEvent {
    /// The next message is asked for.
    Begin,
    /// So many bytes were read into the room for it; none at the end of the stream.
    Read(usize),
    /// The read failed.
    Failed(std::io::Error),
    /// The read took longer than allowed.
    TimedOut(Span),
}

/// What is to be done next.
#[verifier::ext_equal]
pub enum ReadStepView {
    Read(Option<Span>),
    Deliver(Seq<u8>),
    End,
    Fail(TransportErrorView),
}

/// What is to be done next.
pub enum ReadStep {
    /// Read into the room that was made, within the given time if there is one.
    Read(Option<Span>),
    /// Hand out a message.
    Deliver(Vec<u8>),
    /// Report the end of the stream.
    End,
    /// Report a failure.
    Fail(TransportError),
}

impl View for ReadStep {
    type V = ReadStepView;

    open spec fn view(&self) -> ReadStepView {
        match self {
            ReadStep::Read(timeout) => ReadStepView::Read(*timeout),
            ReadStep::Deliver(message) => ReadStepView::Deliver(message@),
            ReadStep::End => ReadStepView::End,
            ReadStep::Fail(error) => ReadStepView::Fail(error@),
        }
    }
}

/// What is said of a frame that is too large.
pub open spec fn oversize(limit: usize) -> ReadStepView {
    ReadStepView::Fail(
        TransportErrorView::Frame(
            "frame exceeds max size of "@ + numeral::decimal(limit as int) + " bytes"@,
        ),
    )
}

/// The first bytes of a row, or all of them if there are fewer.
pub open spec fn front(bytes: Seq<u8>, len: int) -> Seq<u8> {
    if len <= bytes.len() {
        bytes.take(len)
    } else {
        bytes
    }
}

/// The room that is made for a read behind so many bytes.
pub open spec fn room_behind(len: nat) -> Seq<u8> {
    let room = if len + CHUNK_SIZE <= usize::MAX {
        CHUNK_SIZE as nat
    } else if len <= usize::MAX {
        (usize::MAX - len) as nat
    } else {
        0
    };
    Seq::new(room, |i: int| 0u8)
}

/// What is done with the bytes that have arrived: a message is taken from them if there is one,
/// else more bytes are read. A frame that is larger than the limit is refused as soon as that is
/// seen: when it is complete, or when more bytes than are allowed have arrived and it is not.
pub open spec fn take_message<F: Framing>(
    framing: F,
    limit: usize,
    timeout: Option<Span>,
    arrived: Seq<u8>,
) -> (Seq<u8>, ReadStepView) {
    match framing.decoded(arrived) {
        Err(error) => (arrived, ReadStepView::Fail(error)),
        Ok(Some((message, consumed))) => if limit > 0 && consumed > limit {
            (arrived, oversize(limit))
        } else {
            (arrived.skip(consumed as int), ReadStepView::Deliver(message))
        },
        Ok(None) => if limit > 0 && arrived.len() > limit {
            (arrived, oversize(limit))
        } else {
            (arrived, ReadStepView::Read(timeout))
        },
    }
}

/// What is done at the end of the stream: what has arrived is the last message if the framing lets
/// the end of the stream end a frame, else it must be nothing.
pub open spec fn finish<F: Framing>(framing: F, arrived: Seq<u8>) -> (Seq<u8>, ReadStepView) {
    if arrived.len() == 0 {
        (arrived, ReadStepView::End)
    } else if framing.eof_ends_frame() {
        (Seq::empty(), ReadStepView::Deliver(arrived))
    } else {
        (
            arrived,
            ReadStepView::Fail(TransportErrorView::Frame("stream closed mid-frame"@)),
        )
    }
}

/// The bytes that have arrived: those of earlier reads, and those that the last read has put into
/// the room that was made for it.
pub open spec fn arrived(received: Seq<u8>, room: Seq<u8>, event: ReadEvent) -> Seq<u8> {
    match event {
        ReadEvent::Read(n) => received + front(room, n as int),
        _ => received,
    }
}

/// The bytes that are kept, and what is to be done next, given the bytes that have arrived.
pub open spec fn read_step<F: Framing>(
    framing: F,
    limit: usize,
    timeout: Option<Span>,
    arrived: Seq<u8>,
    event: ReadEvent,
) -> (Seq<u8>, ReadStepView) {
    match event {
        ReadEvent::Begin => take_message(framing, limit, timeout, arrived),
        ReadEvent::Read(n) => if n == 0 {
            finish(framing, arrived)
        } else {
            take_message(framing, limit, timeout, arrived)
        },
        ReadEvent::Failed(error) => (
            arrived,
            ReadStepView::Fail(TransportErrorView::Io(error)),
        ),
        ReadEvent::TimedOut(elapsed) => (
            arrived,
            ReadStepView::Fail(
                TransportErrorView::Frame("read timed out after "@ + elapsed.shown()),
            ),
        ),
    }
}

/// Whether a step follows from what became of the last read. Room is made exactly if the step is to
/// read; it is no part of what was received.
pub open spec fn polled<F: Framing>(
    before: ReadCore,
    framing: F,
    event: ReadEvent,
    after: ReadCore,
    step: ReadStep,
) -> bool {
    &&& (after.received(), step@) == read_step(
        framing,
        before.limit(),
        before.timeout(),
        arrived(before.received(), before.room(), event),
        event,
    )
    &&& after.room() == if step is Read {
        room_behind(after.received().len())
    } else {
        Seq::empty()
    }
    &&& after.limit() == before.limit()
    &&& after.timeout() == before.timeout()
}

/// Whether nothing has changed but what is in the room for a read.
pub open spec fn refilled(before: ReadCore, after: ReadCore, room: Seq<u8>) -> bool {
    &&& after.room() == room
    &&& after.received() == before.received()
    &&& after.limit() == before.limit()
    &&& after.timeout() == before.timeout()
}

/// The buffer of a reader, with its limits: first the bytes that were received, then, while a read
/// is under way, the room into which it goes.
#[derive(Debug)]
pub struct ReadCore {
    read_buf: Vec<u8>,
    start: usize,
    read_timeout: Option<Span>,
    max_frame_size: usize,
}

impl ReadCore {
    /// The bytes that were received and not handed out.
    pub closed spec fn received(self) -> Seq<u8> {
        front(self.read_buf@, self.start as int)
    }

    /// The room for a read.
    pub closed spec fn room(self) -> Seq<u8> {
        if self.start <= self.read_buf@.len() {
            self.read_buf@.skip(self.start as int)
        } else {
            Seq::empty()
        }
    }

    /// The time that a read may take, if it is limited.
    pub closed spec fn timeout(self) -> Option<Span> {
        self.read_timeout
    }

    /// The number of bytes that a frame may have, or zero if there is no limit.
    pub closed spec fn limit(self) -> usize {
        self.max_frame_size
    }

    /// An empty buffer with the default limits.
    pub fn new() -> (core: Self)
        ensures
            core.received() == Seq::<u8>::empty(),
            core.room() == Seq::<u8>::empty(),
            core.timeout() is None,
            core.limit() == DEFAULT_MAX_FRAME_SIZE,
    {
        ReadCore {
            read_buf: Vec::with_capacity(CHUNK_SIZE),
            start: 0,
            read_timeout: None,
            max_frame_size: DEFAULT_MAX_FRAME_SIZE,
        }
    }

    /// Limits the time that a read may take.
    pub fn set_read_timeout(&mut self, timeout: Span)
        ensures
            final(self).timeout() == Some(timeout),
            final(self).received() == old(self).received(),
            final(self).room() == old(self).room(),
            final(self).limit() == old(self).limit(),
    {
        self.read_timeout = Some(timeout);
    }

    /// Limits the number of bytes that a frame may have. Zero lifts the limit.
    pub fn set_max_frame_size(&mut self, limit: usize)
        ensures
            final(self).limit() == limit,
            final(self).received() == old(self).received(),
            final(self).room() == old(self).room(),
            final(self).timeout() == old(self).timeout(),
    {
        self.max_frame_size = limit;
    }

    /// The number of bytes that were received.
    fn received_len(&self) -> (len: usize)
        ensures
            len == self.received().len(),
            self.read_buf@ == self.received() + self.room(),
    {
        assert(self.read_buf@ =~= self.received() + self.room());
        if self.start <= self.read_buf.len() {
            self.start
        } else {
            self.read_buf.len()
        }
    }

    /// The room for a read.
    pub fn tail(&mut self) -> (tail: &mut [u8])
        ensures
            tail@ == old(self).room(),
            refilled(*old(self), *final(self), final(tail)@),
    {
        let from: usize = self.received_len();
        self.start = from;
        assert(self.read_buf@.subrange(0, from as int) =~= old(self).received());
        assert(self.read_buf@.skip(from as int) =~= old(self).room());
        let (_, tail) = self.read_buf.as_mut_slice().split_at_mut(from);
        proof {
            let received = old(self).received();
            assert((received + final(tail)@).take(from as int) =~= received);
            assert((received + final(tail)@).skip(from as int) =~= final(tail)@);
        }
        tail
    }

    /// Keeps what was received, and so many bytes of the room with it.
    fn settle(&mut self, n: usize)
        ensures
            final(self).received() == old(self).received() + front(old(self).room(), n as int),
            final(self).room() == Seq::<u8>::empty(),
            final(self).limit() == old(self).limit(),
            final(self).timeout() == old(self).timeout(),
            final(self).read_buf@ == final(self).received(),
    {
        let from: usize = self.received_len();
        let room: usize = self.read_buf.len() - from;
        let kept: usize = if n <= room {
            n
        } else {
            room
        };
        self.read_buf.truncate(from + kept);
        self.start = from + kept;
        assert(self.received() =~= old(self).received() + front(old(self).room(), n as int));
        assert(self.room() =~= Seq::<u8>::empty());
        assert(self.read_buf@ =~= self.received());
    }

    /// Takes what became of the last read, and says what is to be done next.
    pub fn poll<F: Framing>(&mut self, framing: &F, event: ReadEvent) -> (step: ReadStep)
        ensures
            polled(*old(self), *framing, event, *final(self), step),
    {
        match event {
            ReadEvent::Begin => {
                self.settle(0);
                self.take_message(framing)
            },
            ReadEvent::Read(n) => {
                self.settle(n);
                if n == 0 {
                    self.finish(framing)
                } else {
                    self.take_message(framing)
                }
            },
            ReadEvent::Failed(error) => {
                self.settle(0);
                ReadStep::Fail(TransportError::Io(error))
            },
            ReadEvent::TimedOut(elapsed) => {
                self.settle(0);
                let mut message = "read timed out after ".to_owned();
                message.append(elapsed.to_string().as_str());
                ReadStep::Fail(TransportError::Frame(message))
            },
        }
    }

    /// Takes a message from what was received, or makes room for a read.
    fn take_message<F: Framing>(&mut self, framing: &F) -> (step: ReadStep)
        requires
            old(self).read_buf@ == old(self).received(),
            old(self).room() == Seq::<u8>::empty(),
        ensures
            (final(self).received(), step@) == take_message(
                *framing,
                old(self).limit(),
                old(self).timeout(),
                old(self).received(),
            ),
            final(self).room() == if step is Read {
                room_behind(final(self).received().len())
            } else {
                Seq::empty()
            },
            final(self).limit() == old(self).limit(),
            final(self).timeout() == old(self).timeout(),
    {
        match framing.decode(self.read_buf.as_slice()) {
            Err(error) => ReadStep::Fail(error),
            Ok(Some((message, consumed))) => {
                if self.max_frame_size > 0 && consumed > self.max_frame_size {
                    return ReadStep::Fail(describe_oversize(self.max_frame_size));
                }
                let rest = self.read_buf.split_off(consumed);
                self.start = rest.len();
                self.read_buf = rest;
                assert(self.received() =~= old(self).received().skip(consumed as int));
                assert(self.room() =~= Seq::<u8>::empty());
                ReadStep::Deliver(message)
            },
            Ok(None) => {
                let start: usize = self.read_buf.len();
                if self.max_frame_size > 0 && start > self.max_frame_size {
                    return ReadStep::Fail(describe_oversize(self.max_frame_size));
                }
                self.start = start;
                self.read_buf.resize(start.saturating_add(CHUNK_SIZE), 0);
                assert(self.received() =~= old(self).received());
                assert(self.room() =~= room_behind(self.received().len()));
                ReadStep::Read(self.read_timeout)
            },
        }
    }

    /// Ends the stream.
    fn finish<F: Framing>(&mut self, framing: &F) -> (step: ReadStep)
        requires
            old(self).read_buf@ == old(self).received(),
            old(self).room() == Seq::<u8>::empty(),
        ensures
            (final(self).received(), step@) == finish(*framing, old(self).received()),
            final(self).room() == Seq::<u8>::empty(),
            !(step is Read),
            final(self).limit() == old(self).limit(),
            final(self).timeout() == old(self).timeout(),
    {
        if self.read_buf.len() == 0 {
            ReadStep::End
        } else if framing.take_on_eof() {
            let mut rest: Vec<u8> = Vec::new();
            std::mem::swap(&mut rest, &mut self.read_buf);
            self.start = 0;
            assert(self.received() =~= Seq::<u8>::empty());
            assert(self.room() =~= Seq::<u8>::empty());
            ReadStep::Deliver(rest)
        } else {
            ReadStep::Fail(TransportError::Frame("stream closed mid-frame".to_owned()))
        }
    }
}

/// Says of a frame that it is too large.
fn describe_oversize(limit: usize) -> (error: TransportError)
    ensures
        ReadStepView::Fail(error@) == oversize(limit),
{
    let mut message = "frame exceeds max size of ".to_owned();
    message.append(numeral::format_integer(limit as i128).as_str());
    message.append(" bytes");
    TransportError::Frame(message)
}

/// The reading half of a framed connection: it decodes whole messages from a stream.
pub struct FramedReader<R, F> {
    inner: R,
    framing: F,
    core: ReadCore,
}

impl<R, F: Framing> FramedReader<R, F> {
    /// The stream.
    pub closed spec fn stream(self) -> R {
        self.inner
    }

    /// The framing.
    pub closed spec fn framing(self) -> F {
        self.framing
    }

    /// The buffer and its limits.
    pub closed spec fn reading(self) -> ReadCore {
        self.core
    }

    /// Reads from a stream with a framing. A frame may have 16 MiB and a read may take any time,
    /// unless that is set otherwise.
    pub fn new(inner: R, framing: F) -> (reader: Self)
        ensures
            reader.stream() == inner,
            reader.framing() == framing,
            reader.reading().received() == Seq::<u8>::empty(),
            reader.reading().room() == Seq::<u8>::empty(),
            reader.reading().timeout() is None,
            reader.reading().limit() == DEFAULT_MAX_FRAME_SIZE,
    {
        FramedReader { inner, framing, core: ReadCore::new() }
    }

    /// Limits the time that a single read may take.
    pub fn with_read_timeout(self, timeout: Span) -> (reader: Self)
        ensures
            reader.stream() == self.stream(),
            reader.framing() == self.framing(),
            reader.reading().received() == self.reading().received(),
            reader.reading().room() == self.reading().room(),
            reader.reading().timeout() == Some(timeout),
            reader.reading().limit() == self.reading().limit(),
    {
        let mut core = self.core;
        core.set_read_timeout(timeout);
        FramedReader { inner: self.inner, framing: self.framing, core }
    }

    /// Limits the number of bytes that a frame may have. Zero lifts the limit.
    pub fn with_max_frame_size(self, limit: usize) -> (reader: Self)
        ensures
            reader.stream() == self.stream(),
            reader.framing() == self.framing(),
            reader.reading().received() == self.reading().received(),
            reader.reading().room() == self.reading().room(),
            reader.reading().timeout() == self.reading().timeout(),
            reader.reading().limit() == limit,
    {
        let mut core = self.core;
        core.set_max_frame_size(limit);
        FramedReader { inner: self.inner, framing: self.framing, core }
    }

    /// Takes what became of the last read, and says what is to be done next.
    pub fn poll(&mut self, event: ReadEvent) -> (step: ReadStep)
        ensures
            final(self).stream() == old(self).stream(),
            final(self).framing() == old(self).framing(),
            polled(
                old(self).reading(),
                old(self).framing(),
                event,
                final(self).reading(),
                step,
            ),
    {
        self.core.poll(&self.framing, event)
    }

    /// The stream, and the room into which the next read goes.
    pub fn read_target(&mut self) -> (target: (&mut R, &mut [u8]))
        ensures
            *target.0 == old(self).stream(),
            final(self).stream() == *final(target.0),
            final(self).framing() == old(self).framing(),
            target.1@ == old(self).reading().room(),
            refilled(old(self).reading(), final(self).reading(), final(target.1)@),
    {
        (&mut self.inner, self.core.tail())
    }
}

/// The writing half of a framed connection: it frames whole messages.
pub struct FramedWriter<W, F> {
    inner: W,
    framing: F,
    write_buf: Vec<u8>,
}

impl<W, F: Framing> FramedWriter<W, F> {
    /// The stream.
    pub closed spec fn stream(self) -> W {
        self.inner
    }

    /// The framing.
    pub closed spec fn framing(self) -> F {
        self.framing
    }

    /// The bytes that are to be written.
    pub closed spec fn staged(self) -> Seq<u8> {
        self.write_buf@
    }

    /// Writes to a stream with a framing.
    pub fn new(inner: W, framing: F) -> (writer: Self)
        ensures
            writer.stream() == inner,
            writer.framing() == framing,
            writer.staged() == Seq::<u8>::empty(),
    {
        FramedWriter { inner, framing, write_buf: Vec::new() }
    }

    /// Stages the frame of a message, in place of what was staged before.
    pub fn stage(&mut self, payload: &[u8])
        ensures
            final(self).stream() == old(self).stream(),
            final(self).framing() == old(self).framing(),
            final(self).staged() == old(self).framing().encoded(payload@),
    {
        self.write_buf.clear();
        self.framing.encode(payload, &mut self.write_buf);
        assert(self.write_buf@ =~= self.framing.encoded(payload@));
    }

    /// The stream, and the bytes that are to be written to it.
    pub fn write_source(&mut self) -> (source: (&mut W, &[u8]))
        ensures
            *source.0 == old(self).stream(),
            source.1@ == old(self).staged(),
            final(self).stream() == *final(source.0),
            final(self).framing() == old(self).framing(),
            final(self).staged() == old(self).staged(),
    {
        (&mut self.inner, self.write_buf.as_slice())
    }
}

/// A framed connection: it reads and writes whole messages over one stream.
pub struct FramedConn<T, F> {
    inner: T,
    framing: F,
    core: ReadCore,
    write_buf: Vec<u8>,
}

impl<T, F: Framing> FramedConn<T, F> {
    /// The stream.
    pub closed spec fn stream(self) -> T {
        self.inner
    }

    /// The framing.
    pub closed spec fn framing(self) -> F {
        self.framing
    }

    /// The buffer for reading and its limits.
    pub closed spec fn reading(self) -> ReadCore {
        self.core
    }

    /// The bytes that are to be written.
    pub closed spec fn staged(self) -> Seq<u8> {
        self.write_buf@
    }

    /// Reads and writes over a stream with a framing. A frame may have 16 MiB and a read may
    /// take any time, unless that is set otherwise.
    pub fn new(inner: T, framing: F) -> (conn: Self)
        ensures
            conn.stream() == inner,
            conn.framing() == framing,
            conn.reading().received() == Seq::<u8>::empty(),
            conn.reading().room() == Seq::<u8>::empty(),
            conn.reading().timeout() is None,
            conn.reading().limit() == DEFAULT_MAX_FRAME_SIZE,
            conn.staged() == Seq::<u8>::empty(),
    {
        FramedConn { inner, framing, core: ReadCore::new(), write_buf: Vec::new() }
    }

    /// Limits the time that a single read may take.
    pub fn with_read_timeout(self, timeout: Span) -> (conn: Self)
        ensures
            conn.stream() == self.stream(),
            conn.framing() == self.framing(),
            conn.reading().received() == self.reading().received(),
            conn.reading().room() == self.reading().room(),
            conn.reading().timeout() == Some(timeout),
            conn.reading().limit() == self.reading().limit(),
            conn.staged() == self.staged(),
    {
        let mut core = self.core;
        core.set_read_timeout(timeout);
        FramedConn { inner: self.inner, framing: self.framing, core, write_buf: self.write_buf }
    }

    /// Limits the number of bytes that a frame may have. Zero lifts the limit.
    pub fn with_max_frame_size(self, limit: usize) -> (conn: Self)
        ensures
            conn.stream() == self.stream(),
            conn.framing() == self.framing(),
            conn.reading().received() == self.reading().received(),
            conn.reading().room() == self.reading().room(),
            conn.reading().timeout() == self.reading().timeout(),
            conn.reading().limit() == limit,
            conn.staged() == self.staged(),
    {
        let mut core = self.core;
        core.set_max_frame_size(limit);
        FramedConn { inner: self.inner, framing: self.framing, core, write_buf: self.write_buf }
    }

    /// Takes what became of the last read, and says what is to be done next.
    pub fn poll(&mut self, event: ReadEvent) -> (step: ReadStep)
        ensures
            final(self).stream() == old(self).stream(),
            final(self).framing() == old(self).framing(),
            final(self).staged() == old(self).staged(),
            polled(
                old(self).reading(),
                old(self).framing(),
                event,
                final(self).reading(),
                step,
            ),
    {
        self.core.poll(&self.framing, event)
    }

    /// The stream, and the room into which the next read goes.
    pub fn read_target(&mut self) -> (target: (&mut T, &mut [u8]))
        ensures
            *target.0 == old(self).stream(),
            final(self).stream() == *final(target.0),
            final(self).framing() == old(self).framing(),
            final(self).staged() == old(self).staged(),
            target.1@ == old(self).reading().room(),
            refilled(old(self).reading(), final(self).reading(), final(target.1)@),
    {
        (&mut self.inner, self.core.tail())
    }

    /// Stages the frame of a message, in place of what was staged before.
    pub fn stage(&mut self, payload: &[u8])
        ensures
            final(self).stream() == old(self).stream(),
            final(self).framing() == old(self).framing(),
            final(self).reading() == old(self).reading(),
            final(self).staged() == old(self).framing().encoded(payload@),
    {
        self.write_buf.clear();
        self.framing.encode(payload, &mut self.write_buf);
        assert(self.write_buf@ =~= self.framing.encoded(payload@));
    }

    /// The stream, and the bytes that are to be written to it.
    pub fn write_source(&mut self) -> (source: (&mut T, &[u8]))
        ensures
            *source.0 == old(self).stream(),
            source.1@ == old(self).staged(),
            final(self).stream() == *final(source.0),
            final(self).framing() == old(self).framing(),
            final(self).reading() == old(self).reading(),
            final(self).staged() == old(self).staged(),
    {
        (&mut self.inner, self.write_buf.as_slice())
    }
}

} // verus!
