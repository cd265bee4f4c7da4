//! What holds of the framings: what was encoded is decoded, however the bytes arrive.

use crate::error::TransportErrorView;
use crate::numeral;
use crate::transport;
use crate::transport::io;
use crate::transport::io::FramedConn;
use crate::transport::io::ReadCore;
use crate::transport::io::ReadEvent;
use crate::transport::io::ReadStep;
use crate::transport::io::ReadStepView;
use crate::transport::DecodedView;
use crate::transport::Framing;
use crate::transport::Netstring;
use crate::transport::Newline;
use vstd::prelude::*;
use vstd::utf8::*;

verus! {

/// The numeral of a `usize` has at most twenty digits.
proof fn lemma_length_digits(n: nat)
    requires
        n <= usize::MAX,
    ensures
        numeral::decimal_bytes(n as int).len() <= 20,
{
    reveal_with_fuel(vstd::arithmetic::power::pow, 21);
    numeral::lemma_digits_len(n, 20);
    numeral::lemma_decimal(n as int);
}

/// What is decoded of a message when so many bytes have arrived: nothing before its frame is
/// complete, then the message.
pub open spec fn decoded_so_far(payload: Seq<u8>, frame_len: nat, arrived: int) -> DecodedView {
    if arrived < frame_len {
        Ok(None)
    } else {
        Ok(Some((payload, frame_len)))
    }
}

/// A netstring that arrives bit by bit, with anything behind it, is decoded as soon as it is
/// complete, and not before: any bytes can be sent as a message.
pub proof fn law_netstring_stream(payload: Seq<u8>, rest: Seq<u8>, arrived: int)
    requires
        Netstring.encoded(payload).len() <= usize::MAX,
        0 <= arrived <= (Netstring.encoded(payload) + rest).len(),
    ensures
        Netstring.decoded((Netstring.encoded(payload) + rest).take(arrived)) == decoded_so_far(
            payload,
            Netstring.encoded(payload).len(),
            arrived,
        ),
{
    let frame = Netstring.encoded(payload);
    let src = (frame + rest).take(arrived);
    let digits = numeral::decimal_bytes(payload.len() as int);
    numeral::lemma_decimal(payload.len() as int);
    lemma_length_digits(payload.len());
    let colon = digits.len() as int;
    assert(frame[colon] == 58);
    assert forall|j: int| 0 <= j < colon implies frame[j] != 58 by {
        assert(frame[j] == digits[j]);
    }
    if arrived <= colon {
        transport::lemma_first_place(src, 58, arrived);
    } else {
        transport::lemma_first_place(src, 58, colon);
        assert(src.take(colon) =~= digits);
        let end = colon + 1 + payload.len();
        if src.len() > end {
            assert(src[end] == frame[end]);
            assert(src.subrange(colon + 1, end) =~= payload);
        }
    }
}

/// A message without a newline that arrives bit by bit in a newline-delimited stream, with
/// anything behind it, is decoded as soon as its newline is there, and not before.
pub proof fn law_newline_stream(payload: Seq<u8>, rest: Seq<u8>, arrived: int)
    requires
        !payload.contains(10u8),
        0 <= arrived <= (Newline.encoded(payload) + rest).len(),
    ensures
        Newline.decoded((Newline.encoded(payload) + rest).take(arrived)) == decoded_so_far(
            payload,
            Newline.encoded(payload).len(),
            arrived,
        ),
{
    let frame = Newline.encoded(payload);
    let src = (frame + rest).take(arrived);
    assert forall|j: int| 0 <= j < payload.len() implies frame[j] != 10 by {
        assert(frame[j] == payload[j]);
    }
    if arrived < frame.len() {
        transport::lemma_first_place(src, 10, arrived);
    } else {
        transport::lemma_first_place(src, 10, payload.len() as int);
        assert(src.take(payload.len() as int) =~= payload);
    }
}

/// Bytes that arrive behind a complete netstring do not change what is decoded.
pub proof fn law_netstring_is_stable(src: Seq<u8>, more: Seq<u8>)
    requires
        Netstring.decoded(src) matches Ok(Some(_)),
    ensures
        Netstring.decoded(src + more) == Netstring.decoded(src),
{
    src.index_of_first_ensures(58u8);
    let colon = src.index_of_first(58u8)->0;
    transport::lemma_first_place(src + more, 58, colon);
    assert((src + more).take(colon) =~= src.take(colon));
    let end = colon + 1 + transport::prefix_length(src.take(colon))->0;
    assert((src + more).subrange(colon + 1, end) =~= src.subrange(colon + 1, end));
}

/// Bytes that arrive behind a complete line do not change what is decoded.
pub proof fn law_newline_is_stable(src: Seq<u8>, more: Seq<u8>)
    requires
        Newline.decoded(src) matches Ok(Some(_)),
    ensures
        Newline.decoded(src + more) == Newline.decoded(src),
{
    src.index_of_first_ensures(10u8);
    let end = src.index_of_first(10u8)->0;
    transport::lemma_first_place(src + more, 10, end);
    assert((src + more).take(end) =~= src.take(end));
}

/// Whether a stream begins with the frame of a message: the message is decoded as soon as its
/// frame has arrived, and not before.
pub open spec fn carries<F: Framing>(framing: F, payload: Seq<u8>, stream: Seq<u8>) -> bool {
    &&& framing.encoded(payload).len() <= stream.len()
    &&& forall|k: int|
        0 <= k <= stream.len() ==> framing.decoded(#[trigger] stream.take(k)) == decoded_so_far(
            payload,
            framing.encoded(payload).len(),
            k,
        )
}

/// Any message can be carried by netstrings.
pub proof fn law_netstrings_carry(payload: Seq<u8>, rest: Seq<u8>)
    requires
        Netstring.encoded(payload).len() <= usize::MAX,
    ensures
        carries(Netstring, payload, Netstring.encoded(payload) + rest),
{
    let stream = Netstring.encoded(payload) + rest;
    assert forall|k: int| 0 <= k <= stream.len() implies Netstring.decoded(
        #[trigger] stream.take(k),
    ) == decoded_so_far(payload, Netstring.encoded(payload).len(), k) by {
        law_netstring_stream(payload, rest, k);
    }
}

/// Any message without a newline can be carried by lines.
pub proof fn law_lines_carry(payload: Seq<u8>, rest: Seq<u8>)
    requires
        !payload.contains(10u8),
    ensures
        carries(Newline, payload, Newline.encoded(payload) + rest),
{
    let stream = Newline.encoded(payload) + rest;
    assert forall|k: int| 0 <= k <= stream.len() implies Newline.decoded(#[trigger] stream.take(k))
        == decoded_so_far(payload, Newline.encoded(payload).len(), k) by {
        law_newline_stream(payload, rest, k);
    }
}

/// Messages as they stand in a stream, one behind the other, and what follows them.
pub open spec fn stream_of<F: Framing>(
    framing: F,
    messages: Seq<Seq<u8>>,
    tail: Seq<u8>,
) -> Seq<u8>
    decreases messages.len(),
{
    if messages.len() == 0 {
        tail
    } else {
        framing.encoded(messages[0]) + stream_of(framing, messages.skip(1), tail)
    }
}

/// Whether more bytes are needed to decode a message.
pub open spec fn is_incomplete<F: Framing>(framing: F, src: Seq<u8>) -> bool {
    framing.decoded(src) matches Ok(None)
}

/// Whether a stream carries messages, each behind the one before it, and then a tail in which no
/// message is complete.
pub open spec fn carries_all<F: Framing>(
    framing: F,
    messages: Seq<Seq<u8>>,
    tail: Seq<u8>,
) -> bool
    decreases messages.len(),
{
    if messages.len() == 0 {
        forall|k: int| 0 <= k <= tail.len() ==> is_incomplete(framing, #[trigger] tail.take(k))
    } else {
        &&& framing.encoded(messages[0]).len() > 0
        &&& carries(framing, messages[0], stream_of(framing, messages, tail))
        &&& carries_all(framing, messages.skip(1), tail)
    }
}

/// Messages without a newline, and a last line that is not ended, are carried by lines.
pub proof fn law_lines_carry_all(messages: Seq<Seq<u8>>, tail: Seq<u8>)
    requires
        forall|i: int| 0 <= i < messages.len() ==> !(#[trigger] messages[i]).contains(10u8),
        !tail.contains(10u8),
    ensures
        carries_all(Newline, messages, tail),
    decreases messages.len(),
{
    if messages.len() == 0 {
        assert forall|k: int| 0 <= k <= tail.len() implies is_incomplete(
            Newline,
            #[trigger] tail.take(k),
        ) by {
            transport::lemma_first_place(tail.take(k), 10, k);
        }
    } else {
        law_lines_carry(messages[0], stream_of(Newline, messages.skip(1), tail));
        law_lines_carry_all(messages.skip(1), tail);
    }
}

/// Any messages, and a last one that is cut off before its end, are carried by netstrings.
pub proof fn law_netstrings_carry_all(messages: Seq<Seq<u8>>, last: Seq<u8>, cut: int)
    requires
        forall|i: int|
            0 <= i < messages.len() ==> Netstring.encoded(#[trigger] messages[i]).len()
                <= usize::MAX,
        Netstring.encoded(last).len() <= usize::MAX,
        0 <= cut < Netstring.encoded(last).len(),
    ensures
        carries_all(Netstring, messages, Netstring.encoded(last).take(cut)),
    decreases messages.len(),
{
    let tail = Netstring.encoded(last).take(cut);
    if messages.len() == 0 {
        assert forall|k: int| 0 <= k <= tail.len() implies is_incomplete(
            Netstring,
            #[trigger] tail.take(k),
        ) by {
            law_netstring_stream(last, Seq::empty(), k);
            assert(tail.take(k) =~= (Netstring.encoded(last) + Seq::<u8>::empty()).take(k));
        }
    } else {
        law_netstrings_carry(messages[0], stream_of(Netstring, messages.skip(1), tail));
        law_netstrings_carry_all(messages.skip(1), last, cut);
    }
}

/// A call of a reader's `poll`, and what was done before the next.
pub struct Turn {
    /// What the call said is to be done.
    pub step: ReadStep,
    /// The reader after the call.
    pub polled: ReadCore,
    /// The bytes that were read then, if that was to be done: none at the end of the stream.
    pub chunk: Seq<u8>,
    /// The reader when those bytes had been put into its room.
    pub refilled: ReadCore,
}

/// Whether calls of a reader's `poll` are made as they are to be: what is to be read is read from
/// the stream, in chunks of any size, into the room that the reader made; what became of the read
/// is told to the next call; and when a message, the end of the stream or a failure was handed out,
/// the next message is asked for. `unread` is what is left of the stream.
pub open spec fn is_run<F: Framing>(
    framing: F,
    reader: ReadCore,
    event: ReadEvent,
    unread: Seq<u8>,
    turns: Seq<Turn>,
) -> bool
    decreases turns.len(),
{
    turns.len() > 0 ==> {
        let turn = turns[0];
        let len = turn.chunk.len();
        &&& io::polled(reader, framing, event, turn.polled, turn.step)
        &&& if turn.step is Read {
            &&& len <= unread.len() && len <= turn.polled.room().len()
            &&& turn.chunk == unread.take(len as int)
            &&& len == 0 ==> unread.len() == 0
            &&& io::refilled(turn.polled, turn.refilled, turn.refilled.room())
            &&& turn.refilled.room().len() == turn.polled.room().len()
            &&& turn.refilled.room().take(len as int) == turn.chunk
            &&& is_run(
                framing,
                turn.refilled,
                ReadEvent::Read(len as usize),
                unread.skip(len as int),
                turns.skip(1),
            )
        } else {
            is_run(framing, turn.polled, ReadEvent::Begin, unread, turns.skip(1))
        }
    }
}

/// What was handed out: messages, the end of the stream, failures.
pub open spec fn outcomes(turns: Seq<Turn>) -> Seq<ReadStepView>
    decreases turns.len(),
{
    if turns.len() == 0 {
        Seq::empty()
    } else if turns[0].step is Read {
        outcomes(turns.skip(1))
    } else {
        seq![turns[0].step@] + outcomes(turns.skip(1))
    }
}

/// What is said of a frame that is larger than the limit.
pub open spec fn refusal(limit: usize) -> ReadStepView {
    ReadStepView::Fail(
        TransportErrorView::Frame(
            "frame exceeds max size of "@ + numeral::decimal(limit as int) + " bytes"@,
        ),
    )
}

/// What asking for a message comes to, time and again, when there are no more messages but only a
/// tail. Where the end of the stream ends a frame, a tail that is not empty is the last message;
/// else it is a frame that was cut off.
pub open spec fn expected_of_tail<F: Framing>(
    framing: F,
    limit: usize,
    tail: Seq<u8>,
    i: int,
) -> ReadStepView {
    if limit > 0 && tail.len() > limit {
        refusal(limit)
    } else if tail.len() == 0 {
        ReadStepView::End
    } else if !framing.eof_ends_frame() {
        ReadStepView::Fail(TransportErrorView::Frame("stream closed mid-frame"@))
    } else if i <= 0 {
        ReadStepView::Deliver(tail)
    } else {
        ReadStepView::End
    }
}

/// What asking for the i-th message of a stream comes to: the messages in order, then what the end
/// of the stream makes of the tail, then the end again and again. A frame that is larger than the
/// limit is refused, and nothing behind it is handed out.
pub open spec fn expected<F: Framing>(
    framing: F,
    limit: usize,
    messages: Seq<Seq<u8>>,
    tail: Seq<u8>,
    i: int,
) -> ReadStepView
    decreases messages.len(),
{
    if messages.len() > 0 {
        if limit > 0 && framing.encoded(messages[0]).len() > limit {
            refusal(limit)
        } else if i <= 0 {
            ReadStepView::Deliver(messages[0])
        } else {
            expected(framing, limit, messages.skip(1), tail, i - 1)
        }
    } else {
        expected_of_tail(framing, limit, tail, i)
    }
}

/// The messages of a stream are handed out unchanged, each once and in order, however the reads cut
/// the stream; then comes what its end makes of the tail. Asking for a message comes to an end: the
/// calls that only say that more is to be read are no more than the bytes of the stream and the
/// answers together.
pub proof fn law_streams_are_received<F: Framing>(
    framing: F,
    reader: ReadCore,
    messages: Seq<Seq<u8>>,
    tail: Seq<u8>,
    unread: Seq<u8>,
    turns: Seq<Turn>,
)
    requires
        carries_all(framing, messages, tail),
        reader.received() + unread == stream_of(framing, messages, tail),
        is_run(framing, reader, ReadEvent::Begin, unread, turns),
    ensures
        forall|i: int|
            0 <= i < outcomes(turns).len() ==> #[trigger] outcomes(turns)[i] == expected(
                framing,
                reader.limit(),
                messages,
                tail,
                i,
            ),
        turns.len() <= 2 * outcomes(turns).len() + unread.len() + 1,
{
    lemma_run(framing, reader, ReadEvent::Begin, messages, tail, unread, turns);
}

/// Whether what was received is known to be too little for a message, and within the limit.
pub open spec fn awaits_more<F: Framing>(framing: F, reader: ReadCore) -> bool {
    &&& is_incomplete(framing, reader.received())
    &&& reader.limit() == 0 || reader.received().len() <= reader.limit()
}

proof fn lemma_run<F: Framing>(
    framing: F,
    reader: ReadCore,
    event: ReadEvent,
    messages: Seq<Seq<u8>>,
    tail: Seq<u8>,
    unread: Seq<u8>,
    turns: Seq<Turn>,
)
    requires
        carries_all(framing, messages, tail),
        io::arrived(reader.received(), reader.room(), event) + unread == stream_of(
            framing,
            messages,
            tail,
        ),
        event is Begin || event is Read,
        event matches ReadEvent::Read(n) ==> n <= reader.room().len() && (n == 0 ==> unread.len()
            == 0 && awaits_more(framing, reader)),
        is_run(framing, reader, event, unread, turns),
    ensures
        forall|i: int|
            0 <= i < outcomes(turns).len() ==> #[trigger] outcomes(turns)[i] == expected(
                framing,
                reader.limit(),
                messages,
                tail,
                i,
            ),
        turns.len() <= 2 * outcomes(turns).len() + unread.len() + if event == ReadEvent::Read(0) {
            0int
        } else {
            1int
        },
    decreases turns.len(), 1int,
{
    if turns.len() == 0 {
        return;
    }
    let turn = turns[0];
    let rest = turns.skip(1);
    let limit = reader.limit();
    let arrived = io::arrived(reader.received(), reader.room(), event);
    let stream = stream_of(framing, messages, tail);
    assert(stream.take(arrived.len() as int) =~= arrived);
    if event == ReadEvent::Read(0) {
        assert(unread =~= Seq::<u8>::empty());
        assert(arrived + unread =~= arrived);
        lemma_at_end(framing, reader, messages, tail, turns);
    } else if turn.step is Read {
        let len = turn.chunk.len() as int;
        assert(len <= io::CHUNK_SIZE);
        assert(turn.refilled.received() + turn.chunk + unread.skip(len) =~= arrived + unread);
        lemma_run(
            framing,
            turn.refilled,
            ReadEvent::Read(len as usize),
            messages,
            tail,
            unread.skip(len),
            rest,
        );
    } else if messages.len() > 0 && arrived.len() >= framing.encoded(messages[0]).len() && (limit
        == 0 || framing.encoded(messages[0]).len() <= limit) {
        let frame = framing.encoded(messages[0]);
        let others = messages.skip(1);
        assert(turn.polled.received() == arrived.skip(frame.len() as int));
        assert(turn.polled.received() + unread =~= stream.skip(frame.len() as int));
        assert(stream.skip(frame.len() as int) =~= stream_of(framing, others, tail));
        lemma_run(framing, turn.polled, ReadEvent::Begin, others, tail, unread, rest);
        lemma_first(framing, limit, messages, tail, turns);
    } else {
        assert(turn.step@ == refusal(limit));
        lemma_run(framing, turn.polled, ReadEvent::Begin, messages, tail, unread, rest);
        lemma_again(framing, limit, messages, tail, turns);
    }
}

/// After a first message, what is handed out is what is expected of the others.
proof fn lemma_first<F: Framing>(
    framing: F,
    limit: usize,
    messages: Seq<Seq<u8>>,
    tail: Seq<u8>,
    turns: Seq<Turn>,
)
    requires
        turns.len() > 0,
        messages.len() > 0,
        turns[0].step@ == ReadStepView::Deliver(messages[0]),
        limit == 0 || framing.encoded(messages[0]).len() <= limit,
        forall|i: int|
            0 <= i < outcomes(turns.skip(1)).len() ==> #[trigger] outcomes(turns.skip(1))[i]
                == expected(framing, limit, messages.skip(1), tail, i),
    ensures
        forall|i: int|
            0 <= i < outcomes(turns).len() ==> #[trigger] outcomes(turns)[i] == expected(
                framing,
                limit,
                messages,
                tail,
                i,
            ),
{
    assert forall|i: int| 0 <= i < outcomes(turns).len() implies #[trigger] outcomes(turns)[i]
        == expected(framing, limit, messages, tail, i) by {
        if i > 0 {
            assert(outcomes(turns)[i] == outcomes(turns.skip(1))[i - 1]);
        }
    }
}

/// Where the same is expected again and again, it is what was handed out first.
proof fn lemma_again<F: Framing>(
    framing: F,
    limit: usize,
    messages: Seq<Seq<u8>>,
    tail: Seq<u8>,
    turns: Seq<Turn>,
)
    requires
        turns.len() > 0,
        !(turns[0].step is Read),
        forall|i: int|
            0 <= i ==> turns[0].step@ == #[trigger] expected(framing, limit, messages, tail, i),
        forall|i: int|
            0 <= i < outcomes(turns.skip(1)).len() ==> #[trigger] outcomes(turns.skip(1))[i]
                == expected(framing, limit, messages, tail, i),
    ensures
        forall|i: int|
            0 <= i < outcomes(turns).len() ==> #[trigger] outcomes(turns)[i] == expected(
                framing,
                limit,
                messages,
                tail,
                i,
            ),
{
    assert forall|i: int| 0 <= i < outcomes(turns).len() implies #[trigger] outcomes(turns)[i]
        == expected(framing, limit, messages, tail, i) by {
        if i > 0 {
            assert(outcomes(turns)[i] == outcomes(turns.skip(1))[i - 1]);
            assert(turns[0].step@ == expected(framing, limit, messages, tail, i - 1));
        }
        assert(turns[0].step@ == expected(framing, limit, messages, tail, i));
    }
}

/// The end of the stream.
proof fn lemma_at_end<F: Framing>(
    framing: F,
    reader: ReadCore,
    messages: Seq<Seq<u8>>,
    tail: Seq<u8>,
    turns: Seq<Turn>,
)
    requires
        carries_all(framing, messages, tail),
        io::arrived(reader.received(), reader.room(), ReadEvent::Read(0)) == stream_of(
            framing,
            messages,
            tail,
        ),
        awaits_more(framing, reader),
        turns.len() > 0,
        is_run(framing, reader, ReadEvent::Read(0), Seq::empty(), turns),
    ensures
        forall|i: int|
            0 <= i < outcomes(turns).len() ==> #[trigger] outcomes(turns)[i] == expected(
                framing,
                reader.limit(),
                messages,
                tail,
                i,
            ),
        turns.len() <= 2 * outcomes(turns).len(),
    decreases turns.len(), 0int,
{
    let received = reader.received();
    let turn = turns[0];
    let rest = turns.skip(1);
    let none = Seq::<Seq<u8>>::empty();
    assert(io::arrived(received, reader.room(), ReadEvent::Read(0)) =~= received);
    assert(received.take(received.len() as int) =~= received);
    assert(messages =~= none);
    assert(tail == received);
    assert(turn.polled.received() + Seq::<u8>::empty() =~= turn.polled.received());
    if received.len() > 0 && framing.eof_ends_frame() {
        assert(tail.take(0) =~= Seq::<u8>::empty());
        assert forall|k: int| 0 <= k <= Seq::<u8>::empty().len() implies is_incomplete(
            framing,
            #[trigger] Seq::<u8>::empty().take(k),
        ) by {
            assert(Seq::<u8>::empty().take(k) =~= tail.take(0));
        }
        lemma_run(
            framing,
            turn.polled,
            ReadEvent::Begin,
            none,
            Seq::empty(),
            Seq::empty(),
            rest,
        );
        assert forall|i: int| 0 <= i < outcomes(turns).len() implies #[trigger] outcomes(turns)[i]
            == expected(framing, reader.limit(), messages, tail, i) by {
            if i > 0 {
                assert(outcomes(turns)[i] == outcomes(rest)[i - 1]);
            }
        }
    } else {
        lemma_run(framing, turn.polled, ReadEvent::Begin, none, tail, Seq::empty(), rest);
        lemma_again(framing, reader.limit(), messages, tail, turns);
    }
}

/// What a connection has staged for messages, one after the other: each call of `stage` leaves the
/// frame of its message to be written.
pub open spec fn staged_in_turn<T, F: Framing>(
    framing: F,
    sender: Seq<FramedConn<T, F>>,
    messages: Seq<Seq<u8>>,
) -> bool {
    &&& sender.len() == messages.len()
    &&& forall|i: int|
        0 <= i < sender.len() ==> #[trigger] sender[i].staged() == framing.encoded(messages[i])
}

/// The bytes that are written when each frame is written as it was staged.
pub open spec fn written<T, F: Framing>(sender: Seq<FramedConn<T, F>>) -> Seq<u8>
    decreases sender.len(),
{
    if sender.len() == 0 {
        Seq::empty()
    } else {
        sender[0].staged() + written(sender.skip(1))
    }
}

/// What was staged in turn is a stream of the messages.
proof fn lemma_written<T, F: Framing>(
    framing: F,
    sender: Seq<FramedConn<T, F>>,
    messages: Seq<Seq<u8>>,
)
    requires
        staged_in_turn(framing, sender, messages),
    ensures
        written(sender) == stream_of(framing, messages, Seq::empty()),
    decreases sender.len(),
{
    if sender.len() > 0 {
        assert forall|i: int| 0 <= i < sender.skip(1).len() implies #[trigger] sender.skip(
            1,
        )[i].staged() == framing.encoded(messages.skip(1)[i]) by {
            assert(sender.skip(1)[i] == sender[i + 1]);
        }
        lemma_written(framing, sender.skip(1), messages.skip(1));
    }
}

/// Whether frames of messages are within a limit.
pub open spec fn are_within<F: Framing>(
    framing: F,
    limit: usize,
    messages: Seq<Seq<u8>>,
) -> bool {
    limit == 0 || forall|i: int|
        0 <= i < messages.len() ==> framing.encoded(#[trigger] messages[i]).len() <= limit
}

/// Within the limit, what is expected of a stream is its messages, and then what is expected of its
/// tail.
proof fn lemma_expected<F: Framing>(
    framing: F,
    limit: usize,
    messages: Seq<Seq<u8>>,
    tail: Seq<u8>,
    i: int,
)
    requires
        are_within(framing, limit, messages),
        0 <= i,
    ensures
        expected(framing, limit, messages, tail, i) == if i < messages.len() {
            ReadStepView::Deliver(messages[i])
        } else {
            expected_of_tail(framing, limit, tail, i - messages.len())
        },
    decreases messages.len(),
{
    if messages.len() > 0 && i > 0 {
        let others = messages.skip(1);
        assert forall|j: int| 0 <= j < others.len() && limit > 0 implies framing.encoded(
            #[trigger] others[j],
        ).len() <= limit by {
            assert(others[j] == messages[j + 1]);
        }
        lemma_expected(framing, limit, others, tail, i - 1);
    } else if messages.len() > 0 {
        assert(framing.encoded(messages[0]).len() >= 0);
    }
}

/// Whether what was handed out are messages, and then the end of the stream.
pub open spec fn are_messages(outcomes: Seq<ReadStepView>, messages: Seq<Seq<u8>>) -> bool {
    forall|i: int|
        0 <= i < outcomes.len() ==> #[trigger] outcomes[i] == if i < messages.len() {
            ReadStepView::Deliver(messages[i])
        } else {
            ReadStepView::End
        }
}

/// If no frame is larger than the limit, a reader hands out every message of a stream, in order and
/// unchanged, however the reads cut the stream, and then its end.
pub proof fn law_messages_are_received<F: Framing>(
    framing: F,
    reader: ReadCore,
    messages: Seq<Seq<u8>>,
    turns: Seq<Turn>,
)
    requires
        carries_all(framing, messages, Seq::empty()),
        are_within(framing, reader.limit(), messages),
        reader.received() == Seq::<u8>::empty(),
        is_run(
            framing,
            reader,
            ReadEvent::Begin,
            stream_of(framing, messages, Seq::empty()),
            turns,
        ),
    ensures
        are_messages(outcomes(turns), messages),
        turns.len() <= 2 * outcomes(turns).len() + stream_of(
            framing,
            messages,
            Seq::empty(),
        ).len() + 1,
{
    let stream = stream_of(framing, messages, Seq::empty());
    assert(reader.received() + stream =~= stream);
    law_streams_are_received(framing, reader, messages, Seq::empty(), stream, turns);
    assert forall|i: int| 0 <= i < outcomes(turns).len() implies #[trigger] outcomes(turns)[i]
        == if i < messages.len() {
        ReadStepView::Deliver(messages[i])
    } else {
        ReadStepView::End
    } by {
        lemma_expected(framing, reader.limit(), messages, Seq::empty(), i);
    }
}

/// What one end of a connection sends, the other receives: the messages in order and unchanged,
/// however the bytes are cut on their way, and then the end of the stream. The frames must be
/// within the receiver's limit.
pub proof fn law_connections_deliver<S, T, F: Framing>(
    framing: F,
    sender: Seq<FramedConn<S, F>>,
    receiver: FramedConn<T, F>,
    messages: Seq<Seq<u8>>,
    turns: Seq<Turn>,
)
    requires
        staged_in_turn(framing, sender, messages),
        carries_all(framing, messages, Seq::empty()),
        are_within(framing, receiver.reading().limit(), messages),
        receiver.framing() == framing,
        receiver.reading().received() == Seq::<u8>::empty(),
        is_run(framing, receiver.reading(), ReadEvent::Begin, written(sender), turns),
    ensures
        are_messages(outcomes(turns), messages),
        turns.len() <= 2 * outcomes(turns).len() + written(sender).len() + 1,
{
    lemma_written(framing, sender, messages);
    law_messages_are_received(framing, receiver.reading(), messages, turns);
}

/// Netstrings carry any messages over a connection.
pub proof fn law_netstring_connections_deliver<S, T>(
    sender: Seq<FramedConn<S, Netstring>>,
    receiver: FramedConn<T, Netstring>,
    messages: Seq<Seq<u8>>,
    turns: Seq<Turn>,
)
    requires
        staged_in_turn(Netstring, sender, messages),
        forall|i: int|
            0 <= i < messages.len() ==> Netstring.encoded(#[trigger] messages[i]).len()
                <= usize::MAX,
        are_within(Netstring, receiver.reading().limit(), messages),
        receiver.reading().received() == Seq::<u8>::empty(),
        is_run(Netstring, receiver.reading(), ReadEvent::Begin, written(sender), turns),
    ensures
        are_messages(outcomes(turns), messages),
{
    numeral::lemma_decimal(0);
    law_netstrings_carry_all(messages, Seq::empty(), 0);
    assert(Netstring.encoded(Seq::empty()).take(0) =~= Seq::<u8>::empty());
    law_connections_deliver(Netstring, sender, receiver, messages, turns);
}

/// Lines carry messages without a newline over a connection.
pub proof fn law_line_connections_deliver<S, T>(
    sender: Seq<FramedConn<S, Newline>>,
    receiver: FramedConn<T, Newline>,
    messages: Seq<Seq<u8>>,
    turns: Seq<Turn>,
)
    requires
        staged_in_turn(Newline, sender, messages),
        forall|i: int| 0 <= i < messages.len() ==> !(#[trigger] messages[i]).contains(10u8),
        are_within(Newline, receiver.reading().limit(), messages),
        receiver.reading().received() == Seq::<u8>::empty(),
        is_run(Newline, receiver.reading(), ReadEvent::Begin, written(sender), turns),
    ensures
        are_messages(outcomes(turns), messages),
{
    law_lines_carry_all(messages, Seq::empty());
    law_connections_deliver(Newline, sender, receiver, messages, turns);
}

/// Whether what was handed out are messages, then a last one that only the end of the stream has
/// ended, and then the end of the stream.
pub open spec fn are_messages_and_tail(
    outcomes: Seq<ReadStepView>,
    messages: Seq<Seq<u8>>,
    tail: Seq<u8>,
) -> bool {
    forall|i: int|
        0 <= i < outcomes.len() ==> #[trigger] outcomes[i] == if i < messages.len() {
            ReadStepView::Deliver(messages[i])
        } else if i == messages.len() {
            ReadStepView::Deliver(tail)
        } else {
            ReadStepView::End
        }
}

/// Where the end of the stream ends a frame, a tail that is not empty and within the limit is
/// handed out behind the messages, whole and unchanged, and then comes the end of the stream.
pub proof fn law_tails_are_delivered<F: Framing>(
    framing: F,
    reader: ReadCore,
    messages: Seq<Seq<u8>>,
    tail: Seq<u8>,
    turns: Seq<Turn>,
)
    requires
        framing.eof_ends_frame(),
        carries_all(framing, messages, tail),
        are_within(framing, reader.limit(), messages),
        tail.len() > 0,
        reader.limit() == 0 || tail.len() <= reader.limit(),
        reader.received() == Seq::<u8>::empty(),
        is_run(framing, reader, ReadEvent::Begin, stream_of(framing, messages, tail), turns),
    ensures
        are_messages_and_tail(outcomes(turns), messages, tail),
        turns.len() <= 2 * outcomes(turns).len() + stream_of(framing, messages, tail).len() + 1,
{
    let stream = stream_of(framing, messages, tail);
    assert(reader.received() + stream =~= stream);
    law_streams_are_received(framing, reader, messages, tail, stream, turns);
    assert forall|i: int| 0 <= i < outcomes(turns).len() implies #[trigger] outcomes(turns)[i]
        == if i < messages.len() {
        ReadStepView::Deliver(messages[i])
    } else if i == messages.len() {
        ReadStepView::Deliver(tail)
    } else {
        ReadStepView::End
    } by {
        lemma_expected(framing, reader.limit(), messages, tail, i);
    }
}

/// A last line that is ended by the end of the stream alone is handed out like the others.
pub proof fn law_last_lines_are_delivered(
    reader: ReadCore,
    messages: Seq<Seq<u8>>,
    tail: Seq<u8>,
    turns: Seq<Turn>,
)
    requires
        forall|i: int| 0 <= i < messages.len() ==> !(#[trigger] messages[i]).contains(10u8),
        !tail.contains(10u8),
        tail.len() > 0,
        are_within(Newline, reader.limit(), messages),
        reader.limit() == 0 || tail.len() <= reader.limit(),
        reader.received() == Seq::<u8>::empty(),
        is_run(Newline, reader, ReadEvent::Begin, stream_of(Newline, messages, tail), turns),
    ensures
        are_messages_and_tail(outcomes(turns), messages, tail),
{
    law_lines_carry_all(messages, tail);
    law_tails_are_delivered(Newline, reader, messages, tail, turns);
}

/// A netstring that is cut off by the end of the stream is not handed out: it is a failure.
pub proof fn law_cut_netstrings_fail(
    reader: ReadCore,
    messages: Seq<Seq<u8>>,
    last: Seq<u8>,
    cut: int,
    turns: Seq<Turn>,
)
    requires
        forall|i: int|
            0 <= i < messages.len() ==> Netstring.encoded(#[trigger] messages[i]).len()
                <= usize::MAX,
        Netstring.encoded(last).len() <= usize::MAX,
        0 < cut < Netstring.encoded(last).len(),
        are_within(Netstring, reader.limit(), messages),
        reader.limit() == 0 || cut <= reader.limit(),
        reader.received() == Seq::<u8>::empty(),
        is_run(
            Netstring,
            reader,
            ReadEvent::Begin,
            stream_of(Netstring, messages, Netstring.encoded(last).take(cut)),
            turns,
        ),
    ensures
        forall|i: int|
            0 <= i < outcomes(turns).len() ==> #[trigger] outcomes(turns)[i] == if i
                < messages.len() {
                ReadStepView::Deliver(messages[i])
            } else {
                ReadStepView::Fail(TransportErrorView::Frame("stream closed mid-frame"@))
            },
{
    let tail = Netstring.encoded(last).take(cut);
    let stream = stream_of(Netstring, messages, tail);
    law_netstrings_carry_all(messages, last, cut);
    assert(reader.received() + stream =~= stream);
    law_streams_are_received(Netstring, reader, messages, tail, stream, turns);
    assert forall|i: int| 0 <= i < outcomes(turns).len() implies #[trigger] outcomes(turns)[i]
        == if i < messages.len() {
        ReadStepView::Deliver(messages[i])
    } else {
        ReadStepView::Fail(TransportErrorView::Frame("stream closed mid-frame"@))
    } by {
        lemma_expected(Netstring, reader.limit(), messages, tail, i);
    }
}

/// The end of a stream, as a reader takes it: if nothing is left of what was received, it is the
/// end. Else, if the end of the stream ends a frame, all that is left is handed out, unchanged, and
/// nothing is kept; and if not, it is kept and the frame counts as cut off.
pub proof fn law_streams_end<F: Framing>(
    before: ReadCore,
    framing: F,
    after: ReadCore,
    step: ReadStep,
)
    requires
        io::polled(before, framing, ReadEvent::Read(0), after, step),
    ensures
        before.received().len() == 0 ==> step is End && after.received() == before.received(),
        before.received().len() > 0 && framing.eof_ends_frame() ==> step@ == ReadStepView::Deliver(
            before.received(),
        ) && after.received() == Seq::<u8>::empty(),
        before.received().len() > 0 && !framing.eof_ends_frame() ==> step@ == ReadStepView::Fail(
            TransportErrorView::Frame("stream closed mid-frame"@),
        ) && after.received() == before.received(),
{
    assert(before.received() + io::front(before.room(), 0) =~= before.received());
}

/// A read that fails or takes too long is reported, and nothing that was received is lost by it:
/// the next message can be asked for again.
pub proof fn law_failures_keep_what_was_received<F: Framing>(
    before: ReadCore,
    framing: F,
    event: ReadEvent,
    after: ReadCore,
    step: ReadStep,
)
    requires
        io::polled(before, framing, event, after, step),
    ensures
        event matches ReadEvent::Failed(error) ==> step@ == ReadStepView::Fail(
            TransportErrorView::Io(error),
        ) && after.received() == before.received(),
        event matches ReadEvent::TimedOut(elapsed) ==> step@ == ReadStepView::Fail(
            TransportErrorView::Frame("read timed out after "@ + elapsed.shown()),
        ) && after.received() == before.received(),
{
}

/// No byte is lost or made up between reads: what was received, with the bytes that the last read
/// has brought, is what was handed out and what is kept. A message is handed out only with a frame
/// of its own within the limit; more is read only if no message is complete and the limit is not
/// passed, within the time that the reader allows and into room that is not empty.
pub proof fn law_bytes_are_kept<F: Framing>(
    before: ReadCore,
    framing: F,
    n: usize,
    after: ReadCore,
    step: ReadStep,
)
    requires
        0 < n <= before.room().len(),
        io::polled(before, framing, ReadEvent::Read(n), after, step),
    ensures
        ({
            let arrived = before.received() + before.room().take(n as int);
            let limit = before.limit();
            match step@ {
                ReadStepView::Deliver(message) => exists|consumed: nat|
                    {
                        &&& framing.decoded(arrived) == Ok::<_, TransportErrorView>(
                            Some((message, consumed)),
                        )
                        &&& limit == 0 || consumed <= limit
                        &&& after.received() == #[trigger] arrived.skip(consumed as int)
                    },
                ReadStepView::Read(timeout) => {
                    &&& is_incomplete(framing, arrived)
                    &&& limit == 0 || arrived.len() <= limit
                    &&& timeout == before.timeout()
                    &&& after.received() == arrived
                    &&& arrived.len() + 4096 <= usize::MAX ==> after.room().len() == 4096
                    &&& arrived.len() < usize::MAX ==> after.room().len() > 0
                },
                ReadStepView::Fail(error) => {
                    &&& after.received() == arrived
                    &&& match framing.decoded(arrived) {
                        Err(cause) => error == cause,
                        Ok(Some((_, consumed))) => 0 < limit < consumed && step@ == refusal(limit),
                        Ok(None) => 0 < limit < arrived.len() && step@ == refusal(limit),
                    }
                },
                ReadStepView::End => false,
            }
        }),
        after.limit() == before.limit(),
        after.timeout() == before.timeout(),
{
    let arrived = before.received() + before.room().take(n as int);
    if let Ok(Some((message, consumed))) = framing.decoded(arrived) {
        if step is Deliver {
            assert(after.received() == arrived.skip(consumed as int));
        }
    }
}

/// Taking what became of a read never changes the limits, and leaves room exactly if more is to be
/// read.
pub proof fn law_limits_stay<F: Framing>(
    before: ReadCore,
    framing: F,
    event: ReadEvent,
    after: ReadCore,
    step: ReadStep,
)
    requires
        io::polled(before, framing, event, after, step),
    ensures
        after.limit() == before.limit(),
        after.timeout() == before.timeout(),
        step@ matches ReadStepView::Read(timeout) ==> timeout == before.timeout(),
        !(step is Read) ==> after.room().len() == 0,
{
}

/// Filling the room for a read changes nothing else.
pub proof fn law_refilling(before: ReadCore, after: ReadCore, room: Seq<u8>)
    ensures
        io::refilled(before, after, room) <==> {
            &&& after.room() == room
            &&& after.received() == before.received()
            &&& after.limit() == before.limit()
            &&& after.timeout() == before.timeout()
        },
{
}

/// Asking for a message when nothing was read does what a read of those bytes would have done.
pub proof fn law_asking_is_reading<F: Framing>(
    before: ReadCore,
    framing: F,
    after: ReadCore,
    step: ReadStep,
    other: ReadCore,
    n: usize,
    other_after: ReadCore,
    other_step: ReadStep,
)
    requires
        io::polled(before, framing, ReadEvent::Begin, after, step),
        0 < n <= other.room().len(),
        io::polled(other, framing, ReadEvent::Read(n), other_after, other_step),
        before.received() == other.received() + other.room().take(n as int),
        before.limit() == other.limit(),
        before.timeout() == other.timeout(),
    ensures
        step@ == other_step@,
        after.received() == other_after.received(),
        after.room() == other_after.room(),
{
}

/// Whether a text is what a decimal numeral looks like: digits, the first of which is a zero only
/// if it is the only one.
pub open spec fn is_numeral(s: Seq<u8>) -> bool {
    &&& s.len() > 0
    &&& forall|i: int| 0 <= i < s.len() ==> 48 <= #[trigger] s[i] <= 57
    &&& s[0] == 48 ==> s.len() == 1
}

/// What looks like a numeral is the numeral of the number that its digits stand for.
proof fn lemma_numeral(s: Seq<u8>)
    requires
        is_numeral(s),
    ensures
        s == numeral::decimal_bytes(numeral::number(s) as int),
    decreases s.len(),
{
    let n = numeral::number(s);
    numeral::lemma_digits(n);
    is_ascii_chars_encode_utf8(numeral::digits(n));
    let front = s.drop_last();
    if s.len() == 1 {
        assert(numeral::number(front) == 0);
        assert(encode_utf8(numeral::digits(n)) =~= s);
    } else {
        lemma_numeral(front);
        let m = numeral::number(front);
        numeral::lemma_decimal(m as int);
        assert(front[0] == s[0]);
        assert(m > 0) by {
            if m == 0 {
                is_ascii_chars_encode_utf8(numeral::digits(0));
            }
        }
        assert(n / 10 == m);
        numeral::lemma_digits(m);
        is_ascii_chars_encode_utf8(numeral::digits(m));
        assert(encode_utf8(numeral::digits(n)) =~= s);
    }
}

/// The frame of a message, byte by byte: a line is the message and a newline; a netstring is the
/// number of bytes, a colon, the message and a comma.
pub proof fn law_frames(payload: Seq<u8>)
    ensures
        Newline.encoded(payload) == payload.push(10),
        ({
            let digits = numeral::decimal_bytes(payload.len() as int);
            let frame = Netstring.encoded(payload);
            &&& frame.len() == digits.len() + payload.len() + 2
            &&& frame.take(digits.len() as int) == digits
            &&& frame[digits.len() as int] == 58
            &&& frame.subrange(digits.len() as int + 1, frame.len() - 1) == payload
            &&& frame.last() == 44
        }),
{
    let digits = numeral::decimal_bytes(payload.len() as int);
    let frame = Netstring.encoded(payload);
    assert(Newline.encoded(payload) =~= payload.push(10));
    assert(frame.take(digits.len() as int) =~= digits);
    assert(frame.subrange(digits.len() as int + 1, frame.len() - 1) =~= payload);
}

/// The end of the stream ends a line, but no netstring.
pub proof fn law_ends_of_frames()
    ensures
        Newline.eof_ends_frame(),
        !Netstring.eof_ends_frame(),
{
}

/// What is decoded of lines is what is before the first newline; without a newline, nothing. Lines
/// are never in violation of the framing.
pub proof fn law_lines_are_decoded(src: Seq<u8>)
    ensures
        match Newline.decoded(src) {
            Ok(Some((message, consumed))) => {
                &&& consumed == message.len() + 1
                &&& consumed <= src.len()
                &&& src.take(consumed as int) == message.push(10)
                &&& !message.contains(10u8)
            },
            Ok(None) => !src.contains(10u8),
            Err(_) => false,
        },
{
    src.index_of_first_ensures(10u8);
    if let Ok(Some((message, consumed))) = Newline.decoded(src) {
        assert(src.take(consumed as int) =~= message.push(10));
    }
}

/// What is decoded of netstrings stands there as a frame.
pub proof fn law_netstrings_are_decoded(src: Seq<u8>)
    ensures
        Netstring.decoded(src) matches Ok(Some((message, consumed))) ==> {
            &&& consumed == Netstring.encoded(message).len()
            &&& consumed <= src.len()
            &&& src.take(consumed as int) == Netstring.encoded(message)
        },
{
    src.index_of_first_ensures(58u8);
    if let Ok(Some((message, consumed))) = Netstring.decoded(src) {
        let colon = src.index_of_first(58u8)->0;
        let prefix = src.take(colon);
        assert(is_numeral(prefix)) by {
            assert forall|i: int| 0 <= i < prefix.len() implies 48 <= #[trigger] prefix[i]
                <= 57 by {
                assert(numeral::is_digit(prefix[i]));
            }
        }
        lemma_numeral(prefix);
        assert(src.take(consumed as int) =~= Netstring.encoded(message));
    }
}

/// Without a colon, a netstring is incomplete as long as its length could still be to come, which
/// has twenty digits at most.
pub proof fn law_netstring_prefixes(src: Seq<u8>)
    requires
        !src.contains(58u8),
    ensures
        Netstring.decoded(src) == if src.len() <= 20 {
            Ok(None)
        } else {
            Err::<Option<(Seq<u8>, nat)>, TransportErrorView>(
                TransportErrorView::Frame("netstring length prefix too long"@),
            )
        },
{
    src.index_of_first_ensures(58u8);
}

/// A colon behind anything but the numeral of a length is in violation of netstrings.
pub proof fn law_netstring_lengths(prefix: Seq<u8>, rest: Seq<u8>)
    requires
        !prefix.contains(58u8),
        forall|n: usize| prefix != #[trigger] numeral::decimal_bytes(n as int),
    ensures
        Netstring.decoded(prefix + seq![58u8] + rest) == Err::<
            Option<(Seq<u8>, nat)>,
            TransportErrorView,
        >(TransportErrorView::Frame("invalid netstring length"@)),
{
    let src = prefix + seq![58u8] + rest;
    let colon = prefix.len() as int;
    lemma_colon(prefix, rest);
    if transport::prefix_length(prefix) is Some {
        assert(is_numeral(prefix)) by {
            assert forall|i: int| 0 <= i < prefix.len() implies 48 <= #[trigger] prefix[i]
                <= 57 by {
                assert(numeral::is_digit(prefix[i]));
            }
        }
        lemma_numeral(prefix);
        let n = numeral::number(prefix) as usize;
        assert(prefix == numeral::decimal_bytes(n as int));
    }
}

/// The first colon behind a text that has none.
proof fn lemma_colon(prefix: Seq<u8>, rest: Seq<u8>)
    requires
        !prefix.contains(58u8),
    ensures
        (prefix + seq![58u8] + rest).index_of_first(58u8) == Some(prefix.len() as int),
        (prefix + seq![58u8] + rest).take(prefix.len() as int) == prefix,
{
    let src = prefix + seq![58u8] + rest;
    assert forall|j: int| 0 <= j < prefix.len() implies src[j] != 58 by {
        assert(src[j] == prefix[j]);
    }
    transport::lemma_first_place(src, 58, prefix.len() as int);
    assert(src.take(prefix.len() as int) =~= prefix);
}

/// Behind the numeral of a length and a colon, so many bytes and a comma must follow. A length for
/// which a frame could not be held is in violation of the framing.
pub proof fn law_netstring_bodies(n: usize, rest: Seq<u8>)
    ensures
        ({
            let prefix = numeral::decimal_bytes(n as int);
            let decoded = Netstring.decoded(prefix + seq![58u8] + rest);
            if prefix.len() + 1 + n > usize::MAX {
                decoded == Err::<Option<(Seq<u8>, nat)>, TransportErrorView>(
                    TransportErrorView::Frame("netstring length overflows usize"@),
                )
            } else if rest.len() <= n {
                decoded matches Ok(None)
            } else if rest[n as int] != 44 {
                decoded == Err::<Option<(Seq<u8>, nat)>, TransportErrorView>(
                    TransportErrorView::Frame("netstring missing trailing comma"@),
                )
            } else {
                decoded == Ok::<_, TransportErrorView>(
                    Some((rest.take(n as int), (prefix.len() + n + 2) as nat)),
                )
            }
        }),
{
    let prefix = numeral::decimal_bytes(n as int);
    let src = prefix + seq![58u8] + rest;
    numeral::lemma_decimal(n as int);
    assert(!prefix.contains(58u8)) by {
        if prefix.contains(58u8) {
            let i = choose|i: int| 0 <= i < prefix.len() && prefix[i] == 58;
            assert(numeral::is_digit(prefix[i]));
        }
    }
    lemma_colon(prefix, rest);
    let end = prefix.len() + 1 + n;
    if rest.len() > n {
        assert(src[end] == rest[n as int]);
        assert(src.subrange(prefix.len() as int + 1, end) =~= rest.take(n as int));
    }
}

/// The limits that hold unless they are set otherwise: a frame may have 16 MiB.
pub proof fn law_default_limit()
    ensures
        io::DEFAULT_MAX_FRAME_SIZE == 16_777_216,
        io::CHUNK_SIZE == 4096,
{
}

} // verus!
