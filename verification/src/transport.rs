//! Framings: how messages are delimited on a stream of bytes.

pub mod io;

use crate::error::TransportError;
use crate::error::TransportErrorView;
use crate::numeral;
use vstd::prelude::*;
use vstd::slice::slice_subrange;
use vstd::slice::slice_to_vec;

verus! {

/// What decoding comes to: a message and the number of bytes that its frame takes, nothing yet,
/// or a failure.
pub type DecodedView = Result<Option<(Seq<u8>, nat)>, TransportErrorView>;

/// The contents of what decoding came to.
pub open spec fn decoded_view(
    decoded: Result<Option<(Vec<u8>, usize)>, TransportError>,
) -> DecodedView {
    match decoded {
        Ok(Some((message, consumed))) => Ok(Some((message@, consumed as nat))),
        Ok(None) => Ok(None),
        Err(error) => Err(error@),
    }
}

/// A framing: how messages are delimited on a stream of bytes.
///
/// A framing does no I/O. It encodes into a buffer and decodes from one.
pub trait Framing {
    /// The frame of a message.
    spec fn encoded(&self, payload: Seq<u8>) -> Seq<u8>;

    /// What decoding the front of a buffer comes to.
    spec fn decoded(&self, src: Seq<u8>) -> DecodedView;

    /// Whether the end of the stream ends a frame.
    spec fn eof_ends_frame(&self) -> bool;

    /// Puts the frame of a message behind what is in `dst`.
    fn encode(&self, payload: &[u8], dst: &mut Vec<u8>)
        ensures
            final(dst)@ == old(dst)@ + self.encoded(payload@),
    ;

    /// Decodes one message from the front of `src`.
    ///
    /// The answer is the message with the number of bytes to be taken from the front of `src`,
    /// or `None` if more bytes are needed.
    fn decode(&self, src: &[u8]) -> (decoded: Result<Option<(Vec<u8>, usize)>, TransportError>)
        ensures
            decoded_view(decoded) == self.decoded(src@),
            decoded matches Ok(Some((_, consumed))) ==> consumed <= src@.len(),
    ;

    /// Whether the end of the stream ends a frame, so that what is buffered then is the last
    /// message. This serves peers that end a message by closing their side of the connection.
    fn take_on_eof(&self) -> (answer: bool)
        ensures
            answer == self.eof_ends_frame(),
    ;
}

/// `memchr::memchr` finds the first place of a byte in a slice, if the byte is there.
pub assume_specification[ memchr::memchr ](needle: u8, haystack: &[u8]) -> (place: Option<usize>)
    ensures
        match place {
            Some(i) => i < haystack@.len() && haystack@[i as int] == needle && forall|j: int|
                0 <= j < i ==> haystack@[j] != needle,
            None => forall|j: int| 0 <= j < haystack@.len() ==> haystack@[j] != needle,
        },
;

/// The first place of a byte, found by what is known of it.
pub(crate) proof fn lemma_first_place(s: Seq<u8>, b: u8, i: int)
    requires
        0 <= i <= s.len(),
        i < s.len() ==> s[i] == b,
        forall|j: int| 0 <= j < i ==> s[j] != b,
    ensures
        s.index_of_first(b) == if i < s.len() {
            Some(i)
        } else {
            None
        },
{
    s.index_of_first_ensures(b);
}

/// Newline-delimited framing: each message is followed by a single `\\n`.
///
/// Messages may not contain a newline; compact JSON does not. A peer may also end its last
/// message by closing its side of the connection.
#[derive(Clone, Copy, Debug, Default)]
pub struct Newline;

impl Framing for Newline {
    open spec fn encoded(&self, payload: Seq<u8>) -> Seq<u8> {
        payload + seq![10u8]
    }

    open spec fn decoded(&self, src: Seq<u8>) -> DecodedView {
        match src.index_of_first(10u8) {
            Some(end) => Ok(Some((src.take(end), (end + 1) as nat))),
            None => Ok(None),
        }
    }

    open spec fn eof_ends_frame(&self) -> bool {
        true
    }

    fn encode(&self, payload: &[u8], dst: &mut Vec<u8>) {
        dst.extend_from_slice(payload);
        dst.push(10);
        assert(dst@ =~= old(dst)@ + self.encoded(payload@));
    }

    fn decode(&self, src: &[u8]) -> (decoded: Result<Option<(Vec<u8>, usize)>, TransportError>) {
        match memchr::memchr(10, src) {
            Some(end) => {
                proof {
                    lemma_first_place(src@, 10, end as int);
                }
                let message = slice_to_vec(slice_subrange(src, 0, end));
                assert(message@ =~= src@.take(end as int));
                assert(end < src.len());
                Ok(Some((message, end + 1)))
            },
            None => {
                proof {
                    lemma_first_place(src@, 10, src@.len() as int);
                }
                Ok(None)
            },
        }
    }

    fn take_on_eof(&self) -> (answer: bool) {
        true
    }
}

/// Netstring framing: `<len>:<payload>,`, the length in decimal digits.
///
/// The length comes first, so that messages may contain any bytes.
#[derive(Clone, Copy, Debug, Default)]
pub struct Netstring;

/// The length that a prefix stands for: the decimal numeral, without a sign and without leading
/// zeros, of a number that a `usize` can hold.
pub open spec fn prefix_length(prefix: Seq<u8>) -> Option<nat> {
    if prefix.len() > 0 && numeral::all_digits(prefix) && (prefix[0] != 48 || prefix.len() == 1)
        && numeral::number(prefix) <= usize::MAX {
        Some(numeral::number(prefix))
    } else {
        None
    }
}

/// A row of digits stands for no less than a part of it from the front.
proof fn lemma_number_grows(s: Seq<u8>, k: int)
    requires
        numeral::all_digits(s),
        0 <= k <= s.len(),
    ensures
        numeral::number(s.take(k)) <= numeral::number(s),
    decreases s.len(),
{
    if k == s.len() {
        assert(s.take(k) =~= s);
    } else {
        assert(s.drop_last().take(k) =~= s.take(k));
        lemma_number_grows(s.drop_last(), k);
    }
}

/// Reads a length prefix.
fn read_prefix(prefix: &[u8]) -> (length: Option<usize>)
    ensures
        match length {
            Some(n) => prefix_length(prefix@) == Some(n as nat),
            None => prefix_length(prefix@) is None,
        },
{
    if prefix.len() == 0 || (prefix[0] == 48 && prefix.len() > 1) {
        return None;
    }
    let mut number: usize = 0;
    let mut i: usize = 0;
    assert(prefix@.take(0) =~= Seq::<u8>::empty());
    while i < prefix.len()
        invariant
            i <= prefix@.len(),
            prefix@.len() > 0,
            prefix@[0] != 48 || prefix@.len() == 1,
            number == numeral::number(prefix@.take(i as int)),
            numeral::all_digits(prefix@.take(i as int)),
        decreases prefix@.len() - i,
    {
        let b: u8 = prefix[i];
        if b < 48 || b > 57 {
            return None;
        }
        proof {
            let done = prefix@.take(i as int);
            let more = prefix@.take(i + 1);
            assert(more.drop_last() =~= done);
            assert(numeral::number(more) == number * 10 + (b - 48));
            if numeral::all_digits(prefix@) {
                lemma_number_grows(prefix@, i + 1);
            }
            assert forall|j: int| 0 <= j < more.len() implies numeral::is_digit(
                #[trigger] more[j],
            ) by {
                if j < done.len() {
                    assert(more[j] == done[j]);
                }
            }
        }
        let digit: usize = (b - 48) as usize;
        let tenfold: usize = match number.checked_mul(10) {
            Some(tenfold) => tenfold,
            None => {
                return None;
            },
        };
        number = match tenfold.checked_add(digit) {
            Some(sum) => sum,
            None => {
                return None;
            },
        };
        i = i + 1;
    }
    assert(prefix@.take(i as int) =~= prefix@);
    Some(number)
}

/// Finds the first place of a byte.
fn find_byte(s: &[u8], b: u8) -> (place: Option<usize>)
    ensures
        match place {
            Some(i) => i < s@.len() && s@.index_of_first(b) == Some(i as int),
            None => s@.index_of_first(b) is None,
        },
{
    let mut i: usize = 0;
    while i < s.len()
        invariant
            i <= s@.len(),
            forall|j: int| 0 <= j < i ==> s@[j] != b,
        decreases s@.len() - i,
    {
        if s[i] == b {
            proof {
                lemma_first_place(s@, b, i as int);
            }
            return Some(i);
        }
        i = i + 1;
    }
    proof {
        lemma_first_place(s@, b, i as int);
    }
    None
}

/// A violation of the framing.
pub open spec fn violation(message: Seq<char>) -> DecodedView {
    Err(TransportErrorView::Frame(message))
}

impl Framing for Netstring {
    open spec fn encoded(&self, payload: Seq<u8>) -> Seq<u8> {
        numeral::decimal_bytes(payload.len() as int) + seq![58u8] + payload + seq![44u8]
    }

    open spec fn decoded(&self, src: Seq<u8>) -> DecodedView {
        match src.index_of_first(58u8) {
            None => if src.len() > 20 {
                violation("netstring length prefix too long"@)
            } else {
                Ok(None)
            },
            Some(colon) => match prefix_length(src.take(colon)) {
                None => violation("invalid netstring length"@),
                Some(length) => {
                    let end = colon + 1 + length;
                    if end > usize::MAX {
                        violation("netstring length overflows usize"@)
                    } else if src.len() <= end {
                        Ok(None)
                    } else if src[end] != 44 {
                        violation("netstring missing trailing comma"@)
                    } else {
                        Ok(Some((src.subrange(colon + 1, end), (end + 1) as nat)))
                    }
                },
            },
        }
    }

    open spec fn eof_ends_frame(&self) -> bool {
        false
    }

    fn encode(&self, payload: &[u8], dst: &mut Vec<u8>) {
        let header = numeral::format_integer(payload.len() as i128);
        dst.extend_from_slice(header.as_str().as_bytes());
        dst.push(58);
        dst.extend_from_slice(payload);
        dst.push(44);
        assert(dst@ =~= old(dst)@ + self.encoded(payload@));
    }

    fn decode(&self, src: &[u8]) -> (decoded: Result<Option<(Vec<u8>, usize)>, TransportError>) {
        let colon: usize = match find_byte(src, 58) {
            Some(colon) => colon,
            None => {
                if src.len() > 20 {
                    return Err(
                        TransportError::Frame("netstring length prefix too long".to_owned()),
                    );
                }
                return Ok(None);
            },
        };
        let prefix = slice_subrange(src, 0, colon);
        assert(prefix@ =~= src@.take(colon as int));
        let length: usize = match read_prefix(prefix) {
            Some(length) => length,
            None => {
                return Err(TransportError::Frame("invalid netstring length".to_owned()));
            },
        };
        assert(colon < src.len());
        let end: usize = match (colon + 1).checked_add(length) {
            Some(end) => end,
            None => {
                return Err(TransportError::Frame("netstring length overflows usize".to_owned()));
            },
        };
        if src.len() <= end {
            return Ok(None);
        }
        if src[end] != 44 {
            return Err(TransportError::Frame("netstring missing trailing comma".to_owned()));
        }
        let message = slice_to_vec(slice_subrange(src, colon + 1, end));
        assert(message@ =~= src@.subrange(colon + 1, end as int));
        Ok(Some((message, end + 1)))
    }

    fn take_on_eof(&self) -> (answer: bool) {
        false
    }
}

} // verus!
