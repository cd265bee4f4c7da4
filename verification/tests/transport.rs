use jasonrpc::client::multiplex::MultiplexError;
use jasonrpc::error::TransportError;
use jasonrpc::integration::websocket::WsError;
use jasonrpc::span::Span;
use jasonrpc::transport::io::{
    FramedConn, FramedReader, FramedWriter, ReadCore, ReadEvent, ReadStep, CHUNK_SIZE,
    DEFAULT_MAX_FRAME_SIZE,
};
use jasonrpc::transport::{Framing, Netstring, Newline};

/// Asks a reader for a message, with reads that bring at most so many bytes.
fn recv<F: Framing>(
    reader: &mut FramedReader<Vec<u8>, F>,
    at_once: usize,
) -> Result<Option<Vec<u8>>, TransportError> {
    let mut event = ReadEvent::Begin;
    loop {
        match reader.poll(event) {
            ReadStep::Read(_) => {
                let (stream, tail) = reader.read_target();
                assert_eq!(tail.len(), CHUNK_SIZE);
                let n = at_once.min(stream.len()).min(tail.len());
                tail[..n].copy_from_slice(&stream[..n]);
                stream.drain(..n);
                event = ReadEvent::Read(n);
            }
            ReadStep::Deliver(message) => return Ok(Some(message)),
            ReadStep::End => return Ok(None),
            ReadStep::Fail(error) => return Err(error),
        }
    }
}

fn frame_message(error: TransportError) -> String {
    match error {
        TransportError::Frame(message) => message,
        _ => panic!("not a framing error"),
    }
}

#[test]
fn transport_round_trip() {
    let f = Netstring;
    let mut buf = Vec::new();
    f.encode(b"hello", &mut buf);
    assert_eq!(buf, b"5:hello,");
    let (msg, consumed) = f.decode(&buf).unwrap().unwrap();
    assert_eq!(msg, b"hello");
    assert_eq!(consumed, buf.len());
}

#[test]
fn round_trip() {
    let f = Newline;
    let mut buf = Vec::new();
    f.encode(b"{}", &mut buf);
    assert_eq!(buf, b"{}\n");
    let (msg, consumed) = f.decode(&buf).unwrap().unwrap();
    assert_eq!(msg, b"{}");
    assert_eq!(consumed, 3);
}

#[test]
fn partial_returns_none() {
    let f = Netstring;
    assert!(f.decode(b"5:hel").unwrap().is_none());
}

#[test]
fn bad_terminator_errors() {
    let f = Netstring;
    assert!(f.decode(b"5:hello!").is_err());
}

#[test]
fn take_on_eof_is_false() {
    assert!(!Netstring.take_on_eof());
}

#[test]
fn encode_appends_newline() {
    let f = Newline;
    let mut dst = Vec::new();
    f.encode(b"hello", &mut dst);
    assert_eq!(dst, b"hello\n");
}

#[test]
fn decode_no_newline_returns_none() {
    let f = Newline;
    assert!(f.decode(b"no_newline_here").unwrap().is_none());
}

#[test]
fn take_on_eof_is_true() {
    assert!(Newline.take_on_eof());
}

#[test]
fn netstring_failures() {
    let cases: [(&[u8], &str); 7] = [
        (b"111111111111111111111", "netstring length prefix too long"),
        (b":x,", "invalid netstring length"),
        (b"+:x,", "invalid netstring length"),
        (b"-1:x,", "invalid netstring length"),
        (b"1x:x,", "invalid netstring length"),
        (b"18446744073709551615:x,", "netstring length overflows usize"),
        (b"1:xy", "netstring missing trailing comma"),
    ];
    for (bytes, message) in cases {
        let error = Netstring.decode(bytes).unwrap_err();
        assert_eq!(frame_message(error), message, "{bytes:?}");
    }
    assert_eq!(
        frame_message(Netstring.decode(b"99999999999999999999999:x,").unwrap_err()),
        "invalid netstring length"
    );
    assert!(Netstring.decode(b"11111111111111111111").unwrap().is_none());
}

#[test]
fn netstring_lengths_are_digits_without_a_sign_and_leading_zeros() {
    assert_eq!(Netstring.decode(b"5:hello,rest").unwrap(), Some((b"hello".to_vec(), 8)));
    assert_eq!(Netstring.decode(b"0:,").unwrap(), Some((Vec::new(), 3)));
    assert_eq!(Netstring.decode(b"10:0123456789,").unwrap().unwrap().1, 14);
    for bad in ["+5:hello,", "05:hello,", "00:,", "+0:,", " 5:hello,"] {
        let error = Netstring.decode(bad.as_bytes()).unwrap_err();
        assert_eq!(frame_message(error), "invalid netstring length", "{bad}");
    }
}

#[test]
fn netstrings_carry_any_bytes_bit_by_bit() {
    let payload: Vec<u8> = (0..=255).collect();
    let mut stream = b"".to_vec();
    Netstring.encode(&payload, &mut stream);
    let len = stream.len();
    stream.extend_from_slice(b"3:abc");
    for arrived in 0..=stream.len() {
        let decoded = Netstring.decode(&stream[..arrived]).unwrap();
        if arrived < len {
            assert_eq!(decoded, None);
        } else {
            assert_eq!(decoded, Some((payload.clone(), len)));
        }
    }
}

#[test]
fn lines_are_decoded_when_they_are_complete() {
    let stream = b"one\ntwo";
    for arrived in 0..=stream.len() {
        let decoded = Newline.decode(&stream[..arrived]).unwrap();
        if arrived < 4 {
            assert_eq!(decoded, None);
        } else {
            assert_eq!(decoded, Some((b"one".to_vec(), 4)));
        }
    }
}

#[test]
fn reader_delivers_on_eof_without_newline() {
    let mut reader = FramedReader::new(b"{\"jsonrpc\":\"2.0\"}".to_vec(), Newline);
    let msg = recv(&mut reader, 4096).unwrap();
    assert_eq!(msg.as_deref(), Some(b"{\"jsonrpc\":\"2.0\"}".as_slice()));
    let done = recv(&mut reader, 4096).unwrap();
    assert!(done.is_none());
}

#[test]
fn reader_empty_eof_returns_none() {
    let mut reader = FramedReader::new(Vec::new(), Newline);
    let msg = recv(&mut reader, 4096).unwrap();
    assert!(msg.is_none());
}

#[test]
fn reader_multiple_newline_frames_then_eof() {
    let mut reader = FramedReader::new(b"{}\n{\"a\":1}\n{\"b\":2}".to_vec(), Newline);
    let msg1 = recv(&mut reader, 4096).unwrap();
    assert_eq!(msg1.as_deref(), Some(b"{}".as_slice()));
    let msg2 = recv(&mut reader, 4096).unwrap();
    assert_eq!(msg2.as_deref(), Some(b"{\"a\":1}".as_slice()));
    let msg3 = recv(&mut reader, 4096).unwrap();
    assert_eq!(msg3.as_deref(), Some(b"{\"b\":2}".as_slice()));
    let done = recv(&mut reader, 4096).unwrap();
    assert!(done.is_none());
}

#[test]
fn framed_writer_send() {
    let mut writer = FramedWriter::new(Vec::<u8>::new(), Newline);
    writer.stage(b"hello");
    {
        let (stream, bytes) = writer.write_source();
        stream.extend_from_slice(bytes);
    }
    writer.stage(b"you");
    let (stream, bytes) = writer.write_source();
    assert_eq!(stream.as_slice(), b"hello\n");
    assert_eq!(bytes, b"you\n");
}

#[test]
fn framed_reader_clean_eof() {
    let mut reader = FramedReader::new(b"{}\n".to_vec(), Newline);
    let msg = recv(&mut reader, 4096).unwrap();
    assert_eq!(msg, Some(b"{}".to_vec()));
    let done = recv(&mut reader, 4096).unwrap();
    assert!(done.is_none());
}

#[test]
fn read_timeout_kills_slow_read() {
    let timeout = Span::from_millis(10);
    let mut reader = FramedReader::new(Vec::<u8>::new(), Newline).with_read_timeout(timeout);
    match reader.poll(ReadEvent::Begin) {
        ReadStep::Read(limit) => assert_eq!(limit, Some(timeout)),
        _ => panic!("expected a read"),
    }
    match reader.poll(ReadEvent::TimedOut(timeout)) {
        ReadStep::Fail(error) => assert_eq!(frame_message(error), "read timed out after 10ms"),
        _ => panic!("expected a failure"),
    }
}

#[test]
fn a_read_that_timed_out_or_was_given_up_adds_nothing() {
    let timeout = Span::from_millis(10);
    let mut reader = FramedReader::new(b"{}\n".to_vec(), Newline).with_read_timeout(timeout);
    assert!(matches!(reader.poll(ReadEvent::Begin), ReadStep::Read(_)));
    reader.read_target().1[0] = b'x';
    assert!(matches!(reader.poll(ReadEvent::TimedOut(timeout)), ReadStep::Fail(_)));
    assert_eq!(recv(&mut reader, 4096).unwrap(), Some(b"{}".to_vec()));

    let mut reader = FramedReader::new(b"a\n".to_vec(), Newline);
    assert!(matches!(reader.poll(ReadEvent::Begin), ReadStep::Read(_)));
    assert_eq!(recv(&mut reader, 1).unwrap(), Some(b"a".to_vec()));
    assert!(recv(&mut reader, 1).unwrap().is_none());
}

#[test]
fn max_frame_size_rejects_oversized() {
    let data: Vec<u8> = (0..100).map(|_| b'x').collect();
    let mut reader = FramedReader::new(data, Newline).with_max_frame_size(50);
    let err = recv(&mut reader, 4096).unwrap_err();
    assert_eq!(frame_message(err), "frame exceeds max size of 50 bytes");

    let data: Vec<u8> = (0..100).map(|_| b'x').collect();
    let mut reader = FramedReader::new(data, Newline).with_max_frame_size(50);
    let err = recv(&mut reader, 10).unwrap_err();
    assert_eq!(frame_message(err), "frame exceeds max size of 50 bytes");
}

#[test]
fn a_limit_of_zero_is_none() {
    let mut data: Vec<u8> = (0..20000).map(|_| b'x').collect();
    data.push(b'\n');
    let mut reader = FramedReader::new(data, Newline).with_max_frame_size(0);
    assert_eq!(recv(&mut reader, 4096).unwrap().unwrap().len(), 20000);
    assert_eq!(DEFAULT_MAX_FRAME_SIZE, 16_777_216);
}

#[test]
fn reader_reassembles_frame_across_many_small_reads() {
    let payload = br#"{"jsonrpc":"2.0","method":"m","params":[1,2,3,4,5],"id":1}"#;
    for at_once in [1, 2, 7, 58, 59, 4096] {
        let mut data = Vec::new();
        Newline.encode(payload, &mut data);
        let mut reader = FramedReader::new(data, Newline);
        let msg = recv(&mut reader, at_once).unwrap();
        assert_eq!(msg.as_deref(), Some(payload.as_slice()));

        let mut data = Vec::new();
        Netstring.encode(payload, &mut data);
        Netstring.encode(b"second", &mut data);
        let mut reader = FramedReader::new(data, Netstring);
        let msg = recv(&mut reader, at_once).unwrap();
        assert_eq!(msg.as_deref(), Some(payload.as_slice()));
        let msg = recv(&mut reader, at_once).unwrap();
        assert_eq!(msg.as_deref(), Some(b"second".as_slice()));
    }
}

#[test]
fn a_netstring_cut_short_is_an_error() {
    let mut reader = FramedReader::new(b"5:hel".to_vec(), Netstring);
    let err = recv(&mut reader, 4096).unwrap_err();
    assert_eq!(frame_message(err), "stream closed mid-frame");
}

#[test]
fn a_failed_read_is_reported_and_leaves_what_had_arrived() {
    let mut core = ReadCore::new();
    assert!(matches!(core.poll(&Newline, ReadEvent::Begin), ReadStep::Read(None)));
    core.tail()[..3].copy_from_slice(b"one");
    assert!(matches!(core.poll(&Newline, ReadEvent::Read(3)), ReadStep::Read(None)));
    let failed = ReadEvent::Failed(std::io::Error::other("gone"));
    match core.poll(&Newline, failed) {
        ReadStep::Fail(TransportError::Io(error)) => assert_eq!(error.to_string(), "gone"),
        _ => panic!("expected the failure"),
    }
    assert!(matches!(core.poll(&Newline, ReadEvent::Begin), ReadStep::Read(None)));
    core.tail()[0] = b'\n';
    match core.poll(&Newline, ReadEvent::Read(1)) {
        ReadStep::Deliver(message) => assert_eq!(message, b"one"),
        _ => panic!("expected the message"),
    }
}

#[test]
fn framed_conn_reads_and_writes() {
    let timeout = Span::from_secs(1);
    let mut conn = FramedConn::new(b"2:hi,".to_vec(), Netstring)
        .with_read_timeout(timeout)
        .with_max_frame_size(64);
    match conn.poll(ReadEvent::Begin) {
        ReadStep::Read(limit) => assert_eq!(limit, Some(timeout)),
        _ => panic!("expected a read"),
    }
    let (stream, tail) = conn.read_target();
    tail[..5].copy_from_slice(stream);
    match conn.poll(ReadEvent::Read(5)) {
        ReadStep::Deliver(message) => assert_eq!(message, b"hi"),
        _ => panic!("expected the message"),
    }
    conn.stage(b"bye");
    let (_, bytes) = conn.write_source();
    assert_eq!(bytes, b"3:bye,");
}

#[test]
fn transport_error_display() {
    let frame = TransportError::Frame("bad frame".into());
    assert!(frame.to_string().contains("framing error"));
    assert_eq!(frame.to_string(), "framing error: bad frame");

    let io = TransportError::Io(std::io::Error::other("io"));
    assert!(io.to_string().contains("io error"));
    assert_eq!(io.to_string(), "io error: io");
}

#[test]
fn spans_are_lengths_of_time() {
    assert!(Span::new(1, 1_000_000_000).is_none());
    let span = Span::new(1, 600_000_000).unwrap();
    let long = Span::from_secs(u64::MAX);
    assert_eq!(span.double_up_to(&long), Span::new(3, 200_000_000).unwrap());
    assert_eq!(span.double_up_to(&Span::from_secs(3)), Span::from_secs(3));
    assert_eq!(span.to_string(), "1.6s");
    assert_eq!((span.as_secs(), span.subsec_nanos()), (1, 600_000_000));
    assert_eq!(span.min(&Span::from_millis(1599)), Span::from_millis(1599));
    assert_eq!(span.min(&Span::from_millis(1600)), span);
    assert_eq!(
        Span::from_secs(u64::MAX / 2).double_up_to(&long),
        Span::from_secs(u64::MAX - 1)
    );
    assert_eq!(Span::from_secs(u64::MAX / 2 + 1).double_up_to(&long), long);
    assert!(Span::from_secs(0).is_zero() && !span.is_zero());
}

#[test]
fn streams_are_received_however_they_are_cut() {
    let messages: [&[u8]; 4] = [b"", b"a\nb", b"5:hello,", &[0xff; 5000]];
    let mut stream = Vec::new();
    for message in messages {
        Netstring.encode(message, &mut stream);
    }
    for at_once in [1, 2, 3, 7, 4096] {
        let mut reader = FramedReader::new(stream.clone(), Netstring);
        for message in messages {
            assert_eq!(recv(&mut reader, at_once).unwrap().as_deref(), Some(message));
        }
        assert!(recv(&mut reader, at_once).unwrap().is_none());

        // The last frame is cut off.
        let cut = stream[..stream.len() - 1].to_vec();
        let mut reader = FramedReader::new(cut, Netstring);
        for message in &messages[..3] {
            assert_eq!(recv(&mut reader, at_once).unwrap().as_deref(), Some(*message));
        }
        let error = recv(&mut reader, at_once).unwrap_err();
        assert_eq!(frame_message(error), "stream closed mid-frame");
    }
}

#[test]
fn the_limit_is_that_of_a_frame() {
    // Each frame has three bytes, and both arrive at once.
    let mut reader = FramedReader::new(b"{}\n{}\n".to_vec(), Newline).with_max_frame_size(5);
    assert_eq!(recv(&mut reader, 4096).unwrap(), Some(b"{}".to_vec()));
    assert_eq!(recv(&mut reader, 4096).unwrap(), Some(b"{}".to_vec()));
    assert!(recv(&mut reader, 4096).unwrap().is_none());

    // A frame of as many bytes as are allowed is taken, a larger one is not.
    for at_once in [1, 3, 4096] {
        let mut reader =
            FramedReader::new(b"aaaa\nbbbbb\nc\n".to_vec(), Newline).with_max_frame_size(5);
        assert_eq!(recv(&mut reader, at_once).unwrap(), Some(b"aaaa".to_vec()));
        for _ in 0..2 {
            let error = recv(&mut reader, at_once).unwrap_err();
            assert_eq!(frame_message(error), "frame exceeds max size of 5 bytes");
        }
    }

    // So is a last line that the end of the stream ends.
    for at_once in [1, 2, 4096] {
        let mut reader = FramedReader::new(b"xx".to_vec(), Newline).with_max_frame_size(2);
        assert_eq!(recv(&mut reader, at_once).unwrap(), Some(b"xx".to_vec()));
        assert!(recv(&mut reader, at_once).unwrap().is_none());
        let mut reader = FramedReader::new(b"xxx".to_vec(), Newline).with_max_frame_size(2);
        let error = recv(&mut reader, at_once).unwrap_err();
        assert_eq!(frame_message(error), "frame exceeds max size of 2 bytes");
    }
}

#[test]
fn failures_are_made_of_their_causes() {
    let error = TransportError::from(std::io::Error::other("gone"));
    assert_eq!(error.to_string(), "io error: gone");
    let error = MultiplexError::from(error);
    assert_eq!(error.to_string(), "transport error: io error: gone");
    let error = WsError::from("reset".to_owned());
    assert!(matches!(error, WsError::WebSocket(cause) if cause == "reset"));
}

#[test]
fn what_one_end_of_a_connection_sends_the_other_receives() {
    let messages: [&[u8]; 3] = [b"one", b"", b"{\"a\":[1,2]}"];
    let mut sender = FramedConn::new(Vec::<u8>::new(), Newline);
    for message in messages {
        sender.stage(message);
        let (stream, bytes) = sender.write_source();
        stream.extend_from_slice(bytes);
    }
    let wire = std::mem::take(sender.read_target().0);
    for at_once in [1, 2, 5, 4096] {
        let mut receiver = FramedConn::new(wire.clone(), Newline);
        let mut received = Vec::new();
        let mut event = ReadEvent::Begin;
        loop {
            match receiver.poll(event) {
                ReadStep::Read(_) => {
                    let (stream, tail) = receiver.read_target();
                    let n = at_once.min(stream.len());
                    tail[..n].copy_from_slice(&stream[..n]);
                    stream.drain(..n);
                    event = ReadEvent::Read(n);
                }
                ReadStep::Deliver(message) => {
                    received.push(message);
                    event = ReadEvent::Begin;
                }
                ReadStep::End => break,
                ReadStep::Fail(error) => panic!("{}", error.to_string()),
            }
        }
        assert_eq!(received, messages);
    }
}
