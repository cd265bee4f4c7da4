use jasonrpc::client::multiplex::{parse_id, MultiplexError, Multiplexer, ReaderAction};
use jasonrpc::client::uds::{Reconnect, RedialStep, RetryPolicy};
use jasonrpc::client::{
    decode_result, encode_call, encode_notification, finish_exchange, Client, Exchange, IdGen,
};
use jasonrpc::error::{ClientError, TransportError};
use jasonrpc::json::{JsonError, JsonRawValue};
use jasonrpc::protocol::{Error, Id, Request, Response};
use jasonrpc::span::Span;

fn to_raw<T: serde::Serialize>(value: &T) -> Result<JsonRawValue, JsonError> {
    let text = serde_json::to_string(value).map_err(|e| JsonError::new(&e.to_string()))?;
    JsonRawValue::from_string(text)
}

fn read<T: serde::de::DeserializeOwned>(raw: &JsonRawValue) -> T {
    serde_json::from_str(raw.get()).unwrap()
}

struct Bad;

impl serde::Serialize for Bad {
    fn serialize<S: serde::Serializer>(&self, _s: S) -> Result<S::Ok, S::Error> {
        Err(serde::ser::Error::custom("nope"))
    }
}

#[test]
fn decode_matches_id_and_result() {
    let bytes = br#"{"jsonrpc":"2.0","result":19,"id":7}"#;
    let v: i64 = read(&decode_result(bytes, &Id::Number(7)).unwrap());
    assert_eq!(v, 19);
}

#[test]
fn encode_call_propagates_param_serialization_error() {
    let err = encode_call("m", to_raw(&Bad), Id::Number(1)).unwrap_err();
    assert!(matches!(err, ClientError::Protocol(_)), "got {err:?}");
    let err = encode_notification("m", to_raw(&Bad)).unwrap_err();
    assert!(matches!(err, ClientError::Protocol(_)), "got {err:?}");
}

#[test]
fn decode_rejects_id_mismatch() {
    let bytes = br#"{"jsonrpc":"2.0","result":19,"id":8}"#;
    let e = decode_result(bytes, &Id::Number(7)).unwrap_err();
    assert!(matches!(e, ClientError::IdMismatch));
}

#[test]
fn decode_surfaces_rpc_error() {
    let bytes = br#"{"jsonrpc":"2.0","error":{"code":-32601,"message":"Method not found"},"id":1}"#;
    let e = decode_result(bytes, &Id::Number(1)).unwrap_err();
    match e {
        ClientError::Rpc(err) => assert_eq!(err.code(), -32601),
        other => panic!("expected rpc error, got {other:?}"),
    }
}

#[test]
fn decode_reports_malformed_response() {
    let bytes = br#"{"jsonrpc":"2.0","result":1,"error":{"code":0,"message":""},"id":1}"#;
    let e = decode_result(bytes, &Id::Number(1)).unwrap_err();
    assert!(matches!(e, ClientError::MalformedResponse), "got {e:?}");

    let bytes = br#"{"jsonrpc":"2.0","id":1}"#;
    let e = decode_result(bytes, &Id::Number(1)).unwrap_err();
    assert!(matches!(e, ClientError::MalformedResponse), "got {e:?}");
}

#[test]
fn decode_refuses_what_is_no_response() {
    let e = decode_result(b"{}", &Id::Number(1)).unwrap_err();
    assert_eq!(e.to_string(), "protocol error: not a JSON-RPC response");
}

#[test]
fn encode_notification_round_trips() {
    let bytes = encode_notification("my_method", to_raw(&42i64)).unwrap();
    let parsed = Request::from_slice(&bytes).unwrap();
    assert_eq!(parsed.method(), "my_method");
    assert!(parsed.is_notification());
    let result: i64 = read(&parsed.params_raw());
    assert_eq!(result, 42);
}

#[test]
fn encode_call_hands_back_the_id() {
    let (bytes, id) = encode_call("m", to_raw(&[1]), Id::String("q".into())).unwrap();
    assert_eq!(
        String::from_utf8(bytes).unwrap(),
        r#"{"jsonrpc":"2.0","method":"m","params":[1],"id":"q"}"#
    );
    assert_eq!(id, Id::String("q".into()));
}

#[test]
fn results_and_errors_come_back() {
    for value in ["0", "[]", "\"x\"", "{\"a\":null}", "false", "null"] {
        let raw = JsonRawValue::from_string(value.to_owned()).unwrap();
        let bytes = Response::from_raw_result(Id::Number(3), raw.clone()).to_vec();
        assert_eq!(decode_result(&bytes, &Id::Number(3)).unwrap(), raw);
        let other = decode_result(&bytes, &Id::String("3".into())).unwrap_err();
        assert!(matches!(other, ClientError::IdMismatch));
    }
    let error = Error::new(5, "five").with_data(to_raw(&"d"));
    let bytes = Response::error(Id::Null, error.clone()).to_vec();
    match decode_result(&bytes, &Id::Null).unwrap_err() {
        ClientError::Rpc(same) => assert_eq!(same, error),
        other => panic!("got {other:?}"),
    }
    let null = decode_result(br#"{"jsonrpc":"2.0","result":null,"id":1}"#, &Id::Number(1));
    assert_eq!(read::<Option<i64>>(&null.unwrap()), None);
    let both = br#"{"jsonrpc":"2.0","result":null,"error":{"code":0,"message":""},"id":1}"#;
    let e = decode_result(both, &Id::Number(1)).unwrap_err();
    assert!(matches!(e, ClientError::MalformedResponse));
}

#[test]
fn ids_count_up_from_one() {
    let mut ids = IdGen::new();
    assert_eq!(ids.next_id(), Id::Number(1));
    assert_eq!(ids.next_id(), Id::Number(2));
    assert_eq!(ids.next_id(), Id::Number(3));
    assert_eq!(IdGen::default().next_id(), Id::Number(0));
}

#[test]
fn calls_of_a_client_get_new_ids() {
    let mut client = Client::new("wire").with_request_timeout(Span::from_secs(2));
    assert_eq!(*client.transport(), "wire");
    assert_eq!(client.timeout(), Some(Span::from_secs(2)));
    let (first, id) = client.start_call("a", to_raw(&())).unwrap();
    assert_eq!(id, Id::Number(1));
    assert_eq!(parse_id(&first), Some(Id::Number(1)));
    assert!(client.start_call("a", to_raw(&Bad)).is_err());
    let (_, id) = client.start_call("b", to_raw(&())).unwrap();
    assert_eq!(id, Id::Number(3));
}

#[test]
fn client_round_trip_raw() {
    let raw = br#"{"jsonrpc":"2.0","method":"m","id":7}"#.to_vec();
    let reply = finish_exchange::<Vec<u8>, String>(Exchange::Done(raw)).unwrap();
    assert_eq!(reply, br#"{"jsonrpc":"2.0","method":"m","id":7}"#);
}

#[test]
fn client_timeout_on_call() {
    let span = Span::from_millis(10);
    let err = finish_exchange::<Vec<u8>, String>(Exchange::TimedOut(span)).unwrap_err();
    assert!(matches!(err, ClientError::Timeout(_)), "got {err:?}");
    assert_eq!(err.to_string(), "request timed out after 10ms");
}

#[test]
fn client_failure_of_the_transport() {
    let err = finish_exchange::<(), String>(Exchange::Failed("cut".into())).unwrap_err();
    assert_eq!(err.to_string(), "transport error: cut");
}

#[test]
fn client_error_display_covers_all_variants() {
    let rpc = Error::method_not_found();
    let json_err = JsonError::new("test error");
    let transport = std::io::Error::other("io fail");

    assert!(ClientError::<String>::Protocol(json_err)
        .to_string()
        .contains("protocol"));
    assert!(ClientError::<String>::Rpc(rpc).to_string().contains("rpc error"));
    assert!(ClientError::<String>::IdMismatch.to_string().contains("id"));
    assert!(ClientError::<String>::MalformedResponse
        .to_string()
        .contains("neither or both"));
    let cause = transport.to_string();
    assert!(ClientError::Transport(transport)
        .describe(&cause)
        .contains("transport"));
    assert!(ClientError::<String>::Timeout(Span::from_secs(5))
        .to_string()
        .contains("timed out"));
}

#[test]
fn client_error_texts_are_exact() {
    let rpc = ClientError::<String>::Rpc(Error::method_not_found());
    assert_eq!(rpc.to_string(), "rpc error: Method not found (code -32601)");
    assert_eq!(
        ClientError::<String>::IdMismatch.to_string(),
        "response id did not match request id"
    );
    assert_eq!(
        ClientError::<String>::MalformedResponse.to_string(),
        "response contained neither or both of result/error"
    );
}

#[test]
fn parse_id_numeric() {
    let frame = br#"{"jsonrpc":"2.0","result":1,"id":42}"#;
    assert_eq!(parse_id(frame), Some(Id::Number(42)));
}

#[test]
fn parse_id_string() {
    let frame = br#"{"jsonrpc":"2.0","result":1,"id":"abc"}"#;
    assert_eq!(parse_id(frame), Some(Id::String("abc".into())));
}

#[test]
fn parse_id_null_is_not_a_notification() {
    let frame = br#"{"jsonrpc":"2.0","result":1,"id":null}"#;
    assert_eq!(parse_id(frame), Some(Id::Null));
}

#[test]
fn parse_id_missing_is_none() {
    let frame = br#"{"jsonrpc":"2.0","result":1}"#;
    assert_eq!(parse_id(frame), None);
}

#[test]
fn parse_id_not_json() {
    assert_eq!(parse_id(b"not json"), None);
}

#[test]
fn parse_id_error_response() {
    let frame = br#"{"jsonrpc":"2.0","error":{"code":-32601,"message":"nope"},"id":7}"#;
    assert_eq!(parse_id(frame), Some(Id::Number(7)));
}

fn request(id: i64) -> Vec<u8> {
    Request::call("m", to_raw(&()), Id::Number(id)).to_vec()
}

fn response(id: i64) -> Vec<u8> {
    Response::result(Id::Number(id), to_raw(&id)).to_vec()
}

#[test]
fn concurrent_out_of_order_calls_correlate() {
    let mut mux = Multiplexer::new();
    assert_eq!(mux.begin_call(&request(1), "slow").unwrap(), Id::Number(1));
    assert_eq!(mux.begin_call(&request(2), "fast").unwrap(), Id::Number(2));
    assert_eq!(mux.pending_len(), 2);
    match mux.read(Ok(Some(response(2)))) {
        ReaderAction::Deliver(who, frame) => {
            assert_eq!(who, "fast");
            assert_eq!(frame, response(2));
        }
        _ => panic!("expected a delivery"),
    }
    match mux.read(Ok(Some(response(1)))) {
        ReaderAction::Deliver(who, _) => assert_eq!(who, "slow"),
        _ => panic!("expected a delivery"),
    }
    assert_eq!(mux.pending_len(), 0);
    assert!(matches!(mux.read(Ok(Some(response(1)))), ReaderAction::Continue));
}

#[test]
fn many_concurrent_calls_all_correlate() {
    let mut mux = Multiplexer::new();
    for i in 0..50 {
        mux.begin_call(&request(i), i).unwrap();
    }
    for i in (0..50).map(|i| (i * 7) % 50) {
        match mux.read(Ok(Some(response(i)))) {
            ReaderAction::Deliver(who, _) => assert_eq!(who, i),
            _ => panic!("expected a delivery"),
        }
    }
    assert_eq!(mux.pending_len(), 0);
}

#[test]
fn connection_close_fails_pending_calls() {
    for end in [Ok(None), Err(TransportError::Frame("torn".into()))] {
        let mut mux = Multiplexer::new();
        mux.begin_call(&request(1), ()).unwrap();
        assert!(mux.is_connected());
        assert!(mux.begin_notification().is_ok());
        assert!(matches!(mux.read(end), ReaderAction::Stop));
        assert!(!mux.is_connected());
        assert_eq!(mux.pending_len(), 0);
        let refused = mux.begin_call(&request(2), ()).unwrap_err();
        assert!(matches!(refused, MultiplexError::ConnectionClosed));
        let refused = mux.begin_notification().unwrap_err();
        assert_eq!(
            refused.to_string(),
            "connection closed before a response arrived"
        );
    }
    let lost = Multiplexer::<()>::finish_call(None).unwrap_err();
    assert!(matches!(lost, MultiplexError::ConnectionClosed));
    assert_eq!(Multiplexer::<()>::finish_call(Some(vec![1])).unwrap(), [1]);
}

#[test]
fn dropped_round_trip_drains_pending_map() {
    let mut mux = Multiplexer::new();
    let id = mux
        .begin_call(br#"{"jsonrpc":"2.0","method":"m","id":1}"#, ())
        .unwrap();
    mux.begin_call(&request(2), ()).unwrap();
    mux.cancel(&id);
    assert_eq!(mux.pending_len(), 1);
    mux.cancel(&id);
    assert_eq!(mux.pending_len(), 1);
    assert!(matches!(mux.read(Ok(Some(response(1)))), ReaderAction::Continue));
    assert!(matches!(mux.read(Ok(Some(response(2)))), ReaderAction::Deliver(..)));
}

#[test]
fn requests_without_an_id_are_no_calls() {
    let mut mux = Multiplexer::new();
    let refused = mux
        .begin_call(br#"{"jsonrpc":"2.0","method":"m"}"#, ())
        .unwrap_err();
    assert!(matches!(refused, MultiplexError::MissingId));
    assert_eq!(
        refused.to_string(),
        "outgoing request has no id to correlate on"
    );
    assert_eq!(mux.pending_len(), 0);
    let broken = MultiplexError::Transport(TransportError::Frame("x".into()));
    assert_eq!(broken.to_string(), "transport error: framing error: x");
}

#[test]
fn a_second_call_with_the_same_id_takes_the_place_of_the_first() {
    let mut mux = Multiplexer::new();
    mux.begin_call(&request(1), "first").unwrap();
    mux.begin_call(&request(1), "second").unwrap();
    assert_eq!(mux.pending_len(), 1);
    match mux.read(Ok(Some(response(1)))) {
        ReaderAction::Deliver(who, _) => assert_eq!(who, "second"),
        _ => panic!("expected a delivery"),
    }
}

#[test]
fn reconnect_gives_up_when_server_stays_down() {
    let policy = RetryPolicy {
        max_attempts: 3,
        base_backoff: Span::from_millis(5),
        max_backoff: Span::from_millis(20),
    };
    let Reconnect::Dial(mut redial) = policy.reconnect(false) else {
        panic!("expected a dial");
    };
    let mut waits = Vec::new();
    let mut dials = 1;
    loop {
        match redial.dial_failed(std::io::Error::other(format!("dial {dials}"))) {
            (RedialStep::Wait(wait), Some(next)) => {
                waits.push(wait);
                redial = next;
                dials += 1;
            }
            (RedialStep::GiveUp(failure), None) => {
                assert_eq!(failure.to_string(), "transport error: io error: dial 3");
                break;
            }
            _ => unreachable!(),
        }
    }
    assert_eq!(dials, 3);
    assert_eq!(waits, [Span::from_millis(5), Span::from_millis(10)]);
}

#[test]
fn waits_double_up_to_the_longest() {
    let policy = RetryPolicy {
        max_attempts: 6,
        base_backoff: Span::from_millis(300),
        max_backoff: Span::from_secs(1),
    };
    let Reconnect::Dial(mut redial) = policy.reconnect(false) else {
        panic!("expected a dial");
    };
    let mut waits = Vec::new();
    while let (RedialStep::Wait(wait), Some(next)) = redial.dial_failed(std::io::Error::other("")) {
        waits.push(wait.to_string());
        redial = next;
    }
    assert_eq!(waits, ["300ms", "600ms", "1s", "1s", "1s"]);
}

#[test]
fn no_wait_is_longer_than_the_longest() {
    for base_backoff in [Span::from_secs(9), Span::from_secs(u64::MAX)] {
        let policy = RetryPolicy { max_attempts: 4, base_backoff, max_backoff: Span::from_secs(2) };
        let Reconnect::Dial(mut redial) = policy.reconnect(false) else {
            panic!("expected a dial");
        };
        let mut waits = Vec::new();
        while let (RedialStep::Wait(wait), Some(next)) =
            redial.dial_failed(std::io::Error::other(""))
        {
            waits.push(wait);
            redial = next;
        }
        assert_eq!(waits, [Span::from_secs(2); 3]);
    }
    let longest = Span::from_secs(u64::MAX);
    let policy = RetryPolicy { max_attempts: 3, base_backoff: longest, max_backoff: longest };
    let Reconnect::Dial(redial) = policy.reconnect(false) else {
        panic!("expected a dial");
    };
    let (RedialStep::Wait(first), Some(redial)) = redial.dial_failed(std::io::Error::other(""))
    else {
        panic!("expected a wait");
    };
    let (RedialStep::Wait(second), Some(_)) = redial.dial_failed(std::io::Error::other("")) else {
        panic!("expected a wait");
    };
    assert_eq!((first, second), (longest, longest));
}

#[test]
fn a_live_connection_is_kept_and_none_is_never_dialled_again() {
    let policy = RetryPolicy::default();
    assert_eq!(policy.max_attempts, 5);
    assert_eq!(policy.base_backoff, Span::from_millis(50));
    assert_eq!(policy.max_backoff, Span::from_secs(5));
    assert!(matches!(policy.reconnect(true), Reconnect::Keep));
    assert!(matches!(policy.reconnect(false), Reconnect::Dial(_)));

    let none = RetryPolicy::none();
    assert_eq!(none.max_attempts, 1);
    assert!(none.is_none() && !policy.is_none());
    assert!(matches!(none.reconnect(true), Reconnect::Keep));
    assert!(matches!(
        none.reconnect(false),
        Reconnect::GiveUp(MultiplexError::ConnectionClosed)
    ));
}

#[test]
fn a_policy_of_one_or_no_attempts_dials_once() {
    for max_attempts in [0, 1] {
        let policy = RetryPolicy {
            max_attempts,
            base_backoff: Span::from_secs(u64::MAX),
            max_backoff: Span::from_secs(1),
        };
        let Reconnect::Dial(redial) = policy.reconnect(false) else {
            panic!("expected a dial");
        };
        let next = redial.dial_failed(std::io::Error::other("down"));
        assert!(matches!(next, (RedialStep::GiveUp(_), None)));
    }
}
