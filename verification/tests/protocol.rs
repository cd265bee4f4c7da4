use jasonrpc::json::{JsonError, JsonRawValue};
use jasonrpc::protocol::{codes, Error, Id, Request, Response, Version};

fn to_raw<T: serde::Serialize>(value: &T) -> Result<JsonRawValue, JsonError> {
    let text = serde_json::to_string(value).map_err(|e| JsonError::new(&e.to_string()))?;
    JsonRawValue::from_string(text)
}

fn read<T: serde::de::DeserializeOwned>(raw: &JsonRawValue) -> Option<T> {
    serde_json::from_str(raw.get()).ok()
}

fn text(bytes: Vec<u8>) -> String {
    String::from_utf8(bytes).unwrap()
}

/// What is said of a text: what is wrong with its JSON, or else what was expected.
fn complaint(text: &[u8], expected: &str) -> String {
    match serde_json::from_slice::<serde_json::Value>(text) {
        Ok(_) => expected.to_owned(),
        Err(error) => error.to_string(),
    }
}

struct AlwaysFails;

impl serde::Serialize for AlwaysFails {
    fn serialize<S: serde::Serializer>(&self, _s: S) -> Result<S::Ok, S::Error> {
        Err(serde::ser::Error::custom("nope"))
    }
}

#[test]
fn id_preserves_wire_type() {
    let n = Id::from_slice(b"1").unwrap();
    assert_eq!(n, Id::Number(1));
    let s = Id::from_slice(b"\"1\"").unwrap();
    assert_eq!(s, Id::String("1".into()));
    let z = Id::from_slice(b"null").unwrap();
    assert_eq!(z, Id::Null);
}

#[test]
fn version_must_be_2_0() {
    assert!(Version::from_slice(b"\"2.0\"").is_ok());
    assert!(Version::from_slice(b"\"1.0\"").is_err());
}

#[test]
fn version_is_read_with_escapes_and_space_only_as_the_string() {
    assert!(Version::from_slice(b" \"\\u0032.0\"\n").is_ok());
    assert!(Version::from_slice(b"2.0").is_err());
    assert!(Version::from_slice(b"\"2.0\" 1").is_err());
    assert_eq!(
        Version::from_slice(b"[]").unwrap_err().message(),
        "unsupported jsonrpc version"
    );
    assert_eq!(Version.to_raw().get(), "\"2.0\"");
}

#[test]
fn id_serialize_all_variants() {
    assert_eq!(Id::Null.to_raw().get().as_bytes(), b"null");
    assert_eq!(Id::Number(42).to_raw().get().as_bytes(), b"42");
    assert_eq!(Id::String("x".into()).to_raw().get().as_bytes(), b"\"x\"");
}

#[test]
fn id_deserialize_edge_cases() {
    let id = Id::from_slice(b"123").unwrap();
    assert_eq!(id, Id::Number(123));
    let id = Id::from_slice(b"9999999999999999999").unwrap();
    assert!(matches!(id, Id::String(..)), "got {id:?}");
    let req = Request::from_slice(br#"{"jsonrpc":"2.0","method":"m","id":null}"#).unwrap();
    assert!(!req.is_notification());
}

#[test]
fn id_limits() {
    assert_eq!(
        Id::from_slice(b"9223372036854775807").unwrap(),
        Id::Number(i64::MAX)
    );
    assert_eq!(
        Id::from_slice(b"-9223372036854775808").unwrap(),
        Id::Number(i64::MIN)
    );
    assert_eq!(
        Id::from_slice(b"9223372036854775808").unwrap(),
        Id::String("9223372036854775808".into())
    );
    assert_eq!(
        Id::from_slice(b"18446744073709551615").unwrap(),
        Id::String("18446744073709551615".into())
    );
    for bad in [
        "18446744073709551616",
        "-9223372036854775809",
        "1.0",
        "1e3",
        "-0",
        "true",
        "[]",
        "{}",
        "01",
        "+1",
        "",
        "1 2",
        "\"\\ud800\"",
    ] {
        let error = Id::from_slice(bad.as_bytes()).unwrap_err();
        assert_eq!(error.message(), complaint(bad.as_bytes(), "not a JSON-RPC id"), "{bad}");
    }
    assert_eq!(Id::from_slice(b" \t0\r\n").unwrap(), Id::Number(0));
}

#[test]
fn id_reads_back_from_its_json() {
    for id in [
        Id::Null,
        Id::Number(0),
        Id::Number(-7),
        Id::Number(i64::MIN),
        Id::String(String::new()),
        Id::String("a \"b\" \\ \n \u{1} \u{e9}\u{1f600}".into()),
        Id::String("1".into()),
        Id::String("null".into()),
    ] {
        let raw = id.to_raw();
        assert_eq!(Id::from_slice(raw.get().as_bytes()).unwrap(), id);
        assert_eq!(id.clone(), id);
    }
    assert_eq!(
        Id::String("a\"\n".into()).to_raw().get(),
        "\"a\\\"\\n\""
    );
    assert_ne!(Id::Number(1), Id::String("1".into()));
}

#[test]
fn error_with_data_and_display() {
    let err = Error::new(-32000, "boom").with_data(to_raw(&42));
    assert_eq!(err.code(), -32000);
    assert_eq!(err.message(), "boom");
    assert!(err.data_raw().is_some());
    assert!(err.to_string().contains("boom"));
    assert_eq!(err.to_string(), "boom (code -32000)");
}

#[test]
fn response_is_error_and_is_valid() {
    let ok = Response::result(Id::Number(1), to_raw(&1));
    assert!(ok.is_valid());
    assert!(!ok.is_error());

    let err = Response::error(Id::Null, Error::method_not_found());
    assert!(err.is_valid());
    assert!(err.is_error());
}

#[test]
fn notification_has_no_id_field() {
    let req = Request::notification("update", to_raw(&()));
    let s = text(req.to_vec());
    assert!(
        !s.contains("\"id\""),
        "notification must not serialize an id: {s}"
    );
}

#[test]
fn explicit_null_id_is_not_a_notification() {
    let req = Request::from_slice(br#"{"jsonrpc":"2.0","method":"m","id":null}"#).unwrap();
    assert!(!req.is_notification());
    assert_eq!(req.id(), Some(&Id::Null));
}

#[test]
fn response_serializes_exactly_one_member() {
    let ok = text(Response::result(Id::Number(1), to_raw(&19)).to_vec());
    assert!(ok.contains("\"result\"") && !ok.contains("\"error\""));

    let err = text(Response::error(Id::Null, Error::method_not_found()).to_vec());
    assert!(err.contains("\"error\"") && !err.contains("\"result\""));
    assert!(err.contains("\"id\":null"));
}

#[test]
fn id_display() {
    assert_eq!(Id::Null.to_string(), "null");
    assert_eq!(Id::Number(42).to_string(), "42");
    assert_eq!(Id::String("abc".into()).to_string(), "abc");
}

#[test]
fn error_partial_eq() {
    assert_eq!(Error::new(-32000, "boom"), Error::new(-32000, "boom"));
    assert_ne!(Error::new(-32000, "boom"), Error::new(-32001, "boom"));
    assert_ne!(Error::new(-32000, "boom"), Error::new(-32000, "bang"));

    let a = Error::new(-32000, "x").with_data(to_raw(&42));
    let b = Error::new(-32000, "x").with_data(to_raw(&42));
    let c = Error::new(-32000, "x").with_data(to_raw(&43));
    assert_eq!(a, b);
    assert_ne!(a, c);
    assert_ne!(a, Error::new(-32000, "x"));
}

#[test]
fn try_constructors_surface_serialization_errors() {
    assert!(Request::try_call("m", to_raw(&AlwaysFails), Id::Number(1)).is_err());
    assert!(Request::try_notification("m", to_raw(&AlwaysFails)).is_err());
    assert!(Response::try_result(Id::Number(1), to_raw(&AlwaysFails)).is_err());
    assert!(Error::new(-32000, "x")
        .try_with_data(to_raw(&AlwaysFails))
        .is_err());
    let failure = Request::try_call("m", to_raw(&AlwaysFails), Id::Null).unwrap_err();
    assert_eq!(failure.message(), "nope");
}

#[test]
fn try_constructors_succeed_on_good_types() {
    let req = Request::try_call("m", to_raw(&(1, 2)), Id::Number(1)).unwrap();
    assert_eq!(req.method(), "m");
    assert_eq!(read::<(i64, i64)>(&req.params_raw()), Some((1, 2)));

    let notif = Request::try_notification("m", to_raw(&[1, 2, 3])).unwrap();
    assert!(notif.is_notification());

    let resp = Response::try_result(Id::Number(1), to_raw(&"ok")).unwrap();
    assert_eq!(
        resp.result_raw().and_then(read::<String>),
        Some("ok".into())
    );

    let err = Error::new(-32000, "x")
        .try_with_data(to_raw(&vec![1, 2]))
        .unwrap();
    assert!(err.data_raw().is_some());
}

#[test]
fn infallible_constructors_drop_on_failure() {
    let req = Request::call("m", to_raw(&AlwaysFails), Id::Number(1));
    assert!(
        read::<()>(&req.params_raw()).is_some() || read::<i64>(&req.params_raw()).is_none()
    );
    let s = text(req.to_vec());
    assert!(!s.contains("params"), "params should be dropped: {s}");

    let err = Error::new(-32000, "x").with_data(to_raw(&AlwaysFails));
    assert!(err.data_raw().is_none());
}

#[test]
fn failed_result_is_null() {
    let resp = Response::result(Id::Number(1), to_raw(&AlwaysFails));
    assert!(resp.is_valid());
    assert_eq!(
        text(resp.to_vec()),
        r#"{"jsonrpc":"2.0","result":null,"id":1}"#
    );
}

#[test]
fn request_json_is_exact() {
    let call = Request::call("add", to_raw(&(1, 2)), Id::Number(7));
    assert_eq!(
        text(call.to_vec()),
        r#"{"jsonrpc":"2.0","method":"add","params":[1,2],"id":7}"#
    );
    let bare = Request::notification("a\"b", Err(JsonError::new("none")));
    assert_eq!(text(bare.to_vec()), r#"{"jsonrpc":"2.0","method":"a\"b"}"#);
}

#[test]
fn requests_read_back() {
    let params = to_raw(&vec!["x", "y"]);
    let mut request = Request::call("m\u{e9}", params, Id::String("k".into()));
    let back = Request::from_slice(&request.to_vec()).unwrap();
    assert_eq!(back.method(), "m\u{e9}");
    assert_eq!(back.id(), Some(&Id::String("k".into())));
    assert_eq!(back.params_raw().get(), r#"["x","y"]"#);

    request.set_id(Id::Number(9));
    assert_eq!(request.id(), Some(&Id::Number(9)));
    assert_eq!(request.params_raw().get(), r#"["x","y"]"#);
    assert_eq!(request.clone().method(), "m\u{e9}");

    let null = Request::notification("m", to_raw(&()));
    assert!(text(null.to_vec()).contains("\"params\":null"));
    let back = Request::from_slice(&null.to_vec()).unwrap();
    assert!(!text(back.to_vec()).contains("params"));
    assert_eq!(back.params_raw().get(), "null");
}

#[test]
fn requests_may_be_spaced_escaped_and_have_other_members() {
    let request = Request::from_slice(
        b" {\n\"\\u006aethro\" : [1, {\"id\":2}] , \"m\\u0065thod\":\"go\",\t\"jsonrpc\":\"2.0\" } \r\n",
    )
    .unwrap();
    assert_eq!(request.method(), "go");
    assert!(request.is_notification());
}

#[test]
fn arrays_are_no_requests_responses_or_errors() {
    for array in [r#"["2.0","go",[1],3]"#, r#"["2.0","go"]"#, "[]"] {
        let error = Request::from_slice(array.as_bytes()).unwrap_err();
        assert_eq!(error.message(), "not a JSON-RPC request");
        let error = Response::from_slice(array.as_bytes()).unwrap_err();
        assert_eq!(error.message(), "not a JSON-RPC response");
    }
    let positional = br#"{"jsonrpc":"2.0","error":[1,"m"],"id":1}"#;
    assert!(Response::from_slice(positional).is_err());
}

#[test]
fn malformed_requests_are_refused() {
    for bad in [
        "",
        "{}",
        "{",
        "[]",
        "1",
        r#"{"jsonrpc":"2.0"}"#,
        r#"{"method":"m"}"#,
        r#"{"jsonrpc":"1.0","method":"m"}"#,
        r#"{"jsonrpc":"2.0","method":1}"#,
        r#"{"jsonrpc":"2.0","method":"m","id":1.5}"#,
        r#"{"jsonrpc":"2.0","method":"m","id":{}}"#,
        r#"{"jsonrpc":"2.0","method":"m","method":"n"}"#,
        r#"{"jsonrpc":"2.0","method":"m","id":1,"id":1}"#,
        r#"{"jsonrpc":"2.0","method":"m",}"#,
        r#"{"jsonrpc":"2.0" "method":"m"}"#,
        r#"{"jsonrpc":"2.0","method":"m"} x"#,
        r#"{"jsonrpc":"2.0","method":"m","params":[1}"#,
        r#"{"jsonrpc":"2.0","method":"m","x":tru}"#,
        r#"{"jsonrpc":"2.0",method:"m"}"#,
    ] {
        let error = Request::from_slice(bad.as_bytes()).unwrap_err();
        assert_eq!(error.message(), complaint(bad.as_bytes(), "not a JSON-RPC request"), "{bad}");
    }
    assert!(Request::from_slice(b"{\"jsonrpc\":\"2.0\",\"method\":\"m\",\"params\":\"\xff\"}").is_err());
    assert!(Request::from_slice(b"{\"jsonrpc\":\"2.0\",\"method\":\"m\",\"other\":\"\xff\"}").is_ok());
}

#[test]
fn repeated_other_members_are_passed_over() {
    let text = br#"{"x":1,"jsonrpc":"2.0","x":2,"method":"m"}"#;
    assert_eq!(Request::from_slice(text).unwrap().method(), "m");
}

#[test]
fn responses_read_back() {
    let data = to_raw(&"why");
    let error = Error::invalid_params().with_data(data);
    let response = Response::error(Id::Number(4), error);
    assert_eq!(
        text(response.to_vec()),
        r#"{"jsonrpc":"2.0","error":{"code":-32602,"message":"Invalid params","data":"why"},"id":4}"#
    );
    let back = Response::from_slice(&response.to_vec()).unwrap();
    assert_eq!(back.error_obj(), response.error_obj());
    assert_eq!(back.id(), &Id::Number(4));
    assert!(back.result_raw().is_none());

    let mut ok = Response::from_raw_result(Id::Number(5), to_raw(&vec![1]).unwrap());
    assert_eq!(text(ok.to_vec()), r#"{"jsonrpc":"2.0","result":[1],"id":5}"#);
    let back = Response::from_slice(&ok.to_vec()).unwrap();
    assert_eq!(back.result_raw().unwrap().get(), "[1]");
    assert!(back.is_valid() && !back.is_error());

    ok.set_id(Id::String("caller".into()));
    assert_eq!(
        text(ok.clone().to_vec()),
        r#"{"jsonrpc":"2.0","result":[1],"id":"caller"}"#
    );
}

#[test]
fn malformed_responses_are_refused() {
    for bad in [
        r#"{"jsonrpc":"2.0","result":1}"#,
        r#"{"jsonrpc":"2.0","error":{"code":1},"id":1}"#,
        r#"{"jsonrpc":"2.0","error":{"code":"1","message":""},"id":1}"#,
        r#"{"jsonrpc":"2.0","error":7,"id":1}"#,
        r#"{"result":1,"id":1}"#,
        "nonsense",
    ] {
        let error = Response::from_slice(bad.as_bytes()).unwrap_err();
        assert_eq!(error.message(), complaint(bad.as_bytes(), "not a JSON-RPC response"), "{bad}");
    }
    let null = br#"{"jsonrpc":"2.0","result":null,"id":1}"#;
    let mut response = Response::from_slice(null).unwrap();
    assert!(response.is_valid());
    assert_eq!(response.result_raw().unwrap().get(), "null");
    response.set_id(Id::Number(2));
    assert_eq!(text(response.to_vec()), r#"{"jsonrpc":"2.0","result":null,"id":2}"#);
    let lenient = br#"{"jsonrpc":"2.0","result":1,"error":null,"id":1}"#;
    assert!(Response::from_slice(lenient).unwrap().is_valid());
}

#[test]
fn predefined_errors() {
    let all = [
        (Error::parse_error(), codes::PARSE_ERROR, -32700, "Parse error"),
        (Error::invalid_request(), codes::INVALID_REQUEST, -32600, "Invalid Request"),
        (Error::method_not_found(), codes::METHOD_NOT_FOUND, -32601, "Method not found"),
        (Error::invalid_params(), codes::INVALID_PARAMS, -32602, "Invalid params"),
        (Error::internal_error(), codes::INTERNAL_ERROR, -32603, "Internal error"),
        (Error::server_error(-32050, "busy"), -32050, -32050, "busy"),
    ];
    for (error, code, number, message) in all {
        assert_eq!(error.code(), code);
        assert_eq!(code, number);
        assert_eq!(error.message(), message);
        assert!(error.data_raw().is_none());
        assert_eq!(error.clone(), error);
    }
    assert_eq!(codes::SERVER_ERROR_MIN, -32099);
    assert_eq!(codes::SERVER_ERROR_MAX, -32000);
}

#[test]
fn ids_can_be_rewritten_and_restored() {
    let input = br#"{"jsonrpc":"2.0","method":"m","params":{ "a" : 1.50 },"id":"caller"}"#;
    let mut request = Request::from_slice(input).unwrap();
    let caller = request.id().cloned().unwrap();
    request.set_id(Id::Number(7));
    assert_eq!(
        text(request.to_vec()),
        r#"{"jsonrpc":"2.0","method":"m","params":{ "a" : 1.50 },"id":7}"#
    );
    request.set_id(caller.clone());
    assert_eq!(request.to_vec(), input);

    let mut reply =
        Response::from_slice(br#"{"jsonrpc":"2.0","result":[ 1 ],"id":7}"#).unwrap();
    reply.set_id(caller);
    assert_eq!(text(reply.to_vec()), r#"{"jsonrpc":"2.0","result":[ 1 ],"id":"caller"}"#);
}

#[test]
fn what_is_not_json_is_refused_with_the_reason() {
    let error = Request::from_slice(br#"{"jsonrpc": "2.0""#).unwrap_err();
    assert_eq!(error.message(), "EOF while parsing an object at line 1 column 17");
    let error = Response::from_slice(b"[1,").unwrap_err();
    assert_eq!(error.message(), "EOF while parsing a value at line 1 column 3");
}
