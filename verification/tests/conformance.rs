use jasonrpc::json::{JsonError, JsonRawValue};
use jasonrpc::protocol::{Error, Request};
use jasonrpc::server::{handler_outcome, Method, Output, Progress, Router};

type Returned = Result<Result<JsonRawValue, JsonError>, Error>;
type Handler = fn(&Request) -> Returned;
type TestRouter = Router<(), Handler, Handler>;

fn to_raw<T: serde::Serialize>(value: &T) -> Result<JsonRawValue, JsonError> {
    let text = serde_json::to_string(value).map_err(|e| JsonError::new(&e.to_string()))?;
    JsonRawValue::from_string(text)
}

fn params(request: &Request) -> serde_json::Value {
    serde_json::from_str(request.params_raw().get()).unwrap()
}

fn subtract(request: &Request) -> Returned {
    let given = params(request);
    let (minuend, subtrahend) = if given.is_array() {
        (given[0].as_i64(), given[1].as_i64())
    } else {
        (given["minuend"].as_i64(), given["subtrahend"].as_i64())
    };
    match (minuend, subtrahend) {
        (Some(a), Some(b)) => Ok(to_raw(&(a - b))),
        _ => Err(Error::invalid_params()),
    }
}

fn sum(request: &Request) -> Returned {
    let nums: Vec<i64> =
        serde_json::from_value(params(request)).map_err(|_| Error::invalid_params())?;
    Ok(to_raw(&nums.into_iter().sum::<i64>()))
}

fn get_data(_request: &Request) -> Returned {
    Ok(JsonRawValue::from_string(r#"["hello", 5]"#.to_owned()))
}

fn null(_request: &Request) -> Returned {
    Ok(Ok(JsonRawValue::null()))
}

fn example_router() -> TestRouter {
    Router::new()
        .register("subtract", subtract as Handler)
        .register("sum", sum)
        .register("get_data", get_data)
        .register("update", null)
        .register("notify_hello", null)
        .register("notify_sum", null)
}

fn dispatch(router: &TestRouter, input: &[u8]) -> Output {
    let mut progress = router.handle_bytes(input);
    loop {
        match progress {
            Progress::Done(output) => return output,
            Progress::Invoke(invocation) => {
                let outcome = match router.method(invocation.request().method()) {
                    Some(Method::Handler(handler)) => handler_outcome(handler(invocation.request())),
                    _ => unreachable!(),
                };
                progress = invocation.complete(outcome);
            }
        }
    }
}

fn call(router: &TestRouter, input: &[u8]) -> String {
    let out = dispatch(router, input);
    let bytes = out.to_bytes().unwrap().expect("expected a response body");
    String::from_utf8(bytes).unwrap()
}

fn call_empty(router: &TestRouter, input: &[u8]) {
    let out = dispatch(router, input);
    assert!(matches!(out, Output::Empty), "expected no response");
    assert!(out.to_bytes().unwrap().is_none());
}

#[test]
fn positional_parameters() {
    let r = example_router();
    let out = call(
        &r,
        br#"{"jsonrpc": "2.0", "method": "subtract", "params": [42, 23], "id": 1}"#,
    );
    assert!(out.contains("\"result\":19"), "{out}");
    assert!(out.contains("\"id\":1"), "{out}");

    let out = call(
        &r,
        br#"{"jsonrpc": "2.0", "method": "subtract", "params": [23, 42], "id": 2}"#,
    );
    assert!(out.contains("\"result\":-19"), "{out}");
}

#[test]
fn named_parameters() {
    let r = example_router();
    let out = call(
        &r,
        br#"{"jsonrpc": "2.0", "method": "subtract", "params": {"subtrahend": 23, "minuend": 42}, "id": 3}"#,
    );
    assert!(out.contains("\"result\":19"), "{out}");
    assert!(out.contains("\"id\":3"), "{out}");
}

#[test]
fn notification_produces_no_response() {
    let r = example_router();
    call_empty(
        &r,
        br#"{"jsonrpc": "2.0", "method": "update", "params": [1,2,3,4,5]}"#,
    );
    call_empty(&r, br#"{"jsonrpc": "2.0", "method": "foobar"}"#);
}

#[test]
fn non_existent_method() {
    let r = example_router();
    let out = call(&r, br#"{"jsonrpc": "2.0", "method": "foobar", "id": "1"}"#);
    assert!(out.contains("-32601"), "{out}");
    assert!(out.contains("\"id\":\"1\""), "{out}");
}

#[test]
fn invalid_json_is_parse_error() {
    let r = example_router();
    let out = call(
        &r,
        br#"{"jsonrpc": "2.0", "method": "foobar, "params": "bar", "baz]"#,
    );
    assert!(out.contains("-32700"), "{out}");
    assert!(out.contains("\"id\":null"), "{out}");
}

#[test]
fn invalid_request_object() {
    let r = example_router();
    let out = call(&r, br#"{"jsonrpc": "2.0", "method": 1, "params": "bar"}"#);
    assert!(out.contains("-32600"), "{out}");
    assert!(out.contains("\"id\":null"), "{out}");
}

#[test]
fn invalid_batch_bad_json() {
    let r = example_router();
    let out = call(
        &r,
        br#"[ {"jsonrpc": "2.0", "method": "sum", "params": [1,2,4], "id": "1"}, {"jsonrpc": "2.0", "method" ]"#,
    );
    assert!(out.starts_with('{'), "must be a single object: {out}");
    assert!(out.contains("-32700"), "{out}");
}

#[test]
fn empty_array_is_single_invalid_request() {
    let r = example_router();
    let out = call(&r, b"[]");
    assert!(out.starts_with('{'), "{out}");
    assert!(out.contains("-32600"), "{out}");
    assert!(out.contains("\"id\":null"), "{out}");
}

#[test]
fn invalid_batch_but_not_empty() {
    let r = example_router();
    let out = call(&r, b"[1]");
    assert!(out.starts_with('['), "must be an array: {out}");
    assert_eq!(out.matches("-32600").count(), 1, "{out}");
}

#[test]
fn spec_conformance_batch_of_invalids() {
    let r = example_router();
    let out = call(&r, b"[1,2,3]");
    assert!(out.starts_with('['), "{out}");
    assert_eq!(out.matches("-32600").count(), 3, "{out}");
}

#[test]
fn mixed_batch() {
    let r = example_router();
    let out = call(
        &r,
        br#"[
            {"jsonrpc": "2.0", "method": "sum", "params": [1,2,4], "id": "1"},
            {"jsonrpc": "2.0", "method": "notify_hello", "params": [7]},
            {"jsonrpc": "2.0", "method": "subtract", "params": [42,23], "id": "2"},
            {"foo": "boo"},
            {"jsonrpc": "2.0", "method": "foo.get", "params": {"name": "myself"}, "id": "5"},
            {"jsonrpc": "2.0", "method": "get_data", "id": "9"}
        ]"#,
    );
    assert!(out.starts_with('['), "{out}");
    assert!(out.contains("\"result\":7"), "sum result missing: {out}");
    assert!(
        out.contains("\"result\":19"),
        "subtract result missing: {out}"
    );
    assert!(out.contains("-32600"), "invalid request missing: {out}");
    assert!(out.contains("-32601"), "method-not-found missing: {out}");
    assert!(out.contains("hello"), "get_data result missing: {out}");
    assert!(
        !out.contains("notify_hello"),
        "notification leaked into output: {out}"
    );
}

#[test]
fn all_notification_batch_is_silent() {
    let r = example_router();
    call_empty(
        &r,
        br#"[
            {"jsonrpc": "2.0", "method": "notify_sum", "params": [1,2,4]},
            {"jsonrpc": "2.0", "method": "notify_hello", "params": [7]}
        ]"#,
    );
}

#[test]
fn string_id_is_not_coerced_to_number() {
    let r = example_router();
    let out = call(
        &r,
        br#"{"jsonrpc": "2.0", "method": "subtract", "params": [42, 23], "id": "1"}"#,
    );
    assert!(out.contains("\"id\":\"1\""), "{out}");
}

#[test]
fn wrong_version_is_invalid_request() {
    let r = example_router();
    let out = call(
        &r,
        br#"{"jsonrpc": "1.0", "method": "subtract", "params": [42, 23], "id": 1}"#,
    );
    assert!(out.contains("-32600"), "{out}");
}

#[test]
fn invalid_params_type() {
    let r = example_router();
    let out = call(
        &r,
        br#"{"jsonrpc": "2.0", "method": "subtract", "params": ["a", "b"], "id": 1}"#,
    );
    assert!(out.contains("-32602"), "{out}");
}
