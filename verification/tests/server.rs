use std::sync::Arc;

use jasonrpc::integration::http::{
    internal_error_body, outcome, parse_error_body, reply, resume_request, serve_request,
    HttpOutcome, HttpReply, HttpServing,
};
use jasonrpc::integration::websocket::{serve_step, OpCode, WsError, WsEvent, WsStep};
use jasonrpc::json::{split_array, JsonError, JsonRawValue};
use jasonrpc::protocol::{Error, Id, Request, Response};
use jasonrpc::server::{handler_outcome, Method, Output, Progress, Router};

type Returned = Result<Result<JsonRawValue, JsonError>, Error>;
type Handler = fn(&Request) -> Returned;
type StateHandler = fn(&Arc<i64>, &Request) -> Returned;
type TestRouter = Router<(), Handler, Handler>;

fn to_raw<T: serde::Serialize>(value: &T) -> Result<JsonRawValue, JsonError> {
    let text = serde_json::to_string(value).map_err(|e| JsonError::new(&e.to_string()))?;
    JsonRawValue::from_string(text)
}

fn params<T: serde::de::DeserializeOwned>(request: &Request) -> Option<T> {
    serde_json::from_str(request.params_raw().get()).ok()
}

fn subtract(request: &Request) -> Returned {
    let [a, b]: [i64; 2] = params(request).ok_or_else(Error::invalid_params)?;
    Ok(to_raw(&(a - b)))
}

fn add(request: &Request) -> Returned {
    let (a, b): (i64, i64) = params(request).ok_or_else(Error::invalid_params)?;
    Ok(to_raw(&(a + b)))
}

fn null(_request: &Request) -> Returned {
    Ok(to_raw(&()))
}

fn pong(_request: &Request) -> Returned {
    Ok(to_raw(&"pong"))
}

struct AlwaysFails;

impl serde::Serialize for AlwaysFails {
    fn serialize<S: serde::Serializer>(&self, _s: S) -> Result<S::Ok, S::Error> {
        Err(serde::ser::Error::custom("nope"))
    }
}

fn broken(_request: &Request) -> Returned {
    Ok(to_raw(&AlwaysFails))
}

fn router() -> TestRouter {
    Router::new()
        .register("subtract", subtract as Handler)
        .register("add", add)
        .register("notify", null)
        .register("ping", pong)
        .register("broken", broken)
}

fn run<S>(router: &Router<S, Handler, Handler>, request: &Request) -> Result<JsonRawValue, Error> {
    match router.method(request.method()) {
        Some(Method::Handler(handler)) => handler_outcome(handler(request)),
        Some(Method::WithContext(handler)) => handler_outcome(handler(request)),
        None => panic!("{} is not registered", request.method()),
    }
}

fn handle<S>(router: &Router<S, Handler, Handler>, bytes: &[u8]) -> Output {
    let mut progress = router.handle_bytes(bytes);
    loop {
        match progress {
            Progress::Done(output) => return output,
            Progress::Invoke(invocation) => {
                let outcome = run(router, invocation.request());
                progress = invocation.complete(outcome);
            }
        }
    }
}

fn text(output: &Output) -> String {
    String::from_utf8(output.to_bytes().unwrap().unwrap()).unwrap()
}

#[test]
fn positional_call() {
    let out = handle(
        &router(),
        br#"{"jsonrpc":"2.0","method":"subtract","params":[42,23],"id":1}"#,
    );
    let s = text(&out);
    assert!(s.contains("\"result\":19"), "{s}");
}

#[test]
fn notification_yields_nothing() {
    let out = handle(
        &router(),
        br#"{"jsonrpc":"2.0","method":"notify","params":[1]}"#,
    );
    assert!(matches!(out, Output::Empty));
    assert!(out.to_bytes().unwrap().is_none());
}

#[test]
fn unknown_method() {
    let out = handle(&router(), br#"{"jsonrpc":"2.0","method":"nope","id":"1"}"#);
    let s = text(&out);
    assert!(s.contains("-32601"), "{s}");
    assert!(s.contains("\"id\":\"1\""), "{s}");
}

#[test]
fn invalid_json_is_parse_error_with_null_id() {
    let s = text(&handle(&router(), b"{not json"));
    assert!(s.contains("-32700"), "{s}");
    assert!(s.contains("\"id\":null"), "{s}");
}

#[test]
fn empty_batch_is_single_invalid_request() {
    let s = text(&handle(&router(), b"[]"));
    assert!(
        s.starts_with('{'),
        "empty batch must yield a single object: {s}"
    );
    assert!(s.contains("-32600"), "{s}");
}

#[test]
fn server_batch_of_invalids() {
    let s = text(&handle(&router(), b"[1,2,3]"));
    assert!(s.starts_with('['), "{s}");
    assert_eq!(s.matches("-32600").count(), 3, "{s}");
}

#[test]
fn mixed_batch_drops_notifications() {
    let s = text(&handle(
        &router(),
        br#"[
                    {"jsonrpc":"2.0","method":"subtract","params":[42,23],"id":"1"},
                    {"jsonrpc":"2.0","method":"notify","params":[7]},
                    {"jsonrpc":"2.0","method":"nope","id":"2"}
                ]"#,
    ));
    assert_eq!(s.matches("\"id\"").count(), 2, "{s}");
}

#[test]
fn all_notification_batch_yields_nothing() {
    let out = handle(
        &router(),
        br#"[
                    {"jsonrpc":"2.0","method":"notify","params":[1]},
                    {"jsonrpc":"2.0","method":"notify","params":[2]}
                ]"#,
    );
    assert!(matches!(out, Output::Empty));
}

#[test]
fn oversized_batch_is_rejected() {
    let r = router().with_max_batch_len(2);
    let s = text(&handle(
        &r,
        br#"[
                    {"jsonrpc":"2.0","method":"subtract","params":[3,1],"id":1},
                    {"jsonrpc":"2.0","method":"subtract","params":[5,1],"id":2},
                    {"jsonrpc":"2.0","method":"subtract","params":[9,1],"id":3}
                ]"#,
    ));
    assert!(s.starts_with('{'), "must be a single object: {s}");
    assert!(s.contains("-32600"), "{s}");
    assert!(!s.contains("\"result\""), "no handlers should run: {s}");
    assert_eq!(
        s,
        r#"{"jsonrpc":"2.0","error":{"code":-32600,"message":"Invalid Request","data":"batch of 3 entries exceeds maximum of 2"},"id":null}"#
    );
}

#[test]
fn batch_at_limit_is_allowed() {
    let r = router().with_max_batch_len(2);
    let s = text(&handle(
        &r,
        br#"[
                    {"jsonrpc":"2.0","method":"subtract","params":[3,1],"id":1},
                    {"jsonrpc":"2.0","method":"subtract","params":[5,1],"id":2}
                ]"#,
    ));
    assert!(s.starts_with('['), "{s}");
    assert_eq!(s.matches("\"result\"").count(), 2, "{s}");
}

#[test]
fn batch_limit_does_not_affect_single_requests() {
    let r = router().with_max_batch_len(0);
    let s = text(&handle(
        &r,
        br#"{"jsonrpc":"2.0","method":"subtract","params":[42,23],"id":1}"#,
    ));
    assert!(s.contains("\"result\":19"), "{s}");
    let s = text(&handle(&r, b"[1]"));
    assert!(s.contains("exceeds maximum of 0"), "{s}");
}

#[test]
fn cloned_router_shares_handlers_and_dispatches() {
    let r = router().with_max_batch_len(5);
    let clone = r.clone();
    // The clone has the same table, not a copy of it.
    for name in r.method_names() {
        assert!(std::ptr::eq(r.method(name).unwrap(), clone.method(name).unwrap()));
    }
    let s = text(&handle(
        &clone,
        br#"{"jsonrpc":"2.0","method":"subtract","params":[42,23],"id":1}"#,
    ));
    assert!(s.contains("\"result\":19"), "{s}");
    let s = text(&handle(&clone, b"[1,1,1,1,1,1]"));
    assert!(s.contains("exceeds maximum of 5"), "{s}");
}

#[test]
fn clone_then_register_is_copy_on_write() {
    let base = router();
    let extended = base.clone().register("extra", pong as Handler);
    assert_eq!(extended.method_names().len(), base.method_names().len() + 1);
    assert!(base.method("extra").is_none());
    assert!(extended.method("extra").is_some());
    assert!(!base.is_registered("extra"));
    assert!(extended.is_registered("extra") && extended.is_registered("ping"));
}

#[test]
fn router_clone_works_with_arc_state() {
    let get: StateHandler = |state, _req| Ok(to_raw(&**state));
    let router = Router::<Arc<i64>, StateHandler, Handler>::with_state(Arc::new(7_i64))
        .register("get", get);

    let mut handles = Vec::new();
    for _ in 0..4 {
        let r = router.clone();
        assert!(Arc::ptr_eq(r.state(), router.state()));
        handles.push(r);
    }
    for r in handles {
        let input = br#"{"jsonrpc":"2.0","method":"get","id":1}"#;
        let Progress::Invoke(invocation) = r.handle_bytes(input) else {
            panic!("expected a handler to be run");
        };
        let Some(Method::Handler(handler)) = r.method(invocation.request().method()) else {
            panic!("get is not registered");
        };
        let outcome = handler_outcome(handler(r.state(), invocation.request()));
        let Progress::Done(out) = invocation.complete(outcome) else {
            panic!("expected the output");
        };
        assert!(text(&out).contains("\"result\":7"));
    }
}

#[test]
fn methods_are_listed_by_name() {
    let mut names = router().method_names().iter().map(|s| s.to_string()).collect::<Vec<_>>();
    names.sort();
    assert_eq!(names, ["add", "broken", "notify", "ping", "subtract"]);
    assert!(TestRouter::new().method_names().is_empty());
}

#[test]
fn state_accessor_returns_shared_handle() {
    let router = Router::<Arc<i64>, Handler, Handler>::with_state(Arc::new(99));
    assert_eq!(**router.state(), 99);
    let handle = Arc::clone(router.state());
    assert_eq!(*handle, 99);
}

#[test]
fn blank_messages_are_parse_errors() {
    for blank in ["", " \t\r\n\x0c"] {
        let s = text(&handle(&router(), blank.as_bytes()));
        assert_eq!(
            s,
            r#"{"jsonrpc":"2.0","error":{"code":-32700,"message":"Parse error"},"id":null}"#
        );
    }
    let s = text(&handle(&router(), br#"[["2.0","ping",[1],1]]"#));
    assert_eq!(
        s,
        r#"[{"jsonrpc":"2.0","error":{"code":-32600,"message":"Invalid Request"},"id":null}]"#
    );
    let s = text(&handle(&router(), b"\x0c[1]"));
    assert!(s.contains("-32700"), "{s}");
    let s = text(&handle(&router(), b"\"text\""));
    assert!(s.contains("-32600"), "{s}");
    let s = text(&handle(&router(), b"tru"));
    assert!(s.contains("-32700"), "{s}");
}

#[test]
fn answers_are_in_order_and_form_an_array() {
    let out = handle(
        &router(),
        br#"[{"jsonrpc":"2.0","method":"ping","id":1},2,{"jsonrpc":"2.0","method":"nope"},
            {"jsonrpc":"2.0","method":"nope","id":null},{"jsonrpc":"2.0","method":"add","params":[1,2],"id":"z"}]"#,
    );
    let bytes = out.to_bytes().unwrap().unwrap();
    let rows = split_array(&bytes).unwrap();
    let ids: Vec<Id> = rows
        .iter()
        .map(|row| Response::from_slice(row).unwrap().id().clone())
        .collect();
    assert_eq!(
        ids,
        [Id::Number(1), Id::Null, Id::Null, Id::String("z".into())]
    );
    match out {
        Output::Batch(responses) => {
            assert_eq!(responses.len(), 4);
            assert!(responses.iter().all(Response::is_valid));
            for (row, response) in rows.iter().zip(&responses) {
                assert_eq!(*row, response.to_vec());
            }
        }
        _ => panic!("expected a batch"),
    }
}

#[test]
fn handlers_run_one_after_the_other() {
    let router = router();
    let progress = router.handle_bytes(
        br#"[{"jsonrpc":"2.0","method":"ping","id":1},{"jsonrpc":"2.0","method":"notify"}]"#,
    );
    let Progress::Invoke(first) = progress else {
        panic!("expected a handler to run");
    };
    assert_eq!(first.request().method(), "ping");
    let Progress::Invoke(second) = first.complete(Err(Error::new(1, "one"))) else {
        panic!("expected a handler to run");
    };
    assert_eq!(second.request().method(), "notify");
    let Progress::Done(output) = second.complete(Err(Error::new(2, "two"))) else {
        panic!("expected the output");
    };
    assert_eq!(
        text(&output),
        r#"[{"jsonrpc":"2.0","error":{"code":1,"message":"one"},"id":1}]"#
    );
}

#[test]
fn single_requests_can_be_handed_over_read() {
    let router = router();
    let request = Request::call("add", to_raw(&(2, 3)), Id::Number(8));
    let Progress::Invoke(invocation) = router.handle_request(request) else {
        panic!("expected a handler to run");
    };
    let outcome = run(&router, invocation.request());
    let Progress::Done(Output::Single(response)) = invocation.complete(outcome) else {
        panic!("expected a response");
    };
    assert_eq!(response.result_raw().unwrap().get(), "5");
    assert_eq!(response.id(), &Id::Number(8));
    let silent = router.handle_request(Request::notification("nope", to_raw(&())));
    assert!(matches!(silent, Progress::Done(Output::Empty)));
}

#[test]
fn results_that_cannot_be_serialized_are_internal_errors() {
    let s = text(&handle(
        &router(),
        br#"{"jsonrpc":"2.0","method":"broken","id":1}"#,
    ));
    assert_eq!(
        s,
        r#"{"jsonrpc":"2.0","error":{"code":-32603,"message":"Internal error","data":"nope"},"id":1}"#
    );
    let s = text(&handle(
        &router(),
        br#"{"jsonrpc":"2.0","method":"add","params":"x","id":1}"#,
    ));
    assert!(s.contains("-32602"), "{s}");
}

fn serve(router: &TestRouter, body: Option<&[u8]>) -> HttpReply {
    let mut serving = serve_request(router, body);
    loop {
        match serving {
            HttpServing::Reply(reply) => return reply,
            HttpServing::Run(invocation) => {
                let outcome = run(router, invocation.request());
                serving = resume_request(invocation, outcome);
            }
        }
    }
}

#[test]
fn valid_call_returns_200() {
    let body = br#"{"jsonrpc":"2.0","method":"ping","id":1}"#;
    let resp = serve(&router(), Some(body));
    assert_eq!(resp.status, 200);
    assert!(resp.json);
    let val: serde_json::Value = serde_json::from_slice(&resp.body).unwrap();
    assert_eq!(val["result"], "pong");
}

#[test]
fn notification_returns_204() {
    let resp = serve(&router(), Some(br#"{"jsonrpc":"2.0","method":"notify"}"#));
    assert_eq!(resp.status, 204);
    assert!(!resp.json && resp.body.is_empty());
}

#[test]
fn invalid_json_returns_parse_error() {
    let resp = serve(&router(), Some(b"not json"));
    assert_eq!(resp.status, 200);
    let val: serde_json::Value = serde_json::from_slice(&resp.body).unwrap();
    assert_eq!(val["error"]["code"], -32700);
}

#[test]
fn unknown_method_returns_error() {
    let resp = serve(&router(), Some(br#"{"jsonrpc":"2.0","method":"nope","id":1}"#));
    assert_eq!(resp.status, 200);
    let val: serde_json::Value = serde_json::from_slice(&resp.body).unwrap();
    assert_eq!(val["error"]["code"], -32601);
}

#[test]
fn bodies_that_cannot_be_read_are_parse_errors() {
    let resp = serve(&router(), None);
    assert_eq!(resp.status, 200);
    assert!(resp.json);
    assert_eq!(resp.body, parse_error_body());
    assert_eq!(
        String::from_utf8(parse_error_body()).unwrap(),
        r#"{"jsonrpc":"2.0","error":{"code":-32700,"message":"Parse error"},"id":null}"#
    );
    assert_eq!(
        String::from_utf8(internal_error_body()).unwrap(),
        r#"{"jsonrpc":"2.0","error":{"code":-32603,"message":"Internal error"},"id":null}"#
    );
}

#[test]
fn http_outcomes_become_replies() {
    let empty = outcome(&Output::Empty);
    assert_eq!((empty.status, empty.body.len()), (204, 0));
    let odd = reply(HttpOutcome { status: 42, body: vec![1] });
    assert_eq!((odd.status, odd.json, odd.body), (200, true, vec![1]));
    let own = reply(HttpOutcome { status: 404, body: vec![] });
    assert_eq!((own.status, own.json), (404, true));
    let none = reply(HttpOutcome { status: 204, body: vec![1] });
    assert_eq!((none.status, none.json, none.body), (204, false, vec![]));
}

/// Serves a WebSocket connection on which these things happen, and collects what is written.
fn converse(
    router: &TestRouter,
    events: Vec<WsEvent<String>>,
) -> (Vec<String>, Option<Result<(), WsError>>) {
    let mut written = Vec::new();
    for event in events {
        let mut step = serve_step(router, event);
        loop {
            step = match step {
                WsStep::Read => break,
                WsStep::Run(invocation) => {
                    let outcome = run(router, invocation.request());
                    serve_step(router, WsEvent::Handled(invocation, outcome))
                }
                WsStep::Write(bytes) => {
                    written.push(String::from_utf8(bytes).unwrap());
                    serve_step(router, WsEvent::Written(Ok(())))
                }
                WsStep::WriteClose(code, reason) => {
                    written.push(format!("close {code} {reason}"));
                    serve_step(router, WsEvent::CloseWritten(Err("gone".into())))
                }
                WsStep::Finish(result) => return (written, Some(result)),
            };
        }
    }
    (written, None)
}

fn message(code: OpCode, text: &str) -> WsEvent<String> {
    WsEvent::Message(code, text.as_bytes().to_vec())
}

#[test]
fn dispatches_call_and_suppresses_notification() {
    let (written, result) = converse(
        &router(),
        vec![
            message(
                OpCode::Text,
                r#"{"jsonrpc":"2.0","method":"add","params":[40,2],"id":1}"#,
            ),
            message(OpCode::Ping, "x"),
            message(OpCode::Pong, "x"),
            message(OpCode::Continuation, "x"),
            message(OpCode::Text, r#"{"jsonrpc":"2.0","method":"notify","params":[]}"#),
            message(
                OpCode::Binary,
                r#"{"jsonrpc":"2.0","method":"add","params":[1,1],"id":2}"#,
            ),
            message(OpCode::Close, ""),
        ],
    );
    assert_eq!(
        written,
        [
            r#"{"jsonrpc":"2.0","result":42,"id":1}"#,
            r#"{"jsonrpc":"2.0","result":2,"id":2}"#
        ]
    );
    assert!(result.unwrap().is_ok());
}

#[test]
fn unknown_method_returns_error_frame() {
    let (written, _) = converse(
        &router(),
        vec![message(OpCode::Text, r#"{"jsonrpc":"2.0","method":"nope","id":"x"}"#)],
    );
    assert!(written[0].contains("-32601"), "{written:?}");
    assert!(written[0].contains("\"id\":\"x\""), "{written:?}");
}

#[test]
fn shutdown_signal_closes_cleanly() {
    let (written, result) = converse(&router(), vec![WsEvent::Shutdown]);
    assert_eq!(written, ["close 1000 server shutting down"]);
    assert!(result.unwrap().is_ok());
}

#[test]
fn shutdown_still_answers_pending_request() {
    let (written, result) = converse(
        &router(),
        vec![
            message(
                OpCode::Text,
                r#"{"jsonrpc":"2.0","method":"add","params":[40,2],"id":1}"#,
            ),
            WsEvent::Shutdown,
        ],
    );
    assert!(written[0].contains("\"result\":42"), "{written:?}");
    assert!(written[1].starts_with("close"), "{written:?}");
    assert!(result.unwrap().is_ok());
}

#[test]
fn connections_end_well_or_with_their_failure() {
    let (_, result) = converse(&router(), vec![WsEvent::Closed]);
    assert!(result.unwrap().is_ok());
    let (_, result) = converse(&router(), vec![WsEvent::ReadFailed("torn".into())]);
    let WsError::WebSocket(cause) = result.unwrap().unwrap_err() else {
        panic!("expected the failure of the connection");
    };
    assert_eq!(cause, "torn");
    let step = serve_step(&router(), WsEvent::Written(Err("full".to_owned())));
    assert!(matches!(step, WsStep::Finish(Err(_))));
    let error = WsError::WebSocket("full".to_owned());
    assert_eq!(error.describe("full"), "websocket error: full");
}
