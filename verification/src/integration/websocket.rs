//! A server behind WebSocket: each text or binary message is a message of the protocol, and its
//! output goes back as a text message.

use crate::error;
use crate::json::JsonRawValue;
use crate::protocol::Error;
use crate::server;
use crate::server::Invocation;
use crate::server::OutcomeView;
use crate::server::PlanView;
use crate::server::Progress;
use crate::server::Router;
use vstd::prelude::*;

verus! {

/// A failure of a WebSocket connection. `E` is what the connection reports.
#[derive(Debug)]
#[non_exhaustive]
pub enum WsError<E = String> {
    /// The protocol or I/O failed.
    WebSocket(E),
}

impl<E> From<E> for WsError<E> {
    fn from(cause: E) -> (failure: Self) {
        WsError::WebSocket(cause)
    }
}

impl<E> vstd::std_specs::convert::FromSpecImpl<E> for WsError<E> {
    open spec fn obeys_from_spec() -> bool {
        true
    }

    open spec fn from_spec(cause: E) -> Self {
        WsError::WebSocket(cause)
    }
}

impl<E> WsError<E> {
    /// Shows the failure, where what the connection reports is shown as `cause`.
    pub fn describe(&self, cause: &str) -> (text: String)
        ensures
            text@ == "websocket error: "@ + cause@,
    {
        error::joined("websocket error: ", cause)
    }
}

/// The kind of a WebSocket message.
#[derive(Clone, Copy, Debug, PartialEq, Eq, Structural)]
pub enum OpCode {
    Continuation,
    Text,
    Binary,
    Close,
    Ping,
    Pong,
}

/// What happened on a connection.
pub enum WsEvent<E> {
    /// A message has arrived.
    Message(OpCode, Vec<u8>),
    /// The peer has closed the connection.
    Closed,
    /// Reading failed.
    ReadFailed(E),
    /// The server is to shut down.
    Shutdown,
    /// A handler was run.
    Handled(Invocation, Result<JsonRawValue, Error>),
    /// A reply was written, or could not be written.
    Written(Result<(), E>),
    /// A close message was written, or could not be written.
    CloseWritten(Result<(), E>),
}

/// What is to be done next on a connection.
pub enum WsStep<E> {
    /// Read the next message.
    Read,
    /// Run a handler.
    Run(Invocation),
    /// Write a text message.
    Write(Vec<u8>),
    /// Write a close message.
    WriteClose(u16, String),
    /// Stop.
    Finish(Result<(), WsError<E>>),
}

/// The status of a normal closure.
pub const NORMAL_CLOSURE: u16 = 1000;

/// Whether a connection goes on with a plan, after its handlers came to the given outcomes: it
/// runs the next handler, writes the output, or reads on if nothing is to be sent.
pub open spec fn goes_on<E>(step: WsStep<E>, plan: PlanView, outcomes: Seq<OutcomeView>) -> bool {
    match step {
        WsStep::Run(next) => next.plan() == plan && next.outcomes() == outcomes,
        WsStep::Write(bytes) => {
            &&& server::calls(plan.entries).len() == outcomes.len()
            &&& server::output_bytes(server::plan_output(plan, outcomes)) == Some(bytes@)
        },
        WsStep::Read => {
            &&& server::calls(plan.entries).len() == outcomes.len()
            &&& server::output_bytes(server::plan_output(plan, outcomes)) is None
        },
        _ => false,
    }
}

/// Goes on from the progress of a message.
fn proceed<E>(progress: Progress) -> (step: WsStep<E>)
    ensures
        match progress {
            Progress::Done(output) => match step {
                WsStep::Write(bytes) => server::output_bytes(output@) == Some(bytes@),
                WsStep::Read => server::output_bytes(output@) is None,
                _ => false,
            },
            Progress::Invoke(next) => step == WsStep::<E>::Run(next),
        },
{
    match progress {
        Progress::Done(output) => match output.to_bytes() {
            Ok(Some(bytes)) => WsStep::Write(bytes),
            Ok(None) => WsStep::Read,
            Err(_) => WsStep::Write(crate::integration::http::internal_error_body()),
        },
        Progress::Invoke(next) => WsStep::Run(next),
    }
}

/// Takes what happened on a connection, and says what is to be done next.
///
/// Text and binary messages are processed; pings, pongs and continuations are passed over. When
/// the peer closes, serving ends well. When the server is to shut down, a close message is
/// written and serving ends well, whether or not that message could be written. A failure to
/// read or to write a reply ends serving with that failure.
pub fn serve_step<S, H, C, E>(router: &Router<S, H, C>, event: WsEvent<E>) -> (step: WsStep<E>)
    ensures
        match event {
            WsEvent::Message(code, payload) => match code {
                OpCode::Text | OpCode::Binary => goes_on(
                    step,
                    server::message_plan(payload@, router.methods().dom(), router.limit()),
                    Seq::empty(),
                ),
                OpCode::Close => step == WsStep::<E>::Finish(Ok(())),
                _ => step == WsStep::<E>::Read,
            },
            WsEvent::Closed => step == WsStep::<E>::Finish(Ok(())),
            WsEvent::ReadFailed(cause) => step == WsStep::Finish(Err(WsError::WebSocket(cause))),
            WsEvent::Shutdown => step matches WsStep::WriteClose(code, reason) && code == 1000
                && reason@ == "server shutting down"@,
            WsEvent::Handled(invocation, outcome) => goes_on(
                step,
                invocation.plan(),
                invocation.outcomes().push(server::outcome_view(outcome)),
            ),
            WsEvent::Written(written) => match written {
                Ok(_) => step == WsStep::<E>::Read,
                Err(cause) => step == WsStep::Finish(Err(WsError::WebSocket(cause))),
            },
            WsEvent::CloseWritten(_) => step == WsStep::<E>::Finish(Ok(())),
        },
{
    match event {
        WsEvent::Message(code, payload) => match code {
            OpCode::Text | OpCode::Binary => proceed(router.handle_bytes(payload.as_slice())),
            OpCode::Close => WsStep::Finish(Ok(())),
            _ => WsStep::Read,
        },
        WsEvent::Closed => WsStep::Finish(Ok(())),
        WsEvent::ReadFailed(cause) => WsStep::Finish(Err(WsError::WebSocket(cause))),
        WsEvent::Shutdown => WsStep::WriteClose(NORMAL_CLOSURE, "server shutting down".to_owned()),
        WsEvent::Handled(invocation, outcome) => proceed(invocation.complete(outcome)),
        WsEvent::Written(written) => match written {
            Ok(_) => WsStep::Read,
            Err(cause) => WsStep::Finish(Err(WsError::WebSocket(cause))),
        },
        WsEvent::CloseWritten(_) => WsStep::Finish(Ok(())),
    }
}

} // verus!
