//! A server behind HTTP: the body of a request is a message, and its output is the body of the
//! response.

use crate::json::JsonRawValue;
use crate::protocol;
use crate::protocol::Error;
use crate::protocol::Id;
use crate::protocol::IdView;
use crate::protocol::Response;
use crate::server;
use crate::server::Invocation;
use crate::server::OutcomeView;
use crate::server::Output;
use crate::server::OutputView;
use crate::server::PlanView;
use crate::server::Progress;
use crate::server::Router;
use vstd::prelude::*;

verus! {

/// What an HTTP response is made of.
#[verifier::ext_equal]
pub struct HttpOutcomeView {
    pub status: u16,
    pub body: Seq<u8>,
}

/// The status and the body of an HTTP response. The body is empty if the status is 204.
#[derive(Debug)]
pub struct HttpOutcome {
    pub status: u16,
    pub body: Vec<u8>,
}

impl View for HttpOutcome {
    type V = HttpOutcomeView;

    open spec fn view(&self) -> HttpOutcomeView {
        HttpOutcomeView { status: self.status, body: self.body@ }
    }
}

/// The JSON of an error under a null id.
pub open spec fn error_body(error: protocol::ErrorView) -> Seq<u8> {
    protocol::response_text(protocol::error_response(IdView::Null, error))
}

/// The body for a request whose own body could not be read: a Parse error under a null id.
pub fn parse_error_body() -> (body: Vec<u8>)
    ensures
        body@ == error_body(server::parse_error()),
{
    Response::error(Id::Null, Error::parse_error()).to_vec()
}

/// The body for an output that could not be serialized: an Internal error under a null id.
pub fn internal_error_body() -> (body: Vec<u8>)
    ensures
        body@ == error_body(server::internal_error()),
{
    Response::error(Id::Null, Error::internal_error()).to_vec()
}

/// The HTTP response for an output: 200 with its bytes, or 204 with an empty body if nothing is
/// to be sent.
pub open spec fn output_outcome(output: OutputView) -> HttpOutcomeView {
    match server::output_bytes(output) {
        Some(bytes) => HttpOutcomeView { status: 200, body: bytes },
        None => HttpOutcomeView { status: 204, body: Seq::empty() },
    }
}

/// The HTTP response for an output.
pub fn outcome(output: &Output) -> (outcome: HttpOutcome)
    ensures
        outcome@ == output_outcome(output@),
{
    match output.to_bytes() {
        Ok(Some(bytes)) => HttpOutcome { status: 200, body: bytes },
        Ok(None) => HttpOutcome { status: 204, body: Vec::new() },
        Err(_) => HttpOutcome { status: 200, body: internal_error_body() },
    }
}

/// An HTTP response. A body of JSON goes out with the content type `application/json`.
#[derive(Debug)]
pub struct HttpReply {
    pub status: u16,
    pub json: bool,
    pub body: Vec<u8>,
}

/// Makes an HTTP response: 204 has no body and no content type, and a number that is no status
/// code is replaced by 200.
pub fn reply(outcome: HttpOutcome) -> (reply: HttpReply)
    ensures
        if outcome.status == 204 {
            reply.status == 204 && !reply.json && reply.body@ == Seq::<u8>::empty()
        } else {
            &&& reply.status == if 100 <= outcome.status <= 999 {
                outcome.status
            } else {
                200
            }
            &&& reply.json
            &&& reply.body@ == outcome.body@
        },
{
    if outcome.status == 204 {
        HttpReply { status: 204, json: false, body: Vec::new() }
    } else {
        let status: u16 = if outcome.status >= 100 && outcome.status <= 999 {
            outcome.status
        } else {
            200
        };
        HttpReply { status, json: true, body: outcome.body }
    }
}

/// How far the serving of an HTTP request has come.
pub enum HttpServing {
    /// A handler is to be run.
    Run(Invocation),
    /// The response is to be sent.
    Reply(HttpReply),
}

/// Whether a response is sent for an output.
pub open spec fn replies(reply: HttpReply, output: OutputView) -> bool {
    let outcome = output_outcome(output);
    reply.status == outcome.status && reply.body@ == outcome.body && reply.json == (outcome.status
        != 204)
}

/// Whether serving goes on with a plan, after its handlers came to the given outcomes: it runs the
/// next handler, or it replies with the output.
pub open spec fn serves(
    serving: HttpServing,
    plan: PlanView,
    outcomes: Seq<OutcomeView>,
) -> bool {
    match serving {
        HttpServing::Run(next) => next.plan() == plan && next.outcomes() == outcomes,
        HttpServing::Reply(reply) => {
            &&& server::calls(plan.entries).len() == outcomes.len()
            &&& replies(reply, server::plan_output(plan, outcomes))
        },
    }
}

/// Goes on from the progress of a message.
fn proceed(progress: Progress) -> (serving: HttpServing)
    ensures
        match progress {
            Progress::Done(output) => serving matches HttpServing::Reply(reply) && replies(
                reply,
                output@,
            ),
            Progress::Invoke(next) => serving == HttpServing::Run(next),
        },
{
    match progress {
        Progress::Done(output) => HttpServing::Reply(reply(outcome(&output))),
        Progress::Invoke(next) => HttpServing::Run(next),
    }
}

/// Begins to serve an HTTP request, whose body was read, or could not be read.
///
/// If it could not, the response is a Parse error under a null id, with status 200.
pub fn serve_request<S, H, C>(router: &Router<S, H, C>, body: Option<&[u8]>) -> (serving:
    HttpServing)
    ensures
        match body {
            Some(bytes) => serves(
                serving,
                server::message_plan(bytes@, router.methods().dom(), router.limit()),
                Seq::empty(),
            ),
            None => {
                &&& serving matches HttpServing::Reply(reply)
                &&& reply.status == 200
                &&& reply.json
                &&& reply.body@ == error_body(server::parse_error())
            },
        },
{
    match body {
        Some(bytes) => proceed(router.handle_bytes(bytes)),
        None => HttpServing::Reply(reply(HttpOutcome { status: 200, body: parse_error_body() })),
    }
}

/// Goes on with serving after a handler was run.
pub fn resume_request(
    invocation: Invocation,
    outcome: Result<JsonRawValue, Error>,
) -> (serving: HttpServing)
    ensures
        serves(
            serving,
            invocation.plan(),
            invocation.outcomes().push(server::outcome_view(outcome)),
        ),
{
    proceed(invocation.complete(outcome))
}

} // verus!
