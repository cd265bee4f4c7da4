//! What holds of what a server sends, over HTTP and over WebSocket.

use crate::integration::http;
use crate::integration::http::HttpReply;
use crate::integration::http::HttpServing;
use crate::integration::websocket;
use crate::integration::websocket::WsStep;
use crate::protocol;
use crate::protocol::ErrorView;
use crate::protocol::IdView;
use crate::protocol_laws;
use crate::server;
use crate::server::OutcomeView;
use crate::server::OutputView;
use crate::server::PlanView;
use vstd::prelude::*;
use vstd::utf8::*;

verus! {

/// What is sent over HTTP for an output: if nothing is to be sent, 204 without a body and without a
/// content type; else 200 and JSON, with exactly the bytes of the output, for a single response and
/// for a batch alike.
pub proof fn law_http_replies(reply: HttpReply, output: OutputView)
    requires
        http::replies(reply, output),
    ensures
        reply.status == 204 <==> output is Empty,
        output is Empty ==> !reply.json && reply.body@.len() == 0,
        !(output is Empty) ==> {
            &&& reply.status == 200
            &&& reply.json
            &&& server::output_bytes(output) == Some(reply.body@)
        },
        server::output_bytes(output) matches Some(bytes) ==> reply.status == 200 && reply.json
            && reply.body@ == bytes,
{
}

/// The status and the body for an output.
pub proof fn law_http_outcomes(output: OutputView)
    ensures
        ({
            let outcome = http::output_outcome(output);
            &&& output is Empty ==> outcome.status == 204 && outcome.body.len() == 0
            &&& !(output is Empty) ==> outcome.status == 200 && server::output_bytes(output)
                == Some(outcome.body)
        }),
{
}

/// When the handlers of a message have come to their outcomes, the reply is sent for the answers to
/// them: a single one as it is, those to a batch as an array, and 204 if there are none. Before,
/// the next handler is run.
pub proof fn law_http_serving(serving: HttpServing, plan: PlanView, outcomes: Seq<OutcomeView>)
    requires
        http::serves(serving, plan, outcomes),
    ensures
        match serving {
            HttpServing::Run(next) => next.plan() == plan && next.outcomes() == outcomes,
            HttpServing::Reply(reply) => {
                let answers = server::answers(plan.entries, outcomes);
                &&& server::calls(plan.entries).len() == outcomes.len()
                &&& reply.status == 204 <==> answers.len() == 0
                &&& answers.len() == 0 ==> !reply.json && reply.body@.len() == 0
                &&& answers.len() > 0 ==> {
                    &&& reply.status == 200
                    &&& reply.json
                    &&& Some(reply.body@) == server::output_bytes(
                        if plan.batch {
                            OutputView::Batch(answers)
                        } else {
                            OutputView::Single(answers[0])
                        },
                    )
                }
            },
        },
{
}

/// The same answers go out over WebSocket as over HTTP: where an HTTP reply has a body, a message
/// with those bytes is written, and where it has none, nothing is.
pub proof fn law_same_bytes<E>(
    serving: HttpServing,
    step: WsStep<E>,
    plan: PlanView,
    outcomes: Seq<OutcomeView>,
)
    requires
        http::serves(serving, plan, outcomes),
        websocket::goes_on(step, plan, outcomes),
        !(serving is Run),
        !(step is Run),
    ensures
        serving matches HttpServing::Reply(reply) && match step {
            WsStep::Write(bytes) => reply.status == 200 && reply.body@ == bytes@,
            WsStep::Read => reply.status == 204,
            _ => false,
        },
{
}

/// What is done on a WebSocket connection with a message: a handler is run, all answers are written
/// in one message, or nothing is written because there are none.
pub proof fn law_websocket_steps<E>(step: WsStep<E>, plan: PlanView, outcomes: Seq<OutcomeView>)
    requires
        websocket::goes_on(step, plan, outcomes),
    ensures
        ({
            let answers = server::answers(plan.entries, outcomes);
            match step {
                WsStep::Run(next) => next.plan() == plan && next.outcomes() == outcomes,
                WsStep::Write(bytes) => {
                    &&& server::calls(plan.entries).len() == outcomes.len()
                    &&& answers.len() > 0
                    &&& Some(bytes@) == server::output_bytes(
                        if plan.batch {
                            OutputView::Batch(answers)
                        } else {
                            OutputView::Single(answers[0])
                        },
                    )
                },
                WsStep::Read => {
                    &&& server::calls(plan.entries).len() == outcomes.len()
                    &&& answers.len() == 0
                },
                _ => false,
            }
        }),
{
}

/// The body that is sent for an error under a null id, byte by byte.
pub proof fn law_error_bodies(error: ErrorView)
    ensures
        http::error_body(error) == encode_utf8("{\"jsonrpc\":"@) + encode_utf8("\"2.0\""@)
            + encode_utf8(",\"error\":"@) + protocol_laws::wire_error(error) + encode_utf8(
            ",\"id\":"@,
        ) + encode_utf8("null"@) + encode_utf8("}"@),
{
    let response = protocol::error_response(IdView::Null, error);
    protocol_laws::law_response_text(response);
    let front = encode_utf8("{\"jsonrpc\":"@) + encode_utf8("\"2.0\""@);
    let middle = encode_utf8(",\"error\":"@) + protocol_laws::wire_error(error);
    let last = encode_utf8(",\"id\":"@) + encode_utf8("null"@);
    lemma_row(front, middle, encode_utf8(",\"id\":"@), encode_utf8("null"@));
    lemma_row(front, encode_utf8(",\"error\":"@), protocol_laws::wire_error(error), last);
    assert(front + Seq::<u8>::empty() + middle == front + middle);
}

/// How texts in a row are grouped does not matter.
proof fn lemma_row(a: Seq<u8>, b: Seq<u8>, c: Seq<u8>, d: Seq<u8>)
    ensures
        a + b + (c + d) == a + b + c + d,
        a + (b + c) + d == a + b + c + d,
        a + (b + c) == a + b + c,
        a + Seq::<u8>::empty() == a,
{
    assert(a + b + (c + d) =~= a + b + c + d);
    assert(a + (b + c) + d =~= a + b + c + d);
    assert(a + (b + c) =~= a + b + c);
    assert(a + Seq::<u8>::empty() =~= a);
}

/// The codes and the messages of the errors that a server sends of its own accord.
pub proof fn law_error_codes()
    ensures
        server::parse_error().code == -32700,
        server::parse_error().message == "Parse error"@,
        server::parse_error().data is None,
        server::invalid_request().code == -32600,
        server::invalid_request().message == "Invalid Request"@,
        server::invalid_request().data is None,
        server::method_not_found().code == -32601,
        server::method_not_found().message == "Method not found"@,
        server::method_not_found().data is None,
        server::internal_error().code == -32603,
        server::internal_error().message == "Internal error"@,
        server::internal_error().data is None,
        protocol::codes::INVALID_PARAMS == -32602,
        protocol::codes::SERVER_ERROR_MIN == -32099,
        protocol::codes::SERVER_ERROR_MAX == -32000,
        websocket::NORMAL_CLOSURE == 1000,
{
}

} // verus!
