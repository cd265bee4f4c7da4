//! What is seen of values in contracts: nothing is left out, and different values look different.

use crate::client::http::HttpTransportError;
use crate::client::http::HttpTransportErrorView;
use crate::client::multiplex::MultiplexError;
use crate::client::multiplex::MultiplexErrorView;
use crate::error::ClientError;
use crate::error::ClientErrorView;
use crate::error::TransportError;
use crate::error::TransportErrorView;
use crate::integration::http::HttpOutcome;
use crate::integration::websocket::WsError;
use crate::json;
use crate::json::JsonError;
use crate::json::JsonRawValue;
use crate::object;
use crate::object::Member;
use crate::object::NewMember;
use crate::protocol;
use crate::protocol::Error;
use crate::protocol::ErrorView;
use crate::protocol::Id;
use crate::protocol::IdView;
use crate::protocol::Response;
use crate::server;
use crate::server::Entry;
use crate::server::EntryView;
use crate::server::Output;
use crate::server::OutputView;
use crate::span;
use crate::span::Span;
use crate::transport;
use crate::transport::io::ReadStep;
use crate::transport::io::ReadStepView;
use vstd::prelude::*;
use vstd::std_specs::cmp::PartialEqSpec;
use vstd::std_specs::convert::FromSpec;
use vstd::utf8::*;

verus! {

/// Ids, errors and raw values are equal exactly if they look the same: ids of different types are
/// never equal, and errors with different data are not.
pub proof fn law_equality(
    id: Id,
    other_id: Id,
    error: Error,
    other_error: Error,
    raw: JsonRawValue,
    other_raw: JsonRawValue,
)
    ensures
        id.eq_spec(&other_id) <==> match (id, other_id) {
            (Id::Null, Id::Null) => true,
            (Id::Number(n), Id::Number(m)) => n == m,
            (Id::String(s), Id::String(t)) => s@ == t@,
            _ => false,
        },
        error.eq_spec(&other_error) <==> {
            &&& error@.code == other_error@.code
            &&& error@.message == other_error@.message
            &&& error@.data == other_error@.data
        },
        raw.eq_spec(&other_raw) <==> raw@ == other_raw@,
{
    if error@.code == other_error@.code && error@.message == other_error@.message && error@.data
        == other_error@.data {
        assert(error@ =~= other_error@);
    }
}

/// What an id looks like says which it is.
pub proof fn law_ids_are_seen(id: Id)
    ensures
        match id {
            Id::Null => id@ == IdView::Null,
            Id::Number(n) => id@ == IdView::Number(n),
            Id::String(s) => id@ == IdView::String(s@),
        },
        protocol::id_view(Some(id)) == Some(id@),
        protocol::id_view(None) is None,
{
}

/// An optional value looks like what it holds; a serialization that failed looks like none.
pub proof fn law_optional_values(
    raw: JsonRawValue,
    bytes: Vec<u8>,
    error: Error,
    failure: JsonError,
)
    ensures
        protocol::raw_view(Some(raw)) == Some(raw@),
        protocol::raw_view(None) is None,
        protocol::bytes_view(Some(bytes)) == Some(bytes@),
        protocol::bytes_view(None) is None,
        protocol::error_view(Some(error)) == Some(error@),
        protocol::error_view(None) is None,
        protocol::serialized(Ok(raw)) == Some(raw@),
        protocol::serialized(Err(failure)) is None,
{
}

/// A new error has its code and its message, and no data; a response that is made of a result or of
/// an error has that and the id, and nothing else. Such responses are valid; one with both or with
/// neither is not.
pub proof fn law_new_values(
    code: i64,
    message: Seq<char>,
    id: IdView,
    result: Seq<u8>,
    error: ErrorView,
    response: protocol::ResponseView,
)
    ensures
        protocol::plain_error(code, message).code == code,
        protocol::plain_error(code, message).message == message,
        protocol::plain_error(code, message).data is None,
        protocol::result_response(id, result).id == id,
        protocol::result_response(id, result).result == Some(result),
        protocol::result_response(id, result).error is None,
        protocol::error_response(id, error).id == id,
        protocol::error_response(id, error).error == Some(error),
        protocol::error_response(id, error).result is None,
        protocol::is_valid_response(response) <==> match (response.result, response.error) {
            (Some(_), None) => true,
            (None, Some(_)) => true,
            _ => false,
        },
{
}

/// What a failure looks like says which it is, and what it carries.
pub proof fn law_failures_are_seen<E>(
    broken: TransportError,
    shared: MultiplexError,
    failed: ClientError<E>,
    exchange: HttpTransportError<E>,
)
    ensures
        match broken {
            TransportError::Frame(message) => broken@ == TransportErrorView::Frame(message@),
            TransportError::Io(cause) => broken@ == TransportErrorView::Io(cause),
        },
        match shared {
            MultiplexError::MissingId => shared@ == MultiplexErrorView::MissingId,
            MultiplexError::ConnectionClosed => shared@ == MultiplexErrorView::ConnectionClosed,
            MultiplexError::Transport(error) => shared@ == MultiplexErrorView::Transport(error@),
        },
        match failed {
            ClientError::Protocol(error) => failed@ == ClientErrorView::<E>::Protocol(error@),
            ClientError::Rpc(error) => failed@ == ClientErrorView::<E>::Rpc(error@),
            ClientError::IdMismatch => failed@ == ClientErrorView::<E>::IdMismatch,
            ClientError::MalformedResponse => failed@ == ClientErrorView::<E>::MalformedResponse,
            ClientError::Transport(cause) => failed@ == ClientErrorView::Transport(cause),
            ClientError::Timeout(timeout) => failed@ == ClientErrorView::<E>::Timeout(timeout),
        },
        match exchange {
            HttpTransportError::InvalidUri(uri) => exchange@ == HttpTransportErrorView::<
                E,
            >::InvalidUri(uri@),
            HttpTransportError::Connect(cause) => exchange@ == HttpTransportErrorView::Connect(
                cause,
            ),
            HttpTransportError::Body(cause) => exchange@ == HttpTransportErrorView::Body(cause),
            HttpTransportError::Status(status) => exchange@ == HttpTransportErrorView::<E>::Status(
                status,
            ),
            HttpTransportError::InvalidHeader(header) => exchange@ == HttpTransportErrorView::<
                E,
            >::InvalidHeader(header@),
            HttpTransportError::TooLarge(limit) => exchange@ == HttpTransportErrorView::<
                E,
            >::TooLarge(limit),
            HttpTransportError::Auth(cause) => exchange@ == HttpTransportErrorView::Auth(cause),
        },
{
}

/// A failure that is taken over from below is kept as it is.
pub proof fn law_failures_are_taken_over<E>(
    cause: std::io::Error,
    broken: TransportError,
    reported: E,
)
    ensures
        TransportError::from_spec(cause) == TransportError::Io(cause),
        MultiplexError::from_spec(broken) == MultiplexError::Transport(broken),
        WsError::<E>::from_spec(reported) == WsError::WebSocket(reported),
{
}

/// What is to be done or sent looks like what it is.
pub proof fn law_steps_are_seen(
    step: ReadStep,
    output: Output,
    entry: Entry,
    reply: HttpOutcome,
    outcome: Result<JsonRawValue, Error>,
)
    ensures
        match step {
            ReadStep::Read(timeout) => step@ == ReadStepView::Read(timeout),
            ReadStep::Deliver(message) => step@ == ReadStepView::Deliver(message@),
            ReadStep::End => step@ == ReadStepView::End,
            ReadStep::Fail(error) => step@ == ReadStepView::Fail(error@),
        },
        match (output, output@) {
            (Output::Empty, OutputView::Empty) => true,
            (Output::Single(response), OutputView::Single(seen)) => seen == response@,
            (Output::Batch(responses), OutputView::Batch(seen)) => {
                &&& seen.len() == responses@.len()
                &&& forall|i: int| 0 <= i < seen.len() ==> #[trigger] seen[i] == responses@[i]@
            },
            _ => false,
        },
        match entry {
            Entry::Answer(response) => entry@ == EntryView::Answer(response@),
            Entry::Silent => entry@ == EntryView::Silent,
            Entry::Call(request) => entry@ == EntryView::Call(request@),
        },
        reply@.status == reply.status,
        reply@.body == reply.body@,
        match (outcome, server::outcome_view(outcome)) {
            (Ok(raw), Ok(result)) => result == raw@,
            (Err(error), Err(seen)) => seen == error@,
            _ => false,
        },
{
}

/// What decoding came to looks like what it is.
pub proof fn law_decoded_is_seen(
    decoded: Result<Option<(Vec<u8>, usize)>, TransportError>,
)
    ensures
        match (decoded, transport::decoded_view(decoded)) {
            (Ok(Some((message, consumed))), Ok(Some((seen, taken)))) => seen == message@ && taken
                == consumed,
            (Ok(None), Ok(None)) => true,
            (Err(error), Err(seen)) => seen == error@,
            _ => false,
        },
{
}

/// A list looks like the list of what its items look like.
pub proof fn law_lists_are_seen(
    responses: Seq<Response>,
    entries: Seq<Entry>,
    rows: Seq<Vec<u8>>,
    names: Seq<&str>,
    fields: Seq<Option<Vec<u8>>>,
    members: Seq<Member>,
    written: Seq<NewMember>,
    i: int,
)
    ensures
        server::responses_view(responses).len() == responses.len(),
        server::entries_view(entries).len() == entries.len(),
        json::rows_view(rows).len() == rows.len(),
        object::names_view(names).len() == names.len(),
        object::fields_view(fields).len() == fields.len(),
        object::members_view(members).len() == members.len(),
        object::new_members_view(written).len() == written.len(),
        0 <= i < responses.len() ==> server::responses_view(responses)[i] == responses[i]@,
        0 <= i < entries.len() ==> server::entries_view(entries)[i] == entries[i]@,
        0 <= i < rows.len() ==> json::rows_view(rows)[i] == rows[i]@,
        0 <= i < names.len() ==> object::names_view(names)[i] == names[i]@,
        0 <= i < fields.len() ==> match fields[i] {
            Some(field) => object::fields_view(fields)[i] == Some(field@),
            None => object::fields_view(fields)[i] is None,
        },
        0 <= i < members.len() ==> object::members_view(members)[i] == (
            members[i].key@,
            members[i].value@,
        ),
        0 <= i < written.len() ==> object::new_members_view(written)[i] == (
            written[i].key@,
            written[i].value@,
        ),
{
}

/// A name is among names exactly if it is one of them.
pub proof fn law_names(names: Seq<&str>, name: Seq<char>)
    ensures
        server::is_among(names, name) <==> object::names_view(names).contains(name),
{
    let seen = object::names_view(names);
    if server::is_among(names, name) {
        let i = choose|i: int| 0 <= i < names.len() && (#[trigger] names[i])@ == name;
        assert(seen[i] == name);
    }
    if seen.contains(name) {
        let i = choose|i: int| 0 <= i < seen.len() && seen[i] == name;
        assert(names[i]@ == name);
    }
}

/// A text is refused for what is wrong with its JSON, if anything is, and else for not being what
/// was expected; it is JSON exactly if nothing is wrong with it.
pub proof fn law_complaints(text: Seq<u8>, expected: Seq<char>)
    ensures
        match json::document_refusal(text) {
            Some(message) => json::complaint(text, expected) == message && !json::is_json(text),
            None => json::complaint(text, expected) == expected && json::is_json(text),
        },
{
}

/// A text in quotation marks is those marks with the bytes of the text between them.
pub proof fn law_quotation_marks(s: Seq<char>)
    ensures
        json::quoted(s).len() == encode_utf8(s).len() + 2,
        json::quoted(s)[0] == 34,
        json::quoted(s).last() == 34,
        json::quoted(s).subrange(1, json::quoted(s).len() - 1) == encode_utf8(s),
{
    assert(json::quoted(s).subrange(1, json::quoted(s).len() - 1) =~= encode_utf8(s));
}

/// A second has a thousand million nanoseconds, and a length of time is shown by its whole seconds
/// and the nanoseconds beyond them.
pub proof fn law_spans(length: Span)
    ensures
        span::NANOS_PER_SEC == 1_000_000_000,
        length.shown() == span::duration_text(length.whole(), length.part()),
{
}

} // verus!
