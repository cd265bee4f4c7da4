//! Calls from the side of the client: requests are encoded, and responses are matched to them.

pub mod http;
pub mod multiplex;
pub mod uds;

use crate::error::ClientError;
use crate::error::ClientErrorView;
use crate::json;
use crate::json::JsonError;
use crate::json::JsonRawValue;
use crate::protocol;
use crate::protocol::Id;
use crate::protocol::IdView;
use crate::protocol::Request;
use crate::protocol::RequestView;
use crate::protocol::Response;
use crate::protocol::ResponseView;
use crate::server;
use crate::server::PlanView;
use crate::span::Span;
use vstd::prelude::*;

verus! {

/// Allocates the ids of requests.
#[derive(Debug)]
pub struct IdGen {
    next: u64,
}

/// The number of an id: a count above the range of `i64` goes on from its lower end.
pub open spec fn id_number(count: u64) -> i64 {
    if count <= i64::MAX {
        count as i64
    } else {
        (count - u64::MAX - 1) as i64
    }
}

/// The count that follows a count; after the last comes zero.
pub open spec fn count_after(count: u64) -> u64 {
    if count < u64::MAX {
        (count + 1) as u64
    } else {
        0
    }
}

impl IdGen {
    /// The count from which the next id is made.
    pub closed spec fn count(self) -> u64 {
        self.next
    }

    /// An allocator whose first id is 1.
    pub fn new() -> (ids: Self)
        ensures
            ids.count() == 1,
    {
        IdGen { next: 1 }
    }

    /// Allocates the next numeric id.
    pub fn next_id(&mut self) -> (id: Id)
        ensures
            id@ == IdView::Number(id_number(old(self).count())),
            final(self).count() == count_after(old(self).count()),
    {
        let count: u64 = self.next;
        self.next = count.wrapping_add(1);
        if count <= 0x7fff_ffff_ffff_ffff {
            Id::Number(count as i64)
        } else {
            Id::Number(-((u64::MAX - count) as i64) - 1)
        }
    }
}

impl Default for IdGen {
    fn default() -> (ids: Self)
        ensures
            ids.count() == 0,
    {
        IdGen { next: 0 }
    }
}

/// The plan of a message that is one request.
pub open spec fn request_plan(request: RequestView, known: Set<Seq<char>>) -> PlanView {
    PlanView { batch: false, entries: seq![server::request_entry(request, known)] }
}

/// The JSON of a request is planned as that request.
proof fn lemma_request_plan(request: RequestView)
    requires
        protocol::request_of(protocol::request_text(request)) == Some(
            protocol::request_reread(request),
        ),
    ensures
        forall|known: Set<Seq<char>>, limit: Option<usize>| #[trigger]
            server::message_plan(protocol::request_text(request), known, limit) == request_plan(
                protocol::request_reread(request),
                known,
            ),
{
    assert(protocol::request_text(request)[0] == 123);
}

/// Encodes a call. The id is handed back for the matching of the response. A server takes the bytes
/// for that call, whatever its methods are and whatever its limit on batches is.
///
/// The only failure is that of the serialization of the params.
pub fn encode_call(method: &str, params: Result<JsonRawValue, JsonError>, id: Id) -> (encoded:
    Result<(Vec<u8>, Id), ClientError>)
    ensures
        match (params, encoded) {
            (Ok(raw), Ok((bytes, same))) => {
                let request = RequestView {
                    method: method@,
                    params: Some(raw@),
                    id: Some(id@),
                };
                &&& same@ == id@
                &&& bytes@ == protocol::request_text(request)
                &&& protocol::request_of(bytes@) == Some(protocol::request_reread(request))
                &&& multiplex::frame_id(bytes@) == request.id
                &&& forall|known: Set<Seq<char>>, limit: Option<usize>| #[trigger]
                    server::message_plan(bytes@, known, limit) == request_plan(
                        protocol::request_reread(request),
                        known,
                    )
            },
            (Err(failure), Err(error)) => error@ == ClientErrorView::<String>::Protocol(failure@),
            _ => false,
        },
{
    match Request::try_call(method, params, id.clone()) {
        Ok(request) => {
            let bytes = request.to_vec();
            proof {
                lemma_request_plan(request@);
            }
            Ok((bytes, id))
        },
        Err(failure) => Err(ClientError::Protocol(failure)),
    }
}

/// Encodes a notification. A server takes the bytes for that notification.
///
/// The only failure is that of the serialization of the params.
pub fn encode_notification(method: &str, params: Result<JsonRawValue, JsonError>) -> (encoded:
    Result<Vec<u8>, ClientError>)
    ensures
        match (params, encoded) {
            (Ok(raw), Ok(bytes)) => {
                let request = RequestView { method: method@, params: Some(raw@), id: None };
                &&& bytes@ == protocol::request_text(request)
                &&& protocol::request_of(bytes@) == Some(protocol::request_reread(request))
                &&& multiplex::frame_id(bytes@) == request.id
                &&& forall|known: Set<Seq<char>>, limit: Option<usize>| #[trigger]
                    server::message_plan(bytes@, known, limit) == request_plan(
                        protocol::request_reread(request),
                        known,
                    )
            },
            (Err(failure), Err(error)) => error@ == ClientErrorView::<String>::Protocol(failure@),
            _ => false,
        },
{
    match Request::try_notification(method, params) {
        Ok(request) => {
            let bytes = request.to_vec();
            proof {
                lemma_request_plan(request@);
            }
            Ok(bytes)
        },
        Err(failure) => Err(ClientError::Protocol(failure)),
    }
}

/// What a response comes to for its caller.
pub open spec fn response_result(response: ResponseView) -> Result<
    Seq<u8>,
    ClientErrorView<String>,
> {
    match (response.result, response.error) {
        (Some(result), None) => Ok(result),
        (None, Some(error)) => Err(ClientErrorView::Rpc(error)),
        _ => Err(ClientErrorView::MalformedResponse),
    }
}

/// What the bytes of a response come to, for the call with the given id.
pub open spec fn call_result(bytes: Seq<u8>, expected: IdView) -> Result<
    Seq<u8>,
    ClientErrorView<String>,
> {
    match protocol::response_of(bytes) {
        None => Err(ClientErrorView::Protocol(json::complaint(bytes, "not a JSON-RPC response"@))),
        Some(response) => if response.id != expected {
            Err(ClientErrorView::IdMismatch)
        } else {
            response_result(response)
        },
    }
}

/// Reads the bytes of a response, checks that it has the id of the call, and hands out its
/// result as JSON.
pub fn decode_result(bytes: &[u8], expected: &Id) -> (result: Result<JsonRawValue, ClientError>)
    ensures
        match result {
            Ok(raw) => call_result(bytes@, expected@) == Ok::<Seq<u8>, ClientErrorView<String>>(
                raw@,
            ),
            Err(error) => call_result(bytes@, expected@) == Err::<
                Seq<u8>,
                ClientErrorView<String>,
            >(error@),
        },
{
    let response = match Response::from_slice(bytes) {
        Ok(response) => response,
        Err(error) => {
            return Err(ClientError::Protocol(error));
        },
    };
    if *response.id() != *expected {
        return Err(ClientError::IdMismatch);
    }
    match (response.result_raw(), response.error_obj()) {
        (Some(raw), None) => Ok(raw.clone()),
        (None, Some(error)) => Err(ClientError::Rpc(error.clone())),
        _ => Err(ClientError::MalformedResponse),
    }
}

/// What became of an exchange with the peer.
pub enum Exchange<V, E> {
    /// It was done.
    Done(V),
    /// The transport failed.
    Failed(E),
    /// It took longer than allowed.
    TimedOut(Span),
}

/// A client over a transport, which allocates the ids of its calls.
#[derive(Debug)]
pub struct Client<T> {
    transport: T,
    ids: IdGen,
    timeout: Option<Span>,
}

impl<T> Client<T> {
    /// The transport.
    pub closed spec fn carrier(self) -> T {
        self.transport
    }

    /// The allocator of ids.
    pub closed spec fn ids(self) -> IdGen {
        self.ids
    }

    /// The time that an exchange may take, if it is limited.
    pub closed spec fn limit(self) -> Option<Span> {
        self.timeout
    }

    /// A client over a transport, whose exchanges may take any time.
    pub fn new(transport: T) -> (client: Self)
        ensures
            client.carrier() == transport,
            client.ids().count() == 1,
            client.limit() is None,
    {
        Client { transport, ids: IdGen::new(), timeout: None }
    }

    /// Limits the time that an exchange may take.
    pub fn with_request_timeout(self, timeout: Span) -> (client: Self)
        ensures
            client.carrier() == self.carrier(),
            client.ids() == self.ids(),
            client.limit() == Some(timeout),
    {
        Client { transport: self.transport, ids: self.ids, timeout: Some(timeout) }
    }

    /// The transport.
    pub fn transport(&self) -> (transport: &T)
        ensures
            *transport == self.carrier(),
    {
        &self.transport
    }

    /// The time that an exchange may take, if it is limited.
    pub fn timeout(&self) -> (timeout: Option<Span>)
        ensures
            timeout == self.limit(),
    {
        self.timeout
    }

    /// Encodes a call under a new id.
    pub fn start_call(&mut self, method: &str, params: Result<JsonRawValue, JsonError>) -> (encoded:
        Result<(Vec<u8>, Id), ClientError>)
        ensures
            match (params, encoded) {
                (Ok(raw), Ok((bytes, id))) => {
                    let request = RequestView {
                        method: method@,
                        params: Some(raw@),
                        id: Some(id@),
                    };
                    &&& id@ == IdView::Number(id_number(old(self).ids().count()))
                    &&& bytes@ == protocol::request_text(request)
                    &&& protocol::request_of(bytes@) == Some(protocol::request_reread(request))
                    &&& multiplex::frame_id(bytes@) == request.id
                    &&& forall|known: Set<Seq<char>>, limit: Option<usize>| #[trigger]
                        server::message_plan(bytes@, known, limit) == request_plan(
                            protocol::request_reread(request),
                            known,
                        )
                },
                (Err(failure), Err(error)) => error@ == ClientErrorView::<String>::Protocol(
                    failure@,
                ),
                _ => false,
            },
            final(self).ids().count() == count_after(old(self).ids().count()),
            final(self).carrier() == old(self).carrier(),
            final(self).limit() == old(self).limit(),
    {
        let id = self.ids.next_id();
        encode_call(method, params, id)
    }
}

/// What an exchange comes to: a failure of the transport and an exchange that took too long are
/// failures of the client.
pub fn finish_exchange<V, E>(exchange: Exchange<V, E>) -> (result: Result<V, ClientError<E>>)
    ensures
        match (exchange, result) {
            (Exchange::Done(value), Ok(same)) => same == value,
            (Exchange::Failed(cause), Err(error)) => error@ == ClientErrorView::Transport(cause),
            (Exchange::TimedOut(timeout), Err(error)) => error@ == ClientErrorView::<E>::Timeout(
                timeout,
            ),
            _ => false,
        },
{
    match exchange {
        Exchange::Done(value) => Ok(value),
        Exchange::Failed(cause) => Err(ClientError::Transport(cause)),
        Exchange::TimedOut(timeout) => Err(ClientError::Timeout(timeout)),
    }
}

} // verus!
