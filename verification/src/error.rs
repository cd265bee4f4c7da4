//! Failures of the library, as opposed to the error objects of the protocol.

use crate::json::JsonError;
use crate::protocol;
use crate::protocol::ErrorView;
use crate::span::Span;
use vstd::prelude::*;

verus! {

/// `std::io::Error`, which is carried as it is.
#[verifier::external_type_specification]
#[verifier::external_body]
pub struct ExIoError(std::io::Error);

/// What a failure of the transport is.
#[verifier::ext_equal]
pub enum TransportErrorView {
    Frame(Seq<char>),
    Io(std::io::Error),
}

/// A failure of framing or of byte I/O.
#[derive(Debug)]
#[non_exhaustive]
pub enum TransportError {
    /// A violation of the framing: a bad length prefix, a missing terminator.
    Frame(String),
    /// An I/O error.
    Io(std::io::Error),
}

impl View for TransportError {
    type V = TransportErrorView;

    open spec fn view(&self) -> TransportErrorView {
        match self {
            TransportError::Frame(message) => TransportErrorView::Frame(message@),
            TransportError::Io(error) => TransportErrorView::Io(*error),
        }
    }
}

impl From<std::io::Error> for TransportError {
    fn from(error: std::io::Error) -> (failure: Self) {
        TransportError::Io(error)
    }
}

impl vstd::std_specs::convert::FromSpecImpl<std::io::Error> for TransportError {
    open spec fn obeys_from_spec() -> bool {
        true
    }

    open spec fn from_spec(error: std::io::Error) -> Self {
        TransportError::Io(error)
    }
}

/// Whether a failure of the transport is shown as a text. How an I/O error itself is shown is up
/// to the standard library.
pub open spec fn transport_error_shown(error: TransportErrorView, text: Seq<char>) -> bool {
    match error {
        TransportErrorView::Frame(message) => text == "framing error: "@ + message,
        TransportErrorView::Io(error) => exists|detail: String|
            vstd::string::to_string_from_display_ensures::<std::io::Error>(&error, detail) && text
                == "io error: "@ + #[trigger] detail@,
    }
}

impl TransportError {
    /// Shows the failure.
    pub fn to_string(&self) -> (text: String)
        ensures
            transport_error_shown(self@, text@),
    {
        match self {
            TransportError::Frame(message) => joined("framing error: ", message.as_str()),
            TransportError::Io(error) => {
                let detail = error.to_string();
                joined("io error: ", detail.as_str())
            },
        }
    }
}

/// What a failure of a client is.
#[verifier::ext_equal]
pub enum ClientErrorView<E> {
    Protocol(Seq<char>),
    Rpc(ErrorView),
    IdMismatch,
    MalformedResponse,
    Transport(E),
    Timeout(Span),
}

/// A failure of a client. `E` is what the transport reports.
#[derive(Debug)]
#[non_exhaustive]
pub enum ClientError<E = String> {
    /// JSON could not be read or written.
    Protocol(JsonError),
    /// The peer returned an error object.
    Rpc(protocol::Error),
    /// The id of the response is not that of the request.
    IdMismatch,
    /// The response has neither or both of a result and an error.
    MalformedResponse,
    /// The transport failed.
    Transport(E),
    /// The request took longer than allowed.
    Timeout(Span),
}

impl<E> View for ClientError<E> {
    type V = ClientErrorView<E>;

    open spec fn view(&self) -> ClientErrorView<E> {
        match self {
            ClientError::Protocol(error) => ClientErrorView::Protocol(error@),
            ClientError::Rpc(error) => ClientErrorView::Rpc(error@),
            ClientError::IdMismatch => ClientErrorView::IdMismatch,
            ClientError::MalformedResponse => ClientErrorView::MalformedResponse,
            ClientError::Transport(cause) => ClientErrorView::Transport(*cause),
            ClientError::Timeout(timeout) => ClientErrorView::Timeout(*timeout),
        }
    }
}

/// A failure of a client as it is shown, where the failure of its transport is shown as `cause`.
pub open spec fn client_error_shown<E>(error: ClientErrorView<E>, cause: Seq<char>) -> Seq<char> {
    match error {
        ClientErrorView::Protocol(message) => "protocol error: "@ + message,
        ClientErrorView::Rpc(error) => "rpc error: "@ + protocol::Error::shown(error),
        ClientErrorView::IdMismatch => "response id did not match request id"@,
        ClientErrorView::MalformedResponse => {
            "response contained neither or both of result/error"@
        },
        ClientErrorView::Transport(_) => "transport error: "@ + cause,
        ClientErrorView::Timeout(timeout) => "request timed out after "@ + timeout.shown(),
    }
}

/// Two texts in a row.
pub(crate) fn joined(front: &str, back: &str) -> (text: String)
    ensures
        text@ == front@ + back@,
{
    let mut text = front.to_owned();
    text.append(back);
    text
}

impl<E> ClientError<E> {
    /// Shows the failure, where the failure of its transport is shown as `cause`.
    pub fn describe(&self, cause: &str) -> (text: String)
        ensures
            text@ == client_error_shown(self@, cause@),
    {
        match self {
            ClientError::Protocol(error) => joined("protocol error: ", error.message()),
            ClientError::Rpc(error) => joined("rpc error: ", error.to_string().as_str()),
            ClientError::IdMismatch => "response id did not match request id".to_owned(),
            ClientError::MalformedResponse => {
                "response contained neither or both of result/error".to_owned()
            },
            ClientError::Transport(_) => joined("transport error: ", cause),
            ClientError::Timeout(timeout) => joined(
                "request timed out after ",
                timeout.to_string().as_str(),
            ),
        }
    }
}

impl ClientError<String> {
    /// Shows the failure.
    pub fn to_string(&self) -> (text: String)
        ensures
            text@ == client_error_shown(
                self@,
                match self@ {
                    ClientErrorView::Transport(cause) => cause@,
                    _ => Seq::empty(),
                },
            ),
    {
        match self {
            ClientError::Transport(cause) => self.describe(cause.as_str()),
            _ => self.describe(""),
        }
    }
}

} // verus!
