//! Calls over HTTP: what a request carries, and how its response is taken.
//!
//! An [`HttpTransport`] holds the settings of an endpoint, and an [`HttpExchange`] decides the
//! steps of one exchange with it. Neither does I/O.

use crate::error;
use crate::numeral;
use vstd::prelude::*;
use vstd::utf8::*;

verus! {

/// The largest body of a response that is accepted by default: 16 MiB.
pub const DEFAULT_MAX_RESPONSE_SIZE: usize = 16 * 1024 * 1024;

/// What a failure of an exchange over HTTP is.
#[verifier::ext_equal]
pub enum HttpTransportErrorView<E> {
    InvalidUri(Seq<char>),
    Connect(E),
    Body(E),
    Status(u16),
    InvalidHeader(Seq<char>),
    TooLarge(usize),
    Auth(E),
}

/// A failure of an exchange over HTTP. `E` is what the HTTP client and the source of credentials
/// report.
#[derive(Debug)]
#[non_exhaustive]
pub enum HttpTransportError<E = String> {
    /// The endpoint is not a URI.
    InvalidUri(String),
    /// The connection or the protocol failed.
    Connect(E),
    /// The body of the response could not be read.
    Body(E),
    /// The response has a status other than success.
    Status(u16),
    /// The name or the value of a header is not valid.
    InvalidHeader(String),
    /// The body of the response is larger than allowed.
    TooLarge(usize),
    /// No credential could be had.
    Auth(E),
}

impl<E> View for HttpTransportError<E> {
    type V = HttpTransportErrorView<E>;

    open spec fn view(&self) -> HttpTransportErrorView<E> {
        match self {
            HttpTransportError::InvalidUri(uri) => HttpTransportErrorView::InvalidUri(uri@),
            HttpTransportError::Connect(cause) => HttpTransportErrorView::Connect(*cause),
            HttpTransportError::Body(cause) => HttpTransportErrorView::Body(*cause),
            HttpTransportError::Status(status) => HttpTransportErrorView::Status(*status),
            HttpTransportError::InvalidHeader(header) => HttpTransportErrorView::InvalidHeader(
                header@,
            ),
            HttpTransportError::TooLarge(limit) => HttpTransportErrorView::TooLarge(*limit),
            HttpTransportError::Auth(cause) => HttpTransportErrorView::Auth(*cause),
        }
    }
}

/// A status code and its reason phrase as `http::StatusCode` shows them, such as
/// `404 Not Found`; `None` for a number that is no status code.
pub uninterp spec fn status_text(status: u16) -> Option<Seq<char>>;

/// Whether a text is a URI: whether it parses as an `http::Uri`.
pub uninterp spec fn is_uri(text: Seq<char>) -> bool;

/// Shows a status: the `Display` text of the `http::StatusCode` that `StatusCode::from_u16` makes
/// of a number. The numbers of status codes are those from 100 to 999.
#[verifier::external_body]
fn show_status(status: u16) -> (text: Option<String>)
    ensures
        match text {
            Some(text) => status_text(status) == Some(text@) && 100 <= status <= 999,
            None => status_text(status) is None && !(100 <= status <= 999),
        },
{
    Some(http::StatusCode::from_u16(status).ok()?.to_string())
}

/// Whether a text is a URI: whether `str::parse` makes an `http::Uri` of it.
#[verifier::external_body]
fn check_uri(text: &str) -> (answer: bool)
    ensures
        answer == is_uri(text@),
{
    text.parse::<http::Uri>().is_ok()
}

/// A byte of a header's name, in lower case; `None` for a byte that no name has.
pub open spec fn name_byte(b: u8) -> Option<u8> {
    if 65 <= b <= 90 {
        Some((b + 32) as u8)
    } else if 97 <= b <= 122 || 48 <= b <= 57 || b == 33 || 35 <= b <= 39 || b == 42 || b == 43 || b
        == 45 || b == 46 || 94 <= b <= 96 || b == 124 || b == 126 {
        Some(b)
    } else {
        None
    }
}

/// Whether bytes are the name of a header.
pub open spec fn is_header_name(bytes: Seq<u8>) -> bool {
    &&& 1 <= bytes.len() <= 65535
    &&& forall|i: int| 0 <= i < bytes.len() ==> name_byte(#[trigger] bytes[i]) is Some
}

/// The name of a header in lower case.
pub open spec fn lower_name(bytes: Seq<u8>) -> Seq<u8> {
    Seq::new(bytes.len(), |i: int| name_byte(bytes[i])->0)
}

/// Whether bytes are the value of a header: no control characters but tabs.
pub open spec fn is_header_value(bytes: Seq<u8>) -> bool {
    forall|i: int|
        0 <= i < bytes.len() ==> 32 <= #[trigger] bytes[i] && bytes[i] != 127 || bytes[i] == 9
}

/// Takes the name of a header: `http::HeaderName::from_bytes`, which takes 1 to 65535 bytes that
/// are letters, digits or marks that a token may have, and puts the letters into lower case.
#[verifier::external_body]
fn take_header_name(name: &str) -> (taken: Option<String>)
    ensures
        match taken {
            Some(lower) => is_header_name(encode_utf8(name@)) && encode_utf8(lower@) == lower_name(
                encode_utf8(name@),
            ),
            None => !is_header_name(encode_utf8(name@)),
        },
{
    let name = http::HeaderName::from_bytes(name.as_bytes()).ok()?;
    Some(name.as_str().to_owned())
}

/// Takes the value of a header: `http::HeaderValue::from_str`, which takes a text without
/// control characters but tabs, and keeps its bytes.
#[verifier::external_body]
fn take_header_value(value: &str) -> (taken: Option<Vec<u8>>)
    ensures
        match taken {
            Some(bytes) => is_header_value(encode_utf8(value@)) && bytes@ == encode_utf8(value@),
            None => !is_header_value(encode_utf8(value@)),
        },
{
    let value = http::HeaderValue::from_str(value).ok()?;
    Some(value.as_bytes().to_vec())
}

/// A failure of an exchange as it is shown, where what another party reports is shown as `cause`.
pub open spec fn http_error_shown<E>(error: HttpTransportErrorView<E>, cause: Seq<char>) -> Seq<
    char,
> {
    match error {
        HttpTransportErrorView::InvalidUri(uri) => "invalid endpoint uri: "@ + uri,
        HttpTransportErrorView::Connect(_) => "http connect error: "@ + cause,
        HttpTransportErrorView::Body(_) => "http body error: "@ + cause,
        HttpTransportErrorView::Status(status) => "unexpected http status: "@ + match status_text(
            status,
        ) {
            Some(text) => text,
            None => numeral::decimal(status as int),
        },
        HttpTransportErrorView::InvalidHeader(header) => "invalid default header: "@ + header,
        HttpTransportErrorView::TooLarge(limit) => "response body exceeded max size of "@
            + numeral::decimal(limit as int) + " bytes"@,
        HttpTransportErrorView::Auth(_) => "authorization error: "@ + cause,
    }
}

impl<E> HttpTransportError<E> {
    /// Shows the failure, where what another party reports is shown as `cause`.
    pub fn describe(&self, cause: &str) -> (text: String)
        ensures
            text@ == http_error_shown(self@, cause@),
    {
        match self {
            HttpTransportError::InvalidUri(uri) => error::joined(
                "invalid endpoint uri: ",
                uri.as_str(),
            ),
            HttpTransportError::Connect(_) => error::joined("http connect error: ", cause),
            HttpTransportError::Body(_) => error::joined("http body error: ", cause),
            HttpTransportError::Status(status) => {
                let shown = match show_status(*status) {
                    Some(text) => text,
                    None => numeral::format_integer(*status as i128),
                };
                error::joined("unexpected http status: ", shown.as_str())
            },
            HttpTransportError::InvalidHeader(header) => error::joined(
                "invalid default header: ",
                header.as_str(),
            ),
            HttpTransportError::TooLarge(limit) => {
                let limit = numeral::format_integer(*limit as i128);
                let mut text = error::joined(
                    "response body exceeded max size of ",
                    limit.as_str(),
                );
                text.append(" bytes");
                text
            },
            HttpTransportError::Auth(_) => error::joined("authorization error: ", cause),
        }
    }
}

impl HttpTransportError<String> {
    /// Shows the failure.
    pub fn to_string(&self) -> (text: String)
        ensures
            text@ == http_error_shown(
                self@,
                match self@ {
                    HttpTransportErrorView::Connect(cause) => cause@,
                    HttpTransportErrorView::Body(cause) => cause@,
                    HttpTransportErrorView::Auth(cause) => cause@,
                    _ => Seq::empty(),
                },
            ),
    {
        match self {
            HttpTransportError::Connect(cause) => self.describe(cause.as_str()),
            HttpTransportError::Body(cause) => self.describe(cause.as_str()),
            HttpTransportError::Auth(cause) => self.describe(cause.as_str()),
            _ => self.describe(""),
        }
    }
}

/// A header: its name in lower case, and its value.
#[derive(Debug)]
pub struct Header {
    pub name: String,
    pub value: Vec<u8>,
}

impl Clone for Header {
    fn clone(&self) -> (copy: Self)
        ensures
            copy.name@ == self.name@,
            copy.value@ == self.value@,
    {
        let value = self.value.clone();
        assert(value@ =~= self.value@);
        Header { name: self.name.clone(), value }
    }
}

/// The headers that a list of headers comes to: of two with the same name, the later counts.
pub open spec fn header_map(headers: Seq<Header>) -> Map<Seq<char>, Seq<u8>>
    decreases headers.len(),
{
    if headers.len() == 0 {
        Map::empty()
    } else {
        header_map(headers.drop_last()).insert(headers.last().name@, headers.last().value@)
    }
}

/// No credential: no `authorization` header is sent, and a `401` is not answered by another
/// attempt.
#[derive(Clone, Copy, Debug, Default)]
pub struct NoAuth;

impl NoAuth {
    /// The value of the `authorization` header: none.
    pub fn credential(&self) -> (value: Option<Vec<u8>>)
        ensures
            value is None,
    {
        None
    }

    /// Whether another attempt is made after a `401`: no.
    pub fn retries(&self) -> (answer: bool)
        ensures
            !answer,
    {
        false
    }
}

/// The settings of an endpoint to which requests are posted. `A` is the source of credentials.
#[derive(Debug)]
pub struct HttpTransport<A = NoAuth> {
    uri: String,
    headers: Vec<Header>,
    max_response_size: usize,
    authorizer: A,
}

impl<A: Clone> Clone for HttpTransport<A> {
    fn clone(&self) -> (copy: Self)
        ensures
            copy.endpoint() == self.endpoint(),
            copy.headers() == self.headers(),
            copy.limit() == self.limit(),
            cloned(self.source(), copy.source()),
    {
        let mut headers: Vec<Header> = Vec::new();
        let mut i: usize = 0;
        assert(self.headers@.take(0) =~= Seq::<Header>::empty());
        while i < self.headers.len()
            invariant
                i <= self.headers@.len(),
                header_map(headers@) == header_map(self.headers@.take(i as int)),
            decreases self.headers@.len() - i,
        {
            let ghost before = headers@;
            headers.push(self.headers[i].clone());
            proof {
                assert(headers@.drop_last() =~= before);
                assert(self.headers@.take(i + 1).drop_last() =~= self.headers@.take(i as int));
            }
            i = i + 1;
        }
        assert(self.headers@.take(i as int) =~= self.headers@);
        HttpTransport {
            uri: self.uri.clone(),
            headers,
            max_response_size: self.max_response_size,
            authorizer: self.authorizer.clone(),
        }
    }
}

impl HttpTransport<NoAuth> {
    /// The settings of an endpoint: no headers of its own, no credentials, and responses of at
    /// most 16 MiB.
    pub fn new(endpoint: &str) -> (transport: Result<Self, HttpTransportError>)
        ensures
            match transport {
                Ok(transport) => {
                    &&& is_uri(endpoint@)
                    &&& transport.endpoint() == endpoint@
                    &&& transport.headers() == Map::<Seq<char>, Seq<u8>>::empty()
                    &&& transport.limit() == DEFAULT_MAX_RESPONSE_SIZE
                    &&& transport.source() == NoAuth
                },
                Err(error) => !is_uri(endpoint@) && error@ == HttpTransportErrorView::<
                    String,
                >::InvalidUri(endpoint@),
            },
    {
        if !check_uri(endpoint) {
            return Err(HttpTransportError::InvalidUri(endpoint.to_owned()));
        }
        Ok(
            HttpTransport {
                uri: endpoint.to_owned(),
                headers: Vec::new(),
                max_response_size: DEFAULT_MAX_RESPONSE_SIZE,
                authorizer: NoAuth,
            },
        )
    }
}

/// The largest body that is read: any if the limit is zero.
pub open spec fn body_limit(limit: usize) -> usize {
    if limit == 0 {
        usize::MAX
    } else {
        limit
    }
}

/// The headers of a request: the content type, then the endpoint's own headers, then the
/// credential, each of which replaces what came before under its name.
pub open spec fn request_header_map(
    own: Map<Seq<char>, Seq<u8>>,
    auth: Option<Seq<u8>>,
) -> Map<Seq<char>, Seq<u8>> {
    let typed = Map::<Seq<char>, Seq<u8>>::empty().insert(
        "content-type"@,
        encode_utf8("application/json"@),
    );
    let with_own = typed.union_prefer_right(own);
    match auth {
        Some(value) => with_own.insert("authorization"@, value),
        None => with_own,
    }
}

impl<A> HttpTransport<A> {
    /// The endpoint.
    pub closed spec fn endpoint(self) -> Seq<char> {
        self.uri@
    }

    /// The endpoint's own headers.
    pub closed spec fn headers(self) -> Map<Seq<char>, Seq<u8>> {
        header_map(self.headers@)
    }

    /// The largest body of a response, or zero if there is no limit.
    pub closed spec fn limit(self) -> usize {
        self.max_response_size
    }

    /// The source of credentials.
    pub closed spec fn source(self) -> A {
        self.authorizer
    }

    /// Limits the size of the body of a response. Zero lifts the limit.
    pub fn with_max_response_size(self, limit: usize) -> (transport: Self)
        ensures
            transport.limit() == limit,
            transport.endpoint() == self.endpoint(),
            transport.headers() == self.headers(),
            transport.source() == self.source(),
    {
        HttpTransport {
            uri: self.uri,
            headers: self.headers,
            max_response_size: limit,
            authorizer: self.authorizer,
        }
    }

    /// Adds a header that is sent with every request. It replaces one with the same name.
    pub fn with_header(self, name: &str, value: &str) -> (transport: Result<
        Self,
        HttpTransportError,
    >)
        ensures
            match transport {
                Ok(transport) => {
                    &&& is_header_name(encode_utf8(name@))
                    &&& is_header_value(encode_utf8(value@))
                    &&& exists|lower: Seq<char>| #[trigger]
                        encode_utf8(lower) == lower_name(encode_utf8(name@))
                            && transport.headers() == self.headers().insert(
                            lower,
                            encode_utf8(value@),
                        )
                    &&& transport.endpoint() == self.endpoint()
                    &&& transport.limit() == self.limit()
                    &&& transport.source() == self.source()
                },
                Err(error) => error@ == if !is_header_name(encode_utf8(name@)) {
                    HttpTransportErrorView::<String>::InvalidHeader(name@)
                } else {
                    HttpTransportErrorView::<String>::InvalidHeader(value@)
                } && !(is_header_name(encode_utf8(name@)) && is_header_value(encode_utf8(value@))),
            },
    {
        let lower = match take_header_name(name) {
            Some(lower) => lower,
            None => {
                return Err(HttpTransportError::InvalidHeader(name.to_owned()));
            },
        };
        let bytes = match take_header_value(value) {
            Some(bytes) => bytes,
            None => {
                return Err(HttpTransportError::InvalidHeader(value.to_owned()));
            },
        };
        let ghost before = self.headers@;
        let ghost added = lower@;
        let mut headers = self.headers;
        headers.push(Header { name: lower, value: bytes });
        assert(headers@.drop_last() =~= before);
        assert(encode_utf8(added) == lower_name(encode_utf8(name@)));
        Ok(
            HttpTransport {
                uri: self.uri,
                headers,
                max_response_size: self.max_response_size,
                authorizer: self.authorizer,
            },
        )
    }

    /// Attaches a source of credentials.
    pub fn with_authorizer<B>(self, authorizer: B) -> (transport: HttpTransport<B>)
        ensures
            transport.source() == authorizer,
            transport.endpoint() == self.endpoint(),
            transport.headers() == self.headers(),
            transport.limit() == self.limit(),
    {
        HttpTransport {
            uri: self.uri,
            headers: self.headers,
            max_response_size: self.max_response_size,
            authorizer,
        }
    }

    /// The endpoint.
    pub fn uri(&self) -> (uri: &str)
        ensures
            uri@ == self.endpoint(),
    {
        self.uri.as_str()
    }

    /// The source of credentials.
    pub fn authorizer(&self) -> (authorizer: &A)
        ensures
            *authorizer == self.source(),
    {
        &self.authorizer
    }

    /// The headers of a request, in the order in which they are set: of two with the same name,
    /// the later counts.
    pub fn request_headers(&self, auth: &Option<Vec<u8>>) -> (headers: Vec<Header>)
        ensures
            header_map(headers@) == request_header_map(
                self.headers(),
                match auth {
                    Some(value) => Some(value@),
                    None => None,
                },
            ),
    {
        let mut headers: Vec<Header> = Vec::new();
        headers.push(
            Header {
                name: "content-type".to_owned(),
                value: vstd::slice::slice_to_vec("application/json".as_bytes()),
            },
        );
        let ghost typed = header_map(headers@);
        proof {
            reveal_with_fuel(header_map, 2);
            assert(headers@.drop_last() =~= Seq::<Header>::empty());
            assert(typed =~= Map::<Seq<char>, Seq<u8>>::empty().insert(
                "content-type"@,
                encode_utf8("application/json"@),
            ));
            assert(self.headers@.take(0) =~= Seq::<Header>::empty());
            assert(typed.union_prefer_right(header_map(self.headers@.take(0))) =~= typed);
        }
        let mut i: usize = 0;
        while i < self.headers.len()
            invariant
                i <= self.headers@.len(),
                header_map(headers@) == typed.union_prefer_right(
                    header_map(self.headers@.take(i as int)),
                ),
            decreases self.headers@.len() - i,
        {
            let ghost before = headers@;
            headers.push(self.headers[i].clone());
            proof {
                assert(headers@.drop_last() =~= before);
                assert(self.headers@.take(i + 1).drop_last() =~= self.headers@.take(i as int));
                assert(header_map(headers@) =~= typed.union_prefer_right(
                    header_map(self.headers@.take(i + 1)),
                ));
            }
            i = i + 1;
        }
        assert(self.headers@.take(i as int) =~= self.headers@);
        if let Some(value) = auth {
            let ghost before = headers@;
            let value = value.clone();
            assert(value@ =~= auth->0@);
            headers.push(Header { name: "authorization".to_owned(), value });
            assert(headers@.drop_last() =~= before);
        }
        headers
    }
}

/// What became of reading the body of a response.
pub enum BodyRead<E> {
    /// It was read.
    Read(Vec<u8>),
    /// It is larger than allowed.
    TooLarge,
    /// Reading failed.
    Failed(E),
}

/// The next step of an exchange.
pub enum HttpStep<E> {
    /// Get a credential.
    Authorize,
    /// Send the request with a credential, if there is one.
    Send(Option<Vec<u8>>),
    /// Ask the source of credentials whether another attempt is to be made.
    AskRetry,
    /// Read the body of the response, up to so many bytes.
    ReadBody(usize),
    /// Report a failure.
    Fail(HttpTransportError<E>),
}

/// An exchange with an endpoint.
///
/// It gets a credential, sends the request, and reads the body of a response with a status of
/// success. A `401` is answered by one more attempt with a new credential, if the source of
/// credentials says so.
#[derive(Debug)]
pub struct HttpExchange {
    retried: bool,
    max_response_size: usize,
}

/// What is done after a response.
#[verifier::ext_equal]
pub enum ResponseStep {
    AskRetry,
    ReadBody(usize),
    Fail(u16),
}

/// What is done after a response with a status: after a first `401` another attempt may be made,
/// else the body of a response with a status of success is read.
pub open spec fn after_response(retried: bool, limit: usize, status: u16) -> ResponseStep {
    if status == 401 && !retried {
        ResponseStep::AskRetry
    } else if is_success(status) {
        ResponseStep::ReadBody(body_limit(limit))
    } else {
        ResponseStep::Fail(status)
    }
}

/// Whether a status is one of success.
pub open spec fn is_success(status: u16) -> bool {
    200 <= status < 300
}

impl HttpExchange {
    /// Whether a second attempt was made.
    pub closed spec fn retried(self) -> bool {
        self.retried
    }

    /// The largest body of a response, or zero if there is no limit.
    pub closed spec fn limit(self) -> usize {
        self.max_response_size
    }

    /// Begins an exchange, with the limit on the size of responses that the endpoint has. The
    /// first step is to get a credential.
    pub fn begin<A, E>(transport: &HttpTransport<A>) -> (begun: (Self, HttpStep<E>))
        ensures
            !begun.0.retried(),
            begun.0.limit() == transport.limit(),
            begun.1 == HttpStep::<E>::Authorize,
    {
        let exchange = HttpExchange {
            retried: false,
            max_response_size: transport.max_response_size,
        };
        (exchange, HttpStep::Authorize)
    }

    /// Takes a credential, or the failure to get one.
    pub fn authorized<E>(&self, credential: Result<Option<Vec<u8>>, E>) -> (step: HttpStep<E>)
        ensures
            match credential {
                Ok(credential) => step == HttpStep::<E>::Send(credential),
                Err(cause) => step == HttpStep::Fail(HttpTransportError::Auth(cause)),
            },
    {
        match credential {
            Ok(credential) => HttpStep::Send(credential),
            Err(cause) => HttpStep::Fail(HttpTransportError::Auth(cause)),
        }
    }

    /// Takes the status of the response, or the failure to get one.
    pub fn responded<E>(&self, response: Result<u16, E>) -> (step: HttpStep<E>)
        ensures
            match response {
                Ok(status) => step == match after_response(self.retried(), self.limit(), status) {
                    ResponseStep::AskRetry => HttpStep::<E>::AskRetry,
                    ResponseStep::ReadBody(limit) => HttpStep::ReadBody(limit),
                    ResponseStep::Fail(status) => HttpStep::Fail(
                        HttpTransportError::Status(status),
                    ),
                },
                Err(cause) => step == HttpStep::Fail(HttpTransportError::Connect(cause)),
            },
    {
        match response {
            Ok(status) => {
                if status == 401 && !self.retried {
                    HttpStep::AskRetry
                } else if 200 <= status && status < 300 {
                    HttpStep::ReadBody(
                        if self.max_response_size == 0 {
                            usize::MAX
                        } else {
                            self.max_response_size
                        },
                    )
                } else {
                    HttpStep::Fail(HttpTransportError::Status(status))
                }
            },
            Err(cause) => HttpStep::Fail(HttpTransportError::Connect(cause)),
        }
    }

    /// Takes whether another attempt is to be made after a `401`.
    pub fn retry<E>(&mut self, again: bool) -> (step: HttpStep<E>)
        ensures
            final(self).limit() == old(self).limit(),
            final(self).retried() == (old(self).retried() || again),
            step == if again {
                HttpStep::<E>::Authorize
            } else {
                HttpStep::Fail(HttpTransportError::Status(401))
            },
    {
        if again {
            self.retried = true;
            HttpStep::Authorize
        } else {
            HttpStep::Fail(HttpTransportError::Status(401))
        }
    }

    /// Takes the body of the response: it is what the exchange comes to.
    pub fn finish<E>(&self, body: BodyRead<E>) -> (result: Result<Vec<u8>, HttpTransportError<E>>)
        ensures
            match (body, result) {
                (BodyRead::Read(bytes), Ok(same)) => same == bytes,
                (BodyRead::TooLarge, Err(error)) => error@ == HttpTransportErrorView::<
                    E,
                >::TooLarge(self.limit()),
                (BodyRead::Failed(cause), Err(error)) => error@ == HttpTransportErrorView::Body(
                    cause,
                ),
                _ => false,
            },
    {
        match body {
            BodyRead::Read(bytes) => Ok(bytes),
            BodyRead::TooLarge => Err(HttpTransportError::TooLarge(self.max_response_size)),
            BodyRead::Failed(cause) => Err(HttpTransportError::Body(cause)),
        }
    }
}

} // verus!
