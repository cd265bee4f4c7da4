use jasonrpc::client::http::{
    BodyRead, Header, HttpExchange, HttpStep, HttpTransport, HttpTransportError, NoAuth,
    DEFAULT_MAX_RESPONSE_SIZE,
};

/// What a server does with a request, by the credential that comes with it: a status and a body.
type Decide = fn(Option<&[u8]>) -> (u16, &'static str);

/// A source of credentials: one for each attempt, and whether a second attempt is made.
struct Tokens {
    values: Vec<Option<Vec<u8>>>,
    retry: bool,
}

fn bearer(token: &str) -> Option<Vec<u8>> {
    Some(format!("Bearer {token}").into_bytes())
}

/// The value that counts under a name.
fn header<'a>(headers: &'a [Header], name: &str) -> Option<&'a [u8]> {
    headers
        .iter()
        .rev()
        .find(|h| h.name == name)
        .map(|h| h.value.as_slice())
}

/// Exchanges a request with a server, and counts the credentials that were used.
fn round_trip(
    transport: &HttpTransport<Tokens>,
    decide: Decide,
) -> (Result<Vec<u8>, HttpTransportError>, usize) {
    let (mut exchange, mut step) = HttpExchange::begin(transport);
    let mut minted = 0;
    let mut body = "";
    loop {
        step = match step {
            HttpStep::Authorize => {
                let value = transport.authorizer().values[minted].clone();
                minted += 1;
                exchange.authorized(Ok(value))
            }
            HttpStep::Send(credential) => {
                let headers = transport.request_headers(&credential);
                assert_eq!(
                    header(&headers, "content-type"),
                    Some(b"application/json".as_slice())
                );
                let (status, answer) = decide(header(&headers, "authorization"));
                body = answer;
                exchange.responded(Ok(status))
            }
            HttpStep::AskRetry => exchange.retry(transport.authorizer().retry),
            HttpStep::ReadBody(limit) => {
                let read = if body.len() > limit {
                    BodyRead::TooLarge
                } else {
                    BodyRead::Read(body.as_bytes().to_vec())
                };
                return (exchange.finish(read), minted);
            }
            HttpStep::Fail(error) => return (Err(error), minted),
        };
    }
}

fn endpoint() -> HttpTransport {
    HttpTransport::new("http://127.0.0.1:8080/").unwrap()
}

#[test]
fn no_auth_sends_no_authorization_header() {
    let transport = endpoint();
    let credential = transport.authorizer().credential();
    assert!(credential.is_none());
    let headers = transport.request_headers(&credential);
    assert_eq!(header(&headers, "authorization"), None);
    assert!(!NoAuth.retries());
}

#[test]
fn authorizer_attaches_bearer_token() {
    let transport = endpoint().with_authorizer(Tokens {
        values: vec![bearer("abc123")],
        retry: false,
    });
    let (result, minted) = round_trip(&transport, |auth| {
        assert_eq!(auth, Some(b"Bearer abc123".as_slice()));
        (200, "ok")
    });
    assert_eq!(result.unwrap(), b"ok");
    assert_eq!(minted, 1);
}

#[test]
fn refreshes_and_retries_once_on_401() {
    let transport = endpoint().with_authorizer(Tokens {
        values: vec![bearer("stale"), bearer("fresh")],
        retry: true,
    });
    let (result, minted) = round_trip(&transport, |auth| {
        if auth == Some(b"Bearer fresh") {
            (200, "ok")
        } else {
            (401, "")
        }
    });
    assert_eq!(result.unwrap(), b"ok");
    assert_eq!(minted, 2);
}

#[test]
fn a_second_401_is_final() {
    let transport = endpoint().with_authorizer(Tokens {
        values: vec![None, None],
        retry: true,
    });
    let (result, minted) = round_trip(&transport, |_| (401, ""));
    assert!(matches!(result, Err(HttpTransportError::Status(401))));
    assert_eq!(minted, 2);
}

#[test]
fn surfaces_401_when_retry_declined() {
    let transport = endpoint().with_authorizer(Tokens {
        values: vec![None],
        retry: false,
    });
    let (result, _) = round_trip(&transport, |_| (401, ""));
    let error = result.unwrap_err();
    assert!(matches!(error, HttpTransportError::Status(401)));
    assert_eq!(error.to_string(), "unexpected http status: 401 Unauthorized");
}

#[test]
fn statuses_of_success_are_read() {
    for (status, good) in [(200, true), (204, true), (299, true), (199, false), (300, false), (500, false)] {
        let (exchange, first) = HttpExchange::begin::<NoAuth, String>(&endpoint());
        assert!(matches!(first, HttpStep::Authorize));
        match exchange.responded::<String>(Ok(status)) {
            HttpStep::ReadBody(limit) => {
                assert!(good, "{status}");
                assert_eq!(limit, DEFAULT_MAX_RESPONSE_SIZE);
            }
            HttpStep::Fail(HttpTransportError::Status(same)) => {
                assert!(!good, "{status}");
                assert_eq!(same, status);
            }
            _ => panic!("{status}"),
        }
    }
}

#[test]
fn bodies_are_limited() {
    let transport = endpoint().with_max_response_size(2).with_authorizer(Tokens {
        values: vec![None],
        retry: false,
    });
    let (result, _) = round_trip(&transport, |_| (200, "abc"));
    let error = result.unwrap_err();
    assert!(matches!(error, HttpTransportError::TooLarge(2)));
    assert_eq!(error.to_string(), "response body exceeded max size of 2 bytes");

    let unlimited = endpoint().with_max_response_size(0);
    let (exchange, _) = HttpExchange::begin::<NoAuth, String>(&unlimited);
    match exchange.responded::<String>(Ok(200)) {
        HttpStep::ReadBody(limit) => assert_eq!(limit, usize::MAX),
        _ => panic!("expected the body to be read"),
    }
}

#[test]
fn failures_are_told_apart() {
    let (exchange, _) = HttpExchange::begin::<NoAuth, String>(&endpoint());
    let cause = || "why".to_owned();
    match exchange.authorized(Err(cause())) {
        HttpStep::Fail(error) => assert_eq!(error.to_string(), "authorization error: why"),
        _ => panic!("expected a failure"),
    }
    match exchange.responded(Err(cause())) {
        HttpStep::Fail(error) => assert_eq!(error.to_string(), "http connect error: why"),
        _ => panic!("expected a failure"),
    }
    let error = exchange.finish(BodyRead::Failed(cause())).unwrap_err();
    assert_eq!(error.to_string(), "http body error: why");
    let odd = HttpTransportError::<String>::Status(7);
    assert_eq!(odd.to_string(), "unexpected http status: 7");
}

#[test]
fn endpoints_must_be_uris() {
    let error = HttpTransport::new("http://[::1/").unwrap_err();
    assert_eq!(error.to_string(), "invalid endpoint uri: http://[::1/");
    assert_eq!(endpoint().uri(), "http://127.0.0.1:8080/");
}

#[test]
fn headers_are_checked_and_replaced() {
    let transport = endpoint()
        .with_header("X-Api-Key", "one")
        .unwrap()
        .with_header("x-api-key", "two\t")
        .unwrap()
        .with_header("Content-Type", "application/json-rpc")
        .unwrap()
        .with_header("Authorization", "static")
        .unwrap();
    let headers = transport.request_headers(&None);
    assert_eq!(header(&headers, "x-api-key"), Some(b"two\t".as_slice()));
    assert_eq!(
        header(&headers, "content-type"),
        Some(b"application/json-rpc".as_slice())
    );
    assert_eq!(header(&headers, "authorization"), Some(b"static".as_slice()));
    let headers = transport.request_headers(&bearer("x"));
    assert_eq!(header(&headers, "authorization"), Some(b"Bearer x".as_slice()));

    for (name, value, blamed) in [("", "v", ""), ("a b", "v", "a b"), ("a:", "v", "a:"), ("a", "v\n", "v\n"), ("a", "\u{7f}", "\u{7f}")] {
        let error = endpoint().with_header(name, value).unwrap_err();
        assert_eq!(error.to_string(), format!("invalid default header: {blamed}"));
    }
    assert!(endpoint().with_header("a!#$%&'*+-.^_`|~9Z", "\u{e9}").is_ok());
}

#[test]
fn clones_have_the_same_settings() {
    let transport = endpoint()
        .with_header("a", "1")
        .unwrap()
        .with_header("b", "2")
        .unwrap()
        .with_max_response_size(9);
    let copy = transport.clone().with_header("a", "3").unwrap();
    assert_eq!(copy.uri(), transport.uri());
    assert_eq!(header(&copy.request_headers(&None), "a"), Some(b"3".as_slice()));
    assert_eq!(header(&copy.request_headers(&None), "b"), Some(b"2".as_slice()));
    assert_eq!(header(&transport.request_headers(&None), "a"), Some(b"1".as_slice()));
    let (exchange, _) = HttpExchange::begin::<NoAuth, String>(&copy);
    match exchange.responded::<String>(Ok(200)) {
        HttpStep::ReadBody(limit) => assert_eq!(limit, 9),
        _ => panic!("expected the body to be read"),
    }
}
