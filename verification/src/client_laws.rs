//! What holds of calls from end to end.

use crate::client;
use crate::client::http;
use crate::client::http::Header;
use crate::client::http::HttpTransportErrorView;
use crate::client::multiplex;
use crate::client::multiplex::Waiting;
use crate::client::uds;
use crate::client::uds::RetryPolicy;
use crate::error;
use crate::error::ClientErrorView;
use crate::error::TransportErrorView;
use crate::json;
use crate::numeral;
use crate::protocol;
use crate::protocol::ErrorView;
use crate::protocol::IdView;
use crate::protocol::RequestView;
use crate::protocol::ResponseView;
use crate::server;
use crate::server::EntryView;
use crate::server::OutcomeView;
use crate::server::OutputView;
use vstd::arithmetic::power2::*;
use vstd::prelude::*;
use vstd::utf8::*;

verus! {

/// The count after so many ids were allocated.
pub open spec fn count_after_many(count: u64, allocated: nat) -> u64
    decreases allocated,
{
    if allocated == 0 {
        count
    } else {
        client::count_after(count_after_many(count, (allocated - 1) as nat))
    }
}

proof fn lemma_count_after_many(count: u64, allocated: nat)
    ensures
        count_after_many(count, allocated) == (count + allocated) % 0x1_0000_0000_0000_0000,
    decreases allocated,
{
    if allocated > 0 {
        lemma_count_after_many(count, (allocated - 1) as nat);
    }
}

/// The ids that are allocated one after the other are all different, until all 64-bit numbers
/// have been used.
pub proof fn law_ids_are_distinct(count: u64, first: nat, second: nat)
    requires
        first < second < first + 0x1_0000_0000_0000_0000,
    ensures
        client::id_number(count_after_many(count, first)) != client::id_number(
            count_after_many(count, second),
        ),
{
    lemma_count_after_many(count, first);
    lemma_count_after_many(count, second);
}

/// What the side of the client makes of an outcome of the handler.
pub open spec fn outcome_at_client(outcome: OutcomeView) -> Result<
    Seq<u8>,
    ClientErrorView<String>,
> {
    match outcome {
        Ok(result) => Ok(result),
        Err(error) => Err(ClientErrorView::Rpc(protocol::error_reread(error))),
    }
}

/// The response to a call whose handler came to an outcome.
pub open spec fn outcome_response(id: IdView, outcome: OutcomeView) -> ResponseView {
    match outcome {
        Ok(result) => protocol::result_response(id, result),
        Err(error) => protocol::error_response(id, error),
    }
}

/// A response that was written is read as what it was made of: its result, or its error.
pub proof fn law_responses_come_back(id: IdView, outcome: OutcomeView)
    ensures
        client::response_result(protocol::response_reread(outcome_response(id, outcome)))
            == outcome_at_client(outcome),
{
}

/// A response under another id is not taken for that of the call.
pub proof fn law_other_ids_are_refused(bytes: Seq<u8>, id: IdView, expected: IdView)
    requires
        id != expected,
    ensures
        protocol::response_of(bytes) is Some && protocol::response_of(bytes)->0.id == id
            ==> client::call_result(bytes, expected) == Err::<Seq<u8>, ClientErrorView<String>>(
            ClientErrorView::IdMismatch,
        ),
{
}

/// A call reaches the handler of its method as it is, and its response carries its id and what the
/// handler came to.
pub proof fn law_calls_are_answered(
    request: RequestView,
    id: IdView,
    known: Set<Seq<char>>,
    outcome: OutcomeView,
)
    requires
        request.id == Some(id),
        known.contains(request.method),
    ensures
        server::calls(client::request_plan(request, known).entries) == seq![request],
        server::plan_output(client::request_plan(request, known), seq![outcome])
            == OutputView::Single(outcome_response(id, outcome)),
{
    let plan = client::request_plan(request, known);
    assert(plan.entries.drop_last() =~= Seq::<EntryView>::empty());
    reveal_with_fuel(server::calls, 2);
    reveal_with_fuel(server::answers, 2);
    assert(server::calls(plan.entries) =~= seq![request]);
    assert(server::answers(plan.entries, seq![outcome]) =~= seq![outcome_response(id, outcome)]);
}

/// A notification reaches the handler of its method as it is, and nothing is sent back, whether or
/// not there is such a method.
pub proof fn law_notifications_are_silent(
    request: RequestView,
    known: Set<Seq<char>>,
    outcomes: Seq<OutcomeView>,
)
    requires
        request.id is None,
    ensures
        server::calls(client::request_plan(request, known).entries) == if known.contains(
            request.method,
        ) {
            seq![request]
        } else {
            Seq::empty()
        },
        server::plan_output(client::request_plan(request, known), outcomes) == OutputView::Empty,
{
    let plan = client::request_plan(request, known);
    assert(plan.entries.drop_last() =~= Seq::<EntryView>::empty());
    reveal_with_fuel(server::calls, 2);
    reveal_with_fuel(server::answers, 2);
    if known.contains(request.method) {
        assert(server::calls(plan.entries) =~= seq![request]);
    }
}

/// A call of a method that is not registered is answered under its id with a Method not found
/// error, and no handler is run.
pub proof fn law_unknown_methods_are_refused(
    request: RequestView,
    id: IdView,
    known: Set<Seq<char>>,
)
    requires
        request.id == Some(id),
        !known.contains(request.method),
    ensures
        server::calls(client::request_plan(request, known).entries).len() == 0,
        server::plan_output(client::request_plan(request, known), Seq::empty())
            == OutputView::Single(protocol::error_response(id, server::method_not_found())),
{
    let plan = client::request_plan(request, known);
    assert(plan.entries.drop_last() =~= Seq::<EntryView>::empty());
    reveal_with_fuel(server::calls, 2);
    reveal_with_fuel(server::answers, 2);
}

/// Replies can come in any order: each caller gets the reply with their id, and those who wait
/// for other ids are not affected.
pub proof fn law_replies_come_in_any_order<W>(
    pending: Map<IdView, W>,
    first: IdView,
    second: IdView,
)
    requires
        first != second,
        pending.contains_key(first),
        pending.contains_key(second),
    ensures
        pending.remove(first).contains_pair(second, pending[second]),
        pending.remove(second).contains_pair(first, pending[first]),
        pending.remove(first).remove(second) == pending.remove(second).remove(first),
{
    assert(pending.remove(first).remove(second) =~= pending.remove(second).remove(first));
}

/// A call that was entered and then answered or given up leaves nothing behind.
pub proof fn law_nothing_is_left_behind<W>(pending: Map<IdView, W>, id: IdView, waiter: W)
    requires
        !pending.contains_key(id),
    ensures
        pending.insert(id, waiter).remove(id) == pending,
{
    assert(pending.insert(id, waiter).remove(id) =~= pending);
}

/// The waits between dials start at the base wait, double from one to the next until they reach the
/// longest wait, and are never longer than it.
pub proof fn law_waits_double(policy: RetryPolicy, failed: nat)
    requires
        failed >= 1,
    ensures
        uds::wait_after(policy, 1) == if policy.base_backoff.total() <= policy.max_backoff.total() {
            policy.base_backoff.total()
        } else {
            policy.max_backoff.total()
        },
        uds::wait_after(policy, failed + 1) == if 2 * uds::wait_after(policy, failed)
            <= policy.max_backoff.total() {
            2 * uds::wait_after(policy, failed)
        } else {
            policy.max_backoff.total()
        },
        uds::wait_after(policy, failed) <= policy.max_backoff.total(),
{
}

/// No more than one further attempt is made over HTTP: after it, a `401` is a failure like any
/// other status.
pub proof fn law_one_retry(limit: usize, status: u16)
    ensures
        http::after_response(true, limit, status) == if http::is_success(status) {
            http::ResponseStep::ReadBody(http::body_limit(limit))
        } else {
            http::ResponseStep::Fail(status)
        },
        http::after_response(false, limit, status) == http::ResponseStep::AskRetry <==> status
            == 401,
{
}

/// What a response over HTTP comes to, by its status: the body is read after any status from 200 to
/// 299, up to the limit, or without a limit if that is zero; another attempt may be made after a
/// first `401`; any other status is a failure that carries it.
pub proof fn law_statuses(retried: bool, limit: usize, status: u16)
    ensures
        match http::after_response(retried, limit, status) {
            http::ResponseStep::AskRetry => status == 401 && !retried,
            http::ResponseStep::ReadBody(most) => {
                &&& 200 <= status <= 299
                &&& limit > 0 ==> most == limit
                &&& limit == 0 ==> most == usize::MAX
            },
            http::ResponseStep::Fail(same) => {
                &&& same == status
                &&& status < 200 || 299 < status
                &&& status == 401 ==> retried
            },
        },
{
}

/// The names of two headers that a request may have of its own are different.
proof fn lemma_header_names()
    ensures
        "content-type"@ != "authorization"@,
{
    reveal_strlit("content-type");
    reveal_strlit("authorization");
    assert("content-type"@.len() != "authorization"@.len());
}

/// A request carries the endpoint's own headers as they are, but for the credential, which takes
/// the place of an `authorization` header; its content type is `application/json` unless the
/// endpoint has one of its own; and there are no other headers.
pub proof fn law_request_headers(
    own: Map<Seq<char>, Seq<u8>>,
    auth: Option<Seq<u8>>,
    name: Seq<char>,
)
    ensures
        ({
            let all = http::request_header_map(own, auth);
            &&& own.contains_key(name) && name != "authorization"@ ==> all.contains_pair(
                name,
                own[name],
            )
            &&& match auth {
                Some(value) => all.contains_pair("authorization"@, value),
                None => {
                    &&& all.contains_key("authorization"@) <==> own.contains_key("authorization"@)
                    &&& own.contains_key("authorization"@) ==> all["authorization"@]
                        == own["authorization"@]
                },
            }
            &&& !own.contains_key("content-type"@) ==> all.contains_pair(
                "content-type"@,
                encode_utf8("application/json"@),
            )
            &&& all.contains_key(name) ==> own.contains_key(name) || name == "content-type"@ || (
            name == "authorization"@ && auth is Some)
        }),
{
    lemma_header_names();
}

/// Whether a header is the last of its name in a list of headers.
pub open spec fn is_last_of_name(headers: Seq<Header>, name: Seq<char>, i: int) -> bool {
    &&& 0 <= i < headers.len()
    &&& headers[i].name@ == name
    &&& forall|j: int| i < j < headers.len() ==> (#[trigger] headers[j]).name@ != name
}

/// Of the headers in a list, those count that are the last of their name, each with its own value;
/// and each name in the list has one.
pub proof fn law_last_headers_count(headers: Seq<Header>, name: Seq<char>, value: Seq<u8>)
    ensures
        http::header_map(headers).contains_pair(name, value) <==> exists|i: int|
            #[trigger] is_last_of_name(headers, name, i) && headers[i].value@ == value,
        http::header_map(headers).contains_key(name) <==> exists|i: int|
            0 <= i < headers.len() && (#[trigger] headers[i]).name@ == name,
    decreases headers.len(),
{
    if headers.len() > 0 {
        let front = headers.drop_last();
        let last = headers.len() - 1;
        law_last_headers_count(front, name, value);
        if headers[last].name@ == name {
            assert(is_last_of_name(headers, name, last));
            assert forall|i: int| is_last_of_name(headers, name, i) implies i == last by {
                if i < last {
                    assert(headers[last].name@ != name);
                }
            }
        } else {
            assert forall|i: int| #[trigger] is_last_of_name(front, name, i) implies
                is_last_of_name(headers, name, i) && headers[i] == front[i] by {
                assert forall|j: int| i < j < headers.len() implies (#[trigger] headers[j]).name@
                    != name by {
                    if j < last {
                        assert(headers[j] == front[j]);
                    }
                }
            }
            assert forall|i: int| #[trigger] is_last_of_name(headers, name, i) implies
                is_last_of_name(front, name, i) && headers[i] == front[i] by {
                assert forall|j: int| i < j < front.len() implies (#[trigger] front[j]).name@
                    != name by {
                    assert(front[j] == headers[j]);
                }
            }
            assert(forall|i: int|
                0 <= i < front.len() ==> front[i] == #[trigger] headers[i]);
            if exists|i: int| 0 <= i < headers.len() && (#[trigger] headers[i]).name@ == name {
                let i = choose|i: int| 0 <= i < headers.len() && (#[trigger] headers[i]).name@
                    == name;
                assert(front[i].name@ == name);
            }
            if exists|i: int| 0 <= i < front.len() && (#[trigger] front[i]).name@ == name {
                let i = choose|i: int| 0 <= i < front.len() && (#[trigger] front[i]).name@ == name;
                assert(headers[i].name@ == name);
            }
        }
    }
}

/// Names of headers are taken without regard to case: letters come out in lower case, and every
/// other byte as it is.
pub proof fn law_header_names_are_lowered(name: Seq<u8>, i: int)
    requires
        http::is_header_name(name),
        0 <= i < name.len(),
    ensures
        http::lower_name(name).len() == name.len(),
        http::lower_name(name)[i] == if 65 <= name[i] <= 90 {
            name[i] + 32
        } else {
            name[i] as int
        },
{
    assert(http::name_byte(name[i]) is Some);
}

/// Whether a byte may stand in the name of a header: a letter, a digit, or one of the marks
/// ``!#$%&'*+-.^_`|~``.
pub open spec fn is_token_byte(b: u8) -> bool {
    ||| 65 <= b <= 90
    ||| 97 <= b <= 122
    ||| 48 <= b <= 57
    ||| encode_utf8("!#$%&'*+-.^_`|~"@).contains(b)
}

/// The name of a header is made of letters, digits and marks, and is neither empty nor longer than
/// 65535 bytes. Its value is any text without control characters but tabs.
pub proof fn law_headers_are_checked(name: Seq<u8>, value: Seq<u8>)
    ensures
        http::is_header_name(name) <==> 1 <= name.len() <= 65535 && forall|i: int|
            0 <= i < name.len() ==> is_token_byte(#[trigger] name[i]),
        http::is_header_value(value) <==> forall|i: int|
            0 <= i < value.len() ==> !(#[trigger] value[i] < 32 && value[i] != 9) && value[i] != 127,
{
    assert forall|b: u8| #[trigger] is_token_byte(b) <==> http::name_byte(b) is Some by {
        let marks = "!#$%&'*+-.^_`|~"@;
        reveal_strlit("!#$%&'*+-.^_`|~");
        is_ascii_chars_encode_utf8(marks);
        let bytes = encode_utf8(marks);
        assert(bytes =~= seq![
            33u8,
            35u8,
            36u8,
            37u8,
            38u8,
            39u8,
            42u8,
            43u8,
            45u8,
            46u8,
            94u8,
            95u8,
            96u8,
            124u8,
            126u8,
        ]);
        if b == 33 {
            assert(bytes[0] == b);
        } else if 35 <= b <= 39 {
            assert(bytes[b - 34] == b);
        } else if b == 42 || b == 43 {
            assert(bytes[b - 36] == b);
        } else if b == 45 || b == 46 {
            assert(bytes[b - 37] == b);
        } else if 94 <= b <= 96 {
            assert(bytes[b - 84] == b);
        } else if b == 124 {
            assert(bytes[13] == b);
        } else if b == 126 {
            assert(bytes[14] == b);
        }
    }
    if http::is_header_name(name) {
        assert forall|i: int| 0 <= i < name.len() implies is_token_byte(#[trigger] name[i]) by {
            assert(http::name_byte(name[i]) is Some);
        }
    }
    if 1 <= name.len() <= 65535 && forall|i: int|
        0 <= i < name.len() ==> is_token_byte(#[trigger] name[i]) {
        assert forall|i: int| 0 <= i < name.len() implies http::name_byte(
            #[trigger] name[i],
        ) is Some by {
            assert(is_token_byte(name[i]));
        }
    }
}

/// The id that follows from a count stands for it in 64 bits, and counts follow each other in 64
/// bits: as long as a count is within the range of `i64`, it is the id.
pub proof fn law_ids_count_up(count: u64)
    ensures
        client::count_after(count) == (count + 1) % 0x1_0000_0000_0000_0000,
        client::id_number(count) == count || client::id_number(count) == count
            - 0x1_0000_0000_0000_0000,
        count <= i64::MAX ==> client::id_number(count) == count,
{
}

/// A response is taken for a call if it has the id of the call. It then comes to its result, if it
/// has one and no error; to its error, if it has one and no result; and else to nothing.
pub proof fn law_calls_come_to(bytes: Seq<u8>, expected: IdView)
    ensures
        match protocol::response_of(bytes) {
            Some(response) => match client::call_result(bytes, expected) {
                Ok(result) => {
                    &&& response.id == expected
                    &&& response.result == Some(result)
                    &&& response.error is None
                },
                Err(ClientErrorView::Rpc(error)) => {
                    &&& response.id == expected
                    &&& response.error == Some(error)
                    &&& response.result is None
                },
                Err(ClientErrorView::MalformedResponse) => {
                    &&& response.id == expected
                    &&& response.result is Some <==> response.error is Some
                },
                Err(ClientErrorView::IdMismatch) => response.id != expected,
                _ => false,
            },
            None => client::call_result(bytes, expected) == Err::<
                Seq<u8>,
                ClientErrorView<String>,
            >(
                ClientErrorView::Protocol(
                    match json::document_refusal(bytes) {
                        Some(message) => message,
                        None => "not a JSON-RPC response"@,
                    },
                ),
            ),
        },
{
}

/// Who waits for the reply to a call under way is found under its id, and nobody else.
pub proof fn law_waiters<W>(calls: Seq<Waiting<W>>, id: IdView)
    requires
        forall|i: int, j: int|
            0 <= i < j < calls.len() ==> (#[trigger] calls[i]).id@ != (#[trigger] calls[j]).id@,
    ensures
        multiplex::waiters(calls).contains_key(id) <==> exists|i: int|
            0 <= i < calls.len() && (#[trigger] calls[i]).id@ == id,
        forall|i: int|
            0 <= i < calls.len() && (#[trigger] calls[i]).id@ == id ==> multiplex::waiters(
                calls,
            ).contains_pair(id, calls[i].waiter),
{
    if multiplex::is_waiting(calls, id) {
        let k = choose|k: int| multiplex::is_at(calls, id, k);
        assert(calls[k].id@ == id);
    }
    assert forall|i: int| 0 <= i < calls.len() && (#[trigger] calls[i]).id@ == id implies
        multiplex::waiters(calls).contains_pair(id, calls[i].waiter) by {
        assert(multiplex::is_at(calls, id, i));
        let k = choose|k: int| multiplex::is_at(calls, id, k);
        if k < i {
            assert(calls[k].id@ != calls[i].id@);
        }
        if i < k {
            assert(calls[i].id@ != calls[k].id@);
        }
    }
}

/// The wait before each further dial, outright: the base wait doubled as many times as dials have
/// failed before the last, but never more than the longest wait.
pub proof fn law_waits(policy: RetryPolicy, doublings: nat)
    ensures
        ({
            let wait = policy.base_backoff.total() * pow2(doublings);
            let longest = policy.max_backoff.total();
            uds::wait_after(policy, doublings + 1) == if wait <= longest {
                wait as nat
            } else {
                longest
            }
        }),
    decreases doublings,
{
    let base = policy.base_backoff.total();
    if doublings == 0 {
        lemma2_to64();
        assert(base * 1 == base);
    } else {
        law_waits(policy, (doublings - 1) as nat);
        lemma_pow2_unfold(doublings);
        let half = pow2((doublings - 1) as nat);
        assert(base * (2 * half) == 2 * (base * half)) by (nonlinear_arith);
    }
}

/// At least one dial is made, and as many as the policy says; only a single attempt without any
/// wait means that nothing is dialled again.
pub proof fn law_attempts(policy: RetryPolicy)
    ensures
        uds::attempts(policy) >= 1,
        policy.max_attempts >= 1 ==> uds::attempts(policy) == policy.max_attempts,
        policy.max_attempts == 0 ==> uds::attempts(policy) == 1,
        uds::never_redials(policy) <==> policy.max_attempts == 1 && policy.base_backoff.total() == 0
            && policy.max_backoff.total() == 0,
{
}

/// The texts in which ids, error objects and failures are shown.
pub proof fn law_shown_texts(
    id: IdView,
    error: ErrorView,
    cause: Seq<char>,
    failure: ClientErrorView<String>,
)
    ensures
        match id {
            IdView::Null => protocol::Id::shown(id) == "null"@,
            IdView::Number(n) => protocol::Id::shown(id) == numeral::decimal(n as int),
            IdView::String(s) => protocol::Id::shown(id) == s,
        },
        protocol::Error::shown(error) == error.message + " (code "@ + numeral::decimal(
            error.code as int,
        ) + ")"@,
        ({
            let text = error::client_error_shown(failure, cause);
            match failure {
                ClientErrorView::Protocol(message) => text == "protocol error: "@ + message,
                ClientErrorView::Rpc(error) => text == "rpc error: "@ + (error.message + " (code "@
                    + numeral::decimal(error.code as int) + ")"@),
                ClientErrorView::IdMismatch => text == "response id did not match request id"@,
                ClientErrorView::MalformedResponse => text
                    == "response contained neither or both of result/error"@,
                ClientErrorView::Transport(_) => text == "transport error: "@ + cause,
                ClientErrorView::Timeout(timeout) => text == "request timed out after "@
                    + timeout.shown(),
            }
        }),
{
}

/// The texts in which failures of exchanges over HTTP and of transports are shown.
pub proof fn law_shown_failures(
    failure: HttpTransportErrorView<String>,
    cause: Seq<char>,
    broken: TransportErrorView,
    text: Seq<char>,
)
    ensures
        ({
            let text = http::http_error_shown(failure, cause);
            match failure {
                HttpTransportErrorView::InvalidUri(uri) => text == "invalid endpoint uri: "@ + uri,
                HttpTransportErrorView::Connect(_) => text == "http connect error: "@ + cause,
                HttpTransportErrorView::Body(_) => text == "http body error: "@ + cause,
                HttpTransportErrorView::Status(status) => match http::status_text(status) {
                    Some(shown) => text == "unexpected http status: "@ + shown,
                    None => text == "unexpected http status: "@ + numeral::decimal(status as int),
                },
                HttpTransportErrorView::InvalidHeader(header) => text == "invalid default header: "@
                    + header,
                HttpTransportErrorView::TooLarge(limit) => text
                    == "response body exceeded max size of "@ + numeral::decimal(limit as int)
                    + " bytes"@,
                HttpTransportErrorView::Auth(_) => text == "authorization error: "@ + cause,
            }
        }),
        match broken {
            TransportErrorView::Frame(message) => error::transport_error_shown(broken, text)
                <==> text == "framing error: "@ + message,
            TransportErrorView::Io(failed) => error::transport_error_shown(broken, text)
                <==> exists|detail: String|
                vstd::string::to_string_from_display_ensures::<std::io::Error>(&failed, detail)
                    && text == "io error: "@ + #[trigger] detail@,
        },
{
}

/// The limits that hold unless they are set otherwise: the body of a response may have 16 MiB.
pub proof fn law_default_response_limit()
    ensures
        http::DEFAULT_MAX_RESPONSE_SIZE == 16_777_216,
{
}

} // verus!
