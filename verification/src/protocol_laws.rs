//! What holds of the JSON of requests and responses.

use crate::client;
use crate::json;
use crate::json::MemberView;
use crate::numeral;
use crate::object;
use crate::protocol;
use crate::protocol::ErrorView;
use crate::protocol::IdView;
use crate::protocol::RequestView;
use crate::protocol::ResponseView;
use vstd::prelude::*;
use vstd::utf8::*;

verus! {

/// Whether an object has a member with a key.
pub open spec fn has_member(members: Seq<MemberView>, key: Seq<char>) -> bool {
    exists|i: int| 0 <= i < members.len() && (#[trigger] members[i]).0 == key
}

/// The JSON of a request has an `id` exactly if it is not a notification, and `params` exactly if
/// it has any.
pub proof fn law_request_members(request: RequestView)
    ensures
        has_member(protocol::request_members(request), "id"@) <==> request.id is Some,
        has_member(protocol::request_members(request), "params"@) <==> request.params is Some,
{
    reveal_strlit("jsonrpc");
    reveal_strlit("method");
    reveal_strlit("params");
    reveal_strlit("id");
    let members = protocol::request_members(request);
    if request.params is Some {
        assert(members[2].0 == "params"@);
    }
    if request.id is Some {
        assert(members.last().0 == "id"@);
    }
    assert("id"@.len() == 2 && "jsonrpc"@.len() == 7);
    assert("params"@.len() == 6 && "params"@[0] == 'p');
    assert("method"@.len() == 6 && "method"@[0] == 'm');
    assert forall|i: int| 0 <= i < members.len() implies ((#[trigger] members[i]).0 == "id"@
        ==> request.id is Some) && (members[i].0 == "params"@ ==> request.params is Some) by {
        if i >= 2 {
            assert(members[i].0 == "params"@ || members[i].0 == "id"@);
        }
    }
}

/// The JSON of a response that has exactly one of a result and an error has exactly one of the
/// members `result` and `error`, and always an `id`.
pub proof fn law_response_members(response: ResponseView)
    ensures
        has_member(protocol::response_members(response), "id"@),
        has_member(protocol::response_members(response), "result"@) <==> response.result is Some,
        has_member(protocol::response_members(response), "error"@) <==> response.error is Some,
        protocol::is_valid_response(response) <==> (has_member(
            protocol::response_members(response),
            "result"@,
        ) <==> !has_member(protocol::response_members(response), "error"@)),
{
    reveal_strlit("jsonrpc");
    reveal_strlit("result");
    reveal_strlit("error");
    reveal_strlit("id");
    let members = protocol::response_members(response);
    assert(members.last().0 == "id"@);
    if response.result is Some {
        assert(members[1].0 == "result"@);
        if response.error is Some {
            assert(members[2].0 == "error"@);
        }
    } else if response.error is Some {
        assert(members[1].0 == "error"@);
    }
    assert("id"@.len() == 2 && "jsonrpc"@.len() == 7);
    assert("result"@.len() == 6 && "error"@.len() == 5);
    assert forall|i: int| 0 <= i < members.len() implies ((#[trigger] members[i]).0 == "result"@
        ==> response.result is Some) && (members[i].0 == "error"@ ==> response.error is Some) by {
        if i == members.len() - 1 {
            assert(members[i].0 == "id"@);
        } else if i >= 1 {
            assert(members[i].0 == "result"@ || members[i].0 == "error"@);
        }
    }
}

/// The responses that are made have exactly one of a result and an error.
pub proof fn law_responses_are_valid(id: IdView, result: Seq<u8>, error: protocol::ErrorView)
    ensures
        protocol::is_valid_response(protocol::result_response(id, result)),
        protocol::is_valid_response(protocol::error_response(id, error)),
{
}

/// A numeric id and the string of its digits are different ids, with different JSON.
pub proof fn law_id_types_are_kept(n: i64)
    ensures
        IdView::Number(n) != IdView::String(numeral::decimal(n as int)),
        protocol::id_text(IdView::Number(n)) != json::quoted(numeral::decimal(n as int)),
        protocol::id_text(IdView::Number(n)) != json::null_text(),
{
    numeral::lemma_decimal(n as int);
}

/// Whether an object has a member with a key and a value.
pub open spec fn has_value(members: Seq<MemberView>, key: Seq<char>, value: Seq<u8>) -> bool {
    exists|i: int| 0 <= i < members.len() && #[trigger] members[i] == (key, value)
}

/// Whether the first of a structure's fields is the version string.
pub open spec fn has_version(text: Seq<u8>, names: Seq<Seq<char>>) -> bool {
    object::fields(text, names) matches Some(fields) && fields[0] matches Some(version)
        && protocol::is_version(version)
}

/// A request and a response have the version string for their `jsonrpc` field. A text without it,
/// or with any other value there, is neither, whatever else it has.
pub proof fn law_version_is_required(text: Seq<u8>)
    ensures
        protocol::request_of(text) is Some ==> has_version(text, protocol::request_names()),
        protocol::response_of(text) is Some ==> has_version(text, protocol::response_names()),
        protocol::request_of(text) is Some || protocol::response_of(text) is Some ==> (
        object::object_members(text) matches Some(members) ==> exists|version: Seq<u8>|
            #[trigger]
            protocol::is_version(version) && has_value(members, "jsonrpc"@, version)),
{
    if let Some(members) = object::object_members(text) {
        assert(json::trim_start(text)[0] == 123);
        if protocol::request_of(text) is Some || protocol::response_of(text) is Some {
            let version = object::find(members, "jsonrpc"@)->0;
            lemma_found(members, "jsonrpc"@);
            assert(protocol::is_version(version) && has_value(members, "jsonrpc"@, version));
        }
    }
}

/// A value that is found is that of a member.
proof fn lemma_found(members: Seq<MemberView>, key: Seq<char>)
    ensures
        object::find(members, key) matches Some(value) ==> has_value(members, key, value),
    decreases members.len(),
{
    if let Some(value) = object::find(members, key) {
        if members[0].0 == key {
            assert(members[0] == (key, value));
        } else {
            let others = members.skip(1);
            lemma_found(others, key);
            let i = choose|i: int| 0 <= i < others.len() && #[trigger] others[i] == (key, value);
            assert(members[i + 1] == (key, value));
        }
    }
}

/// A proxy can give a request an id of its own and restore the caller's id on the reply: nothing
/// but the id changes, and the caller takes the reply as if it had been asked for under their id.
pub proof fn law_ids_can_be_rewritten(
    request: RequestView,
    response: ResponseView,
    caller: IdView,
    proxy: IdView,
)
    requires
        request.id == Some(caller),
    ensures
        ({
            let forwarded = RequestView { id: Some(proxy), ..request };
            let restored = RequestView { id: Some(caller), ..forwarded };
            restored == request && forwarded.method == request.method && forwarded.params
                == request.params
        }),
        ({
            let relayed = ResponseView { id: caller, ..response };
            client::response_result(relayed) == client::response_result(response) && relayed.id
                == caller
        }),
{
}

/// A text in front of a value, if there is a value.
pub open spec fn prefixed(front: Seq<char>, value: Option<Seq<u8>>) -> Seq<u8> {
    match value {
        Some(value) => encode_utf8(front) + value,
        None => Seq::empty(),
    }
}

/// An id on the wire: `null`, a numeral or a JSON string.
pub open spec fn wire_id(id: IdView) -> Seq<u8> {
    match id {
        IdView::Null => encode_utf8("null"@),
        IdView::Number(n) => numeral::decimal_bytes(n as int),
        IdView::String(s) => json::string_text(s),
    }
}

/// An optional id on the wire.
pub open spec fn optional_wire_id(id: Option<IdView>) -> Option<Seq<u8>> {
    match id {
        Some(id) => Some(wire_id(id)),
        None => None,
    }
}

/// An error object on the wire.
pub open spec fn wire_error(error: ErrorView) -> Seq<u8> {
    encode_utf8("{\"code\":"@) + numeral::decimal_bytes(error.code as int) + encode_utf8(
        ",\"message\":"@,
    ) + json::string_text(error.message) + prefixed(",\"data\":"@, error.data) + encode_utf8("}"@)
}

/// An optional error object on the wire.
pub open spec fn optional_wire_error(error: Option<ErrorView>) -> Option<Seq<u8>> {
    match error {
        Some(error) => Some(wire_error(error)),
        None => None,
    }
}

/// The JSON of an id, byte for byte: ids of different types look different.
pub proof fn law_id_text(id: IdView)
    ensures
        protocol::id_text(id) == wire_id(id),
{
    reveal_strlit("null");
    is_ascii_chars_encode_utf8("null"@);
    assert(encode_utf8("null"@) =~= json::null_text());
}

/// A key between quotation marks, with its colon.
proof fn lemma_key_text(key: Seq<char>, front: Seq<char>, marked: Seq<char>)
    requires
        is_ascii_chars(marked),
        is_ascii_chars(key),
        marked.len() == front.len() + key.len() + 3,
        is_ascii_chars(front),
        marked == front + seq!['"'] + key + seq!['"', ':'],
    ensures
        encode_utf8(marked) == encode_utf8(front) + json::quoted(key) + seq![58u8],
{
    is_ascii_chars_encode_utf8(marked);
    is_ascii_chars_encode_utf8(front);
    is_ascii_chars_encode_utf8(key);
    let parts = encode_utf8(front) + json::quoted(key) + seq![58u8];
    assert forall|i: int| 0 <= i < marked.len() implies encode_utf8(marked)[i] == parts[i] by {
        assert(marked[i] as u8 == encode_utf8(marked)[i]);
        if i < front.len() {
            assert(marked[i] == front[i]);
        } else if i == front.len() {
            assert(marked[i] == '"');
        } else if i < front.len() + 1 + key.len() {
            assert(marked[i] == key[i - front.len() - 1]);
        }
    }
    assert(encode_utf8(marked) =~= parts);
}

/// The JSON of an error object, byte for byte: its code, its message and, if it has any, its data,
/// which stand there as they are.
pub proof fn law_error_text(error: ErrorView)
    ensures
        protocol::error_text(error) == wire_error(error),
{
    reveal_strlit("code");
    reveal_strlit("message");
    reveal_strlit("data");
    reveal_strlit("{");
    reveal_strlit(",");
    reveal_strlit("}");
    reveal_strlit("{\"code\":");
    reveal_strlit(",\"message\":");
    reveal_strlit(",\"data\":");
    assert("{\"code\":"@ =~= "{"@ + seq!['"'] + "code"@ + seq!['"', ':']);
    assert(",\"message\":"@ =~= ","@ + seq!['"'] + "message"@ + seq!['"', ':']);
    assert(",\"data\":"@ =~= ","@ + seq!['"'] + "data"@ + seq!['"', ':']);
    lemma_key_text("code"@, "{"@, "{\"code\":"@);
    lemma_key_text("message"@, ","@, ",\"message\":"@);
    lemma_key_text("data"@, ","@, ",\"data\":"@);
    lemma_marks();
    reveal_with_fuel(json::members_text, 4);
    let members = protocol::error_members(error);
    assert(members.skip(1)[0] == members[1]);
    if error.data is Some {
        assert(members.skip(1).skip(1)[0] == members[2]);
    }
    assert(protocol::error_text(error) =~= wire_error(error));
}

/// The marks of objects as bytes.
proof fn lemma_marks()
    ensures
        encode_utf8("{"@) == seq![123u8],
        encode_utf8("}"@) == seq![125u8],
        encode_utf8(","@) == seq![44u8],
{
    reveal_strlit("{");
    reveal_strlit("}");
    reveal_strlit(",");
    is_ascii_chars_encode_utf8("{"@);
    is_ascii_chars_encode_utf8("}"@);
    is_ascii_chars_encode_utf8(","@);
    assert(encode_utf8("{"@) =~= seq![123u8]);
    assert(encode_utf8("}"@) =~= seq![125u8]);
    assert(encode_utf8(","@) =~= seq![44u8]);
}

/// The JSON of a request, byte for byte: the version, the method, the params as they are if there
/// are any, and the id if there is one.
pub proof fn law_request_text(request: RequestView)
    ensures
        protocol::request_text(request) == encode_utf8("{\"jsonrpc\":"@) + encode_utf8(
            "\"2.0\""@,
        ) + encode_utf8(",\"method\":"@) + json::string_text(request.method) + prefixed(
            ",\"params\":"@,
            request.params,
        ) + prefixed(",\"id\":"@, optional_wire_id(request.id)) + encode_utf8("}"@),
{
    lemma_fronts();
    lemma_version_text();
    lemma_marks();
    if let Some(id) = request.id {
        law_id_text(id);
    }
    let version = ("jsonrpc"@, json::quoted("2.0"@));
    let method = ("method"@, json::string_text(request.method));
    let members = protocol::request_members(request);
    match (request.params, request.id) {
        (None, None) => {
            assert(members =~= seq![version, method]);
        },
        (Some(params), None) => {
            assert(members =~= seq![version, method, ("params"@, params)]);
        },
        (None, Some(id)) => {
            assert(members =~= seq![version, method, ("id"@, wire_id(id))]);
        },
        (Some(params), Some(id)) => {
            assert(members =~= seq![version, method, ("params"@, params), ("id"@, wire_id(id))]);
        },
    }
    lemma_members_text(members);
    let none = Seq::<u8>::empty();
    let params = prefixed(",\"params\":"@, request.params);
    let id = prefixed(",\"id\":"@, optional_wire_id(request.id));
    let third = if members.len() > 2 {
        seq![44u8] + json::member_text(members[2])
    } else {
        none
    };
    let fourth = if members.len() > 3 {
        seq![44u8] + json::member_text(members[3])
    } else {
        none
    };
    if let Some(value) = request.params {
        lemma_member_bytes(json::quoted("params"@), value);
    }
    if let Some(value) = request.id {
        lemma_member_bytes(json::quoted("id"@), wire_id(value));
    }
    lemma_object_bytes(
        json::quoted("jsonrpc"@),
        json::quoted("2.0"@),
        json::quoted("method"@),
        json::string_text(request.method),
        third,
        fourth,
    );
    let front = encode_utf8("{\"jsonrpc\":"@) + encode_utf8("\"2.0\""@);
    let called = encode_utf8(",\"method\":"@) + json::string_text(request.method);
    assert(protocol::request_text(request) == front + called + third + fourth + seq![125u8]);
    assert(front + called + params + id =~= front + called + third + fourth);
    assert(front + called =~= encode_utf8("{\"jsonrpc\":"@) + encode_utf8("\"2.0\""@)
        + encode_utf8(",\"method\":"@) + json::string_text(request.method));
}

/// How the parts of an object stand in a row.
proof fn lemma_object_bytes(
    key: Seq<u8>,
    value: Seq<u8>,
    next_key: Seq<u8>,
    next_value: Seq<u8>,
    third: Seq<u8>,
    fourth: Seq<u8>,
)
    ensures
        seq![123u8] + ((key + seq![58u8] + value) + seq![44u8] + (next_key + seq![58u8]
            + next_value) + third + fourth) + seq![125u8] == (seq![123u8] + key + seq![58u8])
            + value + ((seq![44u8] + next_key + seq![58u8]) + next_value) + third + fourth
            + seq![125u8],
{
    assert(seq![123u8] + ((key + seq![58u8] + value) + seq![44u8] + (next_key + seq![58u8]
        + next_value) + third + fourth) + seq![125u8] =~= (seq![123u8] + key + seq![58u8]) + value
        + ((seq![44u8] + next_key + seq![58u8]) + next_value) + third + fourth + seq![125u8]);
}

/// How a further member stands behind its comma.
proof fn lemma_member_bytes(key: Seq<u8>, value: Seq<u8>)
    ensures
        seq![44u8] + (key + seq![58u8] + value) == (seq![44u8] + key + seq![58u8]) + value,
{
    assert(seq![44u8] + (key + seq![58u8] + value) =~= (seq![44u8] + key + seq![58u8]) + value);
}

/// Two to four members in a row.
proof fn lemma_members_text(members: Seq<MemberView>)
    requires
        2 <= members.len() <= 4,
    ensures
        json::members_text(members) == json::member_text(members[0]) + seq![44u8]
            + json::member_text(members[1]) + (if members.len() > 2 {
            seq![44u8] + json::member_text(members[2])
        } else {
            Seq::empty()
        }) + (if members.len() > 3 {
            seq![44u8] + json::member_text(members[3])
        } else {
            Seq::empty()
        }),
{
    let one = members.skip(1);
    let two = one.skip(1);
    let three = two.skip(1);
    assert(one[0] == members[1]);
    if members.len() > 2 {
        assert(two[0] == members[2]);
    }
    if members.len() > 3 {
        assert(three[0] == members[3]);
        assert(json::members_text(three) == json::member_text(members[3]));
    }
    if members.len() > 2 {
        assert(json::members_text(two) =~= json::member_text(members[2]) + (if members.len() > 3 {
            seq![44u8] + json::member_text(members[3])
        } else {
            Seq::empty()
        }));
    }
    assert(json::members_text(members) == json::member_text(members[0]) + seq![44u8]
        + json::members_text(one));
    assert(json::members_text(members) =~= json::member_text(members[0]) + seq![44u8]
        + json::member_text(members[1]) + (if members.len() > 2 {
        seq![44u8] + json::member_text(members[2])
    } else {
        Seq::empty()
    }) + (if members.len() > 3 {
        seq![44u8] + json::member_text(members[3])
    } else {
        Seq::empty()
    }));
}

/// The keys of requests and responses with their marks.
proof fn lemma_fronts()
    ensures
        encode_utf8("{\"jsonrpc\":"@) == encode_utf8("{"@) + json::quoted("jsonrpc"@) + seq![58u8],
        encode_utf8(",\"method\":"@) == encode_utf8(","@) + json::quoted("method"@) + seq![58u8],
        encode_utf8(",\"params\":"@) == encode_utf8(","@) + json::quoted("params"@) + seq![58u8],
        encode_utf8(",\"result\":"@) == encode_utf8(","@) + json::quoted("result"@) + seq![58u8],
        encode_utf8(",\"error\":"@) == encode_utf8(","@) + json::quoted("error"@) + seq![58u8],
        encode_utf8(",\"id\":"@) == encode_utf8(","@) + json::quoted("id"@) + seq![58u8],
{
    reveal_strlit("jsonrpc");
    reveal_strlit("method");
    reveal_strlit("params");
    reveal_strlit("result");
    reveal_strlit("error");
    reveal_strlit("id");
    reveal_strlit("{");
    reveal_strlit(",");
    reveal_strlit("{\"jsonrpc\":");
    reveal_strlit(",\"method\":");
    reveal_strlit(",\"params\":");
    reveal_strlit(",\"result\":");
    reveal_strlit(",\"error\":");
    reveal_strlit(",\"id\":");
    assert("{\"jsonrpc\":"@ =~= "{"@ + seq!['"'] + "jsonrpc"@ + seq!['"', ':']);
    assert(",\"method\":"@ =~= ","@ + seq!['"'] + "method"@ + seq!['"', ':']);
    assert(",\"params\":"@ =~= ","@ + seq!['"'] + "params"@ + seq!['"', ':']);
    assert(",\"result\":"@ =~= ","@ + seq!['"'] + "result"@ + seq!['"', ':']);
    assert(",\"error\":"@ =~= ","@ + seq!['"'] + "error"@ + seq!['"', ':']);
    assert(",\"id\":"@ =~= ","@ + seq!['"'] + "id"@ + seq!['"', ':']);
    lemma_key_text("jsonrpc"@, "{"@, "{\"jsonrpc\":"@);
    lemma_key_text("method"@, ","@, ",\"method\":"@);
    lemma_key_text("params"@, ","@, ",\"params\":"@);
    lemma_key_text("result"@, ","@, ",\"result\":"@);
    lemma_key_text("error"@, ","@, ",\"error\":"@);
    lemma_key_text("id"@, ","@, ",\"id\":"@);
}

/// The version between quotation marks.
proof fn lemma_version_text()
    ensures
        encode_utf8("\"2.0\""@) == json::quoted("2.0"@),
{
    reveal_strlit("2.0");
    reveal_strlit("\"2.0\"");
    is_ascii_chars_encode_utf8("2.0"@);
    is_ascii_chars_encode_utf8("\"2.0\""@);
    assert(encode_utf8("\"2.0\""@) =~= json::quoted("2.0"@));
}

/// The JSON of a response, byte for byte: the version, the result as it is if there is one, the
/// error if there is one, and the id.
pub proof fn law_response_text(response: ResponseView)
    ensures
        protocol::response_text(response) == encode_utf8("{\"jsonrpc\":"@) + encode_utf8(
            "\"2.0\""@,
        ) + prefixed(",\"result\":"@, response.result) + prefixed(
            ",\"error\":"@,
            optional_wire_error(response.error),
        ) + prefixed(",\"id\":"@, Some(wire_id(response.id))) + encode_utf8("}"@),
{
    lemma_fronts();
    lemma_version_text();
    lemma_marks();
    law_id_text(response.id);
    if let Some(error) = response.error {
        law_error_text(error);
    }
    let version = ("jsonrpc"@, json::quoted("2.0"@));
    let id = ("id"@, wire_id(response.id));
    let members = protocol::response_members(response);
    match (response.result, response.error) {
        (None, None) => {
            assert(members =~= seq![version, id]);
        },
        (Some(result), None) => {
            assert(members =~= seq![version, ("result"@, result), id]);
        },
        (None, Some(error)) => {
            assert(members =~= seq![version, ("error"@, wire_error(error)), id]);
        },
        (Some(result), Some(error)) => {
            assert(members =~= seq![
                version,
                ("result"@, result),
                ("error"@, wire_error(error)),
                id,
            ]);
        },
    }
    lemma_members_text(members);
    let none = Seq::<u8>::empty();
    let result = prefixed(",\"result\":"@, response.result);
    let error = prefixed(",\"error\":"@, optional_wire_error(response.error));
    let last = prefixed(",\"id\":"@, Some(wire_id(response.id)));
    let second = seq![44u8] + json::member_text(members[1]);
    let third = if members.len() > 2 {
        seq![44u8] + json::member_text(members[2])
    } else {
        none
    };
    let fourth = if members.len() > 3 {
        seq![44u8] + json::member_text(members[3])
    } else {
        none
    };
    if let Some(value) = response.result {
        lemma_member_bytes(json::quoted("result"@), value);
    }
    if let Some(value) = response.error {
        lemma_member_bytes(json::quoted("error"@), wire_error(value));
    }
    lemma_member_bytes(json::quoted("id"@), wire_id(response.id));
    let next = members[1];
    lemma_member_bytes(json::quoted(next.0), next.1);
    lemma_object_bytes(
        json::quoted("jsonrpc"@),
        json::quoted("2.0"@),
        json::quoted(next.0),
        next.1,
        third,
        fourth,
    );
    let front = encode_utf8("{\"jsonrpc\":"@) + encode_utf8("\"2.0\""@);
    assert(protocol::response_text(response) == front + second + third + fourth + seq![125u8]);
    assert(front + result + error + last =~= front + second + third + fourth);
}

} // verus!
