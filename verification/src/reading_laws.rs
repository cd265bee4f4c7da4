//! What holds of the requests, responses, errors and ids that are read, in terms of the members of
//! the objects in which they stand.

use crate::client::multiplex;
use crate::json;
use crate::json::MemberView;
use crate::numeral;
use crate::object;
use crate::protocol;
use crate::protocol::ErrorView;
use crate::protocol::IdView;
use crate::protocol::RequestView;
use crate::protocol::ResponseView;
use vstd::prelude::*;
use vstd::utf8::*;

verus! {

/// Whether a key stands at one place among members, and at no other.
pub open spec fn once_at(members: Seq<MemberView>, key: Seq<char>, i: int) -> bool {
    &&& 0 <= i < members.len()
    &&& members[i].0 == key
    &&& forall|j: int| 0 <= j < members.len() && j != i ==> (#[trigger] members[j]).0 != key
}

/// Whether a key stands nowhere among members.
pub open spec fn is_absent(members: Seq<MemberView>, key: Seq<char>) -> bool {
    forall|i: int| 0 <= i < members.len() ==> (#[trigger] members[i]).0 != key
}

/// Whether a key stands among members once, with the given value.
pub open spec fn has_once(members: Seq<MemberView>, key: Seq<char>, value: Seq<u8>) -> bool {
    exists|i: int| #[trigger] once_at(members, key, i) && members[i].1 == value
}

/// Whether a text is `null`.
pub open spec fn is_null(text: Seq<u8>) -> bool {
    text.len() == 4 && text[0] == 110 && text[1] == 117 && text[2] == 108 && text[3] == 108
}

/// Whether a value stands for an id: `null` for a null id, a numeral for a number, a JSON string
/// for a string. A numeral above the range of numeric ids, but in that of 64 bits, stands for the
/// string of its digits.
pub open spec fn stands_for_id(text: Seq<u8>, id: IdView) -> bool {
    match id {
        IdView::Null => is_null(text),
        IdView::Number(n) => text == numeral::decimal_bytes(n as int),
        IdView::String(s) => {
            ||| text.len() > 0 && text[0] == 34 && json::string_value(text) == Some(s)
            ||| exists|n: int|
                i64::MAX < n <= u64::MAX && text == #[trigger] numeral::decimal_bytes(n) && s
                    == numeral::decimal(n)
        },
    }
}

/// The id that is read from a value is the one for which it stands; other values are no ids.
pub proof fn law_ids_are_read(text: Seq<u8>, id: IdView)
    ensures
        protocol::id_of(text) == Some(id) <==> stands_for_id(text, id),
{
    if is_null(text) {
        assert(text =~= json::null_text());
    }
    assert forall|n: int| text == #[trigger] numeral::decimal_bytes(n) implies !is_null(text)
        && text[0] != 34 && text.len() > 0 && protocol::integer_of(text) == Some(n) by {
        numeral::lemma_decimal(n);
        let m = choose|m: int| text == #[trigger] numeral::decimal_bytes(m);
        numeral::lemma_decimal_injective(m, n);
    }
    if protocol::id_of(text) == Some(id) && protocol::integer_of(text) is Some {
        let n = protocol::integer_of(text)->0;
        assert(text == numeral::decimal_bytes(n));
    }
}

/// What is found under a key of which it is known that it does not stand twice.
proof fn lemma_found_once(members: Seq<MemberView>, names: Seq<Seq<char>>, key: Seq<char>)
    requires
        names.contains(key),
        !object::repeats(members, names),
    ensures
        match object::find(members, key) {
            Some(value) => has_once(members, key, value) && !is_absent(members, key),
            None => is_absent(members, key),
        },
        forall|value: Seq<u8>| #[trigger]
            has_once(members, key, value) ==> object::find(members, key) == Some(value),
{
    lemma_find_place(members, key);
    assert forall|i: int| 0 <= i < members.len() && members[i].0 == key implies #[trigger] once_at(
        members,
        key,
        i,
    ) by {
        assert forall|j: int| 0 <= j < members.len() && j != i implies (#[trigger] members[j]).0
            != key by {
            if members[j].0 == key {
                if i < j {
                    assert(members[i].0 == members[j].0);
                } else {
                    assert(members[j].0 == members[i].0);
                }
            }
        }
    }
    if let Some(value) = object::find(members, key) {
        let i = choose|i: int| 0 <= i < members.len() && #[trigger] members[i] == (key, value);
        assert(once_at(members, key, i));
        assert(members[i].0 == key);
    }
    assert forall|value: Seq<u8>| #[trigger] has_once(members, key, value) implies object::find(
        members,
        key,
    ) == Some(value) by {
        let i = choose|i: int| #[trigger] once_at(members, key, i) && members[i].1 == value;
        assert(members[i].0 == key);
    }
}

/// What is found is the value of a member with that key.
proof fn lemma_find_place(members: Seq<MemberView>, key: Seq<char>)
    ensures
        match object::find(members, key) {
            Some(value) => exists|i: int|
                0 <= i < members.len() && #[trigger] members[i] == (key, value),
            None => is_absent(members, key),
        },
    decreases members.len(),
{
    if members.len() > 0 {
        let others = members.skip(1);
        lemma_find_place(others, key);
        if members[0].0 == key {
            assert(members[0] == (key, members[0].1));
        } else {
            match object::find(members, key) {
                Some(value) => {
                    let i = choose|i: int|
                        0 <= i < others.len() && #[trigger] others[i] == (key, value);
                    assert(members[i + 1] == (key, value));
                },
                None => {
                    assert forall|i: int| 0 <= i < members.len() implies (#[trigger] members[i]).0
                        != key by {
                        if i > 0 {
                            assert(others[i - 1] == members[i]);
                        }
                    }
                },
            }
        }
    }
}

/// Whether each of the given keys stands at most once among members.
pub open spec fn stand_once(members: Seq<MemberView>, keys: Seq<Seq<char>>) -> bool {
    forall|k: int, i: int, j: int|
        0 <= k < keys.len() && 0 <= i < members.len() && 0 <= j < members.len()
            && #[trigger] keys[k] == (#[trigger] members[i]).0 && keys[k] == (
        #[trigger] members[j]).0 ==> i == j
}

proof fn lemma_stand_once(members: Seq<MemberView>, keys: Seq<Seq<char>>)
    ensures
        stand_once(members, keys) <==> !object::repeats(members, keys),
{
    if stand_once(members, keys) && object::repeats(members, keys) {
        let (i, j) = choose|i: int, j: int|
            0 <= i < j < members.len() && (#[trigger] members[i]).0 == (#[trigger] members[j]).0
                && keys.contains(members[i].0);
        let k = choose|k: int| 0 <= k < keys.len() && keys[k] == members[i].0;
        assert(keys[k] == members[i].0 && keys[k] == members[j].0);
        assert(false);
    }
    if !object::repeats(members, keys) {
        assert forall|k: int, i: int, j: int|
            0 <= k < keys.len() && 0 <= i < members.len() && 0 <= j < members.len()
                && #[trigger] keys[k] == (#[trigger] members[i]).0 && keys[k] == (
            #[trigger] members[j]).0 implies i == j by {
            assert(keys.contains(keys[k]));
            if i < j {
                assert(members[i].0 == members[j].0);
            }
            if j < i {
                assert(members[j].0 == members[i].0);
            }
        }
    }
}

/// Whether a string stands under a key.
pub open spec fn has_string(members: Seq<MemberView>, key: Seq<char>, s: Seq<char>) -> bool {
    exists|value: Seq<u8>| #[trigger]
        has_once(members, key, value) && json::string_value(value) == Some(s)
}

/// Whether a value stands under a key as it is; no value, or `null`, stands there if there is none.
pub open spec fn has_optional(
    members: Seq<MemberView>,
    key: Seq<char>,
    value: Option<Seq<u8>>,
) -> bool {
    match value {
        Some(value) => has_once(members, key, value) && !is_null(value) && valid_utf8(value),
        None => is_absent(members, key) || exists|value: Seq<u8>| #[trigger]
            has_once(members, key, value) && is_null(value),
    }
}

/// Whether an id stands under a key.
pub open spec fn has_id(members: Seq<MemberView>, key: Seq<char>, id: IdView) -> bool {
    exists|value: Seq<u8>| #[trigger] has_once(members, key, value) && stands_for_id(value, id)
}

/// Whether members are those of a request, in any order, and possibly with others among them: the
/// version, the method, the params as they stand, and the id, which may be `null`, unless it is a
/// notification. None of these keys may stand twice.
pub open spec fn is_request(members: Seq<MemberView>, request: RequestView) -> bool {
    &&& stand_once(members, seq!["jsonrpc"@, "method"@, "params"@, "id"@])
    &&& has_string(members, "jsonrpc"@, "2.0"@)
    &&& has_string(members, "method"@, request.method)
    &&& has_optional(members, "params"@, request.params)
    &&& match request.id {
        Some(id) => has_id(members, "id"@, id),
        None => is_absent(members, "id"@),
    }
}

/// An object is read as the request whose members it has, and is no request if it has none; a text
/// that is not an object is no request.
pub proof fn law_requests_are_read(text: Seq<u8>, request: RequestView)
    ensures
        protocol::request_of(text) == Some(request) <==> (object::object_members(text) matches Some(
            members,
        ) && is_request(members, request)),
{
    let names = seq!["jsonrpc"@, "method"@, "params"@, "id"@];
    assert(names =~= protocol::request_names());
    if let Some(members) = object::object_members(text) {
        lemma_stand_once(members, names);
        if !object::repeats(members, names) {
            assert(names[0] == "jsonrpc"@ && names[1] == "method"@ && names[2] == "params"@
                && names[3] == "id"@);
            assert(names.contains("jsonrpc"@) && names.contains("method"@) && names.contains(
                "params"@,
            ) && names.contains("id"@));
            lemma_found_once(members, names, "jsonrpc"@);
            lemma_found_once(members, names, "method"@);
            lemma_found_once(members, names, "params"@);
            lemma_found_once(members, names, "id"@);
            let fields = object::fields(text, names)->0;
            assert(fields[0] == object::find(members, "jsonrpc"@));
            assert(fields[1] == object::find(members, "method"@));
            assert(fields[2] == object::find(members, "params"@));
            assert(fields[3] == object::find(members, "id"@));
            if let Some(value) = fields[2] {
                if is_null(value) {
                    assert(value =~= json::null_text());
                }
            }
            if let (Some(value), Some(id)) = (fields[3], request.id) {
                law_ids_are_read(value, id);
            }
        }
    }
}

/// Whether a value stands under a key as it is, also if it is `null`.
pub open spec fn has_present(
    members: Seq<MemberView>,
    key: Seq<char>,
    value: Option<Seq<u8>>,
) -> bool {
    match value {
        Some(value) => has_once(members, key, value) && valid_utf8(value),
        None => is_absent(members, key),
    }
}

/// Whether members are those of an error object: a code, a message and, if there are any, data.
pub open spec fn is_error(members: Seq<MemberView>, error: ErrorView) -> bool {
    &&& stand_once(members, seq!["code"@, "message"@, "data"@])
    &&& has_once(members, "code"@, numeral::decimal_bytes(error.code as int))
    &&& has_string(members, "message"@, error.message)
    &&& has_optional(members, "data"@, error.data)
}

/// An object is read as the error whose members it has.
pub proof fn law_errors_are_read(text: Seq<u8>, error: ErrorView)
    ensures
        protocol::error_of(text) == Some(error) <==> (object::object_members(text) matches Some(
            members,
        ) && is_error(members, error)),
{
    let names = seq!["code"@, "message"@, "data"@];
    assert(names =~= protocol::error_names());
    if let Some(members) = object::object_members(text) {
        lemma_stand_once(members, names);
        if !object::repeats(members, names) {
            assert(names[0] == "code"@ && names[1] == "message"@ && names[2] == "data"@);
            assert(names.contains("code"@) && names.contains("message"@) && names.contains(
                "data"@,
            ));
            lemma_found_once(members, names, "code"@);
            lemma_found_once(members, names, "message"@);
            lemma_found_once(members, names, "data"@);
            let fields = object::fields(text, names)->0;
            assert(fields[0] == object::find(members, "code"@));
            assert(fields[1] == object::find(members, "message"@));
            assert(fields[2] == object::find(members, "data"@));
            if let Some(value) = fields[2] {
                if is_null(value) {
                    assert(value =~= json::null_text());
                }
            }
            if let Some(value) = fields[0] {
                law_ids_are_read(value, IdView::Number(error.code));
                if value == numeral::decimal_bytes(error.code as int) {
                    let n = choose|n: int| value == #[trigger] numeral::decimal_bytes(n);
                    numeral::lemma_decimal_injective(n, error.code as int);
                }
            }
        }
    }
}

/// Whether an error stands under a key; no error, or `null`, stands there if there is none.
pub open spec fn has_error(
    members: Seq<MemberView>,
    key: Seq<char>,
    error: Option<ErrorView>,
) -> bool {
    match error {
        Some(error) => exists|value: Seq<u8>| #[trigger]
            has_once(members, key, value) && !is_null(value) && protocol::error_of(value) == Some(
                error,
            ),
        None => is_absent(members, key) || exists|value: Seq<u8>| #[trigger]
            has_once(members, key, value) && is_null(value),
    }
}

/// Whether members are those of a response, in any order, and possibly with others among them: the
/// version, the result as it stands, the error and the id. None of these keys may stand twice.
pub open spec fn is_response(members: Seq<MemberView>, response: ResponseView) -> bool {
    &&& stand_once(members, seq!["jsonrpc"@, "result"@, "error"@, "id"@])
    &&& has_string(members, "jsonrpc"@, "2.0"@)
    &&& has_present(members, "result"@, response.result)
    &&& has_error(members, "error"@, response.error)
    &&& has_id(members, "id"@, response.id)
}

/// An object is read as the response whose members it has, and is no response if it has none; a
/// text that is not an object is no response.
pub proof fn law_responses_are_read(text: Seq<u8>, response: ResponseView)
    ensures
        protocol::response_of(text) == Some(response) <==> (object::object_members(
            text,
        ) matches Some(members) && is_response(members, response)),
{
    let names = seq!["jsonrpc"@, "result"@, "error"@, "id"@];
    assert(names =~= protocol::response_names());
    if let Some(members) = object::object_members(text) {
        lemma_stand_once(members, names);
        if !object::repeats(members, names) {
            assert(names[0] == "jsonrpc"@ && names[1] == "result"@ && names[2] == "error"@
                && names[3] == "id"@);
            assert(names.contains("jsonrpc"@) && names.contains("result"@) && names.contains(
                "error"@,
            ) && names.contains("id"@));
            lemma_found_once(members, names, "jsonrpc"@);
            lemma_found_once(members, names, "result"@);
            lemma_found_once(members, names, "error"@);
            lemma_found_once(members, names, "id"@);
            let fields = object::fields(text, names)->0;
            assert(fields[0] == object::find(members, "jsonrpc"@));
            assert(fields[1] == object::find(members, "result"@));
            assert(fields[2] == object::find(members, "error"@));
            assert(fields[3] == object::find(members, "id"@));
            if let Some(value) = fields[2] {
                if is_null(value) {
                    assert(value =~= json::null_text());
                }
            }
            if let Some(value) = fields[3] {
                law_ids_are_read(value, response.id);
            }
        }
    }
}

/// A frame is routed by the id of the request or of the response in it, whatever the type of the
/// id: a request without an id has none to be routed by.
pub proof fn law_frames_are_routed_by_id(frame: Seq<u8>)
    ensures
        protocol::request_of(frame) matches Some(request) ==> multiplex::frame_id(frame)
            == request.id,
        protocol::response_of(frame) matches Some(response) ==> multiplex::frame_id(frame) == Some(
            response.id,
        ),
{
    let names = seq!["id"@];
    assert(names[0] == "id"@);
    assert(names.contains("id"@));
    if let Some(members) = object::object_members(frame) {
        let request_names = protocol::request_names();
        let response_names = protocol::response_names();
        assert(request_names[3] == "id"@ && response_names[3] == "id"@);
        assert(object::repeats(members, names) ==> object::repeats(members, request_names)
            && object::repeats(members, response_names)) by {
            if object::repeats(members, names) {
                let (i, j) = choose|i: int, j: int|
                    0 <= i < j < members.len() && (#[trigger] members[i]).0 == (
                    #[trigger] members[j]).0 && names.contains(members[i].0);
                assert(members[i].0 == "id"@);
                assert(request_names.contains(members[i].0));
                assert(response_names.contains(members[i].0));
            }
        }
        if !object::repeats(members, names) {
            let fields = object::fields(frame, names)->0;
            assert(fields[0] == object::find(members, "id"@));
        }
    }
}

/// A frame is routed by an id exactly if it is an object in which an id stands once under that key,
/// whatever else stands there.
pub proof fn law_frame_ids(frame: Seq<u8>, id: IdView)
    ensures
        multiplex::frame_id(frame) == Some(id) <==> (object::object_members(frame) matches Some(
            members,
        ) && has_id(members, "id"@, id)),
{
    let names = seq!["id"@];
    assert(names[0] == "id"@);
    assert(names.contains("id"@));
    if let Some(members) = object::object_members(frame) {
        lemma_stand_once(members, names);
        if object::repeats(members, names) {
            let (i, j) = choose|i: int, j: int|
                0 <= i < j < members.len() && (#[trigger] members[i]).0 == (#[trigger] members[j]).0
                    && names.contains(members[i].0);
            assert(members[i].0 == "id"@ && members[j].0 == "id"@);
            assert forall|k: int| !once_at(members, "id"@, k) by {
                if k == i {
                    assert(members[j].0 == "id"@);
                } else {
                    assert(members[i].0 == "id"@);
                }
            }
        } else {
            lemma_found_once(members, names, "id"@);
            let fields = object::fields(frame, names)->0;
            assert(fields[0] == object::find(members, "id"@));
            if let Some(value) = fields[0] {
                law_ids_are_read(value, id);
            }
        }
    }
}

/// A document is read as the id for which its value stands.
pub proof fn law_id_documents(text: Seq<u8>, id: IdView)
    ensures
        protocol::document_id(text) == Some(id) <==> (object::document_value(text) matches Some(
            value,
        ) && stands_for_id(value, id)),
{
    if let Some(value) = object::document_value(text) {
        law_ids_are_read(value, id);
    }
}

/// A document is the version exactly if its value stands for the string `2.0`.
pub proof fn law_version_documents(text: Seq<u8>)
    ensures
        protocol::is_version_document(text) <==> (object::document_value(text) matches Some(value)
            && json::string_value(value) == Some("2.0"@)),
{
}

/// What is written and read again is the same, but for `null` params and `null` error data, which
/// are read as none.
pub proof fn law_rereading(request: RequestView, response: ResponseView)
    ensures
        ({
            let again = protocol::request_reread(request);
            &&& again.method == request.method
            &&& again.id == request.id
            &&& match request.params {
                Some(params) => if is_null(params) {
                    again.params is None
                } else {
                    again.params == Some(params)
                },
                None => again.params is None,
            }
        }),
        ({
            let again = protocol::response_reread(response);
            &&& again.result == response.result
            &&& again.id == response.id
            &&& match (response.error, again.error) {
                (Some(error), Some(same)) => {
                    &&& same.code == error.code
                    &&& same.message == error.message
                    &&& match error.data {
                        Some(data) => if is_null(data) {
                            same.data is None
                        } else {
                            same.data == Some(data)
                        },
                        None => same.data is None,
                    }
                },
                (None, None) => true,
                _ => false,
            }
        }),
{
    if let Some(params) = request.params {
        if is_null(params) {
            assert(params =~= json::null_text());
        }
    }
    if let Some(error) = response.error {
        if let Some(data) = error.data {
            if is_null(data) {
                assert(data =~= json::null_text());
            }
        }
    }
}

} // verus!
