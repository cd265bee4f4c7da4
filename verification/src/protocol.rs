//! The data of JSON-RPC 2.0: versions, ids, errors, requests and responses, and their JSON.

pub mod codes;

use crate::client::multiplex;
use crate::json;
use crate::json::JsonError;
use crate::json::JsonRawValue;
use crate::json::MemberView;
use crate::numeral;
use crate::object;
use crate::object::NewMember;
use crate::reading_laws;
use vstd::prelude::*;
use vstd::utf8::*;

verus! {

/// The `jsonrpc` version marker, written as the string `"2.0"`.
#[derive(Clone, Copy, Debug, Default, PartialEq, Eq, Structural)]
pub struct Version;

/// Whether the text of a field is the version string.
pub open spec fn is_version(text: Seq<u8>) -> bool {
    json::string_value(text) == Some("2.0"@)
}

/// Whether a JSON text is the version string.
pub open spec fn is_version_document(text: Seq<u8>) -> bool {
    match object::document_value(text) {
        Some(value) => is_version(value),
        None => false,
    }
}

impl Version {
    /// The JSON of the version: `"2.0"`.
    pub fn to_raw(&self) -> (value: JsonRawValue)
        ensures
            value@ == json::quoted("2.0"@),
            is_version(value@),
            json::is_value(value@),
    {
        proof {
            lemma_keys();
        }
        JsonRawValue::string("2.0")
    }

    /// Reads the version from a JSON text. Any other value than `"2.0"` is refused.
    pub fn from_slice(text: &[u8]) -> (version: Result<Self, JsonError>)
        ensures
            match version {
                Ok(_) => is_version_document(text@),
                Err(error) => {
                    &&& !is_version_document(text@)
                    &&& error@ == json::complaint(text@, "unsupported jsonrpc version"@)
                },
            },
    {
        if let Some(value) = object::read_document_value(text) {
            if let Some(version) = json::read_string(value) {
                if version == "2.0".to_owned() {
                    return Ok(Version);
                }
            }
        }
        Err(json::complain(text, "unsupported jsonrpc version"))
    }
}

/// What an id is.
#[verifier::ext_equal]
pub enum IdView {
    Null,
    Number(i64),
    String(Seq<char>),
}

/// The identifier of a request and of its response.
///
/// The type on the wire is kept: `"1"` is a string and `1` is a number.
#[derive(Debug, Eq, Hash)]
pub enum Id {
    /// A null id, which is discouraged but accepted.
    Null,
    /// A numeric id.
    Number(i64),
    /// A string id.
    String(String),
}

impl View for Id {
    type V = IdView;

    open spec fn view(&self) -> IdView {
        match self {
            Id::Null => IdView::Null,
            Id::Number(n) => IdView::Number(*n),
            Id::String(s) => IdView::String(s@),
        }
    }
}

impl PartialEq for Id {
    fn eq(&self, other: &Self) -> (answer: bool) {
        match (self, other) {
            (Id::Null, Id::Null) => true,
            (Id::Number(a), Id::Number(b)) => *a == *b,
            (Id::String(a), Id::String(b)) => *a == *b,
            _ => false,
        }
    }
}

impl vstd::std_specs::cmp::PartialEqSpecImpl for Id {
    open spec fn obeys_eq_spec() -> bool {
        true
    }

    open spec fn eq_spec(&self, other: &Self) -> bool {
        self@ == other@
    }
}

impl Clone for Id {
    fn clone(&self) -> (copy: Self)
        ensures
            copy@ == self@,
    {
        match self {
            Id::Null => Id::Null,
            Id::Number(n) => Id::Number(*n),
            Id::String(s) => Id::String(s.clone()),
        }
    }
}

/// The JSON of an id.
pub open spec fn id_text(id: IdView) -> Seq<u8> {
    match id {
        IdView::Null => json::null_text(),
        IdView::Number(n) => numeral::decimal_bytes(n as int),
        IdView::String(s) => json::string_text(s),
    }
}

/// The integer of which a text is the decimal numeral.
pub open spec fn integer_of(text: Seq<u8>) -> Option<int> {
    if exists|n: int| text == #[trigger] numeral::decimal_bytes(n) {
        Some(choose|n: int| text == #[trigger] numeral::decimal_bytes(n))
    } else {
        None
    }
}

/// The id that a JSON value stands for. An integer above the range of `i64`, but in that of
/// `u64`, is taken as the string of its digits; other numbers are no ids.
pub open spec fn id_of(text: Seq<u8>) -> Option<IdView> {
    if text == json::null_text() {
        Some(IdView::Null)
    } else if text.len() > 0 && text[0] == 34 {
        match json::string_value(text) {
            Some(s) => Some(IdView::String(s)),
            None => None,
        }
    } else {
        match integer_of(text) {
            Some(n) => if i64::MIN <= n <= i64::MAX {
                Some(IdView::Number(n as i64))
            } else if 0 <= n <= u64::MAX {
                Some(IdView::String(numeral::decimal(n)))
            } else {
                None
            },
            None => None,
        }
    }
}

/// The id that a JSON text stands for.
pub open spec fn document_id(text: Seq<u8>) -> Option<IdView> {
    match object::document_value(text) {
        Some(value) => id_of(value),
        None => None,
    }
}

/// The numeral of an integer stands for that integer.
proof fn lemma_integer_of(n: int)
    ensures
        integer_of(numeral::decimal_bytes(n)) == Some(n),
{
    let text = numeral::decimal_bytes(n);
    let m = choose|m: int| text == #[trigger] numeral::decimal_bytes(m);
    numeral::lemma_decimal_injective(m, n);
}

/// Whether a text is `null`.
fn is_null(text: &[u8]) -> (answer: bool)
    ensures
        answer == (text@ == json::null_text()),
{
    if text.len() == 4 && text[0] == 110 && text[1] == 117 && text[2] == 108 && text[3] == 108 {
        assert(text@ =~= json::null_text());
        true
    } else {
        false
    }
}

impl Id {
    /// The id as it is shown in logs and messages: a string id stands without quotation marks.
    pub open spec fn shown(id: IdView) -> Seq<char> {
        match id {
            IdView::Null => "null"@,
            IdView::Number(n) => numeral::decimal(n as int),
            IdView::String(s) => s,
        }
    }

    /// Shows the id in logs and messages. This is not its JSON.
    pub fn to_string(&self) -> (text: String)
        ensures
            text@ == Id::shown(self@),
    {
        match self {
            Id::Null => "null".to_owned(),
            Id::Number(n) => numeral::format_integer(*n as i128),
            Id::String(s) => s.clone(),
        }
    }

    /// The JSON of the id. It reads back as the same id.
    pub fn to_raw(&self) -> (value: JsonRawValue)
        ensures
            value@ == id_text(self@),
            json::is_value(value@),
            id_of(value@) == Some(self@),
            self@ matches IdView::String(s) ==> (json::is_plain(s) ==> value@ == json::quoted(s)),
    {
        match self {
            Id::Null => JsonRawValue::null(),
            Id::Number(n) => {
                proof {
                    numeral::lemma_decimal(*n as int);
                    lemma_integer_of(*n as int);
                }
                JsonRawValue::integer(*n)
            },
            Id::String(s) => JsonRawValue::string(s.as_str()),
        }
    }

    /// Reads an id from a JSON text: a string, an integer or `null`.
    pub fn from_slice(text: &[u8]) -> (id: Result<Self, JsonError>)
        ensures
            match id {
                Ok(id) => document_id(text@) == Some(id@),
                Err(error) => {
                    &&& document_id(text@) is None
                    &&& error@ == json::complaint(text@, "not a JSON-RPC id"@)
                },
            },
    {
        if let Some(value) = object::read_document_value(text) {
            if let Some(id) = Id::from_value(value) {
                return Ok(id);
            }
        }
        Err(json::complain(text, "not a JSON-RPC id"))
    }

    /// Reads an id from a JSON value.
    pub(crate) fn from_value(text: &[u8]) -> (id: Option<Self>)
        requires
            json::is_value(text@),
        ensures
            match id {
                Some(id) => id_of(text@) == Some(id@),
                None => id_of(text@) is None,
            },
    {
        if is_null(text) {
            return Some(Id::Null);
        }
        if text[0] == 34 {
            return match json::read_string(text) {
                Some(s) => Some(Id::String(s)),
                None => None,
            };
        }
        if let Some(n) = json::read_i64(text) {
            proof {
                lemma_integer_of(n as int);
            }
            return Some(Id::Number(n));
        }
        if let Some(n) = json::read_u64(text) {
            proof {
                lemma_integer_of(n as int);
                if n <= i64::MAX {
                    assert(text@ == numeral::decimal_bytes((n as i64) as int));
                }
            }
            return Some(Id::String(numeral::format_integer(n as i128)));
        }
        proof {
            if let Some(n) = integer_of(text@) {
                if i64::MIN <= n <= i64::MAX {
                    assert(text@ == numeral::decimal_bytes((n as i64) as int));
                }
                if 0 <= n <= u64::MAX {
                    assert(text@ == numeral::decimal_bytes((n as u64) as int));
                }
            }
        }
        None
    }
}

/// The keys of requests, responses and errors need no escapes, and differ.
proof fn lemma_keys()
    ensures
        json::is_plain("jsonrpc"@),
        json::is_plain("method"@),
        json::is_plain("params"@),
        json::is_plain("id"@),
        json::is_plain("result"@),
        json::is_plain("error"@),
        json::is_plain("code"@),
        json::is_plain("message"@),
        json::is_plain("data"@),
        json::is_plain("2.0"@),
        "jsonrpc"@.len() == 7,
        "method"@.len() == 6 && "method"@[0] == 'm',
        "params"@.len() == 6 && "params"@[0] == 'p',
        "result"@.len() == 6 && "result"@[0] == 'r',
        "error"@.len() == 5,
        "id"@.len() == 2,
        "code"@.len() == 4 && "code"@[0] == 'c',
        "data"@.len() == 4 && "data"@[0] == 'd',
        "message"@.len() == 7,
{
    reveal_strlit("jsonrpc");
    reveal_strlit("method");
    reveal_strlit("params");
    reveal_strlit("id");
    reveal_strlit("result");
    reveal_strlit("error");
    reveal_strlit("code");
    reveal_strlit("message");
    reveal_strlit("data");
    reveal_strlit("2.0");
}

/// A member with an optional value.
pub open spec fn optional_member(key: Seq<char>, value: Option<Seq<u8>>) -> Seq<MemberView> {
    match value {
        Some(value) => seq![(key, value)],
        None => Seq::empty(),
    }
}

/// An optional value as it is read: `null` stands for an absent value. A value that is not
/// UTF-8 is none.
pub open spec fn optional_of(field: Option<Seq<u8>>) -> Option<Option<Seq<u8>>> {
    match field {
        None => Some(None),
        Some(text) => if text == json::null_text() {
            Some(None)
        } else if valid_utf8(text) {
            Some(Some(text))
        } else {
            None
        },
    }
}

/// A value that is kept wherever it is present, also if it is `null`. A value that is not UTF-8 is
/// none.
pub open spec fn present_of(field: Option<Seq<u8>>) -> Option<Option<Seq<u8>>> {
    match field {
        None => Some(None),
        Some(text) => if valid_utf8(text) {
            Some(Some(text))
        } else {
            None
        },
    }
}

/// An optional value after it was written and read.
pub open spec fn reread(value: Option<Seq<u8>>) -> Option<Seq<u8>> {
    if value == Some(json::null_text()) {
        None
    } else {
        value
    }
}

/// The contents of an optional value.
pub open spec fn raw_view(value: Option<JsonRawValue>) -> Option<Seq<u8>> {
    match value {
        Some(raw) => Some(raw@),
        None => None,
    }
}

/// Reads an optional value.
fn read_optional(field: &Option<Vec<u8>>) -> (value: Option<Option<JsonRawValue>>)
    requires
        field matches Some(text) ==> json::is_value(text@),
    ensures
        match value {
            Some(value) => optional_of(bytes_view(*field)) == Some(raw_view(value)),
            None => optional_of(bytes_view(*field)) is None,
        },
{
    match field {
        None => Some(None),
        Some(text) => {
            if is_null(text.as_slice()) {
                Some(None)
            } else {
                match JsonRawValue::from_value(text.as_slice()) {
                    Some(raw) => Some(Some(raw)),
                    None => None,
                }
            }
        },
    }
}

/// Reads a value that is kept wherever it is present.
fn read_present(field: &Option<Vec<u8>>) -> (value: Option<Option<JsonRawValue>>)
    requires
        field matches Some(text) ==> json::is_value(text@),
    ensures
        match value {
            Some(value) => present_of(bytes_view(*field)) == Some(raw_view(value)),
            None => present_of(bytes_view(*field)) is None,
        },
{
    match field {
        None => Some(None),
        Some(text) => match JsonRawValue::from_value(text.as_slice()) {
            Some(raw) => Some(Some(raw)),
            None => None,
        },
    }
}

/// The contents of optional bytes.
pub open spec fn bytes_view(bytes: Option<Vec<u8>>) -> Option<Seq<u8>> {
    match bytes {
        Some(bytes) => Some(bytes@),
        None => None,
    }
}

/// What an error object is.
#[verifier::ext_equal]
pub struct ErrorView {
    pub code: i64,
    pub message: Seq<char>,
    pub data: Option<Seq<u8>>,
}

/// The JSON-RPC 2.0 error object: a value of the protocol.
#[derive(Debug)]
pub struct Error {
    code: i64,
    message: String,
    data: Option<JsonRawValue>,
}

impl View for Error {
    type V = ErrorView;

    closed spec fn view(&self) -> ErrorView {
        ErrorView { code: self.code, message: self.message@, data: raw_view(self.data) }
    }
}

/// The names of an error's fields.
pub open spec fn error_names() -> Seq<Seq<char>> {
    seq!["code"@, "message"@, "data"@]
}

/// The members of an error object.
pub open spec fn error_members(error: ErrorView) -> Seq<MemberView> {
    seq![
        ("code"@, numeral::decimal_bytes(error.code as int)),
        ("message"@, json::string_text(error.message)),
    ] + optional_member("data"@, error.data)
}

/// The JSON of an error object.
pub open spec fn error_text(error: ErrorView) -> Seq<u8> {
    json::object_text(error_members(error))
}

/// The error object that a JSON value stands for.
pub open spec fn error_of(text: Seq<u8>) -> Option<ErrorView> {
    match object::fields(text, error_names()) {
        Some(fields) => match (fields[0], fields[1], optional_of(fields[2])) {
            (Some(code), Some(message), Some(data)) => match (
                integer_of(code),
                json::string_value(message),
            ) {
                (Some(code), Some(message)) => if i64::MIN <= code <= i64::MAX {
                    Some(ErrorView { code: code as i64, message, data })
                } else {
                    None
                },
                _ => None,
            },
            _ => None,
        },
        None => None,
    }
}

/// An error object after it was written and read.
pub open spec fn error_reread(error: ErrorView) -> ErrorView {
    ErrorView { code: error.code, message: error.message, data: reread(error.data) }
}

impl Clone for Error {
    fn clone(&self) -> (copy: Self)
        ensures
            copy@ == self@,
    {
        Error { code: self.code, message: self.message.clone(), data: copy_optional(&self.data) }
    }
}

/// Copies an optional value.
fn copy_optional(value: &Option<JsonRawValue>) -> (copy: Option<JsonRawValue>)
    ensures
        raw_view(copy) == raw_view(*value),
{
    match value {
        Some(raw) => Some(raw.clone()),
        None => None,
    }
}

impl PartialEq for Error {
    fn eq(&self, other: &Self) -> (answer: bool) {
        if self.code != other.code || self.message != other.message {
            return false;
        }
        match (&self.data, &other.data) {
            (None, None) => true,
            (Some(a), Some(b)) => *a == *b,
            _ => false,
        }
    }
}

/// Two errors are equal when their code, their message and the text of their data are.
impl vstd::std_specs::cmp::PartialEqSpecImpl for Error {
    open spec fn obeys_eq_spec() -> bool {
        true
    }

    open spec fn eq_spec(&self, other: &Self) -> bool {
        self@ == other@
    }
}

/// A serialization that may have failed, as an optional value.
pub open spec fn serialized(value: Result<JsonRawValue, JsonError>) -> Option<Seq<u8>> {
    match value {
        Ok(raw) => Some(raw@),
        Err(_) => None,
    }
}

/// An error object without data.
pub open spec fn plain_error(code: i64, message: Seq<char>) -> ErrorView {
    ErrorView { code, message, data: None }
}

impl Error {
    /// The JSON of the error. It reads back as the same error, but for `null` data, which reads
    /// as none.
    pub fn to_raw(&self) -> (value: JsonRawValue)
        ensures
            value@ == error_text(self@),
            json::is_value(value@),
            error_of(value@) == Some(error_reread(self@)),
            json::is_plain(self@.message) ==> json::string_text(self@.message) == json::quoted(
                self@.message,
            ),
    {
        proof {
            lemma_keys();
            lemma_integer_of(self.code as int);
        }
        let mut members: Vec<NewMember> = Vec::new();
        members.push(NewMember { key: "code".to_owned(), value: JsonRawValue::integer(self.code) });
        members.push(
            NewMember {
                key: "message".to_owned(),
                value: JsonRawValue::string(self.message.as_str()),
            },
        );
        if let Some(data) = &self.data {
            members.push(NewMember { key: "data".to_owned(), value: data.clone() });
        }
        let value = object::raw_object(&members);
        proof {
            let view = error_members(self@);
            assert(object::new_members_view(members@) =~= view);
            assert(!object::repeats(view, error_names()));
            reveal_with_fuel(object::find, 4);
            let fields = object::fields(value@, error_names());
            assert(fields->Some_0[0] == Some(view[0].1));
        }
        value
    }

    /// Reads an error object from a JSON value.
    pub(crate) fn from_value(text: &[u8]) -> (error: Option<Self>)
        ensures
            match error {
                Some(error) => error_of(text@) == Some(error@),
                None => error_of(text@) is None,
            },
    {
        let names = vec!["code", "message", "data"];
        assert(object::names_view(names@) =~= error_names());
        let fields = match object::read_fields(text, &names) {
            Some(fields) => fields,
            None => {
                return None;
            },
        };
        match (&fields[0], &fields[1], read_optional(&fields[2])) {
            (Some(code), Some(message), Some(data)) => match (
                json::read_i64(code.as_slice()),
                json::read_string(message.as_slice()),
            ) {
                (Some(n), Some(message)) => {
                    proof {
                        lemma_integer_of(n as int);
                    }
                    Some(Error { code: n, message, data })
                },
                (None, _) => {
                    proof {
                        if let Some(n) = integer_of(code@) {
                            if i64::MIN <= n <= i64::MAX {
                                assert(code@ == numeral::decimal_bytes((n as i64) as int));
                            }
                        }
                    }
                    None
                },
                _ => None,
            },
            _ => None,
        }
    }

    /// An error with a code and a message, and no data.
    pub fn new(code: i64, message: &str) -> (error: Self)
        ensures
            error@ == plain_error(code, message@),
    {
        Error { code, message: message.to_owned(), data: None }
    }

    /// Attaches data. If the data could not be serialized, the error has none.
    pub fn with_data(self, data: Result<JsonRawValue, JsonError>) -> (error: Self)
        ensures
            error@ == (ErrorView { data: serialized(data), ..self@ }),
    {
        Error { code: self.code, message: self.message, data: data.ok() }
    }

    /// Attaches data, or hands back the error of its serialization.
    pub fn try_with_data(self, data: Result<JsonRawValue, JsonError>) -> (error: Result<
        Self,
        JsonError,
    >)
        ensures
            match (data, error) {
                (Ok(raw), Ok(error)) => error@ == (ErrorView { data: Some(raw@), ..self@ }),
                (Err(failure), Err(error)) => error@ == failure@,
                _ => false,
            },
    {
        match data {
            Ok(raw) => Ok(Error { code: self.code, message: self.message, data: Some(raw) }),
            Err(failure) => Err(failure),
        }
    }

    /// The error code.
    pub fn code(&self) -> (code: i64)
        ensures
            code == self@.code,
    {
        self.code
    }

    /// The error message.
    pub fn message(&self) -> (message: &str)
        ensures
            message@ == self@.message,
    {
        self.message.as_str()
    }

    /// The data as JSON, if there is any.
    pub fn data_raw(&self) -> (data: Option<&JsonRawValue>)
        ensures
            data is Some <==> self@.data is Some,
            data matches Some(raw) ==> self@.data == Some(raw@),
    {
        self.data.as_ref()
    }

    /// `-32700` Parse error.
    pub fn parse_error() -> (error: Self)
        ensures
            error@ == plain_error(codes::PARSE_ERROR, "Parse error"@),
    {
        Error::new(codes::PARSE_ERROR, "Parse error")
    }

    /// `-32600` Invalid Request.
    pub fn invalid_request() -> (error: Self)
        ensures
            error@ == plain_error(codes::INVALID_REQUEST, "Invalid Request"@),
    {
        Error::new(codes::INVALID_REQUEST, "Invalid Request")
    }

    /// `-32601` Method not found.
    pub fn method_not_found() -> (error: Self)
        ensures
            error@ == plain_error(codes::METHOD_NOT_FOUND, "Method not found"@),
    {
        Error::new(codes::METHOD_NOT_FOUND, "Method not found")
    }

    /// `-32602` Invalid params.
    pub fn invalid_params() -> (error: Self)
        ensures
            error@ == plain_error(codes::INVALID_PARAMS, "Invalid params"@),
    {
        Error::new(codes::INVALID_PARAMS, "Invalid params")
    }

    /// `-32603` Internal error.
    pub fn internal_error() -> (error: Self)
        ensures
            error@ == plain_error(codes::INTERNAL_ERROR, "Internal error"@),
    {
        Error::new(codes::INTERNAL_ERROR, "Internal error")
    }

    /// An implementation-defined server error, with a code of the range reserved for it.
    pub fn server_error(code: i64, message: &str) -> (error: Self)
        requires
            codes::SERVER_ERROR_MIN <= code <= codes::SERVER_ERROR_MAX,
        ensures
            error@ == plain_error(code, message@),
    {
        Error::new(code, message)
    }

    /// The message of the error, and its code in parentheses.
    pub open spec fn shown(error: ErrorView) -> Seq<char> {
        error.message + " (code "@ + numeral::decimal(error.code as int) + ")"@
    }

    /// Shows the error in logs and messages.
    pub fn to_string(&self) -> (text: String)
        ensures
            text@ == Error::shown(self@),
    {
        let mut text = self.message.clone();
        text.append(" (code ");
        text.append(numeral::format_integer(self.code as i128).as_str());
        text.append(")");
        text
    }
}

/// What a request is.
#[verifier::ext_equal]
pub struct RequestView {
    pub method: Seq<char>,
    pub params: Option<Seq<u8>>,
    pub id: Option<IdView>,
}

/// A JSON-RPC 2.0 request. Without an id it is a notification, to which the server does not
/// reply.
#[derive(Debug)]
pub struct Request {
    method: String,
    params: Option<JsonRawValue>,
    id: Option<Id>,
}

/// The contents of an optional id.
pub open spec fn id_view(id: Option<Id>) -> Option<IdView> {
    match id {
        Some(id) => Some(id@),
        None => None,
    }
}

impl View for Request {
    type V = RequestView;

    closed spec fn view(&self) -> RequestView {
        RequestView { method: self.method@, params: raw_view(self.params), id: id_view(self.id) }
    }
}

/// The names of a request's fields.
pub open spec fn request_names() -> Seq<Seq<char>> {
    seq!["jsonrpc"@, "method"@, "params"@, "id"@]
}

/// The members of a request.
pub open spec fn request_members(request: RequestView) -> Seq<MemberView> {
    seq![
        ("jsonrpc"@, json::quoted("2.0"@)),
        ("method"@, json::string_text(request.method)),
    ] + optional_member("params"@, request.params) + optional_member(
        "id"@,
        match request.id {
            Some(id) => Some(id_text(id)),
            None => None,
        },
    )
}

/// The JSON of a request.
pub open spec fn request_text(request: RequestView) -> Seq<u8> {
    json::object_text(request_members(request))
}

/// An id that may be absent: a present `null` is an id, an absent field is none.
pub open spec fn optional_id_of(field: Option<Seq<u8>>) -> Option<Option<IdView>> {
    match field {
        None => Some(None),
        Some(text) => match id_of(text) {
            Some(id) => Some(Some(id)),
            None => None,
        },
    }
}

/// The request that a JSON text stands for.
pub open spec fn request_of(text: Seq<u8>) -> Option<RequestView> {
    match object::fields(text, request_names()) {
        Some(fields) => match (
            fields[0],
            fields[1],
            optional_of(fields[2]),
            optional_id_of(fields[3]),
        ) {
            (Some(version), Some(method), Some(params), Some(id)) => if is_version(version) {
                match json::string_value(method) {
                    Some(method) => Some(RequestView { method, params, id }),
                    None => None,
                }
            } else {
                None
            },
            _ => None,
        },
        None => None,
    }
}

/// A request after it was written and read.
pub open spec fn request_reread(request: RequestView) -> RequestView {
    RequestView { params: reread(request.params), ..request }
}

/// Whether a field is the version string.
fn read_version(field: &Option<Vec<u8>>) -> (answer: bool)
    ensures
        answer == (field matches Some(text) && is_version(text@)),
{
    match field {
        Some(text) => match json::read_string(text.as_slice()) {
            Some(version) => version == "2.0".to_owned(),
            None => false,
        },
        None => false,
    }
}

/// Reads an id that may be absent.
fn read_optional_id(field: &Option<Vec<u8>>) -> (id: Option<Option<Id>>)
    requires
        field matches Some(text) ==> json::is_value(text@),
    ensures
        match id {
            Some(id) => optional_id_of(bytes_view(*field)) == Some(id_view(id)),
            None => optional_id_of(bytes_view(*field)) is None,
        },
{
    match field {
        None => Some(None),
        Some(text) => match Id::from_value(text.as_slice()) {
            Some(id) => Some(Some(id)),
            None => None,
        },
    }
}

impl Request {
    /// The JSON of the request. It reads back as the same request, but for `null` params, which
    /// read as none.
    pub fn to_vec(&self) -> (bytes: Vec<u8>)
        ensures
            bytes@ == request_text(self@),
            request_of(bytes@) == Some(request_reread(self@)),
            multiplex::frame_id(bytes@) == self@.id,
            json::is_written(bytes@) && valid_utf8(bytes@),
            json::is_plain(self@.method) ==> json::string_text(self@.method) == json::quoted(
                self@.method,
            ),
            self@.id matches Some(IdView::String(s)) ==> (json::is_plain(s) ==> json::string_text(s)
                == json::quoted(s)),
    {
        proof {
            lemma_keys();
        }
        let version = JsonRawValue::string("2.0");
        let mut members: Vec<NewMember> = Vec::new();
        members.push(NewMember { key: "jsonrpc".to_owned(), value: version });
        members.push(
            NewMember {
                key: "method".to_owned(),
                value: JsonRawValue::string(self.method.as_str()),
            },
        );
        if let Some(params) = &self.params {
            members.push(NewMember { key: "params".to_owned(), value: params.clone() });
        }
        if let Some(id) = &self.id {
            members.push(NewMember { key: "id".to_owned(), value: id.to_raw() });
        }
        let text = object::write_object(&members);
        proof {
            let view = request_members(self@);
            assert(object::new_members_view(members@) =~= view);
            assert(!object::repeats(view, request_names()));
            reveal_with_fuel(object::find, 5);
            let fields = object::fields(encode_utf8(text@), request_names());
            assert(fields->Some_0[0] == Some(view[0].1));
            encode_utf8_valid_utf8(text@);
            reading_laws::law_frames_are_routed_by_id(encode_utf8(text@));
        }
        vstd::slice::slice_to_vec(text.as_str().as_bytes())
    }

    /// Reads a request from a JSON text, if it is one.
    pub(crate) fn read(text: &[u8]) -> (request: Option<Self>)
        ensures
            match request {
                Some(request) => request_of(text@) == Some(request@),
                None => request_of(text@) is None,
            },
    {
        let names = vec!["jsonrpc", "method", "params", "id"];
        assert(object::names_view(names@) =~= request_names());
        let fields = match object::read_fields(text, &names) {
            Some(fields) => fields,
            None => {
                return None;
            },
        };
        if !read_version(&fields[0]) {
            return None;
        }
        match (&fields[1], read_optional(&fields[2]), read_optional_id(&fields[3])) {
            (Some(method), Some(params), Some(id)) => match json::read_string(method.as_slice()) {
                Some(method) => Some(Request { method, params, id }),
                None => None,
            },
            _ => None,
        }
    }

    /// Reads a request from a JSON text.
    pub fn from_slice(text: &[u8]) -> (request: Result<Self, JsonError>)
        ensures
            match request {
                Ok(request) => request_of(text@) == Some(request@),
                Err(error) => {
                    &&& request_of(text@) is None
                    &&& error@ == json::complaint(text@, "not a JSON-RPC request"@)
                },
            },
    {
        match Request::read(text) {
            Some(request) => Ok(request),
            None => Err(json::complain(text, "not a JSON-RPC request")),
        }
    }

    /// A request that expects a response. If the params could not be serialized, it has none.
    pub fn call(method: &str, params: Result<JsonRawValue, JsonError>, id: Id) -> (request: Self)
        ensures
            request@ == (RequestView {
                method: method@,
                params: serialized(params),
                id: Some(id@),
            }),
    {
        Request { method: method.to_owned(), params: params.ok(), id: Some(id) }
    }

    /// A request that expects a response, or the error of the params' serialization.
    pub fn try_call(method: &str, params: Result<JsonRawValue, JsonError>, id: Id) -> (request:
        Result<Self, JsonError>)
        ensures
            match (params, request) {
                (Ok(raw), Ok(request)) => request@ == (RequestView {
                    method: method@,
                    params: Some(raw@),
                    id: Some(id@),
                }),
                (Err(failure), Err(error)) => error@ == failure@,
                _ => false,
            },
    {
        match params {
            Ok(raw) => Ok(Request { method: method.to_owned(), params: Some(raw), id: Some(id) }),
            Err(failure) => Err(failure),
        }
    }

    /// A notification: a request without an id. If the params could not be serialized, it has
    /// none.
    pub fn notification(method: &str, params: Result<JsonRawValue, JsonError>) -> (request: Self)
        ensures
            request@ == (RequestView { method: method@, params: serialized(params), id: None }),
    {
        Request { method: method.to_owned(), params: params.ok(), id: None }
    }

    /// A notification, or the error of the params' serialization.
    pub fn try_notification(method: &str, params: Result<JsonRawValue, JsonError>) -> (request:
        Result<Self, JsonError>)
        ensures
            match (params, request) {
                (Ok(raw), Ok(request)) => request@ == (RequestView {
                    method: method@,
                    params: Some(raw@),
                    id: None,
                }),
                (Err(failure), Err(error)) => error@ == failure@,
                _ => false,
            },
    {
        match params {
            Ok(raw) => Ok(Request { method: method.to_owned(), params: Some(raw), id: None }),
            Err(failure) => Err(failure),
        }
    }

    /// The method name.
    pub fn method(&self) -> (method: &str)
        ensures
            method@ == self@.method,
    {
        self.method.as_str()
    }

    /// Whether the request is a notification.
    pub fn is_notification(&self) -> (answer: bool)
        ensures
            answer == (self@.id is None),
    {
        self.id.is_none()
    }

    /// The id, if there is one.
    pub fn id(&self) -> (id: Option<&Id>)
        ensures
            id is Some <==> self@.id is Some,
            id matches Some(id) ==> self@.id == Some(id@),
    {
        self.id.as_ref()
    }

    /// Sets the id, as a proxy does that gives forwarded requests ids of its own.
    pub fn set_id(&mut self, id: Id)
        ensures
            final(self)@ == (RequestView { id: Some(id@), ..old(self)@ }),
    {
        self.id = Some(id);
    }

    /// The params as JSON. Missing params are `null`.
    pub fn params_raw(&self) -> (params: JsonRawValue)
        ensures
            params@ == match self@.params {
                Some(text) => text,
                None => json::null_text(),
            },
    {
        match &self.params {
            Some(raw) => raw.clone(),
            None => JsonRawValue::null(),
        }
    }
}

impl Clone for Request {
    fn clone(&self) -> (copy: Self)
        ensures
            copy@ == self@,
    {
        Request {
            method: self.method.clone(),
            params: copy_optional(&self.params),
            id: match &self.id {
                Some(id) => Some(id.clone()),
                None => None,
            },
        }
    }
}

/// What a response is.
#[verifier::ext_equal]
pub struct ResponseView {
    pub result: Option<Seq<u8>>,
    pub error: Option<ErrorView>,
    pub id: IdView,
}

/// A JSON-RPC 2.0 response. The constructors set exactly one of its result and its error; one
/// that was read from JSON may have both or neither.
#[derive(Debug)]
pub struct Response {
    result: Option<JsonRawValue>,
    error: Option<Error>,
    id: Id,
}

/// The contents of an optional error.
pub open spec fn error_view(error: Option<Error>) -> Option<ErrorView> {
    match error {
        Some(error) => Some(error@),
        None => None,
    }
}

impl View for Response {
    type V = ResponseView;

    closed spec fn view(&self) -> ResponseView {
        ResponseView { result: raw_view(self.result), error: error_view(self.error), id: self.id@ }
    }
}

/// A successful response.
pub open spec fn result_response(id: IdView, result: Seq<u8>) -> ResponseView {
    ResponseView { result: Some(result), error: None, id }
}

/// An error response.
pub open spec fn error_response(id: IdView, error: ErrorView) -> ResponseView {
    ResponseView { result: None, error: Some(error), id }
}

/// Whether a response has exactly one of a result and an error.
pub open spec fn is_valid_response(response: ResponseView) -> bool {
    response.result is Some <==> response.error is None
}

/// The names of a response's fields.
pub open spec fn response_names() -> Seq<Seq<char>> {
    seq!["jsonrpc"@, "result"@, "error"@, "id"@]
}

/// The members of a response.
pub open spec fn response_members(response: ResponseView) -> Seq<MemberView> {
    seq![("jsonrpc"@, json::quoted("2.0"@))] + optional_member("result"@, response.result)
        + optional_member(
        "error"@,
        match response.error {
            Some(error) => Some(error_text(error)),
            None => None,
        },
    ) + seq![("id"@, id_text(response.id))]
}

/// The JSON of a response.
pub open spec fn response_text(response: ResponseView) -> Seq<u8> {
    json::object_text(response_members(response))
}

/// An error that may be absent: `null` stands for an absent one.
pub open spec fn optional_error_of(field: Option<Seq<u8>>) -> Option<Option<ErrorView>> {
    match field {
        None => Some(None),
        Some(text) => if text == json::null_text() {
            Some(None)
        } else {
            match error_of(text) {
                Some(error) => Some(Some(error)),
                None => None,
            }
        },
    }
}

/// The response that a JSON text stands for. A `null` result is a result.
pub open spec fn response_of(text: Seq<u8>) -> Option<ResponseView> {
    match object::fields(text, response_names()) {
        Some(fields) => match (
            fields[0],
            present_of(fields[1]),
            optional_error_of(fields[2]),
            fields[3],
        ) {
            (Some(version), Some(result), Some(error), Some(id)) => if is_version(version) {
                match id_of(id) {
                    Some(id) => Some(ResponseView { result, error, id }),
                    None => None,
                }
            } else {
                None
            },
            _ => None,
        },
        None => None,
    }
}

/// A response after it was written and read.
pub open spec fn response_reread(response: ResponseView) -> ResponseView {
    ResponseView {
        result: response.result,
        error: match response.error {
            Some(error) => Some(error_reread(error)),
            None => None,
        },
        id: response.id,
    }
}

/// Reads an error that may be absent.
fn read_optional_error(field: &Option<Vec<u8>>) -> (error: Option<Option<Error>>)
    requires
        field matches Some(text) ==> json::is_value(text@),
    ensures
        match error {
            Some(error) => optional_error_of(bytes_view(*field)) == Some(error_view(error)),
            None => optional_error_of(bytes_view(*field)) is None,
        },
{
    match field {
        None => Some(None),
        Some(text) => {
            if is_null(text.as_slice()) {
                Some(None)
            } else {
                match Error::from_value(text.as_slice()) {
                    Some(error) => Some(Some(error)),
                    None => None,
                }
            }
        },
    }
}

impl Response {
    /// The JSON of the response. It reads back as the same response, but for `null` error data,
    /// which reads as none.
    pub fn to_vec(&self) -> (bytes: Vec<u8>)
        ensures
            bytes@ == response_text(self@),
            response_of(bytes@) == Some(response_reread(self@)),
            multiplex::frame_id(bytes@) == Some(self@.id),
            json::is_written(bytes@) && valid_utf8(bytes@),
            self@.id matches IdView::String(s) ==> (json::is_plain(s) ==> json::string_text(s)
                == json::quoted(s)),
            self@.error matches Some(error) ==> (json::is_plain(error.message)
                ==> json::string_text(error.message) == json::quoted(error.message)),
    {
        proof {
            lemma_keys();
        }
        let version = JsonRawValue::string("2.0");
        let mut members: Vec<NewMember> = Vec::new();
        members.push(NewMember { key: "jsonrpc".to_owned(), value: version });
        if let Some(result) = &self.result {
            members.push(NewMember { key: "result".to_owned(), value: result.clone() });
        }
        if let Some(error) = &self.error {
            members.push(NewMember { key: "error".to_owned(), value: error.to_raw() });
        }
        members.push(NewMember { key: "id".to_owned(), value: self.id.to_raw() });
        let text = object::write_object(&members);
        proof {
            let view = response_members(self@);
            assert(object::new_members_view(members@) =~= view);
            assert(!object::repeats(view, response_names()));
            reveal_with_fuel(object::find, 5);
            let fields = object::fields(encode_utf8(text@), response_names());
            assert(fields->Some_0[0] == Some(view[0].1));
            encode_utf8_valid_utf8(text@);
            reading_laws::law_frames_are_routed_by_id(encode_utf8(text@));
        }
        vstd::slice::slice_to_vec(text.as_str().as_bytes())
    }

    /// Reads a response from a JSON text, if it is one.
    fn read(text: &[u8]) -> (response: Option<Self>)
        ensures
            match response {
                Some(response) => response_of(text@) == Some(response@),
                None => response_of(text@) is None,
            },
    {
        let names = vec!["jsonrpc", "result", "error", "id"];
        assert(object::names_view(names@) =~= response_names());
        let fields = match object::read_fields(text, &names) {
            Some(fields) => fields,
            None => {
                return None;
            },
        };
        if !read_version(&fields[0]) {
            return None;
        }
        match (read_present(&fields[1]), read_optional_error(&fields[2]), &fields[3]) {
            (Some(result), Some(error), Some(id)) => match Id::from_value(id.as_slice()) {
                Some(id) => Some(Response { result, error, id }),
                None => None,
            },
            _ => None,
        }
    }

    /// Reads a response from a JSON text.
    pub fn from_slice(text: &[u8]) -> (response: Result<Self, JsonError>)
        ensures
            match response {
                Ok(response) => response_of(text@) == Some(response@),
                Err(error) => {
                    &&& response_of(text@) is None
                    &&& error@ == json::complaint(text@, "not a JSON-RPC response"@)
                },
            },
    {
        match Response::read(text) {
            Some(response) => Ok(response),
            None => Err(json::complain(text, "not a JSON-RPC response")),
        }
    }

    /// A successful response. If the value could not be serialized, the result is `null`.
    pub fn result(id: Id, value: Result<JsonRawValue, JsonError>) -> (response: Self)
        ensures
            response@ == result_response(
                id@,
                match value {
                    Ok(raw) => raw@,
                    Err(_) => json::null_text(),
                },
            ),
    {
        let result = match value {
            Ok(raw) => raw,
            Err(_) => JsonRawValue::null(),
        };
        Response { result: Some(result), error: None, id }
    }

    /// A successful response, or the error of the value's serialization.
    pub fn try_result(id: Id, value: Result<JsonRawValue, JsonError>) -> (response: Result<
        Self,
        JsonError,
    >)
        ensures
            match (value, response) {
                (Ok(raw), Ok(response)) => response@ == result_response(id@, raw@),
                (Err(failure), Err(error)) => error@ == failure@,
                _ => false,
            },
    {
        match value {
            Ok(raw) => Ok(Response { result: Some(raw), error: None, id }),
            Err(failure) => Err(failure),
        }
    }

    /// An error response.
    pub fn error(id: Id, error: Error) -> (response: Self)
        ensures
            response@ == error_response(id@, error@),
    {
        Response { result: None, error: Some(error), id }
    }

    /// A successful response from a result that is JSON already.
    pub fn from_raw_result(id: Id, result: JsonRawValue) -> (response: Self)
        ensures
            response@ == result_response(id@, result@),
    {
        Response { result: Some(result), error: None, id }
    }

    /// Whether the response carries an error.
    pub fn is_error(&self) -> (answer: bool)
        ensures
            answer == (self@.error is Some),
    {
        self.error.is_some()
    }

    /// Whether exactly one of result and error is set.
    pub fn is_valid(&self) -> (answer: bool)
        ensures
            answer == is_valid_response(self@),
    {
        self.result.is_some() != self.error.is_some()
    }

    /// The id.
    pub fn id(&self) -> (id: &Id)
        ensures
            id@ == self@.id,
    {
        &self.id
    }

    /// Sets the id, as a proxy does that restores the id of the caller.
    pub fn set_id(&mut self, id: Id)
        ensures
            final(self)@ == (ResponseView { id: id@, ..old(self)@ }),
    {
        self.id = id;
    }

    /// The result as JSON, if there is one.
    pub fn result_raw(&self) -> (result: Option<&JsonRawValue>)
        ensures
            result is Some <==> self@.result is Some,
            result matches Some(raw) ==> self@.result == Some(raw@),
    {
        self.result.as_ref()
    }

    /// The error, if there is one.
    pub fn error_obj(&self) -> (error: Option<&Error>)
        ensures
            error is Some <==> self@.error is Some,
            error matches Some(error) ==> self@.error == Some(error@),
    {
        self.error.as_ref()
    }
}

impl Clone for Response {
    fn clone(&self) -> (copy: Self)
        ensures
            copy@ == self@,
    {
        Response {
            result: copy_optional(&self.result),
            error: match &self.error {
                Some(error) => Some(error.clone()),
                None => None,
            },
            id: self.id.clone(),
        }
    }
}

} // verus!
