//! JSON texts: how they are read, checked and written.
//!
//! Values are kept as text. `serde_json` reads and writes every value, string and number; what
//! is built from them (which members an object has, which field is which) is decided here.

use crate::numeral;
use vstd::prelude::*;
use vstd::utf8::*;

verus! {

/// A JSON text could not be read, or a value could not be written as JSON.
#[derive(Debug)]
pub struct JsonError {
    message: String,
}

impl View for JsonError {
    type V = Seq<char>;

    closed spec fn view(&self) -> Seq<char> {
        self.message@
    }
}

impl JsonError {
    /// Makes an error from its message.
    pub fn new(message: &str) -> (error: Self)
        ensures
            error@ == message@,
    {
        JsonError { message: message.to_owned() }
    }

    /// The message.
    pub fn message(&self) -> (message: &str)
        ensures
            message@ == self@,
    {
        self.message.as_str()
    }

    /// The message as an owned text.
    pub fn to_string(&self) -> (message: String)
        ensures
            message@ == self@,
    {
        self.message.clone()
    }
}

impl Clone for JsonError {
    fn clone(&self) -> (copy: Self)
        ensures
            copy@ == self@,
    {
        JsonError { message: self.message.clone() }
    }
}

/// Whether a byte is JSON whitespace: a space, a tab, a line feed or a carriage return.
pub open spec fn is_space(b: u8) -> bool {
    b == 32 || b == 9 || b == 10 || b == 13
}

/// A text without its leading whitespace.
pub open spec fn trim_start(s: Seq<u8>) -> Seq<u8>
    decreases s.len(),
{
    if s.len() > 0 && is_space(s[0]) {
        trim_start(s.skip(1))
    } else {
        s
    }
}

/// A text without its trailing whitespace.
pub open spec fn trim_end(s: Seq<u8>) -> Seq<u8>
    decreases s.len(),
{
    if s.len() > 0 && is_space(s.last()) {
        trim_end(s.drop_last())
    } else {
        s
    }
}

/// The text `null`.
pub open spec fn null_text() -> Seq<u8> {
    seq![110u8, 117u8, 108u8, 108u8]
}

/// Where the JSON value at the start of a text ends, if the text starts with one: the offset
/// that `serde_json::StreamDeserializer` reports when it has skipped one value.
pub uninterp spec fn value_end(text: Seq<u8>) -> Option<nat>;

/// The string that a JSON text stands for, if it is a JSON string: what
/// `serde_json::from_slice` reads into a `String`.
pub uninterp spec fn string_value(text: Seq<u8>) -> Option<Seq<char>>;

/// The JSON string that stands for a text: what `serde_json::to_string` writes for a `str`.
pub uninterp spec fn string_text(s: Seq<char>) -> Seq<u8>;

/// The message of the error with which `serde_json::from_slice` refuses to read a text into a
/// `serde_json::Value`; `None` for a JSON document, which it reads.
pub uninterp spec fn document_refusal(text: Seq<u8>) -> Option<Seq<char>>;

/// The message of the error with which `serde_json::from_slice` refuses to read a text into a list
/// of `RawValue`s.
pub uninterp spec fn array_refusal(text: Seq<u8>) -> Seq<char>;

/// The message of the error with which `serde_json::value::RawValue::from_string` refuses a
/// text.
pub uninterp spec fn raw_refusal(text: Seq<char>) -> Seq<char>;

/// Whether a text is a JSON document.
pub open spec fn is_json(text: Seq<u8>) -> bool {
    document_refusal(text) is None
}

/// What is said of a text that is not what was expected: what is wrong with its JSON, if anything
/// is, or else what was expected.
pub open spec fn complaint(text: Seq<u8>, expected: Seq<char>) -> Seq<char> {
    match document_refusal(text) {
        Some(message) => message,
        None => expected,
    }
}

/// Whether what follows a value cannot be taken for a part of it.
pub open spec fn ends_value(rest: Seq<u8>) -> bool {
    rest.len() == 0 || is_space(rest[0]) || rest[0] == 44 || rest[0] == 58 || rest[0] == 93
        || rest[0] == 125
}

/// Whether a text is one JSON value with nothing around it: wherever it is followed by
/// something that cannot be a part of it, the value read is that text.
pub open spec fn is_value(text: Seq<u8>) -> bool {
    &&& text.len() > 0
    &&& !is_space(text[0])
    &&& !is_space(text.last())
    &&& forall|rest: Seq<u8>|
        ends_value(rest) ==> #[trigger] value_end(text + rest) == Some(text.len())
}

/// Whether a text is a JSON value that stands for the given string.
pub open spec fn is_string_text(text: Seq<u8>, s: Seq<char>) -> bool {
    &&& is_value(text)
    &&& text[0] == 34
    &&& string_value(text) == Some(s)
}

/// Whether a text needs no escapes in a JSON string: it has no quotation mark, no backslash
/// and no control character.
pub open spec fn is_plain(s: Seq<char>) -> bool {
    forall|i: int| 0 <= i < s.len() ==> 32 <= #[trigger] s[i] as u32 && s[i] != '"' && s[i] != '\\'
}

/// A text between quotation marks.
pub open spec fn quoted(s: Seq<char>) -> Seq<u8> {
    seq![34u8] + encode_utf8(s) + seq![34u8]
}

/// A member of an object: its key, and its value by its text.
pub type MemberView = (Seq<char>, Seq<u8>);

/// Whether the members of an object can be written as they are: keys that need no escapes,
/// and values that are JSON values.
pub open spec fn are_members(members: Seq<MemberView>) -> bool {
    forall|i: int|
        0 <= i < members.len() ==> is_plain((#[trigger] members[i]).0) && is_value(members[i].1)
}

/// A member as it stands in the text of an object.
pub open spec fn member_text(member: MemberView) -> Seq<u8> {
    quoted(member.0) + seq![58u8] + member.1
}

/// Members as they stand in the text of an object, with commas between them.
pub open spec fn members_text(members: Seq<MemberView>) -> Seq<u8>
    decreases members.len(),
{
    if members.len() == 0 {
        Seq::empty()
    } else if members.len() == 1 {
        member_text(members[0])
    } else {
        member_text(members[0]) + seq![44u8] + members_text(members.skip(1))
    }
}

/// The text of an object with the given members, without whitespace.
pub open spec fn object_text(members: Seq<MemberView>) -> Seq<u8> {
    seq![123u8] + members_text(members) + seq![125u8]
}

/// Whether a text is known to be one JSON value: it was read as one, or it is an object written
/// from members.
pub open spec fn is_written(text: Seq<u8>) -> bool {
    is_value(text) || exists|members: Seq<MemberView>|
        are_members(members) && text == #[trigger] object_text(members)
}

/// The elements in the rest of an array's text, from the first element to the end of the document,
/// each by its own text: `None` if it does not go on as an array does.
pub open spec fn element_list(s: Seq<u8>) -> Option<Seq<Seq<u8>>>
    decreases s.len(),
{
    match value_end(s) {
        None => None,
        Some(end) => {
            let element = s.take(end as int);
            let rest = trim_start(s.skip(end as int));
            if rest.len() == 0 {
                None
            } else if rest[0] == 93 {
                if trim_start(rest.skip(1)).len() == 0 {
                    Some(seq![element])
                } else {
                    None
                }
            } else if rest[0] == 44 && trim_start(rest.skip(1)).len() < s.len() {
                match element_list(trim_start(rest.skip(1))) {
                    Some(others) => Some(seq![element] + others),
                    None => None,
                }
            } else {
                None
            }
        },
    }
}

/// The elements of an array in order, each by its own text, without the whitespace and the commas
/// around it: `None` if the text is not an array with nothing but whitespace around it.
pub open spec fn array_items(text: Seq<u8>) -> Option<Seq<Seq<u8>>> {
    let open = trim_start(text);
    if open.len() == 0 || open[0] != 91 {
        None
    } else {
        let first = trim_start(open.skip(1));
        if first.len() > 0 && first[0] == 93 {
            if trim_start(first.skip(1)).len() == 0 {
                Some(Seq::empty())
            } else {
                None
            }
        } else {
            element_list(first)
        }
    }
}

/// Whether texts are UTF-8.
pub open spec fn are_utf8(texts: Seq<Seq<u8>>) -> bool {
    forall|i: int| 0 <= i < texts.len() ==> valid_utf8(#[trigger] texts[i])
}

/// The elements of an array, if they are UTF-8, or the message of the refusal.
pub open spec fn array_elements(text: Seq<u8>) -> Result<Seq<Seq<u8>>, Seq<char>> {
    match array_items(text) {
        Some(items) => if are_utf8(items) {
            Ok(items)
        } else {
            Err(array_refusal(text))
        },
        None => Err(array_refusal(text)),
    }
}

/// Elements as they stand in the text of an array, with commas between them.
pub open spec fn elements_text(elements: Seq<Seq<u8>>) -> Seq<u8>
    decreases elements.len(),
{
    if elements.len() == 0 {
        Seq::empty()
    } else if elements.len() == 1 {
        elements[0]
    } else {
        elements_text(elements.drop_last()) + seq![44u8] + elements.last()
    }
}

/// Whether texts can be written as the elements of an array.
pub open spec fn are_elements(elements: Seq<Seq<u8>>) -> bool {
    forall|i: int|
        0 <= i < elements.len() ==> is_written(#[trigger] elements[i]) && valid_utf8(elements[i])
}

/// The text of an array with the given elements, without whitespace.
pub open spec fn array_text(elements: Seq<Seq<u8>>) -> Seq<u8> {
    seq![91u8] + elements_text(elements) + seq![93u8]
}

/// The contents of rows of bytes.
pub open spec fn rows_view(rows: Seq<Vec<u8>>) -> Seq<Seq<u8>> {
    Seq::new(rows.len(), |i: int| rows[i]@)
}

/// Skips one JSON value: `serde_json::Deserializer::from_slice`, its `into_iter` for
/// `serde::de::IgnoredAny`, one `next`, and the `byte_offset` behind the value. A value that
/// was skipped once is skipped in the same way wherever it is followed by whitespace, a comma,
/// a colon, a closing bracket or the end of the text.
#[verifier::external_body]
pub(crate) fn skip_value(text: &[u8]) -> (end: Option<usize>)
    ensures
        match end {
            Some(e) => value_end(text@) == Some(e as nat) && 0 < e <= text@.len(),
            None => value_end(text@) is None,
        },
        end matches Some(e) ==> (!is_space(text@[0]) ==> is_value(text@.take(e as int))),
{
    let values = serde_json::Deserializer::from_slice(text);
    let mut values = values.into_iter::<serde::de::IgnoredAny>();
    match values.next() {
        Some(Ok(_)) => Some(values.byte_offset()),
        _ => None,
    }
}

/// Reads a JSON string: `serde_json::from_slice` into a `String`. A text that it reads starts
/// with a quotation mark, but for whitespace.
#[verifier::external_body]
pub(crate) fn read_string(text: &[u8]) -> (value: Option<String>)
    ensures
        match value {
            Some(s) => string_value(text@) == Some(s@) && text@.len() > 0 && (is_space(text@[0])
                || text@[0] == 34),
            None => string_value(text@) is None,
        },
{
    serde_json::from_slice::<String>(text).ok()
}

/// Reads an integer: `serde_json::from_slice` into an `i64`, which takes exactly the decimal
/// numerals of the `i64`s, without leading zeros, a plus sign, a fraction or an exponent. (It
/// reads `-0` as a floating-point number.)
#[verifier::external_body]
pub(crate) fn read_i64(text: &[u8]) -> (value: Option<i64>)
    requires
        is_value(text@),
    ensures
        value matches Some(n) ==> text@ == numeral::decimal_bytes(n as int),
        forall|n: i64| text@ == #[trigger] numeral::decimal_bytes(n as int) ==> value == Some(n),
{
    serde_json::from_slice::<i64>(text).ok()
}

/// Reads an unsigned integer: `serde_json::from_slice` into a `u64`, which takes exactly the
/// decimal numerals of the `u64`s.
#[verifier::external_body]
pub(crate) fn read_u64(text: &[u8]) -> (value: Option<u64>)
    requires
        is_value(text@),
    ensures
        value matches Some(n) ==> text@ == numeral::decimal_bytes(n as int),
        forall|n: u64| text@ == #[trigger] numeral::decimal_bytes(n as int) ==> value == Some(n),
{
    serde_json::from_slice::<u64>(text).ok()
}

/// Keeps a value as text: `serde_json::from_slice` into a boxed `RawValue`, which takes a JSON
/// value if it is UTF-8 and hands out the value's own text.
#[verifier::external_body]
fn read_raw(text: &[u8]) -> (value: Option<String>)
    requires
        is_value(text@),
    ensures
        value is Some <==> valid_utf8(text@),
        value matches Some(s) ==> encode_utf8(s@) == text@,
{
    let raw = serde_json::from_slice::<Box<serde_json::value::RawValue>>(text).ok()?;
    Some(raw.get().to_owned())
}

/// Takes a text for a JSON value: `serde_json::value::RawValue::from_string`, which takes a
/// text that is one JSON value but for whitespace around it, and keeps it without that
/// whitespace. An object that is written from quoted keys and JSON values is one.
#[verifier::external_body]
fn raw_from_string(text: String) -> (value: Result<String, String>)
    ensures
        match value {
            Ok(s) => is_value(encode_utf8(s@)) && encode_utf8(s@) == trim_end(
                trim_start(encode_utf8(text@)),
            ),
            Err(message) => !is_value(trim_end(trim_start(encode_utf8(text@)))) && message@
                == raw_refusal(text@),
        },
        is_written(encode_utf8(text@)) ==> value is Ok,
{
    match serde_json::value::RawValue::from_string(text) {
        Ok(raw) => Ok(raw.get().to_owned()),
        Err(error) => Err(error.to_string()),
    }
}

/// Reads a text into a `serde_json::Value` with `serde_json::from_slice`. Of the outcome only the
/// message of the error is kept.
#[verifier::external_body]
fn refuse_document(text: &[u8]) -> (refusal: Option<String>)
    ensures
        match refusal {
            Some(message) => document_refusal(text@) == Some(message@),
            None => document_refusal(text@) is None,
        },
{
    match serde_json::from_slice::<serde_json::Value>(text) {
        Ok(_) => None,
        Err(error) => Some(error.to_string()),
    }
}

/// Reads the elements of a JSON array: `serde_json::from_slice` into a vector of boxed
/// `RawValue`s, each of which keeps the element's own text. It takes a bracket, elements with
/// commas between them and a closing bracket, with whitespace around any of these, and refuses an
/// element that is not UTF-8. Each element is a JSON value. An array that is written from JSON
/// values, or from objects written from members, has them for its elements.
#[verifier::external_body]
fn read_array(text: &[u8]) -> (elements: Result<Vec<Vec<u8>>, String>)
    ensures
        match elements {
            Ok(rows) => array_items(text@) == Some(rows_view(rows@)) && are_utf8(rows_view(rows@)),
            Err(message) => !(array_items(text@) is Some && are_utf8(array_items(text@)->0))
                && message@ == array_refusal(text@),
        },
        elements matches Ok(rows) ==> forall|i: int|
            0 <= i < rows@.len() ==> is_value(#[trigger] rows@[i]@),
        forall|rows: Seq<Seq<u8>>|
            text@ == #[trigger] array_text(rows) && are_elements(rows) ==> elements is Ok
                && rows_view(elements->Ok_0@) == rows,
{
    match serde_json::from_slice::<Vec<Box<serde_json::value::RawValue>>>(text) {
        Ok(raws) => Ok(raws.iter().map(|raw| raw.get().as_bytes().to_vec()).collect()),
        Err(error) => Err(error.to_string()),
    }
}

/// Writes a JSON string: `serde_json::to_string` of a `str`, which does not fail, reads back
/// as the string that was written, and only puts quotation marks around a text that needs no
/// escapes.
#[verifier::external_body]
fn write_string(s: &str) -> (text: String)
    ensures
        encode_utf8(text@) == string_text(s@),
        is_string_text(encode_utf8(text@), s@),
        is_plain(s@) ==> encode_utf8(text@) == quoted(s@),
{
    serde_json::to_string(s).unwrap_or_default()
}

/// Writes an integer: `serde_json::to_string` of an `i64`, which does not fail and writes the
/// decimal numeral.
#[verifier::external_body]
fn write_integer(n: i64) -> (text: String)
    ensures
        text@ == numeral::decimal(n as int),
        is_value(encode_utf8(text@)),
{
    serde_json::to_string(&n).unwrap_or_default()
}

/// Writes `null`: `serde_json::to_string` of `()`, which does not fail.
#[verifier::external_body]
fn write_null() -> (text: String)
    ensures
        encode_utf8(text@) == null_text(),
        is_value(encode_utf8(text@)),
{
    serde_json::to_string(&()).unwrap_or_default()
}

/// A JSON value kept as its text, without whitespace around it.
#[derive(Debug)]
pub struct JsonRawValue {
    text: String,
}

impl JsonRawValue {
    #[verifier::type_invariant]
    spec fn is_kept(self) -> bool {
        is_value(encode_utf8(self.text@))
    }

    /// Takes a text for a JSON value. Whitespace around the value is dropped.
    pub fn from_string(text: String) -> (value: Result<Self, JsonError>)
        ensures
            match value {
                Ok(raw) => is_value(raw@) && raw@ == trim_end(trim_start(encode_utf8(text@))),
                Err(error) => !is_value(trim_end(trim_start(encode_utf8(text@)))) && error@
                    == raw_refusal(text@),
            },
            is_written(encode_utf8(text@)) ==> value is Ok,
    {
        match raw_from_string(text) {
            Ok(text) => Ok(JsonRawValue { text }),
            Err(message) => Err(JsonError::new(message.as_str())),
        }
    }

    /// Keeps a value that was read from a text, if it is UTF-8.
    pub(crate) fn from_value(text: &[u8]) -> (value: Option<Self>)
        requires
            is_value(text@),
        ensures
            value is Some <==> valid_utf8(text@),
            value matches Some(raw) ==> raw@ == text@,
    {
        match read_raw(text) {
            Some(text) => Some(JsonRawValue { text }),
            None => None,
        }
    }

    /// The JSON string that stands for a text.
    pub fn string(s: &str) -> (value: Self)
        ensures
            value@ == string_text(s@),
            is_string_text(value@, s@),
            is_plain(s@) ==> value@ == quoted(s@),
    {
        JsonRawValue { text: write_string(s) }
    }

    /// The decimal numeral of an integer.
    pub fn integer(n: i64) -> (value: Self)
        ensures
            value@ == numeral::decimal_bytes(n as int),
            is_value(value@),
    {
        JsonRawValue { text: write_integer(n) }
    }

    /// The value `null`.
    pub fn null() -> (value: Self)
        ensures
            value@ == null_text(),
            is_value(value@),
    {
        JsonRawValue { text: write_null() }
    }

    /// The text of the value.
    pub fn get(&self) -> (text: &str)
        ensures
            encode_utf8(text@) == self@,
            is_value(self@),
            valid_utf8(self@),
    {
        proof {
            use_type_invariant(self);
            encode_utf8_valid_utf8(self.text@);
        }
        self.text.as_str()
    }
}

impl View for JsonRawValue {
    type V = Seq<u8>;

    closed spec fn view(&self) -> Seq<u8> {
        encode_utf8(self.text@)
    }
}

impl Clone for JsonRawValue {
    fn clone(&self) -> (copy: Self)
        ensures
            copy@ == self@,
            is_value(copy@),
            valid_utf8(copy@),
    {
        proof {
            use_type_invariant(self);
            encode_utf8_valid_utf8(self.text@);
        }
        JsonRawValue { text: self.text.clone() }
    }
}

impl PartialEq for JsonRawValue {
    fn eq(&self, other: &Self) -> (answer: bool) {
        proof {
            encode_utf8_decode_utf8(self.text@);
            encode_utf8_decode_utf8(other.text@);
        }
        self.text == other.text
    }
}

impl vstd::std_specs::cmp::PartialEqSpecImpl for JsonRawValue {
    open spec fn obeys_eq_spec() -> bool {
        true
    }

    open spec fn eq_spec(&self, other: &Self) -> bool {
        self@ == other@
    }
}

/// The text of each element of a JSON array, in order: its own text as it stands, without the
/// whitespace and the commas around it.
pub fn split_array(text: &[u8]) -> (elements: Result<Vec<Vec<u8>>, JsonError>)
    ensures
        match elements {
            Ok(rows) => array_elements(text@) == Ok::<Seq<Seq<u8>>, Seq<char>>(rows_view(rows@)),
            Err(error) => array_elements(text@) == Err::<Seq<Seq<u8>>, Seq<char>>(error@),
        },
        elements matches Ok(rows) ==> forall|i: int|
            0 <= i < rows@.len() ==> is_value(#[trigger] rows@[i]@) && valid_utf8(rows@[i]@),
        forall|rows: Seq<Seq<u8>>|
            text@ == #[trigger] array_text(rows) && are_elements(rows) ==> elements is Ok
                && rows_view(elements->Ok_0@) == rows,
{
    match read_array(text) {
        Ok(rows) => {
            assert forall|i: int| 0 <= i < rows@.len() implies valid_utf8(#[trigger] rows@[i]@) by {
                assert(rows_view(rows@)[i] == rows@[i]@);
            }
            Ok(rows)
        },
        Err(message) => Err(JsonError::new(message.as_str())),
    }
}

/// Whether a text is a JSON document.
pub fn is_document(text: &[u8]) -> (answer: bool)
    ensures
        answer == is_json(text@),
{
    refuse_document(text).is_none()
}

/// Complains of a text that is not what was expected.
pub(crate) fn complain(text: &[u8], expected: &str) -> (error: JsonError)
    ensures
        error@ == complaint(text@, expected@),
{
    match refuse_document(text) {
        Some(message) => JsonError { message },
        None => JsonError::new(expected),
    }
}

} // verus!
