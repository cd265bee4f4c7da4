//! JSON objects as lists of members, and the fields of a structure in them.

use crate::json;
use crate::json::JsonRawValue;
use crate::json::MemberView;
use vstd::prelude::*;
use vstd::slice::slice_subrange;
use vstd::slice::slice_to_vec;
use vstd::utf8::*;

verus! {

/// The members in the rest of an object's text, from the first key to the end of the document:
/// `None` if it does not go on as an object does.
pub open spec fn member_list(s: Seq<u8>) -> Option<Seq<MemberView>>
    decreases s.len(),
{
    match member_at(s) {
        None => None,
        Some((member, rest)) => {
            if rest.len() == 0 {
                None
            } else if rest[0] == 125 {
                if json::trim_start(rest.skip(1)).len() == 0 {
                    Some(seq![member])
                } else {
                    None
                }
            } else if rest[0] == 44 && json::trim_start(rest.skip(1)).len() < s.len() {
                match member_list(json::trim_start(rest.skip(1))) {
                    Some(others) => Some(seq![member] + others),
                    None => None,
                }
            } else {
                None
            }
        },
    }
}

/// The member at the start of a text, and what follows it after whitespace.
pub open spec fn member_at(s: Seq<u8>) -> Option<(MemberView, Seq<u8>)> {
    if s.len() == 0 || s[0] != 34 {
        None
    } else {
        match (json::value_end(s), key_at(s)) {
            (Some(end), Some(key)) => {
                let colon = json::trim_start(s.skip(end as int));
                if colon.len() == 0 || colon[0] != 58 {
                    None
                } else {
                    let value = json::trim_start(colon.skip(1));
                    match json::value_end(value) {
                        Some(end) => {
                            let member = (key, value.take(end as int));
                            Some((member, json::trim_start(value.skip(end as int))))
                        },
                        None => None,
                    }
                }
            },
            _ => None,
        }
    }
}

/// The key at the start of a text.
pub open spec fn key_at(s: Seq<u8>) -> Option<Seq<char>> {
    match json::value_end(s) {
        Some(end) => json::string_value(s.take(end as int)),
        None => None,
    }
}

/// The members of an object in the order of its text: `None` if the text is not an object
/// with nothing but whitespace around it.
pub open spec fn object_members(text: Seq<u8>) -> Option<Seq<MemberView>> {
    let open = json::trim_start(text);
    if open.len() == 0 || open[0] != 123 {
        None
    } else {
        let first = json::trim_start(open.skip(1));
        if first.len() > 0 && first[0] == 125 {
            if json::trim_start(first.skip(1)).len() == 0 {
                Some(Seq::empty())
            } else {
                None
            }
        } else {
            member_list(first)
        }
    }
}

/// The position behind the whitespace at a position.
fn skip_space(text: &[u8], from: usize) -> (next: usize)
    requires
        from <= text@.len(),
    ensures
        from <= next <= text@.len(),
        json::trim_start(text@.skip(from as int)) == text@.skip(next as int),
        next < text@.len() ==> !json::is_space(text@[next as int]),
{
    let mut at: usize = from;
    while at < text.len() && (text[at] == 32 || text[at] == 9 || text[at] == 10 || text[at] == 13)
        invariant
            from <= at <= text@.len(),
            json::trim_start(text@.skip(from as int)) == json::trim_start(text@.skip(at as int)),
        decreases text@.len() - at,
    {
        assert(text@.skip(at as int).skip(1) =~= text@.skip(at + 1));
        at = at + 1;
    }
    at
}

/// The one value of a document, without the whitespace around it.
pub open spec fn document_value(text: Seq<u8>) -> Option<Seq<u8>> {
    let start = json::trim_start(text);
    match json::value_end(start) {
        Some(end) => if json::trim_start(start.skip(end as int)).len() == 0 {
            Some(start.take(end as int))
        } else {
            None
        },
        None => None,
    }
}

/// Reads the one value of a document.
pub(crate) fn read_document_value(text: &[u8]) -> (value: Option<&[u8]>)
    ensures
        match value {
            Some(value) => document_value(text@) == Some(value@) && json::is_value(value@),
            None => document_value(text@) is None,
        },
{
    assert(text@.skip(0) =~= text@);
    let from = skip_space(text, 0);
    let start = slice_subrange(text, from, text.len());
    assert(start@ =~= text@.skip(from as int));
    match json::skip_value(start) {
        Some(end) => {
            let value = slice_subrange(start, 0, end);
            assert(value@ =~= start@.take(end as int));
            assert(start@.skip(end as int) =~= text@.skip(from + end));
            let rest = skip_space(text, from + end);
            if rest < text.len() {
                None
            } else {
                Some(value)
            }
        },
        None => None,
    }
}

/// A member of an object.
pub struct Member {
    pub key: String,
    pub value: Vec<u8>,
}

impl View for Member {
    type V = MemberView;

    open spec fn view(&self) -> MemberView {
        (self.key@, self.value@)
    }
}

/// The contents of a list of members.
pub open spec fn members_view(members: Seq<Member>) -> Seq<MemberView> {
    Seq::new(members.len(), |i: int| members[i]@)
}

/// Reads the member at a position, and finds the position of what follows it.
fn read_member(text: &[u8], from: usize) -> (member: Option<(Member, usize)>)
    requires
        from <= text@.len(),
    ensures
        match member {
            Some((member, next)) => {
                &&& from < next <= text@.len()
                &&& member_at(text@.skip(from as int)) == Some((member@, text@.skip(next as int)))
                &&& json::is_value(member.value@)
            },
            None => member_at(text@.skip(from as int)) is None,
        },
{
    if from >= text.len() || text[from] != 34 {
        return None;
    }
    let ghost s = text@.skip(from as int);
    let rest = slice_subrange(text, from, text.len());
    assert(rest@ =~= s);
    let key_end: usize = match json::skip_value(rest) {
        Some(end) => end,
        None => {
            return None;
        },
    };
    let key = match json::read_string(slice_subrange(rest, 0, key_end)) {
        Some(key) => key,
        None => {
            assert(s.take(key_end as int) =~= s.subrange(0, key_end as int));
            return None;
        },
    };
    assert(s.take(key_end as int) =~= s.subrange(0, key_end as int));
    assert(s.skip(key_end as int) =~= text@.skip(from + key_end));
    let colon = skip_space(text, from + key_end);
    if colon >= text.len() || text[colon] != 58 {
        return None;
    }
    assert(text@.skip(colon as int).skip(1) =~= text@.skip(colon + 1));
    let value_start = skip_space(text, colon + 1);
    let value_text = slice_subrange(text, value_start, text.len());
    assert(value_text@ =~= text@.skip(value_start as int));
    let value_len: usize = match json::skip_value(value_text) {
        Some(end) => end,
        None => {
            return None;
        },
    };
    let value = slice_subrange(value_text, 0, value_len);
    assert(value@ =~= value_text@.take(value_len as int));
    assert(value_text@.skip(value_len as int) =~= text@.skip(value_start + value_len));
    let next = skip_space(text, value_start + value_len);
    Some((Member { key, value: slice_to_vec(value) }, next))
}

/// Reads the members of an object.
pub(crate) fn read_members(text: &[u8]) -> (members: Option<Vec<Member>>)
    ensures
        match members {
            Some(members) => {
                &&& object_members(text@) == Some(members_view(members@))
                &&& forall|i: int|
                    0 <= i < members@.len() ==> json::is_value((#[trigger] members@[i]).value@)
            },
            None => object_members(text@) is None,
        },
{
    assert(text@.skip(0) =~= text@);
    let open = skip_space(text, 0);
    if open >= text.len() || text[open] != 123 {
        return None;
    }
    assert(text@.skip(open as int).skip(1) =~= text@.skip(open + 1));
    let first = skip_space(text, open + 1);
    let mut members: Vec<Member> = Vec::new();
    if first < text.len() && text[first] == 125 {
        assert(text@.skip(first as int).skip(1) =~= text@.skip(first + 1));
        let end = skip_space(text, first + 1);
        if end < text.len() {
            return None;
        }
        assert(members_view(members@) =~= Seq::<MemberView>::empty());
        return Some(members);
    }
    let mut at: usize = first;
    loop
        invariant
            first <= at <= text@.len(),
            object_members(text@) == member_list(text@.skip(first as int)),
            match member_list(text@.skip(at as int)) {
                Some(others) => member_list(text@.skip(first as int)) == Some(
                    members_view(members@) + others,
                ),
                None => member_list(text@.skip(first as int)) is None,
            },
            forall|i: int|
                0 <= i < members@.len() ==> json::is_value((#[trigger] members@[i]).value@),
        decreases text@.len() - at,
    {
        let ghost before = members@;
        let (member, next) = match read_member(text, at) {
            Some(found) => found,
            None => {
                return None;
            },
        };
        let ghost view = member@;
        if next >= text.len() {
            return None;
        }
        let mark: u8 = text[next];
        if mark != 125 && mark != 44 {
            return None;
        }
        assert(text@.skip(next as int).skip(1) =~= text@.skip(next + 1));
        members.push(member);
        assert(members_view(members@) =~= members_view(before).push(view));
        let after = skip_space(text, next + 1);
        if mark == 125 {
            if after < text.len() {
                return None;
            }
            assert(members_view(before) + seq![view] =~= members_view(members@));
            return Some(members);
        }
        proof {
            assert(text@.skip(after as int).len() < text@.skip(at as int).len());
            match member_list(text@.skip(after as int)) {
                Some(others) => {
                    assert(members_view(before) + (seq![view] + others) =~= members_view(members@)
                        + others);
                },
                None => {},
            }
        }
        at = after;
    }
}

/// One more member goes to the end of the text, behind a comma unless it is the first.
proof fn lemma_members_text_push(members: Seq<MemberView>, member: MemberView)
    ensures
        json::members_text(members.push(member)) == if members.len() == 0 {
            json::member_text(member)
        } else {
            json::members_text(members) + seq![44u8] + json::member_text(member)
        },
    decreases members.len(),
{
    let all = members.push(member);
    if members.len() == 1 {
        assert(all.skip(1) =~= seq![member]);
        assert(json::members_text(all.skip(1)) == json::member_text(member));
    } else if members.len() > 1 {
        assert(all.skip(1) =~= members.skip(1).push(member));
        lemma_members_text_push(members.skip(1), member);
        assert(json::members_text(all) =~= json::members_text(members) + seq![44u8]
            + json::member_text(member));
    }
}

/// Whether each key reads back as itself.
pub open spec fn keys_read_back(members: Seq<MemberView>) -> bool {
    forall|i: int|
        0 <= i < members.len() ==> json::is_string_text(
            json::quoted((#[trigger] members[i]).0),
            members[i].0,
        )
}

/// The members that were written are the members that are read.
proof fn lemma_member_list(members: Seq<MemberView>)
    requires
        members.len() > 0,
        json::are_members(members),
        keys_read_back(members),
    ensures
        member_list(json::members_text(members) + seq![125u8]) == Some(members),
        json::members_text(members)[0] == 34,
        json::members_text(members).len() > 0,
    decreases members.len(),
{
    let s = json::members_text(members) + seq![125u8];
    let member = members[0];
    let key = json::quoted(member.0);
    let others = members.skip(1);
    let rest = if members.len() == 1 {
        seq![125u8]
    } else {
        seq![44u8] + (json::members_text(others) + seq![125u8])
    };
    let value = member.1 + rest;
    let colon = seq![58u8] + value;
    assert(s =~= key + colon);
    assert(json::value_end(key + colon) == Some(key.len()));
    assert(s.take(key.len() as int) =~= key);
    assert(s.skip(key.len() as int) =~= colon);
    assert(colon.skip(1) =~= value);
    assert(json::value_end(member.1 + rest) == Some(member.1.len()));
    assert(value.take(member.1.len() as int) =~= member.1);
    assert(value.skip(member.1.len() as int) =~= rest);
    assert(member_at(s) == Some((member, rest)));
    if members.len() == 1 {
        assert(rest.skip(1) =~= Seq::<u8>::empty());
        assert(seq![member] =~= members);
    } else {
        assert forall|i: int| 0 <= i < others.len() implies json::is_plain(
            (#[trigger] others[i]).0,
        ) && json::is_value(others[i].1) && json::is_string_text(
            json::quoted(others[i].0),
            others[i].0,
        ) by {
            assert(others[i] == members[i + 1]);
        }
        lemma_member_list(others);
        assert(rest.skip(1) =~= json::members_text(others) + seq![125u8]);
        assert(seq![member] + others =~= members);
    }
}

/// The object that was written is the object that is read.
pub proof fn lemma_object_reads_back(members: Seq<MemberView>)
    requires
        json::are_members(members),
        keys_read_back(members),
    ensures
        object_members(json::object_text(members)) == Some(members),
{
    let text = json::object_text(members);
    let first = json::members_text(members) + seq![125u8];
    assert(text.skip(1) =~= first);
    if members.len() > 0 {
        lemma_member_list(members);
    } else {
        assert(first.skip(1) =~= Seq::<u8>::empty());
        assert(members =~= Seq::<MemberView>::empty());
    }
}

/// Puts a text behind another.
fn append(text: &mut String, part: &str)
    ensures
        encode_utf8(final(text)@) == encode_utf8(old(text)@) + encode_utf8(part@),
{
    proof {
        lemma_encode_concat(text@, part@);
    }
    text.append(part);
}

/// A member to be written.
pub struct NewMember {
    pub key: String,
    pub value: JsonRawValue,
}

impl View for NewMember {
    type V = MemberView;

    open spec fn view(&self) -> MemberView {
        (self.key@, self.value@)
    }
}

/// The contents of a list of members to be written.
pub open spec fn new_members_view(members: Seq<NewMember>) -> Seq<MemberView> {
    Seq::new(members.len(), |i: int| members[i]@)
}

/// Writes an object without whitespace, its members in the given order. The object reads back
/// as the members that were given.
pub(crate) fn write_object(members: &Vec<NewMember>) -> (text: String)
    requires
        forall|i: int| 0 <= i < members@.len() ==> json::is_plain((#[trigger] members@[i]).key@),
    ensures
        encode_utf8(text@) == json::object_text(new_members_view(members@)),
        object_members(encode_utf8(text@)) == Some(new_members_view(members@)),
        json::are_members(new_members_view(members@)),
{
    let ghost view = new_members_view(members@);
    let mut text = "{".to_owned();
    proof {
        reveal_strlit("{");
        is_ascii_chars_encode_utf8("{"@);
        assert(view.take(0) =~= Seq::<MemberView>::empty());
        assert(encode_utf8(text@) =~= seq![123u8] + json::members_text(view.take(0)));
    }
    let mut i: usize = 0;
    while i < members.len()
        invariant
            i <= members@.len(),
            view == new_members_view(members@),
            forall|j: int|
                0 <= j < members@.len() ==> json::is_plain((#[trigger] members@[j]).key@),
            encode_utf8(text@) == seq![123u8] + json::members_text(view.take(i as int)),
            json::are_members(view.take(i as int)),
            keys_read_back(view.take(i as int)),
        decreases members@.len() - i,
    {
        let ghost done = view.take(i as int);
        if i > 0 {
            append(&mut text, ",");
        }
        let key = JsonRawValue::string(members[i].key.as_str());
        let value = members[i].value.get();
        append(&mut text, key.get());
        append(&mut text, ":");
        append(&mut text, value);
        proof {
            reveal_strlit(",");
            reveal_strlit(":");
            is_ascii_chars_encode_utf8(","@);
            is_ascii_chars_encode_utf8(":"@);
            assert(encode_utf8(","@) =~= seq![44u8]);
            assert(encode_utf8(":"@) =~= seq![58u8]);
            assert(view.take(i + 1) =~= done.push(view[i as int]));
            lemma_members_text_push(done, view[i as int]);
            assert(encode_utf8(text@) =~= seq![123u8] + json::members_text(view.take(i + 1)));
        }
        i = i + 1;
    }
    append(&mut text, "}");
    proof {
        reveal_strlit("}");
        is_ascii_chars_encode_utf8("}"@);
        assert(encode_utf8("}"@) =~= seq![125u8]);
        assert(view.take(i as int) =~= view);
        lemma_object_reads_back(view);
    }
    text
}

/// Writes an object as `write_object` does, and keeps it as a value.
pub(crate) fn raw_object(members: &Vec<NewMember>) -> (value: JsonRawValue)
    requires
        forall|i: int| 0 <= i < members@.len() ==> json::is_plain((#[trigger] members@[i]).key@),
    ensures
        value@ == json::object_text(new_members_view(members@)),
        object_members(value@) == Some(new_members_view(members@)),
        json::are_members(new_members_view(members@)),
        json::is_value(value@),
{
    let text = write_object(members);
    let ghost bytes = encode_utf8(text@);
    assert(bytes == json::object_text(new_members_view(members@)));
    assert(bytes[0] == 123 && bytes.last() == 125);
    match JsonRawValue::from_string(text) {
        Ok(value) => value,
        Err(_) => {
            assert(false);
            JsonRawValue::null()
        },
    }
}

/// The first value of a key among members.
pub open spec fn find(members: Seq<MemberView>, key: Seq<char>) -> Option<Seq<u8>>
    decreases members.len(),
{
    if members.len() == 0 {
        None
    } else if members[0].0 == key {
        Some(members[0].1)
    } else {
        find(members.skip(1), key)
    }
}

/// Whether one of the given keys stands at two places among members.
pub open spec fn repeats(members: Seq<MemberView>, keys: Seq<Seq<char>>) -> bool {
    exists|i: int, j: int|
        0 <= i < j < members.len() && (#[trigger] members[i]).0 == (#[trigger] members[j]).0
            && keys.contains(members[i].0)
}

/// The fields of a structure in a JSON text, in the order of their names, each by the text of
/// its value; an absent field is `None`.
///
/// The structure is an object, in which no name may stand twice and keys that are no name are
/// passed over.
pub open spec fn fields(text: Seq<u8>, names: Seq<Seq<char>>) -> Option<Seq<Option<Seq<u8>>>> {
    match object_members(text) {
        Some(members) => if repeats(members, names) {
            None
        } else {
            Some(Seq::new(names.len(), |i: int| find(members, names[i])))
        },
        None => None,
    }
}

/// The contents of a list of names.
pub open spec fn names_view(names: Seq<&str>) -> Seq<Seq<char>> {
    Seq::new(names.len(), |i: int| names[i]@)
}

/// The contents of a list of fields.
pub open spec fn fields_view(fields: Seq<Option<Vec<u8>>>) -> Seq<Option<Seq<u8>>> {
    Seq::new(
        fields.len(),
        |i: int|
            match fields[i] {
                Some(value) => Some(value@),
                None => None,
            },
    )
}

/// What `find` gives, by positions.
proof fn lemma_find(members: Seq<MemberView>, key: Seq<char>, at: int)
    requires
        0 <= at <= members.len(),
        forall|i: int| 0 <= i < at ==> (#[trigger] members[i]).0 != key,
        at < members.len() ==> members[at].0 == key,
    ensures
        find(members, key) == if at < members.len() {
            Some(members[at].1)
        } else {
            None
        },
    decreases members.len(),
{
    if members.len() > 0 && at > 0 {
        assert forall|i: int| 0 <= i < at - 1 implies (#[trigger] members.skip(1)[i]).0 != key by {
            assert(members.skip(1)[i] == members[i + 1]);
        }
        lemma_find(members.skip(1), key, at - 1);
    }
}

/// Finds the value of a key among members. The answer is `Err` if the key stands there twice.
fn find_unique(members: &Vec<Member>, key: &str) -> (found: Result<Option<usize>, ()>)
    ensures
        match found {
            Ok(Some(at)) => {
                &&& at < members@.len()
                &&& members@[at as int].key@ == key@
                &&& forall|i: int|
                    0 <= i < members@.len() && i != at ==> (#[trigger] members@[i]).key@ != key@
                &&& find(members_view(members@), key@) == Some(members@[at as int].value@)
            },
            Ok(None) => {
                &&& forall|i: int| 0 <= i < members@.len() ==> (#[trigger] members@[i]).key@ != key@
                &&& find(members_view(members@), key@) is None
            },
            Err(_) => exists|i: int, j: int|
                0 <= i < j < members@.len() && (#[trigger] members@[i]).key@ == key@
                    && (#[trigger] members@[j]).key@ == key@,
        },
{
    let wanted = key.to_owned();
    let mut found: Option<usize> = None;
    let mut i: usize = 0;
    while i < members.len()
        invariant
            i <= members@.len(),
            wanted@ == key@,
            match found {
                Some(at) => {
                    &&& at < i
                    &&& members@[at as int].key@ == key@
                    &&& forall|j: int|
                        0 <= j < i && j != at ==> (#[trigger] members@[j]).key@ != key@
                },
                None => forall|j: int| 0 <= j < i ==> (#[trigger] members@[j]).key@ != key@,
            },
        decreases members@.len() - i,
    {
        if members[i].key == wanted {
            if found.is_some() {
                return Err(());
            }
            found = Some(i);
        }
        i = i + 1;
    }
    proof {
        match found {
            Some(at) => lemma_find(members_view(members@), key@, at as int),
            None => lemma_find(members_view(members@), key@, members@.len() as int),
        }
    }
    Ok(found)
}

/// Reads the fields of a structure.
pub(crate) fn read_fields(text: &[u8], names: &Vec<&str>) -> (found: Option<Vec<Option<Vec<u8>>>>)
    ensures
        match found {
            Some(values) => {
                &&& fields(text@, names_view(names@)) == Some(fields_view(values@))
                &&& values@.len() == names@.len()
                &&& forall|i: int|
                    0 <= i < values@.len() ==> ((#[trigger] values@[i]) matches Some(value)
                        ==> json::is_value(value@))
            },
            None => fields(text@, names_view(names@)) is None,
        },
{
    let ghost keys = names_view(names@);
    let mut values: Vec<Option<Vec<u8>>> = Vec::new();
    let mut i: usize = 0;
    let members = match read_members(text) {
        Some(members) => members,
        None => {
            return None;
        },
    };
    let ghost view = members_view(members@);
    while i < names.len()
        invariant
            i <= names@.len(),
            i == values@.len(),
            keys == names_view(names@),
            view == members_view(members@),
            object_members(text@) == Some(view),
            fields(text@, keys) == (if repeats(view, keys) {
                None
            } else {
                Some(Seq::new(keys.len(), |i: int| find(view, keys[i])))
            }),
            forall|j: int|
                0 <= j < i ==> (match #[trigger] values@[j] {
                    Some(value) => find(view, keys[j]) == Some(value@) && json::is_value(value@),
                    None => find(view, keys[j]) is None,
                }),
            forall|j: int, a: int, b: int|
                0 <= j < i && 0 <= a < b < view.len() ==> !((#[trigger] view[a]).0 == (
                #[trigger] view[b]).0 && view[a].0 == #[trigger] keys[j]),
            forall|j: int|
                0 <= j < members@.len() ==> json::is_value((#[trigger] members@[j]).value@),
        decreases names@.len() - i,
    {
        match find_unique(&members, names[i]) {
            Ok(Some(at)) => {
                let value = members[at].value.clone();
                assert(value@ =~= members@[at as int].value@);
                values.push(Some(value));
            },
            Ok(None) => {
                values.push(None);
            },
            Err(_) => {
                proof {
                    let (a, b) = choose|a: int, b: int|
                        0 <= a < b < members@.len() && (#[trigger] members@[a]).key@
                            == names@[i as int]@ && (#[trigger] members@[b]).key@
                            == names@[i as int]@;
                    assert(view[a].0 == view[b].0);
                    assert(keys[i as int] == view[a].0);
                    assert(keys.contains(view[a].0));
                }
                return None;
            },
        }
        i = i + 1;
    }
    assert(!repeats(view, keys));
    assert(fields(text@, keys)->Some_0 =~= fields_view(values@));
    Some(values)
}

/// The bytes of two texts in a row are the bytes of the one and then of the other.
pub proof fn lemma_encode_concat(a: Seq<char>, b: Seq<char>)
    ensures
        encode_utf8(a + b) == encode_utf8(a) + encode_utf8(b),
    decreases a.len(),
{
    if a.len() == 0 {
        assert(a + b =~= b);
        assert(encode_utf8(a) =~= Seq::<u8>::empty());
    } else {
        lemma_encode_concat(a.drop_first(), b);
        assert((a + b).drop_first() =~= a.drop_first() + b);
        assert(encode_utf8(a + b) =~= encode_utf8(a) + encode_utf8(b));
    }
}

} // verus!
