//! What holds of arrays and objects, however their texts are spaced.

use crate::json;
use crate::json::MemberView;
use crate::object;
use vstd::prelude::*;
use vstd::utf8::*;

verus! {

/// Whether bytes are nothing but JSON whitespace.
pub open spec fn is_blank(bytes: Seq<u8>) -> bool {
    forall|i: int|
        0 <= i < bytes.len() ==> #[trigger] bytes[i] == 32 || bytes[i] == 9 || bytes[i] == 10
            || bytes[i] == 13
}

/// Whitespace in front of a text that does not begin with any is what is trimmed.
pub proof fn law_whitespace_is_trimmed(blank: Seq<u8>, text: Seq<u8>)
    requires
        is_blank(blank),
        text.len() > 0 ==> !(text[0] == 32 || text[0] == 9 || text[0] == 10 || text[0] == 13),
    ensures
        json::trim_start(blank + text) == text,
    decreases blank.len(),
{
    let all = blank + text;
    if blank.len() == 0 {
        assert(all =~= text);
    } else {
        let rest = blank.skip(1);
        assert(blank[0] == 32 || blank[0] == 9 || blank[0] == 10 || blank[0] == 13);
        assert(all[0] == blank[0]);
        assert forall|i: int| 0 <= i < rest.len() implies #[trigger] rest[i] == 32 || rest[i] == 9
            || rest[i] == 10 || rest[i] == 13 by {
            assert(rest[i] == blank[i + 1]);
        }
        assert(all.skip(1) =~= rest + text);
        law_whitespace_is_trimmed(rest, text);
    }
}

/// An element of an array, with the whitespace around it.
pub struct SpacedElement {
    pub before: Seq<u8>,
    pub value: Seq<u8>,
    pub after: Seq<u8>,
}

/// Whether elements are JSON values, none of which begins with a closing bracket, with whitespace
/// around them.
pub open spec fn are_spaced(elements: Seq<SpacedElement>) -> bool {
    forall|i: int|
        0 <= i < elements.len() ==> {
            &&& is_blank((#[trigger] elements[i]).before)
            &&& is_blank(elements[i].after)
            &&& json::is_value(elements[i].value)
            &&& elements[i].value[0] != 93
        }
}

/// Spaced elements with commas between them.
pub open spec fn spaced_elements(elements: Seq<SpacedElement>) -> Seq<u8>
    decreases elements.len(),
{
    if elements.len() == 0 {
        Seq::empty()
    } else {
        let first = elements[0].before + elements[0].value + elements[0].after;
        if elements.len() == 1 {
            first
        } else {
            first + seq![44u8] + spaced_elements(elements.skip(1))
        }
    }
}

/// The values of spaced elements.
pub open spec fn element_values(elements: Seq<SpacedElement>) -> Seq<Seq<u8>> {
    Seq::new(elements.len(), |i: int| elements[i].value)
}

proof fn lemma_spaced_elements(elements: Seq<SpacedElement>, after: Seq<u8>)
    requires
        are_spaced(elements),
        elements.len() > 0,
        is_blank(after),
    ensures
        ({
            let s = json::trim_start(spaced_elements(elements) + seq![93u8] + after);
            &&& json::element_list(s) == Some(element_values(elements))
            &&& s.len() > 0
            &&& s[0] == elements[0].value[0]
        }),
    decreases elements.len(),
{
    let one = elements[0];
    let others = elements.skip(1);
    let all = spaced_elements(elements) + seq![93u8] + after;
    let tail = if elements.len() == 1 {
        seq![93u8] + after
    } else {
        seq![44u8] + (spaced_elements(others) + seq![93u8] + after)
    };
    let s = one.value + (one.after + tail);
    assert(all =~= one.before + s);
    assert(s[0] == one.value[0]);
    law_whitespace_is_trimmed(one.before, s);
    let rest = one.after + tail;
    assert(rest[0] == if one.after.len() > 0 {
        one.after[0]
    } else {
        tail[0]
    });
    if one.after.len() > 0 {
        assert(one.after[0] == 32 || one.after[0] == 9 || one.after[0] == 10 || one.after[0] == 13);
    }
    assert(json::ends_value(rest));
    assert(json::value_end(one.value + rest) == Some(one.value.len()));
    assert(s.take(one.value.len() as int) =~= one.value);
    assert(s.skip(one.value.len() as int) =~= rest);
    law_whitespace_is_trimmed(one.after, tail);
    if elements.len() == 1 {
        assert(tail.skip(1) =~= after);
        assert(after =~= after + Seq::<u8>::empty());
        law_whitespace_is_trimmed(after, Seq::empty());
        assert(seq![one.value] =~= element_values(elements));
    } else {
        let more = spaced_elements(others) + seq![93u8] + after;
        assert(tail.skip(1) =~= more);
        assert forall|i: int| 0 <= i < others.len() implies {
            &&& is_blank((#[trigger] others[i]).before)
            &&& is_blank(others[i].after)
            &&& json::is_value(others[i].value)
            &&& others[i].value[0] != 93
        } by {
            assert(others[i] == elements[i + 1]);
        }
        lemma_spaced_elements(others, after);
        lemma_trimmed_len(more);
        assert(seq![one.value] + element_values(others) =~= element_values(elements));
    }
}

/// A trimmed text is no longer than before.
proof fn lemma_trimmed_len(s: Seq<u8>)
    ensures
        json::trim_start(s).len() <= s.len(),
    decreases s.len(),
{
    if s.len() > 0 && json::is_space(s[0]) {
        lemma_trimmed_len(s.skip(1));
    }
}

/// An array has its elements, each by its own text and in order, whatever whitespace stands around
/// the array, its brackets and its elements.
pub proof fn law_arrays_may_be_spaced(
    before: Seq<u8>,
    elements: Seq<SpacedElement>,
    inside: Seq<u8>,
    after: Seq<u8>,
)
    requires
        is_blank(before),
        is_blank(inside),
        is_blank(after),
        are_spaced(elements),
    ensures
        json::array_items(
            before + seq![91u8] + (if elements.len() == 0 {
                inside
            } else {
                spaced_elements(elements)
            }) + seq![93u8] + after,
        ) == Some(element_values(elements)),
{
    let contents = if elements.len() == 0 {
        inside
    } else {
        spaced_elements(elements)
    };
    let open = seq![91u8] + (contents + seq![93u8] + after);
    let text = before + seq![91u8] + contents + seq![93u8] + after;
    assert(text =~= before + open);
    law_whitespace_is_trimmed(before, open);
    assert(open.skip(1) =~= contents + seq![93u8] + after);
    if elements.len() == 0 {
        let close = seq![93u8] + after;
        assert(open.skip(1) =~= inside + close);
        law_whitespace_is_trimmed(inside, close);
        assert(close.skip(1) =~= after);
        assert(after =~= after + Seq::<u8>::empty());
        law_whitespace_is_trimmed(after, Seq::empty());
        assert(element_values(elements) =~= Seq::<Seq<u8>>::empty());
    } else {
        lemma_spaced_elements(elements, after);
    }
}

/// An array that is written from JSON values has them for its elements.
pub proof fn law_written_arrays(elements: Seq<Seq<u8>>)
    requires
        forall|i: int|
            0 <= i < elements.len() ==> json::is_value(#[trigger] elements[i]) && elements[i][0]
                != 93,
    ensures
        json::array_items(json::array_text(elements)) == Some(elements),
{
    let none = Seq::<u8>::empty();
    let spaced = Seq::new(
        elements.len(),
        |i: int| SpacedElement { before: none, value: elements[i], after: none },
    );
    lemma_unspaced(elements, spaced);
    law_arrays_may_be_spaced(none, spaced, none, none);
    assert(none + seq![91u8] + json::elements_text(elements) + seq![93u8] + none
        =~= json::array_text(elements));
    assert(element_values(spaced) =~= elements);
    if elements.len() == 0 {
        assert(json::elements_text(elements) =~= none);
    }
}

/// Elements without whitespace around them.
proof fn lemma_unspaced(elements: Seq<Seq<u8>>, spaced: Seq<SpacedElement>)
    requires
        spaced.len() == elements.len(),
        forall|i: int|
            0 <= i < spaced.len() ==> (#[trigger] spaced[i]).before.len() == 0
                && spaced[i].after.len() == 0 && spaced[i].value == elements[i],
    ensures
        spaced_elements(spaced) == json::elements_text(elements),
    decreases elements.len(),
{
    if elements.len() > 0 {
        let one = spaced[0];
        assert(one.before + one.value + one.after =~= elements[0]);
        if elements.len() > 1 {
            let others = spaced.skip(1);
            assert forall|i: int| 0 <= i < others.len() implies (#[trigger] others[i]).before.len()
                == 0 && others[i].after.len() == 0 && others[i].value == elements.skip(1)[i] by {
                assert(others[i] == spaced[i + 1]);
            }
            lemma_unspaced(elements.skip(1), others);
            lemma_elements_from_front(elements);
        }
    }
}

/// Elements in a row begin with the first, a comma and the others.
proof fn lemma_elements_from_front(elements: Seq<Seq<u8>>)
    requires
        elements.len() > 1,
    ensures
        json::elements_text(elements) == elements[0] + seq![44u8] + json::elements_text(
            elements.skip(1),
        ),
    decreases elements.len(),
{
    let others = elements.skip(1);
    let before = elements.drop_last();
    if elements.len() == 2 {
        assert(json::elements_text(before) == elements[0]);
        assert(json::elements_text(others) == elements[1]);
    } else {
        lemma_elements_from_front(before);
        assert(before.skip(1) =~= others.drop_last());
        assert(json::elements_text(elements) =~= elements[0] + seq![44u8] + json::elements_text(
            others,
        ));
    }
}

/// A member of an object as it stands in a text: its key as a JSON string, which may be escaped,
/// its value, and the whitespace around them.
pub struct SpacedMember {
    pub before: Seq<u8>,
    pub key: Seq<char>,
    pub key_text: Seq<u8>,
    pub behind_key: Seq<u8>,
    pub before_value: Seq<u8>,
    pub value: Seq<u8>,
    pub after: Seq<u8>,
}

/// Whether a member is a JSON string, a colon and a JSON value, with whitespace around them.
pub open spec fn is_spaced_member(member: SpacedMember) -> bool {
    &&& is_blank(member.before)
    &&& is_blank(member.behind_key)
    &&& is_blank(member.before_value)
    &&& is_blank(member.after)
    &&& json::is_value(member.key_text)
    &&& member.key_text[0] == 34
    &&& json::string_value(member.key_text) == Some(member.key)
    &&& json::is_value(member.value)
}

/// A member as it stands in a text.
pub open spec fn spaced_member(member: SpacedMember) -> Seq<u8> {
    member.before + member.key_text + member.behind_key + seq![58u8] + member.before_value
        + member.value + member.after
}

/// Members with commas between them.
pub open spec fn spaced_members(members: Seq<SpacedMember>) -> Seq<u8>
    decreases members.len(),
{
    if members.len() == 0 {
        Seq::empty()
    } else if members.len() == 1 {
        spaced_member(members[0])
    } else {
        spaced_member(members[0]) + seq![44u8] + spaced_members(members.skip(1))
    }
}

/// The keys and the values of members.
pub open spec fn member_values(members: Seq<SpacedMember>) -> Seq<MemberView> {
    Seq::new(members.len(), |i: int| (members[i].key, members[i].value))
}

/// Blank bytes in front of a mark end a value.
proof fn lemma_blank_ends_value(blank: Seq<u8>, tail: Seq<u8>)
    requires
        is_blank(blank),
        tail.len() > 0,
        tail[0] == 44 || tail[0] == 58 || tail[0] == 93 || tail[0] == 125,
    ensures
        json::ends_value(blank + tail),
{
    if blank.len() > 0 {
        assert((blank + tail)[0] == blank[0]);
        assert(blank[0] == 32 || blank[0] == 9 || blank[0] == 10 || blank[0] == 13);
    } else {
        assert((blank + tail)[0] == tail[0]);
    }
}

proof fn lemma_spaced_member_at(member: SpacedMember, tail: Seq<u8>)
    requires
        is_spaced_member(member),
        tail.len() > 0,
        tail[0] == 44 || tail[0] == 125,
    ensures
        ({
            let s = json::trim_start(spaced_member(member) + tail);
            &&& object::member_at(s) == Some(((member.key, member.value), tail))
            &&& s.len() > tail.len()
            &&& s[0] == 34
        }),
{
    let rest = member.after + tail;
    let value = member.value + rest;
    let behind_colon = member.before_value + value;
    let colon = seq![58u8] + behind_colon;
    let behind_key = member.behind_key + colon;
    let s = member.key_text + behind_key;
    assert(spaced_member(member) + tail =~= member.before + s);
    assert(s[0] == member.key_text[0]);
    law_whitespace_is_trimmed(member.before, s);
    lemma_blank_ends_value(member.behind_key, colon);
    assert(json::value_end(member.key_text + behind_key) == Some(member.key_text.len()));
    assert(s.take(member.key_text.len() as int) =~= member.key_text);
    assert(s.skip(member.key_text.len() as int) =~= behind_key);
    law_whitespace_is_trimmed(member.behind_key, colon);
    assert(colon.skip(1) =~= behind_colon);
    assert(value[0] == member.value[0]);
    law_whitespace_is_trimmed(member.before_value, value);
    lemma_blank_ends_value(member.after, tail);
    assert(json::value_end(member.value + rest) == Some(member.value.len()));
    assert(value.take(member.value.len() as int) =~= member.value);
    assert(value.skip(member.value.len() as int) =~= rest);
    law_whitespace_is_trimmed(member.after, tail);
}

proof fn lemma_spaced_members(members: Seq<SpacedMember>, after: Seq<u8>)
    requires
        forall|i: int| 0 <= i < members.len() ==> is_spaced_member(#[trigger] members[i]),
        members.len() > 0,
        is_blank(after),
    ensures
        ({
            let s = json::trim_start(spaced_members(members) + seq![125u8] + after);
            &&& object::member_list(s) == Some(member_values(members))
            &&& s.len() > 0
            &&& s[0] == 34
        }),
    decreases members.len(),
{
    let one = members[0];
    let others = members.skip(1);
    let all = spaced_members(members) + seq![125u8] + after;
    let more = spaced_members(others) + seq![125u8] + after;
    let tail = if members.len() == 1 {
        seq![125u8] + after
    } else {
        seq![44u8] + more
    };
    assert(all =~= spaced_member(one) + tail);
    lemma_spaced_member_at(one, tail);
    if members.len() == 1 {
        assert(tail.skip(1) =~= after);
        assert(after =~= after + Seq::<u8>::empty());
        law_whitespace_is_trimmed(after, Seq::empty());
        assert(seq![(one.key, one.value)] =~= member_values(members));
    } else {
        assert(tail.skip(1) =~= more);
        assert forall|i: int| 0 <= i < others.len() implies is_spaced_member(
            #[trigger] others[i],
        ) by {
            assert(others[i] == members[i + 1]);
        }
        lemma_spaced_members(others, after);
        lemma_trimmed_len(more);
        assert(seq![(one.key, one.value)] + member_values(others) =~= member_values(members));
    }
}

/// An object has its members, each with its own key and the text of its own value and in order,
/// whatever whitespace stands around the object, its braces, its keys and its values, and however
/// its keys are escaped.
pub proof fn law_objects_may_be_spaced(
    before: Seq<u8>,
    members: Seq<SpacedMember>,
    inside: Seq<u8>,
    after: Seq<u8>,
)
    requires
        is_blank(before),
        is_blank(inside),
        is_blank(after),
        forall|i: int| 0 <= i < members.len() ==> is_spaced_member(#[trigger] members[i]),
    ensures
        object::object_members(
            before + seq![123u8] + (if members.len() == 0 {
                inside
            } else {
                spaced_members(members)
            }) + seq![125u8] + after,
        ) == Some(member_values(members)),
{
    let contents = if members.len() == 0 {
        inside
    } else {
        spaced_members(members)
    };
    let open = seq![123u8] + (contents + seq![125u8] + after);
    let text = before + seq![123u8] + contents + seq![125u8] + after;
    assert(text =~= before + open);
    law_whitespace_is_trimmed(before, open);
    assert(open.skip(1) =~= contents + seq![125u8] + after);
    if members.len() == 0 {
        let close = seq![125u8] + after;
        assert(open.skip(1) =~= inside + close);
        law_whitespace_is_trimmed(inside, close);
        assert(close.skip(1) =~= after);
        assert(after =~= after + Seq::<u8>::empty());
        law_whitespace_is_trimmed(after, Seq::empty());
        assert(member_values(members) =~= Seq::<MemberView>::empty());
    } else {
        lemma_spaced_members(members, after);
    }
}

/// A document is the value in it, whatever whitespace stands around it.
pub proof fn law_documents_may_be_spaced(before: Seq<u8>, value: Seq<u8>, after: Seq<u8>)
    requires
        is_blank(before),
        is_blank(after),
        json::is_value(value),
    ensures
        object::document_value(before + value + after) == Some(value),
{
    let start = value + after;
    assert(before + value + after =~= before + start);
    assert(start[0] == value[0]);
    law_whitespace_is_trimmed(before, start);
    if after.len() > 0 {
        assert(after[0] == 32 || after[0] == 9 || after[0] == 10 || after[0] == 13);
    }
    assert(json::value_end(value + after) == Some(value.len()));
    assert(start.take(value.len() as int) =~= value);
    assert(start.skip(value.len() as int) =~= after);
    assert(after =~= after + Seq::<u8>::empty());
    law_whitespace_is_trimmed(after, Seq::empty());
}

/// Whether a value that a text starts with is never longer than the text.
pub open spec fn values_fit() -> bool {
    forall|s: Seq<u8>| #[trigger] json::value_end(s) matches Some(end) ==> 0 < end <= s.len()
}

/// What is trimmed is whitespace, and what is left does not begin with any.
proof fn lemma_trimmed(s: Seq<u8>) -> (blank: Seq<u8>)
    ensures
        is_blank(blank),
        s == blank + json::trim_start(s),
        json::trim_start(s).len() > 0 ==> !json::is_space(json::trim_start(s)[0]),
    decreases s.len(),
{
    if s.len() > 0 && json::is_space(s[0]) {
        let rest = lemma_trimmed(s.skip(1));
        let blank = seq![s[0]] + rest;
        assert(s =~= blank + json::trim_start(s)) by {
            assert(s =~= seq![s[0]] + s.skip(1));
        }
        assert forall|i: int| 0 <= i < blank.len() implies #[trigger] blank[i] == 32 || blank[i]
            == 9 || blank[i] == 10 || blank[i] == 13 by {
            if i > 0 {
                assert(blank[i] == rest[i - 1]);
            }
        }
        blank
    } else {
        assert(s =~= Seq::<u8>::empty() + s);
        Seq::empty()
    }
}

/// Whether a member is a quoted key, a colon and a value, with nothing but whitespace around them.
pub open spec fn is_member_shape(member: SpacedMember) -> bool {
    &&& is_blank(member.before)
    &&& is_blank(member.behind_key)
    &&& is_blank(member.before_value)
    &&& is_blank(member.after)
    &&& member.key_text.len() > 0
    &&& member.key_text[0] == 34
    &&& json::string_value(member.key_text) == Some(member.key)
    &&& member.value.len() > 0
}

/// Whether members have that shape.
pub open spec fn are_member_shapes(members: Seq<SpacedMember>) -> bool {
    forall|i: int| 0 <= i < members.len() ==> is_member_shape(#[trigger] members[i])
}

/// The member at the start of a text that has one, and what follows it.
spec fn first_member(s: Seq<u8>) -> (MemberView, Seq<u8>) {
    object::member_at(s)->0
}

proof fn lemma_member_shape(s: Seq<u8>) -> (member: SpacedMember)
    requires
        values_fit(),
        object::member_at(s) is Some,
    ensures
        is_member_shape(member),
        s == spaced_member(member) + first_member(s).1,
        (member.key, member.value) == first_member(s).0,
        first_member(s).1.len() < s.len(),
{
    let end = json::value_end(s)->0 as int;
    let key_text = s.take(end);
    let behind = s.skip(end);
    let behind_key = lemma_trimmed(behind);
    let colon = json::trim_start(behind);
    let before_value = lemma_trimmed(colon.skip(1));
    let value = json::trim_start(colon.skip(1));
    let value_end = json::value_end(value)->0 as int;
    let after = lemma_trimmed(value.skip(value_end));
    let rest = json::trim_start(value.skip(value_end));
    let member = SpacedMember {
        before: Seq::empty(),
        key: object::key_at(s)->0,
        key_text,
        behind_key,
        before_value,
        value: value.take(value_end),
        after,
    };
    assert(s =~= key_text + behind);
    assert(colon =~= seq![58u8] + colon.skip(1));
    assert(value =~= value.take(value_end) + value.skip(value_end));
    assert(s =~= spaced_member(member) + rest);
    assert(key_text[0] == s[0]);
    member
}

proof fn lemma_member_shapes(s: Seq<u8>) -> (shape: (Seq<SpacedMember>, Seq<u8>))
    requires
        values_fit(),
        object::member_list(s) is Some,
    ensures
        shape.0.len() > 0,
        are_member_shapes(shape.0),
        is_blank(shape.1),
        s == spaced_members(shape.0) + seq![125u8] + shape.1,
        member_values(shape.0) == object::member_list(s)->0,
    decreases s.len(),
{
    let first = lemma_member_shape(s);
    let rest = first_member(s).1;
    let behind = rest.skip(1);
    assert(rest =~= seq![rest[0]] + behind);
    let blank = lemma_trimmed(behind);
    let more = json::trim_start(behind);
    if rest[0] == 125 {
        assert(behind =~= blank);
        let all = seq![first];
        assert(spaced_members(all) == spaced_member(first));
        assert(s =~= spaced_members(all) + seq![125u8] + blank);
        assert(member_values(all) =~= seq![(first.key, first.value)]);
        (all, blank)
    } else {
        let (others, after) = lemma_member_shapes(more);
        let second = SpacedMember { before: blank + others[0].before, ..others[0] };
        let moved = others.update(0, second);
        let all = seq![first] + moved;
        assert(is_blank(second.before)) by {
            assert forall|i: int| 0 <= i < second.before.len() implies #[trigger] second.before[i]
                == 32 || second.before[i] == 9 || second.before[i] == 10 || second.before[i]
                == 13 by {
                if i < blank.len() {
                    assert(second.before[i] == blank[i]);
                } else {
                    assert(second.before[i] == others[0].before[i - blank.len()]);
                }
            }
        }
        assert(spaced_member(second) =~= blank + spaced_member(others[0]));
        assert(moved.skip(1) =~= others.skip(1));
        assert(spaced_members(moved) =~= blank + spaced_members(others));
        assert(all.skip(1) =~= moved);
        assert(spaced_members(all) =~= spaced_member(first) + seq![44u8] + spaced_members(moved));
        assert(s =~= spaced_members(all) + seq![125u8] + after);
        assert forall|i: int| 0 <= i < all.len() implies is_member_shape(#[trigger] all[i]) by {
            if i > 1 {
                assert(all[i] == others[i - 1]);
            }
        }
        assert(member_values(moved) =~= member_values(others));
        assert(member_values(all) =~= seq![(first.key, first.value)] + member_values(others));
        (all, after)
    }
}

/// Whether a text is an object with the given members: braces around members of the right shape
/// with commas between them, and nothing but whitespace anywhere else.
pub open spec fn is_object_shape(
    text: Seq<u8>,
    before: Seq<u8>,
    members: Seq<SpacedMember>,
    inside: Seq<u8>,
    after: Seq<u8>,
) -> bool {
    &&& is_blank(before)
    &&& is_blank(inside)
    &&& is_blank(after)
    &&& are_member_shapes(members)
    &&& text == before + seq![123u8] + (if members.len() == 0 {
        inside
    } else {
        spaced_members(members)
    }) + seq![125u8] + after
}

/// What is taken for an object is one: braces around quoted keys, colons and values, with commas
/// between the members and none behind the last, and nothing but whitespace anywhere else.
pub proof fn law_objects_are_well_formed(text: Seq<u8>, members: Seq<MemberView>)
    ensures
        values_fit() && object::object_members(text) == Some(members) ==> exists|
            before: Seq<u8>,
            spaced: Seq<SpacedMember>,
            inside: Seq<u8>,
            after: Seq<u8>,
        | #[trigger]
            is_object_shape(text, before, spaced, inside, after) && member_values(spaced)
                == members,
{
    if values_fit() && object::object_members(text) == Some(members) {
        let none = Seq::<u8>::empty();
        let before = lemma_trimmed(text);
        let open = json::trim_start(text);
        let behind = open.skip(1);
        assert(open =~= seq![123u8] + behind);
        let inside = lemma_trimmed(behind);
        let first = json::trim_start(behind);
        if first.len() > 0 && first[0] == 125 {
            let after = lemma_trimmed(first.skip(1));
            assert(first =~= seq![125u8] + first.skip(1));
            assert(first.skip(1) =~= after);
            let spaced = Seq::<SpacedMember>::empty();
            assert(text =~= before + seq![123u8] + inside + seq![125u8] + after);
            assert(is_object_shape(text, before, spaced, inside, after));
            assert(member_values(spaced) =~= members);
        } else {
            let (found, after) = lemma_member_shapes(first);
            let second = SpacedMember { before: inside + found[0].before, ..found[0] };
            let spaced = found.update(0, second);
            assert(is_blank(second.before)) by {
                assert forall|i: int| 0 <= i < second.before.len() implies #[trigger]
                    second.before[i] == 32 || second.before[i] == 9 || second.before[i] == 10
                    || second.before[i] == 13 by {
                    if i < inside.len() {
                        assert(second.before[i] == inside[i]);
                    } else {
                        assert(second.before[i] == found[0].before[i - inside.len()]);
                    }
                }
            }
            assert(spaced_member(second) =~= inside + spaced_member(found[0]));
            assert(spaced.skip(1) =~= found.skip(1));
            assert(spaced_members(spaced) =~= inside + spaced_members(found));
            assert(text =~= before + seq![123u8] + spaced_members(spaced) + seq![125u8] + after);
            assert(is_object_shape(text, before, spaced, none, after));
            assert(member_values(spaced) =~= member_values(found));
        }
    }
}

/// Whether elements are texts that are not empty, with nothing but whitespace around them.
pub open spec fn are_element_shapes(elements: Seq<SpacedElement>) -> bool {
    forall|i: int|
        0 <= i < elements.len() ==> {
            &&& is_blank((#[trigger] elements[i]).before)
            &&& is_blank(elements[i].after)
            &&& elements[i].value.len() > 0
        }
}

/// Two rows of whitespace are one.
proof fn lemma_blank_row(first: Seq<u8>, second: Seq<u8>)
    requires
        is_blank(first),
        is_blank(second),
    ensures
        is_blank(first + second),
{
    let all = first + second;
    assert forall|i: int| 0 <= i < all.len() implies #[trigger] all[i] == 32 || all[i] == 9
        || all[i] == 10 || all[i] == 13 by {
        if i < first.len() {
            assert(all[i] == first[i]);
        } else {
            assert(all[i] == second[i - first.len()]);
        }
    }
}

/// Elements with more whitespace in front of the first.
proof fn lemma_moved(blank: Seq<u8>, elements: Seq<SpacedElement>) -> (moved: Seq<SpacedElement>)
    requires
        is_blank(blank),
        elements.len() > 0,
        are_element_shapes(elements),
    ensures
        moved.len() == elements.len(),
        are_element_shapes(moved),
        spaced_elements(moved) == blank + spaced_elements(elements),
        element_values(moved) == element_values(elements),
{
    let first = SpacedElement { before: blank + elements[0].before, ..elements[0] };
    let moved = elements.update(0, first);
    lemma_blank_row(blank, elements[0].before);
    assert(first.before + first.value + first.after =~= blank + (elements[0].before
        + elements[0].value + elements[0].after));
    assert(moved.skip(1) =~= elements.skip(1));
    assert(spaced_elements(moved) =~= blank + spaced_elements(elements));
    assert(element_values(moved) =~= element_values(elements));
    assert forall|i: int| 0 <= i < moved.len() implies {
        &&& is_blank((#[trigger] moved[i]).before)
        &&& is_blank(moved[i].after)
        &&& moved[i].value.len() > 0
    } by {
        assert(i > 0 ==> moved[i] == elements[i]);
    }
    moved
}

proof fn lemma_element_shapes(s: Seq<u8>) -> (shape: (Seq<SpacedElement>, Seq<u8>))
    requires
        values_fit(),
        json::element_list(s) is Some,
    ensures
        shape.0.len() > 0,
        are_element_shapes(shape.0),
        is_blank(shape.1),
        s == spaced_elements(shape.0) + seq![93u8] + shape.1,
        element_values(shape.0) == json::element_list(s)->0,
    decreases s.len(),
{
    let end = json::value_end(s)->0 as int;
    let behind = s.skip(end);
    let after_value = lemma_trimmed(behind);
    let rest = json::trim_start(behind);
    let first = SpacedElement { before: Seq::empty(), value: s.take(end), after: after_value };
    assert(s =~= s.take(end) + behind);
    assert(rest =~= seq![rest[0]] + rest.skip(1));
    let blank = lemma_trimmed(rest.skip(1));
    let more = json::trim_start(rest.skip(1));
    assert(first.before + first.value + first.after =~= s.take(end) + after_value);
    if rest[0] == 93 {
        assert(rest.skip(1) =~= blank);
        let all = seq![first];
        assert(s =~= spaced_elements(all) + seq![93u8] + blank);
        assert(element_values(all) =~= seq![first.value]);
        (all, blank)
    } else {
        let (others, after) = lemma_element_shapes(more);
        let moved = lemma_moved(blank, others);
        let all = seq![first] + moved;
        assert(all.skip(1) =~= moved);
        assert(spaced_elements(all) =~= s.take(end) + after_value + seq![44u8] + spaced_elements(
            moved,
        ));
        assert(s =~= spaced_elements(all) + seq![93u8] + after);
        assert forall|i: int| 0 <= i < all.len() implies {
            &&& is_blank((#[trigger] all[i]).before)
            &&& is_blank(all[i].after)
            &&& all[i].value.len() > 0
        } by {
            if i > 0 {
                assert(all[i] == moved[i - 1]);
            }
        }
        assert(element_values(all) =~= seq![first.value] + element_values(moved));
        (all, after)
    }
}

/// Whether a text is an array with the given elements: brackets around elements with commas between
/// them, and nothing but whitespace anywhere else.
pub open spec fn is_array_shape(
    text: Seq<u8>,
    before: Seq<u8>,
    elements: Seq<SpacedElement>,
    inside: Seq<u8>,
    after: Seq<u8>,
) -> bool {
    &&& is_blank(before)
    &&& is_blank(inside)
    &&& is_blank(after)
    &&& are_element_shapes(elements)
    &&& text == before + seq![91u8] + (if elements.len() == 0 {
        inside
    } else {
        spaced_elements(elements)
    }) + seq![93u8] + after
}

/// What is taken for an array is one: brackets around elements, with commas between them and none
/// behind the last, and nothing but whitespace anywhere else.
pub proof fn law_arrays_are_well_formed(text: Seq<u8>, elements: Seq<Seq<u8>>)
    ensures
        values_fit() && json::array_items(text) == Some(elements) ==> exists|
            before: Seq<u8>,
            spaced: Seq<SpacedElement>,
            inside: Seq<u8>,
            after: Seq<u8>,
        | #[trigger]
            is_array_shape(text, before, spaced, inside, after) && element_values(spaced)
                == elements,
{
    if values_fit() && json::array_items(text) == Some(elements) {
        let none = Seq::<u8>::empty();
        let before = lemma_trimmed(text);
        let open = json::trim_start(text);
        let behind = open.skip(1);
        assert(open =~= seq![91u8] + behind);
        let inside = lemma_trimmed(behind);
        let first = json::trim_start(behind);
        if first.len() > 0 && first[0] == 93 {
            let after = lemma_trimmed(first.skip(1));
            assert(first =~= seq![93u8] + first.skip(1));
            assert(first.skip(1) =~= after);
            let spaced = Seq::<SpacedElement>::empty();
            assert(text =~= before + seq![91u8] + inside + seq![93u8] + after);
            assert(is_array_shape(text, before, spaced, inside, after));
            assert(element_values(spaced) =~= elements);
        } else {
            let (found, after) = lemma_element_shapes(first);
            let spaced = lemma_moved(inside, found);
            assert(text =~= before + seq![91u8] + spaced_elements(spaced) + seq![93u8] + after);
            assert(is_array_shape(text, before, spaced, none, after));
        }
    }
}

/// What is taken for the value of a document is all of it, but for whitespace around it.
pub proof fn law_documents_are_well_formed(text: Seq<u8>, value: Seq<u8>)
    ensures
        values_fit() && object::document_value(text) == Some(value) ==> value.len() > 0 && exists|
            before: Seq<u8>,
            after: Seq<u8>,
        |
            is_blank(before) && is_blank(after) && text == #[trigger] (before + value + after),
{
    if values_fit() && object::document_value(text) == Some(value) {
        let before = lemma_trimmed(text);
        let start = json::trim_start(text);
        let end = json::value_end(start)->0 as int;
        let after = lemma_trimmed(start.skip(end));
        assert(start.skip(end) =~= after);
        assert(start =~= value + after);
        assert(text =~= before + value + after);
    }
}

/// The elements of an array are handed out exactly if each of them is UTF-8.
pub proof fn law_elements_are_utf8(text: Seq<u8>, elements: Seq<Seq<u8>>)
    ensures
        json::array_elements(text) == Ok::<Seq<Seq<u8>>, Seq<char>>(elements) <==> {
            &&& json::array_items(text) == Some(elements)
            &&& forall|i: int|
                0 <= i < elements.len() ==> valid_utf8(#[trigger] elements[i])
        },
        json::are_utf8(elements) <==> forall|i: int|
            0 <= i < elements.len() ==> valid_utf8(#[trigger] elements[i]),
{
}

/// Whitespace behind a text that does not end with any is what is trimmed there.
pub proof fn law_whitespace_behind_is_trimmed(text: Seq<u8>, blank: Seq<u8>)
    requires
        is_blank(blank),
        text.len() > 0 ==> !(text.last() == 32 || text.last() == 9 || text.last() == 10
            || text.last() == 13),
    ensures
        json::trim_end(text + blank) == text,
    decreases blank.len(),
{
    let all = text + blank;
    if blank.len() == 0 {
        assert(all =~= text);
    } else {
        let rest = blank.drop_last();
        let last = blank[blank.len() - 1];
        assert(last == 32 || last == 9 || last == 10 || last == 13);
        assert(all.last() == last);
        assert forall|i: int| 0 <= i < rest.len() implies #[trigger] rest[i] == 32 || rest[i] == 9
            || rest[i] == 10 || rest[i] == 13 by {
            assert(rest[i] == blank[i]);
        }
        assert(all.drop_last() =~= text + rest);
        law_whitespace_behind_is_trimmed(text, rest);
    }
}

} // verus!
