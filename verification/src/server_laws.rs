//! What holds of every message that a server answers.

use crate::json;
use crate::json::JsonError;
use crate::json::JsonRawValue;
use crate::numeral;
use crate::protocol;
use crate::protocol::Error;
use crate::protocol::IdView;
use crate::protocol::RequestView;
use crate::protocol::ResponseView;
use crate::server;
use crate::server::EntryView;
use crate::server::OutcomeView;
use crate::server::OutputView;
use crate::server::PlanView;
use crate::server::Progress;
use vstd::prelude::*;

verus! {

/// The id under which an entry is answered, if it is.
pub open spec fn entry_id(entry: EntryView) -> Option<IdView> {
    match entry {
        EntryView::Answer(response) => Some(response.id),
        EntryView::Silent => None,
        EntryView::Call(request) => request.id,
    }
}

/// The ids under which answers are owed, in order.
pub open spec fn owed(entries: Seq<EntryView>) -> Seq<IdView>
    decreases entries.len(),
{
    if entries.len() == 0 {
        Seq::empty()
    } else {
        match entry_id(entries.last()) {
            Some(id) => owed(entries.drop_last()).push(id),
            None => owed(entries.drop_last()),
        }
    }
}

/// The ids of responses.
pub open spec fn ids(responses: Seq<ResponseView>) -> Seq<IdView> {
    Seq::new(responses.len(), |i: int| responses[i].id)
}

/// Every request is answered under its own id and in its place, whatever its handler came to,
/// and a notification is not answered.
pub proof fn law_answers_carry_request_ids(entries: Seq<EntryView>, outcomes: Seq<OutcomeView>)
    ensures
        ids(server::answers(entries, outcomes)) == owed(entries),
    decreases entries.len(),
{
    if entries.len() == 0 {
        assert(ids(server::answers(entries, outcomes)) =~= owed(entries));
    } else {
        law_answers_carry_request_ids(entries.drop_last(), outcomes);
        assert(ids(server::answers(entries, outcomes)) =~= owed(entries));
    }
}

/// Whether the answers that a plan holds already have exactly one of a result and an error.
pub open spec fn is_valid_plan(plan: PlanView) -> bool {
    forall|i: int|
        0 <= i < plan.entries.len() ==> ((#[trigger] plan.entries[i]) matches EntryView::Answer(
            response,
        ) ==> protocol::is_valid_response(response))
}

proof fn lemma_answers_are_valid(plan: PlanView, n: int, outcomes: Seq<OutcomeView>)
    requires
        is_valid_plan(plan),
        0 <= n <= plan.entries.len(),
    ensures
        forall|i: int|
            0 <= i < server::answers(plan.entries.take(n), outcomes).len()
                ==> protocol::is_valid_response(
                #[trigger] server::answers(plan.entries.take(n), outcomes)[i],
            ),
    decreases n,
{
    if n > 0 {
        assert(plan.entries.take(n).drop_last() =~= plan.entries.take(n - 1));
        assert(plan.entries.take(n).last() == plan.entries[n - 1]);
        lemma_answers_are_valid(plan, n - 1, outcomes);
        let before = server::answers(plan.entries.take(n - 1), outcomes);
        let all = server::answers(plan.entries.take(n), outcomes);
        assert forall|i: int| 0 <= i < all.len() implies protocol::is_valid_response(
            #[trigger] all[i],
        ) by {
            if i < before.len() {
                assert(all[i] == before[i]);
            }
        }
    }
}

/// Every answer to a message has exactly one of a result and an error.
pub proof fn law_answers_are_valid(
    text: Seq<u8>,
    known: Set<Seq<char>>,
    limit: Option<usize>,
    outcomes: Seq<OutcomeView>,
)
    ensures
        ({
            let entries = server::message_plan(text, known, limit).entries;
            forall|i: int|
                0 <= i < server::answers(entries, outcomes).len() ==> protocol::is_valid_response(
                    #[trigger] server::answers(entries, outcomes)[i],
                )
        }),
{
    let plan = server::message_plan(text, known, limit);
    assert(is_valid_plan(plan));
    assert(plan.entries.take(plan.entries.len() as int) =~= plan.entries);
    lemma_answers_are_valid(plan, plan.entries.len() as int, outcomes);
}

/// A batch of answers is never empty: where nothing is owed, nothing is sent, and where
/// something is owed, something is.
pub proof fn law_silence(plan: PlanView, outcomes: Seq<OutcomeView>)
    ensures
        server::plan_output(plan, outcomes) == OutputView::Empty <==> owed(plan.entries).len() == 0,
        server::plan_output(plan, outcomes) matches OutputView::Batch(answers) ==> answers.len()
            > 0,
{
    law_answers_carry_request_ids(plan.entries, outcomes);
    assert(ids(server::answers(plan.entries, outcomes)).len() == server::answers(
        plan.entries,
        outcomes,
    ).len());
}

proof fn lemma_calls_are_known(entries: Seq<EntryView>, known: Set<Seq<char>>)
    requires
        forall|i: int|
            0 <= i < entries.len() ==> ((#[trigger] entries[i]) matches EntryView::Call(request)
                ==> known.contains(request.method)),
    ensures
        forall|i: int|
            0 <= i < server::calls(entries).len() ==> known.contains(
                (#[trigger] server::calls(entries)[i]).method,
            ),
    decreases entries.len(),
{
    if entries.len() > 0 {
        lemma_calls_are_known(entries.drop_last(), known);
    }
}

/// Only handlers of registered methods are run.
pub proof fn law_calls_are_registered(
    text: Seq<u8>,
    known: Set<Seq<char>>,
    limit: Option<usize>,
)
    ensures
        ({
            let calls = server::calls(server::message_plan(text, known, limit).entries);
            forall|i: int| 0 <= i < calls.len() ==> known.contains((#[trigger] calls[i]).method)
        }),
{
    let entries = server::message_plan(text, known, limit).entries;
    assert forall|i: int| 0 <= i < entries.len() implies ((#[trigger] entries[i]) matches
        EntryView::Call(request) ==> known.contains(request.method)) by {}
    lemma_calls_are_known(entries, known);
}

/// A batch that is longer than allowed runs no handler, and is answered by one Invalid Request
/// error under a null id. A batch within the limit is processed as if there were none.
pub proof fn law_batch_limit(
    text: Seq<u8>,
    elements: Seq<Seq<u8>>,
    known: Set<Seq<char>>,
    max: usize,
    outcomes: Seq<OutcomeView>,
)
    requires
        server::first_byte(text) == Some(91u8),
        elements.len() > 0,
    ensures
        json::array_elements(text) == Ok::<Seq<Seq<u8>>, Seq<char>>(elements) ==> ({
            let plan = server::message_plan(text, known, Some(max));
            if elements.len() > max {
                &&& server::calls(plan.entries).len() == 0
                &&& server::plan_output(plan, outcomes) matches OutputView::Single(response)
                &&& response.id == IdView::Null
                &&& response.result is None
                &&& response.error matches Some(error)
                &&& error.code == -32600
            } else {
                plan == server::message_plan(text, known, None)
            }
        }),
{
    let plan = server::message_plan(text, known, Some(max));
    if json::array_elements(text) == Ok::<Seq<Seq<u8>>, Seq<char>>(elements) && elements.len()
        > max {
        assert(plan.entries.drop_last() =~= Seq::<EntryView>::empty());
        reveal_with_fuel(server::answers, 2);
        reveal_with_fuel(server::calls, 2);
    }
}

/// A single request is not subject to the limit on batches.
pub proof fn law_limit_spares_single_requests(
    text: Seq<u8>,
    known: Set<Seq<char>>,
    limit: Option<usize>,
)
    requires
        server::first_byte(text) != Some(91u8),
    ensures
        server::message_plan(text, known, limit) == server::message_plan(text, known, None),
{
}

/// Whether a text that is not blank is neither a request nor a batch.
pub open spec fn is_unreadable(text: Seq<u8>) -> bool {
    &&& server::first_byte(text) is Some
    &&& server::first_byte(text) == Some(91u8) ==> json::array_elements(text) is Err
    &&& server::first_byte(text) == Some(123u8) ==> protocol::request_of(text) is None
}

/// Whether a text is an empty batch.
pub open spec fn is_empty_batch(text: Seq<u8>) -> bool {
    server::first_byte(text) == Some(91u8) && json::array_elements(text) == Ok::<
        Seq<Seq<u8>>,
        Seq<char>,
    >(Seq::empty())
}

/// A text that is not a request and not a batch gets one error under a null id: a Parse error
/// where it is not JSON, as a blank one is not, and an Invalid Request error where it is.
pub proof fn law_unreadable_messages(
    text: Seq<u8>,
    known: Set<Seq<char>>,
    limit: Option<usize>,
    outcomes: Seq<OutcomeView>,
)
    ensures
        is_unreadable(text) || server::first_byte(text) is None ==> ({
            let plan = server::message_plan(text, known, limit);
            &&& server::calls(plan.entries).len() == 0
            &&& server::plan_output(plan, outcomes) == OutputView::Single(
                protocol::error_response(
                    IdView::Null,
                    if server::first_byte(text) is None {
                        server::parse_error()
                    } else {
                        server::unreadable(text)
                    },
                ),
            )
        }),
{
    if is_unreadable(text) || server::first_byte(text) is None {
        let plan = server::message_plan(text, known, limit);
        assert(plan.entries.drop_last() =~= Seq::<EntryView>::empty());
        reveal_with_fuel(server::answers, 2);
        reveal_with_fuel(server::calls, 2);
    }
}

/// An empty batch gets one Invalid Request error under a null id.
pub proof fn law_empty_batches(
    text: Seq<u8>,
    known: Set<Seq<char>>,
    limit: Option<usize>,
    outcomes: Seq<OutcomeView>,
)
    ensures
        is_empty_batch(text) ==> ({
            let plan = server::message_plan(text, known, limit);
            &&& server::calls(plan.entries).len() == 0
            &&& server::plan_output(plan, outcomes) == OutputView::Single(
                protocol::error_response(IdView::Null, server::invalid_request()),
            )
        }),
{
    if is_empty_batch(text) {
        let plan = server::message_plan(text, known, limit);
        assert(plan.entries.drop_last() =~= Seq::<EntryView>::empty());
        reveal_with_fuel(server::answers, 2);
        reveal_with_fuel(server::calls, 2);
    }
}

/// An element of a batch that is not an object is no request: it is answered with an Invalid
/// Request error under a null id.
pub proof fn law_elements_are_objects(text: Seq<u8>, known: Set<Seq<char>>)
    requires
        json::trim_start(text).len() == 0 || json::trim_start(text)[0] != 123,
    ensures
        server::element_entry(text, known) == server::refusal(server::invalid_request()),
{
}

/// Whether the first byte of a text that is not a space, a tab, a line feed, a form feed or a
/// carriage return is the one at a place.
pub open spec fn begins_at(text: Seq<u8>, at: int) -> bool {
    &&& 0 <= at < text.len()
    &&& !(text[at] == 32 || text[at] == 9 || text[at] == 10 || text[at] == 12 || text[at] == 13)
    &&& forall|i: int|
        0 <= i < at ==> #[trigger] text[i] == 32 || text[i] == 9 || text[i] == 10 || text[i] == 12
            || text[i] == 13
}

/// The form of a message is told by its first byte that is not whitespace, wherever it stands.
pub proof fn law_first_byte(text: Seq<u8>, at: int)
    requires
        begins_at(text, at),
    ensures
        server::first_byte(text) == Some(text[at]),
    decreases text.len(),
{
    if at > 0 {
        assert(text[0] == 32 || text[0] == 9 || text[0] == 10 || text[0] == 12 || text[0] == 13);
        let rest = text.skip(1);
        assert forall|i: int| 0 <= i < at - 1 implies #[trigger] rest[i] == 32 || rest[i] == 9
            || rest[i] == 10 || rest[i] == 12 || rest[i] == 13 by {
            assert(rest[i] == text[i + 1]);
        }
        law_first_byte(rest, at - 1);
    }
}

/// A text of nothing but whitespace has no first byte.
pub proof fn law_blank_texts(text: Seq<u8>)
    requires
        forall|i: int|
            0 <= i < text.len() ==> #[trigger] text[i] == 32 || text[i] == 9 || text[i] == 10
                || text[i] == 12 || text[i] == 13,
    ensures
        server::first_byte(text) is None,
    decreases text.len(),
{
    if text.len() > 0 {
        assert(text[0] == 32 || text[0] == 9 || text[0] == 10 || text[0] == 12 || text[0] == 13);
        let rest = text.skip(1);
        assert forall|i: int| 0 <= i < rest.len() implies #[trigger] rest[i] == 32 || rest[i] == 9
            || rest[i] == 10 || rest[i] == 12 || rest[i] == 13 by {
            assert(rest[i] == text[i + 1]);
        }
        law_blank_texts(rest);
    }
}

/// Whether an entry is answered with an error, without a handler.
pub open spec fn is_answered(
    entry: EntryView,
    id: IdView,
    code: int,
    message: Seq<char>,
    data: Option<Seq<u8>>,
) -> bool {
    &&& entry matches EntryView::Answer(response)
    &&& response.id == id
    &&& response.result is None
    &&& response.error matches Some(error)
    &&& error.code == code
    &&& error.message == message
    &&& error.data == data
}

/// Whether an entry does for a request what is to be done: the handler of a registered method is
/// run with exactly that request, whatever its params and its id are; a call of any other method is
/// answered under its id; any other notification is dropped.
pub open spec fn serves_request(
    entry: EntryView,
    request: RequestView,
    known: Set<Seq<char>>,
) -> bool {
    if known.contains(request.method) {
        entry == EntryView::Call(request)
    } else {
        match request.id {
            Some(id) => is_answered(entry, id, -32601, "Method not found"@, None),
            None => entry == EntryView::Silent,
        }
    }
}

/// An object that is a request is served as that request.
pub proof fn law_single_requests(
    text: Seq<u8>,
    at: int,
    request: RequestView,
    known: Set<Seq<char>>,
    limit: Option<usize>,
)
    requires
        begins_at(text, at),
        text[at] == 123,
    ensures
        protocol::request_of(text) == Some(request) ==> {
            let plan = server::message_plan(text, known, limit);
            &&& !plan.batch
            &&& plan.entries.len() == 1
            &&& serves_request(plan.entries[0], request, known)
        },
{
    law_first_byte(text, at);
}

/// An element of a batch is served as the same request is that is sent alone; any other element is
/// answered with an Invalid Request error under a null id.
pub proof fn law_elements_are_requests(text: Seq<u8>, known: Set<Seq<char>>)
    ensures
        match protocol::request_of(text) {
            Some(request) => {
                &&& server::element_entry(text, known) == server::request_entry(request, known)
                &&& serves_request(server::element_entry(text, known), request, known)
            },
            None => is_answered(
                server::element_entry(text, known),
                IdView::Null,
                -32600,
                "Invalid Request"@,
                None,
            ),
        },
{
}

/// A text that stands for an object begins with a brace.
proof fn lemma_object_first_byte(text: Seq<u8>)
    requires
        json::trim_start(text).len() > 0,
        json::trim_start(text)[0] == 123,
    ensures
        server::first_byte(text) == Some(123u8),
    decreases text.len(),
{
    if text.len() > 0 && json::is_space(text[0]) {
        lemma_object_first_byte(text.skip(1));
    }
}

/// A batch within the limit has one entry for each element, in order, and does for each element
/// that is a request what is done for it when it is sent alone. Every other element is answered
/// with an Invalid Request error under a null id.
pub proof fn law_batches_serve_each_element(
    text: Seq<u8>,
    at: int,
    elements: Seq<Seq<u8>>,
    known: Set<Seq<char>>,
    limit: Option<usize>,
    other: Option<usize>,
)
    requires
        begins_at(text, at),
        text[at] == 91,
        elements.len() > 0,
        limit matches Some(max) ==> elements.len() <= max,
    ensures
        json::array_items(text) == Some(elements) && json::are_utf8(elements) ==> {
            let plan = server::message_plan(text, known, limit);
            &&& plan.batch
            &&& plan.entries.len() == elements.len()
            &&& forall|i: int|
                #![trigger plan.entries[i]]
                #![trigger elements[i]]
                0 <= i < elements.len() ==> match protocol::request_of(elements[i]) {
                    Some(request) => {
                        &&& serves_request(plan.entries[i], request, known)
                        &&& server::message_plan(elements[i], known, other) == (PlanView {
                            batch: false,
                            entries: seq![plan.entries[i]],
                        })
                    },
                    None => is_answered(
                        plan.entries[i],
                        IdView::Null,
                        -32600,
                        "Invalid Request"@,
                        None,
                    ),
                }
        },
{
    law_first_byte(text, at);
    if json::array_items(text) == Some(elements) && json::are_utf8(elements) {
        let plan = server::message_plan(text, known, limit);
        assert forall|i: int|
            #![trigger plan.entries[i]]
            #![trigger elements[i]]
            0 <= i < elements.len() && protocol::request_of(
                elements[i],
            ) is Some implies server::message_plan(elements[i], known, other) == (PlanView {
            batch: false,
            entries: seq![plan.entries[i]],
        }) by {
            lemma_object_first_byte(elements[i]);
            assert(seq![plan.entries[i]] =~= server::message_plan(
                elements[i],
                known,
                other,
            ).entries);
        }
    }
}

/// Whether a message is answered by one error as a whole, without a handler.
pub open spec fn is_refused(
    plan: PlanView,
    code: int,
    message: Seq<char>,
    data: Option<Seq<u8>>,
) -> bool {
    &&& !plan.batch
    &&& plan.entries.len() == 1
    &&& is_answered(plan.entries[0], IdView::Null, code, message, data)
}

/// A message that is blank, or not JSON, gets a Parse error under a null id; one that is JSON but
/// neither a request nor a batch, and a batch without elements, an Invalid Request error.
pub proof fn law_refusals(text: Seq<u8>, known: Set<Seq<char>>, limit: Option<usize>)
    ensures
        ({
            let plan = server::message_plan(text, known, limit);
            let json = json::document_refusal(text) is None;
            match server::first_byte(text) {
                None => is_refused(plan, -32700, "Parse error"@, None),
                Some(first) => {
                    &&& first != 91 && first != 123 || first == 123 && protocol::request_of(
                        text,
                    ) is None || first == 91 && !(json::array_items(text) is Some && json::are_utf8(
                        json::array_items(text)->0,
                    )) ==> if json {
                        is_refused(plan, -32600, "Invalid Request"@, None)
                    } else {
                        is_refused(plan, -32700, "Parse error"@, None)
                    }
                    &&& first == 91 && json::array_items(text) == Some(Seq::<Seq<u8>>::empty())
                        ==> is_refused(plan, -32600, "Invalid Request"@, None)
                },
            }
        }),
{
}

/// A batch that is longer than allowed is refused as a whole, with an Invalid Request error that
/// says how long it is and what is allowed.
pub proof fn law_long_batches(
    text: Seq<u8>,
    at: int,
    elements: Seq<Seq<u8>>,
    known: Set<Seq<char>>,
    max: usize,
)
    requires
        begins_at(text, at),
        text[at] == 91,
        elements.len() > max,
    ensures
        json::array_items(text) == Some(elements) && json::are_utf8(elements) ==> is_refused(
            server::message_plan(text, known, Some(max)),
            -32600,
            "Invalid Request"@,
            Some(
                json::string_text(
                    "batch of "@ + numeral::decimal(elements.len() as int)
                        + " entries exceeds maximum of "@ + numeral::decimal(max as int),
                ),
            ),
        ),
{
    law_first_byte(text, at);
}

/// The handlers of entries in a row are run in their order: those of the first entries, then those
/// of the others. An entry that is a call is one run of its handler, with its request; any other
/// entry is none.
pub proof fn law_calls_add_up(first: Seq<EntryView>, others: Seq<EntryView>, entry: EntryView)
    ensures
        server::calls(first + others) == server::calls(first) + server::calls(others),
        server::calls(seq![entry]) == match entry {
            EntryView::Call(request) => seq![request],
            _ => Seq::empty(),
        },
    decreases others.len(),
{
    reveal_with_fuel(server::calls, 2);
    assert(seq![entry].drop_last() =~= Seq::<EntryView>::empty());
    assert(server::calls(seq![entry]) =~= match entry {
        EntryView::Call(request) => seq![request],
        _ => Seq::empty(),
    });
    if others.len() == 0 {
        assert(first + others =~= first);
        assert(server::calls(first + others) =~= server::calls(first) + server::calls(others));
    } else {
        law_calls_add_up(first, others.drop_last(), entry);
        assert((first + others).drop_last() =~= first + others.drop_last());
        assert(server::calls(first + others) =~= server::calls(first) + server::calls(others));
    }
}

/// The answers to entries in a row stand in their order, each made of its own handler's outcome:
/// those to the first entries, then those to the others.
pub proof fn law_answers_add_up(
    first: Seq<EntryView>,
    others: Seq<EntryView>,
    outcomes: Seq<OutcomeView>,
    more: Seq<OutcomeView>,
)
    requires
        server::calls(first).len() == outcomes.len(),
        server::calls(others).len() <= more.len(),
    ensures
        server::answers(first + others, outcomes + more) == server::answers(first, outcomes)
            + server::answers(others, more),
    decreases others.len(),
{
    if others.len() == 0 {
        assert(first + others =~= first);
        lemma_answers_of_own_calls(first, outcomes, more);
        assert(server::answers(first + others, outcomes + more) =~= server::answers(first, outcomes)
            + server::answers(others, more));
    } else {
        let before = others.drop_last();
        law_calls_add_up(first, before, others.last());
        law_calls_add_up(before, seq![others.last()], others.last());
        assert(before + seq![others.last()] =~= others);
        law_answers_add_up(first, before, outcomes, more);
        assert((first + others).drop_last() =~= first + before);
        assert(server::answers(first + others, outcomes + more) =~= server::answers(first, outcomes)
            + server::answers(others, more));
    }
}

/// Answers are made of the outcomes of their own handlers alone.
proof fn lemma_answers_of_own_calls(
    entries: Seq<EntryView>,
    outcomes: Seq<OutcomeView>,
    more: Seq<OutcomeView>,
)
    requires
        server::calls(entries).len() <= outcomes.len(),
    ensures
        server::answers(entries, outcomes + more) == server::answers(entries, outcomes),
    decreases entries.len(),
{
    if entries.len() > 0 {
        lemma_answers_of_own_calls(entries.drop_last(), outcomes, more);
    }
}

/// A call is answered under its own id with the result or the error that its handler came to; a
/// notification is not answered, whatever its handler came to; what needs no handler is answered as
/// it is.
pub proof fn law_answers_hold_outcomes(entry: EntryView, outcome: OutcomeView)
    ensures
        server::answers(seq![entry], seq![outcome]) == match entry {
            EntryView::Call(request) => match (request.id, outcome) {
                (None, _) => Seq::empty(),
                (Some(id), Ok(result)) => seq![
                    ResponseView { result: Some(result), error: None, id },
                ],
                (Some(id), Err(error)) => seq![
                    ResponseView { result: None, error: Some(error), id },
                ],
            },
            EntryView::Answer(response) => seq![response],
            EntryView::Silent => Seq::empty(),
        },
{
    reveal_with_fuel(server::answers, 2);
    reveal_with_fuel(server::calls, 2);
    assert(seq![entry].drop_last() =~= Seq::<EntryView>::empty());
    assert(Seq::<ResponseView>::empty() + Seq::<ResponseView>::empty() =~= Seq::empty());
    match entry {
        EntryView::Call(request) => {
            let one = server::answer(request, outcome);
            assert(Seq::<ResponseView>::empty() + one =~= one);
        },
        EntryView::Answer(response) => {
            assert(Seq::<ResponseView>::empty() + seq![response] =~= seq![response]);
        },
        EntryView::Silent => {},
    }
}

/// All answers to a batch are sent, as an array; the answer to a single request is sent as it is;
/// if there are no answers, nothing is sent.
pub proof fn law_answers_are_sent(plan: PlanView, outcomes: Seq<OutcomeView>)
    ensures
        ({
            let answers = server::answers(plan.entries, outcomes);
            server::plan_output(plan, outcomes) == if answers.len() == 0 {
                OutputView::Empty
            } else if plan.batch {
                OutputView::Batch(answers)
            } else {
                OutputView::Single(answers[0])
            }
        }),
{
}

/// Processing begins with the first handler of a message, before any has been run, and with a
/// message that has none it ends at once, with the message's output.
pub proof fn law_processing_starts(progress: Progress, plan: PlanView)
    ensures
        server::starts(progress, plan) <==> match progress {
            Progress::Done(output) => server::calls(plan.entries).len() == 0 && output@
                == server::plan_output(plan, Seq::empty()),
            Progress::Invoke(next) => next.plan() == plan && next.outcomes().len() == 0,
        },
{
    if let Progress::Invoke(next) = progress {
        if next.outcomes().len() == 0 {
            assert(next.outcomes() =~= Seq::<OutcomeView>::empty());
        }
    }
}

/// What a handler returned is its outcome. A value that could not be serialized is an internal
/// error with the message of the failure for its data.
pub proof fn law_handlers_come_to(returned: Result<Result<JsonRawValue, JsonError>, Error>)
    ensures
        match (returned, server::handled_view(returned)) {
            (Ok(Ok(value)), Ok(result)) => result == value@,
            (Ok(Err(failure)), Err(error)) => error.code == -32603 && error.message
                == "Internal error"@ && error.data == Some(json::string_text(failure@)),
            (Err(returned), Err(error)) => error == returned@,
            _ => false,
        },
{
}

/// What is sent for an output: nothing if it is empty, and a single response as it is. The array of
/// a batch grows by one response at a time, at its end and behind a comma if it is not the first.
pub proof fn law_outputs_are_written(
    output: OutputView,
    responses: Seq<ResponseView>,
    response: ResponseView,
)
    ensures
        server::output_bytes(output) is None <==> output is Empty,
        server::output_bytes(OutputView::Single(response)) == Some(
            protocol::response_text(response),
        ),
        server::output_bytes(OutputView::Batch(Seq::empty())) == Some(seq![91u8, 93u8]),
        ({
            let before = server::output_bytes(OutputView::Batch(responses))->0;
            server::output_bytes(OutputView::Batch(responses.push(response))) == Some(
                before.drop_last() + (if responses.len() == 0 {
                    Seq::empty()
                } else {
                    seq![44u8]
                }) + protocol::response_text(response) + seq![93u8],
            )
        }),
{
    let none = Seq::<ResponseView>::empty();
    assert(server::response_texts(none) =~= Seq::<Seq<u8>>::empty());
    assert(json::array_text(Seq::empty()) =~= seq![91u8, 93u8]);
    let texts = server::response_texts(responses);
    let more = server::response_texts(responses.push(response));
    assert(more.drop_last() =~= texts);
    let before = json::array_text(texts);
    assert(before.drop_last() =~= seq![91u8] + json::elements_text(texts));
    assert(json::array_text(more) =~= before.drop_last() + (if responses.len() == 0 {
        Seq::empty()
    } else {
        seq![44u8]
    }) + protocol::response_text(response) + seq![93u8]);
}

} // verus!
