//! Method table and request dispatch.
//!
//! A [`Router`] holds the handlers by method name. Dispatch does no waiting of its own: given
//! the bytes of a message, [`Router::handle_bytes`] hands out the requests whose handlers are to be
//! run, one after the other, takes each handler's outcome, and ends with the [`Output`] that is
//! to be sent.

use crate::client;
use crate::json;
use crate::json::JsonError;
use crate::json::JsonRawValue;
use crate::numeral;
use crate::protocol;
use crate::protocol::codes;
use crate::protocol::Error;
use crate::protocol::ErrorView;
use crate::protocol::Id;
use crate::protocol::IdView;
use crate::protocol::Request;
use crate::protocol::RequestView;
use crate::protocol::Response;
use crate::protocol::ResponseView;
use std::collections::VecDeque;
use std::sync::Arc;
use vstd::prelude::*;
use vstd::utf8::*;

verus! {

/// What is to be sent.
#[verifier::ext_equal]
pub enum OutputView {
    Empty,
    Single(ResponseView),
    Batch(Seq<ResponseView>),
}

/// The output of processing one message.
///
/// A single request gives a single response, or nothing for a notification. A batch gives an
/// array, or nothing if every entry was a notification.
#[derive(Debug)]
#[non_exhaustive]
pub enum Output {
    /// Nothing is to be sent.
    Empty,
    /// A single response object.
    Single(Response),
    /// The responses to a batch.
    Batch(Vec<Response>),
}

/// The contents of a list of responses.
pub open spec fn responses_view(responses: Seq<Response>) -> Seq<ResponseView> {
    Seq::new(responses.len(), |i: int| responses[i]@)
}

impl View for Output {
    type V = OutputView;

    open spec fn view(&self) -> OutputView {
        match self {
            Output::Empty => OutputView::Empty,
            Output::Single(response) => OutputView::Single(response@),
            Output::Batch(responses) => OutputView::Batch(responses_view(responses@)),
        }
    }
}

/// The texts of responses.
pub open spec fn response_texts(responses: Seq<ResponseView>) -> Seq<Seq<u8>> {
    Seq::new(responses.len(), |i: int| protocol::response_text(responses[i]))
}

/// The bytes that are sent for an output.
pub open spec fn output_bytes(output: OutputView) -> Option<Seq<u8>> {
    match output {
        OutputView::Empty => None,
        OutputView::Single(response) => Some(protocol::response_text(response)),
        OutputView::Batch(responses) => Some(json::array_text(response_texts(responses))),
    }
}

impl Output {
    /// The bytes to be sent, or `None` if nothing is to be sent.
    ///
    /// The bytes of a response are read by the caller with its id as what it was made of. The
    /// bytes of a batch are a JSON array whose elements are the responses in order.
    pub fn to_bytes(&self) -> (bytes: Result<Option<Vec<u8>>, Error>)
        ensures
            match bytes {
                Ok(Some(bytes)) => output_bytes(self@) == Some(bytes@),
                Ok(None) => output_bytes(self@) is None,
                Err(_) => false,
            },
            bytes matches Ok(Some(bytes)) ==> match self@ {
                OutputView::Empty => false,
                OutputView::Single(response) => {
                    &&& protocol::response_of(bytes@) == Some(protocol::response_reread(response))
                    &&& client::multiplex::frame_id(bytes@) == Some(response.id)
                    &&& client::call_result(bytes@, response.id) == client::response_result(
                        protocol::response_reread(response),
                    )
                },
                OutputView::Batch(responses) => {
                    &&& json::are_elements(response_texts(responses))
                    &&& forall|i: int|
                        0 <= i < responses.len() ==> protocol::response_of(
                            #[trigger] response_texts(responses)[i],
                        ) == Some(protocol::response_reread(responses[i]))
                },
            },
    {
        match self {
            Output::Empty => Ok(None),
            Output::Single(response) => Ok(Some(response.to_vec())),
            Output::Batch(responses) => {
                let ghost texts = response_texts(responses_view(responses@));
                let mut bytes: Vec<u8> = Vec::new();
                bytes.push(91);
                assert(texts.take(0) =~= Seq::<Seq<u8>>::empty());
                assert(bytes@ =~= seq![91u8] + json::elements_text(texts.take(0)));
                let mut i: usize = 0;
                while i < responses.len()
                    invariant
                        i <= responses@.len(),
                        texts == response_texts(responses_view(responses@)),
                        bytes@ == seq![91u8] + json::elements_text(texts.take(i as int)),
                        forall|j: int|
                            0 <= j < i ==> json::is_written(#[trigger] texts[j]) && valid_utf8(
                                texts[j],
                            ) && protocol::response_of(texts[j]) == Some(
                                protocol::response_reread(responses@[j]@),
                            ),
                    decreases responses@.len() - i,
                {
                    let ghost before = texts.take(i as int);
                    if i > 0 {
                        bytes.push(44);
                    }
                    let text = responses[i].to_vec();
                    bytes.extend_from_slice(text.as_slice());
                    proof {
                        let after = texts.take(i + 1);
                        assert(text@ == texts[i as int]);
                        assert(after.drop_last() =~= before);
                        assert(bytes@ =~= seq![91u8] + json::elements_text(after));
                    }
                    i = i + 1;
                }
                bytes.push(93);
                assert(texts.take(i as int) =~= texts);
                assert(bytes@ =~= json::array_text(texts));
                Ok(Some(bytes))
            },
        }
    }
}

/// What is done for one request, or for one element of a batch.
#[verifier::ext_equal]
pub enum EntryView {
    /// It is answered without a handler.
    Answer(ResponseView),
    /// It gets neither a handler nor an answer.
    Silent,
    /// Its handler is run.
    Call(RequestView),
}

/// What is done for one request, or for one element of a batch.
pub enum Entry {
    Answer(Response),
    Silent,
    Call(Request),
}

impl View for Entry {
    type V = EntryView;

    open spec fn view(&self) -> EntryView {
        match self {
            Entry::Answer(response) => EntryView::Answer(response@),
            Entry::Silent => EntryView::Silent,
            Entry::Call(request) => EntryView::Call(request@),
        }
    }
}

/// The contents of a list of entries.
pub open spec fn entries_view(entries: Seq<Entry>) -> Seq<EntryView> {
    Seq::new(entries.len(), |i: int| entries[i]@)
}

/// What is done for one message.
#[verifier::ext_equal]
pub struct PlanView {
    /// Whether the answers go out as an array.
    pub batch: bool,
    pub entries: Seq<EntryView>,
}

/// The answer to a message that is not a request, under a null id.
pub open spec fn refusal(error: ErrorView) -> EntryView {
    EntryView::Answer(protocol::error_response(IdView::Null, error))
}

/// The plan of a message that is answered by one error as a whole.
pub open spec fn refused(error: ErrorView) -> PlanView {
    PlanView { batch: false, entries: seq![refusal(error)] }
}

/// The Invalid Request error.
pub open spec fn invalid_request() -> ErrorView {
    protocol::plain_error(codes::INVALID_REQUEST, "Invalid Request"@)
}

/// The Parse error.
pub open spec fn parse_error() -> ErrorView {
    protocol::plain_error(codes::PARSE_ERROR, "Parse error"@)
}

/// The Method not found error.
pub open spec fn method_not_found() -> ErrorView {
    protocol::plain_error(codes::METHOD_NOT_FOUND, "Method not found"@)
}

/// The Internal error.
pub open spec fn internal_error() -> ErrorView {
    protocol::plain_error(codes::INTERNAL_ERROR, "Internal error"@)
}

/// The error for a text that is no request: Invalid Request if it is JSON, Parse error if not.
pub open spec fn unreadable(text: Seq<u8>) -> ErrorView {
    if json::is_json(text) {
        invalid_request()
    } else {
        parse_error()
    }
}

/// What is said of a batch that is too long.
pub open spec fn oversize_message(len: int, max: int) -> Seq<char> {
    "batch of "@ + numeral::decimal(len) + " entries exceeds maximum of "@ + numeral::decimal(max)
}

/// What is done for a request, given the registered methods.
pub open spec fn request_entry(request: RequestView, known: Set<Seq<char>>) -> EntryView {
    if known.contains(request.method) {
        EntryView::Call(request)
    } else {
        match request.id {
            Some(id) => EntryView::Answer(protocol::error_response(id, method_not_found())),
            None => EntryView::Silent,
        }
    }
}

/// What is done for an element of a batch.
pub open spec fn element_entry(text: Seq<u8>, known: Set<Seq<char>>) -> EntryView {
    match protocol::request_of(text) {
        Some(request) => request_entry(request, known),
        None => refusal(invalid_request()),
    }
}

/// Whether a byte is ASCII whitespace: a space, a tab, a line feed, a form feed or a carriage
/// return.
pub open spec fn is_ascii_space(b: u8) -> bool {
    b == 32 || b == 9 || b == 10 || b == 12 || b == 13
}

/// The first byte of a text that is not ASCII whitespace.
pub open spec fn first_byte(text: Seq<u8>) -> Option<u8>
    decreases text.len(),
{
    if text.len() == 0 {
        None
    } else if is_ascii_space(text[0]) {
        first_byte(text.skip(1))
    } else {
        Some(text[0])
    }
}

/// What is done for a batch.
pub open spec fn batch_plan(
    text: Seq<u8>,
    known: Set<Seq<char>>,
    limit: Option<usize>,
) -> PlanView {
    match json::array_elements(text) {
        Err(_) => refused(unreadable(text)),
        Ok(elements) => if elements.len() == 0 {
            refused(invalid_request())
        } else if limit is Some && elements.len() > limit->0 {
            refused(
                ErrorView {
                    data: Some(
                        json::string_text(oversize_message(elements.len() as int, limit->0 as int)),
                    ),
                    ..invalid_request()
                },
            )
        } else {
            PlanView {
                batch: true,
                entries: Seq::new(elements.len(), |i: int| element_entry(elements[i], known)),
            }
        },
    }
}

/// What is done for a message, given the registered methods and the longest batch allowed.
pub open spec fn message_plan(
    text: Seq<u8>,
    known: Set<Seq<char>>,
    limit: Option<usize>,
) -> PlanView {
    match first_byte(text) {
        None => refused(parse_error()),
        Some(first) => if first == 91 {
            batch_plan(text, known, limit)
        } else if first == 123 {
            match protocol::request_of(text) {
                Some(request) => PlanView {
                    batch: false,
                    entries: seq![request_entry(request, known)],
                },
                None => refused(unreadable(text)),
            }
        } else {
            refused(unreadable(text))
        },
    }
}

/// What a handler came to: a result as JSON, or an error.
pub type OutcomeView = Result<Seq<u8>, ErrorView>;

/// The contents of an outcome.
pub open spec fn outcome_view(outcome: Result<JsonRawValue, Error>) -> OutcomeView {
    match outcome {
        Ok(raw) => Ok(raw@),
        Err(error) => Err(error@),
    }
}

/// The requests whose handlers are run, in order.
pub open spec fn calls(entries: Seq<EntryView>) -> Seq<RequestView>
    decreases entries.len(),
{
    if entries.len() == 0 {
        Seq::empty()
    } else {
        match entries.last() {
            EntryView::Call(request) => calls(entries.drop_last()).push(request),
            _ => calls(entries.drop_last()),
        }
    }
}

/// The answer to a request whose handler was run: none to a notification.
pub open spec fn answer(request: RequestView, outcome: OutcomeView) -> Seq<ResponseView> {
    match request.id {
        None => Seq::empty(),
        Some(id) => match outcome {
            Ok(result) => seq![protocol::result_response(id, result)],
            Err(error) => seq![protocol::error_response(id, error)],
        },
    }
}

/// The answers to a message, in order, given what its handlers came to, in order.
pub open spec fn answers(entries: Seq<EntryView>, outcomes: Seq<OutcomeView>) -> Seq<ResponseView>
    decreases entries.len(),
{
    if entries.len() == 0 {
        Seq::empty()
    } else {
        let before = entries.drop_last();
        answers(before, outcomes) + match entries.last() {
            EntryView::Answer(response) => seq![response],
            EntryView::Silent => Seq::empty(),
            EntryView::Call(request) => answer(request, outcomes[calls(before).len() as int]),
        }
    }
}

/// The output for a message, given what its handlers came to.
pub open spec fn plan_output(plan: PlanView, outcomes: Seq<OutcomeView>) -> OutputView {
    let answers = answers(plan.entries, outcomes);
    if answers.len() == 0 {
        OutputView::Empty
    } else if plan.batch {
        OutputView::Batch(answers)
    } else {
        OutputView::Single(answers[0])
    }
}

/// Answers depend only on the outcomes of the handlers that were run.
proof fn lemma_answers_prefix(
    entries: Seq<EntryView>,
    outcomes: Seq<OutcomeView>,
    more: Seq<OutcomeView>,
)
    requires
        calls(entries).len() <= outcomes.len(),
    ensures
        answers(entries, outcomes + more) == answers(entries, outcomes),
    decreases entries.len(),
{
    if entries.len() > 0 {
        lemma_answers_prefix(entries.drop_last(), outcomes, more);
    }
}

/// How far the processing of a message has come.
pub enum Progress {
    /// It is done.
    Done(Output),
    /// A handler is to be run.
    Invoke(Invocation),
}

/// A message whose processing waits for a handler.
pub struct Invocation {
    request: Request,
    rest: VecDeque<Entry>,
    responses: Vec<Response>,
    batch: bool,
    plan: Ghost<PlanView>,
    outcomes: Ghost<Seq<OutcomeView>>,
    done: Ghost<nat>,
}

impl Invocation {
    #[verifier::type_invariant]
    spec fn is_waiting(self) -> bool {
        &&& self.done@ < self.plan@.entries.len()
        &&& self.plan@.entries[self.done@ as int] == EntryView::Call(self.request@)
        &&& entries_view(self.rest@) == self.plan@.entries.skip(self.done@ as int + 1)
        &&& calls(self.plan@.entries.take(self.done@ as int)).len() == self.outcomes@.len()
        &&& responses_view(self.responses@) == answers(
            self.plan@.entries.take(self.done@ as int),
            self.outcomes@,
        )
        &&& self.batch == self.plan@.batch
    }

    /// The plan of the message.
    pub closed spec fn plan(self) -> PlanView {
        self.plan@
    }

    /// What the handlers that were run so far came to.
    pub closed spec fn outcomes(self) -> Seq<OutcomeView> {
        self.outcomes@
    }

    /// The request whose handler is to be run: the next of the message's calls.
    pub fn request(&self) -> (request: &Request)
        ensures
            self.outcomes().len() < calls(self.plan().entries).len(),
            request@ == calls(self.plan().entries)[self.outcomes().len() as int],
    {
        proof {
            use_type_invariant(self);
            let entries = self.plan@.entries;
            let done = self.done@ as int;
            assert(entries.take(done + 1).drop_last() =~= entries.take(done));
            lemma_calls_prefix(entries, done + 1);
        }
        &self.request
    }

    /// Takes what the handler came to, and goes on to the next handler or to the end.
    pub fn complete(self, outcome: Result<JsonRawValue, Error>) -> (progress: Progress)
        ensures
            match progress {
                Progress::Done(output) => {
                    let outcomes = self.outcomes().push(outcome_view(outcome));
                    &&& calls(self.plan().entries).len() == outcomes.len()
                    &&& output@ == plan_output(self.plan(), outcomes)
                },
                Progress::Invoke(next) => {
                    &&& next.plan() == self.plan()
                    &&& next.outcomes() == self.outcomes().push(outcome_view(outcome))
                },
            },
    {
        proof {
            use_type_invariant(&self);
        }
        let ghost entries = self.plan@.entries;
        let ghost done = self.done@ as int;
        let ghost before = self.outcomes@;
        let ghost after = before.push(outcome_view(outcome));
        let mut responses = self.responses;
        let response = match self.request.id() {
            None => None,
            Some(id) => Some(
                match outcome {
                    Ok(raw) => Response::from_raw_result(id.clone(), raw),
                    Err(error) => Response::error(id.clone(), error),
                },
            ),
        };
        if let Some(response) = response {
            responses.push(response);
        }
        proof {
            assert(entries.take(done + 1).drop_last() =~= entries.take(done));
            assert(after =~= before + seq![outcome_view(outcome)]);
            lemma_answers_prefix(entries.take(done), before, seq![outcome_view(outcome)]);
            assert(responses_view(responses@) =~= answers(entries.take(done + 1), after));
        }
        advance(
            self.batch,
            self.rest,
            responses,
            self.plan,
            Ghost(after),
            Ghost((done + 1) as nat),
        )
    }
}

/// The calls of the first entries are the first calls.
proof fn lemma_calls_prefix(entries: Seq<EntryView>, n: int)
    requires
        0 <= n <= entries.len(),
    ensures
        calls(entries.take(n)).len() <= calls(entries).len(),
        forall|i: int|
            0 <= i < calls(entries.take(n)).len() ==> calls(entries.take(n))[i] == #[trigger] calls(
                entries,
            )[i],
    decreases entries.len(),
{
    if n < entries.len() {
        assert(entries.drop_last().take(n) =~= entries.take(n));
        lemma_calls_prefix(entries.drop_last(), n);
    } else {
        assert(entries.take(n) =~= entries);
    }
}

/// Goes on with a message to the next handler, or to the end.
fn advance(
    batch: bool,
    rest: VecDeque<Entry>,
    responses: Vec<Response>,
    plan: Ghost<PlanView>,
    outcomes: Ghost<Seq<OutcomeView>>,
    done: Ghost<nat>,
) -> (progress: Progress)
    requires
        done@ <= plan@.entries.len(),
        entries_view(rest@) == plan@.entries.skip(done@ as int),
        calls(plan@.entries.take(done@ as int)).len() == outcomes@.len(),
        responses_view(responses@) == answers(plan@.entries.take(done@ as int), outcomes@),
        batch == plan@.batch,
    ensures
        match progress {
            Progress::Done(output) => {
                &&& calls(plan@.entries).len() == outcomes@.len()
                &&& output@ == plan_output(plan@, outcomes@)
            },
            Progress::Invoke(next) => next.plan() == plan@ && next.outcomes() == outcomes@,
        },
{
    let mut rest = rest;
    let mut responses = responses;
    let ghost mut done = done@ as int;
    let ghost entries = plan@.entries;
    loop
        invariant
            entries == plan@.entries,
            0 <= done <= entries.len(),
            entries_view(rest@) == entries.skip(done),
            calls(entries.take(done)).len() == outcomes@.len(),
            responses_view(responses@) == answers(entries.take(done), outcomes@),
            batch == plan@.batch,
        decreases rest@.len(),
    {
        let ghost waiting = rest@;
        let ghost answered = responses_view(responses@);
        match rest.pop_front() {
            None => {
                assert(entries.skip(done).len() == 0);
                assert(entries.take(done) =~= entries);
                let output = if responses.len() == 0 {
                    Output::Empty
                } else if batch {
                    Output::Batch(responses)
                } else {
                    let response = responses.remove(0);
                    Output::Single(response)
                };
                return Progress::Done(output);
            },
            Some(entry) => {
                proof {
                    assert(entries.skip(done).len() == waiting.len());
                    assert(entries_view(waiting)[0] == entry@);
                    assert(entries.skip(done)[0] == entries[done]);
                    assert forall|i: int| 0 <= i < rest@.len() implies entries_view(rest@)[i]
                        == entries.skip(done + 1)[i] by {
                        assert(entries_view(waiting)[i + 1] == entries.skip(done)[i + 1]);
                    }
                    assert(entries_view(rest@) =~= entries.skip(done + 1));
                    assert(entries.take(done + 1).drop_last() =~= entries.take(done));
                }
                match entry {
                    Entry::Answer(response) => {
                        responses.push(response);
                        assert(responses_view(responses@) =~= answered.push(response@));
                    },
                    Entry::Silent => {},
                    Entry::Call(request) => {
                        return Progress::Invoke(
                            Invocation {
                                request,
                                rest,
                                responses,
                                batch,
                                plan,
                                outcomes,
                                done: Ghost(done as nat),
                            },
                        );
                    },
                }
                proof {
                    done = done + 1;
                }
            },
        }
    }
}

/// A registered method: its handler, which may take the context of the request.
pub enum Method<H, C> {
    Handler(H),
    WithContext(C),
}

/// A method under its name.
pub struct Registration<H, C> {
    pub name: String,
    pub method: Method<H, C>,
}

/// Whether the method at a place has a name.
spec fn is_at<H, C>(table: Seq<Arc<Registration<H, C>>>, name: Seq<char>, i: int) -> bool {
    0 <= i < table.len() && table[i].name@ == name
}

/// Whether a method with a name is in a table.
spec fn is_known<H, C>(table: Seq<Arc<Registration<H, C>>>, name: Seq<char>) -> bool {
    exists|i: int| is_at(table, name, i)
}

/// Whether a name stands in a list of names.
pub open spec fn is_among(names: Seq<&str>, name: Seq<char>) -> bool {
    exists|i: int| 0 <= i < names.len() && (#[trigger] names[i])@ == name
}

/// A table of methods, with state that the handlers share.
///
/// Handlers are kept as they were given: `H` is the type of those that take the state and the
/// request, `C` of those that also take the context of the request. A clone of a router shares its
/// table, and a table is copied when a method is added to it.
pub struct Router<S, H, C> {
    state: S,
    methods: Arc<Vec<Arc<Registration<H, C>>>>,
    max_batch_len: Option<usize>,
}

impl<S, H, C> Router<S, H, C> {
    #[verifier::type_invariant]
    spec fn names_differ(self) -> bool {
        forall|i: int, j: int|
            0 <= i < j < self.methods@.len() ==> (#[trigger] self.methods@[i]).name@ != (
            #[trigger] self.methods@[j]).name@
    }

    /// The registered methods by name.
    pub closed spec fn methods(self) -> Map<Seq<char>, Method<H, C>> {
        Map::new(
            |name: Seq<char>| is_known(self.methods@, name),
            |name: Seq<char>| self.methods@[choose|i: int| is_at(self.methods@, name, i)].method,
        )
    }

    /// The state.
    pub closed spec fn shared(self) -> S {
        self.state
    }

    /// The most entries that a batch may have, if there is a limit.
    pub closed spec fn limit(self) -> Option<usize> {
        self.max_batch_len
    }

    /// A router with the given state, without methods and without a limit on batches.
    pub fn with_state(state: S) -> (router: Self)
        ensures
            router.shared() == state,
            router.methods() == Map::<Seq<char>, Method<H, C>>::empty(),
            router.limit() is None,
    {
        let router = Router { state, methods: Arc::new(Vec::new()), max_batch_len: None };
        assert(router.methods() =~= Map::<Seq<char>, Method<H, C>>::empty());
        router
    }

    /// The state.
    pub fn state(&self) -> (state: &S)
        ensures
            *state == self.shared(),
    {
        &self.state
    }

    /// Limits the number of entries that a batch may have. A longer batch is refused as a whole,
    /// with one Invalid Request error, and none of its handlers is run. Single requests are not
    /// limited.
    pub fn with_max_batch_len(self, max: usize) -> (router: Self)
        ensures
            router.limit() == Some(max),
            router.shared() == self.shared(),
            router.methods() == self.methods(),
    {
        proof {
            use_type_invariant(&self);
        }
        Router { state: self.state, methods: self.methods, max_batch_len: Some(max) }
    }

    /// The method that is registered under a name.
    pub fn method(&self, name: &str) -> (method: Option<&Method<H, C>>)
        ensures
            match method {
                Some(method) => self.methods().contains_pair(name@, *method),
                None => !self.methods().contains_key(name@),
            },
    {
        proof {
            use_type_invariant(self);
        }
        let wanted = name.to_owned();
        let mut i: usize = 0;
        while i < self.methods.len()
            invariant
                i <= self.methods@.len(),
                wanted@ == name@,
                self.names_differ(),
                forall|j: int| 0 <= j < i ==> !is_at(self.methods@, name@, j),
            decreases self.methods@.len() - i,
        {
            if self.methods[i].name == wanted {
                assert(is_at(self.methods@, name@, i as int));
                return Some(&self.methods[i].method);
            }
            i = i + 1;
        }
        None
    }

    /// Whether a method is registered.
    pub fn is_registered(&self, name: &str) -> (answer: bool)
        ensures
            answer == self.methods().contains_key(name@),
    {
        self.method(name).is_some()
    }

    /// The names of the registered methods, each once.
    pub fn method_names(&self) -> (names: Vec<&str>)
        ensures
            forall|name: Seq<char>| #[trigger]
                self.methods().contains_key(name) <==> is_among(names@, name),
            forall|i: int, j: int|
                0 <= i < j < names@.len() ==> (#[trigger] names@[i])@ != (#[trigger] names@[j])@,
    {
        proof {
            use_type_invariant(self);
        }
        let mut names: Vec<&str> = Vec::new();
        let mut i: usize = 0;
        while i < self.methods.len()
            invariant
                i <= self.methods@.len(),
                i == names@.len(),
                forall|j: int| 0 <= j < i ==> (#[trigger] names@[j])@ == self.methods@[j].name@,
            decreases self.methods@.len() - i,
        {
            names.push(self.methods[i].name.as_str());
            i = i + 1;
        }
        proof {
            assert forall|name: Seq<char>| #[trigger]
                self.methods().contains_key(name) <==> is_among(names@, name) by {
                if is_known(self.methods@, name) {
                    let j = choose|j: int| is_at(self.methods@, name, j);
                    assert(names@[j]@ == name);
                }
                if is_among(names@, name) {
                    let j = choose|j: int| 0 <= j < names@.len() && (#[trigger] names@[j])@ == name;
                    assert(is_at(self.methods@, name, j));
                }
            }
        }
        names
    }

    /// Registers a handler under a name that is not taken yet.
    pub fn register(self, method: &str, handler: H) -> (router: Self)
        requires
            !self.methods().contains_key(method@),
        ensures
            router.methods() == self.methods().insert(method@, Method::Handler(handler)),
            router.shared() == self.shared(),
            router.limit() == self.limit(),
    {
        self.with_method(method, Method::Handler(handler))
    }

    /// Registers a handler that takes the context of the request, under a name that is not taken
    /// yet.
    pub fn register_with_context(self, method: &str, handler: C) -> (router: Self)
        requires
            !self.methods().contains_key(method@),
        ensures
            router.methods() == self.methods().insert(method@, Method::WithContext(handler)),
            router.shared() == self.shared(),
            router.limit() == self.limit(),
    {
        self.with_method(method, Method::WithContext(handler))
    }

    /// Puts a method into a copy of the table.
    fn with_method(self, name: &str, method: Method<H, C>) -> (router: Self)
        requires
            !self.methods().contains_key(name@),
        ensures
            router.methods() == self.methods().insert(name@, method),
            router.shared() == self.shared(),
            router.limit() == self.limit(),
    {
        proof {
            use_type_invariant(&self);
        }
        let ghost before = self.methods@;
        let mut methods: Vec<Arc<Registration<H, C>>> = Vec::new();
        let mut i: usize = 0;
        while i < self.methods.len()
            invariant
                i <= self.methods@.len(),
                methods@ == self.methods@.take(i as int),
            decreases self.methods@.len() - i,
        {
            methods.push(Arc::clone(&self.methods[i]));
            assert(methods@ =~= self.methods@.take(i + 1));
            i = i + 1;
        }
        assert(methods@ =~= before);
        methods.push(Arc::new(Registration { name: name.to_owned(), method }));
        let ghost after = methods@;
        proof {
            assert forall|i: int, j: int| 0 <= i < j < after.len() implies (
            #[trigger] after[i]).name@ != (#[trigger] after[j]).name@ by {
                assert(after[i] == before[i]);
                if j < before.len() {
                    assert(after[j] == before[j]);
                } else {
                    assert(!is_known(before, name@));
                    assert(!is_at(before, name@, i));
                }
            }
        }
        let router = Router {
            state: self.state,
            methods: Arc::new(methods),
            max_batch_len: self.max_batch_len,
        };
        proof {
            assert(after.drop_last() =~= before);
            lemma_added(before, after, name@);
            assert(router.methods() =~= self.methods().insert(name@, method));
        }
        router
    }

    /// What is done for a request.
    fn request_entry(&self, request: Request) -> (entry: Entry)
        ensures
            entry@ == request_entry(request@, self.methods().dom()),
    {
        if self.is_registered(request.method()) {
            return Entry::Call(request);
        }
        match request.id() {
            Some(id) => Entry::Answer(Response::error(id.clone(), Error::method_not_found())),
            None => Entry::Silent,
        }
    }

    /// Begins to process a request that was read already.
    pub fn handle_request(&self, request: Request) -> (progress: Progress)
        ensures
            starts(
                progress,
                PlanView {
                    batch: false,
                    entries: seq![request_entry(request@, self.methods().dom())],
                },
            ),
    {
        let entry = self.request_entry(request);
        start_one(entry)
    }

    /// Begins to process a message from its bytes.
    ///
    /// A batch is processed in its order, one handler after the other.
    pub fn handle_bytes(&self, bytes: &[u8]) -> (progress: Progress)
        ensures
            starts(progress, message_plan(bytes@, self.methods().dom(), self.limit())),
    {
        match find_first_byte(bytes) {
            None => start_one(refuse(Error::parse_error())),
            Some(first) => {
                if first == 91 {
                    self.handle_batch_bytes(bytes)
                } else if first == 123 {
                    match Request::read(bytes) {
                        Some(request) => self.handle_request(request),
                        None => start_one(refuse(explain(bytes))),
                    }
                } else {
                    start_one(refuse(explain(bytes)))
                }
            },
        }
    }

    /// Begins to process a batch.
    fn handle_batch_bytes(&self, bytes: &[u8]) -> (progress: Progress)
        ensures
            starts(progress, batch_plan(bytes@, self.methods().dom(), self.limit())),
    {
        let items = match json::split_array(bytes) {
            Ok(items) => items,
            Err(_) => {
                return start_one(refuse(explain(bytes)));
            },
        };
        if items.len() == 0 {
            return start_one(refuse(Error::invalid_request()));
        }
        if let Some(max) = self.max_batch_len {
            if items.len() > max {
                let data = JsonRawValue::string(describe_oversize(items.len(), max).as_str());
                return start_one(refuse(Error::invalid_request().with_data(Ok(data))));
            }
        }
        let ghost known = self.methods().dom();
        let ghost elements = json::rows_view(items@);
        let mut entries: VecDeque<Entry> = VecDeque::new();
        let mut i: usize = 0;
        while i < items.len()
            invariant
                i <= items@.len(),
                i == entries@.len(),
                known == self.methods().dom(),
                forall|j: int|
                    0 <= j < i ==> (#[trigger] entries@[j])@ == element_entry(items@[j]@, known),
            decreases items@.len() - i,
        {
            let entry = match Request::read(items[i].as_slice()) {
                Some(request) => self.request_entry(request),
                None => refuse(Error::invalid_request()),
            };
            entries.push_back(entry);
            i = i + 1;
        }
        let ghost plan = batch_plan(bytes@, known, self.limit());
        assert(entries_view(entries@) =~= plan.entries);
        start(true, entries, Ghost(plan))
    }
}

impl<H, C> Router<(), H, C> {
    /// A router without state.
    pub fn new() -> (router: Self)
        ensures
            router.methods() == Map::<Seq<char>, Method<H, C>>::empty(),
            router.limit() is None,
    {
        Router::with_state(())
    }
}

impl<H, C> Default for Router<(), H, C> {
    fn default() -> (router: Self)
        ensures
            router.methods() == Map::<Seq<char>, Method<H, C>>::empty(),
            router.limit() is None,
    {
        Router::new()
    }
}

impl<S: Clone, H, C> Clone for Router<S, H, C> {
    /// A router over the same table, with a clone of the state. What is registered with one of the
    /// two later is not registered with the other.
    fn clone(&self) -> (copy: Self)
        ensures
            cloned(self.shared(), copy.shared()),
            copy.limit() == self.limit(),
            copy.methods() == self.methods(),
    {
        proof {
            use_type_invariant(self);
        }
        Router {
            state: self.state.clone(),
            methods: Arc::clone(&self.methods),
            max_batch_len: self.max_batch_len,
        }
    }
}

/// A method that was added is found under its name, and the others are where they were.
proof fn lemma_added<H, C>(
    before: Seq<Arc<Registration<H, C>>>,
    after: Seq<Arc<Registration<H, C>>>,
    name: Seq<char>,
)
    requires
        after.len() == before.len() + 1,
        after.drop_last() == before,
        after.last().name@ == name,
        forall|i: int, j: int|
            0 <= i < j < after.len() ==> (#[trigger] after[i]).name@ != (#[trigger] after[j]).name@,
    ensures
        forall|other: Seq<char>| #[trigger]
            is_known(after, other) == (is_known(before, other) || other == name),
        forall|other: Seq<char>, i: int, j: int|
            #[trigger] is_at(after, other, i) && #[trigger] is_at(after, other, j) ==> i == j,
        forall|other: Seq<char>, i: int| #[trigger]
            is_at(before, other, i) ==> is_at(after, other, i) && after[i] == before[i],
        is_at(after, name, before.len() as int),
{
    assert forall|other: Seq<char>, i: int| #[trigger] is_at(before, other, i) implies is_at(
        after,
        other,
        i,
    ) && after[i] == before[i] by {
        assert(after.drop_last()[i] == after[i]);
    }
    assert forall|other: Seq<char>| #[trigger]
        is_known(after, other) == (is_known(before, other) || other == name) by {
        if is_known(after, other) {
            let i = choose|i: int| is_at(after, other, i);
            if i < before.len() {
                assert(after.drop_last()[i] == after[i]);
                assert(is_at(before, other, i));
            }
        }
        if is_known(before, other) {
            let i = choose|i: int| is_at(before, other, i);
            assert(is_at(after, other, i));
        }
        assert(is_at(after, name, before.len() as int));
    }
}

/// Whether processing begins with a plan: it waits for the handler of the plan's first call, or
/// it is done if the plan has none.
pub open spec fn starts(progress: Progress, plan: PlanView) -> bool {
    match progress {
        Progress::Done(output) => {
            &&& calls(plan.entries).len() == 0
            &&& output@ == plan_output(plan, Seq::empty())
        },
        Progress::Invoke(next) => {
            &&& next.plan() == plan
            &&& next.outcomes() == Seq::<OutcomeView>::empty()
        },
    }
}

/// Begins to carry out a plan.
fn start(batch: bool, entries: VecDeque<Entry>, plan: Ghost<PlanView>) -> (progress: Progress)
    requires
        plan@ == (PlanView { batch, entries: entries_view(entries@) }),
    ensures
        starts(progress, plan@),
{
    proof {
        let all = plan@.entries;
        assert(all.skip(0) =~= all);
        assert(all.take(0) =~= Seq::<EntryView>::empty());
        assert(responses_view(Seq::<Response>::empty()) =~= Seq::<ResponseView>::empty());
    }
    advance(batch, entries, Vec::new(), plan, Ghost(Seq::empty()), Ghost(0))
}

/// Begins to carry out a plan of one entry that is no batch.
fn start_one(entry: Entry) -> (progress: Progress)
    ensures
        starts(progress, PlanView { batch: false, entries: seq![entry@] }),
{
    let ghost plan = PlanView { batch: false, entries: seq![entry@] };
    let mut entries: VecDeque<Entry> = VecDeque::new();
    entries.push_back(entry);
    assert(entries_view(entries@) =~= plan.entries);
    start(false, entries, Ghost(plan))
}

/// The answer to a message that is not a request.
fn refuse(error: Error) -> (entry: Entry)
    ensures
        entry@ == refusal(error@),
{
    Entry::Answer(Response::error(Id::Null, error))
}

/// The error for a text that is no request.
fn explain(text: &[u8]) -> (error: Error)
    ensures
        error@ == unreadable(text@),
{
    if json::is_document(text) {
        Error::invalid_request()
    } else {
        Error::parse_error()
    }
}

/// Says of a batch that it is too long.
fn describe_oversize(len: usize, max: usize) -> (text: String)
    ensures
        text@ == oversize_message(len as int, max as int),
{
    let mut text = "batch of ".to_owned();
    text.append(numeral::format_integer(len as i128).as_str());
    text.append(" entries exceeds maximum of ");
    text.append(numeral::format_integer(max as i128).as_str());
    text
}

/// Finds the first byte that is not ASCII whitespace.
fn find_first_byte(text: &[u8]) -> (first: Option<u8>)
    ensures
        first == first_byte(text@),
{
    let mut i: usize = 0;
    assert(text@.skip(0) =~= text@);
    while i < text.len()
        invariant
            i <= text@.len(),
            first_byte(text@) == first_byte(text@.skip(i as int)),
        decreases text@.len() - i,
    {
        let b: u8 = text[i];
        if b != 32 && b != 9 && b != 10 && b != 12 && b != 13 {
            return Some(b);
        }
        assert(text@.skip(i as int).skip(1) =~= text@.skip(i + 1));
        i = i + 1;
    }
    None
}

/// The contents of what a handler returned: a value that is serialized, with luck, or an error.
pub open spec fn handled_view(
    returned: Result<Result<JsonRawValue, JsonError>, Error>,
) -> OutcomeView {
    match returned {
        Ok(Ok(raw)) => Ok(raw@),
        Ok(Err(failure)) => Err(
            ErrorView { data: Some(json::string_text(failure@)), ..internal_error() },
        ),
        Err(error) => Err(error@),
    }
}

/// What a handler came to. If its value could not be serialized, that is an internal error with
/// the message of the failure for its data.
pub fn handler_outcome(returned: Result<Result<JsonRawValue, JsonError>, Error>) -> (outcome:
    Result<JsonRawValue, Error>)
    ensures
        outcome_view(outcome) == handled_view(returned),
{
    match returned {
        Ok(Ok(raw)) => Ok(raw),
        Ok(Err(failure)) => Err(
            Error::internal_error().with_data(Ok(JsonRawValue::string(failure.message()))),
        ),
        Err(error) => Err(error),
    }
}

} // verus!
