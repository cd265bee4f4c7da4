//! Many calls over one connection: replies are routed to their callers by id.
//!
//! A [`Multiplexer`] keeps, for each call that is under way, who waits for its reply. A call is
//! entered before its request is written, so that no reply can come too early. When the
//! connection ends, everybody who waits is let go.

use crate::error;
use crate::error::TransportError;
use crate::error::TransportErrorView;
use crate::object;
use crate::protocol;
use crate::protocol::Id;
use crate::protocol::IdView;
use vstd::prelude::*;

verus! {

/// What a failure of a shared connection is.
#[verifier::ext_equal]
pub enum MultiplexErrorView {
    MissingId,
    ConnectionClosed,
    Transport(TransportErrorView),
}

/// A failure of a shared connection.
#[derive(Debug)]
#[non_exhaustive]
pub enum MultiplexError {
    /// The request has no id by which its reply could be found. Messages without an id are
    /// sent as notifications.
    MissingId,
    /// The connection ended while the call was under way.
    ConnectionClosed,
    /// A failure of framing or of I/O.
    Transport(TransportError),
}

impl View for MultiplexError {
    type V = MultiplexErrorView;

    open spec fn view(&self) -> MultiplexErrorView {
        match self {
            MultiplexError::MissingId => MultiplexErrorView::MissingId,
            MultiplexError::ConnectionClosed => MultiplexErrorView::ConnectionClosed,
            MultiplexError::Transport(error) => MultiplexErrorView::Transport(error@),
        }
    }
}

impl From<TransportError> for MultiplexError {
    fn from(error: TransportError) -> (failure: Self) {
        MultiplexError::Transport(error)
    }
}

impl vstd::std_specs::convert::FromSpecImpl<TransportError> for MultiplexError {
    open spec fn obeys_from_spec() -> bool {
        true
    }

    open spec fn from_spec(error: TransportError) -> Self {
        MultiplexError::Transport(error)
    }
}

impl MultiplexError {
    /// Shows the failure.
    pub fn to_string(&self) -> (text: String)
        ensures
            match self@ {
                MultiplexErrorView::MissingId => text@
                    == "outgoing request has no id to correlate on"@,
                MultiplexErrorView::ConnectionClosed => text@
                    == "connection closed before a response arrived"@,
                MultiplexErrorView::Transport(error) => exists|detail: Seq<char>| #[trigger]
                    error::transport_error_shown(error, detail) && text@ == "transport error: "@
                        + detail,
            },
    {
        match self {
            MultiplexError::MissingId => "outgoing request has no id to correlate on".to_owned(),
            MultiplexError::ConnectionClosed => {
                "connection closed before a response arrived".to_owned()
            },
            MultiplexError::Transport(error) => {
                let detail = error.to_string();
                error::joined("transport error: ", detail.as_str())
            },
        }
    }
}

/// The id in the JSON of a request or of a response, which is not looked at otherwise.
pub open spec fn frame_id(frame: Seq<u8>) -> Option<IdView> {
    match object::fields(frame, seq!["id"@]) {
        Some(fields) => match fields[0] {
            Some(text) => protocol::id_of(text),
            None => None,
        },
        None => None,
    }
}

/// Reads the id in the JSON of a request or of a response.
pub fn parse_id(frame: &[u8]) -> (id: Option<Id>)
    ensures
        match id {
            Some(id) => frame_id(frame@) == Some(id@),
            None => frame_id(frame@) is None,
        },
{
    let names = vec!["id"];
    assert(object::names_view(names@) =~= seq!["id"@]);
    match object::read_fields(frame, &names) {
        Some(fields) => match &fields[0] {
            Some(text) => Id::from_value(text.as_slice()),
            None => None,
        },
        None => None,
    }
}

/// A call that is under way, and who waits for its reply.
pub struct Waiting<W> {
    pub id: Id,
    pub waiter: W,
}

/// Whether the call at a place has an id.
pub open spec fn is_at<W>(calls: Seq<Waiting<W>>, id: IdView, i: int) -> bool {
    0 <= i < calls.len() && calls[i].id@ == id
}

/// Whether a call with an id is under way.
pub open spec fn is_waiting<W>(calls: Seq<Waiting<W>>, id: IdView) -> bool {
    exists|i: int| is_at(calls, id, i)
}

/// Who waits, by id.
pub open spec fn waiters<W>(calls: Seq<Waiting<W>>) -> Map<IdView, W> {
    Map::new(
        |id: IdView| is_waiting(calls, id),
        |id: IdView| calls[choose|i: int| is_at(calls, id, i)].waiter,
    )
}

/// The calls that are under way on a connection, and whether the connection lives.
///
/// `W` is whatever a reply is handed to.
pub struct Multiplexer<W> {
    calls: Vec<Waiting<W>>,
    connected: bool,
}

/// What the reader of a connection does next.
pub enum ReaderAction<W> {
    /// Hand the frame to a caller.
    Deliver(W, Vec<u8>),
    /// Go on reading. The frame is nobody's, and is dropped.
    Continue,
    /// Stop. The connection has ended.
    Stop,
}

impl<W> Multiplexer<W> {
    #[verifier::type_invariant]
    spec fn ids_differ(self) -> bool {
        forall|i: int, j: int|
            0 <= i < j < self.calls@.len() ==> (#[trigger] self.calls@[i]).id@ != (
            #[trigger] self.calls@[j]).id@
    }

    /// Who waits, by id.
    pub closed spec fn pending(self) -> Map<IdView, W> {
        waiters(self.calls@)
    }

    /// Whether the connection lives.
    pub closed spec fn connected(self) -> bool {
        self.connected
    }

    /// A connection that lives, with no calls under way.
    pub fn new() -> (multiplexer: Self)
        ensures
            multiplexer.connected(),
            multiplexer.pending() == Map::<IdView, W>::empty(),
    {
        let multiplexer = Multiplexer { calls: Vec::new(), connected: true };
        assert(multiplexer.pending() =~= Map::<IdView, W>::empty());
        multiplexer
    }

    /// Whether the connection lives.
    pub fn is_connected(&self) -> (answer: bool)
        ensures
            answer == self.connected(),
    {
        self.connected
    }

    /// The place of a call.
    fn find(&self, id: &Id) -> (place: Option<usize>)
        ensures
            match place {
                Some(i) => is_at(self.calls@, id@, i as int),
                None => forall|i: int| !is_at(self.calls@, id@, i),
            },
    {
        let mut i: usize = 0;
        while i < self.calls.len()
            invariant
                i <= self.calls@.len(),
                forall|j: int| 0 <= j < i ==> !is_at(self.calls@, id@, j),
            decreases self.calls@.len() - i,
        {
            if self.calls[i].id == *id {
                return Some(i);
            }
            i = i + 1;
        }
        None
    }

    /// Lets go of who waits for a reply, and hands them out.
    pub fn remove(&mut self, id: &Id) -> (waiter: Option<W>)
        ensures
            match waiter {
                Some(waiter) => old(self).pending().contains_pair(id@, waiter),
                None => !old(self).pending().contains_key(id@),
            },
            final(self).pending() == old(self).pending().remove(id@),
            final(self).connected() == old(self).connected(),
    {
        proof {
            use_type_invariant(&*self);
        }
        let ghost before = self.calls@;
        match self.find(id) {
            Some(i) => {
                let mut calls: Vec<Waiting<W>> = Vec::new();
                std::mem::swap(&mut calls, &mut self.calls);
                let call = calls.remove(i);
                proof {
                    let after = calls@;
                    assert forall|j: int, k: int| 0 <= j < k < after.len() implies (
                    #[trigger] after[j]).id@ != (#[trigger] after[k]).id@ by {
                        let a = if j < i { j } else { j + 1 };
                        let b = if k < i { k } else { k + 1 };
                        assert(after[j] == before[a]);
                        assert(after[k] == before[b]);
                    }
                }
                self.calls = calls;
                proof {
                    lemma_removed(before, self.calls@, i as int);
                }
                Some(call.waiter)
            },
            None => {
                assert(self.pending() =~= old(self).pending().remove(id@));
                None
            },
        }
    }
}

impl<W> Multiplexer<W> {
    /// Enters who waits for the reply with an id. Whoever waited for it before is let go.
    fn insert(&mut self, id: Id, waiter: W)
        ensures
            final(self).pending() == old(self).pending().insert(id@, waiter),
            final(self).connected() == old(self).connected(),
    {
        let _ = self.remove(&id);
        proof {
            use_type_invariant(&*self);
        }
        let ghost before = self.calls@;
        let ghost entered = Waiting { id, waiter };
        assert(!self.pending().contains_key(id@));
        let mut calls: Vec<Waiting<W>> = Vec::new();
        std::mem::swap(&mut calls, &mut self.calls);
        calls.push(Waiting { id, waiter });
        proof {
            assert forall|i: int, j: int| 0 <= i < j < calls@.len() implies (
            #[trigger] calls@[i]).id@ != (#[trigger] calls@[j]).id@ by {
                assert(calls@[i] == before[i]);
                if j < before.len() {
                    assert(calls@[j] == before[j]);
                } else {
                    assert(!is_waiting(before, entered.id@));
                    assert(!is_at(before, entered.id@, i));
                }
            }
        }
        self.calls = calls;
        proof {
            assert(self.calls@.remove(before.len() as int) =~= before);
            lemma_removed(self.calls@, before, before.len() as int);
            assert(waiters(before) == old(self).pending().remove(entered.id@));
            assert(self.pending().remove(entered.id@) == waiters(before));
            assert(self.pending() =~= self.pending().remove(entered.id@).insert(
                entered.id@,
                entered.waiter,
            ));
            assert(self.pending() =~= old(self).pending().insert(entered.id@, entered.waiter));
        }
    }

    /// Enters a call, before its request is written.
    ///
    /// It is refused if the connection has ended, since no reply could come, and if the request
    /// has no id. Whoever waited for a reply with the same id is let go.
    pub fn begin_call(&mut self, request: &[u8], waiter: W) -> (entered: Result<Id, MultiplexError>)
        ensures
            match entered {
                Ok(id) => {
                    &&& old(self).connected()
                    &&& frame_id(request@) == Some(id@)
                    &&& final(self).pending() == old(self).pending().insert(id@, waiter)
                },
                Err(error) => {
                    &&& error@ == if !old(self).connected() {
                        MultiplexErrorView::ConnectionClosed
                    } else {
                        MultiplexErrorView::MissingId
                    }
                    &&& old(self).connected() ==> frame_id(request@) is None
                    &&& final(self).pending() == old(self).pending()
                },
            },
            final(self).connected() == old(self).connected(),
    {
        if !self.connected {
            return Err(MultiplexError::ConnectionClosed);
        }
        match parse_id(request) {
            Some(id) => {
                self.insert(id.clone(), waiter);
                Ok(id)
            },
            None => Err(MultiplexError::MissingId),
        }
    }

    /// Whether a notification may be written. Nobody waits for a reply to it.
    pub fn begin_notification(&self) -> (entered: Result<(), MultiplexError>)
        ensures
            match entered {
                Ok(_) => self.connected(),
                Err(error) => !self.connected() && error@ == MultiplexErrorView::ConnectionClosed,
            },
    {
        if self.connected {
            Ok(())
        } else {
            Err(MultiplexError::ConnectionClosed)
        }
    }

    /// What a caller gets: the reply, or a failure if they were let go without one.
    pub fn finish_call(reply: Option<Vec<u8>>) -> (result: Result<Vec<u8>, MultiplexError>)
        ensures
            match (reply, result) {
                (Some(bytes), Ok(same)) => same == bytes,
                (None, Err(error)) => error@ == MultiplexErrorView::ConnectionClosed,
                _ => false,
            },
    {
        match reply {
            Some(bytes) => Ok(bytes),
            None => Err(MultiplexError::ConnectionClosed),
        }
    }

    /// Takes what the reader of the connection has read: a frame, the end of the stream or a
    /// failure.
    ///
    /// A frame goes to the caller who waits for its id, who waits no longer. A frame without an
    /// id, or with one that nobody waits for, is dropped. At the end of the stream and after a
    /// failure the connection has ended, and everybody who waits is let go.
    pub fn read(&mut self, read: Result<Option<Vec<u8>>, TransportError>) -> (action: ReaderAction<
        W,
    >)
        ensures
            match read {
                Ok(Some(frame)) => {
                    &&& final(self).connected() == old(self).connected()
                    &&& match action {
                        ReaderAction::Deliver(waiter, same) => {
                            &&& same == frame
                            &&& frame_id(frame@) is Some
                            &&& old(self).pending().contains_pair(frame_id(frame@)->0, waiter)
                            &&& final(self).pending() == old(self).pending().remove(
                                frame_id(frame@)->0,
                            )
                        },
                        ReaderAction::Continue => {
                            &&& frame_id(frame@) is None || !old(self).pending().contains_key(
                                frame_id(frame@)->0,
                            )
                            &&& final(self).pending() == old(self).pending()
                        },
                        ReaderAction::Stop => false,
                    }
                },
                _ => {
                    &&& action is Stop
                    &&& !final(self).connected()
                    &&& final(self).pending() == Map::<IdView, W>::empty()
                },
            },
    {
        match read {
            Ok(Some(frame)) => match parse_id(frame.as_slice()) {
                Some(id) => match self.remove(&id) {
                    Some(waiter) => ReaderAction::Deliver(waiter, frame),
                    None => {
                        assert(self.pending() =~= old(self).pending());
                        ReaderAction::Continue
                    },
                },
                None => ReaderAction::Continue,
            },
            _ => {
                self.close();
                ReaderAction::Stop
            },
        }
    }

    /// Ends the connection: nobody waits any longer, and no call is entered any more.
    pub fn close(&mut self)
        ensures
            !final(self).connected(),
            final(self).pending() == Map::<IdView, W>::empty(),
    {
        self.calls = Vec::new();
        self.connected = false;
        assert(self.pending() =~= Map::<IdView, W>::empty());
    }

    /// Gives up a call, if it is still under way: when its request could not be written, or when
    /// the caller has gone away.
    pub fn cancel(&mut self, id: &Id)
        ensures
            final(self).pending() == old(self).pending().remove(id@),
            final(self).connected() == old(self).connected(),
    {
        let _ = self.remove(id);
    }

    /// The number of calls that are under way.
    pub fn pending_len(&self) -> (len: usize)
        ensures
            len == self.pending().dom().len(),
    {
        proof {
            use_type_invariant(self);
            let ids = Seq::new(self.calls@.len(), |i: int| self.calls@[i].id@);
            assert(ids.no_duplicates());
            ids.unique_seq_to_set();
            assert(ids.to_set() =~= self.pending().dom()) by {
                assert forall|id: IdView| ids.to_set().contains(id) implies self.pending().dom(
                ).contains(id) by {
                    let i = choose|i: int| 0 <= i < ids.len() && ids[i] == id;
                    assert(is_at(self.calls@, id, i));
                }
                assert forall|id: IdView| self.pending().dom().contains(id) implies ids.to_set(
                ).contains(id) by {
                    let i = choose|i: int| is_at(self.calls@, id, i);
                    assert(ids[i] == id);
                }
            }
        }
        self.calls.len()
    }
}

/// A call that was taken out is gone, and the others are as they were.
proof fn lemma_removed<W>(before: Seq<Waiting<W>>, after: Seq<Waiting<W>>, i: int)
    requires
        0 <= i < before.len(),
        after == before.remove(i),
        forall|j: int, k: int|
            0 <= j < k < before.len() ==> (#[trigger] before[j]).id@ != (#[trigger] before[k]).id@,
    ensures
        waiters(after) == waiters(before).remove(before[i].id@),
        waiters(before).contains_pair(before[i].id@, before[i].waiter),
{
    assert forall|id: IdView| id != before[i].id@ implies #[trigger] is_waiting(before, id)
        == is_waiting(after, id) by {
        if is_waiting(before, id) {
            let j = choose|j: int| is_at(before, id, j);
            let k = if j < i { j } else { j - 1 };
            assert(is_at(after, id, k));
        }
        if is_waiting(after, id) {
            let j = choose|j: int| is_at(after, id, j);
            let k = if j < i { j } else { j + 1 };
            assert(is_at(before, id, k));
        }
    }
    assert forall|id: IdView, j: int, k: int|
        #[trigger] is_at(before, id, j) && #[trigger] is_at(after, id, k) implies before[j]
        == after[k] by {
        let m = if k < i { k } else { k + 1 };
        assert(after[k] == before[m]);
        if j < m {
            assert(before[j].id@ != before[m].id@);
        }
        if m < j {
            assert(before[m].id@ != before[j].id@);
        }
    }
    assert forall|j: int| !is_at(after, before[i].id@, j) by {
        if 0 <= j < after.len() {
            let m = if j < i { j } else { j + 1 };
            assert(after[j] == before[m]);
            if m < i {
                assert(before[m].id@ != before[i].id@);
            } else {
                assert(before[i].id@ != before[m].id@);
            }
        }
    }
    assert(is_at(before, before[i].id@, i));
    let found = choose|j: int| is_at(before, before[i].id@, j);
    if found < i {
        assert(before[found].id@ != before[i].id@);
    }
    if i < found {
        assert(before[i].id@ != before[found].id@);
    }
    assert forall|id: IdView| #[trigger] waiters(after).contains_key(id) implies waiters(
        before,
    ).contains_key(id) && waiters(after)[id] == waiters(before)[id] by {
        let j = choose|j: int| is_at(before, id, j);
        let k = choose|k: int| is_at(after, id, k);
        assert(is_waiting(before, id));
        assert(is_at(before, id, j) && is_at(after, id, k));
    }
    assert(waiters(after) =~= waiters(before).remove(before[i].id@));
}

} // verus!
