//! The editor bridge: the requests an editor sends to a Pi session, the events
//! that come back, and the protocol that a client follows while reading them.
use crate::registry::Session;
use core::time::Duration;
use vstd::prelude::*;
use vstd::string::*;

verus! {

/// The largest event line a client accepts, in bytes.
pub const MAX_EVENT_BYTES: usize = 1048576;

/// A range of a file in the editor.
#[derive(Debug, Clone, PartialEq, Eq)]
pub struct EditorSource {
    pub path: String,
    pub start_line: usize,
    pub end_line: usize,
    pub content: String,
}

/// What an editor asks of a session.
#[derive(Debug, Clone, PartialEq, Eq)]
pub enum EditorRequest {
    Query { query: String, source: EditorSource },
    Explain { source: EditorSource, focus: Option<String> },
    Review { source: EditorSource, focus: Option<String> },
    Followup { question: String },
    AcceptAction { action_id: u128 },
}

/// An action that a completed answer offers.
#[derive(Debug, Clone, PartialEq, Eq)]
pub struct BridgeAction {
    pub id: u128,
    pub title: String,
    pub description: String,
}

/// An event that a session sends back for a request.
#[derive(Debug, Clone, PartialEq, Eq)]
pub enum BridgeEvent {
    Accepted { id: u128 },
    Delta { id: u128, text: String },
    Complete { id: u128, text: String, actions: Vec<BridgeAction> },
    Error { id: u128, code: String, message: String },
}

/// A client of session bridges.
#[derive(Debug, Clone, Copy, PartialEq, Eq)]
pub struct BridgeClient {
    pub timeout: Duration,
}

/// Why a bridge request failed.
#[derive(Debug, PartialEq, Eq)]
pub enum BridgeError {
    UnsupportedSession,
    Connect { socket: String, message: String },
    Timeout(Duration),
    Disconnected,
    EventTooLarge,
    RequestIdMismatch,
    EventBeforeAcceptance,
    Remote { code: String, message: String },
    Io(String),
    Json(String),
}

/// What a client does with an event it has read.
#[derive(Debug, PartialEq, Eq)]
pub enum BridgeStep {
    /// The event is not handed on, and the request fails.
    Reject(BridgeError),
    /// The event is handed on, and reading goes on with this acceptance state.
    Deliver { accepted: bool },
    /// The event is handed on, and the request ends with this result.
    Finish(Result<(), BridgeError>),
}

/// Where an exchange stands after some events.
#[derive(Debug, PartialEq, Eq)]
pub enum Exchange {
    Pending { accepted: bool },
    Done(Result<(), BridgeError>),
}

/// What one read from the bridge socket gave.
#[derive(Debug, PartialEq, Eq)]
pub enum BridgeRead {
    /// The stream ended.
    Closed,
    /// Nothing came within the client's timeout.
    TimedOut,
    /// The read failed otherwise.
    Failed(String),
    /// A line of `bytes` bytes that holds an event.
    Line { bytes: usize, event: BridgeEvent },
    /// A line of `bytes` bytes that is not an event.
    Malformed { bytes: usize, message: String },
}

impl BridgeEvent {
    /// The request an event belongs to.
    pub open spec fn event_id(self) -> u128 {
        match self {
            BridgeEvent::Accepted { id } => id,
            BridgeEvent::Delta { id, .. } => id,
            BridgeEvent::Complete { id, .. } => id,
            BridgeEvent::Error { id, .. } => id,
        }
    }

    /// The text an event carries: that of a delta or of the complete answer.
    pub fn text(&self) -> (t: Option<&str>)
        ensures
            (match *self {
                BridgeEvent::Delta { text, .. } => t matches Some(x) && x@ == text@,
                BridgeEvent::Complete { text, .. } => t matches Some(x) && x@ == text@,
                _ => t is None,
            }),
    {
        match self {
            BridgeEvent::Delta { text, .. } => Some(text.as_str()),
            BridgeEvent::Complete { text, .. } => Some(text.as_str()),
            BridgeEvent::Accepted { .. } => None,
            BridgeEvent::Error { .. } => None,
        }
    }

    /// The request an event belongs to.
    pub fn id(&self) -> (id: u128)
        ensures
            id == self.event_id(),
    {
        match self {
            BridgeEvent::Accepted { id } => *id,
            BridgeEvent::Delta { id, .. } => *id,
            BridgeEvent::Complete { id, .. } => *id,
            BridgeEvent::Error { id, .. } => *id,
        }
    }
}

/// The protocol step for an event read while the request is `accepted` or
/// not: an event for another request is rejected; before acceptance only
/// `Accepted` and `Error` are taken; `Accepted` marks the request accepted,
/// `Complete` ends it successfully, `Error` ends it with the remote error, and
/// `Delta` lets reading go on.
pub open spec fn bridge_step(accepted: bool, request_id: u128, event: BridgeEvent) -> BridgeStep {
    if event.event_id() != request_id {
        BridgeStep::Reject(BridgeError::RequestIdMismatch)
    } else if !accepted && (event is Delta || event is Complete) {
        BridgeStep::Reject(BridgeError::EventBeforeAcceptance)
    } else {
        match event {
            BridgeEvent::Accepted { .. } => BridgeStep::Deliver { accepted: true },
            BridgeEvent::Delta { .. } => BridgeStep::Deliver { accepted },
            BridgeEvent::Complete { .. } => BridgeStep::Finish(Ok(())),
            BridgeEvent::Error { code, message, .. } => BridgeStep::Finish(
                Err(BridgeError::Remote { code, message }),
            ),
        }
    }
}

/// Where an exchange stands after `events`, read in order from the start.
pub open spec fn exchange(request_id: u128, events: Seq<BridgeEvent>) -> Exchange
    decreases events.len(),
{
    if events.len() == 0 {
        Exchange::Pending { accepted: false }
    } else {
        match exchange(request_id, events.drop_last()) {
            Exchange::Done(r) => Exchange::Done(r),
            Exchange::Pending { accepted } => match bridge_step(
                accepted,
                request_id,
                events.last(),
            ) {
                BridgeStep::Reject(e) => Exchange::Done(Err(e)),
                BridgeStep::Deliver { accepted } => Exchange::Pending { accepted },
                BridgeStep::Finish(r) => Exchange::Done(r),
            },
        }
    }
}

/// What a client does with a read while the request is `accepted` or not:
/// the end of the stream, a timeout or a failed read ends the request; a line
/// is refused when empty or over `MAX_EVENT_BYTES`, then when it is not an
/// event; an event goes through `bridge_step`.
pub open spec fn read_step(accepted: bool, request_id: u128, timeout: Duration, read: BridgeRead) -> BridgeStep {
    match read {
        BridgeRead::Closed => BridgeStep::Reject(BridgeError::Disconnected),
        BridgeRead::TimedOut => BridgeStep::Reject(BridgeError::Timeout(timeout)),
        BridgeRead::Failed(message) => BridgeStep::Reject(BridgeError::Io(message)),
        BridgeRead::Line { bytes, event } => if bytes == 0 {
            BridgeStep::Reject(BridgeError::Disconnected)
        } else if bytes > MAX_EVENT_BYTES {
            BridgeStep::Reject(BridgeError::EventTooLarge)
        } else {
            bridge_step(accepted, request_id, event)
        },
        BridgeRead::Malformed { bytes, message } => if bytes == 0 {
            BridgeStep::Reject(BridgeError::Disconnected)
        } else if bytes > MAX_EVENT_BYTES {
            BridgeStep::Reject(BridgeError::EventTooLarge)
        } else {
            BridgeStep::Reject(BridgeError::Json(message))
        },
    }
}

/// Where a request stands after `reads`, and the events handed on so far.
pub open spec fn request_after(request_id: u128, timeout: Duration, reads: Seq<BridgeRead>) -> (
    Exchange,
    Seq<BridgeEvent>,
)
    decreases reads.len(),
{
    if reads.len() == 0 {
        (Exchange::Pending { accepted: false }, Seq::empty())
    } else {
        let (state, events) = request_after(request_id, timeout, reads.drop_last());
        match state {
            Exchange::Done(r) => (Exchange::Done(r), events),
            Exchange::Pending { accepted } => {
                let handed = match reads.last() {
                    BridgeRead::Line { event, .. } => events.push(event),
                    _ => events,
                };
                match read_step(accepted, request_id, timeout, reads.last()) {
                    BridgeStep::Reject(e) => (Exchange::Done(Err(e)), events),
                    BridgeStep::Deliver { accepted } => (Exchange::Pending { accepted }, handed),
                    BridgeStep::Finish(r) => (Exchange::Done(r), handed),
                }
            },
        }
    }
}

/// What holds of a request's state and the events handed on.
pub open spec fn handed_on_well(request_id: u128, state: Exchange, events: Seq<BridgeEvent>) -> bool {
    &&& forall|j: int| 0 <= j < events.len() ==> (#[trigger] events[j]).event_id() == request_id
    &&& events.len() > 0 ==> (events[0] is Accepted || events[0] is Error)
    &&& forall|j: int|
        0 <= j < events.len() - 1 ==> !(#[trigger] events[j] is Complete) && !(events[j] is Error)
    &&& state is Pending ==> forall|j: int|
        0 <= j < events.len() ==> !(#[trigger] events[j] is Complete) && !(events[j] is Error)
    &&& state == (Exchange::Pending { accepted: false }) ==> events.len() == 0
    &&& state == (Exchange::Pending { accepted: true }) ==> events.len() > 0
    &&& state == Exchange::Done(Ok::<(), BridgeError>(())) <==> (state is Done && events.len() > 0
        && events.last() is Complete)
}

impl BridgeClient {
    /// A client that waits at most `timeout` for each read and write.
    pub fn new(timeout: Duration) -> (c: BridgeClient)
        ensures
            c.timeout == timeout,
    {
        BridgeClient { timeout }
    }

    /// The socket a session's bridge listens on.
    pub fn socket_of(session: &Session) -> (r: Result<String, BridgeError>)
        ensures
            session.bridge_socket matches Some(s) ==> r == Ok::<String, BridgeError>(s),
            session.bridge_socket is None ==> r == Err::<String, BridgeError>(
                BridgeError::UnsupportedSession,
            ),
    {
        match &session.bridge_socket {
            Some(s) => Ok(s.clone()),
            None => Err(BridgeError::UnsupportedSession),
        }
    }

    /// Refuses a read that ended the stream or that is too long to be an event.
    pub fn check_line(bytes: usize) -> (r: Result<(), BridgeError>)
        ensures
            bytes == 0 ==> r == Err::<(), BridgeError>(BridgeError::Disconnected),
            bytes > MAX_EVENT_BYTES ==> r == Err::<(), BridgeError>(BridgeError::EventTooLarge),
            0 < bytes <= MAX_EVENT_BYTES ==> r is Ok,
    {
        if bytes == 0 {
            Err(BridgeError::Disconnected)
        } else if bytes > MAX_EVENT_BYTES {
            Err(BridgeError::EventTooLarge)
        } else {
            Ok(())
        }
    }

    /// What this client does with a read (see `read_step`).
    pub fn read_step(&self, accepted: bool, request_id: u128, read: &BridgeRead) -> (s: BridgeStep)
        ensures
            s == read_step(accepted, request_id, self.timeout, *read),
    {
        match read {
            BridgeRead::Closed => BridgeStep::Reject(BridgeError::Disconnected),
            BridgeRead::TimedOut => BridgeStep::Reject(BridgeError::Timeout(self.timeout)),
            BridgeRead::Failed(message) => BridgeStep::Reject(BridgeError::Io(message.clone())),
            BridgeRead::Line { bytes, event } => match BridgeClient::check_line(*bytes) {
                Err(e) => BridgeStep::Reject(e),
                Ok(()) => BridgeClient::step(accepted, request_id, event),
            },
            BridgeRead::Malformed { bytes, message } => match BridgeClient::check_line(*bytes) {
                Err(e) => BridgeStep::Reject(e),
                Ok(()) => BridgeStep::Reject(BridgeError::Json(message.clone())),
            },
        }
    }

    /// The protocol step for an event (see `bridge_step`).
    pub fn step(accepted: bool, request_id: u128, event: &BridgeEvent) -> (s: BridgeStep)
        ensures
            s == bridge_step(accepted, request_id, *event),
    {
        if event.id() != request_id {
            return BridgeStep::Reject(BridgeError::RequestIdMismatch);
        }
        match event {
            BridgeEvent::Accepted { .. } => BridgeStep::Deliver { accepted: true },
            BridgeEvent::Delta { .. } => {
                if accepted {
                    BridgeStep::Deliver { accepted }
                } else {
                    BridgeStep::Reject(BridgeError::EventBeforeAcceptance)
                }
            },
            BridgeEvent::Complete { .. } => {
                if accepted {
                    BridgeStep::Finish(Ok(()))
                } else {
                    BridgeStep::Reject(BridgeError::EventBeforeAcceptance)
                }
            },
            BridgeEvent::Error { code, message, .. } => BridgeStep::Finish(
                Err(BridgeError::Remote { code: code.clone(), message: message.clone() }),
            ),
        }
    }
}

/// Law: an event for another request is never handed on, whatever the state.
pub proof fn law_foreign_events_rejected(accepted: bool, request_id: u128, event: BridgeEvent)
    requires
        event.event_id() != request_id,
    ensures
        bridge_step(accepted, request_id, event) == BridgeStep::Reject(
            BridgeError::RequestIdMismatch,
        ),
{
}

/// Law: once a request is accepted it stays accepted while reading goes on.
pub proof fn law_acceptance_kept(request_id: u128, event: BridgeEvent)
    ensures
        bridge_step(true, request_id, event) matches BridgeStep::Deliver { accepted } ==> accepted,
{
}

proof fn lemma_unaccepted_is_start(request_id: u128, events: Seq<BridgeEvent>)
    ensures
        exchange(request_id, events) == (Exchange::Pending { accepted: false }) ==> events.len()
            == 0,
    decreases events.len(),
{
    if events.len() > 0 {
        lemma_unaccepted_is_start(request_id, events.drop_last());
    }
}

/// Law: a request ends successfully, or is in progress, only after its first
/// event accepted it: no answer counts unless the session first took the
/// request.
pub proof fn law_success_needs_acceptance(request_id: u128, events: Seq<BridgeEvent>)
    requires
        exchange(request_id, events) == Exchange::Done(Ok::<(), BridgeError>(()))
            || exchange(request_id, events) == (Exchange::Pending { accepted: true }),
    ensures
        events.len() > 0,
        events[0] is Accepted,
        events[0].event_id() == request_id,
    decreases events.len(),
{
    let t = events.drop_last();
    if t.len() == 0 {
        assert(events.last() == events[0]);
    } else {
        match exchange(request_id, t) {
            Exchange::Done(r) => {
                law_success_needs_acceptance(request_id, t);
            },
            Exchange::Pending { accepted } => {
                if accepted {
                    law_success_needs_acceptance(request_id, t);
                } else {
                    lemma_unaccepted_is_start(request_id, t);
                }
            },
        }
        assert(t[0] == events[0]);
    }
}

/// Events that keep a request in progress after acceptance: the first accepts
/// it, every one belongs to the request, and the rest are acceptances or
/// deltas.
pub open spec fn accepted_stream(request_id: u128, events: Seq<BridgeEvent>) -> bool {
    &&& events.len() >= 1
    &&& events[0] is Accepted
    &&& forall|j: int| 0 <= j < events.len() ==> (#[trigger] events[j]).event_id() == request_id
    &&& forall|j: int| 1 <= j < events.len() ==> (#[trigger] events[j] is Accepted || events[j] is Delta)
}

/// The exchanges that succeed: an accepted stream followed by the request's
/// `Complete` event at index `k`; what comes after is never read.
pub open spec fn completes_at(request_id: u128, events: Seq<BridgeEvent>, k: int) -> bool {
    &&& 1 <= k < events.len()
    &&& accepted_stream(request_id, events.take(k))
    &&& events[k] is Complete
    &&& events[k].event_id() == request_id
}

/// An exchange is in progress and accepted exactly after an accepted stream,
/// and in progress but not accepted only before any event.
proof fn lemma_pending(request_id: u128, events: Seq<BridgeEvent>)
    ensures
        exchange(request_id, events) == (Exchange::Pending { accepted: true }) <==> accepted_stream(
            request_id,
            events,
        ),
        exchange(request_id, events) == (Exchange::Pending { accepted: false }) <==> events.len()
            == 0,
    decreases events.len(),
{
    if events.len() > 0 {
        let t = events.drop_last();
        lemma_pending(request_id, t);
        let e = events.last();
        assert forall|j: int| 0 <= j < t.len() implies t[j] == events[j] by {}
        if accepted_stream(request_id, events) && t.len() > 0 {
            assert(accepted_stream(request_id, t)) by {
                assert(t[0] == events[0]);
                assert forall|j: int| 0 <= j < t.len() implies (#[trigger] t[j]).event_id()
                    == request_id by {
                    assert(t[j] == events[j]);
                }
                assert forall|j: int| 1 <= j < t.len() implies (#[trigger] t[j] is Accepted
                    || t[j] is Delta) by {
                    assert(t[j] == events[j]);
                }
            }
            assert(events[events.len() - 1] == e);
        }
        if accepted_stream(request_id, events) && t.len() == 0 {
            assert(events[0] == e);
        }
        if exchange(request_id, events) == (Exchange::Pending { accepted: true }) {
            lemma_unaccepted_is_start(request_id, t);
            assert(accepted_stream(request_id, events)) by {
                if t.len() == 0 {
                    assert(events[0] == e);
                } else {
                    assert(events[0] == t[0]);
                    assert forall|j: int| 0 <= j < events.len() implies (
                    #[trigger] events[j]).event_id() == request_id by {
                        if j < t.len() {
                            assert(t[j] == events[j]);
                        }
                    }
                    assert forall|j: int| 1 <= j < events.len() implies (
                    #[trigger] events[j] is Accepted || events[j] is Delta) by {
                        if j < t.len() {
                            assert(t[j] == events[j]);
                        }
                    }
                }
            }
        }
    }
}

/// Law: a request succeeds exactly when the session first accepts it, then
/// sends deltas (or repeats its acceptance) for it, then completes it; no
/// other sequence of events gives success, and whatever follows the
/// completion is ignored.
pub proof fn law_success_is_accept_deltas_complete(request_id: u128, events: Seq<BridgeEvent>)
    ensures
        exchange(request_id, events) == Exchange::Done(Ok::<(), BridgeError>(())) <==> exists|k: int|
            completes_at(request_id, events, k),
    decreases events.len(),
{
    if exists|k: int| completes_at(request_id, events, k) {
        let k = choose|k: int| completes_at(request_id, events, k);
        let head = events.take(k + 1);
        assert(head.drop_last() =~= events.take(k));
        assert(head.last() == events[k]);
        lemma_pending(request_id, events.take(k));
        assert(exchange(request_id, head) == Exchange::Done(Ok::<(), BridgeError>(())));
        law_done_is_final(request_id, head, events.skip(k + 1));
        assert(head + events.skip(k + 1) =~= events);
    }
    if exchange(request_id, events) == Exchange::Done(Ok::<(), BridgeError>(())) {
        let t = events.drop_last();
        lemma_pending(request_id, t);
        match exchange(request_id, t) {
            Exchange::Done(r) => {
                law_success_is_accept_deltas_complete(request_id, t);
                let k = choose|k: int| completes_at(request_id, t, k);
                assert(events.take(k) =~= t.take(k));
                assert(events[k] == t[k]);
                assert(completes_at(request_id, events, k));
            },
            Exchange::Pending { accepted } => {
                let k = t.len() as int;
                assert(events.take(k) =~= t);
                assert(events[k] == events.last());
                assert(completes_at(request_id, events, k));
            },
        }
    }
}

/// Law: over any reads, every event a request hands on belongs to it; the
/// first is an acceptance or an error; a completion or an error is only ever
/// the last; and the request succeeds exactly when it is over and the last
/// event handed on is its completion.
pub proof fn law_request_hands_on_its_own_events(
    request_id: u128,
    timeout: Duration,
    reads: Seq<BridgeRead>,
)
    ensures
        handed_on_well(
            request_id,
            request_after(request_id, timeout, reads).0,
            request_after(request_id, timeout, reads).1,
        ),
    decreases reads.len(),
{
    if reads.len() > 0 {
        let t = reads.drop_last();
        law_request_hands_on_its_own_events(request_id, timeout, t);
        let (st, ev) = request_after(request_id, timeout, t);
        let (st2, ev2) = request_after(request_id, timeout, reads);
        match st {
            Exchange::Done(r) => {},
            Exchange::Pending { accepted } => {
                match reads.last() {
                    BridgeRead::Line { bytes, event } => {
                        if ev2 == ev.push(event) {
                            assert(ev2.last() == event);
                            assert forall|j: int| 0 <= j < ev.len() implies ev2[j] == ev[j] by {}
                            if ev.len() == 0 {
                                assert(ev2[0] == event);
                            } else {
                                assert(ev2[0] == ev[0]);
                            }
                        }
                    },
                    _ => {},
                }
            },
        }
    }
}

/// The events on the lines of `reads`, in order.
pub open spec fn events_read(reads: Seq<BridgeRead>) -> Seq<BridgeEvent>
    decreases reads.len(),
{
    if reads.len() == 0 {
        Seq::empty()
    } else {
        match reads.last() {
            BridgeRead::Line { event, .. } => events_read(reads.drop_last()).push(event),
            _ => events_read(reads.drop_last()),
        }
    }
}

/// Law: the events a request hands on are a prefix of the events it read, in
/// the order read; while the request goes on, it has handed on every one.
pub proof fn law_request_hands_on_a_prefix(request_id: u128, timeout: Duration, reads: Seq<BridgeRead>)
    ensures
        request_after(request_id, timeout, reads).1.is_prefix_of(events_read(reads)),
        request_after(request_id, timeout, reads).0 is Pending ==> request_after(
            request_id,
            timeout,
            reads,
        ).1 == events_read(reads),
    decreases reads.len(),
{
    if reads.len() > 0 {
        let t = reads.drop_last();
        law_request_hands_on_a_prefix(request_id, timeout, t);
        let (st, ev) = request_after(request_id, timeout, t);
        let er = events_read(t);
        let (st2, ev2) = request_after(request_id, timeout, reads);
        let er2 = events_read(reads);
        assert(ev.is_prefix_of(er));
        assert(er.is_prefix_of(er2)) by {
            match reads.last() {
                BridgeRead::Line { event, .. } => {
                    assert(er2 == er.push(event));
                    assert forall|j: int| 0 <= j < er.len() implies er2[j] == er[j] by {}
                },
                _ => {},
            }
        }
        assert(ev2.is_prefix_of(er2)) by {
            match st {
                Exchange::Done(r) => {
                    assert forall|j: int| 0 <= j < ev2.len() implies ev2[j] == er2[j] by {
                        assert(ev2[j] == er[j]);
                    }
                },
                Exchange::Pending { accepted } => {
                    match reads.last() {
                        BridgeRead::Line { event, .. } => {
                            assert(er2 == er.push(event));
                            if ev2 == ev.push(event) {
                                assert(ev2 =~= er2);
                            } else {
                                assert forall|j: int| 0 <= j < ev2.len() implies ev2[j] == er2[j] by {
                                    assert(ev2[j] == er[j]);
                                }
                            }
                        },
                        _ => {
                            assert(ev2 == ev);
                            assert forall|j: int| 0 <= j < ev2.len() implies ev2[j] == er2[j] by {
                                assert(ev2[j] == er[j]);
                            }
                        },
                    }
                },
            }
        }
    }
}

/// Law: a request that is still going on ends with `Disconnected` when the
/// stream ends, with `Timeout` when nothing comes in time, and with
/// `EventTooLarge` for a line over the limit; nothing is handed on then.
pub proof fn law_request_stops_on_bad_reads(
    request_id: u128,
    timeout: Duration,
    reads: Seq<BridgeRead>,
    event: BridgeEvent,
)
    requires
        request_after(request_id, timeout, reads).0 is Pending,
    ensures
        request_after(request_id, timeout, reads.push(BridgeRead::Closed)) == (Exchange::Done(
            Err::<(), BridgeError>(BridgeError::Disconnected),
        ), request_after(request_id, timeout, reads).1),
        request_after(request_id, timeout, reads.push(BridgeRead::TimedOut)) == (Exchange::Done(
            Err::<(), BridgeError>(BridgeError::Timeout(timeout)),
        ), request_after(request_id, timeout, reads).1),
        request_after(
            request_id,
            timeout,
            reads.push(BridgeRead::Line { bytes: (MAX_EVENT_BYTES + 1) as usize, event }),
        ) == (Exchange::Done(Err::<(), BridgeError>(BridgeError::EventTooLarge)), request_after(
            request_id,
            timeout,
            reads,
        ).1),
{
    assert(reads.push(BridgeRead::Closed).drop_last() =~= reads);
    assert(reads.push(BridgeRead::TimedOut).drop_last() =~= reads);
    assert(reads.push(BridgeRead::Line { bytes: (MAX_EVENT_BYTES + 1) as usize, event }).drop_last()
        =~= reads);
}

/// Law: once an exchange is over, further events change nothing.
pub proof fn law_done_is_final(request_id: u128, events: Seq<BridgeEvent>, more: Seq<BridgeEvent>)
    requires
        exchange(request_id, events) is Done,
    ensures
        exchange(request_id, events + more) == exchange(request_id, events),
    decreases more.len(),
{
    if more.len() > 0 {
        law_done_is_final(request_id, events, more.drop_last());
        assert((events + more).drop_last() =~= events + more.drop_last());
    } else {
        assert(events + more =~= events);
    }
}

} // verus!
