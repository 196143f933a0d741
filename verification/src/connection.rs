//! The life of one connection.
//!
//! A connection serves one request and is then closed. `handle_client` says
//! what the bytes read so far call for. The machine around it decides what
//! happens next; the caller owns the socket and the file system, performs
//! each action, and reports what came of it as the next event. The states
//! follow one another in a fixed order and none is entered twice:
//!
//! `Idle → Parsing → Routing → Responding → Closed`

use vstd::prelude::*;
use vstd::string::*;
use crate::codec::{
    decode, has_bad_length, header_lines, lemma_decode_stable, parse_request, scan_head,
    DecodeError,
};
use crate::config::ServerConfig;
use crate::message::{wire_format, RequestView, ResponseView};
use crate::handlers::{
    file_result, plain_text, response_of, text_response, FileOperation, FileOperationView,
    FileOutcome, FileOutcomeView,
};
use crate::routing::{complete_file_request, handle_request, handled, Handling, HandlingView};
use crate::text::push_all;

verus! {

/// What the bytes read from a connection call for.
#[derive(Debug)]
pub enum Answer {
    /// Nothing yet: the request is not whole.
    ReadOn,
    /// This file operation, whose outcome decides the response.
    Perform(FileOperation),
    /// This response, as it goes over the wire.
    Respond(Vec<u8>),
}

/// The model of an `Answer`.
pub enum AnswerView {
    ReadOn,
    Perform(FileOperationView),
    Respond(Seq<u8>),
}

impl View for Answer {
    type V = AnswerView;

    open spec fn view(&self) -> AnswerView {
        match self {
            Answer::ReadOn => AnswerView::ReadOn,
            Answer::Perform(operation) => AnswerView::Perform(operation@),
            Answer::Respond(bytes) => AnswerView::Respond(bytes@),
        }
    }
}

/// The response to a stream that holds no request, where one is owed: a
/// malformed request line or length header is answered with 400. A stream
/// that merely stopped short is not answered.
pub open spec fn decode_failure_response(error: DecodeError) -> Option<ResponseView> {
    match error {
        DecodeError::MalformedRequestLine => Some(
            text_response(400, "Invalid request line".spec_bytes()),
        ),
        DecodeError::MalformedHeader => Some(
            text_response(400, "Invalid Content-Length header".spec_bytes()),
        ),
        DecodeError::IncompleteHead => None,
        DecodeError::IncompleteBody => None,
    }
}

/// The answer that comes of the router's decision.
pub open spec fn answer_to(handling: HandlingView) -> AnswerView {
    match handling {
        HandlingView::Complete(response) => AnswerView::Respond(wire_format(response)),
        HandlingView::NeedsFile(operation) => AnswerView::Perform(operation),
    }
}

/// Whether `answer` is what the stream `received` calls for: what the router
/// decides on the request that it holds, the report of what is malformed in
/// it, or nothing as long as it stops short.
pub open spec fn answers(received: Seq<u8>, directory: Seq<char>, answer: AnswerView) -> bool {
    match decode(received) {
        Ok(request) => exists|handling: HandlingView|
            handled(request, directory, handling) && #[trigger] answer_to(handling) == answer,
        Err(error) => match decode_failure_response(error) {
            Some(response) => answer == AnswerView::Respond(wire_format(response)),
            None => answer == AnswerView::ReadOn,
        },
    }
}

/// Decodes what was read from a connection, routes the request, and encodes
/// the response.
pub fn handle_client(received: &[u8], config: &ServerConfig) -> (answer: Answer)
    ensures
        answers(received@, config.base_dir@, answer@),
{
    match parse_request(received) {
        Ok(request) => {
            let handling = handle_request(request, config);
            let ghost decision = handling@;
            let answer = match handling {
                Handling::Complete(response) => Answer::Respond(response.to_bytes()),
                Handling::NeedsFile(operation) => Answer::Perform(operation),
            };
            assert(answer_to(decision) == answer@);
            answer
        },
        Err(DecodeError::MalformedRequestLine) => Answer::Respond(
            plain_text(400, "Invalid request line".as_bytes_vec()).to_bytes(),
        ),
        Err(DecodeError::MalformedHeader) => Answer::Respond(
            plain_text(400, "Invalid Content-Length header".as_bytes_vec()).to_bytes(),
        ),
        Err(_) => Answer::ReadOn,
    }
}

/// Where a connection stands.
#[derive(Debug, Clone, Copy, PartialEq, Eq, Structural)]
pub enum ConnectionState {
    /// Accepted, nothing read yet.
    Idle,
    /// Reading the request.
    Parsing,
    /// The request is read; a file operation is under way.
    Routing,
    /// The response is being written.
    Responding,
    /// Done. The socket is to be closed.
    Closed,
}

/// The place of a state in the order of a connection's life.
pub open spec fn rank(state: ConnectionState) -> nat {
    match state {
        ConnectionState::Idle => 0,
        ConnectionState::Parsing => 1,
        ConnectionState::Routing => 2,
        ConnectionState::Responding => 3,
        ConnectionState::Closed => 4,
    }
}

/// What happened on the connection.
#[derive(Debug)]
pub enum ConnectionEvent {
    /// The connection was handed to its handler.
    Started,
    /// These bytes were read.
    Received(Vec<u8>),
    /// The peer will send no more.
    EndOfStream,
    /// A read or a write failed or ran out of time.
    Failed,
    /// The file operation ended.
    FileDone(FileOutcome),
    /// The response was written in full.
    Sent,
}

/// The model of a `ConnectionEvent`.
pub enum EventView {
    Started,
    Received(Seq<u8>),
    EndOfStream,
    Failed,
    FileDone(FileOutcomeView),
    Sent,
}

impl View for ConnectionEvent {
    type V = EventView;

    open spec fn view(&self) -> EventView {
        match self {
            ConnectionEvent::Started => EventView::Started,
            ConnectionEvent::Received(bytes) => EventView::Received(bytes@),
            ConnectionEvent::EndOfStream => EventView::EndOfStream,
            ConnectionEvent::Failed => EventView::Failed,
            ConnectionEvent::FileDone(outcome) => EventView::FileDone(outcome@),
            ConnectionEvent::Sent => EventView::Sent,
        }
    }
}

/// What the caller is to do next.
#[derive(Debug)]
pub enum ConnectionAction {
    /// Read more bytes and report them.
    Read,
    /// Perform the file operation and report its outcome.
    PerformFile(FileOperation),
    /// Write these bytes and report when they are out.
    Send(Vec<u8>),
    /// Close the socket. Nothing more will be asked.
    Close,
}

/// The model of a `ConnectionAction`.
pub enum ActionView {
    Read,
    PerformFile(FileOperationView),
    Send(Seq<u8>),
    Close,
}

impl View for ConnectionAction {
    type V = ActionView;

    open spec fn view(&self) -> ActionView {
        match self {
            ConnectionAction::Read => ActionView::Read,
            ConnectionAction::PerformFile(operation) => ActionView::PerformFile(operation@),
            ConnectionAction::Send(bytes) => ActionView::Send(bytes@),
            ConnectionAction::Close => ActionView::Close,
        }
    }
}

/// The model of a connection.
pub struct ConnectionView {
    pub state: ConnectionState,
    /// The directory that files are served from.
    pub directory: Seq<char>,
    /// The bytes read so far, while the request is being read.
    pub received: Seq<u8>,
    /// The name of the file that is being read or written, while that is
    /// under way.
    pub file: Seq<u8>,
}

/// One connection's handler.
pub struct Connection {
    state: ConnectionState,
    config: ServerConfig,
    received: Vec<u8>,
    file: Vec<u8>,
}

impl View for Connection {
    type V = ConnectionView;

    closed spec fn view(&self) -> ConnectionView {
        ConnectionView {
            state: self.state,
            directory: self.config.base_dir@,
            received: self.received@,
            file: self.file@,
        }
    }
}

/// The connection in `state`, holding nothing.
pub open spec fn at(before: ConnectionView, state: ConnectionState) -> ConnectionView {
    ConnectionView { state, received: Seq::empty(), file: Seq::empty(), ..before }
}

/// What a connection does about an answer to the stream `received`: it
/// reads on and keeps what it has read, starts the file operation and keeps
/// the file's name, or starts to send the response.
pub open spec fn reaction(before: ConnectionView, received: Seq<u8>, answer: AnswerView) -> (
    ConnectionView,
    ActionView,
) {
    match answer {
        AnswerView::ReadOn => (
            ConnectionView { received, ..at(before, ConnectionState::Parsing) },
            ActionView::Read,
        ),
        AnswerView::Perform(operation) => (
            ConnectionView { file: operation.name(), ..at(before, ConnectionState::Routing) },
            ActionView::PerformFile(operation),
        ),
        AnswerView::Respond(bytes) => (
            at(before, ConnectionState::Responding),
            ActionView::Send(bytes),
        ),
    }
}

/// Whether `after` and `action` are what a connection that is reading may
/// come to when the stream has grown to `received`: its reaction to an
/// answer that the stream calls for.
pub open spec fn receives(
    before: ConnectionView,
    received: Seq<u8>,
    after: ConnectionView,
    action: ActionView,
) -> bool {
    exists|answer: AnswerView|
        answers(received, before.directory, answer) && #[trigger] reaction(
            before,
            received,
            answer,
        ) == (after, action)
}

/// Whether `after` and `action` are what the machine may answer to `event`
/// in `before`.
///
/// A connection that starts begins to read. Bytes that arrive are added to
/// those read before, and the connection does what the whole calls for.
/// The outcome of the file operation decides the response. Every other
/// event, in every state, closes the connection: the end of the stream, a
/// failure, the response being sent, and anything out of turn.
pub open spec fn stepped(
    before: ConnectionView,
    event: EventView,
    after: ConnectionView,
    action: ActionView,
) -> bool {
    match (before.state, event) {
        (ConnectionState::Idle, EventView::Started) => (after, action) == (
            at(before, ConnectionState::Parsing),
            ActionView::Read,
        ),
        (ConnectionState::Parsing, EventView::Received(bytes)) => receives(
            before,
            before.received + bytes,
            after,
            action,
        ),
        (ConnectionState::Routing, EventView::FileDone(outcome)) => (after, action) == reaction(
            before,
            Seq::empty(),
            AnswerView::Respond(wire_format(response_of(file_result(before.file, outcome)))),
        ),
        _ => (after, action) == (at(before, ConnectionState::Closed), ActionView::Close),
    }
}

impl Connection {
    /// A connection that has not started yet.
    pub fn new(config: &ServerConfig) -> (out: Self)
        ensures
            out@ == (ConnectionView {
                state: ConnectionState::Idle,
                directory: config.base_dir@,
                received: Seq::empty(),
                file: Seq::empty(),
            }),
    {
        Connection {
            state: ConnectionState::Idle,
            config: ServerConfig {
                port: config.port.clone(),
                max_connections: config.max_connections,
                connection_timeout_secs: config.connection_timeout_secs,
                base_dir: config.base_dir.clone(),
            },
            received: Vec::new(),
            file: Vec::new(),
        }
    }

    /// Where the connection stands.
    pub fn state(&self) -> (state: ConnectionState)
        ensures
            state == self@.state,
    {
        self.state
    }

    fn enter(&mut self, state: ConnectionState)
        ensures
            final(self)@ == at(old(self)@, state),
    {
        self.state = state;
        self.received = Vec::new();
        self.file = Vec::new();
    }

    /// Takes in what happened and says what to do next.
    pub fn step(&mut self, event: ConnectionEvent) -> (action: ConnectionAction)
        ensures
            stepped(old(self)@, event@, final(self)@, action@),
    {
        match (self.state, event) {
            (ConnectionState::Idle, ConnectionEvent::Started) => {
                self.enter(ConnectionState::Parsing);
                ConnectionAction::Read
            },
            (ConnectionState::Parsing, ConnectionEvent::Received(bytes)) => {
                push_all(&mut self.received, bytes.as_slice());
                let answer = handle_client(self.received.as_slice(), &self.config);
                let ghost received = self.received@;
                let action = match answer {
                    Answer::ReadOn => {
                        self.file = Vec::new();
                        ConnectionAction::Read
                    },
                    Answer::Perform(operation) => {
                        let name = operation.file_name();
                        self.enter(ConnectionState::Routing);
                        self.file = name;
                        ConnectionAction::PerformFile(operation)
                    },
                    Answer::Respond(bytes) => {
                        self.enter(ConnectionState::Responding);
                        ConnectionAction::Send(bytes)
                    },
                };
                assert(reaction(old(self)@, received, answer@) == (self@, action@));
                action
            },
            (ConnectionState::Routing, ConnectionEvent::FileDone(outcome)) => {
                let mut name: Vec<u8> = Vec::new();
                core::mem::swap(&mut name, &mut self.file);
                let response = complete_file_request(name, outcome);
                self.enter(ConnectionState::Responding);
                ConnectionAction::Send(response.to_bytes())
            },
            _ => {
                self.enter(ConnectionState::Closed);
                ConnectionAction::Close
            },
        }
    }
}

/// A connection only moves forward: no step takes it to an earlier state,
/// and `Closed` is final.
pub proof fn lemma_states_advance(
    before: ConnectionView,
    event: EventView,
    after: ConnectionView,
    action: ActionView,
)
    requires
        stepped(before, event, after, action),
    ensures
        rank(before.state) <= rank(after.state),
        before.state == ConnectionState::Closed ==> after.state == ConnectionState::Closed,
        after.directory == before.directory,
{
}

/// One request per connection: nothing leads back into `Parsing` once it
/// was left, a response is sent only on entering `Responding`, and from
/// there the connection can only close. So each connection sends at most
/// one response.
pub proof fn lemma_one_response(
    before: ConnectionView,
    event: EventView,
    after: ConnectionView,
    action: ActionView,
)
    requires
        stepped(before, event, after, action),
    ensures
        after.state == ConnectionState::Parsing ==> before.state == ConnectionState::Idle
            || before.state == ConnectionState::Parsing,
        action is Send <==> after.state == ConnectionState::Responding,
        after.state == ConnectionState::Responding ==> before.state == ConnectionState::Parsing
            || before.state == ConnectionState::Routing,
        before.state == ConnectionState::Responding ==> after.state == ConnectionState::Closed,
        action is Close <==> after.state == ConnectionState::Closed,
{
}

/// Whether a connection went through `states` as `events` came in and
/// `actions` were given, one step after the other.
pub open spec fn is_course(
    states: Seq<ConnectionView>,
    events: Seq<EventView>,
    actions: Seq<ActionView>,
) -> bool {
    &&& states.len() == events.len() + 1
    &&& actions.len() == events.len()
    &&& forall|i: int|
        0 <= i < events.len() ==> stepped(
            #[trigger] states[i],
            events[i],
            states[i + 1],
            actions[i],
        )
}

/// In every course of events a connection's states come in their order.
proof fn lemma_course_advances(
    states: Seq<ConnectionView>,
    events: Seq<EventView>,
    actions: Seq<ActionView>,
    i: int,
    j: int,
)
    requires
        is_course(states, events, actions),
        0 <= i <= j < states.len(),
    ensures
        rank(states[i].state) <= rank(states[j].state),
    decreases j - i,
{
    if i < j {
        lemma_course_advances(states, events, actions, i, j - 1);
        assert(stepped(states[j - 1], events[j - 1], states[j - 1 + 1], actions[j - 1]));
        lemma_states_advance(states[j - 1], events[j - 1], states[j], actions[j - 1]);
    }
}

/// One response per connection: whatever happens on a connection, in
/// whatever order, it is told to send at most once.
pub proof fn lemma_at_most_one_response(
    states: Seq<ConnectionView>,
    events: Seq<EventView>,
    actions: Seq<ActionView>,
    first: int,
    second: int,
)
    requires
        is_course(states, events, actions),
        0 <= first < second < events.len(),
        actions[first] is Send,
    ensures
        !(actions[second] is Send),
{
    assert(stepped(states[first], events[first], states[first + 1], actions[first]));
    assert(stepped(states[second], events[second], states[second + 1], actions[second]));
    lemma_one_response(states[first], events[first], states[first + 1], actions[first]);
    lemma_one_response(states[second], events[second], states[second + 1], actions[second]);
    lemma_course_advances(states, events, actions, first + 1, second);
}

/// Whether a stream has not been decided yet: it stopped short of a whole
/// request, and nothing in it is malformed.
pub open spec fn is_undecided(received: Seq<u8>) -> bool {
    decode(received) == Err::<RequestView, DecodeError>(DecodeError::IncompleteHead) || decode(
        received,
    ) == Err::<RequestView, DecodeError>(DecodeError::IncompleteBody)
}

/// Bytes that arrive after a stream is decided change nothing about what
/// it calls for.
pub proof fn lemma_answer_is_final(
    received: Seq<u8>,
    directory: Seq<char>,
    answer: AnswerView,
    more: Seq<u8>,
)
    requires
        !is_undecided(received),
    ensures
        answers(received + more, directory, answer) == answers(received, directory, answer),
        answers(received, directory, answer) ==> answer != AnswerView::ReadOn,
{
    lemma_decode_stable(received, more);
}

/// A connection reads on only while the stream is undecided, and acts as
/// soon as it is decided. What it then does is not changed by anything that
/// the peer may send after: the answer depends on the stream, not on the
/// pieces in which it arrived.
pub proof fn lemma_acts_when_decided(
    before: ConnectionView,
    bytes: Seq<u8>,
    after: ConnectionView,
    action: ActionView,
    more: Seq<u8>,
)
    requires
        before.state == ConnectionState::Parsing,
        stepped(before, EventView::Received(bytes), after, action),
    ensures
        after.state == ConnectionState::Parsing <==> is_undecided(before.received + bytes),
        after.state == ConnectionState::Parsing ==> after.received == before.received + bytes,
        after.state != ConnectionState::Parsing ==> decode(before.received + bytes + more)
            == decode(before.received + bytes),
{
    if !is_undecided(before.received + bytes) {
        lemma_decode_stable(before.received + bytes, more);
    }
}

/// A connection that has just started has read nothing, which is an
/// undecided stream.
pub proof fn lemma_starts_undecided(
    before: ConnectionView,
    after: ConnectionView,
    action: ActionView,
)
    requires
        before.state == ConnectionState::Idle,
        stepped(before, EventView::Started, after, action),
    ensures
        after.state == ConnectionState::Parsing,
        after.received == Seq::<u8>::empty(),
        is_undecided(after.received),
{
    let empty = Seq::<u8>::empty();
    assert(scan_head(empty).lines =~= Seq::<Seq<u8>>::empty());
    assert(!has_bad_length(header_lines(scan_head(empty).lines)));
}

} // verus!
