//! One client's session, as a machine that is told what happened and says
//! what to do next.
//!
//! A session waits for the query, has the connections to the client looked
//! up, answers with one line and closes. The query is parsed on the way from
//! waiting to looking up, and the owner is matched on the way from looking up
//! to answering. Whoever drives the session does the reading, the lookup and
//! the writing, and reports each as an event.

use crate::error::IdentError;
use crate::owner::{find_owner, search_for_port};
use crate::query::{parse_query, query_ports};
use crate::target::{lsof_arguments, lsof_arguments_text, texts, IpAddress};
use vstd::prelude::*;
use vstd::string::StringExecFns;

verus! {

/// The TCP port on which clients ask.
pub const IDENT_PORT: u16 = 113;

/// The longest query line, in bytes, that a client may send.
pub const MAX_QUERY_LENGTH: usize = 1024;

/// Where a session stands.
#[derive(Debug)]
pub enum SessionState {
    /// The query line has not arrived yet.
    AwaitingQuery,
    /// The query asked about `local_port`; the connections are being looked up.
    Invoking { query: String, local_port: u16 },
    /// The response line is being written; `result` is how the session ends.
    Responding { result: Result<(), IdentError> },
    /// The session is over.
    Closed { result: Result<(), IdentError> },
}

/// What happened outside the session.
#[derive(Debug)]
pub enum Event {
    /// A line arrived from the client.
    Query(String),
    /// No line will arrive: the client closed, or sent what is no line.
    NoQuery,
    /// The lookup ran, and printed this.
    LookupOutput(Vec<u8>),
    /// The lookup could not be run.
    LookupFailed,
    /// The writing of the response line has ended.
    ResponseSent,
}

/// What the session wants done.
#[derive(Debug)]
pub enum Action {
    /// Read one line from the client.
    ReadQuery,
    /// Run the lookup with these arguments.
    RunLookup { arguments: Vec<String> },
    /// Write this line to the client.
    SendResponse { line: String },
    /// Close the connection.
    Close,
    /// Nothing: the event was not the one awaited.
    Nothing,
}

/// A session's state, with texts as sequences of characters.
pub enum StateModel {
    AwaitingQuery,
    Invoking { query: Seq<char>, local_port: u16 },
    Responding { result: Result<(), IdentError> },
    Closed { result: Result<(), IdentError> },
}

/// An event, with texts and bytes as sequences.
pub enum EventModel {
    Query(Seq<char>),
    NoQuery,
    LookupOutput(Seq<u8>),
    LookupFailed,
    ResponseSent,
}

/// An action, with texts as sequences of characters.
pub enum ActionModel {
    ReadQuery,
    RunLookup { arguments: Seq<Seq<char>> },
    SendResponse { line: Seq<char> },
    Close,
    Nothing,
}

impl View for SessionState {
    type V = StateModel;

    open spec fn view(&self) -> StateModel {
        match *self {
            SessionState::AwaitingQuery => StateModel::AwaitingQuery,
            SessionState::Invoking { query, local_port } => StateModel::Invoking {
                query: query@,
                local_port,
            },
            SessionState::Responding { result } => StateModel::Responding { result },
            SessionState::Closed { result } => StateModel::Closed { result },
        }
    }
}

impl View for Event {
    type V = EventModel;

    open spec fn view(&self) -> EventModel {
        match *self {
            Event::Query(line) => EventModel::Query(line@),
            Event::NoQuery => EventModel::NoQuery,
            Event::LookupOutput(output) => EventModel::LookupOutput(output@),
            Event::LookupFailed => EventModel::LookupFailed,
            Event::ResponseSent => EventModel::ResponseSent,
        }
    }
}

impl View for Action {
    type V = ActionModel;

    open spec fn view(&self) -> ActionModel {
        match *self {
            Action::ReadQuery => ActionModel::ReadQuery,
            Action::RunLookup { arguments } => ActionModel::RunLookup {
                arguments: texts(arguments@),
            },
            Action::SendResponse { line } => ActionModel::SendResponse { line: line@ },
            Action::Close => ActionModel::Close,
            Action::Nothing => ActionModel::Nothing,
        }
    }
}

/// The response that names the owner of the connection asked about.
pub open spec fn userid_text(query: Seq<char>, user: Seq<char>) -> Seq<char> {
    query + " : USERID : UNIX : "@ + user + "\r"@
}

/// The response to a query about a connection that has no known owner.
pub open spec fn no_user_text(query: Seq<char>) -> Seq<char> {
    query + " : ERROR : NO-USER\r"@
}

/// The response to a query that is not two port numbers.
pub open spec fn invalid_port_text(query: Seq<char>) -> Seq<char> {
    query + " : ERROR : INVALID-PORT\r"@
}

/// What a session with the client at `peer` does in `state` when `event`
/// happens: the state it goes to, and what it wants done.
pub open spec fn step_model(peer: IpAddress, state: StateModel, event: EventModel) -> (
    StateModel,
    ActionModel,
) {
    match (state, event) {
        (StateModel::AwaitingQuery, EventModel::Query(query)) => match query_ports(query) {
            Some((local_port, remote_port)) => (
                StateModel::Invoking { query, local_port },
                ActionModel::RunLookup { arguments: lsof_arguments_text(peer, remote_port) },
            ),
            None => (
                StateModel::Responding { result: Err(IdentError::InvalidPort) },
                ActionModel::SendResponse { line: invalid_port_text(query) },
            ),
        },
        (StateModel::AwaitingQuery, EventModel::NoQuery) => (
            StateModel::Closed { result: Err(IdentError::NoQuery) },
            ActionModel::Close,
        ),
        (StateModel::Invoking { query, local_port }, EventModel::LookupOutput(output)) => (
            StateModel::Responding { result: Ok(()) },
            ActionModel::SendResponse {
                line: match find_owner(local_port, output) {
                    Some(user) => userid_text(query, user),
                    None => no_user_text(query),
                },
            },
        ),
        (StateModel::Invoking { .. }, EventModel::LookupFailed) => (
            StateModel::Closed { result: Err(IdentError::Lookup) },
            ActionModel::Close,
        ),
        (StateModel::Responding { result }, EventModel::ResponseSent) => (
            StateModel::Closed { result },
            ActionModel::Close,
        ),
        _ => (state, ActionModel::Nothing),
    }
}

/// How far a session has come.
pub open spec fn progress(state: StateModel) -> nat {
    match state {
        StateModel::AwaitingQuery => 0,
        StateModel::Invoking { .. } => 1,
        StateModel::Responding { .. } => 2,
        StateModel::Closed { .. } => 3,
    }
}

/// A session never goes back: no step takes it to an earlier stage.
pub proof fn lemma_step_moves_forward(peer: IpAddress, state: StateModel, event: EventModel)
    ensures
        progress(state) <= progress(step_model(peer, state, event).0),
{
}

/// A closed session stays closed, with the result it had, and wants nothing done.
pub proof fn lemma_closed_is_final(peer: IpAddress, state: StateModel, event: EventModel)
    requires
        state is Closed,
    ensures
        step_model(peer, state, event) == (state, ActionModel::Nothing),
{
}

/// A session answers once: the step that has a response line sent is the
/// step into `Responding`, from an earlier stage, and from there on no
/// step has a line sent.
pub proof fn lemma_one_response(peer: IpAddress, state: StateModel, event: EventModel)
    ensures
        step_model(peer, state, event).1 is SendResponse ==> progress(state) < 2 && step_model(
            peer,
            state,
            event,
        ).0 is Responding,
        progress(state) >= 2 ==> !(step_model(peer, state, event).1 is SendResponse),
{
}

/// A session closes once: the step that has the connection closed is the
/// step into `Closed`, from an earlier stage.
pub proof fn lemma_one_close(peer: IpAddress, state: StateModel, event: EventModel)
    ensures
        step_model(peer, state, event).1 is Close <==> !(state is Closed) && step_model(
            peer,
            state,
            event,
        ).0 is Closed,
{
}

/// Writes the response that names `user` as the owner.
pub fn userid_response(query: &str, user: &str) -> (line: String)
    ensures
        line@ == userid_text(query@, user@),
{
    let mut line = String::from_str(query);
    line.append(" : USERID : UNIX : ");
    line.append(user);
    line.append("\r");
    line
}

/// Writes the response that says that no owner was found.
pub fn no_user_response(query: &str) -> (line: String)
    ensures
        line@ == no_user_text(query@),
{
    let mut line = String::from_str(query);
    line.append(" : ERROR : NO-USER\r");
    line
}

/// Writes the response that says that the query was not two port numbers.
pub fn invalid_port_response(query: &str) -> (line: String)
    ensures
        line@ == invalid_port_text(query@),
{
    let mut line = String::from_str(query);
    line.append(" : ERROR : INVALID-PORT\r");
    line
}

/// The session of one client.
#[derive(Debug)]
pub struct Session {
    /// The address from which the client connected.
    pub peer: IpAddress,
    /// Where the session stands.
    pub state: SessionState,
}

impl Session {
    /// Opens the session of a client that connected from `peer`: it waits
    /// for the query, which is to be read.
    pub fn start(peer: IpAddress) -> (opened: (Session, Action))
        ensures
            opened.0.peer == peer,
            opened.0.state@ == StateModel::AwaitingQuery,
            opened.1@ == ActionModel::ReadQuery,
    {
        (Session { peer, state: SessionState::AwaitingQuery }, Action::ReadQuery)
    }

    /// Takes the session one step on: `event` is what happened, the result
    /// is the session after it and what is to be done next. An event other
    /// than the one that the session waits for changes nothing.
    pub fn step(self, event: Event) -> (next: (Session, Action))
        ensures
            next.0.peer == self.peer,
            (next.0.state@, next.1@) == step_model(self.peer, self.state@, event@),
    {
        let peer = self.peer;
        match self.state {
            SessionState::AwaitingQuery => match event {
                Event::Query(query) => match parse_query(query.as_str()) {
                    Ok((local_port, remote_port)) => {
                        let arguments = lsof_arguments(remote_port, &peer);
                        (
                            Session { peer, state: SessionState::Invoking { query, local_port } },
                            Action::RunLookup { arguments },
                        )
                    },
                    Err(_) => {
                        let line = invalid_port_response(query.as_str());
                        (
                            Session {
                                peer,
                                state: SessionState::Responding {
                                    result: Err(IdentError::InvalidPort),
                                },
                            },
                            Action::SendResponse { line },
                        )
                    },
                },
                Event::NoQuery => (
                    Session { peer, state: SessionState::Closed { result: Err(IdentError::NoQuery) } },
                    Action::Close,
                ),
                _ => (Session { peer, state: SessionState::AwaitingQuery }, Action::Nothing),
            },
            SessionState::Invoking { query, local_port } => match event {
                Event::LookupOutput(output) => {
                    let line = match search_for_port(local_port, output) {
                        Some(user) => userid_response(query.as_str(), user.as_str()),
                        None => no_user_response(query.as_str()),
                    };
                    (
                        Session { peer, state: SessionState::Responding { result: Ok(()) } },
                        Action::SendResponse { line },
                    )
                },
                Event::LookupFailed => (
                    Session { peer, state: SessionState::Closed { result: Err(IdentError::Lookup) } },
                    Action::Close,
                ),
                _ => (
                    Session { peer, state: SessionState::Invoking { query, local_port } },
                    Action::Nothing,
                ),
            },
            SessionState::Responding { result } => match event {
                Event::ResponseSent => (
                    Session { peer, state: SessionState::Closed { result } },
                    Action::Close,
                ),
                _ => (Session { peer, state: SessionState::Responding { result } }, Action::Nothing),
            },
            SessionState::Closed { result } => (
                Session { peer, state: SessionState::Closed { result } },
                Action::Nothing,
            ),
        }
    }

    /// Tells whether the session is over.
    pub fn is_closed(&self) -> (closed: bool)
        ensures
            closed == (self.state@ is Closed),
    {
        match self.state {
            SessionState::Closed { .. } => true,
            _ => false,
        }
    }

    /// How the session ended, once it is over: `Ok` where the client got
    /// its answer about an owner, the error where it did not.
    pub fn result(&self) -> (result: Option<Result<(), IdentError>>)
        ensures
            result == match self.state@ {
                StateModel::Closed { result } => Some(result),
                _ => None,
            },
    {
        match self.state {
            SessionState::Closed { result } => Some(result),
            _ => None,
        }
    }
}

} // verus!
