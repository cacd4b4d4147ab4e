//! The GraphQL over WebSocket protocol: what a connection answers to each
//! message, and which operations it keeps running.
use vstd::prelude::*;
use vstd::string::StringExecFns;
use crate::query::QueryResult;
use crate::util::{first_match, lemma_first_match_at, models};

verus! {

/// A message to be sent to the client.
#[allow(inconsistent_fields)]
pub enum OutgoingMessage {
    ConnectionAck,
    Error { id: String, payload: String },
    Data { id: String, payload: QueryResult },
    Complete { id: String },
}

impl OutgoingMessage {
    /// The message that carries a query result for the operation `id`.
    pub fn from_query_result(id: String, result: QueryResult) -> (message: OutgoingMessage)
        ensures
            message == (OutgoingMessage::Data { id, payload: result }),
    {
        OutgoingMessage::Data { id, payload: result }
    }

    /// The message that carries an error text for the operation `id`.
    pub fn from_error_string(id: String, s: String) -> (message: OutgoingMessage)
        ensures
            message == (OutgoingMessage::Error { id, payload: s }),
    {
        OutgoingMessage::Error { id, payload: s }
    }
}

/// A message received from the client, with what the connection found out
/// about it: for a start request, whether the deployment that the connection
/// serves is known, and the error of parsing the query, if it did not parse.
pub enum Event {
    ConnectionInit,
    ConnectionTerminate,
    Start { id: String, query: String, subgraph: String, known: bool, parse_error: Option<String> },
    Stop { id: String },
}

/// The model of an [`Event`].
pub enum EventModel {
    ConnectionInit,
    ConnectionTerminate,
    Start {
        id: Seq<char>,
        query: Seq<char>,
        subgraph: Seq<char>,
        known: bool,
        parse_error: Option<Seq<char>>,
    },
    Stop { id: Seq<char> },
}

impl View for Event {
    type V = EventModel;

    open spec fn view(&self) -> EventModel {
        match self {
            Event::ConnectionInit => EventModel::ConnectionInit,
            Event::ConnectionTerminate => EventModel::ConnectionTerminate,
            Event::Start { id, query, subgraph, known, parse_error } => EventModel::Start {
                id: id@,
                query: query@,
                subgraph: subgraph@,
                known: *known,
                parse_error: match parse_error {
                    Some(e) => Some(e@),
                    None => None,
                },
            },
            Event::Stop { id } => EventModel::Stop { id: id@ },
        }
    }
}

/// What the connection does on a message.
pub enum Action {
    /// Acknowledge the connection.
    Acknowledge,
    /// Tell the client that the operation is complete.
    Complete { id: String },
    /// Tell the client that the request failed.
    Refuse { id: String, reason: String },
    /// Run the operation and send its results.
    Run { id: String },
    /// Close the connection.
    Terminate,
}

/// The model of an [`Action`].
pub enum ActionModel {
    Acknowledge,
    Complete { id: Seq<char> },
    Refuse { id: Seq<char>, reason: Seq<char> },
    Run { id: Seq<char> },
    Terminate,
}

impl View for Action {
    type V = ActionModel;

    open spec fn view(&self) -> ActionModel {
        match self {
            Action::Acknowledge => ActionModel::Acknowledge,
            Action::Complete { id } => ActionModel::Complete { id: id@ },
            Action::Refuse { id, reason } => ActionModel::Refuse { id: id@, reason: reason@ },
            Action::Run { id } => ActionModel::Run { id: id@ },
            Action::Terminate => ActionModel::Terminate,
        }
    }
}

/// The test that an operation has the identifier `id`.
pub open spec fn is_operation(id: Seq<char>) -> spec_fn(Seq<char>) -> bool {
    |running: Seq<char>| running == id
}

/// What the connection does on `event` while `running` are the operations it
/// runs.
///
/// A connection request is acknowledged and a termination request closes the
/// connection. A stop request completes the operation when it runs and is
/// refused when it does not. A start request is refused when the operation
/// runs already, when the deployment is unknown, or when the query did not
/// parse, in this order; otherwise the operation is run.
pub open spec fn decide(running: Seq<Seq<char>>, event: EventModel) -> ActionModel {
    match event {
        EventModel::ConnectionInit => ActionModel::Acknowledge,
        EventModel::ConnectionTerminate => ActionModel::Terminate,
        EventModel::Stop { id } => if running.contains(id) {
            ActionModel::Complete { id }
        } else {
            ActionModel::Refuse { id, reason: "Unknown operation ID: "@ + id }
        },
        EventModel::Start { id, query, subgraph, known, parse_error } => if running.contains(id) {
            ActionModel::Refuse { id, reason: "Operation with ID already started: "@ + id }
        } else if !known {
            ActionModel::Refuse { id, reason: "Unknown subgraph name or ID: "@ + subgraph }
        } else {
            match parse_error {
                Some(e) => ActionModel::Refuse {
                    id,
                    reason: "Invalid query: "@ + query + ": "@ + e,
                },
                None => ActionModel::Run { id },
            }
        },
    }
}

/// The operations that run after the connection did `action`: one more after
/// it ran an operation, one less after it completed one, the same otherwise.
pub open spec fn running_after(running: Seq<Seq<char>>, action: ActionModel) -> Seq<Seq<char>> {
    match action {
        ActionModel::Run { id } => running.push(id),
        ActionModel::Complete { id } => running.remove(first_match(running, is_operation(id))),
        _ => running,
    }
}

/// The operations that a connection runs: their identifiers, none of them
/// twice.
pub struct Operations {
    pub running: Vec<String>,
}

impl Operations {
    /// Whether no identifier occurs twice.
    pub open spec fn well_formed(&self) -> bool {
        models(self.running@).no_duplicates()
    }

    /// No operations.
    pub fn new() -> (operations: Operations)
        ensures
            operations.well_formed(),
            operations.running@.len() == 0,
    {
        Operations { running: Vec::new() }
    }

    /// The position of the operation `id`, if it runs.
    fn position(&self, id: &String) -> (found: Option<usize>)
        ensures
            match found {
                Some(at) => at < self.running.len() && at == first_match(
                    models(self.running@),
                    is_operation(id@),
                ) && models(self.running@).contains(id@),
                None => !models(self.running@).contains(id@),
            },
    {
        let ghost names = models(self.running@);
        let mut i: usize = 0;
        while i < self.running.len()
            invariant
                i <= self.running.len(),
                names == models(self.running@),
                forall|j: int| 0 <= j < i ==> !is_operation(id@)(#[trigger] names[j]),
            decreases self.running.len() - i,
        {
            if self.running[i] == *id {
                proof {
                    assert(names[i as int] == id@);
                    lemma_first_match_at(names, is_operation(id@), i as int);
                }
                return Some(i);
            }
            i += 1;
        }
        proof {
            assert forall|j: int| 0 <= j < names.len() implies names[j] != id@ by {
                assert(!is_operation(id@)(names[j]));
            }
        }
        None
    }

    /// Takes a message in: decides what the connection does and keeps the
    /// record of the running operations.
    pub fn handle(&mut self, event: Event) -> (action: Action)
        requires
            old(self).well_formed(),
        ensures
            action@ == decide(models(old(self).running@), event@),
            models(final(self).running@) == running_after(models(old(self).running@), action@),
            final(self).well_formed(),
    {
        let ghost before = models(self.running@);
        match event {
            Event::ConnectionInit => Action::Acknowledge,
            Event::ConnectionTerminate => Action::Terminate,
            Event::Stop { id } => {
                match self.position(&id) {
                    Some(at) => {
                        self.running.remove(at);
                        proof {
                            assert(models(self.running@) =~= before.remove(at as int));
                            assert forall|i: int, j: int|
                                0 <= i < before.remove(at as int).len() && 0 <= j < before.remove(
                                    at as int,
                                ).len() && i != j implies before.remove(at as int)[i]
                                != before.remove(at as int)[j] by {
                                let a = if i < at { i } else { i + 1 };
                                let b = if j < at { j } else { j + 1 };
                                assert(before[a] != before[b]);
                            }
                        }
                        Action::Complete { id }
                    },
                    None => {
                        let reason = "Unknown operation ID: ".to_owned().concat(id.as_str());
                        Action::Refuse { id, reason }
                    },
                }
            },
            Event::Start { id, query, subgraph, known, parse_error } => {
                if self.position(&id).is_some() {
                    let reason = "Operation with ID already started: ".to_owned().concat(
                        id.as_str(),
                    );
                    return Action::Refuse { id, reason };
                }
                if !known {
                    let reason = "Unknown subgraph name or ID: ".to_owned().concat(
                        subgraph.as_str(),
                    );
                    return Action::Refuse { id, reason };
                }
                match parse_error {
                    Some(e) => {
                        let reason = "Invalid query: ".to_owned().concat(query.as_str()).concat(
                            ": ",
                        ).concat(e.as_str());
                        Action::Refuse { id, reason }
                    },
                    None => {
                        self.running.push(id.clone());
                        proof {
                            assert(models(self.running@) =~= before.push(id@));
                            assert forall|i: int, j: int|
                                0 <= i < before.push(id@).len() && 0 <= j < before.push(
                                    id@,
                                ).len() && i != j implies before.push(id@)[i] != before.push(
                                id@,
                            )[j] by {
                                if i < before.len() && j < before.len() {
                                    assert(before[i] != before[j]);
                                } else if i < before.len() {
                                    assert(before.contains(before[i]));
                                } else {
                                    assert(before.contains(before[j]));
                                }
                            }
                        }
                        Action::Run { id }
                    },
                }
            },
        }
    }
}

} // verus!
