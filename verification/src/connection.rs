//! The life of one connection: a state machine that says, for each thing
//! that happens, what state follows and what is to be done next. The one
//! who owns the stream does the reading and the writing and reports back.

use vstd::prelude::*;

verus! {

/// A connection is given up when it has been open for this many seconds.
pub const TIMEOUT_SECS: u64 = 5;

/// The states of a connection.
#[derive(Debug, Copy, Clone, PartialEq, Eq, Structural)]
pub enum State {
    /// No request is at hand; the next one is awaited.
    AwaitRequest,
    /// A request was read and parsed.
    Parsed,
    /// It is decided what answers the request.
    Routed,
    /// The response was written.
    Responded,
    /// The connection is over; no further reading or writing occurs.
    Close,
}

/// What can happen on a connection.
#[derive(Debug, Copy, Clone, PartialEq, Eq, Structural)]
pub enum Event {
    /// The clock was read: so many whole seconds ago the connection was
    /// accepted.
    Clock(u64),
    /// A request was read and parsed.
    RequestRead,
    /// A handler or a status was chosen for the request.
    TargetChosen,
    /// The response was written in full.
    ResponseWritten,
    /// It was looked up whether the request asked to keep the connection.
    KeepAlive(bool),
    /// Reading, decoding, parsing or writing failed.
    Failed,
}

/// What is to be done next.
#[derive(Debug, Copy, Clone, PartialEq, Eq, Structural)]
pub enum Action {
    /// Read the clock and report it.
    ReadClock,
    /// Read and parse a request.
    ReadRequest,
    /// Choose what answers the request.
    ChooseTarget,
    /// Produce the response and write it.
    WriteResponse,
    /// Look up whether the request asked to keep the connection.
    CheckKeepAlive,
    /// Release the stream.
    Release,
}

/// The state that follows `state` when `event` happens. A request is awaited
/// only while the timeout has not passed; a cycle runs from the request over
/// the choice of a target to the response; after the response the connection
/// goes on if the request asked for it. A failure ends the connection, and
/// so does an event that the state does not expect. `Close` is final.
pub open spec fn next_state(state: State, event: Event) -> State {
    match (state, event) {
        (State::AwaitRequest, Event::Clock(elapsed)) => if elapsed >= TIMEOUT_SECS {
            State::Close
        } else {
            State::AwaitRequest
        },
        (State::AwaitRequest, Event::RequestRead) => State::Parsed,
        (State::Parsed, Event::TargetChosen) => State::Routed,
        (State::Routed, Event::ResponseWritten) => State::Responded,
        (State::Responded, Event::KeepAlive(true)) => State::AwaitRequest,
        _ => State::Close,
    }
}

/// What is to be done after `event` happened in `state`.
pub open spec fn next_action(state: State, event: Event) -> Action {
    match (next_state(state, event), event) {
        (State::AwaitRequest, Event::Clock(_)) => Action::ReadRequest,
        (State::AwaitRequest, _) => Action::ReadClock,
        (State::Parsed, _) => Action::ChooseTarget,
        (State::Routed, _) => Action::WriteResponse,
        (State::Responded, _) => Action::CheckKeepAlive,
        (State::Close, _) => Action::Release,
    }
}

/// The state in which a connection begins, and what is to be done first.
pub fn start() -> (begin: (State, Action))
    ensures
        begin == (State::AwaitRequest, Action::ReadClock),
{
    (State::AwaitRequest, Action::ReadClock)
}

/// One step of a connection: the state that follows and what is to be done
/// next.
pub fn step(state: State, event: Event) -> (then: (State, Action))
    ensures
        then == (next_state(state, event), next_action(state, event)),
{
    let next = match (state, event) {
        (State::AwaitRequest, Event::Clock(elapsed)) => if elapsed >= TIMEOUT_SECS {
            State::Close
        } else {
            State::AwaitRequest
        },
        (State::AwaitRequest, Event::RequestRead) => State::Parsed,
        (State::Parsed, Event::TargetChosen) => State::Routed,
        (State::Routed, Event::ResponseWritten) => State::Responded,
        (State::Responded, Event::KeepAlive(true)) => State::AwaitRequest,
        _ => State::Close,
    };
    let action = match (next, event) {
        (State::AwaitRequest, Event::Clock(_)) => Action::ReadRequest,
        (State::AwaitRequest, _) => Action::ReadClock,
        (State::Parsed, _) => Action::ChooseTarget,
        (State::Routed, _) => Action::WriteResponse,
        (State::Responded, _) => Action::CheckKeepAlive,
        (State::Close, _) => Action::Release,
    };
    (next, action)
}

/// The state after a run of events, taken in order.
pub open spec fn run(state: State, events: Seq<Event>) -> State
    decreases events.len(),
{
    if events.len() == 0 {
        state
    } else {
        next_state(run(state, events.drop_last()), events.last())
    }
}

/// The events of one request and response, read at `elapsed` seconds.
pub open spec fn cycle(elapsed: u64, keep_alive: bool) -> Seq<Event> {
    seq![
        Event::Clock(elapsed),
        Event::RequestRead,
        Event::TargetChosen,
        Event::ResponseWritten,
        Event::KeepAlive(keep_alive),
    ]
}

/// A closed connection stays closed, whatever happens.
pub proof fn lemma_close_is_final(events: Seq<Event>)
    ensures
        run(State::Close, events) == State::Close,
    decreases events.len(),
{
    if events.len() > 0 {
        lemma_close_is_final(events.drop_last());
    }
}

/// A failure closes the connection from every state, and the stream is
/// released.
pub proof fn lemma_failure_closes(state: State)
    ensures
        next_state(state, Event::Failed) == State::Close,
        next_action(state, Event::Failed) == Action::Release,
{
}

/// A request and its response within the timeout lead back to awaiting a
/// request if the request asked to keep the connection, and to `Close` if it
/// did not. Once the timeout has passed no request is read.
pub proof fn lemma_cycle(elapsed: u64, keep_alive: bool)
    ensures
        elapsed < TIMEOUT_SECS && keep_alive ==> run(
            State::AwaitRequest,
            cycle(elapsed, keep_alive),
        ) == State::AwaitRequest,
        elapsed < TIMEOUT_SECS && !keep_alive ==> run(
            State::AwaitRequest,
            cycle(elapsed, keep_alive),
        ) == State::Close,
        elapsed >= TIMEOUT_SECS ==> next_state(State::AwaitRequest, Event::Clock(elapsed))
            == State::Close,
{
    let events = cycle(elapsed, keep_alive);
    let e4 = events.drop_last();
    let e3 = e4.drop_last();
    let e2 = e3.drop_last();
    let e1 = e2.drop_last();
    assert(e1.drop_last().len() == 0);
    assert(run(State::AwaitRequest, e1.drop_last()) == State::AwaitRequest);
    assert(e1.last() == Event::Clock(elapsed));
    assert(e2.last() == Event::RequestRead);
    assert(e3.last() == Event::TargetChosen);
    assert(e4.last() == Event::ResponseWritten);
    assert(events.last() == Event::KeepAlive(keep_alive));
    if elapsed < TIMEOUT_SECS {
        assert(run(State::AwaitRequest, e1) == State::AwaitRequest);
        assert(run(State::AwaitRequest, e2) == State::Parsed);
        assert(run(State::AwaitRequest, e3) == State::Routed);
        assert(run(State::AwaitRequest, e4) == State::Responded);
    }
}

} // verus!
