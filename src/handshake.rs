use vstd::prelude::*;

verus! {

/// Who may touch the accumulation buffer.
#[derive(Clone, Copy, PartialEq, Eq, Structural, Debug)]
pub enum State {
    /// The render worker may read and write the buffer.
    Rendering,
    /// The consumer has asked to read; the worker must stop touching the buffer.
    Request,
    /// The worker is parked; the consumer may read the buffer.
    Reading,
}

/// What the consumer does on one poll.
#[derive(Clone, Copy, PartialEq, Eq, Structural, Debug)]
pub enum ConsumerAction {
    /// Ask the worker to park (and wake it).
    Ask,
    /// Read the buffer now, then hand it back (and wake the worker).
    Read,
    /// A request is in flight: do nothing this poll.
    Skip,
}

/// What the worker does at the top of its loop.
#[derive(Clone, Copy, PartialEq, Eq, Structural, Debug)]
pub enum WorkerAction {
    /// Park (and wake the consumer) until the state is back to `Rendering`.
    Park,
    /// Go on with the next pass.
    Proceed,
}

/// The state after the consumer's poll, and the action it takes.
pub open spec fn consumer_spec(s: State) -> (State, ConsumerAction) {
    match s {
        State::Rendering => (State::Request, ConsumerAction::Ask),
        State::Reading => (State::Rendering, ConsumerAction::Read),
        State::Request => (State::Request, ConsumerAction::Skip),
    }
}

/// The state after the worker looks at it at the top of its loop, and the
/// action it takes.
pub open spec fn worker_spec(s: State) -> (State, WorkerAction) {
    match s {
        State::Request => (State::Reading, WorkerAction::Park),
        _ => (s, WorkerAction::Proceed),
    }
}

/// The consumer's decision on one poll: ask when the worker renders, read when
/// it is parked, skip while a request is in flight. After a read the state
/// returns to `Rendering`.
pub fn consumer_step(s: State) -> (r: (State, ConsumerAction))
    ensures
        r == consumer_spec(s),
        r.1 == ConsumerAction::Read <==> s == State::Reading,
{
    match s {
        State::Rendering => (State::Request, ConsumerAction::Ask),
        State::Reading => (State::Rendering, ConsumerAction::Read),
        State::Request => (State::Request, ConsumerAction::Skip),
    }
}

/// The worker's decision at the top of its loop: park on a request, else go on.
pub fn worker_step(s: State) -> (r: (State, WorkerAction))
    ensures
        r == worker_spec(s),
        r.1 == WorkerAction::Park <==> s == State::Request,
{
    match s {
        State::Request => (State::Reading, WorkerAction::Park),
        _ => (s, WorkerAction::Proceed),
    }
}

/// Whether a parked worker may wake and resume: only once the consumer has
/// handed the buffer back.
pub fn may_resume(s: State) -> (r: bool)
    ensures
        r <==> s == State::Rendering,
{
    s == State::Rendering
}

/// One step of either party.
#[derive(Clone, Copy, PartialEq, Eq, Structural, Debug)]
pub enum Event {
    /// The consumer polls.
    Consumer,
    /// The worker reaches the top of its loop.
    Worker,
    /// A parked worker checks whether it may resume.
    Wake,
}

/// Whether the worker is parked in the given phase of the protocol.
pub open spec fn parked_after(s: State, parked: bool, e: Event) -> bool {
    match e {
        Event::Worker => parked || worker_spec(s).1 == WorkerAction::Park,
        Event::Wake => parked && s != State::Rendering,
        Event::Consumer => parked,
    }
}

/// The shared state after one event.
pub open spec fn step_state(s: State, parked: bool, e: Event) -> State {
    match e {
        Event::Consumer => consumer_spec(s).0,
        Event::Worker => if parked { s } else { worker_spec(s).0 },
        Event::Wake => s,
    }
}

/// The worker touches the buffer on this event: it proceeds with a pass.
pub open spec fn worker_touches(s: State, parked: bool, e: Event) -> bool {
    !parked && e == Event::Worker && worker_spec(s).1 == WorkerAction::Proceed
}

/// The consumer reads the buffer on this event.
pub open spec fn consumer_reads(s: State, e: Event) -> bool {
    e == Event::Consumer && consumer_spec(s).1 == ConsumerAction::Read
}

/// The shared state and whether the worker is parked, after a run of events
/// from the start (`Rendering`, worker running).
pub open spec fn run(events: Seq<Event>) -> (State, bool)
    decreases events.len(),
{
    if events.len() == 0 {
        (State::Rendering, false)
    } else {
        let (s, p) = run(events.drop_last());
        let e = events.last();
        (step_state(s, p, e), parked_after(s, p, e))
    }
}

/// In every run of the protocol, the consumer reads only while the worker is
/// parked, and the worker only starts a pass while the state is `Rendering`:
/// a pass never overlaps a read, and a parked worker never resumes while the
/// state is `Request` or `Reading`.
pub proof fn lemma_handshake_safe(events: Seq<Event>)
    ensures
        !run(events).1 ==> run(events).0 != State::Reading,
        forall|e: Event| #![auto] consumer_reads(run(events).0, e) ==> run(events).1,
        forall|e: Event| #![auto] worker_touches(run(events).0, run(events).1, e)
            ==> run(events).0 == State::Rendering,
        forall|e: Event| #![auto] run(events).1 && !parked_after(run(events).0, run(events).1, e)
            ==> run(events).0 == State::Rendering,
    decreases events.len(),
{
    if events.len() > 0 {
        lemma_handshake_safe(events.drop_last());
    }
}

} // verus!
