//! Sessions that send back what they are sent.
use crate::dispatcher::DispatchError;
use vstd::prelude::*;

verus! {

/// A session that sends back what it is sent.
#[derive(Debug)]
pub struct Echo {}

/// What happened to an echo.
#[derive(Debug)]
pub enum EchoEvent {
    /// Something was sent to it.
    Input(Vec<u8>),
    /// Nothing more will be sent to it.
    InputClosed,
    /// What it sent was taken.
    Sent,
    /// What it sent was not taken.
    OutputClosed,
}

/// What an echo does next.
#[derive(Debug)]
pub enum EchoAction {
    /// Wait for what it is sent.
    Receive,
    Send(Vec<u8>),
    Stop,
}

/// What an echo does on an event: it sends what it was sent, until one of its ends is closed.
pub open spec fn action_on(event: EchoEvent) -> EchoAction {
    match event {
        EchoEvent::Input(data) => EchoAction::Send(data),
        EchoEvent::Sent => EchoAction::Receive,
        EchoEvent::InputClosed => EchoAction::Stop,
        EchoEvent::OutputClosed => EchoAction::Stop,
    }
}

/// The event is one that the action can lead to.
pub open spec fn can_follow(action: EchoAction, event: EchoEvent) -> bool {
    match action {
        EchoAction::Receive => event is Input || event is InputClosed,
        EchoAction::Send(_) => event is Sent || event is OutputClosed,
        EchoAction::Stop => false,
    }
}

/// What is done before the event at that position: an echo begins by waiting.
pub open spec fn action_before(events: Seq<EchoEvent>, i: int) -> EchoAction {
    if i <= 0 {
        EchoAction::Receive
    } else {
        action_on(events[i - 1])
    }
}

/// The events are those of a run: each is one that the action before it can lead to.
pub open spec fn is_run(events: Seq<EchoEvent>) -> bool {
    forall|i: int|
        0 <= i < events.len() ==> can_follow(action_before(events, i), #[trigger] events[i])
}

/// What was sent to the echo, piece by piece.
pub open spec fn received(events: Seq<EchoEvent>) -> Seq<Seq<u8>>
    decreases events.len(),
{
    if events.len() == 0 {
        seq![]
    } else {
        match events.last() {
            EchoEvent::Input(data) => received(events.drop_last()).push(data@),
            _ => received(events.drop_last()),
        }
    }
}

/// What was taken of what the echo sent, piece by piece.
pub open spec fn taken(events: Seq<EchoEvent>) -> Seq<Seq<u8>>
    decreases events.len(),
{
    if events.len() == 0 {
        seq![]
    } else {
        match (events.last(), action_before(events, events.len() - 1)) {
            (EchoEvent::Sent, EchoAction::Send(data)) => taken(events.drop_last()).push(data@),
            _ => taken(events.drop_last()),
        }
    }
}

/// What comes out of an echo is what went in, piece by piece and in order, but for the last piece
/// while it is on its way; and nothing happens after one of its ends was closed.
pub proof fn lemma_echo_is_faithful(events: Seq<EchoEvent>)
    requires
        is_run(events),
    ensures
        match action_before(events, events.len() as int) {
            EchoAction::Receive => taken(events) == received(events),
            EchoAction::Send(data) => taken(events).push(data@) == received(events),
            EchoAction::Stop => taken(events).is_prefix_of(received(events)) && received(events).len()
                <= taken(events).len() + 1,
        },
        forall|i: int| 0 <= i < events.len() - 1 ==> !(action_on(#[trigger] events[i]) is Stop),
    decreases events.len(),
{
    if events.len() > 0 {
        let n = events.len() - 1;
        let rest = events.drop_last();
        assert forall|i: int| 0 <= i < rest.len() implies can_follow(
            action_before(rest, i),
            #[trigger] rest[i],
        ) by {
            assert(can_follow(action_before(events, i), events[i]));
        }
        lemma_echo_is_faithful(rest);
        assert(action_before(rest, n) == action_before(events, n));
        assert(can_follow(action_before(events, n), events[n]));
        assert forall|i: int| 0 <= i < n implies !(action_on(#[trigger] events[i]) is Stop) by {
            assert(can_follow(action_before(events, i + 1), events[i + 1]));
        }
    }
}

impl Echo {
    /// Begins a session, which always succeeds.
    pub fn new() -> (r: Result<Self, DispatchError>)
        ensures
            r == Ok::<Self, DispatchError>(Echo {  }),
    {
        Ok(Echo {  })
    }

    /// What the session does next: it sends what it was sent, until one of its ends is closed.
    pub fn step(&self, event: EchoEvent) -> (r: EchoAction)
        ensures
            r == action_on(event),
    {
        match event {
            EchoEvent::Input(data) => EchoAction::Send(data),
            EchoEvent::Sent => EchoAction::Receive,
            EchoEvent::InputClosed => EchoAction::Stop,
            EchoEvent::OutputClosed => EchoAction::Stop,
        }
    }
}

/// All that an echo is sent it sends, and then waits for more; and it stops only where one of its
/// ends is closed.
pub proof fn lemma_echo_goes_on(event: EchoEvent)
    ensures
        event matches EchoEvent::Input(data) ==> action_on(event) == EchoAction::Send(data),
        action_on(event) is Send ==> event is Input,
        action_on(event) is Receive <==> event is Sent,
        action_on(event) is Stop <==> event is InputClosed || event is OutputClosed,
{
}

} // verus!
