//! Sessions that run a shell on a terminal.
use crate::text;
use vstd::prelude::*;
use vstd::string::*;

verus! {

/// A terminal: its size, the shell that runs on it, and the shell's environment.
#[derive(Debug)]
pub struct Terminal {
    pub rows: u16,
    pub cols: u16,
    pub pixel_width: u16,
    pub pixel_height: u16,
    pub program: String,
    pub env: Vec<(String, String)>,
}

/// A terminal, as a mathematical value.
#[verifier::ext_equal]
pub struct TerminalView {
    pub rows: u16,
    pub cols: u16,
    pub pixel_width: u16,
    pub pixel_height: u16,
    pub program: Seq<char>,
    pub env: Seq<(Seq<char>, Seq<char>)>,
}

impl View for Terminal {
    type V = TerminalView;

    open spec fn view(&self) -> TerminalView {
        TerminalView {
            rows: self.rows,
            cols: self.cols,
            pixel_width: self.pixel_width,
            pixel_height: self.pixel_height,
            program: self.program@,
            env: self.env@.map_values(|e: (String, String)| (e.0@, e.1@)),
        }
    }
}

/// The terminal of each session: 24 lines of 80 characters, a plain shell, and no prompt.
pub open spec fn plain_terminal() -> TerminalView {
    TerminalView {
        rows: 24,
        cols: 80,
        pixel_width: 0,
        pixel_height: 0,
        program: "/bin/sh"@,
        env: seq![("TERM"@, "dumb"@), ("PS1"@, ""@)],
    }
}

/// What happened to a terminal.
#[derive(Debug)]
pub enum TerminalEvent {
    /// Something was sent to the session.
    Input(Vec<u8>),
    /// The shell wrote something.
    Output(Vec<u8>),
    /// What was sent to the session was written to the terminal, or was not.
    Wrote(bool),
    /// What was written was passed on, or was not.
    Flushed(bool),
    /// What the shell wrote was sent on, or was not taken.
    Sent(bool),
}

/// What is done next with a terminal.
#[derive(Debug)]
pub enum TerminalAction {
    /// Wait for what is sent, or for what the shell writes.
    Wait,
    Write(Vec<u8>),
    Flush,
    Send(Vec<u8>),
    Stop,
}

/// What is done with a terminal on an event: what is sent to the session is written to it, and
/// what the shell writes is sent on, until one of the two fails.
pub open spec fn action_on(event: TerminalEvent) -> TerminalAction {
    match event {
        TerminalEvent::Input(data) => TerminalAction::Write(data),
        TerminalEvent::Output(data) => TerminalAction::Send(data),
        TerminalEvent::Wrote(true) => TerminalAction::Flush,
        TerminalEvent::Flushed(true) => TerminalAction::Wait,
        TerminalEvent::Sent(true) => TerminalAction::Wait,
        TerminalEvent::Wrote(false) => TerminalAction::Stop,
        TerminalEvent::Flushed(false) => TerminalAction::Stop,
        TerminalEvent::Sent(false) => TerminalAction::Stop,
    }
}

/// The event is one that the action can lead to.
pub open spec fn can_follow(action: TerminalAction, event: TerminalEvent) -> bool {
    match action {
        TerminalAction::Wait => event is Input || event is Output,
        TerminalAction::Write(_) => event is Wrote,
        TerminalAction::Flush => event is Flushed,
        TerminalAction::Send(_) => event is Sent,
        TerminalAction::Stop => false,
    }
}

/// What is done before the event at that position: a run begins by waiting.
pub open spec fn action_before(events: Seq<TerminalEvent>, i: int) -> TerminalAction {
    if i <= 0 {
        TerminalAction::Wait
    } else {
        action_on(events[i - 1])
    }
}

/// The events are those of a run: each is one that the action before it can lead to.
pub open spec fn is_run(events: Seq<TerminalEvent>) -> bool {
    forall|i: int|
        0 <= i < events.len() ==> can_follow(action_before(events, i), #[trigger] events[i])
}

/// What was sent to the session, piece by piece.
pub open spec fn received(events: Seq<TerminalEvent>) -> Seq<Seq<u8>>
    decreases events.len(),
{
    if events.len() == 0 {
        seq![]
    } else {
        match events.last() {
            TerminalEvent::Input(data) => received(events.drop_last()).push(data@),
            _ => received(events.drop_last()),
        }
    }
}

/// What was written to the terminal, piece by piece.
pub open spec fn written(events: Seq<TerminalEvent>) -> Seq<Seq<u8>>
    decreases events.len(),
{
    if events.len() == 0 {
        seq![]
    } else {
        match (events.last(), action_before(events, events.len() - 1)) {
            (TerminalEvent::Wrote(true), TerminalAction::Write(data)) => written(
                events.drop_last(),
            ).push(data@),
            _ => written(events.drop_last()),
        }
    }
}

/// What the shell wrote, piece by piece.
pub open spec fn shown(events: Seq<TerminalEvent>) -> Seq<Seq<u8>>
    decreases events.len(),
{
    if events.len() == 0 {
        seq![]
    } else {
        match events.last() {
            TerminalEvent::Output(data) => shown(events.drop_last()).push(data@),
            _ => shown(events.drop_last()),
        }
    }
}

/// What was sent on of what the shell wrote, piece by piece.
pub open spec fn sent(events: Seq<TerminalEvent>) -> Seq<Seq<u8>>
    decreases events.len(),
{
    if events.len() == 0 {
        seq![]
    } else {
        match (events.last(), action_before(events, events.len() - 1)) {
            (TerminalEvent::Sent(true), TerminalAction::Send(data)) => sent(
                events.drop_last(),
            ).push(data@),
            _ => sent(events.drop_last()),
        }
    }
}

/// What is written to a terminal is what was sent to the session, and what is sent on is what the
/// shell wrote, piece by piece and in order, but for the piece that is on its way; and nothing
/// happens after something has failed.
pub proof fn lemma_terminal_is_faithful(events: Seq<TerminalEvent>)
    requires
        is_run(events),
    ensures
        match action_before(events, events.len() as int) {
            TerminalAction::Write(data) => {
                &&& written(events).push(data@) == received(events)
                &&& sent(events) == shown(events)
            },
            TerminalAction::Send(data) => {
                &&& written(events) == received(events)
                &&& sent(events).push(data@) == shown(events)
            },
            TerminalAction::Stop => {
                &&& written(events).is_prefix_of(received(events))
                &&& received(events).len() <= written(events).len() + 1
                &&& sent(events).is_prefix_of(shown(events))
                &&& shown(events).len() <= sent(events).len() + 1
            },
            _ => written(events) == received(events) && sent(events) == shown(events),
        },
        forall|i: int| 0 <= i < events.len() - 1 ==> !(action_on(#[trigger] events[i]) is Stop),
    decreases events.len(),
{
    if events.len() > 0 {
        let n = events.len() - 1;
        let rest = events.drop_last();
        assert forall|i: int| 0 <= i < rest.len() implies can_follow(
            action_before(rest, i),
            #[trigger] rest[i],
        ) by {
            assert(can_follow(action_before(events, i), events[i]));
        }
        lemma_terminal_is_faithful(rest);
        assert(action_before(rest, n) == action_before(events, n));
        assert(can_follow(action_before(events, n), events[n]));
        assert forall|i: int| 0 <= i < n implies !(action_on(#[trigger] events[i]) is Stop) by {
            assert(can_follow(action_before(events, i + 1), events[i + 1]));
        }
    }
}

impl Terminal {
    /// The terminal of a session, whatever its arguments.
    pub fn new(_arg: String) -> (r: Self)
        ensures
            r@ == plain_terminal(),
            r.rows == 24,
            r.cols == 80,
            r.pixel_width == 0,
            r.pixel_height == 0,
            r.program@ == "/bin/sh"@,
            r.env@.len() == 2,
            r.env@[0].0@ == "TERM"@ && r.env@[0].1@ == "dumb"@,
            r.env@[1].0@ == "PS1"@ && r.env@[1].1@ == ""@,
    {
        let mut env: Vec<(String, String)> = Vec::new();
        env.push(("TERM".to_owned(), "dumb".to_owned()));
        env.push(("PS1".to_owned(), "".to_owned()));
        let r = Terminal {
            rows: 24,
            cols: 80,
            pixel_width: 0,
            pixel_height: 0,
            program: "/bin/sh".to_owned(),
            env,
        };
        assert(r@.env =~= plain_terminal().env);
        r
    }

    /// What is done next with the terminal: what is sent to the session is written to it, and what
    /// the shell writes is sent on, until one of the two fails.
    pub fn step(&self, event: TerminalEvent) -> (r: TerminalAction)
        ensures
            r == action_on(event),
    {
        match event {
            TerminalEvent::Input(data) => TerminalAction::Write(data),
            TerminalEvent::Output(data) => TerminalAction::Send(data),
            TerminalEvent::Wrote(true) => TerminalAction::Flush,
            TerminalEvent::Flushed(true) => TerminalAction::Wait,
            TerminalEvent::Sent(true) => TerminalAction::Wait,
            TerminalEvent::Wrote(false) => TerminalAction::Stop,
            TerminalEvent::Flushed(false) => TerminalAction::Stop,
            TerminalEvent::Sent(false) => TerminalAction::Stop,
        }
    }
}

/// All that is sent to the session is written to the terminal, and passed on; all that the shell
/// writes is sent on; after each more is waited for; and only a failure stops it.
pub proof fn lemma_terminal_goes_on(event: TerminalEvent)
    ensures
        event matches TerminalEvent::Input(data) ==> action_on(event) == TerminalAction::Write(data),
        event matches TerminalEvent::Output(data) ==> action_on(event) == TerminalAction::Send(data),
        action_on(event) is Write ==> event is Input,
        action_on(event) is Send ==> event is Output,
        action_on(event) is Flush <==> event == TerminalEvent::Wrote(true),
        action_on(event) is Wait <==> event == TerminalEvent::Flushed(true) || event
            == TerminalEvent::Sent(true),
        action_on(event) is Stop <==> event == TerminalEvent::Wrote(false) || event
            == TerminalEvent::Flushed(false) || event == TerminalEvent::Sent(false),
{
}

} // verus!
