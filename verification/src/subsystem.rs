//! Sessions that run a program.
use crate::text;
use vstd::prelude::*;
use vstd::string::*;

verus! {

/// A program to run, and the one argument that it gets.
#[derive(Debug)]
pub struct SubSystem {
    pub program: String,
    pub arg: Option<String>,
}

/// A program to run, as a mathematical value.
#[verifier::ext_equal]
pub struct SubSystemView {
    pub program: Seq<char>,
    pub arg: Option<Seq<char>>,
}

impl View for SubSystem {
    type V = SubSystemView;

    open spec fn view(&self) -> SubSystemView {
        SubSystemView { program: self.program@, arg: text::opt_text(self.arg) }
    }
}

/// The program that a session's arguments name: what stands before the first space, with `/` for
/// each `\`. What stands behind that space, if anything, is the program's argument.
pub open spec fn program_of(args: Seq<char>) -> SubSystemView {
    match text::find(args, " "@) {
        Some(i) => SubSystemView {
            program: text::replace(args.take(i), "\\"@, "/"@),
            arg: if i + 1 < args.len() {
                Some(args.skip(i + 1))
            } else {
                None
            },
        },
        None => SubSystemView { program: text::replace(args, "\\"@, "/"@), arg: None },
    }
}

/// The name of a program has no space and no `\` in it.
pub proof fn lemma_program_is_plain(args: Seq<char>)
    ensures
        text::lacks(program_of(args).program, '\\'),
        text::lacks(program_of(args).program, ' '),
{
    reveal_strlit(" ");
    reveal_strlit("\\");
    reveal_strlit("/");
    assert(" "@ =~= seq![' ']);
    assert("\\"@ =~= seq!['\\']);
    assert("/"@ =~= seq!['/']);
    text::lemma_find_from(args, seq![' '], 0);
    let name = match text::find(args, seq![' ']) {
        Some(i) => args.take(i),
        None => args,
    };
    assert forall|i: int| 0 <= i < name.len() implies #[trigger] name[i] != ' ' by {
        text::lemma_matches_char(args, ' ', i);
    }
    text::lemma_replaced(name, '\\', seq!['/']);
    text::lemma_replace_keeps_out(name, '\\', seq!['/'], ' ');
}

/// What happened to a program that runs.
#[derive(Debug)]
pub enum SubSystemEvent {
    /// Something was sent to the session.
    Input(Vec<u8>),
    /// Nothing more will be sent to the session.
    InputClosed,
    /// What the program was given to read was written, or was not.
    Wrote(bool),
    /// What was written was passed on, or was not.
    Flushed(bool),
    /// The program ended.
    Exited,
}

/// What is done next with a program that runs.
#[derive(Debug)]
pub enum SubSystemAction {
    /// Wait for what is sent, or for the program's end.
    Wait,
    Write(Vec<u8>),
    Flush,
    /// Close what the program reads, and wait for its end.
    Finish,
    Stop,
}

/// What happened to the output of a program.
#[derive(Debug)]
pub enum OutputEvent {
    /// So many bytes of the buffer were read.
    Read(usize),
    ReadFailed,
    /// What was read was sent on.
    Sent,
    /// What was read was not taken.
    OutputClosed,
}

/// What is done next with the output of a program.
#[derive(Debug, PartialEq, Eq, Structural)]
pub enum OutputAction {
    Read,
    /// Send on so many bytes of the buffer.
    Send(usize),
    Stop,
}

/// What is done with the output of a program on an event: it is sent on as it is read, until there
/// is no more of it.
pub open spec fn output_action(event: OutputEvent) -> OutputAction {
    match event {
        OutputEvent::Read(n) => if n == 0 {
            OutputAction::Stop
        } else {
            OutputAction::Send(n)
        },
        OutputEvent::Sent => OutputAction::Read,
        OutputEvent::ReadFailed => OutputAction::Stop,
        OutputEvent::OutputClosed => OutputAction::Stop,
    }
}

/// What is done next with the output of a program.
pub fn output_step(event: OutputEvent) -> (r: OutputAction)
    ensures
        r == output_action(event),
{
    match event {
        OutputEvent::Read(n) => if n == 0 {
            OutputAction::Stop
        } else {
            OutputAction::Send(n)
        },
        OutputEvent::Sent => OutputAction::Read,
        OutputEvent::ReadFailed => OutputAction::Stop,
        OutputEvent::OutputClosed => OutputAction::Stop,
    }
}

/// The event is one that the action can lead to.
pub open spec fn output_follows(action: OutputAction, event: OutputEvent) -> bool {
    match action {
        OutputAction::Read => event is Read || event is ReadFailed,
        OutputAction::Send(_) => event is Sent || event is OutputClosed,
        OutputAction::Stop => false,
    }
}

/// What is done before the event at that position: a run begins by reading.
pub open spec fn output_before(events: Seq<OutputEvent>, i: int) -> OutputAction {
    if i <= 0 {
        OutputAction::Read
    } else {
        output_action(events[i - 1])
    }
}

/// The events are those of a run: each is one that the action before it can lead to.
pub open spec fn is_output_run(events: Seq<OutputEvent>) -> bool {
    forall|i: int|
        0 <= i < events.len() ==> output_follows(output_before(events, i), #[trigger] events[i])
}

/// How many bytes were read each time, while there were any.
pub open spec fn sizes_read(events: Seq<OutputEvent>) -> Seq<usize>
    decreases events.len(),
{
    if events.len() == 0 {
        seq![]
    } else {
        match events.last() {
            OutputEvent::Read(n) => if n == 0 {
                sizes_read(events.drop_last())
            } else {
                sizes_read(events.drop_last()).push(n)
            },
            _ => sizes_read(events.drop_last()),
        }
    }
}

/// How many bytes were sent on each time.
pub open spec fn sizes_sent(events: Seq<OutputEvent>) -> Seq<usize>
    decreases events.len(),
{
    if events.len() == 0 {
        seq![]
    } else {
        match (events.last(), output_before(events, events.len() - 1)) {
            (OutputEvent::Sent, OutputAction::Send(n)) => sizes_sent(events.drop_last()).push(n),
            _ => sizes_sent(events.drop_last()),
        }
    }
}

/// Each time something is read, just that much is sent on before the next is read; and nothing
/// happens after the end of the output or after a failure.
pub proof fn lemma_output_is_sent_on(events: Seq<OutputEvent>)
    requires
        is_output_run(events),
    ensures
        match output_before(events, events.len() as int) {
            OutputAction::Read => sizes_sent(events) == sizes_read(events),
            OutputAction::Send(n) => sizes_sent(events).push(n) == sizes_read(events),
            OutputAction::Stop => sizes_sent(events).is_prefix_of(sizes_read(events)) && sizes_read(
                events,
            ).len() <= sizes_sent(events).len() + 1,
        },
        forall|i: int| 0 <= i < events.len() - 1 ==> !(output_action(#[trigger] events[i]) is Stop),
    decreases events.len(),
{
    if events.len() > 0 {
        let n = events.len() - 1;
        let rest = events.drop_last();
        assert forall|i: int| 0 <= i < rest.len() implies output_follows(
            output_before(rest, i),
            #[trigger] rest[i],
        ) by {
            assert(output_follows(output_before(events, i), events[i]));
        }
        lemma_output_is_sent_on(rest);
        assert(output_before(rest, n) == output_before(events, n));
        assert(output_follows(output_before(events, n), events[n]));
        assert forall|i: int| 0 <= i < n implies !(output_action(#[trigger] events[i]) is Stop) by {
            assert(output_follows(output_before(events, i + 1), events[i + 1]));
        }
    }
}

/// What is done with a program on an event: it is given what is sent to the session, until its end
/// or until it takes no more.
pub open spec fn action_on(event: SubSystemEvent) -> SubSystemAction {
    match event {
        SubSystemEvent::Input(data) => SubSystemAction::Write(data),
        SubSystemEvent::InputClosed => SubSystemAction::Finish,
        SubSystemEvent::Wrote(true) => SubSystemAction::Flush,
        SubSystemEvent::Flushed(true) => SubSystemAction::Wait,
        SubSystemEvent::Wrote(false) => SubSystemAction::Stop,
        SubSystemEvent::Flushed(false) => SubSystemAction::Stop,
        SubSystemEvent::Exited => SubSystemAction::Stop,
    }
}

/// The event is one that the action can lead to.
pub open spec fn can_follow(action: SubSystemAction, event: SubSystemEvent) -> bool {
    match action {
        SubSystemAction::Wait => event is Input || event is InputClosed || event is Exited,
        SubSystemAction::Write(_) => event is Wrote,
        SubSystemAction::Flush => event is Flushed,
        SubSystemAction::Finish => false,
        SubSystemAction::Stop => false,
    }
}

/// What is done before the event at that position: a run begins by waiting.
pub open spec fn action_before(events: Seq<SubSystemEvent>, i: int) -> SubSystemAction {
    if i <= 0 {
        SubSystemAction::Wait
    } else {
        action_on(events[i - 1])
    }
}

/// The events are those of a run: each is one that the action before it can lead to.
pub open spec fn is_run(events: Seq<SubSystemEvent>) -> bool {
    forall|i: int|
        0 <= i < events.len() ==> can_follow(action_before(events, i), #[trigger] events[i])
}

/// What was sent to the session, piece by piece.
pub open spec fn received(events: Seq<SubSystemEvent>) -> Seq<Seq<u8>>
    decreases events.len(),
{
    if events.len() == 0 {
        seq![]
    } else {
        match events.last() {
            SubSystemEvent::Input(data) => received(events.drop_last()).push(data@),
            _ => received(events.drop_last()),
        }
    }
}

/// What the program was given to read, piece by piece.
pub open spec fn written(events: Seq<SubSystemEvent>) -> Seq<Seq<u8>>
    decreases events.len(),
{
    if events.len() == 0 {
        seq![]
    } else {
        match (events.last(), action_before(events, events.len() - 1)) {
            (SubSystemEvent::Wrote(true), SubSystemAction::Write(data)) => written(
                events.drop_last(),
            ).push(data@),
            _ => written(events.drop_last()),
        }
    }
}

/// A program is given what was sent to the session, piece by piece and in order, but for the piece
/// that is on its way; and nothing happens after its end, after the end of what is sent, or after
/// something has failed.
pub proof fn lemma_program_gets_its_input(events: Seq<SubSystemEvent>)
    requires
        is_run(events),
    ensures
        match action_before(events, events.len() as int) {
            SubSystemAction::Write(data) => written(events).push(data@) == received(events),
            SubSystemAction::Stop => written(events).is_prefix_of(received(events)) && received(
                events,
            ).len() <= written(events).len() + 1,
            _ => written(events) == received(events),
        },
        forall|i: int|
            0 <= i < events.len() - 1 ==> !(action_on(#[trigger] events[i]) is Stop) && !(action_on(
                events[i],
            ) is Finish),
    decreases events.len(),
{
    if events.len() > 0 {
        let n = events.len() - 1;
        let rest = events.drop_last();
        assert forall|i: int| 0 <= i < rest.len() implies can_follow(
            action_before(rest, i),
            #[trigger] rest[i],
        ) by {
            assert(can_follow(action_before(events, i), events[i]));
        }
        lemma_program_gets_its_input(rest);
        assert(action_before(rest, n) == action_before(events, n));
        assert(can_follow(action_before(events, n), events[n]));
        assert forall|i: int| 0 <= i < n implies !(action_on(#[trigger] events[i]) is Stop) && !(
        action_on(events[i]) is Finish) by {
            assert(can_follow(action_before(events, i + 1), events[i + 1]));
        }
    }
}

impl SubSystem {
    /// The program that a session's arguments name.
    pub fn new(arg: String) -> (r: Self)
        ensures
            r@ == program_of(arg@),
            r.program@ == program_of(arg@).program,
            text::opt_text(r.arg) == program_of(arg@).arg,
    {
        proof {
            reveal_strlit(" ");
            reveal_strlit("\\");
            text::lemma_find_from(arg@, " "@, 0);
        }
        match text::cut_text(arg.as_str(), " ") {
            Some((before, behind)) => {
                let program = text::replace_text(before.as_str(), "\\", "/");
                let n: usize = behind.as_str().unicode_len();
                let rest = if n == 0 {
                    None
                } else {
                    Some(behind)
                };
                SubSystem { program, arg: rest }
            },
            None => SubSystem {
                program: text::replace_text(arg.as_str(), "\\", "/"),
                arg: None,
            },
        }
    }

    /// What is done next with the program: it is given what is sent to the session, until its end
    /// or until it takes no more.
    pub fn step(&self, event: SubSystemEvent) -> (r: SubSystemAction)
        ensures
            r == action_on(event),
    {
        match event {
            SubSystemEvent::Input(data) => SubSystemAction::Write(data),
            SubSystemEvent::InputClosed => SubSystemAction::Finish,
            SubSystemEvent::Wrote(true) => SubSystemAction::Flush,
            SubSystemEvent::Flushed(true) => SubSystemAction::Wait,
            SubSystemEvent::Wrote(false) => SubSystemAction::Stop,
            SubSystemEvent::Flushed(false) => SubSystemAction::Stop,
            SubSystemEvent::Exited => SubSystemAction::Stop,
        }
    }
}

/// The program and its argument, character by character: the name of the program is what stands
/// before the first space, or all where there is none, with `/` in each place of a `\\`; the argument
/// is all that stands behind that space, if anything does.
pub proof fn lemma_program(args: Seq<char>, n: int)
    requires
        0 <= n <= args.len(),
        forall|i: int| 0 <= i < n ==> #[trigger] args[i] != ' ',
        n < args.len() ==> args[n] == ' ',
    ensures
        program_of(args).program.len() == n,
        forall|i: int|
            0 <= i < n ==> #[trigger] program_of(args).program[i] == if args[i] == '\\' {
                '/'
            } else {
                args[i]
            },
        program_of(args).arg == if n + 1 < args.len() {
            Some(args.subrange(n + 1, args.len() as int))
        } else {
            None
        },
{
    reveal_strlit(" ");
    reveal_strlit("\\");
    reveal_strlit("/");
    assert(" "@ =~= seq![' ']);
    assert("\\"@ =~= seq!['\\']);
    assert("/"@ =~= seq!['/']);
    let name = args.take(n);
    if n < args.len() {
        let rest = args.skip(n + 1);
        assert(args =~= name + seq![' '] + rest);
        text::lemma_find_behind(name, ' ', rest);
        assert(args.skip(n + 1) =~= args.subrange(n + 1, args.len() as int));
    } else {
        assert(name =~= args);
        text::lemma_find_lacking(args, ' ');
    }
    text::lemma_replace_char(name, '\\', '/');
}

/// Output that was read is sent on, all of it; what was sent on is followed by more reading; and
/// only the end of the output, or a failure on either side, stops it.
pub proof fn lemma_output_goes_on(event: OutputEvent)
    ensures
        event matches OutputEvent::Read(n) ==> (n > 0 ==> output_action(event) == OutputAction::Send(
            n,
        )),
        output_action(event) is Read <==> event is Sent,
        output_action(event) is Send ==> event is Read,
        output_action(event) is Stop <==> event == OutputEvent::Read(0) || event is ReadFailed
            || event is OutputClosed,
{
}

/// A program is given all that is sent to the session; what it was given is passed on, and then
/// more is waited for. It is stopped only by its own end or by a failure, and its input is closed
/// only where nothing more will be sent.
pub proof fn lemma_program_goes_on(event: SubSystemEvent)
    ensures
        event matches SubSystemEvent::Input(data) ==> action_on(event) == SubSystemAction::Write(
            data,
        ),
        action_on(event) is Write ==> event is Input,
        action_on(event) is Flush <==> event == SubSystemEvent::Wrote(true),
        action_on(event) is Wait <==> event == SubSystemEvent::Flushed(true),
        action_on(event) is Finish <==> event is InputClosed,
        action_on(event) is Stop <==> event == SubSystemEvent::Wrote(false) || event
            == SubSystemEvent::Flushed(false) || event is Exited,
{
}

} // verus!
