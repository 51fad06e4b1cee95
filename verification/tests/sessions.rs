use bytes::Bytes;
use mssh::common::{MailFields, MailInfo, MessageFile};
use mssh::dispatcher::{
    main_answer, read_commands, read_main, BufferAction, BufferEvent, ClientContext,
    DispatchError, Dispatcher, MainAction, MainCommand, OutputBuffer, Session, Step,
};
use mssh::echo::{Echo, EchoAction, EchoEvent};
use mssh::mail::PartBody;
use mssh::subsystem::{
    output_step, OutputAction, OutputEvent, SubSystem, SubSystemAction, SubSystemEvent,
};
use mssh::terminal::{Terminal, TerminalAction, TerminalEvent};
use std::time::Duration;

fn info(from: &str, id: &str, typ: &str, date: i64) -> MailInfo {
    MailInfo {
        from: from.to_string(),
        to: "server@example.net".to_string(),
        subject: format!("a/#{} {}/b", id, typ),
        message_id: Some("m1@example.org".to_string()),
        reference: None,
        in_reply_to: None,
        flow_id: Some(id.to_string()),
        typ: Some(typ.to_string()),
        args: Some("bin\\ls -l -a".to_string()),
        date: Some(date),
    }
}

fn dispatcher() -> Dispatcher<u32> {
    Dispatcher::new(Duration::from_secs(7)).unwrap()
}

fn body() -> Bytes {
    Bytes::from_static(b"body")
}

fn text_of(m: &MessageFile) -> String {
    String::from_utf8(m.file.to_vec()).unwrap()
}

#[test]
fn sessions_by_type() {
    assert!(matches!(Session::new("echo".into(), "".into()), Ok(Session::Echo(_))));
    assert!(matches!(Session::new("term".into(), "".into()), Ok(Session::Terminal(_))));
    assert!(matches!(Session::new("".into(), "".into()), Ok(Session::Terminal(_))));
    match Session::new("subs".into(), "bin\\ls -l".into()) {
        Ok(Session::SubSystem(s)) => assert_eq!(s.program, "bin/ls"),
        other => panic!("{:?}", other),
    }
    match Session::new("vnc".into(), "".into()) {
        Err(DispatchError::UnknownType(t)) => assert_eq!(t, "vnc"),
        other => panic!("{:?}", other),
    }
}

#[test]
fn programs_and_their_argument() {
    let s = SubSystem::new("c:\\bin\\ls -l -a".to_string());
    assert_eq!(s.program, "c:/bin/ls");
    assert_eq!(s.arg.as_deref(), Some("-l -a"));
    let s = SubSystem::new("ls".to_string());
    assert_eq!(s.program, "ls");
    assert_eq!(s.arg, None);
    let s = SubSystem::new("ls ".to_string());
    assert_eq!(s.arg, None);
    let s = SubSystem::new("".to_string());
    assert_eq!(s.program, "");
    let s = SubSystem::new("a b\\c".to_string());
    assert_eq!(s.arg.as_deref(), Some("b\\c"));
}

#[test]
fn programs_have_plain_names() {
    for args in ["a\\b c\\d", "\\\\", " x", "a/b\\ c"] {
        let s = SubSystem::new(args.to_string());
        assert!(!s.program.contains('\\') && !s.program.contains(' '));
    }
}

#[test]
fn program_gets_what_is_sent() {
    let s = SubSystem::new("ls".to_string());
    match s.step(SubSystemEvent::Input(vec![1, 2])) {
        SubSystemAction::Write(d) => assert_eq!(d, vec![1, 2]),
        other => panic!("{:?}", other),
    }
    assert!(matches!(s.step(SubSystemEvent::Wrote(true)), SubSystemAction::Flush));
    assert!(matches!(s.step(SubSystemEvent::Flushed(true)), SubSystemAction::Wait));
    assert!(matches!(s.step(SubSystemEvent::Wrote(false)), SubSystemAction::Stop));
    assert!(matches!(s.step(SubSystemEvent::Flushed(false)), SubSystemAction::Stop));
    assert!(matches!(s.step(SubSystemEvent::InputClosed), SubSystemAction::Finish));
    assert!(matches!(s.step(SubSystemEvent::Exited), SubSystemAction::Stop));
}

#[test]
fn output_is_sent_on() {
    assert_eq!(output_step(OutputEvent::Read(3)), OutputAction::Send(3));
    assert_eq!(output_step(OutputEvent::Read(0)), OutputAction::Stop);
    assert_eq!(output_step(OutputEvent::ReadFailed), OutputAction::Stop);
    assert_eq!(output_step(OutputEvent::Sent), OutputAction::Read);
    assert_eq!(output_step(OutputEvent::OutputClosed), OutputAction::Stop);
}

#[test]
fn terminal_is_plain() {
    let t = Terminal::new("ignored".to_string());
    assert_eq!((t.rows, t.cols, t.pixel_width, t.pixel_height), (24, 80, 0, 0));
    assert_eq!(t.program, "/bin/sh");
    let env = vec![
        ("TERM".to_string(), "dumb".to_string()),
        ("PS1".to_string(), "".to_string()),
    ];
    assert_eq!(t.env, env);
    match t.step(TerminalEvent::Input(vec![1])) {
        TerminalAction::Write(d) => assert_eq!(d, vec![1]),
        other => panic!("{:?}", other),
    }
    match t.step(TerminalEvent::Output(vec![2])) {
        TerminalAction::Send(d) => assert_eq!(d, vec![2]),
        other => panic!("{:?}", other),
    }
    assert!(matches!(t.step(TerminalEvent::Wrote(true)), TerminalAction::Flush));
    assert!(matches!(t.step(TerminalEvent::Flushed(true)), TerminalAction::Wait));
    assert!(matches!(t.step(TerminalEvent::Sent(true)), TerminalAction::Wait));
    assert!(matches!(t.step(TerminalEvent::Wrote(false)), TerminalAction::Stop));
    assert!(matches!(t.step(TerminalEvent::Flushed(false)), TerminalAction::Stop));
    assert!(matches!(t.step(TerminalEvent::Sent(false)), TerminalAction::Stop));
}

#[test]
fn echo_sends_back() {
    let e = Echo::new().unwrap();
    match e.step(EchoEvent::Input(vec![1, 2, 3])) {
        EchoAction::Send(d) => assert_eq!(d, vec![1, 2, 3]),
        other => panic!("{:?}", other),
    }
    assert!(matches!(e.step(EchoEvent::Sent), EchoAction::Receive));
    assert!(matches!(e.step(EchoEvent::InputClosed), EchoAction::Stop));
    assert!(matches!(e.step(EchoEvent::OutputClosed), EchoAction::Stop));
}

fn data(s: &[u8]) -> BufferEvent {
    BufferEvent::Data(s.to_vec())
}

#[test]
fn output_is_kept_until_it_is_due() {
    let mut b = OutputBuffer::new();
    assert!(matches!(b.step(data(b"early ")), BufferAction::Wait));
    assert!(matches!(b.step(BufferEvent::Tick), BufferAction::Wait));
    assert!(matches!(b.step(data(b"one ")), BufferAction::Wait));
    assert!(matches!(b.step(data(b"")), BufferAction::Wait));
    assert!(matches!(b.step(data(b"two")), BufferAction::Wait));
    match b.step(BufferEvent::Tick) {
        BufferAction::Send(d) => assert_eq!(d, b"early one two"),
        other => panic!("{:?}", other),
    }
    assert!(matches!(b.step(BufferEvent::Sent(true)), BufferAction::Wait));
    assert!(matches!(b.step(BufferEvent::Tick), BufferAction::Wait));
    b.step(data(b"three"));
    match b.step(BufferEvent::Tick) {
        BufferAction::Send(d) => assert_eq!(d, b"three"),
        other => panic!("{:?}", other),
    }
    assert!(matches!(b.step(BufferEvent::Sent(false)), BufferAction::Stop));
}

#[test]
fn context_answers_the_last_mail() {
    let (mut context, _) = ClientContext::create("echo".into(), "".into()).unwrap();
    assert!(context.last_mail.is_none());
    let first = info("alice@example.org", "id", "echo", 1);
    assert_eq!(context.send_to_tr(Bytes::from_static(b"hi"), first), b"hi".to_vec());
    let second = info("bob@example.org", "id", "echo", 2);
    context.send_to_tr(Bytes::from_static(b"ho"), second);
    let m = context.send_from_tr(b"answer".to_vec());
    assert_eq!(m.client, "bob@example.org");
    let reply = m.info.as_ref().unwrap();
    assert_eq!(reply.to, "bob@example.org");
    assert_eq!(reply.from, "server@example.net");
    let text = text_of(&m);
    assert!(text.starts_with("To: <bob@example.org>\r\nFrom: <server@example.net>\r\n"));
    assert!(text.ends_with("answer"));
}

#[test]
fn context_of_an_unknown_type() {
    let e = ClientContext::create("vnc".into(), "".into()).err().unwrap();
    assert_eq!(e.message(), "Unknown session type: vnc");
}

#[test]
fn first_mail_opens_a_session() {
    let mut d = dispatcher();
    assert_eq!(d.tick_interval(), Duration::from_secs(7));
    match d.dispatch(body(), info("a@x", "id", "subs", 5)) {
        Step::Open(id, context, Session::SubSystem(s), bytes, mail) => {
            assert_eq!(id, "id");
            assert!(context.last_mail.is_none());
            assert_eq!(s.program, "bin/ls");
            assert_eq!(s.arg.as_deref(), Some("-l -a"));
            assert_eq!(bytes.as_ref(), b"body");
            assert_eq!(mail.from, "a@x");
        }
        other => panic!("{:?}", other),
    }
    assert!(d.client("id").is_none());
    d.opened("id".to_string(), 42);
    assert_eq!(d.client("id"), Some(&42));
    assert_eq!(d.clients().len(), 1);
    match d.dispatch(body(), info("b@x", "id", "vnc", 1)) {
        Step::Deliver(id, bytes, mail) => {
            assert_eq!(id, "id");
            assert_eq!(bytes.as_ref(), b"body");
            assert_eq!(mail.from, "b@x");
        }
        other => panic!("{:?}", other),
    }
}

fn mail(from: &str, subject: &str, date: i64) -> MailInfo {
    let fields = MailFields {
        body: Some(Some(PartBody::Text("x".to_string()))),
        from: Some(vec![Some(from.to_string())]),
        to: Some(vec![Some("server@example.net".to_string())]),
        subject: Some(subject.to_string()),
        message_id: None,
        references: None,
        in_reply_to: None,
        date: Some(date),
    };
    MailInfo::from_fields(fields, 77).unwrap().1
}

#[test]
fn answer_reaches_the_session() {
    let mut d = dispatcher();
    let first = mail("a@x", "hello/echo it/", 1);
    let answer = first.clone().create_reply();
    let name = first.flow_id.clone().unwrap();
    match d.dispatch(body(), first) {
        Step::Open(id, _, Session::Echo(_), _, _) => {
            assert_eq!(id, name);
            d.opened(id, 1);
        }
        other => panic!("{:?}", other),
    }
    let second = mail("a@x", &format!("Re: {}", answer.subject), 2);
    match d.dispatch(body(), second) {
        Step::Deliver(id, _, _) => assert_eq!(id, name),
        other => panic!("{:?}", other),
    }
}

#[test]
fn missing_type_is_a_terminal() {
    let mut d = dispatcher();
    let mut mail = info("a@x", "id", "", 5);
    mail.typ = None;
    mail.args = None;
    assert!(matches!(d.dispatch(body(), mail), Step::Open(_, _, Session::Terminal(_), _, _)));
}

#[test]
fn unknown_type_is_refused() {
    let mut d = dispatcher();
    match d.dispatch(body(), info("a@x", "id", "vnc", 5)) {
        Step::Refuse(e) => assert_eq!(e.message(), "Unknown session type: vnc"),
        other => panic!("{:?}", other),
    }
}

#[test]
fn older_mail_is_skipped() {
    let mut d = dispatcher();
    assert!(matches!(d.dispatch(body(), info("a@x", "id", "echo", 5)), Step::Open(..)));
    match d.dispatch(body(), info("a@x", "id", "echo", 4)) {
        Step::Skip(e) => assert_eq!(e.message(), "Ignoring an older email a@x"),
        other => panic!("{:?}", other),
    }
    assert!(matches!(d.dispatch(body(), info("b@x", "id", "echo", 4)), Step::Open(..)));
    assert!(matches!(d.dispatch(body(), info("a@x", "id", "echo", 5)), Step::Open(..)));
    assert!(matches!(d.dispatch(body(), info("a@x", "id", "echo", 6)), Step::Open(..)));
    assert!(d.update_last_email(&info("a@x", "id", "echo", 5)).is_err());
    assert!(d.update_last_email(&info("a@x", "id", "echo", 6)).is_ok());
}

#[test]
fn dates_are_needed_for_the_second_mail() {
    let mut d = dispatcher();
    let mut mail = info("a@x", "id", "echo", 5);
    mail.date = None;
    assert!(d.can_compare(&mail));
    d.dispatch(body(), mail);
    assert!(!d.can_compare(&info("a@x", "id", "echo", 6)));
    assert!(d.can_compare(&info("b@x", "id", "echo", 6)));
}

#[test]
fn mail_to_the_dispatcher_itself() {
    let mut d = dispatcher();
    match d.dispatch(body(), info("a@x", "MAIN", "echo", 5)) {
        Step::Main(bytes, mail) => {
            assert_eq!(bytes.as_ref(), b"body");
            assert_eq!(mail.from, "a@x");
        }
        other => panic!("{:?}", other),
    }
    assert_eq!(d.clients().len(), 0);
}

#[test]
fn commands_by_paragraph() {
    let said = "#MAIN info please\r\n\r\nhello\r\n\r\n#MAIN kill a b\r\n\r\n#MAIN killself";
    let c = read_commands(said);
    assert_eq!(c.len(), 4);
    assert!(matches!(c[0], MainCommand::Info));
    assert!(matches!(c[1], MainCommand::Ignore));
    match &c[2] {
        MainCommand::Kill(id) => assert_eq!(id, "a b"),
        other => panic!("{:?}", other),
    }
    assert!(matches!(c[3], MainCommand::KillSelf));
    match &read_main(&Bytes::from_static(b"#MAIN kill \xff"))[0] {
        MainCommand::Kill(id) => assert_eq!(id, "\u{fffd}"),
        other => panic!("{:?}", other),
    }
}

#[test]
fn commands_are_followed() {
    let mut d = dispatcher();
    d.opened("a".to_string(), 1);
    d.opened("b".to_string(), 2);
    assert!(matches!(d.pull_main(&MainCommand::Info), MainAction::Report));
    assert!(matches!(d.pull_main(&MainCommand::KillSelf), MainAction::Shutdown));
    assert!(matches!(d.pull_main(&MainCommand::Ignore), MainAction::Nothing));
    assert!(matches!(d.pull_main(&MainCommand::Kill("c".into())), MainAction::Nothing));
    assert!(matches!(d.pull_main(&MainCommand::Kill("a".into())), MainAction::End(1)));
    assert!(matches!(d.pull_main(&MainCommand::Kill("a".into())), MainAction::Nothing));
    assert_eq!(d.client("a"), None);
    assert_eq!(d.client("b"), Some(&2));
    assert!(matches!(d.dispatch(body(), info("a@x", "a", "echo", 5)), Step::Open(..)));
}

#[test]
fn mail_of_commands_is_followed() {
    let mut d = dispatcher();
    d.opened("a".to_string(), 1);
    d.opened("b".to_string(), 2);
    d.opened("c".to_string(), 3);
    let said = ["info", "kill a", "kill a", "x", "kill c", "kill d", "info"];
    let said = said.map(|c| format!("#MAIN {}", c)).join("\r\n\r\n");
    let mut reports = 0;
    let mut ended = Vec::new();
    for command in read_commands(&said) {
        match d.pull_main(&command) {
            MainAction::Report => reports += 1,
            MainAction::End(c) => ended.push(c),
            MainAction::Nothing => {}
            MainAction::Shutdown => panic!(),
        }
    }
    assert_eq!(reports, 2);
    assert_eq!(ended, vec![1, 3]);
    assert_eq!(d.client("a"), None);
    assert_eq!(d.client("b"), Some(&2));
    assert_eq!(d.client("c"), None);
}

#[test]
fn dispatcher_answers() {
    let m = main_answer(&info("a@x.org", "MAIN", "", 5), "{}");
    assert_eq!(m.client, "a@x.org");
    assert_eq!(m.info.as_ref().unwrap().to, "a@x.org");
    assert!(text_of(&m).ends_with("#MAIN 0 {}"));
}
