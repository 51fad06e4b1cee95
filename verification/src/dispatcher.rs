//! Which session a mail belongs to, and what is done with it.
use crate::common;
use crate::common::{MailInfo, MailInfoView, MessageFile};
use crate::echo::Echo;
use crate::octets;
use crate::post;
use crate::registry::Registry;
use crate::subject;
use crate::subsystem;
use crate::subsystem::{SubSystem, SubSystemView};
use crate::terminal;
use crate::terminal::{Terminal, TerminalView};
use crate::text;
use bytes::Bytes;
use std::time::Duration;
use vstd::prelude::*;
use vstd::string::*;

verus! {

/// Why a mail does not reach a session.
#[derive(Debug)]
pub enum DispatchError {
    /// There is no such type of session.
    UnknownType(String),
    /// A later mail from the address came before.
    OlderMail(String),
}

/// Why a mail does not reach a session, as a mathematical value.
#[verifier::ext_equal]
pub enum DispatchErrorView {
    UnknownType(Seq<char>),
    OlderMail(Seq<char>),
}

impl View for DispatchError {
    type V = DispatchErrorView;

    open spec fn view(&self) -> DispatchErrorView {
        match self {
            DispatchError::UnknownType(t) => DispatchErrorView::UnknownType(t@),
            DispatchError::OlderMail(a) => DispatchErrorView::OlderMail(a@),
        }
    }
}

/// What an error says.
pub open spec fn error_words(e: DispatchError) -> Seq<char> {
    match e {
        DispatchError::UnknownType(t) => "Unknown session type: "@ + t@,
        DispatchError::OlderMail(a) => "Ignoring an older email "@ + a@,
    }
}

impl DispatchError {
    /// What the error says.
    pub fn message(&self) -> (r: String)
        ensures
            r@ == error_words(*self),
            self matches DispatchError::UnknownType(t) ==> r@ == "Unknown session type: "@ + t@,
            self matches DispatchError::OlderMail(a) ==> r@ == "Ignoring an older email "@ + a@,
    {
        match self {
            DispatchError::UnknownType(t) => "Unknown session type: ".to_owned().concat(t.as_str()),
            DispatchError::OlderMail(a) => "Ignoring an older email ".to_owned().concat(a.as_str()),
        }
    }
}

/// A session that is to be begun.
#[derive(Debug)]
pub enum Session {
    Echo(Echo),
    Terminal(Terminal),
    SubSystem(SubSystem),
}

/// A session that is to be begun, as a mathematical value.
#[verifier::ext_equal]
pub enum SessionView {
    Echo,
    Terminal(TerminalView),
    SubSystem(SubSystemView),
}

impl View for Session {
    type V = SessionView;

    open spec fn view(&self) -> SessionView {
        match self {
            Session::Echo(_) => SessionView::Echo,
            Session::Terminal(t) => SessionView::Terminal(t@),
            Session::SubSystem(s) => SessionView::SubSystem(s@),
        }
    }
}

/// The session that a type and arguments stand for. Without a type it is a terminal.
pub open spec fn session_of(typ: Seq<char>, arg: Seq<char>) -> Option<SessionView> {
    if typ == "echo"@ {
        Some(SessionView::Echo)
    } else if typ == "term"@ || typ == ""@ {
        Some(SessionView::Terminal(terminal::plain_terminal()))
    } else if typ == "subs"@ {
        Some(SessionView::SubSystem(subsystem::program_of(arg)))
    } else {
        None
    }
}

impl Session {
    /// The session that a type and arguments stand for.
    pub fn new(typ: String, arg: String) -> (r: Result<Self, DispatchError>)
        ensures
            match r {
                Ok(s) => session_of(typ@, arg@) == Some(s@),
                Err(e) => {
                    &&& session_of(typ@, arg@) is None
                    &&& e@ == DispatchErrorView::UnknownType(typ@)
                },
            },
            r is Ok <==> typ@ == "echo"@ || typ@ == "term"@ || typ@ == ""@ || typ@ == "subs"@,
            r is Ok && r->Ok_0 is Echo <==> typ@ == "echo"@,
            r is Ok && r->Ok_0 is Terminal <==> typ@ == "term"@ || typ@ == ""@,
            r is Ok && r->Ok_0 is SubSystem <==> typ@ == "subs"@,
    {
        proof {
            lemma_types_differ();
        }
        if text::same_text(typ.as_str(), "echo") {
            match Echo::new() {
                Ok(e) => Ok(Session::Echo(e)),
                Err(e) => Err(e),
            }
        } else if text::same_text(typ.as_str(), "term") || text::same_text(typ.as_str(), "") {
            Ok(Session::Terminal(Terminal::new(arg)))
        } else if text::same_text(typ.as_str(), "subs") {
            Ok(Session::SubSystem(SubSystem::new(arg)))
        } else {
            Err(DispatchError::UnknownType(typ))
        }
    }
}

/// What happens to a buffer.
#[derive(Debug)]
pub enum BufferEvent {
    /// The session wrote something.
    Data(Vec<u8>),
    /// It is time to send on. The first time is when the session begins.
    Tick,
    /// What was to be sent on was taken, or was not.
    Sent(bool),
}

/// What happens to a buffer, as a mathematical value.
#[verifier::ext_equal]
pub enum BufferEventView {
    Data(Seq<u8>),
    Tick,
    Sent(bool),
}

impl View for BufferEvent {
    type V = BufferEventView;

    open spec fn view(&self) -> BufferEventView {
        match self {
            BufferEvent::Data(d) => BufferEventView::Data(d@),
            BufferEvent::Tick => BufferEventView::Tick,
            BufferEvent::Sent(b) => BufferEventView::Sent(*b),
        }
    }
}

/// What is done next with a buffer.
#[derive(Debug)]
pub enum BufferAction {
    /// Wait for what the session writes, or for the time to send on.
    Wait,
    /// Send on.
    Send(Vec<u8>),
    Stop,
}

/// What is done next with a buffer, as a mathematical value.
#[verifier::ext_equal]
pub enum BufferActionView {
    Wait,
    Send(Seq<u8>),
    Stop,
}

impl View for BufferAction {
    type V = BufferActionView;

    open spec fn view(&self) -> BufferActionView {
        match self {
            BufferAction::Wait => BufferActionView::Wait,
            BufferAction::Send(d) => BufferActionView::Send(d@),
            BufferAction::Stop => BufferActionView::Stop,
        }
    }
}

/// What a session wrote since it was last sent on, and whether the session has begun.
#[derive(Debug)]
pub struct OutputBuffer {
    begun: bool,
    data: Vec<u8>,
}

/// A buffer, as a mathematical value.
#[verifier::ext_equal]
pub struct BufferView {
    pub begun: bool,
    pub held: Seq<u8>,
}

impl View for OutputBuffer {
    type V = BufferView;

    closed spec fn view(&self) -> BufferView {
        BufferView { begun: self.begun, held: self.data@ }
    }
}

/// A buffer with nothing in it, before the session has begun.
pub open spec fn new_buffer() -> BufferView {
    BufferView { begun: false, held: seq![] }
}

/// What becomes of a buffer, and what is done next. What the session writes is held until it is
/// time to send on; then all of it is sent on at once, if there is anything. When the session
/// begins, nothing is sent on.
pub open spec fn buffer_next(b: BufferView, event: BufferEventView) -> (
    BufferView,
    BufferActionView,
) {
    match event {
        BufferEventView::Data(d) => (
            BufferView { held: b.held + d, ..b },
            BufferActionView::Wait,
        ),
        BufferEventView::Tick => if !b.begun {
            (BufferView { begun: true, ..b }, BufferActionView::Wait)
        } else if b.held.len() == 0 {
            (b, BufferActionView::Wait)
        } else {
            (BufferView { held: seq![], ..b }, BufferActionView::Send(b.held))
        },
        BufferEventView::Sent(true) => (b, BufferActionView::Wait),
        BufferEventView::Sent(false) => (b, BufferActionView::Stop),
    }
}

impl OutputBuffer {
    /// A buffer with nothing in it, before the session has begun.
    pub fn new() -> (r: Self)
        ensures
            r@ == new_buffer(),
    {
        let r = OutputBuffer { begun: false, data: Vec::new() };
        assert(r@ =~= new_buffer());
        r
    }

    /// Takes what happened, and says what is done next.
    pub fn step(&mut self, event: BufferEvent) -> (r: BufferAction)
        ensures
            (final(self)@, r@) == buffer_next(old(self)@, event@),
    {
        match event {
            BufferEvent::Data(d) => {
                self.data.extend_from_slice(d.as_slice());
                BufferAction::Wait
            },
            BufferEvent::Tick => {
                if !self.begun {
                    self.begun = true;
                    BufferAction::Wait
                } else if self.data.len() == 0 {
                    BufferAction::Wait
                } else {
                    let mut data: Vec<u8> = Vec::new();
                    std::mem::swap(&mut data, &mut self.data);
                    assert(self@.held =~= Seq::<u8>::empty());
                    BufferAction::Send(data)
                }
            },
            BufferEvent::Sent(true) => BufferAction::Wait,
            BufferEvent::Sent(false) => BufferAction::Stop,
        }
    }
}

/// What has become of a buffer: what it is, what is done next, and what was sent on, one piece
/// after the other.
#[verifier::ext_equal]
pub struct BufferRun {
    pub buffer: BufferView,
    pub action: BufferActionView,
    pub pieces: Seq<Seq<u8>>,
}

/// What has become of a new buffer when all that has happened.
pub open spec fn buffer_run(events: Seq<BufferEventView>) -> BufferRun
    decreases events.len(),
{
    if events.len() == 0 {
        BufferRun { buffer: new_buffer(), action: BufferActionView::Wait, pieces: seq![] }
    } else {
        let before = buffer_run(events.drop_last());
        let (buffer, action) = buffer_next(before.buffer, events.last());
        BufferRun {
            buffer,
            action,
            pieces: match action {
                BufferActionView::Send(piece) => before.pieces.push(piece),
                _ => before.pieces,
            },
        }
    }
}

/// The events are those of a run: each is one that the action before it can lead to.
pub open spec fn is_buffer_run(events: Seq<BufferEventView>) -> bool
    decreases events.len(),
{
    events.len() == 0 || (is_buffer_run(events.drop_last()) && match buffer_run(
        events.drop_last(),
    ).action {
        BufferActionView::Wait => events.last() is Data || events.last() is Tick,
        BufferActionView::Send(_) => events.last() is Sent,
        BufferActionView::Stop => false,
    })
}

/// All that was written, one piece after the other.
pub open spec fn written(events: Seq<BufferEventView>) -> Seq<u8>
    decreases events.len(),
{
    if events.len() == 0 {
        seq![]
    } else {
        match events.last() {
            BufferEventView::Data(d) => written(events.drop_last()) + d,
            _ => written(events.drop_last()),
        }
    }
}

/// How often it was time to send on.
pub open spec fn ticks(events: Seq<BufferEventView>) -> nat
    decreases events.len(),
{
    if events.len() == 0 {
        0
    } else if events.last() is Tick {
        ticks(events.drop_last()) + 1
    } else {
        ticks(events.drop_last())
    }
}

/// Pieces put together.
pub open spec fn joined(pieces: Seq<Seq<u8>>) -> Seq<u8>
    decreases pieces.len(),
{
    if pieces.len() == 0 {
        seq![]
    } else {
        joined(pieces.drop_last()) + pieces.last()
    }
}

/// Nothing that a session writes is lost, repeated or moved: what was sent on, with what is still
/// held behind it, is all that was written. No empty piece is sent on, none when the session
/// begins, and no more than one each time after that.
pub proof fn lemma_output_is_kept(events: Seq<BufferEventView>)
    ensures
        joined(buffer_run(events).pieces) + buffer_run(events).buffer.held == written(events),
        forall|i: int|
            0 <= i < buffer_run(events).pieces.len() ==> (#[trigger] buffer_run(
                events,
            ).pieces[i]).len() > 0,
        buffer_run(events).buffer.begun <==> ticks(events) > 0,
        buffer_run(events).pieces.len() <= if ticks(events) == 0 {
            0
        } else {
            ticks(events) - 1
        },
    decreases events.len(),
{
    if events.len() > 0 {
        let rest = events.drop_last();
        lemma_output_is_kept(rest);
        let held = buffer_run(rest).buffer.held;
        let pieces = buffer_run(rest).pieces;
        match events.last() {
            BufferEventView::Data(d) => {
                assert(joined(pieces) + (held + d) =~= (joined(pieces) + held) + d);
            },
            BufferEventView::Tick => {
                if buffer_run(rest).buffer.begun && held.len() > 0 {
                    assert(pieces.push(held).drop_last() =~= pieces);
                    assert((joined(pieces) + held) + Seq::<u8>::empty() =~= joined(pieces) + held);
                }
            },
            BufferEventView::Sent(_) => {},
        }
    }
}

/// Once the session has begun, all that is held is sent on the next time, and nothing is held
/// then: no output is left behind.
pub proof fn lemma_held_output_is_sent_next(events: Seq<BufferEventView>)
    requires
        ticks(events) > 0,
    ensures
        ({
            let now = buffer_run(events);
            let then = buffer_run(events.push(BufferEventView::Tick));
            &&& then.buffer.held.len() == 0
            &&& now.buffer.held.len() > 0 ==> then.action == BufferActionView::Send(now.buffer.held)
                && then.pieces == now.pieces.push(now.buffer.held)
            &&& now.buffer.held.len() == 0 ==> then.pieces == now.pieces
        }),
{
    lemma_output_is_kept(events);
    assert(events.push(BufferEventView::Tick).drop_last() =~= events);
}

/// Nothing happens after something was not taken.
pub proof fn lemma_buffer_stops(events: Seq<BufferEventView>)
    requires
        is_buffer_run(events),
    ensures
        forall|i: int|
            0 <= i < events.len() - 1 ==> #[trigger] events[i] != BufferEventView::Sent(false),
    decreases events.len(),
{
    if events.len() > 1 {
        let rest = events.drop_last();
        lemma_buffer_stops(rest);
        assert forall|i: int| 0 <= i < events.len() - 1 implies #[trigger] events[i]
            != BufferEventView::Sent(false) by {
            if i < rest.len() - 1 {
                assert(rest[i] == events[i]);
            } else {
                assert(rest.last() == events[i]);
            }
        }
    }
}

/// What is known of a session while it runs: the last mail that belongs to it.
#[derive(Debug)]
pub struct ClientContext {
    pub last_mail: Option<MailInfo>,
}

/// The message answers the mail with those bytes as its text, and goes to whom the mail is from.
pub open spec fn answers(message: MessageFile, mail: MailInfoView, data: Seq<u8>) -> bool {
    &&& message@.client == mail.from
    &&& message@.info == Some(common::reply_to(mail))
    &&& common::is_written(message@.file, common::reply_to(mail), text::utf8_lossy(data))
}

/// An answer to a mail with those bytes as its text.
fn answer(mail: &MailInfo, data: Vec<u8>) -> (r: MessageFile)
    ensures
        answers(r, mail@, data@),
{
    let reply = mail.clone().create_reply();
    let kept = reply.clone();
    let file = match reply.to_file(octets::buffer_of(data)) {
        Ok(f) => f,
        Err(_) => vstd::pervasive::unreached(),
    };
    MessageFile { client: mail.from.clone(), info: Some(kept), file }
}

impl ClientContext {
    /// Begins a session, to which no mail belongs yet.
    pub fn create(typ: String, arg: String) -> (r: Result<(Self, Session), DispatchError>)
        ensures
            match r {
                Ok((context, session)) => {
                    &&& context.last_mail is None
                    &&& session_of(typ@, arg@) == Some(session@)
                },
                Err(e) => {
                    &&& session_of(typ@, arg@) is None
                    &&& e@ == DispatchErrorView::UnknownType(typ@)
                },
            },
    {
        match Session::new(typ, arg) {
            Ok(session) => Ok((ClientContext { last_mail: None }, session)),
            Err(e) => Err(e),
        }
    }

    /// Takes a mail that belongs to the session, and gives back the bytes that the session is
    /// sent.
    pub fn send_to_tr(&mut self, mes: Bytes, info: MailInfo) -> (r: Vec<u8>)
        ensures
            final(self).last_mail == Some(info),
            r@ == octets::octets(mes),
    {
        self.last_mail = Some(info);
        vstd::slice::slice_to_vec(octets::slice_of(&mes))
    }

    /// What a session wrote, as an answer to the last mail that belongs to it.
    pub fn send_from_tr(&self, buf: Vec<u8>) -> (r: MessageFile)
        requires
            self.last_mail is Some,
        ensures
            answers(r, (self.last_mail->0)@, buf@),
    {
        match &self.last_mail {
            Some(mail) => answer(mail, buf),
            None => vstd::pervasive::unreached(),
        }
    }
}

/// The sessions by name, and by sender the last mail that came. `C` is what there is of a session
/// while it runs.
pub struct Dispatcher<C> {
    clients: Registry<C>,
    last_email: Registry<MailInfo>,
    tick_interval: Duration,
}

/// What is to be done with a mail.
#[derive(Debug)]
pub enum Step {
    /// Nothing: a later mail from the same sender came before.
    Skip(DispatchError),
    /// Follow the commands in it.
    Main(Bytes, MailInfo),
    /// Nothing: it asks for a session of a type that there is not.
    Refuse(DispatchError),
    /// Begin the session with that name, and give it the mail.
    Open(String, ClientContext, Session, Bytes, MailInfo),
    /// Give the mail to the session with that name.
    Deliver(String, Bytes, MailInfo),
}

/// What is to be done with a mail, as a mathematical value.
#[verifier::ext_equal]
pub enum StepView {
    Skip(DispatchErrorView),
    Main(Seq<u8>, MailInfoView),
    Refuse(DispatchErrorView),
    Open(Seq<char>, SessionView, Seq<u8>, MailInfoView),
    Deliver(Seq<char>, Seq<u8>, MailInfoView),
}

impl View for Step {
    type V = StepView;

    open spec fn view(&self) -> StepView {
        match self {
            Step::Skip(e) => StepView::Skip(e@),
            Step::Main(b, m) => StepView::Main(octets::octets(*b), m@),
            Step::Refuse(e) => StepView::Refuse(e@),
            Step::Open(id, _, s, b, m) => StepView::Open(id@, s@, octets::octets(*b), m@),
            Step::Deliver(id, b, m) => StepView::Deliver(id@, octets::octets(*b), m@),
        }
    }
}

/// An optional text, or the empty one.
pub open spec fn text_or_empty(s: Option<Seq<char>>) -> Seq<char> {
    match s {
        Some(t) => t,
        None => ""@,
    }
}

/// Whether it can be told which of two mails from one sender is the later one.
pub open spec fn comparable(last: Map<Seq<char>, MailInfoView>, mail: MailInfoView) -> bool {
    last.dom().contains(mail.from) ==> last[mail.from].date is Some && mail.date is Some
}

/// A later mail from the same sender came before.
pub open spec fn is_older(last: Map<Seq<char>, MailInfoView>, mail: MailInfoView) -> bool {
    last.dom().contains(mail.from) && last[mail.from].date->0 > mail.date->0
}

/// The last mail by sender, when one more has come.
pub open spec fn last_after(last: Map<Seq<char>, MailInfoView>, mail: MailInfoView) -> Map<
    Seq<char>,
    MailInfoView,
> {
    if is_older(last, mail) {
        last
    } else {
        last.insert(mail.from, mail)
    }
}

/// What is to be done with a mail, given the sessions that there are and the last mail by sender.
pub open spec fn step_of(
    sessions: Set<Seq<char>>,
    last: Map<Seq<char>, MailInfoView>,
    body: Seq<u8>,
    mail: MailInfoView,
) -> StepView {
    let id = mail.flow_id->0;
    let typ = text_or_empty(mail.typ);
    if is_older(last, mail) {
        StepView::Skip(DispatchErrorView::OlderMail(mail.from))
    } else if id == "MAIN"@ {
        StepView::Main(body, mail)
    } else if sessions.contains(id) {
        StepView::Deliver(id, body, mail)
    } else {
        match session_of(typ, text_or_empty(mail.args)) {
            Some(session) => StepView::Open(id, session, body, mail),
            None => StepView::Refuse(DispatchErrorView::UnknownType(typ)),
        }
    }
}

/// An optional text, or the empty one.
fn copy_or_empty(s: &Option<String>) -> (r: String)
    ensures
        r@ == text_or_empty(text::opt_text(*s)),
{
    match s {
        Some(t) => t.clone(),
        None => "".to_owned(),
    }
}

impl<C> Dispatcher<C> {
    /// The sessions by name.
    pub closed spec fn sessions(self) -> Map<Seq<char>, C> {
        self.clients@
    }

    /// The last mail by sender.
    pub closed spec fn last(self) -> Map<Seq<char>, MailInfoView> {
        self.last_email@.map_values(|m: MailInfo| m@)
    }

    /// How often what a session writes is sent on.
    pub closed spec fn interval(self) -> Duration {
        self.tick_interval
    }

    /// No sessions, and no mails, which always succeeds.
    pub fn new(tick_interval: Duration) -> (r: Result<Self, DispatchError>)
        ensures
            match r {
                Ok(d) => {
                    &&& d.sessions() == Map::<Seq<char>, C>::empty()
                    &&& d.last() == Map::<Seq<char>, MailInfoView>::empty()
                    &&& d.interval() == tick_interval
                },
                Err(_) => false,
            },
    {
        let d = Dispatcher { clients: Registry::new(), last_email: Registry::new(), tick_interval };
        assert(d.last() =~= Map::<Seq<char>, MailInfoView>::empty());
        Ok(d)
    }

    /// How often what a session writes is sent on.
    pub fn tick_interval(&self) -> (r: Duration)
        ensures
            r == self.interval(),
    {
        self.tick_interval
    }

    /// Whether it can be told if a later mail from the same sender came before.
    pub fn can_compare(&self, info: &MailInfo) -> (r: bool)
        ensures
            r == comparable(self.last(), info@),
            r <==> (self.last().dom().contains(info.from@) ==> self.last()[info.from@].date is Some
                && info.date is Some),
    {
        match self.last_email.get(info.from.as_str()) {
            Some(m) => m.date.is_some() && info.date.is_some(),
            None => true,
        }
    }

    /// Keeps a mail as the last from its sender, unless a later one came before.
    pub fn update_last_email(&mut self, info: &MailInfo) -> (r: Result<(), DispatchError>)
        requires
            comparable(old(self).last(), info@),
        ensures
            final(self).last() == last_after(old(self).last(), info@),
            r is Err <==> old(self).last().dom().contains(info.from@) && old(
                self,
            ).last()[info.from@].date->0 > info.date->0,
            r is Err ==> final(self).last() == old(self).last(),
            r is Ok ==> final(self).last() == old(self).last().insert(info.from@, info@),
            final(self).sessions() == old(self).sessions(),
            final(self).interval() == old(self).interval(),
            match r {
                Ok(_) => !is_older(old(self).last(), info@),
                Err(e) => {
                    &&& is_older(old(self).last(), info@)
                    &&& e@ == DispatchErrorView::OlderMail(info@.from)
                },
            },
    {
        let ghost last = self.last();
        if let Some(m) = self.last_email.get(info.from.as_str()) {
            if let (Some(known), Some(date)) = (m.date, info.date) {
                if known > date {
                    return Err(DispatchError::OlderMail(info.from.clone()));
                }
            }
        }
        self.last_email.insert(info.from.clone(), info.clone());
        assert(self.last() =~= last.insert(info@.from, info@));
        Ok(())
    }

    /// What is to be done with a mail.
    pub fn dispatch(&mut self, bytes: Bytes, info: MailInfo) -> (r: Step)
        requires
            comparable(old(self).last(), info@),
            info.flow_id is Some,
        ensures
            r@ == step_of(
                old(self).sessions().dom(),
                old(self).last(),
                octets::octets(bytes),
                info@,
            ),
            r matches Step::Open(_, context, _, _, _) ==> context.last_mail is None,
            r is Skip <==> old(self).last().dom().contains(info.from@) && old(
                self,
            ).last()[info.from@].date->0 > info.date->0,
            r is Skip ==> final(self).last() == old(self).last(),
            !(r is Skip) ==> final(self).last() == old(self).last().insert(info.from@, info@),
            final(self).last() == last_after(old(self).last(), info@),
            final(self).sessions() == old(self).sessions(),
            final(self).interval() == old(self).interval(),
    {
        if let Err(e) = self.update_last_email(&info) {
            return Step::Skip(e);
        }
        let id = match &info.flow_id {
            Some(i) => i.clone(),
            None => vstd::pervasive::unreached(),
        };
        if text::same_text(id.as_str(), "MAIN") {
            return Step::Main(bytes, info);
        }
        if self.clients.contains(id.as_str()) {
            return Step::Deliver(id, bytes, info);
        }
        match ClientContext::create(copy_or_empty(&info.typ), copy_or_empty(&info.args)) {
            Ok((context, session)) => Step::Open(id, context, session, bytes, info),
            Err(e) => Step::Refuse(e),
        }
    }

    /// Keeps a session that was begun.
    pub fn opened(&mut self, id: String, context: C)
        ensures
            final(self).sessions() == old(self).sessions().insert(id@, context),
            final(self).last() == old(self).last(),
            final(self).interval() == old(self).interval(),
    {
        self.clients.insert(id, context);
    }

    /// The session with that name.
    pub fn client(&self, id: &str) -> (r: Option<&C>)
        ensures
            match r {
                Some(c) => self.sessions().dom().contains(id@) && *c == self.sessions()[id@],
                None => !self.sessions().dom().contains(id@),
            },
    {
        self.clients.get(id)
    }

    /// All sessions by name.
    pub fn clients(&self) -> (r: &Registry<C>)
        ensures
            r@ == self.sessions(),
    {
        &self.clients
    }
}

/// A command in a mail to the dispatcher itself.
#[derive(Debug)]
pub enum MainCommand {
    /// Say which sessions there are.
    Info,
    /// End the program.
    KillSelf,
    /// End the session with that name.
    Kill(String),
    /// None.
    Ignore,
}

/// A command, as a mathematical value.
#[verifier::ext_equal]
pub enum CommandView {
    Info,
    KillSelf,
    Kill(Seq<char>),
    Ignore,
}

impl View for MainCommand {
    type V = CommandView;

    open spec fn view(&self) -> CommandView {
        match self {
            MainCommand::Info => CommandView::Info,
            MainCommand::KillSelf => CommandView::KillSelf,
            MainCommand::Kill(id) => CommandView::Kill(id@),
            MainCommand::Ignore => CommandView::Ignore,
        }
    }
}

/// The command that a paragraph is.
pub open spec fn command_of(paragraph: Seq<char>) -> CommandView {
    if text::starts_with(paragraph, "#MAIN info"@) {
        CommandView::Info
    } else if text::starts_with(paragraph, "#MAIN killself"@) {
        CommandView::KillSelf
    } else if text::starts_with(paragraph, "#MAIN kill "@) {
        CommandView::Kill(paragraph.skip("#MAIN kill "@.len() as int))
    } else {
        CommandView::Ignore
    }
}

/// The commands that a text holds, one to each paragraph.
pub open spec fn commands_of(said: Seq<char>) -> Seq<CommandView> {
    text::split(said, "\r\n\r\n"@).map_values(|p: Seq<char>| command_of(p))
}

/// Commands, as mathematical values.
pub open spec fn command_views(commands: Seq<MainCommand>) -> Seq<CommandView> {
    commands.map_values(|c: MainCommand| c@)
}

/// The command that a paragraph is.
pub fn read_command(paragraph: &str) -> (r: MainCommand)
    ensures
        r@ == command_of(paragraph@),
{
    if text::begins_with(paragraph, "#MAIN info") {
        MainCommand::Info
    } else if text::begins_with(paragraph, "#MAIN killself") {
        MainCommand::KillSelf
    } else {
        match text::after_prefix(paragraph, "#MAIN kill ") {
            Some(id) => MainCommand::Kill(id),
            None => MainCommand::Ignore,
        }
    }
}

/// The commands that a text holds, one to each paragraph.
pub fn read_commands(said: &str) -> (r: Vec<MainCommand>)
    ensures
        command_views(r@) == commands_of(said@),
{
    proof {
        reveal_strlit("\r\n\r\n");
    }
    let paragraphs = text::split_text(said, "\r\n\r\n");
    let ghost all = text::texts(paragraphs@);
    let mut r: Vec<MainCommand> = Vec::new();
    let mut i: usize = 0;
    while i < paragraphs.len()
        invariant
            i <= paragraphs@.len(),
            all == text::texts(paragraphs@),
            command_views(r@) == commands_of(said@).take(i as int),
            all == text::split(said@, "\r\n\r\n"@),
        decreases paragraphs@.len() - i,
    {
        assert(all[i as int] == paragraphs@[i as int]@);
        let ghost before = r@;
        r.push(read_command(paragraphs[i].as_str()));
        assert(command_views(r@) =~= command_views(before).push(command_of(all[i as int])));
        assert(command_views(r@) =~= commands_of(said@).take(i + 1));
        i += 1;
    }
    assert(commands_of(said@).take(i as int) =~= commands_of(said@));
    r
}

/// The commands in a mail to the dispatcher itself. Bytes that are not UTF-8 are replaced.
pub fn read_main(mes: &Bytes) -> (r: Vec<MainCommand>)
    ensures
        command_views(r@) == commands_of(text::utf8_lossy(octets::octets(*mes))),
{
    let said = text::lossy_text(octets::slice_of(mes));
    read_commands(said.as_str())
}

/// What is to be done on a command.
#[derive(Debug)]
pub enum MainAction<C> {
    Nothing,
    /// Answer which sessions there are.
    Report,
    /// End the program.
    Shutdown,
    /// End the session.
    End(C),
}

/// The sessions that are left after a command.
pub open spec fn sessions_after<C>(
    sessions: Map<Seq<char>, C>,
    command: CommandView,
) -> Map<Seq<char>, C> {
    match command {
        CommandView::Kill(id) => sessions.remove(id),
        _ => sessions,
    }
}

/// What is to be done on a command.
pub open spec fn action_of<C>(sessions: Map<Seq<char>, C>, command: CommandView) -> MainAction<C> {
    match command {
        CommandView::Info => MainAction::Report,
        CommandView::KillSelf => MainAction::Shutdown,
        CommandView::Kill(id) => if sessions.dom().contains(id) {
            MainAction::End(sessions[id])
        } else {
            MainAction::Nothing
        },
        CommandView::Ignore => MainAction::Nothing,
    }
}

impl<C> Dispatcher<C> {
    /// Follows a command in a mail to the dispatcher itself.
    pub fn pull_main(&mut self, command: &MainCommand) -> (r: MainAction<C>)
        ensures
            r == action_of(old(self).sessions(), command@),
            final(self).sessions() == sessions_after(old(self).sessions(), command@),
            final(self).last() == old(self).last(),
            final(self).interval() == old(self).interval(),
    {
        match command {
            MainCommand::Info => MainAction::Report,
            MainCommand::KillSelf => MainAction::Shutdown,
            MainCommand::Kill(id) => match self.clients.remove(id.as_str()) {
                Some(context) => MainAction::End(context),
                None => MainAction::Nothing,
            },
            MainCommand::Ignore => MainAction::Nothing,
        }
    }
}

/// A command ends no session but the one that it names.
pub proof fn lemma_others_go_on<C>(sessions: Map<Seq<char>, C>, command: CommandView, id: Seq<char>)
    requires
        sessions.dom().contains(id),
        command != CommandView::Kill(id),
    ensures
        sessions_after(sessions, command).dom().contains(id),
        sessions_after(sessions, command)[id] == sessions[id],
{
}

/// The sessions that are left after commands, one after the other.
pub open spec fn sessions_left<C>(
    sessions: Map<Seq<char>, C>,
    commands: Seq<CommandView>,
) -> Map<Seq<char>, C>
    decreases commands.len(),
{
    if commands.len() == 0 {
        sessions
    } else {
        sessions_after(sessions_left(sessions, commands.drop_last()), commands.last())
    }
}

/// What is done on commands, one after the other.
pub open spec fn actions_on<C>(
    sessions: Map<Seq<char>, C>,
    commands: Seq<CommandView>,
) -> Seq<MainAction<C>> {
    Seq::new(
        commands.len(),
        |i: int| action_of(sessions_left(sessions, commands.take(i)), commands[i]),
    )
}

/// The commands that are followed: all, or those up to the first that ends the program.
pub open spec fn followed(commands: Seq<CommandView>) -> Seq<CommandView>
    decreases commands.len(),
{
    if commands.len() == 0 || commands[0] is KillSelf {
        commands.take(if commands.len() == 0 { 0 } else { 1 })
    } else {
        seq![commands[0]] + followed(commands.skip(1))
    }
}

/// The number of reports among actions.
pub open spec fn reports<C>(actions: Seq<MainAction<C>>) -> nat
    decreases actions.len(),
{
    if actions.len() == 0 {
        0
    } else {
        reports(actions.drop_last()) + if actions.last() is Report {
            1nat
        } else {
            0
        }
    }
}

/// The number of times that commands ask which sessions there are.
pub open spec fn questions(commands: Seq<CommandView>) -> nat
    decreases commands.len(),
{
    if commands.len() == 0 {
        0
    } else {
        questions(commands.drop_last()) + if commands.last() is Info {
            1nat
        } else {
            0
        }
    }
}

/// A mail to the dispatcher itself, as a whole: exactly the sessions that its commands name leave,
/// each of those that there were is ended once, when it is named first, and there is one report
/// for each question, at its place. The program ends on the last command that is followed, and
/// only there.
pub proof fn lemma_mail_is_followed<C>(sessions: Map<Seq<char>, C>, said: Seq<char>)
    ensures
        ({
            let commands = followed(commands_of(said));
            let left = sessions_left(sessions, commands);
            let actions = actions_on(sessions, commands);
            &&& commands.is_prefix_of(commands_of(said))
            &&& commands.len() < commands_of(said).len() ==> commands.len() > 0
                && commands.last() is KillSelf
            &&& forall|id: Seq<char>| #[trigger]
                left.dom().contains(id) <==> sessions.dom().contains(id) && !commands.contains(
                    CommandView::Kill(id),
                )
            &&& forall|id: Seq<char>| #[trigger]
                left.dom().contains(id) ==> left[id] == sessions[id]
            &&& reports(actions) == questions(commands)
            &&& forall|i: int|
                0 <= i < commands.len() ==> {
                    &&& #[trigger] actions[i] is Report <==> commands[i] is Info
                    &&& actions[i] is Shutdown <==> commands[i] is KillSelf
                    &&& actions[i] is Shutdown ==> i == commands.len() - 1
                    &&& actions[i] is End <==> commands[i] is Kill && sessions.dom().contains(
                        commands[i]->Kill_0,
                    ) && !commands.take(i).contains(commands[i])
                    &&& actions[i] matches MainAction::End(c) ==> c
                        == sessions[commands[i]->Kill_0]
                }
        }),
{
    let commands = followed(commands_of(said));
    lemma_followed(commands_of(said));
    lemma_left(sessions, commands);
    lemma_reports(sessions, commands);
    assert forall|i: int| 0 <= i < commands.len() implies {
        &&& actions_on(sessions, commands)[i] is End <==> commands[i] is Kill
            && sessions.dom().contains(commands[i]->Kill_0) && !commands.take(i).contains(
            commands[i],
        )
        &&& actions_on(sessions, commands)[i] matches MainAction::End(c) ==> c
            == sessions[commands[i]->Kill_0]
    } by {
        lemma_left(sessions, commands.take(i));
    }
}

/// What the commands are that are followed.
proof fn lemma_followed(commands: Seq<CommandView>)
    ensures
        followed(commands).is_prefix_of(commands),
        followed(commands).len() < commands.len() ==> followed(commands).len() > 0 && followed(
            commands,
        ).last() is KillSelf,
        forall|i: int|
            0 <= i < followed(commands).len() - 1 ==> !(#[trigger] followed(commands)[i] is KillSelf),
    decreases commands.len(),
{
    if commands.len() > 0 && !(commands[0] is KillSelf) {
        let rest = commands.skip(1);
        lemma_followed(rest);
        let all = followed(commands);
        assert forall|i: int| 0 <= i < all.len() implies #[trigger] all[i] == commands[i] by {
            if i > 0 {
                assert(all[i] == followed(rest)[i - 1]);
                assert(followed(rest)[i - 1] == rest[i - 1]);
            }
        }
        assert(all =~= commands.take(all.len() as int));
        assert forall|i: int| 0 <= i < all.len() - 1 implies !(#[trigger] all[i] is KillSelf) by {
            if i > 0 {
                assert(all[i] == followed(rest)[i - 1]);
            }
        }
    }
}

/// The sessions that are left are those that no command names.
proof fn lemma_left<C>(sessions: Map<Seq<char>, C>, commands: Seq<CommandView>)
    ensures
        forall|id: Seq<char>| #[trigger]
            sessions_left(sessions, commands).dom().contains(id) <==> sessions.dom().contains(id)
                && !commands.contains(CommandView::Kill(id)),
        forall|id: Seq<char>| #[trigger]
            sessions_left(sessions, commands).dom().contains(id) ==> sessions_left(
                sessions,
                commands,
            )[id] == sessions[id],
    decreases commands.len(),
{
    if commands.len() > 0 {
        let before = commands.drop_last();
        lemma_left(sessions, before);
        let earlier = sessions_left(sessions, before);
        let left = sessions_left(sessions, commands);
        assert(left == sessions_after(earlier, commands.last()));
        assert forall|id: Seq<char>| true implies {
            &&& #[trigger] left.dom().contains(id) <==> sessions.dom().contains(id)
                && !commands.contains(CommandView::Kill(id))
            &&& left.dom().contains(id) ==> left[id] == sessions[id]
        } by {
            let kill = CommandView::Kill(id);
            assert(left.dom().contains(id) <==> earlier.dom().contains(id) && commands.last()
                != kill);
            if before.contains(kill) {
                let k = choose|k: int| 0 <= k < before.len() && before[k] == kill;
                assert(commands[k] == kill);
            }
            if commands.contains(kill) && commands.last() != kill {
                let k = choose|k: int| 0 <= k < commands.len() && commands[k] == kill;
                assert(before[k] == kill);
            }
        }
    }
}

/// There is one report for each question.
proof fn lemma_reports<C>(sessions: Map<Seq<char>, C>, commands: Seq<CommandView>)
    ensures
        reports(actions_on(sessions, commands)) == questions(commands),
    decreases commands.len(),
{
    if commands.len() > 0 {
        let before = commands.drop_last();
        lemma_reports(sessions, before);
        assert forall|i: int| 0 <= i < before.len() implies commands.take(i) == #[trigger] before.take(
            i,
        ) by {
            assert(commands.take(i) =~= before.take(i));
        }
        assert(actions_on(sessions, commands).drop_last() =~= actions_on(sessions, before));
    }
}

/// The answer to a mail that asks which sessions there are.
pub fn main_answer(info: &MailInfo, listing: &str) -> (r: MessageFile)
    ensures
        answers(r, info@, vstd::utf8::encode_utf8("#MAIN 0 "@ + listing@)),
{
    let said = "#MAIN 0 ".to_owned().concat(listing);
    answer(info, said.as_str().as_bytes_vec())
}

/// A mail that names the dispatcher itself neither begins a session nor reaches one.
pub proof fn lemma_main_is_no_session(
    sessions: Set<Seq<char>>,
    last: Map<Seq<char>, MailInfoView>,
    body: Seq<u8>,
    mail: MailInfoView,
)
    requires
        mail.flow_id == Some("MAIN"@),
    ensures
        step_of(sessions, last, body, mail) is Main || step_of(sessions, last, body, mail) is Skip,
{
}

/// A session that there is is not begun again, and one that there is not is given no mail.
pub proof fn lemma_session_is_begun_once(
    sessions: Set<Seq<char>>,
    last: Map<Seq<char>, MailInfoView>,
    body: Seq<u8>,
    mail: MailInfoView,
)
    ensures
        step_of(sessions, last, body, mail) matches StepView::Open(id, _, _, _) ==> !sessions.contains(
            id,
        ) && mail.flow_id->0 == id,
        step_of(sessions, last, body, mail) matches StepView::Deliver(id, _, _)
            ==> sessions.contains(id) && mail.flow_id->0 == id,
{
}

/// The last mail from a sender is never replaced by an earlier one, nor that of another sender by
/// any; and a mail that is passed over changes nothing.
pub proof fn lemma_mails_come_in_order(
    last: Map<Seq<char>, MailInfoView>,
    mail: MailInfoView,
    sender: Seq<char>,
)
    requires
        comparable(last, mail),
        last.dom().contains(sender),
    ensures
        last_after(last, mail).dom().contains(sender),
        sender != mail.from ==> last_after(last, mail)[sender] == last[sender],
        sender == mail.from ==> last_after(last, mail)[sender].date->0 >= last[sender].date->0,
        is_older(last, mail) ==> last_after(last, mail) == last,
{
}

/// A session that was ended begins anew with the next mail that names it.
pub proof fn lemma_ended_session_begins_anew<C>(
    sessions: Map<Seq<char>, C>,
    last: Map<Seq<char>, MailInfoView>,
    body: Seq<u8>,
    mail: MailInfoView,
)
    requires
        mail.flow_id is Some,
        mail.flow_id->0 != "MAIN"@,
        !is_older(last, mail),
        session_of(text_or_empty(mail.typ), text_or_empty(mail.args)) is Some,
    ensures
        step_of(sessions.remove(mail.flow_id->0).dom(), last, body, mail) is Open,
        forall|id: Seq<char>|
            id != mail.flow_id->0 && sessions.dom().contains(id) ==> #[trigger] sessions.remove(
                mail.flow_id->0,
            ).dom().contains(id),
{
}

/// A new session never gets the name of the dispatcher itself.
pub proof fn lemma_new_name_is_not_main(n: nat)
    ensures
        common::compact(n) != "MAIN"@,
{
    reveal_strlit("MAIN");
    common::lemma_compact_is_plain(n);
}

/// The command to end a session ends just the one that it names.
pub proof fn lemma_kill_names_session(id: Seq<char>)
    requires
        text::is_word(id),
    ensures
        commands_of("#MAIN kill "@ + id) == seq![CommandView::Kill(id)],
{
    reveal_strlit("#MAIN info");
    reveal_strlit("#MAIN killself");
    reveal_strlit("#MAIN kill ");
    reveal_strlit("\r\n\r\n");
    let said = "#MAIN kill "@ + id;
    let sep = "\r\n\r\n"@;
    assert(!text::starts_with(said, "#MAIN info"@)) by {
        if text::starts_with(said, "#MAIN info"@) {
            assert(said.subrange(0, 10)[6] == "#MAIN info"@[6]);
        }
    }
    assert(!text::starts_with(said, "#MAIN killself"@)) by {
        if text::starts_with(said, "#MAIN killself"@) {
            assert(said.subrange(0, 14)[10] == "#MAIN killself"@[10]);
        }
    }
    assert(said.subrange(0, 11) =~= "#MAIN kill "@);
    assert(said.skip(11) =~= id);
    assert forall|j: int| 0 <= j implies !text::matches_at(said, sep, j) by {
        if text::matches_at(said, sep, j) {
            assert(said.subrange(j, j + 4)[0] == sep[0]);
            assert(said[j] == '\r');
            if j < 11 {
                assert(said[j] == "#MAIN kill "@[j]);
            } else {
                assert(said[j] == id[j - 11]);
            }
        }
    }
    text::lemma_find_from(said, sep, 0);
    assert(text::split(said, sep) =~= seq![said]);
    assert(commands_of(said) =~= seq![CommandView::Kill(id)]);
}

/// An answer to an answer reaches the session that wrote it: a mail whose subject is that of an
/// answer, with any text without `/` in front, is given to the session of the first mail, as long
/// as there is that session and no later mail from the same sender came before.
pub proof fn lemma_answer_reaches_session(
    first: common::FieldsView,
    n: u32,
    prefix: Seq<char>,
    second: common::FieldsView,
    other: Seq<char>,
    sessions: Set<Seq<char>>,
    last: Map<Seq<char>, MailInfoView>,
    body: Seq<u8>,
)
    requires
        text::lacks(prefix, '/'),
        common::mail_of(first, common::compact(n as nat)) is Ok,
        common::mail_of(second, other) is Ok,
        ({
            let asked = (common::mail_of(first, common::compact(n as nat))->Ok_0).1;
            let answered = (common::mail_of(second, other)->Ok_0).1;
            &&& second.subject == Some(prefix + common::reply_to(asked).subject)
            &&& sessions.contains(asked.flow_id->0)
            &&& asked.flow_id->0 != "MAIN"@
            &&& !is_older(last, answered)
        }),
    ensures
        ({
            let asked = (common::mail_of(first, common::compact(n as nat))->Ok_0).1;
            let answered = (common::mail_of(second, other)->Ok_0).1;
            step_of(sessions, last, body, answered) == StepView::Deliver(
                asked.flow_id->0,
                body,
                answered,
            )
        }),
{
    subject::lemma_answer_stays_in_session(prefix, first.subject->0, n, other);
}

/// A mail that is read always names a session, so that it can be dispatched.
pub proof fn lemma_mail_names_session(fields: common::FieldsView, fresh: Seq<char>)
    ensures
        common::mail_of(fields, fresh) matches Ok((_, mail)) ==> mail.flow_id is Some,
{
}

/// The names of the types of sessions are four.
proof fn lemma_types_differ()
    ensures
        "echo"@ != "term"@,
        "echo"@ != "subs"@,
        "term"@ != "subs"@,
        ""@ != "echo"@,
        ""@ != "term"@,
        ""@ != "subs"@,
{
    reveal_strlit("echo");
    reveal_strlit("term");
    reveal_strlit("subs");
    reveal_strlit("");
    assert("echo"@[0] == 'e' && "term"@[0] == 't' && "subs"@[0] == 's');
    assert("echo"@.len() == 4 && "term"@.len() == 4 && "subs"@.len() == 4 && ""@.len() == 0);
}

/// The type alone says what kind of session there is, and only a program takes the arguments: an
/// echo for `echo`, a terminal for `term` or for no type, a program for `subs`, and none for
/// anything else.
pub proof fn lemma_session_types(typ: Seq<char>, arg: Seq<char>, other: Seq<char>)
    ensures
        session_of(typ, arg) is Some <==> typ == "echo"@ || typ == "term"@ || typ == ""@ || typ
            == "subs"@,
        session_of(typ, arg) is Some && session_of(typ, arg)->0 is Echo <==> typ == "echo"@,
        session_of(typ, arg) is Some && session_of(typ, arg)->0 is Terminal <==> typ == "term"@
            || typ == ""@,
        session_of(typ, arg) is Some && session_of(typ, arg)->0 is SubSystem <==> typ == "subs"@,
        typ != "subs"@ ==> session_of(typ, arg) == session_of(typ, other),
        session_of(typ, arg) matches Some(SessionView::SubSystem(s)) ==> s == subsystem::program_of(
            arg,
        ),
        session_of(typ, arg) matches Some(SessionView::Terminal(t)) ==> t.rows == 24 && t.cols == 80
            && t.program == "/bin/sh"@ && t.env == seq![("TERM"@, "dumb"@), ("PS1"@, ""@)],
{
    lemma_types_differ();
}

/// A mail is passed over just where the last mail from the same sender has a date behind its own.
/// Any other mail becomes the last one from its sender, whatever its session, its type or its
/// subject; and the last mails from others stay.
pub proof fn lemma_older_is_skipped(
    sessions: Set<Seq<char>>,
    last: Map<Seq<char>, MailInfoView>,
    body: Seq<u8>,
    mail: MailInfoView,
)
    requires
        comparable(last, mail),
    ensures
        step_of(sessions, last, body, mail) is Skip <==> last.dom().contains(mail.from)
            && last[mail.from].date->0 > mail.date->0,
        step_of(sessions, last, body, mail) is Skip ==> last_after(last, mail) == last && step_of(
            sessions,
            last,
            body,
            mail,
        ) == StepView::Skip(DispatchErrorView::OlderMail(mail.from)),
        !last.dom().contains(mail.from) || last[mail.from].date->0 <= mail.date->0 ==> {
            &&& !(step_of(sessions, last, body, mail) is Skip)
            &&& last_after(last, mail).dom().contains(mail.from)
            &&& last_after(last, mail)[mail.from] == mail
            &&& forall|a: Seq<char>|
                a != mail.from ==> (#[trigger] last_after(last, mail).dom().contains(a)
                    <==> last.dom().contains(a))
            &&& forall|a: Seq<char>|
                a != mail.from && #[trigger] last.dom().contains(a) ==> last_after(last, mail)[a]
                    == last[a]
        },
{
}

/// A second mail from a sender that is no earlier than the first is never passed over, whatever
/// session each of them names.
pub proof fn lemma_later_mail_counts(
    sessions: Set<Seq<char>>,
    last: Map<Seq<char>, MailInfoView>,
    first: MailInfoView,
    body: Seq<u8>,
    second: MailInfoView,
)
    requires
        comparable(last, first),
        first.from == second.from,
        first.date is Some,
        second.date is Some,
        first.date->0 <= second.date->0,
        !last.dom().contains(first.from) || last[first.from].date->0 <= second.date->0,
    ensures
        !(step_of(sessions, last_after(last, first), body, second) is Skip),
{
}

/// What becomes of a mail that is not passed over depends on the session that it names, and on
/// which sessions there are: the dispatcher itself takes what names it, a session that there is
/// gets the mail, and any other is begun by its type and arguments or refused for its type. The
/// text and the mail are handed on as they came.
pub proof fn lemma_mail_finds_its_session(
    sessions: Set<Seq<char>>,
    last: Map<Seq<char>, MailInfoView>,
    body: Seq<u8>,
    mail: MailInfoView,
    id: Seq<char>,
)
    requires
        mail.flow_id == Some(id),
        !last.dom().contains(mail.from) || last[mail.from].date->0 <= mail.date->0,
    ensures
        ({
            let step = step_of(sessions, last, body, mail);
            let typ = if mail.typ is Some { mail.typ->0 } else { ""@ };
            let args = if mail.args is Some { mail.args->0 } else { ""@ };
            let known = typ == "echo"@ || typ == "term"@ || typ == ""@ || typ == "subs"@;
            &&& id == "MAIN"@ <==> step == StepView::Main(body, mail)
            &&& id == "MAIN"@ <==> step is Main
            &&& id != "MAIN"@ && sessions.contains(id) <==> step == StepView::Deliver(id, body, mail)
            &&& id != "MAIN"@ && sessions.contains(id) <==> step is Deliver
            &&& id != "MAIN"@ && !sessions.contains(id) && !known <==> step == StepView::Refuse(
                DispatchErrorView::UnknownType(typ),
            )
            &&& id != "MAIN"@ && !sessions.contains(id) && known <==> step is Open
            &&& step matches StepView::Open(name, session, b, m) ==> {
                &&& name == id
                &&& b == body
                &&& m == mail
                &&& session is Echo <==> typ == "echo"@
                &&& session is Terminal <==> typ == "term"@ || typ == ""@
                &&& session is SubSystem <==> typ == "subs"@
                &&& session matches SessionView::SubSystem(s) ==> s == subsystem::program_of(args)
            }
        }),
{
    lemma_types_differ();
}

/// A buffer is stopped only where what it sent was not taken, sends only when it is time to, and
/// otherwise waits.
pub proof fn lemma_buffer_goes_on(b: BufferView, event: BufferEventView)
    ensures
        buffer_next(b, event).1 is Stop <==> event == BufferEventView::Sent(false),
        buffer_next(b, event).1 is Send <==> event is Tick && b.begun && b.held.len() > 0,
        buffer_next(b, event).1 matches BufferActionView::Send(d) ==> d == b.held,
        event matches BufferEventView::Data(d) ==> buffer_next(b, event).0.held == b.held + d,
        event is Sent ==> buffer_next(b, event).0 == b,
        buffer_next(b, event).0.begun <==> b.begun || event is Tick,
{
}

/// A paragraph is a command by how it begins: it asks which sessions there are, ends the program,
/// or ends the session whose name is all that stands behind; any other is none.
pub proof fn lemma_command(paragraph: Seq<char>, rest: Seq<char>)
    ensures
        command_of("#MAIN info"@ + rest) is Info,
        command_of("#MAIN killself"@ + rest) is KillSelf,
        command_of("#MAIN kill "@ + rest) == CommandView::Kill(rest),
        command_of(paragraph) is Info ==> paragraph == "#MAIN info"@ + paragraph.skip(10),
        command_of(paragraph) is KillSelf ==> paragraph == "#MAIN killself"@ + paragraph.skip(14),
        command_of(paragraph) matches CommandView::Kill(id) ==> paragraph == "#MAIN kill "@ + id,
{
    reveal_strlit("#MAIN info");
    reveal_strlit("#MAIN killself");
    reveal_strlit("#MAIN kill ");
    let ask = "#MAIN info"@;
    let end = "#MAIN killself"@;
    let kill = "#MAIN kill "@;
    text::lemma_starts_with(ask + rest, ask);
    text::lemma_starts_with(end + rest, ask);
    text::lemma_starts_with(kill + rest, ask);
    text::lemma_starts_with(end + rest, end);
    text::lemma_starts_with(kill + rest, end);
    text::lemma_starts_with(kill + rest, kill);
    assert((end + rest)[6] == 'k' && ask[6] == 'i');
    assert((kill + rest)[6] == 'k');
    assert((kill + rest)[10] == ' ' && end[10] == 's');
    assert((kill + rest).skip(11) =~= rest);
    text::lemma_starts_with(paragraph, ask);
    text::lemma_starts_with(paragraph, end);
    text::lemma_starts_with(paragraph, kill);
    if command_of(paragraph) is Info {
        assert(paragraph =~= ask + paragraph.skip(10));
    }
    if command_of(paragraph) is KillSelf {
        assert(paragraph =~= end + paragraph.skip(14));
    }
    if command_of(paragraph) is Kill {
        assert(paragraph =~= kill + paragraph.skip(11));
    }
}

/// Paragraphs with an empty line between each two of them are one command each, in order.
pub proof fn lemma_commands(paragraphs: Seq<Seq<char>>)
    requires
        paragraphs.len() > 0,
        forall|i: int| 0 <= i < paragraphs.len() ==> text::lacks(#[trigger] paragraphs[i], '\r'),
    ensures
        ({
            let said = text::join(paragraphs, seq!['\r', '\n', '\r', '\n']);
            &&& commands_of(said).len() == paragraphs.len()
            &&& forall|i: int|
                0 <= i < paragraphs.len() ==> #[trigger] commands_of(said)[i] == command_of(
                    paragraphs[i],
                )
        }),
{
    reveal_strlit("\r\n\r\n");
    let sep = seq!['\r', '\n', '\r', '\n'];
    assert("\r\n\r\n"@ =~= sep);
    text::lemma_split_join(paragraphs, sep);
}

/// The commands of a text are those of its pieces between empty lines, one to each piece.
pub proof fn lemma_command_per_piece(said: Seq<char>)
    ensures
        ({
            let pieces = text::split(said, seq!['\r', '\n', '\r', '\n']);
            &&& commands_of(said).len() == pieces.len()
            &&& forall|i: int|
                0 <= i < pieces.len() ==> #[trigger] commands_of(said)[i] == command_of(pieces[i])
        }),
{
    reveal_strlit("\r\n\r\n");
    assert("\r\n\r\n"@ =~= seq!['\r', '\n', '\r', '\n']);
}

/// An answer goes to whom the mail is from, with the headers of a reply and the whole of the text.
pub proof fn lemma_answer(message: MessageFile, mail: MailInfoView, data: Seq<u8>)
    requires
        answers(message, mail, data),
    ensures
        message@.client == mail.from,
        message@.info matches Some(info) && info.to == mail.from && info.from == mail.to
            && info.in_reply_to == mail.message_id && info.subject == mail.subject && info.reference
            == mail.reference && info.flow_id == mail.flow_id,
        post::text_part(text::utf8_lossy(data)).is_suffix_of(message@.file),
        post::address_lines(mail.from, mail.to).is_prefix_of(message@.file),
        post::header_lines(common::headers_for(common::reply_to(mail))).is_prefix_of(
            message@.file,
        ),
{
    common::lemma_file_holds_mail(message@.file, common::reply_to(mail), text::utf8_lossy(data));
}

/// What is done with a mail, field by field.
pub proof fn lemma_step_view(step: Step)
    ensures
        match step {
            Step::Skip(e) => step@ == StepView::Skip(e@),
            Step::Main(b, m) => step@ == StepView::Main(octets::octets(b), m@),
            Step::Refuse(e) => step@ == StepView::Refuse(e@),
            Step::Open(id, _, s, b, m) => step@ == StepView::Open(id@, s@, octets::octets(b), m@),
            Step::Deliver(id, b, m) => step@ == StepView::Deliver(id@, octets::octets(b), m@),
        },
{
}

/// The commands that were read are the commands, in order.
pub proof fn lemma_command_views(commands: Seq<MainCommand>)
    ensures
        command_views(commands).len() == commands.len(),
        forall|i: int|
            0 <= i < commands.len() ==> match commands[i] {
                MainCommand::Info => #[trigger] command_views(commands)[i] is Info,
                MainCommand::KillSelf => command_views(commands)[i] is KillSelf,
                MainCommand::Kill(id) => command_views(commands)[i] == CommandView::Kill(id@),
                MainCommand::Ignore => command_views(commands)[i] is Ignore,
            },
{
}

} // verus!
