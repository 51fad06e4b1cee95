//! Mails that carry a session: what is read from one, and how one is answered.
use crate::chance;
use crate::mail;
use crate::mail::{PartBody, PartView};
use crate::octets;
use crate::post;
use crate::post::HeaderView;
use crate::subject;
use crate::text;
use bytes::Bytes;
use vstd::prelude::*;
use vstd::string::*;

verus! {

/// Why a header does not name one address.
#[derive(Debug, PartialEq, Eq, Structural, Clone, Copy)]
pub enum AddressError {
    /// There is no plain list of addresses.
    Missing,
    /// There are this many addresses.
    Count(usize),
    /// The entry has no address.
    Nameless,
}

/// Why a mail cannot be read or written.
#[derive(Debug, PartialEq, Eq, Structural, Clone, Copy)]
pub enum MailError {
    NotMail,
    NoTextBody,
    BodyMissing,
    UnexpectedBody,
    From(AddressError),
    To(AddressError),
    NoSubject,
    SubjectFormat,
    Write,
}

/// What an error with the addresses of a header says.
pub open spec fn address_words(e: AddressError, role: Seq<char>, header: Seq<char>) -> Seq<char> {
    match e {
        AddressError::Missing => "Failed to parse "@ + role + " emails"@,
        AddressError::Count(n) => "Found "@ + text::decimal(n as nat) + " adresses in "@ + header,
        AddressError::Nameless => "Failed to extract "@ + role + " email"@,
    }
}

/// What an error says.
pub open spec fn error_words(e: MailError) -> Seq<char> {
    match e {
        MailError::NotMail => "Failed to parse email message"@,
        MailError::NoTextBody => "No text body part"@,
        MailError::BodyMissing => "Failed to extract body"@,
        MailError::UnexpectedBody => "Unexpected body part type"@,
        MailError::From(a) => address_words(a, "client"@, "From"@),
        MailError::To(a) => address_words(a, "server"@, "To"@),
        MailError::NoSubject => "Subject not found"@,
        MailError::SubjectFormat => "Subject format is invalid"@,
        MailError::Write => "Failed to write email message"@,
    }
}

/// What an error with the addresses of a header says.
fn say_address(e: &AddressError, role: &str, header: &str) -> (r: String)
    ensures
        r@ == address_words(*e, role@, header@),
{
    match e {
        AddressError::Missing => {
            let mut r = "Failed to parse ".to_owned();
            r.append(role);
            r.append(" emails");
            r
        },
        AddressError::Count(n) => {
            let mut r = "Found ".to_owned();
            r.append(text::decimal_text(*n).as_str());
            r.append(" adresses in ");
            r.append(header);
            r
        },
        AddressError::Nameless => {
            let mut r = "Failed to extract ".to_owned();
            r.append(role);
            r.append(" email");
            r
        },
    }
}

impl MailError {
    /// What the error says.
    pub fn message(&self) -> (r: String)
        ensures
            r@ == error_words(*self),
            self matches MailError::From(AddressError::Count(n)) ==> r@ == "Found "@ + text::decimal(
                *n as nat,
            ) + " adresses in From"@,
            self matches MailError::To(AddressError::Count(n)) ==> r@ == "Found "@ + text::decimal(
                *n as nat,
            ) + " adresses in To"@,
    {
        proof {
            reveal_strlit(" adresses in ");
            reveal_strlit("From");
            reveal_strlit("To");
            reveal_strlit(" adresses in From");
            reveal_strlit(" adresses in To");
            assert(" adresses in "@ + "From"@ =~= " adresses in From"@);
            assert(" adresses in "@ + "To"@ =~= " adresses in To"@);
            if let MailError::From(AddressError::Count(n)) = *self {
                let d = text::decimal(n as nat);
                assert("Found "@ + d + " adresses in "@ + "From"@ =~= "Found "@ + d + (
                " adresses in "@ + "From"@));
            }
            if let MailError::To(AddressError::Count(n)) = *self {
                let d = text::decimal(n as nat);
                assert("Found "@ + d + " adresses in "@ + "To"@ =~= "Found "@ + d + (" adresses in "@
                    + "To"@));
            }
        }
        match self {
            MailError::NotMail => "Failed to parse email message".to_owned(),
            MailError::NoTextBody => "No text body part".to_owned(),
            MailError::BodyMissing => "Failed to extract body".to_owned(),
            MailError::UnexpectedBody => "Unexpected body part type".to_owned(),
            MailError::From(a) => say_address(a, "client", "From"),
            MailError::To(a) => say_address(a, "server", "To"),
            MailError::NoSubject => "Subject not found".to_owned(),
            MailError::SubjectFormat => "Subject format is invalid".to_owned(),
            MailError::Write => "Failed to write email message".to_owned(),
        }
    }
}

/// What a mail says of the session it belongs to.
#[derive(Debug)]
pub struct MailInfo {
    pub from: String,
    pub to: String,
    pub subject: String,
    pub message_id: Option<String>,
    pub reference: Option<Vec<String>>,
    pub in_reply_to: Option<String>,
    pub flow_id: Option<String>,
    pub typ: Option<String>,
    pub args: Option<String>,
    /// When the mail was written, in seconds.
    pub date: Option<i64>,
}

/// What a mail says of the session it belongs to, as a mathematical value.
#[verifier::ext_equal]
pub struct MailInfoView {
    pub from: Seq<char>,
    pub to: Seq<char>,
    pub subject: Seq<char>,
    pub message_id: Option<Seq<char>>,
    pub reference: Option<Seq<Seq<char>>>,
    pub in_reply_to: Option<Seq<char>>,
    pub flow_id: Option<Seq<char>>,
    pub typ: Option<Seq<char>>,
    pub args: Option<Seq<char>>,
    pub date: Option<i64>,
}

/// The texts that an optional list of strings holds.
pub open spec fn opt_texts(v: Option<Vec<String>>) -> Option<Seq<Seq<char>>> {
    match v {
        Some(l) => Some(text::texts(l@)),
        None => None,
    }
}

impl View for MailInfo {
    type V = MailInfoView;

    open spec fn view(&self) -> MailInfoView {
        MailInfoView {
            from: self.from@,
            to: self.to@,
            subject: self.subject@,
            message_id: text::opt_text(self.message_id),
            reference: opt_texts(self.reference),
            in_reply_to: text::opt_text(self.in_reply_to),
            flow_id: text::opt_text(self.flow_id),
            typ: text::opt_text(self.typ),
            args: text::opt_text(self.args),
            date: self.date,
        }
    }
}

/// A mail on its way: its file, and the client it comes from or goes to.
#[derive(Debug)]
pub struct MessageFile {
    pub client: String,
    pub info: Option<MailInfo>,
    pub file: Bytes,
}

/// A mail on its way, as a mathematical value.
#[verifier::ext_equal]
pub struct MessageView {
    pub client: Seq<char>,
    pub info: Option<MailInfoView>,
    pub file: Seq<u8>,
}

impl View for MessageFile {
    type V = MessageView;

    open spec fn view(&self) -> MessageView {
        MessageView {
            client: self.client@,
            info: match self.info {
                Some(i) => Some(i@),
                None => None,
            },
            file: octets::octets(self.file),
        }
    }
}

/// A digit of a compact number: one of 85 printable characters, neither `/` nor `#`.
pub open spec fn compact_digit(d: nat) -> char {
    if d == 9 {
        '%'
    } else {
        (38 + d) as char
    }
}

/// A number in five digits of base 85, the highest first.
pub open spec fn compact(n: nat) -> Seq<char> {
    seq![
        compact_digit(n / 52200625 % 85),
        compact_digit(n / 614125 % 85),
        compact_digit(n / 7225 % 85),
        compact_digit(n / 85 % 85),
        compact_digit(n % 85),
    ]
}

/// A compact number is five printable characters, none of which has a meaning in a subject.
pub proof fn lemma_compact_is_plain(n: nat)
    ensures
        compact(n).len() == 5,
        text::is_word(compact(n)),
        text::lacks(compact(n), '#'),
        text::lacks(compact(n), '/'),
        forall|i: int| 0 <= i < 5 ==> '%' <= #[trigger] compact(n)[i] <= 'z',
{
}

/// Two numbers of 32 bits that are written alike are one number.
pub proof fn lemma_compact_is_injective(n: u32, m: u32)
    requires
        compact(n as nat) == compact(m as nat),
    ensures
        n == m,
{
    let a = compact(n as nat);
    let b = compact(m as nat);
    assert forall|i: int| 0 <= i < 5 implies #[trigger] a[i] == b[i] by {}
    assert(a[0] == b[0] && a[1] == b[1] && a[2] == b[2] && a[3] == b[3] && a[4] == b[4]);
    lemma_digit_is_injective(n as nat / 52200625 % 85, m as nat / 52200625 % 85);
    lemma_digit_is_injective(n as nat / 614125 % 85, m as nat / 614125 % 85);
    lemma_digit_is_injective(n as nat / 7225 % 85, m as nat / 7225 % 85);
    lemma_digit_is_injective(n as nat / 85 % 85, m as nat / 85 % 85);
    lemma_digit_is_injective(n as nat % 85, m as nat % 85);
    lemma_digits_add_up(n);
    lemma_digits_add_up(m);
}

/// A number of 32 bits is what its five digits of base 85 make.
proof fn lemma_digits_add_up(n: u32)
    ensures
        n == (n as nat / 52200625 % 85) * 52200625 + (n as nat / 614125 % 85) * 614125 + (n as nat
            / 7225 % 85) * 7225 + (n as nat / 85 % 85) * 85 + n as nat % 85,
{
    let a = n as nat / 85;
    let b = n as nat / 7225;
    let c = n as nat / 614125;
    let d = n as nat / 52200625;
    assert(b == a / 85);
    assert(c == b / 85);
    assert(d == c / 85);
    assert(d < 85);
    assert(a == 85 * b + a % 85);
    assert(b == 85 * c + b % 85);
    assert(c == 85 * d + c % 85);
}

/// Two digits that are written alike are one digit.
proof fn lemma_digit_is_injective(d: nat, e: nat)
    requires
        d < 85,
        e < 85,
        compact_digit(d) == compact_digit(e),
    ensures
        d == e,
{
}

/// A number in five printable characters.
pub fn compact_u32(n: u32) -> (r: String)
    ensures
        r@ == compact(n as nat),
{
    let mut r = String::new();
    let mut unit: u32 = 52200625;
    let mut i: usize = 0;
    while i < 5
        invariant
            i <= 5,
            unit == (if i == 0 {
                52200625int
            } else if i == 1 {
                614125
            } else if i == 2 {
                7225
            } else if i == 3 {
                85
            } else if i == 4 {
                1
            } else {
                0
            }),
            r@ =~= compact(n as nat).take(i as int),
        decreases 5 - i,
    {
        let d: u32 = n / unit % 85;
        assert(n / 1 == n);
        let c: u8 = if d == 9 {
            37
        } else {
            38 + d as u8
        };
        r.push(c as char);
        unit = unit / 85;
        i += 1;
    }
    r
}

/// What is read from a mail before its subject is understood.
pub struct MailFields {
    /// The first part of the text: `None` where there is no text, `Some(None)` where the part is
    /// missing.
    pub body: Option<Option<PartBody>>,
    pub from: Option<Vec<Option<String>>>,
    pub to: Option<Vec<Option<String>>>,
    pub subject: Option<String>,
    pub message_id: Option<String>,
    pub references: Option<Vec<Option<String>>>,
    pub in_reply_to: Option<Vec<Option<String>>>,
    pub date: Option<i64>,
}

/// What is read from a mail, as a mathematical value.
#[verifier::ext_equal]
pub struct FieldsView {
    pub body: Option<Option<PartView>>,
    pub from: Option<Seq<Option<Seq<char>>>>,
    pub to: Option<Seq<Option<Seq<char>>>>,
    pub subject: Option<Seq<char>>,
    pub message_id: Option<Seq<char>>,
    pub references: Option<Seq<Option<Seq<char>>>>,
    pub in_reply_to: Option<Seq<Option<Seq<char>>>>,
    pub date: Option<i64>,
}

impl View for MailFields {
    type V = FieldsView;

    open spec fn view(&self) -> FieldsView {
        FieldsView {
            body: match self.body {
                Some(b) => Some(mail::opt_part(b)),
                None => None,
            },
            from: mail::opt_addresses(self.from),
            to: mail::opt_addresses(self.to),
            subject: text::opt_text(self.subject),
            message_id: text::opt_text(self.message_id),
            references: mail::opt_addresses(self.references),
            in_reply_to: mail::opt_addresses(self.in_reply_to),
            date: self.date,
        }
    }
}

/// What is read from the mail in the bytes.
pub open spec fn fields_of(raw: Seq<u8>) -> FieldsView {
    FieldsView {
        body: if mail::text_parts_of(raw).len() == 0 {
            None
        } else {
            Some(mail::part_of(raw, mail::text_parts_of(raw)[0]))
        },
        from: mail::from_list_of(raw),
        to: mail::to_list_of(raw),
        subject: mail::subject_of(raw),
        message_id: mail::message_id_of(raw),
        references: mail::references_of(raw),
        in_reply_to: mail::in_reply_to_of(raw),
        date: mail::date_of(raw),
    }
}

/// The one address that a header names.
pub open spec fn sole_address(list: Option<Seq<Option<Seq<char>>>>) -> Result<
    Seq<char>,
    AddressError,
> {
    match list {
        None => Err(AddressError::Missing),
        Some(l) => if l.len() != 1 {
            Err(AddressError::Count(l.len() as usize))
        } else {
            match l[0] {
                Some(a) => Ok(a),
                None => Err(AddressError::Nameless),
            }
        },
    }
}

/// The entries of a header, where each has an address.
pub open spec fn all_addresses(list: Option<Seq<Option<Seq<char>>>>) -> Option<Seq<Seq<char>>> {
    match list {
        Some(l) => if forall|i: int| 0 <= i < l.len() ==> #[trigger] l[i] is Some {
            Some(l.map_values(|a: Option<Seq<char>>| a->0))
        } else {
            None
        },
        None => None,
    }
}

/// The address of the first entry of a header.
pub open spec fn first_address(list: Option<Seq<Option<Seq<char>>>>) -> Option<Seq<char>> {
    match list {
        Some(l) => if l.len() > 0 {
            l[0]
        } else {
            None
        },
        None => None,
    }
}

/// What a mail says, from what is read from it: its text, and the session it belongs to. The
/// fresh id is used where the subject has none.
pub open spec fn mail_of(f: FieldsView, fresh: Seq<char>) -> Result<
    (Seq<char>, MailInfoView),
    MailError,
> {
    match f.body {
        None => Err(MailError::NoTextBody),
        Some(None) => Err(MailError::BodyMissing),
        Some(Some(PartView::Text(body))) => match sole_address(f.from) {
            Err(e) => Err(MailError::From(e)),
            Ok(from) => match sole_address(f.to) {
                Err(e) => Err(MailError::To(e)),
                Ok(to) => match f.subject {
                    None => Err(MailError::NoSubject),
                    Some(subject) => match subject::subject_info(subject, fresh) {
                        None => Err(MailError::SubjectFormat),
                        Some(s) => Ok(
                            (
                                body,
                                MailInfoView {
                                    from,
                                    to,
                                    subject: s.subject,
                                    message_id: f.message_id,
                                    reference: all_addresses(f.references),
                                    in_reply_to: first_address(f.in_reply_to),
                                    flow_id: Some(s.flow_id),
                                    typ: s.typ,
                                    args: Some(s.args),
                                    date: f.date,
                                },
                            ),
                        ),
                    },
                },
            },
        },
        Some(Some(_)) => Err(MailError::UnexpectedBody),
    }
}

/// What was read is what a mail says: the text, as bytes, and the session; or the same error.
pub open spec fn reads_as(
    r: Result<(Bytes, MailInfo), MailError>,
    m: Result<(Seq<char>, MailInfoView), MailError>,
) -> bool {
    match (r, m) {
        (Ok((body, info)), Ok((t, v))) => {
            &&& octets::octets(body) == vstd::utf8::encode_utf8(t)
            &&& info@ == v
        },
        (Err(e), Err(f)) => e == f,
        _ => false,
    }
}

/// Reads a mail.
fn read_fields(raw: &[u8]) -> (r: MailFields)
    ensures
        r@ == fields_of(raw@),
{
    let parts = mail::read_text_parts(raw);
    let body = if parts.len() == 0 {
        None
    } else {
        Some(mail::read_part(raw, parts[0]))
    };
    MailFields {
        body,
        from: mail::read_from_list(raw),
        to: mail::read_to_list(raw),
        subject: mail::read_subject(raw),
        message_id: mail::read_message_id(raw),
        references: mail::read_references(raw),
        in_reply_to: mail::read_in_reply_to(raw),
        date: mail::read_date(raw),
    }
}

/// The one address that a header names.
fn pick_sole(list: Option<Vec<Option<String>>>) -> (r: Result<String, AddressError>)
    ensures
        match r {
            Ok(a) => sole_address(mail::opt_addresses(list)) == Ok::<Seq<char>, AddressError>(a@),
            Err(e) => sole_address(mail::opt_addresses(list)) == Err::<Seq<char>, AddressError>(e),
        },
{
    match list {
        None => Err(AddressError::Missing),
        Some(mut l) => {
            let n: usize = l.len();
            if n != 1 {
                return Err(AddressError::Count(n));
            }
            let ghost all = mail::addresses(l@);
            assert(all[0] == text::opt_text(l@[0]));
            match l.pop() {
                Some(Some(a)) => Ok(a),
                _ => Err(AddressError::Nameless),
            }
        },
    }
}

/// The entries of a header, where each has an address.
fn pick_all(list: Option<Vec<Option<String>>>) -> (r: Option<Vec<String>>)
    ensures
        opt_texts(r) == all_addresses(mail::opt_addresses(list)),
{
    match list {
        None => None,
        Some(l) => {
            let ghost all = mail::addresses(l@);
            let mut r: Vec<String> = Vec::new();
            let mut i: usize = 0;
            while i < l.len()
                invariant
                    i <= l@.len(),
                    all == mail::addresses(l@),
                    list == Some(l),
                    r@.len() == i,
                    forall|k: int| 0 <= k < i ==> #[trigger] all[k] == Some(r@[k]@),
                decreases l@.len() - i,
            {
                assert(all[i as int] == text::opt_text(l@[i as int]));
                match &l[i] {
                    Some(a) => r.push(a.clone()),
                    None => return None,
                }
                i += 1;
            }
            assert(text::texts(r@) =~= all.map_values(|a: Option<Seq<char>>| a->0));
            Some(r)
        },
    }
}

/// The address of the first entry of a header.
fn pick_first(list: Option<Vec<Option<String>>>) -> (r: Option<String>)
    ensures
        text::opt_text(r) == first_address(mail::opt_addresses(list)),
{
    match list {
        None => None,
        Some(l) => {
            if l.len() == 0 {
                return None;
            }
            let ghost all = mail::addresses(l@);
            assert(all[0] == text::opt_text(l@[0]));
            match &l[0] {
                Some(a) => Some(a.clone()),
                None => None,
            }
        },
    }
}

/// A copy of an optional text.
pub(crate) fn copy_opt(s: &Option<String>) -> (r: Option<String>)
    ensures
        text::opt_text(r) == text::opt_text(*s),
{
    match s {
        Some(t) => Some(t.clone()),
        None => None,
    }
}

/// A copy of a list of texts.
pub(crate) fn copy_texts(v: &Vec<String>) -> (r: Vec<String>)
    ensures
        text::texts(r@) == text::texts(v@),
{
    let mut r: Vec<String> = Vec::new();
    let mut i: usize = 0;
    while i < v.len()
        invariant
            i <= v@.len(),
            text::texts(r@) == text::texts(v@).take(i as int),
        decreases v@.len() - i,
    {
        let ghost before = r@;
        r.push(v[i].clone());
        assert(text::texts(r@) =~= text::texts(before).push(v@[i as int]@));
        assert(text::texts(r@) =~= text::texts(v@).take(i + 1));
        i += 1;
    }
    assert(text::texts(v@).take(i as int) =~= text::texts(v@));
    r
}

impl Clone for MailInfo {
    fn clone(&self) -> (r: Self)
        ensures
            r@ == self@,
    {
        MailInfo {
            from: self.from.clone(),
            to: self.to.clone(),
            subject: self.subject.clone(),
            message_id: copy_opt(&self.message_id),
            reference: match &self.reference {
                Some(l) => Some(copy_texts(l)),
                None => None,
            },
            in_reply_to: copy_opt(&self.in_reply_to),
            flow_id: copy_opt(&self.flow_id),
            typ: copy_opt(&self.typ),
            args: copy_opt(&self.args),
            date: self.date,
        }
    }
}

impl Clone for MessageFile {
    fn clone(&self) -> (r: Self)
        ensures
            r@ == self@,
    {
        MessageFile {
            client: self.client.clone(),
            info: match &self.info {
                Some(i) => Some(i.clone()),
                None => None,
            },
            file: octets::buffer_again(&self.file),
        }
    }
}

/// The answer to a mail: it goes back to where the mail came from, answers it by its identifier,
/// and belongs to the same session. It has no identifier and no date of its own yet.
pub open spec fn reply_to(m: MailInfoView) -> MailInfoView {
    MailInfoView {
        from: m.to,
        to: m.from,
        message_id: None,
        in_reply_to: m.message_id,
        date: None,
        ..m
    }
}

/// An answer goes to whom the mail is from, and is from whom the mail is to. The answer to the
/// answer goes the way of the first mail again, in the same session and under the same subject.
pub proof fn lemma_replies_go_back(m: MailInfoView)
    ensures
        reply_to(m).to == m.from,
        reply_to(m).from == m.to,
        reply_to(m).in_reply_to == m.message_id,
        reply_to(reply_to(m)) == (MailInfoView {
            message_id: None,
            in_reply_to: None,
            date: None,
            ..m
        }),
{
}

/// The headers of a mail, in the order in which they are set.
pub open spec fn headers_for(m: MailInfoView) -> Seq<HeaderView> {
    seq![HeaderView::To(m.to), HeaderView::From(m.from), HeaderView::Subject(m.subject)]
        + match m.in_reply_to {
        Some(id) => seq![HeaderView::InReplyTo(id)],
        None => seq![],
    } + match m.reference {
        Some(ids) => seq![HeaderView::References(ids)],
        None => seq![],
    }
}

/// The file is a mail with those headers and that text, and with that identifier and date. Where
/// its headers stand in it as they are, it is read as it was written.
pub open spec fn is_written_with(
    file: Seq<u8>,
    m: MailInfoView,
    body: Seq<char>,
    id: Seq<u8>,
    date: Seq<u8>,
) -> bool {
    &&& file == post::written_mail(
        post::header_lines(headers_for(m)),
        id,
        date,
        post::text_part(body),
    )
    &&& post::is_plain_head(headers_for(m)) && post::is_byte_line(id) ==> post::reads_back(
        headers_for(m),
        body,
        file,
    )
}

/// The file is a mail with those headers and that text.
pub open spec fn is_written(file: Seq<u8>, m: MailInfoView, body: Seq<char>) -> bool {
    &&& post::address_lines(m.to, m.from).is_prefix_of(file)
    &&& exists|id: Seq<u8>, date: Seq<u8>| #[trigger] is_written_with(file, m, body, id, date)
}

/// The identifiers that a mail names stay within the lines of a header.
pub open spec fn is_plain_thread(m: MailInfoView) -> bool {
    &&& m.in_reply_to matches Some(id) ==> post::is_folded(id)
    &&& m.reference matches Some(ids) ==> forall|i: int|
        0 <= i < ids.len() ==> post::is_folded(#[trigger] ids[i])
}

/// A reply that is read again stays in its session: it goes back to whom the mail was from, under
/// the same subject, and names the same session, of the same type and with the same arguments. Its
/// text is read as well, where that stands in a mail as it is. The addresses and the subject are
/// such as stand in a header as they are, the identifiers stay within the lines of a header, and
/// that of the reply is one line.
pub proof fn lemma_reply_is_read_back(
    first: FieldsView,
    n: u32,
    body: Seq<char>,
    file: Seq<u8>,
    id: Seq<u8>,
    date: Seq<u8>,
    other: Seq<char>,
)
    requires
        mail_of(first, compact(n as nat)) is Ok,
        ({
            let m = (mail_of(first, compact(n as nat))->Ok_0).1;
            &&& is_written_with(file, reply_to(m), body, id, date)
            &&& post::is_plain_address(m.from)
            &&& post::is_plain_address(m.to)
            &&& post::is_plain_subject(m.subject)
            &&& is_plain_thread(reply_to(m))
        }),
        post::is_byte_line(id),
    ensures
        mail::is_mail(file),
        mail_of(fields_of(file), other) is Ok,
        ({
            let m = (mail_of(first, compact(n as nat))->Ok_0).1;
            let read = (mail_of(fields_of(file), other)->Ok_0).1;
            &&& read.from == m.to
            &&& read.to == m.from
            &&& read.subject == m.subject
            &&& read.flow_id == m.flow_id
            &&& read.typ == m.typ
            &&& read.args == m.args
        }),
        post::is_plain_text(body) ==> (mail_of(fields_of(file), other)->Ok_0).0 == body,
{
    let m = (mail_of(first, compact(n as nat))->Ok_0).1;
    let headers = headers_for(reply_to(m));
    assert(headers[0] == HeaderView::To(m.from));
    assert(headers[1] == HeaderView::From(m.to));
    assert(headers[2] == HeaderView::Subject(m.subject));
    assert forall|i: int| 3 <= i < headers.len() implies post::is_thread_header(
        #[trigger] headers[i],
    ) by {
        match (reply_to(m).in_reply_to, reply_to(m).reference) {
            (Some(a), Some(ids)) => {
                assert(headers[3] == HeaderView::InReplyTo(a));
                assert(headers[4] == HeaderView::References(ids));
            },
            (Some(a), None) => {
                assert(headers[3] == HeaderView::InReplyTo(a));
            },
            (None, Some(ids)) => {
                assert(headers[3] == HeaderView::References(ids));
            },
            (None, None) => {},
        }
    }
    subject::lemma_session_is_kept(first.subject->0, n, other);
}

impl MailInfo {
    /// The answer to a mail.
    pub fn create_reply(self) -> (r: Self)
        ensures
            r@ == reply_to(self@),
    {
        MailInfo {
            from: self.to,
            to: self.from,
            subject: self.subject,
            message_id: None,
            reference: self.reference,
            in_reply_to: self.message_id,
            flow_id: self.flow_id,
            typ: self.typ,
            args: self.args,
            date: None,
        }
    }

    /// The mail as a file, with the bytes as its text. Bytes that are not UTF-8 are replaced.
    pub fn to_file(self, body: Bytes) -> (r: Result<Bytes, MailError>)
        ensures
            match r {
                Ok(file) => is_written(
                    octets::octets(file),
                    self@,
                    text::utf8_lossy(octets::octets(body)),
                ),
                Err(_) => false,
            },
    {
        let ghost m = self@;
        let said = text::lossy_text(octets::slice_of(&body));
        let mut b = post::builder();
        b = post::with_to(b, self.to);
        b = post::with_from(b, self.from);
        b = post::with_subject(b, self.subject);
        b = post::with_text(b, said);
        if let Some(id) = self.in_reply_to {
            b = post::with_in_reply_to(b, id);
        }
        if let Some(ids) = self.reference {
            b = post::with_references(b, ids);
        }
        assert(post::headers_of(b) =~= headers_for(m));
        match post::write_mail(b) {
            Ok(out) => {
                proof {
                    let body = text::utf8_lossy(octets::octets(body));
                    let (id, date) = choose|id: Seq<u8>, date: Seq<u8>|
                        {
                            &&& out@ == #[trigger] post::written_mail(
                                post::header_lines(headers_for(m)),
                                id,
                                date,
                                post::text_part(body),
                            )
                            &&& post::is_plain_head(headers_for(m)) && post::is_byte_line(id)
                                ==> post::reads_back(headers_for(m), body, out@)
                        };
                    assert(is_written_with(out@, m, body, id, date));
                }
                Ok(octets::buffer_of(out))
            },
            Err(_) => Err(MailError::Write),
        }
    }

    /// What a mail says, from what is read from it: the bytes of its text, and the session it
    /// belongs to. Where the subject names no session, the number gives the name of a new one.
    pub fn from_fields(fields: MailFields, fresh: u32) -> (r: Result<(Bytes, MailInfo), MailError>)
        ensures
            reads_as(r, mail_of(fields@, compact(fresh as nat))),
    {
        let body = match fields.body {
            None => return Err(MailError::NoTextBody),
            Some(None) => return Err(MailError::BodyMissing),
            Some(Some(PartBody::Text(s))) => s,
            Some(Some(_)) => return Err(MailError::UnexpectedBody),
        };
        let from = match pick_sole(fields.from) {
            Ok(a) => a,
            Err(e) => return Err(MailError::From(e)),
        };
        let to = match pick_sole(fields.to) {
            Ok(a) => a,
            Err(e) => return Err(MailError::To(e)),
        };
        let subject = match fields.subject {
            Some(s) => s,
            None => return Err(MailError::NoSubject),
        };
        let id = compact_u32(fresh);
        let said = match subject::read_subject(subject, id.as_str()) {
            Some(s) => s,
            None => return Err(MailError::SubjectFormat),
        };
        let info = MailInfo {
            from,
            to,
            subject: said.subject,
            message_id: fields.message_id,
            reference: pick_all(fields.references),
            in_reply_to: pick_first(fields.in_reply_to),
            flow_id: Some(said.flow_id),
            typ: said.typ,
            args: Some(said.args),
            date: fields.date,
        };
        Ok((octets::buffer_copy(body.as_str().as_bytes()), info))
    }

    /// What the mail in the bytes says: the bytes of its text, and the session it belongs to. A
    /// mail that names no session begins a new one, with a name made from a random number.
    pub fn from_bytes(bytes: Bytes) -> (r: Result<(Bytes, MailInfo), MailError>)
        ensures
            !mail::is_mail(octets::octets(bytes)) ==> r == Err::<(Bytes, MailInfo), MailError>(
                MailError::NotMail,
            ),
            mail::is_mail(octets::octets(bytes)) ==> exists|n: u32|
                reads_as(r, mail_of(fields_of(octets::octets(bytes)), #[trigger] compact(n as nat))),
    {
        let raw = octets::slice_of(&bytes);
        if !mail::parses(raw) {
            return Err(MailError::NotMail);
        }
        let fields = read_fields(raw);
        let n: u32 = chance::random_u32();
        Self::from_fields(fields, n)
    }
}

/// The part of an address behind the first `@`, up to the next.
pub open spec fn domain_of(address: Seq<char>) -> Option<Seq<char>> {
    let parts = text::split(address, "@"@);
    if parts.len() > 1 {
        Some(parts[1])
    } else {
        None
    }
}

/// The part of an address behind the first `@`, up to the next.
pub fn domain(address: &str) -> (r: Option<String>)
    ensures
        text::opt_text(r) == domain_of(address@),
{
    proof {
        reveal_strlit("@");
    }
    let parts = text::split_text(address, "@");
    let ghost all = text::texts(parts@);
    if parts.len() > 1 {
        assert(all[1] == parts@[1]@);
        Some(parts[1].clone())
    } else {
        None
    }
}

/// The number that a digit of a compact number stands for.
pub open spec fn digit_value(c: char) -> int {
    if c == '%' {
        9
    } else {
        c as int - '&' as int
    }
}

/// The five digits of a compact number make that number, the highest first.
pub proof fn lemma_compact_value(n: u32)
    ensures
        compact(n as nat).len() == 5,
        n == (((digit_value(compact(n as nat)[0]) * 85 + digit_value(compact(n as nat)[1])) * 85
            + digit_value(compact(n as nat)[2])) * 85 + digit_value(compact(n as nat)[3])) * 85
            + digit_value(compact(n as nat)[4]),
        forall|i: int| 0 <= i < 5 ==> 0 <= digit_value(#[trigger] compact(n as nat)[i]) < 85,
{
    lemma_digits_add_up(n);
    let c = compact(n as nat);
    assert(digit_value(c[0]) == n as nat / 52200625 % 85);
    assert(digit_value(c[1]) == n as nat / 614125 % 85);
    assert(digit_value(c[2]) == n as nat / 7225 % 85);
    assert(digit_value(c[3]) == n as nat / 85 % 85);
    assert(digit_value(c[4]) == n as nat % 85);
}

/// An answer has the parties of the mail the other way round, answers it by its identifier, and
/// keeps its subject, its references and its session.
pub proof fn lemma_reply(m: MailInfoView)
    ensures
        reply_to(m).from == m.to,
        reply_to(m).to == m.from,
        reply_to(m).subject == m.subject,
        reply_to(m).in_reply_to == m.message_id,
        reply_to(m).reference == m.reference,
        reply_to(m).flow_id == m.flow_id,
        reply_to(m).typ == m.typ,
        reply_to(m).args == m.args,
        reply_to(m).message_id is None,
        reply_to(m).date is None,
{
}

/// A mail is written with whom it is to, whom it is from and its subject, first and once each; with
/// the mail that it answers just where there is one, with those that it refers to just where there
/// is a list of them, whatever else it has; and with no other header.
pub proof fn lemma_headers(m: MailInfoView)
    ensures
        headers_for(m).no_duplicates(),
        headers_for(m).len() == 3 + (if m.in_reply_to is Some {
            1int
        } else {
            0
        }) + (if m.reference is Some {
            1int
        } else {
            0
        }),
        headers_for(m)[0] == HeaderView::To(m.to),
        headers_for(m)[1] == HeaderView::From(m.from),
        headers_for(m)[2] == HeaderView::Subject(m.subject),
        forall|a: Seq<char>| #[trigger]
            headers_for(m).contains(HeaderView::To(a)) <==> a == m.to,
        forall|a: Seq<char>| #[trigger]
            headers_for(m).contains(HeaderView::From(a)) <==> a == m.from,
        forall|s: Seq<char>| #[trigger]
            headers_for(m).contains(HeaderView::Subject(s)) <==> s == m.subject,
        forall|id: Seq<char>| #[trigger]
            headers_for(m).contains(HeaderView::InReplyTo(id)) <==> m.in_reply_to == Some(id),
        forall|ids: Seq<Seq<char>>| #[trigger]
            headers_for(m).contains(HeaderView::References(ids)) <==> m.reference == Some(ids),
        !headers_for(m).contains(HeaderView::Other),
{
    let h = headers_for(m);
    match m.in_reply_to {
        Some(id) => {
            assert(h[3] == HeaderView::InReplyTo(id));
            assert(h.contains(HeaderView::InReplyTo(id)));
        },
        None => {},
    }
    match m.reference {
        Some(ids) => {
            let k = h.len() - 1;
            assert(h[k] == HeaderView::References(ids));
            assert(h.contains(HeaderView::References(ids)));
        },
        None => {},
    }
    assert(h.contains(h[0]) && h.contains(h[1]) && h.contains(h[2]));
    assert forall|x: HeaderView| #[trigger] h.contains(x) implies {
        ||| x == HeaderView::To(m.to)
        ||| x == HeaderView::From(m.from)
        ||| x == HeaderView::Subject(m.subject)
        ||| m.in_reply_to is Some && x == HeaderView::InReplyTo(m.in_reply_to->0)
        ||| m.reference is Some && x == HeaderView::References(m.reference->0)
    } by {
        let k = choose|k: int| 0 <= k < h.len() && h[k] == x;
        if k >= 3 {
            assert(h[k] == h[3] || h[k] == h[4]);
        }
    }
}

/// An answer to a mail that has an identifier names that mail, whatever else the mail has.
pub proof fn lemma_reply_names_its_mail(m: MailInfoView)
    ensures
        forall|id: Seq<char>| #[trigger]
            headers_for(reply_to(m)).contains(HeaderView::InReplyTo(id)) <==> m.message_id == Some(
                id,
            ),
        forall|ids: Seq<Seq<char>>| #[trigger]
            headers_for(reply_to(m)).contains(HeaderView::References(ids)) <==> m.reference == Some(
                ids,
            ),
        headers_for(reply_to(m)).contains(HeaderView::To(m.from)),
        headers_for(reply_to(m)).contains(HeaderView::From(m.to)),
        headers_for(reply_to(m)).contains(HeaderView::Subject(m.subject)),
{
    lemma_headers(reply_to(m));
}

/// The file of a mail begins with its headers and ends with the whole of its text.
pub proof fn lemma_file_holds_mail(file: Seq<u8>, m: MailInfoView, body: Seq<char>)
    requires
        is_written(file, m, body),
    ensures
        post::header_lines(headers_for(m)).is_prefix_of(file),
        post::text_part(body).is_suffix_of(file),
        post::address_lines(m.to, m.from).is_prefix_of(file),
{
    let (id, date) = choose|id: Seq<u8>, date: Seq<u8>| #[trigger]
        is_written_with(file, m, body, id, date);
    let head = post::header_lines(headers_for(m));
    let part = post::text_part(body);
    assert(file == post::written_mail(head, id, date, part));
    assert(head =~= file.subrange(0, head.len() as int));
    assert(part =~= file.subrange(file.len() - part.len(), file.len() as int));
}

/// The entries of a header that names those addresses.
pub open spec fn entries(ids: Seq<Seq<char>>) -> Seq<Option<Seq<char>>> {
    ids.map_values(|a: Seq<char>| Some(a))
}

/// What is read of a mail is taken over as it is: its text, its one sender and its one receiver,
/// its identifier and its date, the first mail that it answers, and the mails that it refers to
/// where each of them is named.
pub proof fn lemma_mail_says(f: FieldsView, fresh: Seq<char>)
    ensures
        mail_of(f, fresh) matches Ok((body, m)) ==> {
            &&& f.body == Some(Some(PartView::Text(body)))
            &&& f.from == Some(seq![Some(m.from)])
            &&& f.to == Some(seq![Some(m.to)])
            &&& m.message_id == f.message_id
            &&& m.date == f.date
            &&& m.flow_id is Some
            &&& m.args is Some
            &&& m.in_reply_to == if f.in_reply_to is Some && (f.in_reply_to->0).len() > 0 {
                (f.in_reply_to->0)[0]
            } else {
                None
            }
            &&& forall|ids: Seq<Seq<char>>|
                m.reference == Some(ids) <==> f.references == Some(#[trigger] entries(ids))
        },
{
    if mail_of(f, fresh) is Ok {
        let m = (mail_of(f, fresh)->Ok_0).1;
        let from = f.from->0;
        let to = f.to->0;
        assert(from =~= seq![Some(m.from)]);
        assert(to =~= seq![Some(m.to)]);
        assert forall|ids: Seq<Seq<char>>|
            m.reference == Some(ids) <==> f.references == Some(#[trigger] entries(ids)) by {
            let named = entries(ids);
            if m.reference == Some(ids) {
                let l = f.references->0;
                assert(ids == l.map_values(|a: Option<Seq<char>>| a->0));
                assert(named =~= l) by {
                    assert forall|i: int| 0 <= i < l.len() implies #[trigger] l[i] == named[i] by {
                        assert(ids[i] == l[i]->0);
                    }
                }
            }
            if f.references == Some(named) {
                assert forall|i: int| 0 <= i < named.len() implies #[trigger] named[i] is Some by {}
                assert(named.map_values(|a: Option<Seq<char>>| a->0) =~= ids);
            }
        }
    }
}

/// A header names one address: it is a list of one entry, and that entry has an address.
pub open spec fn names_one(list: Option<Seq<Option<Seq<char>>>>) -> bool {
    list matches Some(l) && l.len() == 1 && l[0] is Some
}

/// A mail is read just where it has a text, one sender, one receiver, and a subject with two `/`;
/// and what is wrong with it is said in that order.
pub proof fn lemma_mail_is_read(f: FieldsView, fresh: Seq<char>)
    ensures
        ({
            let r = mail_of(f, fresh);
            let text = f.body is Some && f.body->0 is Some && f.body->0->0 is Text;
            let parts = (f.subject->0).filter(|c: char| c == '/').len();
            &&& r is Ok <==> text && names_one(f.from) && names_one(f.to) && f.subject is Some
                && parts == 2
            &&& r == Err::<(Seq<char>, MailInfoView), MailError>(MailError::NoTextBody)
                <==> f.body is None
            &&& r == Err::<(Seq<char>, MailInfoView), MailError>(MailError::BodyMissing)
                <==> f.body is Some && f.body->0 is None
            &&& r == Err::<(Seq<char>, MailInfoView), MailError>(MailError::UnexpectedBody)
                <==> f.body is Some && f.body->0 is Some && !text
            &&& r is Err && r->Err_0 is From <==> text && !names_one(f.from)
            &&& r is Err && r->Err_0 is To <==> text && names_one(f.from) && !names_one(f.to)
            &&& r == Err::<(Seq<char>, MailInfoView), MailError>(MailError::NoSubject)
                <==> text && names_one(f.from) && names_one(f.to) && f.subject is None
            &&& r == Err::<(Seq<char>, MailInfoView), MailError>(MailError::SubjectFormat)
                <==> text && names_one(f.from) && names_one(f.to) && f.subject is Some && parts != 2
            &&& r matches Err(MailError::From(e)) ==> is_fault(f.from, e)
            &&& r matches Err(MailError::To(e)) ==> is_fault(f.to, e)
        }),
{
    reveal_strlit("/");
    assert("/"@ =~= seq!['/']);
    text::lemma_piece_count(f.subject->0, '/');
}

/// What is wrong with a header that does not name one address.
pub open spec fn is_fault(list: Option<Seq<Option<Seq<char>>>>, e: AddressError) -> bool {
    match e {
        AddressError::Missing => list is None,
        AddressError::Count(n) => list is Some && (list->0).len() != 1 && n
            == (list->0).len() as usize,
        AddressError::Nameless => list is Some && (list->0).len() == 1 && (list->0)[0] is None,
    }
}

/// What is read from the bytes of a mail: of its text the first part, and each header from its own
/// place.
pub proof fn lemma_fields(raw: Seq<u8>)
    ensures
        fields_of(raw).body is None <==> mail::text_parts_of(raw).len() == 0,
        mail::text_parts_of(raw).len() > 0 ==> fields_of(raw).body == Some(
            mail::part_of(raw, mail::text_parts_of(raw)[0]),
        ),
        fields_of(raw).from == mail::from_list_of(raw),
        fields_of(raw).to == mail::to_list_of(raw),
        fields_of(raw).subject == mail::subject_of(raw),
        fields_of(raw).message_id == mail::message_id_of(raw),
        fields_of(raw).references == mail::references_of(raw),
        fields_of(raw).in_reply_to == mail::in_reply_to_of(raw),
        fields_of(raw).date == mail::date_of(raw),
{
}

/// The domain of an address is what stands behind its first `@`, up to the next one or to the end;
/// an address without `@` has none.
pub proof fn lemma_domain(name: Seq<char>, domain: Seq<char>, rest: Seq<char>)
    requires
        text::lacks(name, '@'),
        text::lacks(domain, '@'),
    ensures
        domain_of(name) is None,
        domain_of(name + seq!['@'] + domain) == Some(domain),
        domain_of(name + seq!['@'] + domain + seq!['@'] + rest) == Some(domain),
{
    reveal_strlit("@");
    assert("@"@ =~= seq!['@']);
    text::lemma_split_lacking(name, '@');
    text::lemma_split_lacking(domain, '@');
    text::lemma_split_first(name, '@', domain);
    let behind = domain + seq!['@'] + rest;
    text::lemma_split_first(name, '@', behind);
    text::lemma_split_first(domain, '@', rest);
    assert(name + seq!['@'] + domain + seq!['@'] + rest =~= name + seq!['@'] + behind);
}

/// What is read is what a mail says: there is a mail just where it says something, its text is
/// given as bytes, all of it, and what it says of its session is given as it is.
pub proof fn lemma_reads_as(
    r: Result<(Bytes, MailInfo), MailError>,
    m: Result<(Seq<char>, MailInfoView), MailError>,
)
    requires
        reads_as(r, m),
    ensures
        r is Ok <==> m is Ok,
        r is Ok ==> octets::octets((r->Ok_0).0) == vstd::utf8::encode_utf8((m->Ok_0).0),
        r is Ok ==> (r->Ok_0).1@ == (m->Ok_0).1,
        r is Err ==> r->Err_0 == m->Err_0,
{
}

/// What is known of a mail, field by field.
pub proof fn lemma_info_view(i: MailInfo)
    ensures
        i@.from == i.from@,
        i@.to == i.to@,
        i@.subject == i.subject@,
        i@.message_id == text::opt_text(i.message_id),
        i@.in_reply_to == text::opt_text(i.in_reply_to),
        i@.flow_id == text::opt_text(i.flow_id),
        i@.typ == text::opt_text(i.typ),
        i@.args == text::opt_text(i.args),
        i@.date == i.date,
        i.reference is None <==> i@.reference is None,
        i.reference is Some ==> (i@.reference->0).len() == (i.reference->0)@.len() && forall|k: int|
            0 <= k < (i.reference->0)@.len() ==> #[trigger] (i@.reference->0)[k] == (
            i.reference->0)@[k]@,
        i.message_id is Some ==> i@.message_id == Some((i.message_id->0)@),
        i.message_id is None ==> i@.message_id is None,
{
}

/// A mail on its way, field by field.
pub proof fn lemma_message_view(m: MessageFile)
    ensures
        m@.client == m.client@,
        m@.file == octets::octets(m.file),
        m@.info is Some <==> m.info is Some,
        m.info is Some ==> m@.info == Some((m.info->0)@),
{
}

} // verus!
