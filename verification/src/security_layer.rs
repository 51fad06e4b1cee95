//! What comes between the sessions and the mails that carry them: mails are opened when they come
//! in, and sealed when they go out.
use crate::chance;
use crate::common;
use crate::common::{MailInfo, MailInfoView, MessageFile, MessageView};
use crate::mail;
use crate::mail::{ContentKind, KindView, PartBody, PartView};
use crate::octets;
use crate::opengpg_utils;
use crate::opengpg_utils::{Helper, HelperView, PgpError, PgpErrorView};
use crate::pgp;
use crate::post;
use crate::text;
use vstd::prelude::*;
use vstd::string::*;

verus! {

/// Why a mail cannot be opened or sealed.
#[derive(Debug)]
pub enum SecurityError {
    NotMail,
    NoContentType,
    NoSubtype,
    /// No attachment is the encrypted message.
    NoEncryptedPart,
    /// The encrypted message is neither text nor binary.
    UnsupportedPart,
    /// The mail is signed and not encrypted.
    Signed,
    /// The mail is not encrypted, and such mails are not let through.
    NotEncrypted,
    /// What was encrypted is not a mail.
    InnerNotMail,
    /// The mail that was encrypted is from nobody.
    NoInnerFrom,
    /// The mail that was encrypted is not from exactly one address.
    InnerFromCount,
    Encryption(PgpError),
    /// The encrypted message is not UTF-8, for the reason given.
    NotText(String),
    /// The sender's address has no domain.
    NoDomain,
}

/// Why a mail cannot be opened or sealed, as a mathematical value.
pub enum SecurityErrorView {
    NotMail,
    NoContentType,
    NoSubtype,
    NoEncryptedPart,
    UnsupportedPart,
    Signed,
    NotEncrypted,
    InnerNotMail,
    NoInnerFrom,
    InnerFromCount,
    Encryption(PgpErrorView),
    NotText(Seq<char>),
    NoDomain,
}

impl View for SecurityError {
    type V = SecurityErrorView;

    open spec fn view(&self) -> SecurityErrorView {
        match self {
            SecurityError::NotMail => SecurityErrorView::NotMail,
            SecurityError::NoContentType => SecurityErrorView::NoContentType,
            SecurityError::NoSubtype => SecurityErrorView::NoSubtype,
            SecurityError::NoEncryptedPart => SecurityErrorView::NoEncryptedPart,
            SecurityError::UnsupportedPart => SecurityErrorView::UnsupportedPart,
            SecurityError::Signed => SecurityErrorView::Signed,
            SecurityError::NotEncrypted => SecurityErrorView::NotEncrypted,
            SecurityError::InnerNotMail => SecurityErrorView::InnerNotMail,
            SecurityError::NoInnerFrom => SecurityErrorView::NoInnerFrom,
            SecurityError::InnerFromCount => SecurityErrorView::InnerFromCount,
            SecurityError::Encryption(e) => SecurityErrorView::Encryption(e@),
            SecurityError::NotText(e) => SecurityErrorView::NotText(e@),
            SecurityError::NoDomain => SecurityErrorView::NoDomain,
        }
    }
}

/// What an error says.
pub open spec fn error_words(e: SecurityError) -> Seq<char> {
    match e {
        SecurityError::NotMail => "Failed to parse email message"@,
        SecurityError::NoContentType => "Content-Type missing"@,
        SecurityError::NoSubtype => "Subtype missing"@,
        SecurityError::NoEncryptedPart => "Encrypted part not found"@,
        SecurityError::UnsupportedPart => "Unsupported content type in encrypted part"@,
        SecurityError::Signed => "Signed messages are not supported"@,
        SecurityError::NotEncrypted => "Message unencrypted/unsigned and !pass_raw"@,
        SecurityError::InnerNotMail => "Failed to parse decrypted message"@,
        SecurityError::NoInnerFrom => "From header missing in decrypted message"@,
        SecurityError::InnerFromCount =>
        "Expected exactly one From address in decrypted message"@,
        SecurityError::Encryption(e) => "Encryption failed: "@ + opengpg_utils::error_words(e),
        SecurityError::NotText(e) => e@,
        SecurityError::NoDomain => "Invalid from email address"@,
    }
}

impl SecurityError {
    /// What the error says.
    pub fn message(&self) -> (r: String)
        ensures
            r@ == error_words(*self),
            self matches SecurityError::NotText(e) ==> r@ == e@,
            self matches SecurityError::Encryption(e) ==> r@ == "Encryption failed: "@
                + opengpg_utils::error_words(*e),
    {
        match self {
            SecurityError::NotMail => "Failed to parse email message".to_owned(),
            SecurityError::NoContentType => "Content-Type missing".to_owned(),
            SecurityError::NoSubtype => "Subtype missing".to_owned(),
            SecurityError::NoEncryptedPart => "Encrypted part not found".to_owned(),
            SecurityError::UnsupportedPart =>
            "Unsupported content type in encrypted part".to_owned(),
            SecurityError::Signed => "Signed messages are not supported".to_owned(),
            SecurityError::NotEncrypted => "Message unencrypted/unsigned and !pass_raw".to_owned(),
            SecurityError::InnerNotMail => "Failed to parse decrypted message".to_owned(),
            SecurityError::NoInnerFrom => "From header missing in decrypted message".to_owned(),
            SecurityError::InnerFromCount =>
            "Expected exactly one From address in decrypted message".to_owned(),
            SecurityError::Encryption(e) => "Encryption failed: ".to_owned().concat(
                e.message().as_str(),
            ),
            SecurityError::NotText(e) => e.clone(),
            SecurityError::NoDomain => "Invalid from email address".to_owned(),
        }
    }
}

/// The keys, and whether mails that are not encrypted are let through.
pub struct SecurityLayer {
    h: Helper,
    pass_raw: bool,
}

/// The layer, as a mathematical value.
#[verifier::ext_equal]
pub struct SecurityView {
    pub helper: HelperView,
    pub pass_raw: bool,
}

impl View for SecurityLayer {
    type V = SecurityView;

    closed spec fn view(&self) -> SecurityView {
        SecurityView { helper: self.h@, pass_raw: self.pass_raw }
    }
}

/// A content type of that type and subtype.
pub open spec fn is_kind(kind: KindView, ctype: Seq<char>, subtype: Seq<char>) -> bool {
    kind.ctype == ctype && kind.subtype == Some(subtype)
}

/// Whether a mail is to be opened, from its content type and the protocol that goes with it.
pub open spec fn needs_opening(
    kind: Option<KindView>,
    protocol: Option<Seq<char>>,
    pass_raw: bool,
) -> Result<bool, SecurityErrorView> {
    match kind {
        None => Err(SecurityErrorView::NoContentType),
        Some(k) => if k.subtype is None {
            Err(SecurityErrorView::NoSubtype)
        } else if is_kind(k, "multipart"@, "encrypted"@) && protocol == Some(
            "application/pgp-encrypted"@,
        ) {
            Ok(true)
        } else if is_kind(k, "multipart"@, "signed"@) && protocol == Some(
            "application/pgp-signature"@,
        ) {
            Err(SecurityErrorView::Signed)
        } else if pass_raw {
            Ok(false)
        } else {
            Err(SecurityErrorView::NotEncrypted)
        },
    }
}

/// The content type of an encrypted message.
pub open spec fn is_cipher(kind: Option<KindView>) -> bool {
    kind matches Some(k) && is_kind(k, "application"@, "octet-stream"@)
}

/// The position, from `i` on, of the first attachment that is an encrypted message.
pub open spec fn cipher_from(kinds: Seq<Option<KindView>>, i: int) -> Option<int>
    decreases kinds.len() - i,
{
    if i < 0 || i >= kinds.len() {
        None
    } else if is_cipher(kinds[i]) {
        Some(i)
    } else {
        cipher_from(kinds, i + 1)
    }
}

/// The bytes of an encrypted message.
pub open spec fn cipher_bytes(part: PartView) -> Result<Seq<u8>, SecurityErrorView> {
    match part {
        PartView::Text(s) => Ok(vstd::utf8::encode_utf8(s)),
        PartView::Binary(b) => Ok(b),
        _ => Err(SecurityErrorView::UnsupportedPart),
    }
}

/// What is to be opened of the mail in the bytes: the encrypted message, or nothing where the mail
/// is let through as it is.
pub open spec fn opening(raw: Seq<u8>, pass_raw: bool) -> Result<Option<Seq<u8>>, SecurityErrorView> {
    if !mail::is_mail(raw) {
        Err(SecurityErrorView::NotMail)
    } else {
        match needs_opening(
            mail::content_type_of(raw),
            mail::content_attribute_of(raw, "protocol"@),
            pass_raw,
        ) {
            Err(e) => Err(e),
            Ok(false) => Ok(None),
            Ok(true) => match cipher_from(mail::attachment_types_of(raw), 0) {
                None => Err(SecurityErrorView::NoEncryptedPart),
                Some(i) => match cipher_bytes(mail::attachment_of(raw, i)->0) {
                    Ok(b) => Ok(Some(b)),
                    Err(e) => Err(e),
                },
            },
        }
    }
}

/// The addresses of those entries that have one.
pub open spec fn named(list: Seq<Option<Seq<char>>>) -> Seq<Seq<char>>
    decreases list.len(),
{
    if list.len() == 0 {
        seq![]
    } else {
        match list.last() {
            Some(a) => named(list.drop_last()).push(a),
            None => named(list.drop_last()),
        }
    }
}

/// The one address that a mail which was encrypted is from.
pub open spec fn sender_of(from: Option<Seq<Option<Seq<char>>>>) -> Result<
    Seq<char>,
    SecurityErrorView,
> {
    match from {
        None => Err(SecurityErrorView::NoInnerFrom),
        Some(l) => if named(l).len() == 1 {
            Ok(named(l)[0])
        } else {
            Err(SecurityErrorView::InnerFromCount)
        },
    }
}

/// The mail that was encrypted: its client is the one that it says it is from.
pub open spec fn opened(plain: Seq<u8>) -> Result<MessageView, SecurityErrorView> {
    if !mail::is_mail(plain) {
        Err(SecurityErrorView::InnerNotMail)
    } else {
        match sender_of(mail::from_all_of(plain)) {
            Ok(client) => Ok(MessageView { client, info: None, file: plain }),
            Err(e) => Err(e),
        }
    }
}

/// A mail that came in.
pub enum Incoming {
    /// An encrypted message, which is to be opened.
    Sealed(Vec<u8>),
    /// A mail that is let through as it is.
    Plain(MessageFile),
}

/// Whether a mail is to be opened, from its content type and the protocol that goes with it.
pub fn must_open(kind: &Option<ContentKind>, protocol: &Option<String>, pass_raw: bool) -> (r: Result<
    bool,
    SecurityError,
>)
    ensures
        match r {
            Ok(b) => needs_opening(mail::opt_kind(*kind), text::opt_text(*protocol), pass_raw)
                == Ok::<bool, SecurityErrorView>(b),
            Err(e) => needs_opening(mail::opt_kind(*kind), text::opt_text(*protocol), pass_raw)
                == Err::<bool, SecurityErrorView>(e@),
        },
{
    let k = match kind {
        Some(k) => k,
        None => return Err(SecurityError::NoContentType),
    };
    if k.subtype.is_none() {
        return Err(SecurityError::NoSubtype);
    }
    if has_kind(k, "multipart", "encrypted") && is_text(protocol, "application/pgp-encrypted") {
        Ok(true)
    } else if has_kind(k, "multipart", "signed") && is_text(protocol, "application/pgp-signature") {
        Err(SecurityError::Signed)
    } else if pass_raw {
        Ok(false)
    } else {
        Err(SecurityError::NotEncrypted)
    }
}

/// Whether an optional text is that one.
fn is_text(s: &Option<String>, t: &str) -> (r: bool)
    ensures
        r == (text::opt_text(*s) == Some(t@)),
{
    match s {
        Some(s) => text::same_text(s.as_str(), t),
        None => false,
    }
}

/// Whether a content type is of that type and subtype.
fn has_kind(kind: &ContentKind, ctype: &str, subtype: &str) -> (r: bool)
    ensures
        r == is_kind(kind@, ctype@, subtype@),
{
    text::same_text(kind.ctype.as_str(), ctype) && is_text(&kind.subtype, subtype)
}

/// The position of the first attachment that is an encrypted message.
pub fn find_cipher(kinds: &Vec<Option<ContentKind>>) -> (r: Option<usize>)
    ensures
        match r {
            Some(i) => cipher_from(mail::kinds(kinds@), 0) == Some(i as int) && i < kinds@.len(),
            None => cipher_from(mail::kinds(kinds@), 0) is None,
        },
{
    let ghost all = mail::kinds(kinds@);
    let mut i: usize = 0;
    while i < kinds.len()
        invariant
            i <= kinds@.len(),
            all == mail::kinds(kinds@),
            cipher_from(all, 0) == cipher_from(all, i as int),
        decreases kinds@.len() - i,
    {
        assert(all[i as int] == mail::opt_kind(kinds@[i as int]));
        if let Some(k) = &kinds[i] {
            if has_kind(k, "application", "octet-stream") {
                return Some(i);
            }
        }
        i += 1;
    }
    None
}

/// The bytes of an encrypted message.
pub fn take_cipher(part: PartBody) -> (r: Result<Vec<u8>, SecurityError>)
    ensures
        match r {
            Ok(b) => cipher_bytes(part@) == Ok::<Seq<u8>, SecurityErrorView>(b@),
            Err(e) => cipher_bytes(part@) == Err::<Seq<u8>, SecurityErrorView>(e@),
        },
{
    match part {
        PartBody::Text(s) => Ok(s.as_str().as_bytes_vec()),
        PartBody::Binary(b) => Ok(b),
        _ => Err(SecurityError::UnsupportedPart),
    }
}

/// The one address that a mail which was encrypted is from.
pub fn take_sender(from: Option<Vec<Option<String>>>) -> (r: Result<String, SecurityError>)
    ensures
        match r {
            Ok(a) => sender_of(mail::opt_addresses(from)) == Ok::<Seq<char>, SecurityErrorView>(a@),
            Err(e) => sender_of(mail::opt_addresses(from)) == Err::<Seq<char>, SecurityErrorView>(
                e@,
            ),
        },
{
    let list = match from {
        Some(l) => l,
        None => return Err(SecurityError::NoInnerFrom),
    };
    let ghost all = mail::addresses(list@);
    let mut found: Vec<String> = Vec::new();
    let mut i: usize = 0;
    assert(text::texts(found@) =~= named(all.take(0)));
    while i < list.len()
        invariant
            i <= list@.len(),
            all == mail::addresses(list@),
            text::texts(found@) == named(all.take(i as int)),
        decreases list@.len() - i,
    {
        assert(all[i as int] == text::opt_text(list@[i as int]));
        assert(all.take(i + 1).drop_last() =~= all.take(i as int));
        if let Some(a) = &list[i] {
            let ghost before = found@;
            found.push(a.clone());
            assert(text::texts(found@) =~= text::texts(before).push(a@));
        }
        i += 1;
    }
    assert(all.take(i as int) =~= all);
    if found.len() != 1 {
        return Err(SecurityError::InnerFromCount);
    }
    assert(named(all)[0] == found@[0]@);
    Ok(found[0].clone())
}

impl SecurityLayer {
    /// Takes the keys from the contents of files.
    pub fn load(contents: Vec<String>, pgp_password: Option<String>, pass_raw: bool) -> (r: Result<
        Self,
        PgpError,
    >)
        ensures
            match r {
                Ok(s) => {
                    &&& s@.pass_raw == pass_raw
                    &&& opengpg_utils::server_of(text::texts(contents@)) == Some(s@.helper.server)
                    &&& s@.helper.clients == opengpg_utils::clients_of(
                        text::texts(contents@),
                        s@.helper.server,
                    )
                    &&& s@.helper.password == text::opt_text(pgp_password)
                },
                Err(e) => {
                    &&& opengpg_utils::server_of(text::texts(contents@)) is None
                    &&& e@ == PgpErrorView::NoServerCert
                },
            },
    {
        match Helper::load_dir(contents, pgp_password) {
            Ok(h) => Ok(SecurityLayer { h, pass_raw }),
            Err(e) => Err(e),
        }
    }

    /// The keys.
    pub fn helper(&self) -> (r: &Helper)
        ensures
            r@ == self@.helper,
    {
        &self.h
    }

    /// Takes the encrypted message out of a mail, or lets the mail through as it is. An envelope
    /// gives back what was put into it.
    pub fn decrypt(&self, mes: MessageFile) -> (r: Result<Incoming, SecurityError>)
        ensures
            match r {
                Ok(Incoming::Sealed(b)) => opening(mes@.file, self@.pass_raw) == Ok::<
                    Option<Seq<u8>>,
                    SecurityErrorView,
                >(Some(b@)),
                Ok(Incoming::Plain(m)) => m@ == mes@ && opening(mes@.file, self@.pass_raw) == Ok::<
                    Option<Seq<u8>>,
                    SecurityErrorView,
                >(None),
                Err(e) => opening(mes@.file, self@.pass_raw) == Err::<
                    Option<Seq<u8>>,
                    SecurityErrorView,
                >(e@),
            },
            forall|cipher: Seq<u8>| #[trigger]
                is_envelope_of(mes@.file, cipher) ==> opening(mes@.file, self@.pass_raw) == Ok::<
                    Option<Seq<u8>>,
                    SecurityErrorView,
                >(Some(cipher)),
    {
        let raw = octets::slice_of(&mes.file);
        if !mail::parses(raw) {
            return Err(SecurityError::NotMail);
        }
        let kind = mail::read_content_type(raw);
        let protocol = mail::read_content_attribute(raw, "protocol");
        let sealed = match must_open(&kind, &protocol, self.pass_raw) {
            Ok(b) => b,
            Err(e) => return Err(e),
        };
        if !sealed {
            return Ok(Incoming::Plain(mes));
        }
        let kinds = mail::read_attachment_types(raw);
        proof {
            if is_envelope(raw@) {
                reveal_strlit("pgp-encrypted");
                reveal_strlit("octet-stream");
                assert("pgp-encrypted"@.len() != "octet-stream"@.len());
                reveal_with_fuel(cipher_from, 2);
                assert(cipher_from(mail::kinds(kinds@), 0) == Some(1int));
            }
        }
        let i: usize = match find_cipher(&kinds) {
            Some(i) => i,
            None => return Err(SecurityError::NoEncryptedPart),
        };
        match mail::read_attachment(raw, i) {
            Some(part) => match take_cipher(part) {
                Ok(b) => Ok(Incoming::Sealed(b)),
                Err(e) => Err(e),
            },
            None => Err(SecurityError::NoEncryptedPart),
        }
    }

    /// Takes the mail that was encrypted, once it is opened. The address it is from counts, and
    /// not the one on the outside.
    pub fn accept(&self, plain: Vec<u8>) -> (r: Result<MessageFile, SecurityError>)
        ensures
            match r {
                Ok(m) => opened(plain@) == Ok::<MessageView, SecurityErrorView>(m@),
                Err(e) => opened(plain@) == Err::<MessageView, SecurityErrorView>(e@),
            },
    {
        if !mail::parses(plain.as_slice()) {
            return Err(SecurityError::InnerNotMail);
        }
        match take_sender(mail::read_from_all(plain.as_slice())) {
            Ok(client) => Ok(
                MessageFile { client, info: None, file: octets::buffer_of(plain) },
            ),
            Err(e) => Err(e),
        }
    }
}

/// Identifiers of mails, each in angle brackets, with line breaks between them.
pub open spec fn reference_list(ids: Seq<Seq<char>>) -> Seq<char>
    decreases ids.len(),
{
    if ids.len() == 0 {
        seq![]
    } else if ids.len() == 1 {
        "<"@ + ids[0] + ">"@
    } else {
        reference_list(ids.drop_last()) + "\r\n <"@ + ids.last() + ">"@
    }
}

/// The header that says which mail is answered.
pub open spec fn answer_line(in_reply_to: Option<Seq<char>>) -> Seq<char> {
    match in_reply_to {
        Some(id) => "In-Reply-To: <"@ + id + ">\r\n"@,
        None => seq![],
    }
}

/// The header that says which mails are referred to.
pub open spec fn reference_lines(reference: Option<Seq<Seq<char>>>) -> Seq<char> {
    match reference {
        Some(ids) => "References: "@ + reference_list(ids) + "\r\n"@,
        None => seq![],
    }
}

/// A mail that holds an encrypted message, with the headers of the mail that was encrypted.
pub open spec fn envelope(
    info: MailInfoView,
    domain: Seq<char>,
    date: Seq<char>,
    name: Seq<char>,
    sealed: Seq<char>,
) -> Seq<char> {
    "From: <"@ + info.from + ">\r\nTo: <"@ + info.to + ">\r\nSubject: "@ + info.subject
        + "\r\nMIME-Version: 1.0\r\nDate: "@ + date + "\r\nMessage-ID: <"@ + name + "@"@ + domain
        + ">\r\n"@ + answer_line(info.in_reply_to) + reference_lines(info.reference)
        + "Content-Type: multipart/encrypted;\r\n"@
        + " protocol=\"application/pgp-encrypted\";\r\n"@
        + " boundary=\"mssh-pgp-boundary\"\r\n\r\n"@
        + "--mssh-pgp-boundary\r\n"@
        + "Content-Type: application/pgp-encrypted\r\n\r\n"@
        + "Version: 1\r\n\r\n"@
        + "--mssh-pgp-boundary\r\n"@
        + "Content-Type: application/octet-stream\r\n"@
        + "Content-Disposition: attachment; filename=\"m.asc\"\r\n"@
        + "\r\n"@
        + sealed + "\r\n--mssh-pgp-boundary--\r\n"@
}

/// The headers stand in the envelope as they are, each in its lines, and the encrypted message does
/// not hold what marks its end.
pub open spec fn is_plain_envelope(
    info: MailInfoView,
    domain: Seq<char>,
    date: Seq<char>,
    name: Seq<char>,
    sealed: Seq<char>,
) -> bool {
    &&& post::is_plain_address(info.from)
    &&& post::is_plain_address(info.to)
    &&& post::is_folded(info.subject)
    &&& forall|i: int| !#[trigger] post::may_encode(info.subject, i)
    &&& common::is_plain_thread(info)
    &&& common::domain_of(info.from) == Some(domain)
    &&& chance::is_date(date)
    &&& chance::is_unique_name(name)
    &&& text::find(sealed, "--mssh-pgp-boundary"@) is None
}

/// The bytes are an envelope around that encrypted message.
pub open spec fn is_envelope_of(raw: Seq<u8>, cipher: Seq<u8>) -> bool {
    exists|
        info: MailInfoView,
        domain: Seq<char>,
        date: Seq<char>,
        name: Seq<char>,
        sealed: Seq<char>,
    |
        {
            &&& raw == vstd::utf8::encode_utf8(
                #[trigger] envelope(info, domain, date, name, sealed),
            )
            &&& cipher == vstd::utf8::encode_utf8(sealed)
            &&& is_plain_envelope(info, domain, date, name, sealed)
        }
}

/// The bytes are an envelope.
pub open spec fn is_envelope(raw: Seq<u8>) -> bool {
    exists|cipher: Seq<u8>| #[trigger] is_envelope_of(raw, cipher)
}

/// Identifiers of mails, each in angle brackets, with line breaks between them.
fn write_references(ids: &Vec<String>) -> (r: String)
    ensures
        r@ == reference_list(text::texts(ids@)),
{
    let ghost all = text::texts(ids@);
    let mut r = String::new();
    let mut i: usize = 0;
    assert(r@ =~= reference_list(all.take(0)));
    while i < ids.len()
        invariant
            i <= ids@.len(),
            all == text::texts(ids@),
            r@ == reference_list(all.take(i as int)),
        decreases ids@.len() - i,
    {
        assert(all[i as int] == ids@[i as int]@);
        assert(all.take(i + 1).drop_last() =~= all.take(i as int));
        let ghost before = r@;
        if i == 0 {
            r.append("<");
            assert(r@ =~= "<"@);
        } else {
            r.append("\r\n <");
        }
        r.append(ids[i].as_str());
        r.append(">");
        i += 1;
    }
    assert(all.take(i as int) =~= all);
    r
}

/// Writes a mail that holds an encrypted message.
pub fn write_envelope(info: &MailInfo, domain: &str, date: &str, name: &str, sealed: &str) -> (r:
    String)
    ensures
        r@ == envelope(info@, domain@, date@, name@, sealed@),
{
    let mut b = "From: <".to_owned();
    b.append(info.from.as_str());
    b.append(">\r\nTo: <");
    b.append(info.to.as_str());
    b.append(">\r\nSubject: ");
    b.append(info.subject.as_str());
    b.append("\r\nMIME-Version: 1.0\r\nDate: ");
    b.append(date);
    b.append("\r\nMessage-ID: <");
    b.append(name);
    b.append("@");
    b.append(domain);
    b.append(">\r\n");
    let ghost before = b@;
    if let Some(id) = &info.in_reply_to {
        b.append("In-Reply-To: <");
        b.append(id.as_str());
        b.append(">\r\n");
    }
    assert(b@ =~= before + answer_line(info@.in_reply_to));
    let ghost before = b@;
    if let Some(ids) = &info.reference {
        b.append("References: ");
        b.append(write_references(ids).as_str());
        b.append("\r\n");
    }
    assert(b@ =~= before + reference_lines(info@.reference));
    b.append("Content-Type: multipart/encrypted;\r\n");
    b.append(" protocol=\"application/pgp-encrypted\";\r\n");
    b.append(" boundary=\"mssh-pgp-boundary\"\r\n\r\n");
    b.append("--mssh-pgp-boundary\r\n");
    b.append("Content-Type: application/pgp-encrypted\r\n\r\n");
    b.append("Version: 1\r\n\r\n");
    b.append("--mssh-pgp-boundary\r\n");
    b.append("Content-Type: application/octet-stream\r\n");
    b.append("Content-Disposition: attachment; filename=\"m.asc\"\r\n");
    b.append("\r\n");
    b.append(sealed);
    b.append("\r\n--mssh-pgp-boundary--\r\n");
    b
}

/// What becomes of a mail that goes out, given what came of sealing it, the date and the name that
/// its envelope gets. Where it was not sealed it goes out as it is, if such mails are let through.
pub open spec fn outgoing(
    pass_raw: bool,
    msg: MessageView,
    sealed: Result<Seq<u8>, PgpErrorView>,
    date: Seq<char>,
    name: Seq<char>,
) -> Result<MessageView, SecurityErrorView> {
    match sealed {
        Err(e) => if pass_raw {
            Ok(msg)
        } else {
            Err(SecurityErrorView::Encryption(e))
        },
        Ok(bytes) => if !vstd::utf8::valid_utf8(bytes) {
            Err(SecurityErrorView::NotText(text::utf8_fault(bytes)))
        } else {
            match common::domain_of((msg.info->0).from) {
                None => Err(SecurityErrorView::NoDomain),
                Some(domain) => Ok(
                    MessageView {
                        client: msg.client,
                        info: None,
                        file: vstd::utf8::encode_utf8(
                            envelope(
                                msg.info->0,
                                domain,
                                date,
                                name,
                                vstd::utf8::decode_utf8(bytes),
                            ),
                        ),
                    },
                ),
            }
        },
    }
}

/// What was sealed is armored.
pub open spec fn is_armored_or_failed(sealed: Result<Seq<u8>, PgpErrorView>) -> bool {
    sealed matches Ok(bytes) ==> pgp::is_armored(bytes)
}

/// What became of a mail that goes out.
pub open spec fn sent(r: Result<MessageFile, SecurityError>) -> Result<
    MessageView,
    SecurityErrorView,
> {
    match r {
        Ok(m) => Ok(m@),
        Err(e) => Err(e@),
    }
}

impl SecurityLayer {
    /// What becomes of a mail that goes out, given what came of sealing it, and the date and the
    /// name that its envelope gets.
    pub fn wrap(
        &self,
        msg: MessageFile,
        sealed: Result<Vec<u8>, PgpError>,
        date: &str,
        name: &str,
    ) -> (r: Result<MessageFile, SecurityError>)
        requires
            sealed is Ok ==> msg.info is Some,
        ensures
            sent(r) == outgoing(
                self@.pass_raw,
                msg@,
                opengpg_utils::outcome(sealed),
                date@,
                name@,
            ),
            r matches Err(SecurityError::Encryption(e)) ==> sealed == Err::<Vec<u8>, PgpError>(e),
    {
        let bytes = match sealed {
            Ok(b) => b,
            Err(e) => {
                if self.pass_raw {
                    return Ok(msg);
                }
                return Err(SecurityError::Encryption(e));
            },
        };
        let sealed = match text::strict_text(bytes) {
            Ok(s) => s,
            Err(e) => return Err(SecurityError::NotText(e)),
        };
        match &msg.info {
            Some(info) => match common::domain(info.from.as_str()) {
                Some(d) => {
                    let file = write_envelope(info, d.as_str(), date, name, sealed.as_str());
                    Ok(
                        MessageFile {
                            client: msg.client,
                            info: None,
                            file: octets::buffer_copy(file.as_str().as_bytes()),
                        },
                    )
                },
                None => Err(SecurityError::NoDomain),
            },
            None => Err(SecurityError::NoDomain),
        }
    }

    /// Encrypts a mail for its client, and puts it into an envelope. A mail that cannot be
    /// encrypted goes out as it is, if such mails are let through.
    pub fn encrypt(&self, msg: MessageFile) -> (r: Result<MessageFile, SecurityError>)
        requires
            forall|search: int, clock: int, chance: Seq<u8>|
                (#[trigger] opengpg_utils::encryption(
                    self@.helper,
                    msg@.file,
                    msg@.client,
                    search,
                    clock,
                    chance,
                )) is Ok ==> msg@.info is Some,
        ensures
            exists|
                search: int,
                clock: int,
                chance: Seq<u8>,
                date: Seq<char>,
                name: Seq<char>,
            |
                {
                    &&& chance::is_date(date)
                    &&& chance::is_unique_name(name)
                    &&& sent(r) == #[trigger] outgoing(
                        self@.pass_raw,
                        msg@,
                        #[trigger] opengpg_utils::encryption(
                            self@.helper,
                            msg@.file,
                            msg@.client,
                            search,
                            clock,
                            chance,
                        ),
                        date,
                        name,
                    )
                    &&& is_armored_or_failed(
                        opengpg_utils::encryption(
                            self@.helper,
                            msg@.file,
                            msg@.client,
                            search,
                            clock,
                            chance,
                        ),
                    )
                },
    {
        let ghost m = msg@;
        let ghost h = self@.helper;
        let sealed = self.h.encrypt_message(octets::slice_of(&msg.file), msg.client.clone());
        let ghost (search, clock, chance) = choose|search: int, clock: int, chance: Seq<u8>|
            opengpg_utils::outcome(sealed) == #[trigger] opengpg_utils::encryption(
                h,
                m.file,
                m.client,
                search,
                clock,
                chance,
            );
        let date = chance::date_now();
        let name = chance::unique_name();
        let r = self.wrap(msg, sealed, date.as_str(), name.as_str());
        assert(sent(r) == outgoing(
            self@.pass_raw,
            m,
            opengpg_utils::encryption(h, m.file, m.client, search, clock, chance),
            date@,
            name@,
        ));
        r
    }

    /// Encrypts a mail for its client, and puts it into an envelope, as `encrypt` does. There is
    /// nothing to send where a mail was encrypted that has no headers for its envelope.
    pub fn encrypt_any(&self, msg: MessageFile) -> (r: Option<Result<MessageFile, SecurityError>>)
        ensures
            exists|
                search: int,
                clock: int,
                chance: Seq<u8>,
                date: Seq<char>,
                name: Seq<char>,
            |
                {
                    let sealed = opengpg_utils::encryption(
                        self@.helper,
                        msg@.file,
                        msg@.client,
                        search,
                        clock,
                        chance,
                    );
                    &&& chance::is_date(date)
                    &&& chance::is_unique_name(name)
                    &&& is_armored_or_failed(sealed)
                    &&& r is None <==> sealed is Ok && msg@.info is None
                    &&& r matches Some(out) ==> sent(out) == #[trigger] outgoing(
                        self@.pass_raw,
                        msg@,
                        #[trigger] opengpg_utils::encryption(
                            self@.helper,
                            msg@.file,
                            msg@.client,
                            search,
                            clock,
                            chance,
                        ),
                        date,
                        name,
                    )
                },
    {
        let ghost m = msg@;
        let ghost h = self@.helper;
        if msg.info.is_some() {
            return Some(self.encrypt(msg));
        }
        let sealed = self.h.encrypt_message(octets::slice_of(&msg.file), msg.client.clone());
        let ghost (search, clock, chance) = choose|search: int, clock: int, chance: Seq<u8>|
            opengpg_utils::outcome(sealed) == #[trigger] opengpg_utils::encryption(
                h,
                m.file,
                m.client,
                search,
                clock,
                chance,
            );
        let date = chance::date_now();
        let name = chance::unique_name();
        let ghost what = outgoing(
            self@.pass_raw,
            m,
            opengpg_utils::encryption(h, m.file, m.client, search, clock, chance),
            date@,
            name@,
        );
        match sealed {
            Ok(_) => None,
            Err(e) => {
                let r = self.wrap(msg, Err(e), date.as_str(), name.as_str());
                assert(sent(r) == what);
                Some(r)
            },
        }
    }
}

/// A mail that was sealed goes out in an envelope, from which its receiver takes what was sealed.
/// Its addresses and its subject are such as stand in a header as they are, and the identifiers
/// that it names stay within the lines of a header.
pub proof fn lemma_sealed_mail_is_enveloped(
    pass_raw: bool,
    msg: MessageView,
    bytes: Seq<u8>,
    date: Seq<char>,
    name: Seq<char>,
)
    requires
        pgp::is_armored(bytes),
        chance::is_date(date),
        chance::is_unique_name(name),
        msg.info matches Some(info) && {
            &&& post::is_plain_address(info.from)
            &&& post::is_plain_address(info.to)
            &&& post::is_folded(info.subject)
            &&& forall|i: int| !#[trigger] post::may_encode(info.subject, i)
            &&& common::is_plain_thread(info)
            &&& common::domain_of(info.from) is Some
        },
    ensures
        outgoing(pass_raw, msg, Ok(bytes), date, name) matches Ok(out) && out.client == msg.client
            && is_envelope_of(out.file, bytes),
{
    let info = msg.info->0;
    let domain = common::domain_of(info.from)->0;
    let sealed = vstd::utf8::decode_utf8(bytes);
    let out = outgoing(pass_raw, msg, Ok(bytes), date, name)->Ok_0;
    vstd::utf8::decode_utf8_encode_utf8(bytes);
    let mark = "--mssh-pgp-boundary"@;
    reveal_strlit("--mssh-pgp-boundary");
    text::lemma_find_from(sealed, mark, 0);
    if text::find(sealed, mark) is Some {
        let k = text::find(sealed, mark)->0;
        assert(sealed.subrange(k, k + mark.len())[1] == sealed[k + 1]);
        assert(sealed.subrange(k, k + mark.len())[2] == sealed[k + 2]);
        pgp::lemma_armor(bytes, k + 1);
    }
    assert(out.file == vstd::utf8::encode_utf8(envelope(info, domain, date, name, sealed)));
    assert(is_plain_envelope(info, domain, date, name, sealed));
}

/// A mail as it was written, once it is opened, is taken to be from the one that wrote it.
pub proof fn lemma_written_mail_is_accepted(
    file: Seq<u8>,
    m: MailInfoView,
    body: Seq<char>,
    id: Seq<u8>,
    date: Seq<u8>,
)
    requires
        common::is_written_with(file, m, body, id, date),
        post::is_plain_head(common::headers_for(m)),
        post::is_byte_line(id),
    ensures
        opened(file) == Ok::<MessageView, SecurityErrorView>(
            MessageView { client: m.from, info: None, file },
        ),
{
    let from = mail::from_all_of(file)->0;
    assert(from.drop_last() =~= seq![]);
    reveal_with_fuel(named, 2);
    assert(named(from) =~= seq![m.from]);
}

/// A mail that was sealed comes back: its receiver takes from the envelope what was sealed, and
/// where opening that gives the mail again, takes it to be from the one address that it says it is
/// from.
pub proof fn lemma_sealed_mail_comes_back(
    pass_raw: bool,
    msg: MessageView,
    bytes: Seq<u8>,
    date: Seq<char>,
    name: Seq<char>,
    plain: Seq<u8>,
    sender: Seq<char>,
)
    requires
        pgp::is_armored(bytes),
        chance::is_date(date),
        chance::is_unique_name(name),
        msg.info matches Some(info) && {
            &&& post::is_plain_address(info.from)
            &&& post::is_plain_address(info.to)
            &&& post::is_folded(info.subject)
            &&& forall|i: int| !#[trigger] post::may_encode(info.subject, i)
            &&& common::is_plain_thread(info)
            &&& common::domain_of(info.from) is Some
        },
        plain == msg.file,
        mail::is_mail(msg.file),
        mail::from_all_of(msg.file) matches Some(from) && named(from) == seq![sender],
    ensures
        outgoing(pass_raw, msg, Ok(bytes), date, name) matches Ok(out) && is_envelope_of(
            out.file,
            bytes,
        ),
        opened(plain) == Ok::<MessageView, SecurityErrorView>(
            MessageView { client: sender, info: None, file: msg.file },
        ),
{
    lemma_sealed_mail_is_enveloped(pass_raw, msg, bytes, date, name);
}

/// Where mails that are not encrypted are not let through, none comes in as it is.
pub proof fn lemma_plain_is_refused(raw: Seq<u8>)
    ensures
        opening(raw, false) != Ok::<Option<Seq<u8>>, SecurityErrorView>(None),
{
}

/// Where mails that are not encrypted are not let through, none goes out as it is: a mail that
/// goes out is an envelope around what was encrypted.
pub proof fn lemma_nothing_leaves_unsealed(
    msg: MessageView,
    sealed: Result<Seq<u8>, PgpErrorView>,
    date: Seq<char>,
    name: Seq<char>,
)
    ensures
        outgoing(false, msg, sealed, date, name) is Ok ==> sealed is Ok,
{
}

/// Where mails that are not encrypted are let through, one that cannot be encrypted goes out
/// unchanged.
pub proof fn lemma_unsealed_is_unchanged(
    msg: MessageView,
    e: PgpErrorView,
    date: Seq<char>,
    name: Seq<char>,
)
    ensures
        outgoing(true, msg, Err(e), date, name) == Ok::<MessageView, SecurityErrorView>(msg),
{
}

/// A mail that is signed and not encrypted does not come in, whatever is let through.
pub proof fn lemma_signed_is_refused(raw: Seq<u8>, kind: KindView, pass_raw: bool)
    requires
        mail::is_mail(raw),
        mail::content_type_of(raw) == Some(kind),
        is_kind(kind, "multipart"@, "signed"@),
        mail::content_attribute_of(raw, "protocol"@) == Some("application/pgp-signature"@),
    ensures
        opening(raw, pass_raw) == Err::<Option<Seq<u8>>, SecurityErrorView>(
            SecurityErrorView::Signed,
        ),
{
    reveal_strlit("signed");
    reveal_strlit("encrypted");
    assert("signed"@.len() != "encrypted"@.len());
}

/// An encrypted mail is never let through as it is, whatever is let through.
pub proof fn lemma_encrypted_is_opened(raw: Seq<u8>, kind: KindView, pass_raw: bool)
    requires
        mail::is_mail(raw),
        mail::content_type_of(raw) == Some(kind),
        is_kind(kind, "multipart"@, "encrypted"@),
        mail::content_attribute_of(raw, "protocol"@) == Some("application/pgp-encrypted"@),
    ensures
        opening(raw, pass_raw) != Ok::<Option<Seq<u8>>, SecurityErrorView>(None),
{
}

/// The client of a mail that was encrypted is an address that the mail itself says it is from.
pub proof fn lemma_client_is_inner_sender(plain: Seq<u8>)
    requires
        opened(plain) is Ok,
    ensures
        mail::from_all_of(plain) is Some,
        (mail::from_all_of(plain)->0).contains(Some((opened(plain)->Ok_0).client)),
        forall|i: int|
            0 <= i < (mail::from_all_of(plain)->0).len() && #[trigger] (mail::from_all_of(
                plain,
            )->0)[i] is Some ==> (mail::from_all_of(plain)->0)[i] == Some(
                (opened(plain)->Ok_0).client,
            ),
        (opened(plain)->Ok_0).file == plain,
{
    lemma_named(mail::from_all_of(plain)->0);
}

/// The addresses of a list are those of its entries.
proof fn lemma_named(list: Seq<Option<Seq<char>>>)
    ensures
        forall|i: int|
            0 <= i < list.len() && #[trigger] list[i] is Some ==> named(list).contains(list[i]->0),
        forall|k: int| 0 <= k < named(list).len() ==> list.contains(Some(#[trigger] named(list)[k])),
    decreases list.len(),
{
    if list.len() > 0 {
        let rest = list.drop_last();
        lemma_named(rest);
        assert forall|i: int|
            0 <= i < list.len() && #[trigger] list[i] is Some implies named(list).contains(
            list[i]->0,
        ) by {
            if i < rest.len() {
                assert(rest[i] == list[i]);
                let k = choose|k: int| 0 <= k < named(rest).len() && named(rest)[k] == list[i]->0;
                assert(named(list)[k] == list[i]->0);
            } else {
                assert(named(list)[named(list).len() - 1] == list[i]->0);
            }
        }
        assert forall|k: int| 0 <= k < named(list).len() implies list.contains(
            Some(#[trigger] named(list)[k]),
        ) by {
            if k < named(rest).len() {
                let i = choose|i: int| 0 <= i < rest.len() && rest[i] == Some(named(rest)[k]);
                assert(list[i] == Some(named(list)[k]));
            } else {
                assert(list[list.len() - 1] == Some(named(list)[k]));
            }
        }
    }
}

/// The content type and the protocol are those of an encrypted mail.
pub open spec fn is_marked_encrypted(kind: KindView, protocol: Option<Seq<char>>) -> bool {
    kind.ctype == "multipart"@ && kind.subtype == Some("encrypted"@) && protocol == Some(
        "application/pgp-encrypted"@,
    )
}

/// The content type and the protocol are those of a signed mail.
pub open spec fn is_marked_signed(kind: KindView, protocol: Option<Seq<char>>) -> bool {
    kind.ctype == "multipart"@ && kind.subtype == Some("signed"@) && protocol == Some(
        "application/pgp-signature"@,
    )
}

/// A mail is opened just where it is marked as encrypted, and a signed one is refused, whatever is
/// let through; any other with a whole content type is let through just where such mails are.
pub proof fn lemma_marks_decide(kind: KindView, protocol: Option<Seq<char>>, pass_raw: bool)
    ensures
        ({
            let r = needs_opening(Some(kind), protocol, pass_raw);
            let encrypted = is_marked_encrypted(kind, protocol);
            let signed = is_marked_signed(kind, protocol);
            let whole = kind.subtype is Some;
            &&& r == Ok::<bool, SecurityErrorView>(true) <==> encrypted
            &&& r == Err::<bool, SecurityErrorView>(SecurityErrorView::Signed) <==> signed
            &&& r == Err::<bool, SecurityErrorView>(SecurityErrorView::NoSubtype) <==> !whole
            &&& r == Ok::<bool, SecurityErrorView>(false) <==> whole && !encrypted && !signed
                && pass_raw
            &&& r == Err::<bool, SecurityErrorView>(SecurityErrorView::NotEncrypted) <==> whole
                && !encrypted && !signed && !pass_raw
        }),
        needs_opening(None, protocol, pass_raw) == Err::<bool, SecurityErrorView>(
            SecurityErrorView::NoContentType,
        ),
{
    reveal_strlit("signed");
    reveal_strlit("encrypted");
    assert("signed"@.len() != "encrypted"@.len());
}

/// The attachment is of the type of an encrypted message, and none before it is.
pub open spec fn is_first_cipher(kinds: Seq<Option<KindView>>, i: int) -> bool {
    &&& 0 <= i < kinds.len()
    &&& kinds[i] == mail::kind("application"@, "octet-stream"@)
    &&& forall|j: int|
        0 <= j < i ==> #[trigger] kinds[j] != mail::kind("application"@, "octet-stream"@)
}

/// The first attachment of the type is the one that is taken.
proof fn lemma_first_cipher(kinds: Seq<Option<KindView>>, from: int, i: int)
    requires
        0 <= from <= i,
        is_first_cipher(kinds, i),
    ensures
        cipher_from(kinds, from) == Some(i),
    decreases i - from,
{
    if from < i {
        assert(kinds[from] != mail::kind("application"@, "octet-stream"@));
        if is_cipher(kinds[from]) {
            assert(kinds[from] == mail::kind("application"@, "octet-stream"@));
        }
        lemma_first_cipher(kinds, from + 1, i);
    }
}

/// Where no attachment is of the type, none is taken.
proof fn lemma_no_cipher(kinds: Seq<Option<KindView>>, from: int)
    requires
        0 <= from <= kinds.len(),
        forall|j: int|
            0 <= j < kinds.len() ==> #[trigger] kinds[j] != mail::kind(
                "application"@,
                "octet-stream"@,
            ),
    ensures
        cipher_from(kinds, from) is None,
    decreases kinds.len() - from,
{
    if from < kinds.len() {
        assert(kinds[from] != mail::kind("application"@, "octet-stream"@));
        if is_cipher(kinds[from]) {
            assert(kinds[from] == mail::kind("application"@, "octet-stream"@));
        }
        lemma_no_cipher(kinds, from + 1);
    }
}

/// What is taken of a mail that is marked as encrypted is the whole of the first attachment of the
/// type of an encrypted message, as text or as bytes; a mail without one, or with something else
/// in it, is refused.
pub proof fn lemma_cipher_is_taken(raw: Seq<u8>, kind: KindView, pass_raw: bool)
    requires
        mail::is_mail(raw),
        mail::content_type_of(raw) == Some(kind),
        is_marked_encrypted(kind, mail::content_attribute_of(raw, "protocol"@)),
    ensures
        ({
            let kinds = mail::attachment_types_of(raw);
            let r = opening(raw, pass_raw);
            &&& forall|i: int| #[trigger]
                is_first_cipher(kinds, i) ==> match mail::attachment_of(raw, i)->0 {
                    PartView::Binary(b) => r == Ok::<Option<Seq<u8>>, SecurityErrorView>(Some(b)),
                    PartView::Text(t) => r == Ok::<Option<Seq<u8>>, SecurityErrorView>(
                        Some(vstd::utf8::encode_utf8(t)),
                    ),
                    _ => r == Err::<Option<Seq<u8>>, SecurityErrorView>(
                        SecurityErrorView::UnsupportedPart,
                    ),
                }
            &&& (forall|i: int|
                0 <= i < kinds.len() ==> #[trigger] kinds[i] != mail::kind(
                    "application"@,
                    "octet-stream"@,
                )) ==> r == Err::<Option<Seq<u8>>, SecurityErrorView>(
                SecurityErrorView::NoEncryptedPart,
            )
        }),
{
    let kinds = mail::attachment_types_of(raw);
    lemma_marks_decide(kind, mail::content_attribute_of(raw, "protocol"@), pass_raw);
    assert forall|i: int| #[trigger] is_first_cipher(kinds, i) implies cipher_from(kinds, 0) == Some(
        i,
    ) by {
        lemma_first_cipher(kinds, 0, i);
    }
    if forall|i: int|
        0 <= i < kinds.len() ==> #[trigger] kinds[i] != mail::kind(
            "application"@,
            "octet-stream"@,
        ) {
        lemma_no_cipher(kinds, 0);
    }
}

/// A mail that is not marked as encrypted is never opened, and what is no mail is refused.
pub proof fn lemma_unmarked_is_not_opened(raw: Seq<u8>, pass_raw: bool)
    ensures
        ({
            let r = opening(raw, pass_raw);
            let kind = mail::content_type_of(raw);
            let protocol = mail::content_attribute_of(raw, "protocol"@);
            &&& r == Err::<Option<Seq<u8>>, SecurityErrorView>(SecurityErrorView::NotMail)
                <==> !mail::is_mail(raw)
            &&& r matches Ok(Some(_)) ==> kind is Some && is_marked_encrypted(kind->0, protocol)
            &&& r == Ok::<Option<Seq<u8>>, SecurityErrorView>(None) <==> mail::is_mail(raw)
                && pass_raw && kind is Some && (kind->0).subtype is Some && !is_marked_encrypted(
                kind->0,
                protocol,
            ) && !is_marked_signed(kind->0, protocol)
        }),
{
    let kind = mail::content_type_of(raw);
    let protocol = mail::content_attribute_of(raw, "protocol"@);
    if kind is Some {
        lemma_marks_decide(kind->0, protocol, pass_raw);
    } else {
        lemma_marks_decide(KindView { ctype: seq![], subtype: None }, protocol, pass_raw);
    }
}

/// The entry at that position is the address, and no other entry has one.
pub open spec fn is_sole(list: Seq<Option<Seq<char>>>, i: int, a: Seq<char>) -> bool {
    &&& 0 <= i < list.len()
    &&& list[i] == Some(a)
    &&& forall|j: int| 0 <= j < list.len() && j != i ==> #[trigger] list[j] is None
}

/// The sender of a mail that was encrypted is the address of the one entry that has one; where no
/// entry has one, or more than one has, there is none.
pub proof fn lemma_sender(list: Seq<Option<Seq<char>>>)
    ensures
        sender_of(None) == Err::<Seq<char>, SecurityErrorView>(SecurityErrorView::NoInnerFrom),
        forall|i: int, a: Seq<char>| #[trigger]
            is_sole(list, i, a) ==> sender_of(Some(list)) == Ok::<Seq<char>, SecurityErrorView>(a),
        sender_of(Some(list)) matches Ok(a) ==> exists|i: int| #[trigger] is_sole(list, i, a),
        sender_of(Some(list)) is Err ==> sender_of(Some(list)) == Err::<
            Seq<char>,
            SecurityErrorView,
        >(SecurityErrorView::InnerFromCount),
{
    assert forall|i: int, a: Seq<char>| #[trigger] is_sole(list, i, a) implies named(list) == seq![
        a,
    ] by {
        lemma_sole_is_named(list, i, a);
    }
    if named(list).len() == 1 {
        let i = lemma_named_is_sole(list);
        assert(sender_of(Some(list)) == Ok::<Seq<char>, SecurityErrorView>(named(list)[0]));
        assert(is_sole(list, i, sender_of(Some(list))->Ok_0));
    }
}

/// A list of which no entry has an address names none.
proof fn lemma_none_named(list: Seq<Option<Seq<char>>>)
    requires
        forall|j: int| 0 <= j < list.len() ==> #[trigger] list[j] is None,
    ensures
        named(list) == Seq::<Seq<char>>::empty(),
    decreases list.len(),
{
    if list.len() > 0 {
        let rest = list.drop_last();
        assert forall|j: int| 0 <= j < rest.len() implies #[trigger] rest[j] is None by {
            assert(rest[j] == list[j]);
        }
        lemma_none_named(rest);
        assert(list.last() is None);
    }
}

/// The one address of a list is the one that it names.
proof fn lemma_sole_is_named(list: Seq<Option<Seq<char>>>, i: int, a: Seq<char>)
    requires
        is_sole(list, i, a),
    ensures
        named(list) == seq![a],
    decreases list.len(),
{
    let rest = list.drop_last();
    let n = list.len() - 1;
    if i == n {
        assert forall|j: int| 0 <= j < rest.len() implies #[trigger] rest[j] is None by {
            assert(rest[j] == list[j]);
        }
        lemma_none_named(rest);
        assert(named(list) =~= seq![a]);
    } else {
        assert(list[n] is None);
        assert forall|j: int| 0 <= j < rest.len() && j != i implies #[trigger] rest[j] is None by {
            assert(rest[j] == list[j]);
        }
        lemma_sole_is_named(rest, i, a);
    }
}

/// A list that names one address has one entry with an address.
proof fn lemma_named_is_sole(list: Seq<Option<Seq<char>>>) -> (i: int)
    requires
        named(list).len() == 1,
    ensures
        is_sole(list, i, named(list)[0]),
    decreases list.len(),
{
    let rest = list.drop_last();
    let n = list.len() - 1;
    if list.last() is Some {
        lemma_named(rest);
        assert forall|j: int| 0 <= j < list.len() && j != n implies #[trigger] list[j] is None by {
            assert(rest[j] == list[j]);
            if rest[j] is Some {
                assert(named(rest).contains(rest[j]->0));
            }
        }
        n
    } else {
        let i = lemma_named_is_sole(rest);
        assert forall|j: int| 0 <= j < list.len() && j != i implies #[trigger] list[j] is None by {
            if j < n {
                assert(rest[j] == list[j]);
            }
        }
        i
    }
}

/// A mail that was opened is taken just as it is, from its own sender.
pub proof fn lemma_opened(plain: Seq<u8>)
    ensures
        !mail::is_mail(plain) <==> opened(plain) == Err::<MessageView, SecurityErrorView>(
            SecurityErrorView::InnerNotMail,
        ),
        opened(plain) matches Ok(m) ==> m.file == plain && m.info is None && (
        mail::from_all_of(plain) matches Some(list) && exists|i: int| #[trigger]
            is_sole(list, i, m.client)),
        mail::is_mail(plain) ==> (mail::from_all_of(plain) matches Some(list) ==> (forall|
            i: int,
            a: Seq<char>,
        | #[trigger]
            is_sole(list, i, a) ==> opened(plain) is Ok && (opened(plain)->Ok_0).client == a)),
        mail::is_mail(plain) && mail::from_all_of(plain) is None ==> opened(plain) == Err::<
            MessageView,
            SecurityErrorView,
        >(SecurityErrorView::NoInnerFrom),
{
    lemma_sender(
        match mail::from_all_of(plain) {
            Some(list) => list,
            None => seq![],
        },
    );
    if opened(plain) is Ok {
        let list = mail::from_all_of(plain)->0;
        let client = (opened(plain)->Ok_0).client;
        assert(sender_of(Some(list)) == Ok::<Seq<char>, SecurityErrorView>(client));
        let i = choose|i: int| #[trigger] is_sole(list, i, client);
        assert(is_sole(list, i, client));
    }
}

/// A mail goes out as it is only where it could not be sealed and such mails are let through; one
/// that was sealed goes out to the same client in an envelope around all that was sealed; and what
/// stands against it is said as it is.
pub proof fn lemma_outgoing(
    pass_raw: bool,
    msg: MessageView,
    sealed: Result<Seq<u8>, PgpErrorView>,
    date: Seq<char>,
    name: Seq<char>,
)
    ensures
        ({
            let r = outgoing(pass_raw, msg, sealed, date, name);
            &&& sealed matches Err(e) ==> r == if pass_raw {
                Ok::<MessageView, SecurityErrorView>(msg)
            } else {
                Err(SecurityErrorView::Encryption(e))
            }
            &&& sealed matches Ok(bytes) ==> (!vstd::utf8::valid_utf8(bytes) ==> r == Err::<
                MessageView,
                SecurityErrorView,
            >(SecurityErrorView::NotText(text::utf8_fault(bytes))))
            &&& sealed matches Ok(bytes) ==> (vstd::utf8::valid_utf8(bytes)
                && common::domain_of((msg.info->0).from) is None ==> r == Err::<
                MessageView,
                SecurityErrorView,
            >(SecurityErrorView::NoDomain))
            &&& sealed matches Ok(bytes) ==> (vstd::utf8::valid_utf8(bytes)
                && common::domain_of((msg.info->0).from) is Some ==> r is Ok
                && (r->Ok_0).client == msg.client && (r->Ok_0).info is None && (r->Ok_0).file
                == vstd::utf8::encode_utf8(
                envelope(
                    msg.info->0,
                    common::domain_of((msg.info->0).from)->0,
                    date,
                    name,
                    vstd::utf8::decode_utf8(bytes),
                ),
            ))
        }),
{
}

/// An identifier in angle brackets.
pub open spec fn bracketed(id: Seq<char>) -> Seq<char> {
    seq!['<'] + id + seq!['>']
}

/// The identifiers of mails are written one behind the other, each in angle brackets, with a line
/// break and a space between each two.
pub proof fn lemma_reference_list(ids: Seq<Seq<char>>)
    ensures
        reference_list(ids) == text::join(
            ids.map_values(|id: Seq<char>| bracketed(id)),
            seq!['\r', '\n', ' '],
        ),
    decreases ids.len(),
{
    reveal_strlit("<");
    reveal_strlit(">");
    reveal_strlit("\r\n <");
    assert("<"@ =~= seq!['<']);
    assert(">"@ =~= seq!['>']);
    assert("\r\n <"@ =~= seq!['\r', '\n', ' ', '<']);
    let f = |id: Seq<char>| bracketed(id);
    let all = ids.map_values(f);
    let sep = seq!['\r', '\n', ' '];
    if ids.len() == 1 {
        assert(all[0] =~= reference_list(ids));
    } else if ids.len() > 1 {
        let rest = ids.drop_last();
        lemma_reference_list(rest);
        assert(all.drop_last() =~= rest.map_values(f));
        lemma_join_last(all, sep);
        assert(reference_list(ids) =~= reference_list(rest) + sep + bracketed(ids.last()));
    }
}

/// The last of the pieces comes last.
proof fn lemma_join_last(pieces: Seq<Seq<char>>, sep: Seq<char>)
    requires
        pieces.len() > 1,
    ensures
        text::join(pieces, sep) == text::join(pieces.drop_last(), sep) + sep + pieces.last(),
    decreases pieces.len(),
{
    let rest = pieces.skip(1);
    if pieces.len() == 2 {
        assert(text::join(rest, sep) == pieces[1]);
        assert(pieces.drop_last().len() == 1);
    } else {
        lemma_join_last(rest, sep);
        assert(pieces.drop_last().skip(1) =~= rest.drop_last());
        assert(text::join(pieces, sep) =~= text::join(pieces.drop_last(), sep) + sep
            + pieces.last());
    }
}

/// An envelope is read from both ends: it begins with whom the mail is from, whom it is to and its
/// subject, and ends with all of what was sealed, between the empty line and the mark of the end;
/// in between it says the date and a name at the sender's domain, the mail that is answered just
/// where there is one, those that are referred to just where there is a list, and how it is made
/// up.
pub proof fn lemma_envelope(
    info: MailInfoView,
    domain: Seq<char>,
    date: Seq<char>,
    name: Seq<char>,
    sealed: Seq<char>,
)
    ensures
        ({
            let e = envelope(info, domain, date, name, sealed);
            let head = "From: <"@ + info.from + ">\r\nTo: <"@ + info.to + ">\r\nSubject: "@
                + info.subject + "\r\nMIME-Version: 1.0\r\nDate: "@ + date
                + "\r\nMessage-ID: <"@ + name + "@"@ + domain + ">\r\n"@;
            let answer = if info.in_reply_to is Some {
                "In-Reply-To: <"@ + info.in_reply_to->0 + ">\r\n"@
            } else {
                seq![]
            };
            let thread = if info.reference is Some {
                "References: "@ + text::join(
                    (info.reference->0).map_values(|id: Seq<char>| bracketed(id)),
                    seq!['\r', '\n', ' '],
                ) + "\r\n"@
            } else {
                seq![]
            };
            let makeup = "Content-Type: multipart/encrypted;\r\n"@
                + " protocol=\"application/pgp-encrypted\";\r\n"@
                + " boundary=\"mssh-pgp-boundary\"\r\n\r\n"@ + "--mssh-pgp-boundary\r\n"@
                + "Content-Type: application/pgp-encrypted\r\n\r\n"@ + "Version: 1\r\n\r\n"@
                + "--mssh-pgp-boundary\r\n"@ + "Content-Type: application/octet-stream\r\n"@
                + "Content-Disposition: attachment; filename=\"m.asc\"\r\n"@ + "\r\n"@;
            let end = sealed + "\r\n--mssh-pgp-boundary--\r\n"@;
            &&& e == head + answer + thread + makeup + end
            &&& head.is_prefix_of(e)
            &&& end.is_suffix_of(e)
            &&& e.len() == head.len() + answer.len() + thread.len() + makeup.len() + end.len()
        }),
{
    if info.reference is Some {
        lemma_reference_list(info.reference->0);
    }
    let e = envelope(info, domain, date, name, sealed);
    let head = "From: <"@ + info.from + ">\r\nTo: <"@ + info.to + ">\r\nSubject: "@ + info.subject
        + "\r\nMIME-Version: 1.0\r\nDate: "@ + date + "\r\nMessage-ID: <"@ + name + "@"@ + domain
        + ">\r\n"@;
    let answer = answer_line(info.in_reply_to);
    let thread = reference_lines(info.reference);
    let makeup = "Content-Type: multipart/encrypted;\r\n"@
        + " protocol=\"application/pgp-encrypted\";\r\n"@
        + " boundary=\"mssh-pgp-boundary\"\r\n\r\n"@ + "--mssh-pgp-boundary\r\n"@
        + "Content-Type: application/pgp-encrypted\r\n\r\n"@ + "Version: 1\r\n\r\n"@
        + "--mssh-pgp-boundary\r\n"@ + "Content-Type: application/octet-stream\r\n"@
        + "Content-Disposition: attachment; filename=\"m.asc\"\r\n"@ + "\r\n"@;
    let end = sealed + "\r\n--mssh-pgp-boundary--\r\n"@;
    assert(e =~= head + answer + thread + makeup + end);
    assert(head =~= e.subrange(0, head.len() as int));
    assert(end =~= e.subrange(e.len() - end.len(), e.len() as int));
}

/// What became of a mail is what was given back.
pub proof fn lemma_sent(r: Result<MessageFile, SecurityError>)
    ensures
        match r {
            Ok(m) => sent(r) == Ok::<MessageView, SecurityErrorView>(m@),
            Err(e) => sent(r) == Err::<MessageView, SecurityErrorView>(e@),
        },
        r matches Err(SecurityError::Encryption(e)) ==> sent(r) == Err::<
            MessageView,
            SecurityErrorView,
        >(SecurityErrorView::Encryption(e@)),
{
}

} // verus!
