//! Mails as mail_parser reads them.
use crate::security_layer;
use crate::text;
use mail_parser::{MessageParser, MimeHeaders, PartType};
use vstd::prelude::*;

verus! {

/// The body of one part of a mail.
pub enum PartBody {
    Text(String),
    Html(String),
    Binary(Vec<u8>),
    InlineBinary(Vec<u8>),
    Message,
    Multipart,
}

/// The body of one part of a mail, as a mathematical value.
pub enum PartView {
    Text(Seq<char>),
    Html(Seq<char>),
    Binary(Seq<u8>),
    InlineBinary(Seq<u8>),
    Message,
    Multipart,
}

impl View for PartBody {
    type V = PartView;

    open spec fn view(&self) -> PartView {
        match self {
            PartBody::Text(s) => PartView::Text(s@),
            PartBody::Html(s) => PartView::Html(s@),
            PartBody::Binary(b) => PartView::Binary(b@),
            PartBody::InlineBinary(b) => PartView::InlineBinary(b@),
            PartBody::Message => PartView::Message,
            PartBody::Multipart => PartView::Multipart,
        }
    }
}

/// A content type: its type and its subtype.
pub struct ContentKind {
    pub ctype: String,
    pub subtype: Option<String>,
}

/// A content type, as a mathematical value.
pub struct KindView {
    pub ctype: Seq<char>,
    pub subtype: Option<Seq<char>>,
}

impl View for ContentKind {
    type V = KindView;

    open spec fn view(&self) -> KindView {
        KindView { ctype: self.ctype@, subtype: text::opt_text(self.subtype) }
    }
}

/// What an optional content type says.
pub open spec fn opt_kind(k: Option<ContentKind>) -> Option<KindView> {
    match k {
        Some(t) => Some(t@),
        None => None,
    }
}

/// What an optional part holds.
pub open spec fn opt_part(p: Option<PartBody>) -> Option<PartView> {
    match p {
        Some(t) => Some(t@),
        None => None,
    }
}

/// The addresses of a header: of each entry the address, where it has one.
pub open spec fn addresses(v: Seq<Option<String>>) -> Seq<Option<Seq<char>>> {
    v.map_values(|a: Option<String>| text::opt_text(a))
}

/// The addresses of a header that may be missing.
pub open spec fn opt_addresses(v: Option<Vec<Option<String>>>) -> Option<Seq<Option<Seq<char>>>> {
    match v {
        Some(l) => Some(addresses(l@)),
        None => None,
    }
}

/// The content type of that type and subtype.
pub open spec fn kind(ctype: Seq<char>, subtype: Seq<char>) -> Option<KindView> {
    Some(KindView { ctype, subtype: Some(subtype) })
}

/// The content types of a sequence of parts.
pub open spec fn kinds(v: Seq<Option<ContentKind>>) -> Seq<Option<KindView>> {
    v.map_values(|k: Option<ContentKind>| opt_kind(k))
}

/// Whether mail_parser finds a mail in the bytes.
pub uninterp spec fn is_mail(raw: Seq<u8>) -> bool;

/// The subject of the mail.
pub uninterp spec fn subject_of(raw: Seq<u8>) -> Option<Seq<char>>;

/// The identifier of the mail.
pub uninterp spec fn message_id_of(raw: Seq<u8>) -> Option<Seq<char>>;

/// The date of the mail, in seconds.
pub uninterp spec fn date_of(raw: Seq<u8>) -> Option<i64>;

/// The addresses that the mail is from, where the header is a plain list.
pub uninterp spec fn from_list_of(raw: Seq<u8>) -> Option<Seq<Option<Seq<char>>>>;

/// The addresses that the mail is to, where the header is a plain list.
pub uninterp spec fn to_list_of(raw: Seq<u8>) -> Option<Seq<Option<Seq<char>>>>;

/// All addresses that the mail is from, those of groups included.
pub uninterp spec fn from_all_of(raw: Seq<u8>) -> Option<Seq<Option<Seq<char>>>>;

/// The mails that the mail refers to, where the header is a plain list of addresses.
pub uninterp spec fn references_of(raw: Seq<u8>) -> Option<Seq<Option<Seq<char>>>>;

/// The mails that the mail answers, where the header is a plain list of addresses.
pub uninterp spec fn in_reply_to_of(raw: Seq<u8>) -> Option<Seq<Option<Seq<char>>>>;

/// The parts that make up the text of the mail, by number.
pub uninterp spec fn text_parts_of(raw: Seq<u8>) -> Seq<u32>;

/// The part of that number.
pub uninterp spec fn part_of(raw: Seq<u8>, id: u32) -> Option<PartView>;

/// The content type of the mail.
pub uninterp spec fn content_type_of(raw: Seq<u8>) -> Option<KindView>;

/// The attribute of that name of the content type.
pub uninterp spec fn content_attribute_of(raw: Seq<u8>, name: Seq<char>) -> Option<Seq<char>>;

/// The content types of the attachments.
pub uninterp spec fn attachment_types_of(raw: Seq<u8>) -> Seq<Option<KindView>>;

/// The attachment at that position.
pub uninterp spec fn attachment_of(raw: Seq<u8>, i: int) -> Option<PartView>;

/// `MessageParser::parse`: whether the bytes are a mail. An envelope is one.
#[verifier::external_body]
pub(crate) fn parses(raw: &[u8]) -> (r: bool)
    ensures
        r == is_mail(raw@),
        security_layer::is_envelope(raw@) ==> r,
{
    MessageParser::default().parse(raw).is_some()
}

/// `Message::subject` of the mail in the bytes.
#[verifier::external_body]
pub(crate) fn read_subject(raw: &[u8]) -> (r: Option<String>)
    ensures
        text::opt_text(r) == subject_of(raw@),
{
    let mail = MessageParser::default().parse(raw)?;
    mail.subject().map(|s| s.to_string())
}

/// `Message::message_id` of the mail in the bytes.
#[verifier::external_body]
pub(crate) fn read_message_id(raw: &[u8]) -> (r: Option<String>)
    ensures
        text::opt_text(r) == message_id_of(raw@),
{
    let mail = MessageParser::default().parse(raw)?;
    mail.message_id().map(|s| s.to_string())
}

/// `Message::date` of the mail in the bytes, as seconds.
#[verifier::external_body]
pub(crate) fn read_date(raw: &[u8]) -> (r: Option<i64>)
    ensures
        r == date_of(raw@),
{
    let mail = MessageParser::default().parse(raw)?;
    mail.date().map(|d| d.to_timestamp())
}

/// `Message::from` of the mail in the bytes, where it is a plain list.
#[verifier::external_body]
pub(crate) fn read_from_list(raw: &[u8]) -> (r: Option<Vec<Option<String>>>)
    ensures
        opt_addresses(r) == from_list_of(raw@),
{
    let mail = MessageParser::default().parse(raw)?;
    let list = mail.from()?.as_list()?;
    Some(list.iter().map(|a| a.address().map(|s| s.to_string())).collect())
}

/// `Message::to` of the mail in the bytes, where it is a plain list.
#[verifier::external_body]
pub(crate) fn read_to_list(raw: &[u8]) -> (r: Option<Vec<Option<String>>>)
    ensures
        opt_addresses(r) == to_list_of(raw@),
{
    let mail = MessageParser::default().parse(raw)?;
    let list = mail.to()?.as_list()?;
    Some(list.iter().map(|a| a.address().map(|s| s.to_string())).collect())
}

/// `Message::from` of the mail in the bytes, with the addresses of groups.
#[verifier::external_body]
pub(crate) fn read_from_all(raw: &[u8]) -> (r: Option<Vec<Option<String>>>)
    ensures
        opt_addresses(r) == from_all_of(raw@),
{
    let mail = MessageParser::default().parse(raw)?;
    let all = mail.from()?.iter();
    Some(all.map(|a| a.address().map(|s| s.to_string())).collect())
}

/// `Message::references` of the mail in the bytes, where it is a plain list of addresses.
#[verifier::external_body]
pub(crate) fn read_references(raw: &[u8]) -> (r: Option<Vec<Option<String>>>)
    ensures
        opt_addresses(r) == references_of(raw@),
{
    let mail = MessageParser::default().parse(raw)?;
    let list = mail.references().as_address()?.as_list()?;
    Some(list.iter().map(|a| a.address().map(|s| s.to_string())).collect())
}

/// `Message::in_reply_to` of the mail in the bytes, where it is a plain list of addresses.
#[verifier::external_body]
pub(crate) fn read_in_reply_to(raw: &[u8]) -> (r: Option<Vec<Option<String>>>)
    ensures
        opt_addresses(r) == in_reply_to_of(raw@),
{
    let mail = MessageParser::default().parse(raw)?;
    let list = mail.in_reply_to().as_address()?.as_list()?;
    Some(list.iter().map(|a| a.address().map(|s| s.to_string())).collect())
}

/// `Message::text_body` of the mail in the bytes: the numbers of its text parts, none where there
/// is no mail.
#[verifier::external_body]
pub(crate) fn read_text_parts(raw: &[u8]) -> (r: Vec<u32>)
    ensures
        r@ == text_parts_of(raw@),
{
    let mail = MessageParser::default().parse(raw);
    mail.map(|m| m.text_body).unwrap_or_default()
}

/// `Message::part` of the mail in the bytes: what the part of that number holds.
#[verifier::external_body]
pub(crate) fn read_part(raw: &[u8], id: u32) -> (r: Option<PartBody>)
    ensures
        opt_part(r) == part_of(raw@, id),
{
    let mail = MessageParser::default().parse(raw)?;
    Some(match &mail.part(id)?.body {
        PartType::Text(s) => PartBody::Text(s.to_string()),
        PartType::Html(s) => PartBody::Html(s.to_string()),
        PartType::Binary(b) => PartBody::Binary(b.to_vec()),
        PartType::InlineBinary(b) => PartBody::InlineBinary(b.to_vec()),
        PartType::Message(_) => PartBody::Message,
        PartType::Multipart(_) => PartBody::Multipart,
    })
}

/// `MimeHeaders::content_type` of the mail in the bytes. That of an envelope is the one that is
/// written in it.
#[verifier::external_body]
pub(crate) fn read_content_type(raw: &[u8]) -> (r: Option<ContentKind>)
    ensures
        opt_kind(r) == content_type_of(raw@),
        security_layer::is_envelope(raw@) ==> opt_kind(r) == kind("multipart"@, "encrypted"@),
{
    let mail = MessageParser::default().parse(raw)?;
    let kind = mail.content_type()?;
    Some(ContentKind {
        ctype: kind.ctype().to_string(),
        subtype: kind.subtype().map(|s| s.to_string()),
    })
}

/// `ContentType::attribute` of the content type of the mail in the bytes. The protocol of an
/// envelope is the one that is written in it.
#[verifier::external_body]
pub(crate) fn read_content_attribute(raw: &[u8], name: &str) -> (r: Option<String>)
    ensures
        text::opt_text(r) == content_attribute_of(raw@, name@),
        security_layer::is_envelope(raw@) && name@ == "protocol"@ ==> text::opt_text(r) == Some(
            "application/pgp-encrypted"@,
        ),
{
    let mail = MessageParser::default().parse(raw)?;
    mail.content_type()?.attribute(name).map(|s| s.to_string())
}

/// `Message::attachments` of the mail in the bytes: the content type of each, none where there is
/// no mail. An envelope has two, a version and an encrypted message.
#[verifier::external_body]
pub(crate) fn read_attachment_types(raw: &[u8]) -> (r: Vec<Option<ContentKind>>)
    ensures
        kinds(r@) == attachment_types_of(raw@),
        security_layer::is_envelope(raw@) ==> kinds(r@) == seq![
            kind("application"@, "pgp-encrypted"@),
            kind("application"@, "octet-stream"@),
        ],
{
    let mail = MessageParser::default().parse(raw);
    mail.map(|m| m.attachments().map(|part| part.content_type().map(|kind| ContentKind {
        ctype: kind.ctype().to_string(),
        subtype: kind.subtype().map(|s| s.to_string()),
    })).collect()).unwrap_or_default()
}

/// `Message::attachments` of the mail in the bytes: what the one at that position holds. There is
/// one at each position for which `read_attachment_types` gives a content type. The second of an
/// envelope is what stands between the empty line behind its headers and the line break before the
/// mark of its end.
#[verifier::external_body]
pub(crate) fn read_attachment(raw: &[u8], i: usize) -> (r: Option<PartBody>)
    ensures
        opt_part(r) == attachment_of(raw@, i as int),
        i < attachment_types_of(raw@).len() ==> r is Some,
        forall|cipher: Seq<u8>|
            i == 1 && #[trigger] security_layer::is_envelope_of(raw@, cipher) ==> opt_part(r)
                == Some(PartView::Binary(cipher)),
{
    let mail = MessageParser::default().parse(raw)?;
    let part = mail.attachments().nth(i)?;
    Some(match &part.body {
        PartType::Text(s) => PartBody::Text(s.to_string()),
        PartType::Html(s) => PartBody::Html(s.to_string()),
        PartType::Binary(b) => PartBody::Binary(b.to_vec()),
        PartType::InlineBinary(b) => PartBody::InlineBinary(b.to_vec()),
        PartType::Message(_) => PartBody::Message,
        PartType::Multipart(_) => PartBody::Multipart,
    })
}

} // verus!
