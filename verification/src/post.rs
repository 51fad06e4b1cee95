//! Mails as mail_builder puts them together and writes them.
use crate::mail;
use crate::mail::PartView;
use crate::text;
use mail_builder::MessageBuilder;
use vstd::prelude::*;

verus! {

/// `mail_builder::MessageBuilder`, a mail that is being put together: a collection of headers, in
/// the order in which they were set, and a text.
#[verifier::external_type_specification]
#[verifier::external_body]
pub struct ExMessageBuilder<'x>(mail_builder::MessageBuilder<'x>);

/// `std::io::Error`.
#[verifier::external_type_specification]
#[verifier::external_body]
pub struct ExIoError(std::io::Error);

/// A header of a mail that is being put together.
pub enum HeaderView {
    To(Seq<char>),
    From(Seq<char>),
    Subject(Seq<char>),
    InReplyTo(Seq<char>),
    References(Seq<Seq<char>>),
    /// Any other header, or one of those with another kind of value.
    Other,
}

/// The headers that were set, in order.
pub uninterp spec fn headers_of(b: MessageBuilder<'static>) -> Seq<HeaderView>;

/// The body of a mail that is being put together.
pub enum BodyView {
    /// None was set.
    Nothing,
    /// A text, and nothing else.
    Text(Seq<char>),
    /// Anything else.
    Other,
}

/// The body that was set.
pub uninterp spec fn body_of(b: MessageBuilder<'static>) -> BodyView;

/// The headers as they are written, one after the other.
pub uninterp spec fn header_lines(headers: Seq<HeaderView>) -> Seq<u8>;

/// A text as it is written: its own headers, an empty line, and the text in the encoding chosen.
pub uninterp spec fn text_part(text: Seq<char>) -> Seq<u8>;

/// A mail as it is written: its headers, an identifier, a date, and its text.
pub open spec fn written_mail(head: Seq<u8>, id: Seq<u8>, date: Seq<u8>, part: Seq<u8>) -> Seq<u8> {
    head + vstd::utf8::encode_utf8("Message-ID: "@) + id + vstd::utf8::encode_utf8("\r\nDate: "@)
        + date + vstd::utf8::encode_utf8("\r\nMIME-Version: 1.0\r\n"@) + part
}

/// The lines that say whom a mail is to and whom it is from.
pub open spec fn address_lines(to: Seq<char>, from: Seq<char>) -> Seq<u8> {
    vstd::utf8::encode_utf8("To: <"@ + to + ">\r\nFrom: <"@ + from + ">\r\n"@)
}

/// Where the first two headers say whom the mail is to and whom it is from, what is written
/// begins with those lines.
pub open spec fn begins_addressed(headers: Seq<HeaderView>, out: Seq<u8>) -> bool {
    headers.len() >= 2 ==> (headers[0] matches HeaderView::To(to) ==> (
    headers[1] matches HeaderView::From(from) ==> address_lines(to, from).is_prefix_of(out)))
}

/// Behind that position stands the mark of the encoding of a word.
pub open spec fn has_mark(s: Seq<char>, i: int) -> bool {
    exists|j: int|
        {
            &&& i < j < s.len() - 2
            &&& #[trigger] s[j] == '?'
            &&& s[j + 1] == 'b' || s[j + 1] == 'B' || s[j + 1] == 'q' || s[j + 1] == 'Q'
            &&& s[j + 2] == '?'
        }
}

/// An encoded word may begin at that position.
pub open spec fn may_encode(s: Seq<char>, i: int) -> bool {
    0 <= i < s.len() - 1 && s[i] == '=' && s[i + 1] == '?' && has_mark(s, i)
}

/// White space within a header.
pub open spec fn is_blank(c: char) -> bool {
    c == ' ' || c == '\t' || c == '\r'
}

/// An address that stands in angle brackets as it is: no white space at its ends, none of the
/// characters that have a meaning there, and no beginning of an encoded word but behind another
/// character.
pub open spec fn is_plain_address(a: Seq<char>) -> bool {
    &&& a.len() > 0
    &&& !is_blank(a[0])
    &&& !is_blank(a.last())
    &&& forall|i: int|
        0 <= i < a.len() ==> #[trigger] a[i] != '\n' && a[i] != '>' && a[i] != '(' && a[i] != '\\'
    &&& forall|i: int| #[trigger] may_encode(a, i) ==> i > 0 && !is_blank(a[i - 1])
}

/// A subject that stands in a header as it is: one short line of printable ASCII, with no space at
/// its ends and no beginning of an encoded word.
pub open spec fn is_plain_subject(s: Seq<char>) -> bool {
    &&& 0 < s.len() <= 60
    &&& forall|i: int| 0 <= i < s.len() ==> ' ' <= #[trigger] s[i] <= '~'
    &&& s[0] != ' '
    &&& s.last() != ' '
    &&& forall|i: int| !#[trigger] may_encode(s, i)
}

/// One line, or several of which each but the first begins with a space or a tab, as a header goes
/// on over lines.
pub open spec fn is_folded(s: Seq<char>) -> bool {
    forall|i: int|
        0 <= i < s.len() && #[trigger] s[i] == '\n' ==> i + 1 < s.len() && (s[i + 1] == ' ' || s[i
            + 1] == '\t')
}

/// One line of bytes.
pub open spec fn is_byte_line(s: Seq<u8>) -> bool {
    forall|i: int| 0 <= i < s.len() ==> #[trigger] s[i] != 10
}

/// A header that names other mails, within its lines.
pub open spec fn is_thread_header(h: HeaderView) -> bool {
    match h {
        HeaderView::InReplyTo(id) => is_folded(id),
        HeaderView::References(ids) => forall|i: int|
            0 <= i < ids.len() ==> is_folded(#[trigger] ids[i]),
        _ => false,
    }
}

/// Headers that stand in a mail as they are: a receiver, a sender, a subject, and then none but
/// those that name other mails.
pub open spec fn is_plain_head(headers: Seq<HeaderView>) -> bool {
    &&& headers.len() >= 3
    &&& headers[0] matches HeaderView::To(to) && is_plain_address(to)
    &&& headers[1] matches HeaderView::From(from) && is_plain_address(from)
    &&& headers[2] matches HeaderView::Subject(subject) && is_plain_subject(subject)
    &&& forall|i: int| 3 <= i < headers.len() ==> is_thread_header(#[trigger] headers[i])
}

/// A text that stands in a mail as it is: printable ASCII in short lines, with no space at the end
/// of one.
pub open spec fn is_plain_text(t: Seq<char>) -> bool {
    &&& forall|i: int|
        0 <= i < t.len() ==> {
            ||| ' ' < #[trigger] t[i] <= '~'
            ||| t[i] == ' ' && i + 1 < t.len() && t[i + 1] != '\r'
            ||| t[i] == '\r' && i + 1 < t.len() && t[i + 1] == '\n'
            ||| t[i] == '\n' && 0 < i && t[i - 1] == '\r'
        }
    &&& forall|i: int| 0 <= i && i + 77 <= t.len() ==> #[trigger] t.subrange(i, i + 77).contains('\n')
}

/// mail_parser reads the receiver, the sender and the subject that were set, and a text: the one
/// that was set, where that stands in the mail as it is.
pub open spec fn reads_back(headers: Seq<HeaderView>, text: Seq<char>, out: Seq<u8>) -> bool {
    &&& mail::is_mail(out)
    &&& mail::to_list_of(out) == Some(seq![Some(headers[0]->To_0)])
    &&& mail::from_list_of(out) == Some(seq![Some(headers[1]->From_0)])
    &&& mail::from_all_of(out) == Some(seq![Some(headers[1]->From_0)])
    &&& mail::subject_of(out) == Some(headers[2]->Subject_0)
    &&& mail::text_parts_of(out).len() > 0
    &&& mail::part_of(out, mail::text_parts_of(out)[0]) matches Some(PartView::Text(t)) && (
    is_plain_text(text) ==> t == text)
}

/// `MessageBuilder::new`: a mail without headers and without a body.
#[verifier::external_body]
pub(crate) fn builder() -> (r: MessageBuilder<'static>)
    ensures
        headers_of(r) == Seq::<HeaderView>::empty(),
        body_of(r) is Nothing,
{
    MessageBuilder::new()
}

/// `MessageBuilder::to` with one address: one more header.
#[verifier::external_body]
pub(crate) fn with_to(b: MessageBuilder<'static>, address: String) -> (r: MessageBuilder<'static>)
    ensures
        headers_of(r) == headers_of(b).push(HeaderView::To(address@)),
        body_of(r) == body_of(b),
{
    b.to(address)
}

/// `MessageBuilder::from` with one address: one more header.
#[verifier::external_body]
pub(crate) fn with_from(b: MessageBuilder<'static>, address: String) -> (r: MessageBuilder<'static>)
    ensures
        headers_of(r) == headers_of(b).push(HeaderView::From(address@)),
        body_of(r) == body_of(b),
{
    b.from(address)
}

/// `MessageBuilder::subject`: one more header.
#[verifier::external_body]
pub(crate) fn with_subject(b: MessageBuilder<'static>, subject: String) -> (r: MessageBuilder<
    'static,
>)
    ensures
        headers_of(r) == headers_of(b).push(HeaderView::Subject(subject@)),
        body_of(r) == body_of(b),
{
    b.subject(subject)
}

/// `MessageBuilder::in_reply_to` with one identifier: one more header.
#[verifier::external_body]
pub(crate) fn with_in_reply_to(b: MessageBuilder<'static>, id: String) -> (r: MessageBuilder<
    'static,
>)
    ensures
        headers_of(r) == headers_of(b).push(HeaderView::InReplyTo(id@)),
        body_of(r) == body_of(b),
{
    b.in_reply_to(id)
}

/// `MessageBuilder::references`: one more header.
#[verifier::external_body]
pub(crate) fn with_references(b: MessageBuilder<'static>, ids: Vec<String>) -> (r: MessageBuilder<
    'static,
>)
    ensures
        headers_of(r) == headers_of(b).push(HeaderView::References(text::texts(ids@))),
        body_of(r) == body_of(b),
{
    b.references(ids)
}

/// `MessageBuilder::text_body` on a mail without a body: the text is the body.
#[verifier::external_body]
pub(crate) fn with_text(b: MessageBuilder<'static>, body: String) -> (r: MessageBuilder<'static>)
    ensures
        headers_of(r) == headers_of(b),
        body_of(b) is Nothing ==> body_of(r) == BodyView::Text(body@),
{
    b.text_body(body)
}

/// `MessageBuilder::write_to` into a vector, which takes whatever is written: the mail with an
/// identifier and a date that the builder adds. Nothing is said of those two. Where the headers
/// stand in the mail as they are, and the identifier, which holds the name of the machine, is one
/// line, mail_parser reads back what was set.
#[verifier::external_body]
pub(crate) fn write_mail(b: MessageBuilder<'static>) -> (r: Result<Vec<u8>, std::io::Error>)
    requires
        body_of(b) is Text,
        forall|i: int| 0 <= i < headers_of(b).len() ==> !(#[trigger] headers_of(b)[i] is Other),
    ensures
        match r {
            Ok(out) => {
                &&& begins_addressed(headers_of(b), out@)
                &&& exists|id: Seq<u8>, date: Seq<u8>|
                    {
                        &&& out@ == #[trigger] written_mail(
                            header_lines(headers_of(b)),
                            id,
                            date,
                            text_part(body_of(b)->Text_0),
                        )
                        &&& is_plain_head(headers_of(b)) && is_byte_line(id) ==> reads_back(
                            headers_of(b),
                            body_of(b)->Text_0,
                            out@,
                        )
                    }
            },
            Err(_) => false,
        },
{
    let mut out = Vec::new();
    b.write_to(&mut out).map(|_| out)
}

} // verus!
