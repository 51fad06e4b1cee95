use bytes::Bytes;
use mssh::common::{
    compact_u32, domain, AddressError, MailError, MailFields, MailInfo,
};
use mssh::mail::PartBody;
use mssh::subject::read_subject;

fn address(list: &[&str]) -> Option<Vec<Option<String>>> {
    Some(list.iter().map(|s| Some(s.to_string())).collect())
}

fn fields(subject: &str) -> MailFields {
    MailFields {
        body: Some(Some(PartBody::Text("Hello".to_string()))),
        from: address(&["alice@example.org"]),
        to: address(&["server@example.net"]),
        subject: Some(subject.to_string()),
        message_id: Some("m1@example.org".to_string()),
        references: address(&["r1@example.org", "r2@example.org"]),
        in_reply_to: address(&["r2@example.org", "r1@example.org"]),
        date: Some(1704067200),
    }
}

fn error_of(f: MailFields) -> MailError {
    MailInfo::from_fields(f, 0).err().unwrap()
}

fn raw(headers: &str, body: &str) -> Bytes {
    Bytes::from(format!("{}\r\n{}", headers, body).into_bytes())
}

const HEADERS: &str = "From: Alice <alice@example.org>\r\n\
To: <server@example.net>\r\n\
Subject: hi /#work term -l/ bye\r\n\
Message-ID: <m1@example.org>\r\n\
Date: Mon, 01 Jan 2024 00:00:00 +0000\r\n\
Content-Type: text/plain; charset=utf-8\r\n";

#[test]
fn compact_numbers() {
    assert_eq!(compact_u32(0), "&&&&&");
    assert_eq!(compact_u32(9), "&&&&%");
    assert_eq!(compact_u32(84), "&&&&z");
    assert_eq!(compact_u32(85), "&&&'&");
    assert_eq!(compact_u32(1234567890), "=]>L0");
    assert_eq!(compact_u32(u32::MAX), "x=\\2&");
}

#[test]
fn compact_numbers_are_plain_and_differ() {
    let numbers = [0u32, 1, 9, 10, 84, 85, 7225, 614125, 52200625, 4000000000, u32::MAX];
    for (i, n) in numbers.iter().enumerate() {
        let s = compact_u32(*n);
        assert_eq!(s.chars().count(), 5);
        assert!(s.chars().all(|c| ('%'..='z').contains(&c) && c != '/' && c != '#'));
        for m in &numbers[i + 1..] {
            assert_ne!(s, compact_u32(*m));
        }
    }
}

#[test]
fn subject_with_an_id() {
    let s = read_subject("Re: hello/ #work  subs  ls -l /rest".to_string(), "fresh").unwrap();
    assert_eq!(s.subject, "Re: hello/ #work  subs  ls -l /rest");
    assert_eq!(s.flow_id, "work");
    assert_eq!(s.typ.as_deref(), Some("subs"));
    assert_eq!(s.args, "ls -l");
}

#[test]
fn subject_without_an_id_gets_the_fresh_one() {
    let s = read_subject("a/echo x y/b".to_string(), "fresh").unwrap();
    assert_eq!(s.subject, "a/#fresh echo x y/b");
    assert_eq!(s.flow_id, "fresh");
    assert_eq!(s.typ.as_deref(), Some("echo"));
    assert_eq!(s.args, "x y");
}

#[test]
fn subject_with_the_id_behind_the_type() {
    let s = read_subject("a/term #x#y left #z/b".to_string(), "fresh").unwrap();
    assert_eq!(s.flow_id, "xy");
    assert_eq!(s.typ.as_deref(), Some("term"));
    assert_eq!(s.args, "left #z");
}

#[test]
fn subject_with_an_empty_middle() {
    let s = read_subject("a//b".to_string(), "fresh").unwrap();
    assert_eq!(s.subject, "a/#fresh /b");
    assert_eq!(s.typ, None);
    assert_eq!(s.args, "");
}

#[test]
fn subject_takes_out_the_type_where_it_first_stands() {
    let s = read_subject("a/#id ab b/c".to_string(), "fresh").unwrap();
    assert_eq!(s.typ.as_deref(), Some("ab"));
    assert_eq!(s.args, "b");
    let s = read_subject("a/b#x b #y/c".to_string(), "fresh").unwrap();
    assert_eq!(s.flow_id, "y");
    assert_eq!(s.typ.as_deref(), Some("b#x"));
    assert_eq!(s.args, "b");
}

#[test]
fn subject_has_three_parts() {
    assert!(read_subject("plain".to_string(), "f").is_none());
    assert!(read_subject("a/b".to_string(), "f").is_none());
    assert!(read_subject("a/b/c/d".to_string(), "f").is_none());
    assert!(read_subject("//".to_string(), "f").is_some());
}

#[test]
fn session_is_kept_when_the_subject_comes_back() {
    for subject in ["a/echo x/b", "/subs bin\\ls -la/", "x/\t term /y", "a//b", "a/#id echo/b"] {
        let id = compact_u32(123456);
        let first = read_subject(subject.to_string(), &id).unwrap();
        let again = read_subject(first.subject.clone(), "other").unwrap();
        assert_eq!(again.subject, first.subject);
        assert_eq!(again.flow_id, first.flow_id);
        assert_eq!(again.typ, first.typ);
        assert_eq!(again.args, first.args);
        let answer = read_subject(format!("Re: {}", first.subject), "other").unwrap();
        assert_eq!(answer.subject, format!("Re: {}", first.subject));
        assert_eq!(answer.flow_id, first.flow_id);
        assert_eq!(answer.typ, first.typ);
        assert_eq!(answer.args, first.args);
    }
}

#[test]
fn id_does_not_depend_on_the_fresh_one() {
    let a = read_subject("a/#id echo/b".to_string(), "one").unwrap();
    let b = read_subject("a/#id echo/b".to_string(), "two").unwrap();
    assert_eq!(a.flow_id, "id");
    assert_eq!(b.flow_id, "id");
    assert_eq!(a.subject, b.subject);
}

#[test]
fn session_names_are_plain() {
    let s = read_subject("a/##x##/b".to_string(), "f").unwrap();
    assert_eq!(s.flow_id, "x");
    let s = read_subject("a/#/b".to_string(), "f").unwrap();
    assert_eq!(s.flow_id, "");
}

#[test]
fn fields_make_a_mail() {
    let (body, info) = MailInfo::from_fields(fields("a/echo x/b"), 9).unwrap();
    assert_eq!(body.as_ref(), b"Hello");
    assert_eq!(info.from, "alice@example.org");
    assert_eq!(info.to, "server@example.net");
    assert_eq!(info.subject, "a/#&&&&% echo x/b");
    assert_eq!(info.message_id.as_deref(), Some("m1@example.org"));
    let references = vec!["r1@example.org".to_string(), "r2@example.org".to_string()];
    assert_eq!(info.reference, Some(references));
    assert_eq!(info.in_reply_to.as_deref(), Some("r2@example.org"));
    assert_eq!(info.flow_id.as_deref(), Some("&&&&%"));
    assert_eq!(info.typ.as_deref(), Some("echo"));
    assert_eq!(info.args.as_deref(), Some("x"));
    assert_eq!(info.date, Some(1704067200));
}

#[test]
fn references_need_an_address_each() {
    let mut f = fields("a/b/c");
    f.references = Some(vec![Some("r1".to_string()), None]);
    f.in_reply_to = Some(vec![None, Some("r1".to_string())]);
    let (_, info) = MailInfo::from_fields(f, 0).unwrap();
    assert_eq!(info.reference, None);
    assert_eq!(info.in_reply_to, None);
    let mut f = fields("a/b/c");
    f.references = None;
    f.in_reply_to = Some(Vec::new());
    let (_, info) = MailInfo::from_fields(f, 0).unwrap();
    assert_eq!(info.reference, None);
    assert_eq!(info.in_reply_to, None);
}

#[test]
fn each_missing_field_is_an_error() {
    let mut f = fields("a/b/c");
    f.body = None;
    assert_eq!(error_of(f), MailError::NoTextBody);
    let mut f = fields("a/b/c");
    f.body = Some(None);
    assert_eq!(error_of(f), MailError::BodyMissing);
    let mut f = fields("a/b/c");
    f.body = Some(Some(PartBody::Html("<p>".to_string())));
    assert_eq!(error_of(f), MailError::UnexpectedBody);
    let mut f = fields("a/b/c");
    f.from = None;
    assert_eq!(error_of(f), MailError::From(AddressError::Missing));
    let mut f = fields("a/b/c");
    f.from = address(&["a", "b"]);
    assert_eq!(error_of(f), MailError::From(AddressError::Count(2)));
    let mut f = fields("a/b/c");
    f.from = Some(vec![None]);
    assert_eq!(error_of(f), MailError::From(AddressError::Nameless));
    let mut f = fields("a/b/c");
    f.to = None;
    assert_eq!(error_of(f), MailError::To(AddressError::Missing));
    let mut f = fields("a/b/c");
    f.to = address(&[]);
    assert_eq!(error_of(f), MailError::To(AddressError::Count(0)));
    let mut f = fields("a/b/c");
    f.to = Some(vec![None]);
    assert_eq!(error_of(f), MailError::To(AddressError::Nameless));
    let mut f = fields("a/b/c");
    f.subject = None;
    assert_eq!(error_of(f), MailError::NoSubject);
    assert_eq!(error_of(fields("plain")), MailError::SubjectFormat);
}

#[test]
fn errors_say_what_is_wrong() {
    assert_eq!(MailError::NotMail.message(), "Failed to parse email message");
    assert_eq!(MailError::NoTextBody.message(), "No text body part");
    assert_eq!(MailError::BodyMissing.message(), "Failed to extract body");
    assert_eq!(MailError::UnexpectedBody.message(), "Unexpected body part type");
    let e = MailError::From(AddressError::Missing);
    assert_eq!(e.message(), "Failed to parse client emails");
    let e = MailError::From(AddressError::Count(1204));
    assert_eq!(e.message(), "Found 1204 adresses in From");
    let e = MailError::From(AddressError::Nameless);
    assert_eq!(e.message(), "Failed to extract client email");
    let e = MailError::To(AddressError::Missing);
    assert_eq!(e.message(), "Failed to parse server emails");
    let e = MailError::To(AddressError::Count(0));
    assert_eq!(e.message(), "Found 0 adresses in To");
    let e = MailError::To(AddressError::Nameless);
    assert_eq!(e.message(), "Failed to extract server email");
    assert_eq!(MailError::NoSubject.message(), "Subject not found");
    assert_eq!(MailError::SubjectFormat.message(), "Subject format is invalid");
    assert_eq!(MailError::Write.message(), "Failed to write email message");
}

#[test]
fn bytes_make_a_mail() {
    let (body, info) = MailInfo::from_bytes(raw(HEADERS, "ls -l\r\n")).unwrap();
    assert_eq!(body.as_ref(), b"ls -l\r\n");
    assert_eq!(info.from, "alice@example.org");
    assert_eq!(info.to, "server@example.net");
    assert_eq!(info.subject, "hi /#work term -l/ bye");
    assert_eq!(info.message_id.as_deref(), Some("m1@example.org"));
    assert_eq!(info.flow_id.as_deref(), Some("work"));
    assert_eq!(info.typ.as_deref(), Some("term"));
    assert_eq!(info.args.as_deref(), Some("-l"));
    assert_eq!(info.date, Some(1704067200));
}

#[test]
fn bytes_that_name_no_session_begin_one() {
    let headers = HEADERS.replace("#work ", "");
    let (_, info) = MailInfo::from_bytes(raw(&headers, "x")).unwrap();
    let id = info.flow_id.unwrap();
    assert_eq!(id.chars().count(), 5);
    assert_eq!(info.subject, format!("hi /#{} term -l/ bye", id));
}

#[test]
fn bytes_that_are_no_mail() {
    assert_eq!(MailInfo::from_bytes(Bytes::new()).err(), Some(MailError::NotMail));
}

#[test]
fn bytes_with_two_senders() {
    let headers = HEADERS.replace("From: Alice <alice@example.org>", "From: a@x.org, b@x.org");
    let r = MailInfo::from_bytes(raw(&headers, "x"));
    assert_eq!(r.err(), Some(MailError::From(AddressError::Count(2))));
}

#[test]
fn bytes_without_a_receiver() {
    let headers = HEADERS.replace("To: <server@example.net>\r\n", "");
    let r = MailInfo::from_bytes(raw(&headers, "x"));
    assert_eq!(r.err(), Some(MailError::To(AddressError::Missing)));
}

#[test]
fn bytes_without_a_subject() {
    let headers = HEADERS.replace("Subject: hi /#work term -l/ bye\r\n", "");
    let r = MailInfo::from_bytes(raw(&headers, "x"));
    assert_eq!(r.err(), Some(MailError::NoSubject));
}

#[test]
fn bytes_in_html() {
    let headers = HEADERS.replace("text/plain", "text/html");
    let r = MailInfo::from_bytes(raw(&headers, "<p>x</p>"));
    assert_eq!(r.err(), Some(MailError::UnexpectedBody));
}

#[test]
fn bytes_without_a_text() {
    let headers = HEADERS.replace("text/plain; charset=utf-8", "application/pdf");
    let r = MailInfo::from_bytes(raw(&headers, "x"));
    assert_eq!(r.err(), Some(MailError::NoTextBody));
}

#[test]
fn bytes_with_references() {
    let headers = format!("{}References: <r1@x> <r2@x>\r\nIn-Reply-To: <r2@x>\r\n", HEADERS);
    let (_, info) = MailInfo::from_bytes(raw(&headers, "x")).unwrap();
    assert_eq!(info.reference, None);
    assert_eq!(info.in_reply_to, None);
}

#[test]
fn reply_goes_back() {
    let (_, info) = MailInfo::from_fields(fields("a/#id echo x/b"), 0).unwrap();
    let reply = info.clone().create_reply();
    assert_eq!(reply.from, "server@example.net");
    assert_eq!(reply.to, "alice@example.org");
    assert_eq!(reply.subject, "a/#id echo x/b");
    assert_eq!(reply.message_id, None);
    assert_eq!(reply.in_reply_to.as_deref(), Some("m1@example.org"));
    assert_eq!(reply.reference, info.reference);
    assert_eq!(reply.flow_id.as_deref(), Some("id"));
    assert_eq!(reply.typ.as_deref(), Some("echo"));
    assert_eq!(reply.args.as_deref(), Some("x"));
    assert_eq!(reply.date, None);
    let back = reply.create_reply();
    assert_eq!(back.from, info.from);
    assert_eq!(back.to, info.to);
    assert_eq!(back.subject, info.subject);
    assert_eq!(back.flow_id, info.flow_id);
    assert_eq!(back.in_reply_to, None);
}

#[test]
fn file_is_a_mail_with_the_headers() {
    let (_, info) = MailInfo::from_fields(fields("a/#id echo x/b"), 0).unwrap();
    let file = info.create_reply().to_file(Bytes::from_static(b"out\xffput")).unwrap();
    let text = String::from_utf8(file.to_vec()).unwrap();
    assert!(text.starts_with("To: <alice@example.org>\r\nFrom: <server@example.net>\r\n"));
    assert!(text.contains("Subject: a/#id echo x/b\r\n"));
    assert!(text.contains("In-Reply-To: <m1@example.org>\r\n"));
    assert!(text.contains("References: <r1@example.org> <r2@example.org>\r\n"));
    assert!(text.contains("Message-ID: "));
    assert!(text.contains("\r\nDate: "));
    assert!(text.contains("MIME-Version: 1.0\r\n"));
}

#[test]
fn file_is_read_as_it_was_written() {
    let (_, info) = MailInfo::from_fields(fields("a/#id subs bin\\ls -l/b"), 0).unwrap();
    let reply = info.clone().create_reply();
    let file = reply.to_file(Bytes::from_static("größer\r\n".as_bytes())).unwrap();
    let (body, read) = MailInfo::from_bytes(file).unwrap();
    assert_eq!(body.as_ref(), "größer\r\n".as_bytes());
    assert_eq!(read.from, info.to);
    assert_eq!(read.to, info.from);
    assert_eq!(read.subject, info.subject);
    assert_eq!(read.flow_id, info.flow_id);
    assert_eq!(read.typ, info.typ);
    assert_eq!(read.args, info.args);
}

#[test]
fn reply_is_read_back_with_its_text() {
    let (_, mut info) = MailInfo::from_fields(fields("a/term ls -l/b"), 7).unwrap();
    info.message_id = Some("m1@x".to_string());
    info.reference = Some(vec!["r1@x".to_string(), "r2@x".to_string()]);
    let lines = "total 0\r\n$ =?x\r\n".repeat(20);
    for text in ["", "$", "a b\r\n\r\nc", lines.as_str()] {
        let file = info.clone().create_reply().to_file(Bytes::from(text.to_string())).unwrap();
        let (body, read) = MailInfo::from_bytes(file).unwrap();
        assert_eq!(body.as_ref(), text.as_bytes());
        assert_eq!(read.from, info.to);
        assert_eq!(read.to, info.from);
        assert_eq!(read.subject, info.subject);
        assert_eq!(read.flow_id, info.flow_id);
        assert_eq!(read.typ.as_deref(), Some("term"));
        assert_eq!(read.args.as_deref(), Some("ls -l"));
    }
}

#[test]
fn odd_addresses_are_read_back() {
    let odd = [
        "a=b@x.org",
        "=@x.org",
        "=?a@x.org",
        "a=?utf-8?q?b?=@x.org",
        "\"a b\"@x.org",
        "a \t b\r@x",
        "<a)b,;:@x",
        "gr\u{f6}\u{df}er@x",
        "a",
    ];
    for subject in ["a =?b/#id echo x/c", "=?/#id echo x/?=", "?q?/#id echo x/=?a?"] {
        for address in odd {
            let (_, mut info) = MailInfo::from_fields(fields(subject), 7).unwrap();
            info.from = address.to_string();
            info.message_id = Some("m1\r\n x".to_string());
            let file = info.clone().create_reply().to_file(Bytes::from_static(b"x")).unwrap();
            let (_, read) = MailInfo::from_bytes(file).unwrap();
            assert_eq!(read.to, info.from);
            assert_eq!(read.from, info.to);
            assert_eq!(read.subject, info.subject);
            assert_eq!(read.flow_id, info.flow_id);
        }
    }
}

#[test]
fn domain_is_behind_the_first_at() {
    assert_eq!(domain("a@b.org").as_deref(), Some("b.org"));
    assert_eq!(domain("a@b@c").as_deref(), Some("b"));
    assert_eq!(domain("a@").as_deref(), Some(""));
    assert_eq!(domain("a"), None);
}
