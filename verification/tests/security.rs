use bytes::Bytes;
use mssh::common::{MailInfo, MessageFile};
use mssh::mail::{ContentKind, PartBody};
use mssh::opengpg_utils::{search_first, Helper, Layer, PgpError, SearchStep};
use mssh::security_layer::{
    find_cipher, must_open, take_cipher, take_sender, write_envelope, Incoming, SecurityError,
    SecurityLayer,
};
use sequoia_openpgp::cert::CertBuilder;
use sequoia_openpgp::policy::StandardPolicy;
use sequoia_openpgp::serialize::SerializeInto;
use sequoia_openpgp::Cert;

fn cert(email: &str, password: Option<&str>) -> Cert {
    let builder = CertBuilder::general_purpose(Some(format!("User <{}>", email)));
    let builder = builder.set_password(password.map(|p| p.into()));
    builder.generate().unwrap().0
}

fn secret_text(c: &Cert) -> String {
    String::from_utf8(c.as_tsk().armored().to_vec().unwrap()).unwrap()
}

fn public_text(c: &Cert) -> String {
    String::from_utf8(c.armored().to_vec().unwrap()).unwrap()
}

fn info() -> MailInfo {
    MailInfo {
        from: "server@example.net".to_string(),
        to: "client@example.org".to_string(),
        subject: "a/#id echo/b".to_string(),
        message_id: None,
        reference: Some(vec!["r1@x".to_string(), "r2@x".to_string()]),
        in_reply_to: Some("m1@x".to_string()),
        flow_id: Some("id".to_string()),
        typ: Some("echo".to_string()),
        args: None,
        date: None,
    }
}

fn message(client: &str, file: &str) -> MessageFile {
    MessageFile {
        client: client.to_string(),
        info: Some(info()),
        file: Bytes::from(file.as_bytes().to_vec()),
    }
}

fn kind(ctype: &str, subtype: Option<&str>) -> Option<ContentKind> {
    Some(ContentKind { ctype: ctype.to_string(), subtype: subtype.map(|s| s.to_string()) })
}

fn layer(pass_raw: bool) -> SecurityLayer {
    let server = cert("server@example.net", None);
    let client = cert("client@example.org", None);
    let texts = vec![public_text(&client), secret_text(&server)];
    SecurityLayer::load(texts, None, pass_raw).unwrap()
}

fn words(r: Result<Incoming, SecurityError>) -> String {
    r.err().unwrap().message()
}

fn encrypted_mail(part_type: &str) -> String {
    format!(
        "From: <a@x.org>\r\nTo: <b@x.org>\r\nSubject: s\r\nMIME-Version: 1.0\r\n\
Content-Type: multipart/encrypted; protocol=\"application/pgp-encrypted\"; boundary=\"bb\"\r\n\r\n\
--bb\r\nContent-Type: application/pgp-encrypted\r\n\r\nVersion: 1\r\n\r\n\
--bb\r\nContent-Type: {}\r\nContent-Disposition: attachment; filename=\"m.asc\"\r\n\r\n\
cipher\r\n--bb--\r\n",
        part_type
    )
}

#[test]
fn keys_are_taken_from_files() {
    let server = cert("server@example.net", None);
    let one = cert("one@example.org", None);
    let two = cert("two@example.org", None);
    let texts = vec![
        "no certificate".to_string(),
        public_text(&one),
        secret_text(&server),
        public_text(&two),
    ];
    let h = Helper::load_dir(texts, None).unwrap();
    assert!(h.has_client_cert("one@example.org"));
    assert!(h.has_client_cert("two@example.org"));
    assert!(!h.has_client_cert("server@example.net"));
    assert!(!h.has_client_cert("three@example.org"));
    let all = h.get_certs(&Vec::new());
    assert_eq!(all, vec![secret_text(&server), public_text(&one), public_text(&two)]);
}

#[test]
fn second_secret_key_is_a_client() {
    let server = cert("server@example.net", None);
    let other = cert("other@example.net", None);
    let texts = vec![secret_text(&server), secret_text(&other), secret_text(&server)];
    let h = Helper::load_dir(texts, None).unwrap();
    assert!(h.has_client_cert("other@example.net"));
    assert!(!h.has_client_cert("server@example.net"));
}

#[test]
fn later_certificate_of_an_address_counts() {
    let server = cert("server@example.net", None);
    let one = cert("same@example.org", None);
    let two = cert("same@example.org", None);
    let texts = vec![secret_text(&server), public_text(&one), public_text(&two)];
    let h = Helper::load_dir(texts, None).unwrap();
    assert_eq!(h.get_certs(&Vec::new()), vec![secret_text(&server), public_text(&two)]);
}

#[test]
fn server_needs_a_secret_key() {
    let one = cert("one@example.org", None);
    let e = Helper::load_dir(vec![public_text(&one)], None).err().unwrap();
    assert!(matches!(e, PgpError::NoServerCert));
    assert_eq!(e.message(), "No server cert");
    assert!(SecurityLayer::load(vec![], None, true).is_err());
}

#[test]
fn certificates_by_handle() {
    let server = cert("server@example.net", None);
    let one = cert("one@example.org", None);
    let texts = vec![secret_text(&server), public_text(&one)];
    let h = Helper::load_dir(texts, None).unwrap();
    let other = cert("other@example.org", None).fingerprint().to_hex();
    assert_eq!(h.get_certs(&vec![other.clone()]).len(), 0);
    for key in one.keys() {
        let ids = vec![other.clone(), key.key().fingerprint().to_hex()];
        assert_eq!(h.get_certs(&ids), vec![public_text(&one)]);
        let ids = vec![key.key().keyid().to_hex()];
        assert_eq!(h.get_certs(&ids), vec![public_text(&one)]);
    }
    let ids = vec![one.keyid().to_hex(), server.fingerprint().to_hex()];
    assert_eq!(h.get_certs(&ids).len(), 2);
}

#[test]
fn message_is_sealed() {
    let server = cert("server@example.net", None);
    let one = cert("one@example.org", None);
    let h = Helper::load_dir(vec![secret_text(&server), public_text(&one)], None).unwrap();
    let out = h.encrypt_message(b"secret words", "one@example.org".to_string()).unwrap();
    let text = String::from_utf8(out).unwrap();
    assert!(text.starts_with("-----BEGIN PGP MESSAGE-----"));
    assert!(!text.contains("secret words"));
    let e = h.encrypt_message(b"x", "two@example.org".to_string()).err().unwrap();
    assert_eq!(e.message(), "No client cert found for two@example.org");
}

#[test]
fn locked_key_needs_the_password() {
    let server = cert("server@example.net", Some("pass"));
    let one = cert("one@example.org", None);
    let texts = vec![secret_text(&server), public_text(&one)];
    let to = "one@example.org".to_string();
    let h = Helper::load_dir(texts.clone(), None).unwrap();
    let e = h.encrypt_message(b"x", to.clone()).err().unwrap();
    assert!(matches!(e, PgpError::KeyLocked));
    assert_eq!(e.message(), "Signing key is encrypted; set password");
    let h = Helper::load_dir(texts.clone(), Some("wrong".to_string())).unwrap();
    assert!(matches!(h.encrypt_message(b"x", to.clone()), Err(PgpError::Failed(_))));
    let h = Helper::load_dir(texts, Some("pass".to_string())).unwrap();
    assert!(h.encrypt_message(b"x", to).is_ok());
}

#[test]
fn server_without_a_signing_key() {
    let builder = CertBuilder::new().add_userid("S <server@example.net>");
    let server = builder.add_transport_encryption_subkey().generate().unwrap().0;
    let one = cert("one@example.org", None);
    let h = Helper::load_dir(vec![secret_text(&server), public_text(&one)], None).unwrap();
    let e = h.encrypt_message(b"x", "one@example.org".to_string()).err().unwrap();
    assert_eq!(e.message(), "No suitable server signing key found");
}

#[test]
fn signer_takes_the_password_where_it_is_needed() {
    let server = cert("server@example.net", None);
    let h = Helper::load_dir(vec![secret_text(&server)], Some("p".to_string())).unwrap();
    assert!(matches!(h.signer(None, false), Err(PgpError::NoSigningKey)));
    let key = h.signer(Some("F".to_string()), false).unwrap();
    assert_eq!(key.fingerprint, "F");
    assert_eq!(key.password, None);
    let key = h.signer(Some("F".to_string()), true).unwrap();
    assert_eq!(key.password.as_deref(), Some("p"));
    let h = Helper::load_dir(vec![secret_text(&server)], None).unwrap();
    assert!(matches!(h.signer(Some("F".to_string()), true), Err(PgpError::KeyLocked)));
}

#[test]
fn message_must_be_signed() {
    let good = Layer::Signatures(vec![false, true]);
    assert!(Helper::check(&vec![Layer::Other, good]).is_ok());
    let e = Helper::check(&vec![Layer::Other]).err().unwrap();
    assert_eq!(e.message(), "Message is not signed");
    let layers = vec![Layer::Signatures(vec![true]), Layer::Signatures(vec![false])];
    let e = Helper::check(&layers).err().unwrap();
    assert_eq!(e.message(), "No valid signature");
    let e = Helper::check(&vec![Layer::Signatures(vec![])]).err().unwrap();
    assert!(matches!(e, PgpError::NoValidSignature));
}

#[test]
fn keys_are_tried_in_turn() {
    let server = cert("server@example.net", None);
    let h = Helper::load_dir(vec![secret_text(&server)], None).unwrap();
    let step = search_first(2);
    assert!(matches!(step, SearchStep::Look(0)));
    let step = h.search_next(step, false, 2, 2);
    assert!(matches!(step, SearchStep::Prepare(0)));
    let step = h.search_next(step, true, 2, 2);
    assert!(matches!(step, SearchStep::Try(0, 0)));
    let step = h.search_next(step, false, 2, 2);
    assert!(matches!(step, SearchStep::Try(0, 1)));
    let step = h.search_next(step, false, 2, 2);
    assert!(matches!(step, SearchStep::Look(1)));
    let step = h.search_next(step, false, 2, 2);
    let step = h.search_next(step, true, 2, 2);
    assert!(matches!(step, SearchStep::Try(1, 0)));
    assert!(matches!(h.search_next(step, true, 2, 2), SearchStep::Found));
}

#[test]
fn keys_that_cannot_be_used_are_left_out() {
    let server = cert("server@example.net", None);
    let h = Helper::load_dir(vec![secret_text(&server)], None).unwrap();
    assert!(matches!(search_first(0), SearchStep::NotFound));
    assert!(matches!(h.search_next(SearchStep::Look(0), true, 2, 1), SearchStep::Look(1)));
    assert!(matches!(h.search_next(SearchStep::Look(1), true, 2, 1), SearchStep::NotFound));
    assert!(matches!(h.search_next(SearchStep::Prepare(0), false, 2, 1), SearchStep::Look(1)));
    assert!(matches!(h.search_next(SearchStep::Prepare(0), true, 2, 0), SearchStep::Look(1)));
    let h = Helper::load_dir(vec![secret_text(&server)], Some("p".to_string())).unwrap();
    match h.search_next(SearchStep::Look(0), true, 1, 1) {
        SearchStep::Unlock(0, p) => assert_eq!(p, "p"),
        other => panic!("{:?}", other),
    }
    let step = SearchStep::Unlock(0, "p".to_string());
    assert!(matches!(h.search_next(step, true, 1, 1), SearchStep::Prepare(0)));
    let step = SearchStep::Unlock(0, "p".to_string());
    assert!(matches!(h.search_next(step, false, 1, 1), SearchStep::Failed));
}

#[test]
fn mails_are_told_apart_by_content_type() {
    let enc = Some("application/pgp-encrypted".to_string());
    let sig = Some("application/pgp-signature".to_string());
    let encrypted = kind("multipart", Some("encrypted"));
    let signed = kind("multipart", Some("signed"));
    assert_eq!(must_open(&encrypted, &enc, false).unwrap(), true);
    assert_eq!(must_open(&encrypted, &enc, true).unwrap(), true);
    assert_eq!(must_open(&encrypted, &sig, true).unwrap(), false);
    assert!(matches!(must_open(&encrypted, &None, false), Err(SecurityError::NotEncrypted)));
    assert!(matches!(must_open(&signed, &sig, true), Err(SecurityError::Signed)));
    assert!(matches!(must_open(&signed, &enc, false), Err(SecurityError::NotEncrypted)));
    assert!(matches!(must_open(&None, &enc, true), Err(SecurityError::NoContentType)));
    let bare = kind("text", None);
    assert!(matches!(must_open(&bare, &None, true), Err(SecurityError::NoSubtype)));
}

#[test]
fn encrypted_part_is_the_first_of_its_type() {
    let kinds = vec![
        kind("application", Some("pgp-encrypted")),
        None,
        kind("application", Some("octet-stream")),
        kind("application", Some("octet-stream")),
    ];
    assert_eq!(find_cipher(&kinds), Some(2));
    assert_eq!(find_cipher(&vec![kind("text", Some("octet-stream"))]), None);
    assert_eq!(take_cipher(PartBody::Text("ä".to_string())).unwrap(), "ä".as_bytes());
    assert_eq!(take_cipher(PartBody::Binary(vec![1, 2])).unwrap(), vec![1, 2]);
    assert!(matches!(take_cipher(PartBody::Multipart), Err(SecurityError::UnsupportedPart)));
}

#[test]
fn sender_is_the_only_one() {
    let a = Some("a@x".to_string());
    let b = Some("b@x".to_string());
    assert_eq!(take_sender(Some(vec![None, a.clone()])).unwrap(), "a@x");
    assert!(matches!(take_sender(Some(vec![a, b])), Err(SecurityError::InnerFromCount)));
    assert!(matches!(take_sender(Some(vec![])), Err(SecurityError::InnerFromCount)));
    assert!(matches!(take_sender(None), Err(SecurityError::NoInnerFrom)));
}

#[test]
fn plain_mail_comes_in_only_where_it_is_let_through() {
    let mail = "From: <a@x.org>\r\nContent-Type: text/plain\r\n\r\nhello";
    match layer(true).decrypt(message("a@x.org", mail)).ok().unwrap() {
        Incoming::Plain(m) => {
            assert_eq!(m.client, "a@x.org");
            assert_eq!(m.file.as_ref(), mail.as_bytes());
            assert!(m.info.is_some());
        }
        Incoming::Sealed(_) => panic!(),
    }
    let r = layer(false).decrypt(message("a@x.org", mail));
    assert_eq!(words(r), "Message unencrypted/unsigned and !pass_raw");
}

#[test]
fn encrypted_mail_is_opened() {
    for part_type in ["application/octet-stream", "application/octet-stream; name=\"m.asc\""] {
        match layer(true).decrypt(message("a@x.org", &encrypted_mail(part_type))).ok().unwrap() {
            Incoming::Sealed(b) => assert_eq!(b, b"cipher"),
            Incoming::Plain(_) => panic!(),
        }
    }
}

#[test]
fn refused_mails() {
    let s = layer(true);
    assert_eq!(words(s.decrypt(message("a", ""))), "Failed to parse email message");
    let r = s.decrypt(message("a", "From: <a@x.org>\r\n\r\nhello"));
    assert_eq!(words(r), "Content-Type missing");
    let r = s.decrypt(message("a", "From: <a@x.org>\r\nContent-Type: text\r\n\r\nhello"));
    assert_eq!(words(r), "Subtype missing");
    let r = s.decrypt(message("a", &encrypted_mail("image/png")));
    assert_eq!(words(r), "Encrypted part not found");
    let mail = "From: <a@x.org>\r\nContent-Type: multipart/signed; boundary=\"bb\"; \
protocol=\"application/pgp-signature\"\r\n\r\n--bb\r\n\r\nx\r\n--bb--\r\n";
    assert_eq!(words(s.decrypt(message("a", mail))), "Signed messages are not supported");
}

#[test]
fn opened_mail_is_from_its_own_sender() {
    let s = layer(false);
    let mail = b"From: Bob <bob@x.org>\r\nSubject: s\r\n\r\nhello".to_vec();
    let m = s.accept(mail.clone()).unwrap();
    assert_eq!(m.client, "bob@x.org");
    assert!(m.info.is_none());
    assert_eq!(m.file.as_ref(), &mail[..]);
    let e = s.accept(Vec::new()).err().unwrap();
    assert_eq!(e.message(), "Failed to parse decrypted message");
    let e = s.accept(b"Subject: s\r\n\r\nhello".to_vec()).err().unwrap();
    assert_eq!(e.message(), "From header missing in decrypted message");
    let e = s.accept(b"From: a@x.org, b@x.org\r\n\r\nhello".to_vec()).err().unwrap();
    assert_eq!(e.message(), "Expected exactly one From address in decrypted message");
    let m = s.accept(b"From: g: a@x.org;\r\n\r\nhello".to_vec()).unwrap();
    assert_eq!(m.client, "a@x.org");
}

#[test]
fn envelope_holds_the_headers() {
    let expected = "From: <server@example.net>\r\nTo: <client@example.org>\r\n\
Subject: a/#id echo/b\r\nMIME-Version: 1.0\r\nDate: D\r\nMessage-ID: <N@example.net>\r\n\
In-Reply-To: <m1@x>\r\nReferences: <r1@x>\r\n <r2@x>\r\nContent-Type: multipart/encrypted;\r\n \
protocol=\"application/pgp-encrypted\";\r\n boundary=\"mssh-pgp-boundary\"\r\n\r\n\
--mssh-pgp-boundary\r\nContent-Type: application/pgp-encrypted\r\n\r\nVersion: 1\r\n\r\n\
--mssh-pgp-boundary\r\nContent-Type: application/octet-stream\r\n\
Content-Disposition: attachment; filename=\"m.asc\"\r\n\r\nCIPHER\r\n--mssh-pgp-boundary--\r\n";
    assert_eq!(write_envelope(&info(), "example.net", "D", "N", "CIPHER"), expected);
    let mut bare = info();
    bare.in_reply_to = None;
    bare.reference = Some(vec![]);
    let text = write_envelope(&bare, "d", "D", "N", "C");
    assert!(text.contains("Message-ID: <N@d>\r\nReferences: \r\nContent-Type"));
    bare.reference = None;
    let text = write_envelope(&bare, "d", "D", "N", "C");
    assert!(text.contains("Message-ID: <N@d>\r\nContent-Type"));
}

#[test]
fn mail_is_wrapped_or_goes_out_as_it_is() {
    let s = layer(false);
    let m = s.wrap(message("c", "f"), Ok(b"C".to_vec()), "D", "N").unwrap();
    assert_eq!(m.client, "c");
    assert!(m.info.is_none());
    let text = write_envelope(&info(), "example.net", "D", "N", "C");
    assert_eq!(m.file.as_ref(), text.as_bytes());
    let e = s.wrap(message("c", "f"), Ok(vec![0xff]), "D", "N").err().unwrap();
    assert_eq!(e.message(), "invalid utf-8 sequence of 1 bytes from index 0");
    let mut lost = message("c", "f");
    lost.info.as_mut().unwrap().from = "nobody".to_string();
    let e = s.wrap(lost, Ok(b"C".to_vec()), "D", "N").err().unwrap();
    assert_eq!(e.message(), "Invalid from email address");
    let e = s.wrap(message("c", "f"), Err(PgpError::NoSigningKey), "D", "N").err().unwrap();
    assert_eq!(e.message(), "Encryption failed: No suitable server signing key found");
    let m = layer(true).wrap(message("c", "f"), Err(PgpError::NoSigningKey), "D", "N").unwrap();
    assert_eq!(m.file.as_ref(), b"f");
    assert!(m.info.is_some());
}

#[test]
fn mail_is_encrypted_for_its_client() {
    let s = layer(false);
    assert!(s.helper().has_client_cert("client@example.org"));
    let m = s.encrypt(message("client@example.org", "secret words")).unwrap();
    assert_eq!(m.client, "client@example.org");
    assert!(m.info.is_none());
    let text = String::from_utf8(m.file.to_vec()).unwrap();
    assert!(text.starts_with("From: <server@example.net>\r\nTo: <client@example.org>\r\n"));
    assert!(text.contains("\r\n\r\n-----BEGIN PGP MESSAGE-----"));
    assert!(!text.contains("secret words"));
    let (_, rest) = text.split_once("\r\nDate: ").unwrap();
    let (date, rest) = rest.split_once("\r\nMessage-ID: <").unwrap();
    let (name, _) = rest.split_once("@example.net>\r\n").unwrap();
    assert!(date.ends_with("+0000"));
    assert_eq!(name.len(), 36);
    match s.decrypt(m).ok().unwrap() {
        Incoming::Sealed(b) => assert!(b.starts_with(b"-----BEGIN PGP MESSAGE-----")),
        Incoming::Plain(_) => panic!(),
    }
}

#[test]
fn mail_to_a_stranger() {
    let e = layer(false).encrypt(message("two@example.org", "f")).err().unwrap();
    assert_eq!(e.message(), "Encryption failed: No client cert found for two@example.org");
    let m = layer(true).encrypt(message("two@example.org", "f")).unwrap();
    assert_eq!(m.file.as_ref(), b"f");
    assert!(m.info.is_some());
}

#[test]
fn envelope_gives_back_what_was_put_into_it() {
    let date = "Tue, 1 Jul 2003 10:52:37 +0000";
    let name = "01234567-89ab-4cde-8f01-23456789abcd";
    let mut bare = info();
    bare.reference = None;
    bare.in_reply_to = None;
    bare.subject = "".to_string();
    let mut odd = info();
    odd.from = "gr\u{f6}\u{df}er'+,;:<)\"= =?x a=?u-8?q?b?=@example.net".to_string();
    odd.in_reply_to = Some("m1\r\n x".to_string());
    odd.subject = " (x) \"y\" <z>: \\ \u{f6} =?a?x?\n b ".to_string();
    odd.reference = Some(vec![]);
    for info in [info(), bare, odd] {
        for sealed in ["", "x", "-----BEGIN PGP MESSAGE-----\n\nabc\n=x\n-----END PGP MESSAGE-----\n", "a--\r\n\r\n-"] {
            let file = write_envelope(&info, "example.net", date, name, sealed);
            let mes =
                MessageFile { client: "c".to_string(), info: None, file: Bytes::from(file) };
            match layer(false).decrypt(mes).ok().unwrap() {
                Incoming::Sealed(b) => assert_eq!(b, sealed.as_bytes()),
                Incoming::Plain(_) => panic!(),
            }
        }
    }
}

#[test]
fn what_is_sealed_is_armored() {
    let server = cert("server@example.net", None);
    let client = cert("client@example.org", None);
    let h = Helper::load_dir(vec![public_text(&client), secret_text(&server)], None).unwrap();
    let text = "x-y".repeat(1000);
    let out = h.encrypt_message(text.as_bytes(), "client@example.org".to_string()).unwrap();
    let out = String::from_utf8(out).unwrap();
    assert!(out.as_bytes().windows(2).all(|w| w[0] != b'-' || !w[1].is_ascii_lowercase()));
    assert!(out.starts_with("-----BEGIN PGP MESSAGE-----\n"));
}

#[test]
fn armor_has_its_lines() {
    let server = cert("server@example.net", None);
    let client = cert("client@example.org", None);
    let h = Helper::load_dir(vec![public_text(&client), secret_text(&server)], None).unwrap();
    for n in [0, 1, 2, 3, 47, 48, 49, 5000] {
        let out = h.encrypt_message(&vec![7; n], "client@example.org".to_string()).unwrap();
        let out = String::from_utf8(out).unwrap();
        let digits = out.strip_prefix("-----BEGIN PGP MESSAGE-----\n\n").unwrap();
        let digits = digits.strip_suffix("-----END PGP MESSAGE-----\n").unwrap();
        assert!(digits.chars().all(|c| c.is_ascii_alphanumeric() || "+/=\n".contains(c)));
    }
}

#[test]
fn mail_without_headers() {
    let bare = |client: &str| MessageFile { info: None, ..message(client, "f") };
    let e = layer(false).encrypt_any(bare("two@example.org")).unwrap().err().unwrap();
    assert_eq!(e.message(), "Encryption failed: No client cert found for two@example.org");
    let m = layer(true).encrypt_any(bare("two@example.org")).unwrap().unwrap();
    assert_eq!(m.file.as_ref(), b"f");
    assert!(layer(true).encrypt_any(bare("client@example.org")).is_none());
    assert!(layer(true).encrypt_any(message("client@example.org", "f")).unwrap().is_ok());
    let texts = vec![
        public_text(&cert("client@example.org", None)),
        secret_text(&cert("server@example.net", Some("pass"))),
    ];
    let s = SecurityLayer::load(texts.clone(), None, false).unwrap();
    let e = s.encrypt_any(bare("client@example.org")).unwrap().err().unwrap();
    assert_eq!(e.message(), "Encryption failed: Signing key is encrypted; set password");
    let s = SecurityLayer::load(texts, None, true).unwrap();
    let m = s.encrypt(bare("client@example.org")).unwrap();
    assert_eq!(m.client, "client@example.org");
    assert_eq!(m.file.as_ref(), b"f");
}

#[test]
fn wrong_password_in_words() {
    let server = cert("server@example.net", Some("pass"));
    let client = cert("client@example.org", None);
    let texts = vec![public_text(&client), secret_text(&server)];
    let h = Helper::load_dir(texts, Some("other".to_string())).unwrap();
    let e = h.encrypt_message(b"x", "client@example.org".to_string()).err().unwrap();
    let policy = StandardPolicy::new();
    let keys = server.keys().secret().with_policy(&policy, None).for_signing();
    let key = keys.map(|k| k.key().clone()).next().unwrap();
    let words = key.decrypt_secret(&"other".into()).err().unwrap().to_string();
    assert!(!words.is_empty());
    assert_eq!(e.message(), words);
}

#[test]
fn recipient_without_keys_in_words() {
    let server = cert("server@example.net", None);
    let client = CertBuilder::new().add_userid("<client@example.org>").generate().unwrap().0;
    let texts = vec![public_text(&client), secret_text(&server)];
    let h = Helper::load_dir(texts, None).unwrap();
    let e = h.encrypt_message(b"x", "client@example.org".to_string()).err().unwrap();
    assert!(matches!(&e, PgpError::Failed(words) if !words.is_empty()));
}

#[test]
fn keys_and_mails_are_cloned() {
    let server = cert("server@example.net", None);
    let one = cert("one@example.org", None);
    let two = cert("two@example.org", None);
    let texts = vec![public_text(&one), secret_text(&server), public_text(&two)];
    let h = Helper::load_dir(texts, Some("p".to_string())).unwrap();
    let k = h.clone();
    assert_eq!(k.server_cert(), h.server_cert());
    assert_eq!(k.get_certs(&Vec::new()), h.get_certs(&Vec::new()));
    assert_eq!(k.get_certs(&Vec::new()).len(), 3);
    let m = message("c", "f");
    let n = m.clone();
    assert_eq!(n.client, m.client);
    assert_eq!(n.file, m.file);
    assert_eq!(n.info.unwrap().subject, m.info.unwrap().subject);
}
