//! Certificates and messages as sequoia_openpgp reads and writes them. A certificate is held as
//! the text it is read from, a key by its certificate and its fingerprint, and a handle of a key
//! as hexadecimal digits.
use crate::text;
use sequoia_openpgp::crypto::{KeyPair, Password};
use sequoia_openpgp::policy::StandardPolicy;
use sequoia_openpgp::serialize::stream::{Armorer, Encryptor, LiteralWriter, Message, Signer};
use sequoia_openpgp::{Cert, KeyHandle};
use std::io::Write;
use std::str::FromStr;
use vstd::prelude::*;

verus! {

/// `sequoia_openpgp::crypto::KeyPair`, a key that is ready to sign.
#[verifier::external_type_specification]
#[verifier::external_body]
pub struct ExKeyPair(sequoia_openpgp::crypto::KeyPair);

/// Whether the text is one certificate.
pub uninterp spec fn holds_cert(cert: Seq<char>) -> bool;

/// Whether the certificate comes with secret keys.
pub uninterp spec fn holds_secret(cert: Seq<char>) -> bool;

/// The address of the first user of the certificate.
pub uninterp spec fn cert_email(cert: Seq<char>) -> Option<Seq<char>>;

/// Whether two texts hold equal certificates.
pub uninterp spec fn certs_equal(a: Seq<char>, b: Seq<char>) -> bool;

/// The fingerprint of the certificate.
pub uninterp spec fn cert_fingerprint(cert: Seq<char>) -> Option<Seq<char>>;

/// The key id of the certificate.
pub uninterp spec fn cert_keyid(cert: Seq<char>) -> Option<Seq<char>>;

/// The fingerprints of the keys of the certificate.
pub uninterp spec fn key_fingerprints(cert: Seq<char>) -> Seq<Seq<char>>;

/// The key ids of the keys of the certificate.
pub uninterp spec fn key_ids(cert: Seq<char>) -> Seq<Seq<char>>;

/// Whether two handles may belong to one key.
pub uninterp spec fn handles_alias(a: Seq<char>, b: Seq<char>) -> bool;

/// The fingerprint of the first key of the certificate that is good for signing, given what the
/// clock says.
pub uninterp spec fn signing_key_at(cert: Seq<char>, clock: int) -> Option<Seq<char>>;

/// Whether that secret key of the certificate is protected by a password.
pub uninterp spec fn key_is_locked(cert: Seq<char>, fingerprint: Seq<char>) -> bool;

/// What stands against using that secret key of the certificate as it is, in words; nothing where
/// it can be used.
pub uninterp spec fn opening_fault(cert: Seq<char>, fingerprint: Seq<char>) -> Option<Seq<char>>;

/// What stands against using that secret key of the certificate with the password, in words;
/// nothing where it can be used.
pub uninterp spec fn unlocking_fault(
    cert: Seq<char>,
    fingerprint: Seq<char>,
    password: Seq<char>,
) -> Option<Seq<char>>;

/// The message, encrypted for the keys of the recipient's certificate that are good for it,
/// signed with that key of the signer's certificate, and armored; given what the clock says and
/// which bytes chance gives. Where it cannot be done, the reason in words.
pub uninterp spec fn sealed(
    message: Seq<u8>,
    recipient: Seq<char>,
    cert: Seq<char>,
    fingerprint: Seq<char>,
    clock: int,
    chance: Seq<u8>,
) -> Result<Seq<u8>, Seq<char>>;

/// A secret key that is ready to sign, with the certificate that it is from.
pub struct OpenKey {
    cert: String,
    fingerprint: String,
    pair: KeyPair,
}

impl OpenKey {
    /// The certificate that the key is from.
    pub closed spec fn cert(self) -> Seq<char> {
        self.cert@
    }

    /// The fingerprint of the key.
    pub closed spec fn fingerprint(self) -> Seq<char> {
        self.fingerprint@
    }
}

/// What a message was sealed to, or why it was not.
pub open spec fn sealing(r: Result<Vec<u8>, String>) -> Result<Seq<u8>, Seq<char>> {
    match r {
        Ok(v) => Ok(v@),
        Err(e) => Err(e@),
    }
}

/// A digit of a number in base 64, or one that fills up the last group of them.
pub open spec fn is_base64(c: char) -> bool {
    'A' <= c <= 'Z' || 'a' <= c <= 'z' || '0' <= c <= '9' || c == '+' || c == '/' || c == '='
}

/// A message in armor: lines of digits of base 64 between the line that begins a message and the
/// one that ends it.
pub open spec fn is_armor(armor: Seq<char>, digits: Seq<char>) -> bool {
    &&& armor == "-----BEGIN PGP MESSAGE-----\n\n"@ + digits + "-----END PGP MESSAGE-----\n"@
    &&& forall|i: int| 0 <= i < digits.len() ==> is_base64(#[trigger] digits[i]) || digits[i] == '\n'
}

/// The bytes are a message in armor.
pub open spec fn is_armored(bytes: Seq<u8>) -> bool {
    &&& vstd::utf8::valid_utf8(bytes)
    &&& exists|digits: Seq<char>| #[trigger] is_armor(vstd::utf8::decode_utf8(bytes), digits)
}

/// In armor no hyphen stands before a small letter.
pub proof fn lemma_armor(bytes: Seq<u8>, i: int)
    requires
        is_armored(bytes),
        0 <= i < vstd::utf8::decode_utf8(bytes).len() - 1,
        vstd::utf8::decode_utf8(bytes)[i] == '-',
    ensures
        !('a' <= vstd::utf8::decode_utf8(bytes)[i + 1] <= 'z'),
{
    let armor = vstd::utf8::decode_utf8(bytes);
    let digits = choose|digits: Seq<char>| #[trigger] is_armor(armor, digits);
    let head = "-----BEGIN PGP MESSAGE-----\n\n"@;
    let foot = "-----END PGP MESSAGE-----\n"@;
    reveal_strlit("-----BEGIN PGP MESSAGE-----\n\n");
    reveal_strlit("-----END PGP MESSAGE-----\n");
    let n = head.len();
    let m = digits.len();
    if i < n {
        assert(armor[i] == head[i]);
        if i + 1 < n {
            assert(armor[i + 1] == head[i + 1]);
        }
    } else if i < n + m {
        assert(armor[i] == digits[i - n]);
    } else {
        assert(armor[i + 1] == foot[i + 1 - n - m]);
    }
}

/// `Cert::from_str`: whether the text is one certificate.
#[verifier::external_body]
pub(crate) fn is_cert(cert: &str) -> (r: bool)
    ensures
        r == holds_cert(cert@),
{
    Cert::from_str(cert).is_ok()
}

/// `Cert::is_tsk` of the certificate in the text.
#[verifier::external_body]
pub(crate) fn is_tsk(cert: &str) -> (r: bool)
    ensures
        r == holds_secret(cert@),
{
    Cert::from_str(cert).map(|c| c.is_tsk()).unwrap_or(false)
}

/// `UserID::email` of the first that `Cert::userids` gives of the certificate in the text.
#[verifier::external_body]
pub(crate) fn email(cert: &str) -> (r: Option<String>)
    ensures
        text::opt_text(r) == cert_email(cert@),
{
    let cert = Cert::from_str(cert).ok()?;
    let user = cert.userids().next()?;
    Some(user.userid().email().ok()??.to_string())
}

/// `==` of the certificates in two texts. One text holds one certificate, which is equal to itself.
#[verifier::external_body]
pub(crate) fn same_cert(a: &str, b: &str) -> (r: bool)
    ensures
        r == certs_equal(a@, b@),
        a@ == b@ ==> r,
{
    Cert::from_str(a).ok() == Cert::from_str(b).ok()
}

/// `Cert::fingerprint` of the certificate in the text.
#[verifier::external_body]
pub(crate) fn fingerprint(cert: &str) -> (r: Option<String>)
    ensures
        text::opt_text(r) == cert_fingerprint(cert@),
{
    Cert::from_str(cert).ok().map(|c| c.fingerprint().to_hex())
}

/// `Cert::keyid` of the certificate in the text.
#[verifier::external_body]
pub(crate) fn keyid(cert: &str) -> (r: Option<String>)
    ensures
        text::opt_text(r) == cert_keyid(cert@),
{
    Cert::from_str(cert).ok().map(|c| c.keyid().to_hex())
}

/// `Key::fingerprint` of each key that `Cert::keys` gives of the certificate in the text.
#[verifier::external_body]
pub(crate) fn fingerprints_of_keys(cert: &str) -> (r: Vec<String>)
    ensures
        text::texts(r@) == key_fingerprints(cert@),
{
    let cert = Cert::from_str(cert).ok();
    let keys = cert.iter().flat_map(|c| c.keys());
    keys.map(|k| k.key().fingerprint().to_hex()).collect()
}

/// `Key::keyid` of each key that `Cert::keys` gives of the certificate in the text.
#[verifier::external_body]
pub(crate) fn keyids_of_keys(cert: &str) -> (r: Vec<String>)
    ensures
        text::texts(r@) == key_ids(cert@),
{
    let cert = Cert::from_str(cert).ok();
    let keys = cert.iter().flat_map(|c| c.keys());
    keys.map(|k| k.key().keyid().to_hex()).collect()
}

/// `KeyHandle::aliases` of two handles.
#[verifier::external_body]
pub(crate) fn aliases(a: &str, b: &str) -> (r: bool)
    ensures
        r == handles_alias(a@, b@),
{
    match (KeyHandle::from_str(a), KeyHandle::from_str(b)) {
        (Ok(a), Ok(b)) => a.aliases(&b),
        _ => false,
    }
}

/// `Cert::keys` of the certificate in the text, those that are secret, supported, alive, not
/// revoked and for signing under the standard policy: the fingerprint of the first. Which that is
/// depends on the clock.
#[verifier::external_body]
pub(crate) fn signing_key(cert: &str) -> (r: Option<String>)
    ensures
        exists|clock: int| text::opt_text(r) == #[trigger] signing_key_at(cert@, clock),
{
    let policy = StandardPolicy::new();
    let cert = Cert::from_str(cert).ok()?;
    let keys = cert.keys().secret().with_policy(&policy, None).supported().alive().revoked(false);
    let key = keys.for_signing().next()?;
    Some(key.key().fingerprint().to_hex())
}

/// `Key::has_unencrypted_secret` of that secret key of the certificate in the text: whether it is
/// protected by a password.
#[verifier::external_body]
pub(crate) fn is_locked(cert: &str, fingerprint: &str) -> (r: bool)
    ensures
        r == key_is_locked(cert@, fingerprint@),
{
    let cert = Cert::from_str(cert).ok();
    let handle = KeyHandle::from_str(fingerprint).ok();
    cert.zip(handle).is_some_and(|(c, h)| {
        c.keys().secret().key_handle(h).next().is_some_and(|k| !k.key().has_unencrypted_secret())
    })
}

/// `Key::into_keypair` of that secret key of the certificate in the text. Where it fails, what the
/// error says.
#[verifier::external_body]
pub(crate) fn open_key(cert: &str, fingerprint: &str) -> (r: Result<OpenKey, String>)
    ensures
        match r {
            Ok(key) => {
                &&& opening_fault(cert@, fingerprint@) is None
                &&& key.cert() == cert@
                &&& key.fingerprint() == fingerprint@
            },
            Err(e) => opening_fault(cert@, fingerprint@) == Some(e@),
        },
{
    let handle = KeyHandle::from_str(fingerprint).map_err(|e| e.to_string())?;
    let own = Cert::from_str(cert).map_err(|e| e.to_string())?;
    let found = own.keys().secret().key_handle(handle).next();
    let key = found.ok_or_else(|| "Key is missing".to_string())?.key().clone();
    let pair = key.into_keypair().map_err(|e| e.to_string())?;
    Ok(OpenKey { cert: cert.to_string(), fingerprint: fingerprint.to_string(), pair })
}

/// `Key::decrypt_secret`, and `Key::into_keypair`, of that secret key of the certificate in the
/// text. Where one fails, what the error says.
#[verifier::external_body]
pub(crate) fn open_locked_key(cert: &str, fingerprint: &str, password: &str) -> (r: Result<
    OpenKey,
    String,
>)
    ensures
        match r {
            Ok(key) => {
                &&& unlocking_fault(cert@, fingerprint@, password@) is None
                &&& key.cert() == cert@
                &&& key.fingerprint() == fingerprint@
            },
            Err(e) => unlocking_fault(cert@, fingerprint@, password@) == Some(e@),
        },
{
    let handle = KeyHandle::from_str(fingerprint).map_err(|e| e.to_string())?;
    let own = Cert::from_str(cert).map_err(|e| e.to_string())?;
    let found = own.keys().secret().key_handle(handle).next();
    let key = found.ok_or_else(|| "Key is missing".to_string())?.key().clone();
    let key = key.decrypt_secret(&Password::from(password)).map_err(|e| e.to_string())?;
    let pair = key.into_keypair().map_err(|e| e.to_string())?;
    Ok(OpenKey { cert: cert.to_string(), fingerprint: fingerprint.to_string(), pair })
}

/// `Armorer`, `Encryptor`, `Signer` and `LiteralWriter`, one into the other, on the message: for
/// those keys of the recipient's certificate that are supported, alive, not revoked and for
/// transport encryption under the standard policy. What comes out depends on the clock and on
/// chance; it is a message in armor. Where one of them fails, what the error says.
#[verifier::external_body]
pub(crate) fn seal(message: &[u8], recipient: &str, key: OpenKey) -> (r: Result<Vec<u8>, String>)
    ensures
        exists|clock: int, chance: Seq<u8>|
            sealing(r) == #[trigger] sealed(
                message@,
                recipient@,
                key.cert(),
                key.fingerprint(),
                clock,
                chance,
            ),
        r matches Ok(out) ==> is_armored(out@),
{
    let policy = StandardPolicy::new();
    let cert = Cert::from_str(recipient).map_err(|e| e.to_string())?;
    let keys = cert.keys().with_policy(&policy, None).supported().alive().revoked(false);
    let keys = keys.for_transport_encryption();
    let mut out = Vec::new();
    let done = Armorer::new(Message::new(&mut out)).build().and_then(|stream| {
        let stream = Encryptor::for_recipients(stream, keys).build()?;
        let stream = Signer::new(stream, key.pair)?.build()?;
        let mut writer = LiteralWriter::new(stream).build()?;
        writer.write_all(message)?;
        writer.finalize()
    });
    done.map(|_| out).map_err(|e| e.to_string())
}

} // verus!
