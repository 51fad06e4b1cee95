use bytes::Bytes;
use mssh::common::{MailInfo, MessageFile};
use mssh::opengpg_utils::{search_first, Helper, Layer, SearchStep};
use mssh::security_layer::{Incoming, SecurityLayer};
use sequoia_openpgp::cert::CertBuilder;
use sequoia_openpgp::crypto::{KeyPair, Password, SessionKey};
use sequoia_openpgp::packet::key::{SecretParts, UnspecifiedRole};
use sequoia_openpgp::packet::{Key, PKESK, SKESK};
use sequoia_openpgp::parse::stream::{
    DecryptionHelper, DecryptorBuilder, MessageLayer, MessageStructure, VerificationHelper,
};
use sequoia_openpgp::parse::Parse;
use sequoia_openpgp::policy::StandardPolicy;
use sequoia_openpgp::serialize::SerializeInto;
use sequoia_openpgp::types::SymmetricAlgorithm;
use sequoia_openpgp::{Cert, KeyHandle};
use std::io::Read;
use std::str::FromStr;

struct Opener<'a> {
    helper: &'a Helper,
    server: Cert,
}

impl DecryptionHelper for Opener<'_> {
    fn decrypt(
        &mut self,
        pkesks: &[PKESK],
        _: &[SKESK],
        sym_algo: Option<SymmetricAlgorithm>,
        decrypt: &mut dyn FnMut(Option<SymmetricAlgorithm>, &SessionKey) -> bool,
    ) -> sequoia_openpgp::Result<Option<Cert>> {
        let policy = StandardPolicy::new();
        let usable = self.server.keys().secret().with_policy(&policy, None).supported().alive();
        let keys: Vec<Key<SecretParts, UnspecifiedRole>> =
            usable.for_transport_encryption().map(|k| k.key().clone()).collect();
        let mut secret: Option<Key<SecretParts, UnspecifiedRole>> = None;
        let mut pair: Option<KeyPair> = None;
        let mut step = search_first(keys.len());
        loop {
            let answer = match &step {
                SearchStep::Look(k) => {
                    secret = Some(keys[*k].clone());
                    !keys[*k].has_unencrypted_secret()
                }
                SearchStep::Unlock(k, password) => {
                    secret = keys[*k].clone().decrypt_secret(&Password::from(password.as_str())).ok();
                    secret.is_some()
                }
                SearchStep::Prepare(_) => {
                    pair = secret.take().and_then(|s| s.into_keypair().ok());
                    pair.is_some()
                }
                SearchStep::Try(_, p) => pkesks[*p]
                    .decrypt(pair.as_mut().unwrap(), sym_algo)
                    .map(|(algo, key)| decrypt(algo, &key))
                    .unwrap_or(false),
                SearchStep::Found => return Ok(Some(self.server.clone())),
                SearchStep::NotFound => return Ok(None),
                SearchStep::Failed => return Err(anyhow::Error::msg("failed")),
            };
            step = self.helper.search_next(step, answer, keys.len(), pkesks.len());
        }
    }
}

impl VerificationHelper for Opener<'_> {
    fn get_certs(&mut self, ids: &[KeyHandle]) -> sequoia_openpgp::Result<Vec<Cert>> {
        let ids: Vec<String> = ids.iter().map(|id| format!("{:X}", id)).collect();
        self.helper.get_certs(&ids).iter().map(|c| Cert::from_str(c)).collect()
    }

    fn check(&mut self, structure: MessageStructure) -> sequoia_openpgp::Result<()> {
        let layers: Vec<Layer> = structure
            .into_iter()
            .map(|layer| match layer {
                MessageLayer::SignatureGroup { results } => {
                    Layer::Signatures(results.iter().map(|r| r.is_ok()).collect())
                }
                _ => Layer::Other,
            })
            .collect();
        Helper::check(&layers).map_err(|e| anyhow::Error::msg(e.message()))
    }
}

fn open(helper: &Helper, message: &[u8]) -> Result<Vec<u8>, anyhow::Error> {
    let policy = StandardPolicy::new();
    let opener = Opener { helper, server: Cert::from_str(helper.server_cert())? };
    let mut decryptor = DecryptorBuilder::from_bytes(message)?.with_policy(&policy, None, opener)?;
    let mut plain = Vec::new();
    decryptor.read_to_end(&mut plain)?;
    Ok(plain)
}

fn cert(email: &str, password: Option<&str>) -> Cert {
    let builder = CertBuilder::general_purpose(Some(format!("User <{}>", email)));
    builder.set_password(password.map(|p| p.into())).generate().unwrap().0
}

fn secret_text(c: &Cert) -> String {
    String::from_utf8(c.as_tsk().armored().to_vec().unwrap()).unwrap()
}

fn public_text(c: &Cert) -> String {
    String::from_utf8(c.armored().to_vec().unwrap()).unwrap()
}

fn info() -> MailInfo {
    MailInfo {
        from: "one@example.net".to_string(),
        to: "two@example.org".to_string(),
        subject: "a/#id echo/b".to_string(),
        message_id: None,
        reference: None,
        in_reply_to: None,
        flow_id: Some("id".to_string()),
        typ: Some("echo".to_string()),
        args: None,
        date: None,
    }
}

#[test]
fn sealed_message_is_opened_by_its_client() {
    let one = cert("one@example.net", None);
    let two = cert("two@example.org", Some("pass"));
    let h1 = Helper::load_dir(vec![secret_text(&one), public_text(&two)], None).unwrap();
    let out = h1.encrypt_message(b"secret words", "two@example.org".to_string()).unwrap();
    let texts = vec![secret_text(&two), public_text(&one)];
    let h2 = Helper::load_dir(texts.clone(), Some("pass".to_string())).unwrap();
    assert_eq!(open(&h2, &out).unwrap(), b"secret words");
    let h2 = Helper::load_dir(texts.clone(), None).unwrap();
    assert!(open(&h2, &out).is_err());
    let h2 = Helper::load_dir(texts, Some("wrong".to_string())).unwrap();
    assert_eq!(open(&h2, &out).err().unwrap().to_string(), "failed");
}

#[test]
fn sealed_message_is_not_opened_by_others() {
    let one = cert("one@example.net", None);
    let two = cert("two@example.org", None);
    let three = cert("three@example.org", None);
    let h1 = Helper::load_dir(vec![secret_text(&one), public_text(&two)], None).unwrap();
    let out = h1.encrypt_message(b"secret words", "two@example.org".to_string()).unwrap();
    let h3 = Helper::load_dir(vec![secret_text(&three), public_text(&one)], None).unwrap();
    assert!(open(&h3, &out).is_err());
}

#[test]
fn message_from_a_stranger_is_not_opened() {
    let one = cert("one@example.net", None);
    let two = cert("two@example.org", None);
    let h1 = Helper::load_dir(vec![secret_text(&one), public_text(&two)], None).unwrap();
    let out = h1.encrypt_message(b"secret words", "two@example.org".to_string()).unwrap();
    let h2 = Helper::load_dir(vec![secret_text(&two)], None).unwrap();
    assert!(open(&h2, &out).is_err());
}

#[test]
fn mail_comes_back_out_of_its_envelope() {
    let one = cert("one@example.net", None);
    let two = cert("two@example.org", None);
    let texts = vec![secret_text(&one), public_text(&two)];
    let s1 = SecurityLayer::load(texts, None, false).unwrap();
    let texts = vec![secret_text(&two), public_text(&one)];
    let s2 = SecurityLayer::load(texts, None, false).unwrap();
    let file = info().to_file(Bytes::from_static(b"hello")).unwrap();
    let msg =
        MessageFile { client: "two@example.org".to_string(), info: Some(info()), file: file.clone() };
    let sent = s1.encrypt(msg).unwrap();
    let sealed = match s2.decrypt(sent).ok().unwrap() {
        Incoming::Sealed(b) => b,
        Incoming::Plain(_) => panic!(),
    };
    let m = s2.accept(open(s2.helper(), &sealed).unwrap()).unwrap();
    assert_eq!(m.client, "one@example.net");
    assert_eq!(m.file, file);
    let (body, read) = MailInfo::from_bytes(m.file).unwrap();
    assert_eq!(body.as_ref(), b"hello");
    assert_eq!(read.flow_id.as_deref(), Some("id"));
}
