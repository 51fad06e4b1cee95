//! The keys of the server and of its clients: which are loaded, what a message is sealed with, and
//! what is asked of a message that is opened.
use crate::pgp;
use crate::registry::Registry;
use crate::text;
use vstd::prelude::*;
use vstd::string::*;

verus! {

/// Why a message cannot be sealed or opened.
#[derive(Debug)]
pub enum PgpError {
    /// No certificate with secret keys was loaded.
    NoServerCert,
    /// No certificate was loaded for the address.
    NoClientCert(String),
    /// The server's certificate has no key that is good for signing.
    NoSigningKey,
    /// The signing key is protected, and there is no password.
    KeyLocked,
    /// The key or the message could not be processed, for the reason given.
    Failed(String),
    /// A group of signatures has no good one.
    NoValidSignature,
    /// There are no signatures.
    NotSigned,
}

/// Why a message cannot be sealed or opened, as a mathematical value.
pub enum PgpErrorView {
    NoServerCert,
    NoClientCert(Seq<char>),
    NoSigningKey,
    KeyLocked,
    Failed(Seq<char>),
    NoValidSignature,
    NotSigned,
}

impl View for PgpError {
    type V = PgpErrorView;

    open spec fn view(&self) -> PgpErrorView {
        match self {
            PgpError::NoServerCert => PgpErrorView::NoServerCert,
            PgpError::NoClientCert(a) => PgpErrorView::NoClientCert(a@),
            PgpError::NoSigningKey => PgpErrorView::NoSigningKey,
            PgpError::KeyLocked => PgpErrorView::KeyLocked,
            PgpError::Failed(s) => PgpErrorView::Failed(s@),
            PgpError::NoValidSignature => PgpErrorView::NoValidSignature,
            PgpError::NotSigned => PgpErrorView::NotSigned,
        }
    }
}

/// What an error says.
pub open spec fn error_words(e: PgpError) -> Seq<char> {
    match e {
        PgpError::NoServerCert => "No server cert"@,
        PgpError::NoClientCert(a) => "No client cert found for "@ + a@,
        PgpError::NoSigningKey => "No suitable server signing key found"@,
        PgpError::KeyLocked => "Signing key is encrypted; set password"@,
        PgpError::Failed(s) => s@,
        PgpError::NoValidSignature => "No valid signature"@,
        PgpError::NotSigned => "Message is not signed"@,
    }
}

impl PgpError {
    /// What the error says.
    pub fn message(&self) -> (r: String)
        ensures
            r@ == error_words(*self),
            self matches PgpError::NoClientCert(a) ==> r@ == "No client cert found for "@ + a@,
            self matches PgpError::Failed(s) ==> r@ == s@,
    {
        match self {
            PgpError::NoServerCert => "No server cert".to_owned(),
            PgpError::NoClientCert(a) => "No client cert found for ".to_owned().concat(a.as_str()),
            PgpError::NoSigningKey => "No suitable server signing key found".to_owned(),
            PgpError::KeyLocked => "Signing key is encrypted; set password".to_owned(),
            PgpError::Failed(s) => s.clone(),
            PgpError::NoValidSignature => "No valid signature".to_owned(),
            PgpError::NotSigned => "Message is not signed".to_owned(),
        }
    }
}

/// The keys of the server and of its clients, and the password of the server's keys.
pub struct Helper {
    server_cert: String,
    client_certs: Registry<String>,
    password: Option<String>,
}

/// The keys, as a mathematical value: the server's certificate, and by address those of the
/// clients.
#[verifier::ext_equal]
pub struct HelperView {
    pub server: Seq<char>,
    pub clients: Map<Seq<char>, Seq<char>>,
    pub password: Option<Seq<char>>,
}

impl HelperView {
    /// The certificate is the server's or a client's.
    pub open spec fn holds(self, cert: Seq<char>) -> bool {
        cert == self.server || exists|a: Seq<char>| #[trigger]
            self.clients.dom().contains(a) && self.clients[a] == cert
    }
}

impl View for Helper {
    type V = HelperView;

    closed spec fn view(&self) -> HelperView {
        HelperView {
            server: self.server_cert@,
            clients: self.client_certs@.map_values(|c: String| c@),
            password: text::opt_text(self.password),
        }
    }
}

impl Helper {
    /// Each client's certificate is another than the server's, and is found by the address of its
    /// user.
    #[verifier::type_invariant]
    spec fn well_formed(self) -> bool {
        forall|a: Seq<char>| #[trigger]
            self.client_certs@.dom().contains(a) ==> is_client(
                self.client_certs@[a]@,
                self.server_cert@,
            ) && pgp::cert_email(self.client_certs@[a]@) == Some(a)
                && pgp::certs_equal(self.server_cert@, self.server_cert@)
    }
}

impl Clone for Helper {
    fn clone(&self) -> (r: Self)
        ensures
            r@ == self@,
    {
        proof {
            use_type_invariant(self);
            self.client_certs.lemma_names();
        }
        let ghost all = self.client_certs@;
        let ghost names = self.client_certs.names();
        let n: usize = self.client_certs.len();
        let mut client_certs: Registry<String> = Registry::new();
        let mut i: usize = 0;
        while i < n
            invariant
                i <= n,
                n == names.len(),
                all == self.client_certs@,
                names == self.client_certs.names(),
                forall|a: Seq<char>| #[trigger]
                    client_certs@.dom().contains(a) <==> names.take(i as int).contains(a),
                forall|a: Seq<char>| #[trigger]
                    client_certs@.dom().contains(a) ==> client_certs@[a]@ == all[a]@,
            decreases n - i,
        {
            let (address, cert) = self.client_certs.entry(i);
            let ghost before = client_certs@;
            client_certs.insert(address.clone(), cert.clone());
            assert(names.take(i + 1) =~= names.take(i as int).push(names[i as int]));
            assert forall|a: Seq<char>| #[trigger]
                client_certs@.dom().contains(a) <==> names.take(i + 1).contains(a) by {
                if names.take(i as int).contains(a) {
                    let k = names.take(i as int).index_of(a);
                    assert(names.take(i + 1)[k] == a);
                }
                assert(names.take(i + 1)[i as int] == names[i as int]);
                assert(client_certs@.dom().contains(a) <==> before.dom().contains(a) || a
                    == names[i as int]);
            }
            i += 1;
        }
        assert(names.take(i as int) =~= names);
        assert(client_certs@.map_values(|c: String| c@) =~= all.map_values(|c: String| c@));
        assert forall|a: Seq<char>| #[trigger] client_certs@.dom().contains(a) implies is_client(
            client_certs@[a]@,
            self.server_cert@,
        ) && pgp::cert_email(client_certs@[a]@) == Some(a) && pgp::certs_equal(
            self.server_cert@,
            self.server_cert@,
        ) by {
            assert(all.dom().contains(a));
        }
        Helper {
            server_cert: self.server_cert.clone(),
            client_certs,
            password: match &self.password {
                Some(p) => Some(p.clone()),
                None => None,
            },
        }
    }
}

/// A certificate with secret keys.
pub open spec fn is_server(cert: Seq<char>) -> bool {
    pgp::holds_cert(cert) && pgp::holds_secret(cert)
}

/// The first certificate with secret keys.
pub open spec fn server_of(certs: Seq<Seq<char>>) -> Option<Seq<char>>
    decreases certs.len(),
{
    if certs.len() == 0 {
        None
    } else if is_server(certs[0]) {
        Some(certs[0])
    } else {
        server_of(certs.skip(1))
    }
}

/// A certificate other than the server's, with the address of its user.
pub open spec fn is_client(cert: Seq<char>, server: Seq<char>) -> bool {
    pgp::holds_cert(cert) && !pgp::certs_equal(cert, server) && pgp::cert_email(cert) is Some
}

/// The clients' certificates by address. Of two with one address the later one counts.
pub open spec fn clients_of(certs: Seq<Seq<char>>, server: Seq<char>) -> Map<Seq<char>, Seq<char>>
    decreases certs.len(),
{
    if certs.len() == 0 {
        Map::empty()
    } else if is_client(certs.last(), server) {
        clients_of(certs.drop_last(), server).insert(
            pgp::cert_email(certs.last())->0,
            certs.last(),
        )
    } else {
        clients_of(certs.drop_last(), server)
    }
}

/// A key to sign with, and the password where it takes one.
pub struct SigningKey {
    pub fingerprint: String,
    pub password: Option<String>,
}

/// A key to sign with, as a mathematical value.
#[verifier::ext_equal]
pub struct SigningKeyView {
    pub fingerprint: Seq<char>,
    pub password: Option<Seq<char>>,
}

impl View for SigningKey {
    type V = SigningKeyView;

    open spec fn view(&self) -> SigningKeyView {
        SigningKeyView {
            fingerprint: self.fingerprint@,
            password: text::opt_text(self.password),
        }
    }
}

/// How a message is signed, given which key was found and whether it is protected.
pub open spec fn signer_of(
    password: Option<Seq<char>>,
    found: Option<Seq<char>>,
    locked: bool,
) -> Result<SigningKeyView, PgpErrorView> {
    match found {
        None => Err(PgpErrorView::NoSigningKey),
        Some(fingerprint) => if !locked {
            Ok(SigningKeyView { fingerprint, password: None })
        } else if password is None {
            Err(PgpErrorView::KeyLocked)
        } else {
            Ok(SigningKeyView { fingerprint, password })
        },
    }
}

/// What stands against making the key ready to sign, in words.
pub open spec fn signer_fault(cert: Seq<char>, key: SigningKeyView) -> Option<Seq<char>> {
    match key.password {
        Some(p) => pgp::unlocking_fault(cert, key.fingerprint, p),
        None => pgp::opening_fault(cert, key.fingerprint),
    }
}

/// What came of sealing a message: the bytes, or why there are none.
pub open spec fn outcome(r: Result<Vec<u8>, PgpError>) -> Result<Seq<u8>, PgpErrorView> {
    match r {
        Ok(v) => Ok(v@),
        Err(e) => Err(e@),
    }
}

/// What comes of sealing a message for an address, given what the clock says when the key is
/// looked for and when the message is written, and which bytes chance gives.
pub open spec fn encryption(
    h: HelperView,
    message: Seq<u8>,
    address: Seq<char>,
    search: int,
    clock: int,
    chance: Seq<u8>,
) -> Result<Seq<u8>, PgpErrorView> {
    if !h.clients.dom().contains(address) {
        Err(PgpErrorView::NoClientCert(address))
    } else {
        let found = pgp::signing_key_at(h.server, search);
        match signer_of(h.password, found, pgp::key_is_locked(h.server, found->0)) {
            Err(e) => Err(e),
            Ok(key) => match signer_fault(h.server, key) {
                Some(words) => Err(PgpErrorView::Failed(words)),
                None => match pgp::sealed(
                    message,
                    h.clients[address],
                    h.server,
                    key.fingerprint,
                    clock,
                    chance,
                ) {
                    Ok(out) => Ok(out),
                    Err(words) => Err(PgpErrorView::Failed(words)),
                },
            },
        }
    }
}

impl Helper {
    /// Takes the keys from the contents of files. Those that are not one certificate are left
    /// out; the first certificate with secret keys is the server's; the others are found by the
    /// address of their first user.
    pub fn load_dir(contents: Vec<String>, password: Option<String>) -> (r: Result<Self, PgpError>)
        ensures
            match r {
                Ok(h) => {
                    &&& server_of(text::texts(contents@)) == Some(h@.server)
                    &&& h@.clients == clients_of(text::texts(contents@), h@.server)
                    &&& h@.password == text::opt_text(password)
                },
                Err(e) => {
                    &&& server_of(text::texts(contents@)) is None
                    &&& e@ == PgpErrorView::NoServerCert
                },
            },
    {
        let ghost certs = text::texts(contents@);
        let server_cert = match find_server(&contents) {
            Some(c) => c,
            None => return Err(PgpError::NoServerCert),
        };
        let ghost server = server_cert@;
        proof {
            lemma_server_is_given(certs);
        }
        let mut client_certs: Registry<String> = Registry::new();
        let mut i: usize = 0;
        assert(client_certs@.map_values(|c: String| c@) =~= clients_of(certs.take(0), server));
        while i < contents.len()
            invariant
                i <= contents@.len(),
                certs == text::texts(contents@),
                server == server_cert@,
                pgp::holds_cert(server),
                client_certs@.map_values(|c: String| c@) == clients_of(
                    certs.take(i as int),
                    server,
                ),
                forall|k: int|
                    0 <= k < i && #[trigger] certs[k] == server ==> pgp::certs_equal(server, server),
            decreases contents@.len() - i,
        {
            let cert = contents[i].as_str();
            assert(certs[i as int] == cert@);
            assert(certs.take(i + 1).drop_last() =~= certs.take(i as int));
            let ghost before = client_certs@;
            if pgp::is_cert(cert) && !pgp::same_cert(cert, server_cert.as_str()) {
                if let Some(address) = pgp::email(cert) {
                    let ghost a = address@;
                    let kept = contents[i].clone();
                    client_certs.insert(address, kept);
                    assert(client_certs@.map_values(|c: String| c@) =~= before.map_values(
                        |c: String| c@,
                    ).insert(a, cert@));
                }
            }
            i += 1;
        }
        assert(certs.take(i as int) =~= certs);
        proof {
            let k = choose|k: int| 0 <= k < certs.len() && certs[k] == server;
            assert(certs[k] == server);
        }
        assert forall|a: Seq<char>| #[trigger]
            client_certs@.dom().contains(a) implies is_client(client_certs@[a]@, server)
            && pgp::cert_email(client_certs@[a]@) == Some(a) by {
            assert(clients_of(certs, server).dom().contains(a));
            assert(clients_of(certs, server)[a] == client_certs@[a]@);
            lemma_clients_are_given(certs, server, a);
        }
        Ok(Helper { server_cert, client_certs, password })
    }

    /// The server's certificate.
    pub fn server_cert(&self) -> (r: &String)
        ensures
            r@ == self@.server,
    {
        &self.server_cert
    }

    /// Whether there is a certificate for the address.
    pub fn has_client_cert(&self, email: &str) -> (r: bool)
        ensures
            r == self@.clients.dom().contains(email@),
    {
        self.client_certs.contains(email)
    }

    /// How a message is signed, given which key was found and whether it is protected.
    pub fn signer(&self, found: Option<String>, locked: bool) -> (r: Result<SigningKey, PgpError>)
        ensures
            match r {
                Ok(key) => signer_of(self@.password, text::opt_text(found), locked) == Ok::<
                    SigningKeyView,
                    PgpErrorView,
                >(key@),
                Err(e) => signer_of(self@.password, text::opt_text(found), locked) == Err::<
                    SigningKeyView,
                    PgpErrorView,
                >(e@),
            },
    {
        let fingerprint = match found {
            Some(f) => f,
            None => return Err(PgpError::NoSigningKey),
        };
        if !locked {
            return Ok(SigningKey { fingerprint, password: None });
        }
        match &self.password {
            Some(p) => Ok(SigningKey { fingerprint, password: Some(p.clone()) }),
            None => Err(PgpError::KeyLocked),
        }
    }

    /// Encrypts a message for the client with that address, and signs it.
    pub fn encrypt_message(&self, message: &[u8], email: String) -> (r: Result<Vec<u8>, PgpError>)
        ensures
            exists|search: int, clock: int, chance: Seq<u8>|
                outcome(r) == #[trigger] encryption(
                    self@,
                    message@,
                    email@,
                    search,
                    clock,
                    chance,
                ),
            r matches Ok(out) ==> pgp::is_armored(out@),
            r matches Ok(out) ==> self@.clients.dom().contains(email@) && is_sealed_whole(
                self@,
                message@,
                email@,
                out@,
            ),
            r matches Err(PgpError::NoClientCert(a)) ==> a@ == email@
                && !self@.clients.dom().contains(email@),
            !self@.clients.dom().contains(email@) ==> r is Err && r->Err_0 is NoClientCert,
    {
        let ghost h = self@;
        let ghost address = email@;
        let recipient = match self.client_certs.get(email.as_str()) {
            Some(c) => c,
            None => {
                let r: Result<Vec<u8>, PgpError> = Err(PgpError::NoClientCert(email));
                assert(outcome(r) == encryption(h, message@, address, 0, 0, seq![]));
                return r;
            },
        };
        let server = self.server_cert.as_str();
        let found = pgp::signing_key(server);
        let ghost search = choose|clock: int|
            text::opt_text(found) == #[trigger] pgp::signing_key_at(h.server, clock);
        let locked = match &found {
            Some(f) => pgp::is_locked(server, f.as_str()),
            None => false,
        };
        let key = match self.signer(found, locked) {
            Ok(key) => key,
            Err(e) => {
                let r: Result<Vec<u8>, PgpError> = Err(e);
                assert(outcome(r) == encryption(h, message@, address, search, 0, seq![]));
                return r;
            },
        };
        let opened = match &key.password {
            Some(p) => pgp::open_locked_key(server, key.fingerprint.as_str(), p.as_str()),
            None => pgp::open_key(server, key.fingerprint.as_str()),
        };
        let ready = match opened {
            Ok(k) => k,
            Err(e) => {
                let r: Result<Vec<u8>, PgpError> = Err(PgpError::Failed(e));
                assert(outcome(r) == encryption(h, message@, address, search, 0, seq![]));
                return r;
            },
        };
        let out = pgp::seal(message, recipient.as_str(), ready);
        let ghost (clock, chance) = choose|clock: int, chance: Seq<u8>|
            pgp::sealing(out) == #[trigger] pgp::sealed(
                message@,
                recipient@,
                h.server,
                key.fingerprint@,
                clock,
                chance,
            );
        let r: Result<Vec<u8>, PgpError> = match out {
            Ok(v) => Ok(v),
            Err(e) => Err(PgpError::Failed(e)),
        };
        assert(outcome(r) == encryption(h, message@, address, search, clock, chance));
        proof {
            if r is Ok {
                let out = (r->Ok_0)@;
                assert(pgp::sealed(
                    message@,
                    h.clients[address],
                    h.server,
                    key.fingerprint@,
                    clock,
                    chance,
                ) == Ok::<Seq<u8>, Seq<char>>(out));
                assert(pgp::signing_key_at(h.server, search) == Some(key.fingerprint@));
            }
        }
        r
    }
}

/// The bytes are the whole of the message, sealed for the certificate of the address, and signed
/// with a key of the server's certificate that was found good for signing.
pub open spec fn is_sealed_whole(
    h: HelperView,
    message: Seq<u8>,
    address: Seq<char>,
    out: Seq<u8>,
) -> bool {
    exists|fingerprint: Seq<char>, search: int, clock: int, chance: Seq<u8>|
        {
            &&& #[trigger] pgp::sealed(
                message,
                h.clients[address],
                h.server,
                fingerprint,
                clock,
                chance,
            ) == Ok::<Seq<u8>, Seq<char>>(out)
            &&& #[trigger] pgp::signing_key_at(h.server, search) == Some(fingerprint)
        }
}

/// The first certificate with secret keys.
fn find_server(contents: &Vec<String>) -> (r: Option<String>)
    ensures
        text::opt_text(r) == server_of(text::texts(contents@)),
{
    let ghost certs = text::texts(contents@);
    assert(certs.skip(0) =~= certs);
    let mut i: usize = 0;
    while i < contents.len()
        invariant
            i <= contents@.len(),
            certs == text::texts(contents@),
            server_of(certs) == server_of(certs.skip(i as int)),
        decreases contents@.len() - i,
    {
        let cert = contents[i].as_str();
        assert(certs.skip(i as int)[0] == cert@);
        assert(certs.skip(i as int).skip(1) =~= certs.skip(i + 1));
        if pgp::is_cert(cert) && pgp::is_tsk(cert) {
            return Some(contents[i].clone());
        }
        i += 1;
    }
    None
}

/// An optional text as a sequence.
pub open spec fn listed(t: Option<Seq<char>>) -> Seq<Seq<char>> {
    match t {
        Some(t) => seq![t],
        None => seq![],
    }
}

/// The handles of a certificate: its own fingerprint and key id, and those of each of its keys.
pub open spec fn cert_handles(cert: Seq<char>) -> Seq<Seq<char>> {
    listed(pgp::cert_fingerprint(cert)) + listed(pgp::cert_keyid(cert)) + pgp::key_fingerprints(
        cert,
    ) + pgp::key_ids(cert)
}

/// One of the handles may belong to a key of the certificate.
pub open spec fn has_handle(cert: Seq<char>, ids: Seq<Seq<char>>) -> bool {
    exists|i: int, k: int|
        0 <= i < ids.len() && 0 <= k < cert_handles(cert).len() && #[trigger] pgp::handles_alias(
            ids[i],
            cert_handles(cert)[k],
        )
}

/// The handles of a certificate.
fn handle_list(cert: &str) -> (r: Vec<String>)
    ensures
        text::texts(r@) == cert_handles(cert@),
{
    let mut r: Vec<String> = Vec::new();
    let ghost own = listed(pgp::cert_fingerprint(cert@));
    if let Some(f) = pgp::fingerprint(cert) {
        r.push(f);
    }
    assert(text::texts(r@) =~= own);
    let ghost both = own + listed(pgp::cert_keyid(cert@));
    if let Some(k) = pgp::keyid(cert) {
        r.push(k);
    }
    assert(text::texts(r@) =~= both);
    let mut more = pgp::fingerprints_of_keys(cert);
    let ghost fs = more@;
    let ghost before = r@;
    r.append(&mut more);
    assert(text::texts(r@) =~= text::texts(before) + text::texts(fs));
    let mut more = pgp::keyids_of_keys(cert);
    let ghost ks = more@;
    let ghost before = r@;
    r.append(&mut more);
    assert(text::texts(r@) =~= text::texts(before) + text::texts(ks));
    r
}

/// The certificates that one of the handles may belong to, in order.
pub open spec fn certs_with(certs: Seq<Seq<char>>, ids: Seq<Seq<char>>) -> Seq<Seq<char>>
    decreases certs.len(),
{
    if certs.len() == 0 {
        seq![]
    } else if has_handle(certs.last(), ids) {
        certs_with(certs.drop_last(), ids).push(certs.last())
    } else {
        certs_with(certs.drop_last(), ids)
    }
}

/// Whether one of the handles may belong to a key of the certificate.
fn matches_handle(cert: &str, ids: &Vec<String>) -> (r: bool)
    ensures
        r == has_handle(cert@, text::texts(ids@)),
{
    let known = handle_list(cert);
    let ghost own = cert_handles(cert@);
    let ghost asked = text::texts(ids@);
    let mut i: usize = 0;
    while i < ids.len()
        invariant
            i <= ids@.len(),
            asked == text::texts(ids@),
            own == text::texts(known@),
                own == cert_handles(cert@),
            forall|a: int, b: int|
                0 <= a < i && 0 <= b < own.len() ==> !#[trigger] pgp::handles_alias(
                    asked[a],
                    own[b],
                ),
        decreases ids@.len() - i,
    {
        let mut k: usize = 0;
        while k < known.len()
            invariant
                i < ids@.len(),
                k <= known@.len(),
                asked == text::texts(ids@),
                own == text::texts(known@),
                own == cert_handles(cert@),
                forall|b: int|
                    0 <= b < k ==> !#[trigger] pgp::handles_alias(asked[i as int], own[b]),
            decreases known@.len() - k,
        {
            assert(asked[i as int] == ids@[i as int]@);
            assert(own[k as int] == known@[k as int]@);
            if pgp::aliases(ids[i].as_str(), known[k].as_str()) {
                assert(pgp::handles_alias(asked[i as int], own[k as int]));
                return true;
            }
            k += 1;
        }
        i += 1;
    }
    false
}

impl Helper {
    /// The server's certificate, and behind it those of the clients.
    pub closed spec fn all_certs(self) -> Seq<Seq<char>> {
        seq![self.server_cert@] + self.client_certs.names().map_values(
            |a: Seq<char>| self.client_certs@[a]@,
        )
    }

    /// The certificates that a signature is checked with: those that one of the handles may
    /// belong to, or all where there are no handles.
    pub fn get_certs(&self, ids: &Vec<String>) -> (r: Vec<String>)
        ensures
            text::texts(r@) == if ids@.len() == 0 {
                self.all_certs()
            } else {
                certs_with(self.all_certs(), text::texts(ids@))
            },
            text::texts(r@).no_duplicates(),
            text::texts(r@).contains(self@.server) ==> text::texts(r@)[0] == self@.server,
            forall|c: Seq<char>| #[trigger]
                text::texts(r@).contains(c) <==> self@.holds(c) && (ids@.len() == 0 || has_handle(
                    c,
                    text::texts(ids@),
                )),
            ids@.len() == 0 ==> text::texts(r@).contains(self@.server),
            forall|a: Seq<char>|
                ids@.len() == 0 && #[trigger] self@.clients.dom().contains(a) ==> text::texts(
                    r@,
                ).contains(self@.clients[a]),
    {
        proof {
            assert(self@.holds(self@.server));
            assert forall|a: Seq<char>| #[trigger] self@.clients.dom().contains(a) implies self@.holds(
                self@.clients[a],
            ) by {}
        }
        let all = self.cert_list();
        proof {
            self.lemma_all_certs();
            lemma_certs_with(self.all_certs(), text::texts(ids@));
        }
        if ids.len() == 0 {
            return all;
        }
        let ghost certs = text::texts(all@);
        let ghost asked = text::texts(ids@);
        let mut r: Vec<String> = Vec::new();
        let mut i: usize = 0;
        assert(text::texts(r@) =~= certs_with(certs.take(0), asked));
        while i < all.len()
            invariant
                i <= all@.len(),
                certs == text::texts(all@),
                asked == text::texts(ids@),
                text::texts(r@) == certs_with(certs.take(i as int), asked),
            decreases all@.len() - i,
        {
            assert(certs[i as int] == all@[i as int]@);
            assert(certs.take(i + 1).drop_last() =~= certs.take(i as int));
            if matches_handle(all[i].as_str(), ids) {
                let ghost before = r@;
                r.push(all[i].clone());
                assert(text::texts(r@) =~= text::texts(before).push(certs[i as int]));
            }
            i += 1;
        }
        assert(certs.take(i as int) =~= certs);
        r
    }

    /// The server's certificate, and behind it those of the clients.
    fn cert_list(&self) -> (r: Vec<String>)
        ensures
            text::texts(r@) == self.all_certs(),
            self.all_certs().no_duplicates(),
    {
        let n: usize = self.client_certs.len();
        proof {
            use_type_invariant(self);
            self.client_certs.lemma_names();
            let names = self.client_certs.names();
            let all = self.all_certs();
            assert forall|i: int, j: int|
                0 <= i < all.len() && 0 <= j < all.len() && i != j implies all[i] != all[j] by {
                if i > 0 {
                    assert(names.contains(names[i - 1]));
                    assert(self.client_certs@.dom().contains(names[i - 1]));
                }
                if j > 0 {
                    assert(names.contains(names[j - 1]));
                    assert(self.client_certs@.dom().contains(names[j - 1]));
                }
            }
        }
        let mut r: Vec<String> = Vec::new();
        r.push(self.server_cert.clone());
        let mut i: usize = 0;
        assert(text::texts(r@) =~= self.all_certs().take(1));
        while i < n
            invariant
                i <= n == self.client_certs.names().len(),
                text::texts(r@) == self.all_certs().take(i + 1),
            decreases self.client_certs.names().len() - i,
        {
            let (_, cert) = self.client_certs.entry(i);
            let ghost before = r@;
            r.push(cert.clone());
            assert(text::texts(r@) =~= text::texts(before).push(cert@));
            assert(self.all_certs().take(i + 2) =~= self.all_certs().take(i + 1).push(
                self.all_certs()[i + 1],
            ));
            i += 1;
        }
        assert(self.all_certs().take(i + 1) =~= self.all_certs());
        r
    }

    /// All certificates are the server's, which comes first, and those of the clients.
    pub proof fn lemma_all_certs(&self)
        ensures
            self.all_certs().len() > 0,
            self.all_certs()[0] == self@.server,
            forall|c: Seq<char>| #[trigger] self.all_certs().contains(c) <==> self@.holds(c),
    {
        let names = self.client_certs.names();
        let all = self.all_certs();
        self.client_certs.lemma_names();
        assert(all[0] == self@.server);
        assert forall|a: Seq<char>| #[trigger]
            self@.clients.dom().contains(a) implies all.contains(self@.clients[a]) by {
            assert(self.client_certs@.dom().contains(a));
            let i = choose|i: int| 0 <= i < names.len() && names[i] == a;
            assert(all[i + 1] == self@.clients[a]);
        }
        assert forall|c: Seq<char>| self@.holds(c) implies #[trigger] all.contains(c) by {
            if c != self@.server {
                let a = choose|a: Seq<char>| #[trigger]
                    self@.clients.dom().contains(a) && self@.clients[a] == c;
                assert(all.contains(self@.clients[a]));
            }
        }
        assert forall|c: Seq<char>| #[trigger] all.contains(c) implies self@.holds(c) by {
            let i = choose|i: int| 0 <= i < all.len() && all[i] == c;
            if i > 0 {
                let a = names[i - 1];
                assert(names.contains(a));
                assert(self.client_certs@.dom().contains(a));
                assert(self@.clients.dom().contains(a));
            }
        }
    }
}

/// Those that the handles pick out: each once where each is given once, and the first one first.
proof fn lemma_certs_with(certs: Seq<Seq<char>>, ids: Seq<Seq<char>>)
    ensures
        forall|c: Seq<char>| #[trigger]
            certs_with(certs, ids).contains(c) <==> certs.contains(c) && has_handle(c, ids),
        certs.no_duplicates() ==> certs_with(certs, ids).no_duplicates(),
        certs.len() > 0 && certs_with(certs, ids).contains(certs[0]) ==> certs_with(certs, ids)[0]
            == certs[0],
    decreases certs.len(),
{
    if certs.len() > 0 {
        let rest = certs.drop_last();
        let fewer = certs_with(rest, ids);
        let all = certs_with(certs, ids);
        let last = certs.last();
        lemma_certs_with(rest, ids);
        assert forall|c: Seq<char>| #[trigger] all.contains(c) implies certs.contains(c)
            && has_handle(c, ids) by {
            let k = choose|k: int| 0 <= k < all.len() && all[k] == c;
            if k < fewer.len() {
                assert(fewer[k] == c);
                assert(fewer.contains(c));
                let i = choose|i: int| 0 <= i < rest.len() && rest[i] == c;
                assert(certs[i] == c);
            } else {
                assert(certs[certs.len() - 1] == c);
            }
        }
        assert forall|c: Seq<char>| certs.contains(c) && has_handle(c, ids) implies #[trigger] all.contains(
            c,
        ) by {
            let i = choose|i: int| 0 <= i < certs.len() && certs[i] == c;
            if i < rest.len() {
                assert(rest[i] == c);
                assert(fewer.contains(c));
                let k = choose|k: int| 0 <= k < fewer.len() && fewer[k] == c;
                assert(all[k] == c);
            } else {
                assert(all[all.len() - 1] == c);
            }
        }
        if certs.no_duplicates() {
            assert forall|i: int, j: int|
                0 <= i < rest.len() && 0 <= j < rest.len() && i != j implies rest[i] != rest[j] by {
                assert(certs[i] != certs[j]);
            }
            assert forall|i: int, j: int|
                0 <= i < all.len() && 0 <= j < all.len() && i != j implies all[i] != all[j] by {
                if i >= fewer.len() || j >= fewer.len() {
                    let k = if i < fewer.len() { i } else { j };
                    assert(fewer.contains(fewer[k]));
                    let m = choose|m: int| 0 <= m < rest.len() && rest[m] == fewer[k];
                    assert(certs[m] != certs[certs.len() - 1]);
                } else {
                    assert(fewer[i] != fewer[j]);
                }
            }
        }
        if all.contains(certs[0]) {
            if rest.len() > 0 {
                assert(rest[0] == certs[0]);
                assert(rest.contains(certs[0]));
                assert(fewer.contains(certs[0]));
                assert(all[0] == fewer[0]);
            }
        }
    }
}

/// Where there is a server's certificate, it is one of those given, and has secret keys.
pub proof fn lemma_server_is_given(certs: Seq<Seq<char>>)
    ensures
        server_of(certs) matches Some(s) ==> certs.contains(s) && is_server(s),
        server_of(certs) is None ==> forall|i: int|
            0 <= i < certs.len() ==> !is_server(#[trigger] certs[i]),
    decreases certs.len(),
{
    if certs.len() > 0 && !is_server(certs[0]) {
        let rest = certs.skip(1);
        lemma_server_is_given(rest);
        match server_of(rest) {
            Some(s) => {
                let i = choose|i: int| 0 <= i < rest.len() && rest[i] == s;
                assert(certs[i + 1] == s);
            },
            None => {
                assert forall|i: int| 0 <= i < certs.len() implies !is_server(
                    #[trigger] certs[i],
                ) by {
                    if i > 0 {
                        assert(certs[i] == rest[i - 1]);
                    }
                }
            },
        }
    }
}

/// A client's certificate is one of those given, other than the server's, and is found by the
/// address of its user.
pub proof fn lemma_clients_are_given(certs: Seq<Seq<char>>, server: Seq<char>, address: Seq<char>)
    requires
        clients_of(certs, server).dom().contains(address),
    ensures
        ({
            let c = clients_of(certs, server)[address];
            &&& certs.contains(c)
            &&& is_client(c, server)
            &&& pgp::cert_email(c) == Some(address)
        }),
    decreases certs.len(),
{
    let rest = certs.drop_last();
    if is_client(certs.last(), server) && pgp::cert_email(certs.last())->0 == address {
        assert(certs[certs.len() - 1] == certs.last());
    } else {
        lemma_clients_are_given(rest, server, address);
        let c = clients_of(rest, server)[address];
        let i = choose|i: int| 0 <= i < rest.len() && rest[i] == c;
        assert(certs[i] == c);
    }
}

/// A message is sealed only for a certificate that was given, that is not the server's, and whose
/// user has the address that the message goes to.
pub proof fn lemma_sealed_for_its_client(
    h: HelperView,
    certs: Seq<Seq<char>>,
    message: Seq<u8>,
    address: Seq<char>,
    search: int,
    clock: int,
    chance: Seq<u8>,
)
    requires
        h.clients == clients_of(certs, h.server),
        encryption(h, message, address, search, clock, chance) is Ok,
    ensures
        h.clients.dom().contains(address),
        certs.contains(h.clients[address]),
        !pgp::certs_equal(h.clients[address], h.server),
        pgp::cert_email(h.clients[address]) == Some(address),
{
    lemma_clients_are_given(certs, h.server, address);
}

/// A layer of a message that was opened.
pub enum Layer {
    /// A group of signatures: whether each is good.
    Signatures(Vec<bool>),
    /// Encryption or compression.
    Other,
}

/// A layer of signatures with a good one.
pub open spec fn is_signed(layer: Layer) -> bool {
    layer matches Layer::Signatures(good) && good@.contains(true)
}

impl Helper {
    /// Asks of a message that it has signatures, and that each group of them has a good one.
    pub fn check(layers: &Vec<Layer>) -> (r: Result<(), PgpError>)
        ensures
            match r {
                Ok(_) => {
                    &&& exists|i: int| 0 <= i < layers@.len() && #[trigger] layers@[i] is Signatures
                    &&& forall|i: int|
                        0 <= i < layers@.len() && #[trigger] layers@[i] is Signatures ==> is_signed(
                            layers@[i],
                        )
                },
                Err(PgpError::NoValidSignature) => exists|i: int|
                    0 <= i < layers@.len() && #[trigger] layers@[i] is Signatures && !is_signed(
                        layers@[i],
                    ),
                Err(PgpError::NotSigned) => forall|i: int|
                    0 <= i < layers@.len() ==> !(#[trigger] layers@[i] is Signatures),
                Err(_) => false,
            },
            r is Ok ==> forall|i: int|
                0 <= i < layers@.len() ==> (#[trigger] layers@[i] matches Layer::Signatures(good)
                    ==> exists|k: int| 0 <= k < good@.len() && #[trigger] good@[k]),
            r is Err && r->Err_0 is NoValidSignature ==> exists|i: int|
                0 <= i < layers@.len() && #[trigger] has_no_good(layers@[i]),
    {
        let mut seen = false;
        let mut i: usize = 0;
        while i < layers.len()
            invariant
                i <= layers@.len(),
                seen == exists|k: int| 0 <= k < i && #[trigger] layers@[k] is Signatures,
                forall|k: int|
                    0 <= k < i && #[trigger] layers@[k] is Signatures ==> is_signed(layers@[k]),
            decreases layers@.len() - i,
        {
            if let Layer::Signatures(good) = &layers[i] {
                seen = true;
                assert(layers@[i as int] is Signatures);
                if !any_good(good) {
                    proof {
                        assert forall|k: int| 0 <= k < good@.len() implies !#[trigger] good@[k] by {
                            if good@[k] {
                                assert(good@.contains(true));
                            }
                        }
                        assert(has_no_good(layers@[i as int]));
                    }
                    return Err(PgpError::NoValidSignature);
                }
            }
            i += 1;
        }
        if !seen {
            return Err(PgpError::NotSigned);
        }
        Ok(())
    }
}

/// A group of signatures none of which is good.
pub open spec fn has_no_good(layer: Layer) -> bool {
    layer matches Layer::Signatures(good) && forall|k: int|
        0 <= k < good@.len() ==> !#[trigger] good@[k]
}

/// Whether one of the signatures is good.
fn any_good(good: &Vec<bool>) -> (r: bool)
    ensures
        r == good@.contains(true),
{
    let mut i: usize = 0;
    while i < good.len()
        invariant
            i <= good@.len(),
            forall|k: int| 0 <= k < i ==> !#[trigger] good@[k],
        decreases good@.len() - i,
    {
        if good[i] {
            assert(good@[i as int] == true);
            return true;
        }
        i += 1;
    }
    false
}

/// What is done next to find a key that opens a message. Keys and packets go by their positions.
#[derive(Debug)]
pub enum SearchStep {
    /// See whether the key is protected.
    Look(usize),
    /// Open the key with the password.
    Unlock(usize, String),
    /// Make the key ready to use.
    Prepare(usize),
    /// Try the key on the packet.
    Try(usize, usize),
    /// The key that was tried opens the message.
    Found,
    /// No key opens the message.
    NotFound,
    /// A key could not be opened with the password.
    Failed,
}

/// What is done next, as a mathematical value.
pub enum SearchView {
    Look(int),
    Unlock(int, Seq<char>),
    Prepare(int),
    Try(int, int),
    Found,
    NotFound,
    Failed,
}

impl View for SearchStep {
    type V = SearchView;

    open spec fn view(&self) -> SearchView {
        match self {
            SearchStep::Look(k) => SearchView::Look(*k as int),
            SearchStep::Unlock(k, p) => SearchView::Unlock(*k as int, p@),
            SearchStep::Prepare(k) => SearchView::Prepare(*k as int),
            SearchStep::Try(k, p) => SearchView::Try(*k as int, *p as int),
            SearchStep::Found => SearchView::Found,
            SearchStep::NotFound => SearchView::NotFound,
            SearchStep::Failed => SearchView::Failed,
        }
    }
}

/// The next key is looked at, where there is one.
pub open spec fn look_at(k: int, keys: int) -> SearchView {
    if k < keys {
        SearchView::Look(k)
    } else {
        SearchView::NotFound
    }
}

/// The next packet is tried, or the next key is looked at.
pub open spec fn try_on(k: int, p: int, keys: int, packets: int) -> SearchView {
    if p < packets {
        SearchView::Try(k, p)
    } else {
        look_at(k + 1, keys)
    }
}

/// What follows on a step. The answer says that the key is protected, or that the step went well.
/// Each key is used in turn, and on each packet in turn. A protected key is left out where there
/// is no password, and so is one that cannot be made ready.
pub open spec fn search_next(
    step: SearchView,
    answer: bool,
    password: Option<Seq<char>>,
    keys: int,
    packets: int,
) -> SearchView {
    match step {
        SearchView::Look(k) => if !answer {
            SearchView::Prepare(k)
        } else {
            match password {
                Some(p) => SearchView::Unlock(k, p),
                None => look_at(k + 1, keys),
            }
        },
        SearchView::Unlock(k, _) => if answer {
            SearchView::Prepare(k)
        } else {
            SearchView::Failed
        },
        SearchView::Prepare(k) => if answer {
            try_on(k, 0, keys, packets)
        } else {
            look_at(k + 1, keys)
        },
        SearchView::Try(k, p) => if answer {
            SearchView::Found
        } else {
            try_on(k, p + 1, keys, packets)
        },
        _ => step,
    }
}

/// The step is about a key and a packet that there are.
pub open spec fn in_bounds(step: SearchView, keys: int, packets: int) -> bool {
    match step {
        SearchView::Look(k) => 0 <= k < keys,
        SearchView::Unlock(k, _) => 0 <= k < keys,
        SearchView::Prepare(k) => 0 <= k < keys,
        SearchView::Try(k, p) => 0 <= k < keys && 0 <= p < packets,
        _ => true,
    }
}

/// The search is over.
pub open spec fn is_over(step: SearchView) -> bool {
    step is Found || step is NotFound || step is Failed
}

/// The next key is looked at, where there is one.
fn look_from(k: usize, keys: usize) -> (r: SearchStep)
    ensures
        r@ == look_at(k as int, keys as int),
{
    if k < keys {
        SearchStep::Look(k)
    } else {
        SearchStep::NotFound
    }
}

/// The first step of a search.
pub fn search_first(keys: usize) -> (r: SearchStep)
    ensures
        r@ == look_at(0, keys as int),
{
    look_from(0, keys)
}

impl Helper {
    /// The step that follows on a step of a search.
    pub fn search_next(
        &self,
        step: SearchStep,
        answer: bool,
        keys: usize,
        packets: usize,
    ) -> (r: SearchStep)
        requires
            in_bounds(step@, keys as int, packets as int),
        ensures
            r@ == search_next(step@, answer, self@.password, keys as int, packets as int),
            in_bounds(r@, keys as int, packets as int),
    {
        match step {
            SearchStep::Look(k) => if !answer {
                SearchStep::Prepare(k)
            } else {
                match &self.password {
                    Some(p) => SearchStep::Unlock(k, p.clone()),
                    None => look_from(k + 1, keys),
                }
            },
            SearchStep::Unlock(k, _) => if answer {
                SearchStep::Prepare(k)
            } else {
                SearchStep::Failed
            },
            SearchStep::Prepare(k) => if answer && 0 < packets {
                SearchStep::Try(k, 0)
            } else {
                look_from(k + 1, keys)
            },
            SearchStep::Try(k, p) => if answer {
                SearchStep::Found
            } else if p + 1 < packets {
                SearchStep::Try(k, p + 1)
            } else {
                look_from(k + 1, keys)
            },
            other => other,
        }
    }
}

/// How far a search is from its end: the keys that are left, then the steps that are left with
/// this key.
pub open spec fn steps_left(step: SearchView, keys: int, packets: int) -> (int, int) {
    match step {
        SearchView::Look(k) => (keys - k, packets + 3),
        SearchView::Unlock(k, _) => (keys - k, packets + 2),
        SearchView::Prepare(k) => (keys - k, packets + 1),
        SearchView::Try(k, p) => (keys - k, packets - p),
        _ => (0, 0),
    }
}

/// A search ends: each step that is not the last brings it nearer to its end.
pub proof fn lemma_search_ends(
    step: SearchView,
    answer: bool,
    password: Option<Seq<char>>,
    keys: int,
    packets: int,
)
    requires
        packets >= 0,
        in_bounds(step, keys, packets),
        !is_over(step),
    ensures
        ({
            let next = search_next(step, answer, password, keys, packets);
            let (a, b) = steps_left(step, keys, packets);
            let (c, d) = steps_left(next, keys, packets);
            &&& in_bounds(next, keys, packets)
            &&& c >= 0 && d >= 0
            &&& c < a || (c == a && d < b)
        }),
{
}

/// A message counts as opened only where a key that was ready opened it, and a search is given up
/// only where a password did not open a key.
pub proof fn lemma_search_outcome(
    step: SearchView,
    answer: bool,
    password: Option<Seq<char>>,
    keys: int,
    packets: int,
)
    requires
        !is_over(step),
    ensures
        search_next(step, answer, password, keys, packets) is Found <==> step is Try && answer,
        search_next(step, answer, password, keys, packets) is Failed <==> step is Unlock && !answer,
        search_next(step, answer, password, keys, packets) is Unlock ==> password is Some,
{
}

/// What comes of the steps of a search: which keys are protected, which of those the password
/// opens, which can be made ready, and which packets each of them opens.
pub struct KeyRing {
    pub locked: spec_fn(int) -> bool,
    pub unlocks: spec_fn(int) -> bool,
    pub prepares: spec_fn(int) -> bool,
    pub opens: spec_fn(int, int) -> bool,
}

/// The answer to a step.
pub open spec fn answer_to(ring: KeyRing, step: SearchView) -> bool {
    match step {
        SearchView::Look(k) => (ring.locked)(k),
        SearchView::Unlock(k, _) => (ring.unlocks)(k),
        SearchView::Prepare(k) => (ring.prepares)(k),
        SearchView::Try(k, p) => (ring.opens)(k, p),
        _ => false,
    }
}

/// How a search ends.
pub open spec fn search_end(
    step: SearchView,
    ring: KeyRing,
    password: Option<Seq<char>>,
    keys: int,
    packets: int,
) -> SearchView
    decreases
            steps_left(step, keys, packets).0,
            steps_left(step, keys, packets).1,
    when packets >= 0 && in_bounds(step, keys, packets)
{
    if is_over(step) {
        step
    } else {
        proof {
            lemma_search_ends(step, answer_to(ring, step), password, keys, packets);
        }
        search_end(
            search_next(step, answer_to(ring, step), password, keys, packets),
            ring,
            password,
            keys,
            packets,
        )
    }
}

/// A key that can be used: one that is not protected, or that the password opens, and that can be
/// made ready.
pub open spec fn is_usable(ring: KeyRing, password: Option<Seq<char>>, k: int) -> bool {
    &&& (ring.locked)(k) ==> password is Some && (ring.unlocks)(k)
    &&& (ring.prepares)(k)
}

/// A protected key that the password does not open.
pub open spec fn is_stuck(ring: KeyRing, password: Option<Seq<char>>, k: int) -> bool {
    (ring.locked)(k) && password is Some && !(ring.unlocks)(k)
}

/// What is known when a step is reached.
spec fn is_reached(
    step: SearchView,
    ring: KeyRing,
    password: Option<Seq<char>>,
    keys: int,
    packets: int,
) -> bool {
    match step {
        SearchView::Look(_) => true,
        SearchView::Unlock(k, _) => (ring.locked)(k) && password is Some,
        SearchView::Prepare(k) => (ring.locked)(k) ==> password is Some && (ring.unlocks)(k),
        SearchView::Try(k, p) => is_usable(ring, password, k) && forall|q: int|
            0 <= q < p ==> !(#[trigger] (ring.opens)(k, q)),
        _ => false,
    }
}

/// The key that a step is about.
spec fn key_of(step: SearchView) -> int {
    match step {
        SearchView::Look(k) => k,
        SearchView::Unlock(k, _) => k,
        SearchView::Prepare(k) => k,
        SearchView::Try(k, _) => k,
        _ => 0,
    }
}

/// How a search ends, from a step on.
proof fn lemma_search_from(
    step: SearchView,
    ring: KeyRing,
    password: Option<Seq<char>>,
    keys: int,
    packets: int,
)
    requires
        packets >= 0,
        in_bounds(step, keys, packets),
        is_reached(step, ring, password, keys, packets),
    ensures
        match search_end(step, ring, password, keys, packets) {
            SearchView::Found => exists|k: int, p: int|
                key_of(step) <= k < keys && 0 <= p < packets && is_usable(ring, password, k)
                    && #[trigger] (ring.opens)(k, p),
            SearchView::Failed => exists|k: int|
                key_of(step) <= k < keys && #[trigger] is_stuck(ring, password, k),
            SearchView::NotFound => {
                &&& forall|k: int|
                    key_of(step) <= k < keys ==> !(#[trigger] is_stuck(ring, password, k))
                &&& forall|k: int, p: int|
                    key_of(step) <= k < keys && 0 <= p < packets && is_usable(ring, password, k)
                        ==> !(#[trigger] (ring.opens)(k, p))
            },
            _ => false,
        },
    decreases steps_left(step, keys, packets).0, steps_left(step, keys, packets).1,
{
    let answer = answer_to(ring, step);
    let next = search_next(step, answer, password, keys, packets);
    lemma_search_ends(step, answer, password, keys, packets);
    let k = key_of(step);
    assert(search_end(step, ring, password, keys, packets) == search_end(
        next,
        ring,
        password,
        keys,
        packets,
    ));
    if next is Failed {
        assert(is_stuck(ring, password, k));
    } else if next is Found {
        assert((ring.opens)(k, step->Try_1));
    } else if !is_over(next) {
        lemma_search_from(next, ring, password, keys, packets);
    }
}

/// What a search finds: it is successful only where a key that can be used opens a packet, and
/// without success only where there is no such key; it is given up only where the password does not
/// open a protected key.
pub proof fn lemma_search_is_complete(
    ring: KeyRing,
    password: Option<Seq<char>>,
    keys: int,
    packets: int,
)
    requires
        keys >= 0,
        packets >= 0,
    ensures
        match search_end(look_at(0, keys), ring, password, keys, packets) {
            SearchView::Found => exists|k: int, p: int|
                0 <= k < keys && 0 <= p < packets && is_usable(ring, password, k)
                    && #[trigger] (ring.opens)(k, p),
            SearchView::Failed => exists|k: int|
                0 <= k < keys && #[trigger] is_stuck(ring, password, k),
            SearchView::NotFound => {
                &&& forall|k: int| 0 <= k < keys ==> !(#[trigger] is_stuck(ring, password, k))
                &&& forall|k: int, p: int|
                    0 <= k < keys && 0 <= p < packets && is_usable(ring, password, k) ==> !(
                    #[trigger] (ring.opens)(k, p))
            },
            _ => false,
        },
{
    if keys > 0 {
        lemma_search_from(look_at(0, keys), ring, password, keys, packets);
    }
}

/// What comes of sealing a message is decided step by step: by whether the address has a
/// certificate, whether a key is found, whether it is protected with no password to open it,
/// whether it can be used, and last by sealing. What is sealed is the message itself, the whole of
/// it, for the certificate of the address, with the server's key.
pub proof fn lemma_encryption(
    h: HelperView,
    message: Seq<u8>,
    address: Seq<char>,
    search: int,
    clock: int,
    chance: Seq<u8>,
)
    ensures
        ({
            let r = encryption(h, message, address, search, clock, chance);
            let known = h.clients.dom().contains(address);
            let found = pgp::signing_key_at(h.server, search);
            let locked = pgp::key_is_locked(h.server, found->0);
            let ready = known && found is Some && (locked ==> h.password is Some);
            let fault = if locked {
                pgp::unlocking_fault(h.server, found->0, h.password->0)
            } else {
                pgp::opening_fault(h.server, found->0)
            };
            let sealed = pgp::sealed(
                message,
                h.clients[address],
                h.server,
                found->0,
                clock,
                chance,
            );
            &&& r is Ok <==> ready && fault is None && sealed is Ok
            &&& r is Ok ==> r->Ok_0 == sealed->Ok_0
            &&& r == Err::<Seq<u8>, PgpErrorView>(PgpErrorView::NoClientCert(address)) <==> !known
            &&& r == Err::<Seq<u8>, PgpErrorView>(PgpErrorView::NoSigningKey) <==> known
                && found is None
            &&& r == Err::<Seq<u8>, PgpErrorView>(PgpErrorView::KeyLocked) <==> known
                && found is Some && locked && h.password is None
            &&& ready && fault is Some ==> r == Err::<Seq<u8>, PgpErrorView>(
                PgpErrorView::Failed(fault->0),
            )
            &&& ready && fault is None && sealed is Err ==> r == Err::<Seq<u8>, PgpErrorView>(
                PgpErrorView::Failed(sealed->Err_0),
            )
        }),
{
}

/// What comes of sealing two messages for one address is the same just where the seal gives the
/// same for each of them as a whole, at whatever place they differ and of whatever length they are.
pub proof fn lemma_messages_are_kept_apart(
    h: HelperView,
    first: Seq<u8>,
    second: Seq<u8>,
    address: Seq<char>,
    search: int,
    clock: int,
    chance: Seq<u8>,
)
    requires
        encryption(h, first, address, search, clock, chance) is Ok,
        encryption(h, second, address, search, clock, chance) is Ok,
    ensures
        ({
            let fingerprint = pgp::signing_key_at(h.server, search)->0;
            let cert = h.clients[address];
            &&& encryption(h, first, address, search, clock, chance) == encryption(
                h,
                second,
                address,
                search,
                clock,
                chance,
            ) <==> pgp::sealed(first, cert, h.server, fingerprint, clock, chance) == pgp::sealed(
                second,
                cert,
                h.server,
                fingerprint,
                clock,
                chance,
            )
        }),
{
}

/// The server's certificate is the first that is one with secret keys; where there is none, there
/// is no server.
pub proof fn lemma_server_is_first(certs: Seq<Seq<char>>)
    ensures
        match server_of(certs) {
            Some(s) => exists|i: int| #[trigger] is_first_secret(certs, i) && certs[i] == s,
            None => forall|i: int|
                0 <= i < certs.len() ==> !(pgp::holds_cert(#[trigger] certs[i])
                    && pgp::holds_secret(certs[i])),
        },
    decreases certs.len(),
{
    if certs.len() > 0 {
        if is_server(certs[0]) {
            assert(is_first_secret(certs, 0));
        } else {
            let rest = certs.skip(1);
            lemma_server_is_first(rest);
            match server_of(rest) {
                Some(s) => {
                    let i = choose|i: int| #[trigger] is_first_secret(rest, i) && rest[i] == s;
                    assert forall|j: int| 0 <= j < i + 1 implies !(pgp::holds_cert(
                        #[trigger] certs[j],
                    ) && pgp::holds_secret(certs[j])) by {
                        if j > 0 {
                            assert(certs[j] == rest[j - 1]);
                        }
                    }
                    assert(certs[i + 1] == rest[i]);
                    assert(is_first_secret(certs, i + 1));
                },
                None => {
                    assert forall|j: int| 0 <= j < certs.len() implies !(pgp::holds_cert(
                        #[trigger] certs[j],
                    ) && pgp::holds_secret(certs[j])) by {
                        if j > 0 {
                            assert(certs[j] == rest[j - 1]);
                        }
                    }
                },
            }
        }
    }
}

/// The text is a certificate with secret keys, and none before it is.
pub open spec fn is_first_secret(certs: Seq<Seq<char>>, i: int) -> bool {
    &&& 0 <= i < certs.len()
    &&& pgp::holds_cert(certs[i])
    &&& pgp::holds_secret(certs[i])
    &&& forall|j: int|
        0 <= j < i ==> !(pgp::holds_cert(#[trigger] certs[j]) && pgp::holds_secret(certs[j]))
}

/// The text is a certificate with that address that is not the server's.
pub open spec fn is_for(cert: Seq<char>, server: Seq<char>, address: Seq<char>) -> bool {
    pgp::holds_cert(cert) && !pgp::certs_equal(cert, server) && pgp::cert_email(cert) == Some(
        address,
    )
}

/// The certificate at that position is for the address, and none behind it is.
pub open spec fn is_last_for(
    certs: Seq<Seq<char>>,
    server: Seq<char>,
    address: Seq<char>,
    i: int,
) -> bool {
    &&& 0 <= i < certs.len()
    &&& is_for(certs[i], server, address)
    &&& forall|j: int| i < j < certs.len() ==> !is_for(#[trigger] certs[j], server, address)
}

/// A client's certificate is the last of those given that has the address and is not the server's;
/// an address that none of them has is not known.
pub proof fn lemma_client_is_last(certs: Seq<Seq<char>>, server: Seq<char>, address: Seq<char>)
    ensures
        clients_of(certs, server).dom().contains(address) ==> exists|i: int| #[trigger]
            is_last_for(certs, server, address, i) && clients_of(certs, server)[address] == certs[i],
        !clients_of(certs, server).dom().contains(address) ==> forall|i: int|
            0 <= i < certs.len() ==> !is_for(#[trigger] certs[i], server, address),
    decreases certs.len(),
{
    if certs.len() > 0 {
        let rest = certs.drop_last();
        let n = certs.len() - 1;
        lemma_client_is_last(rest, server, address);
        if is_for(certs[n], server, address) {
            assert(is_last_for(certs, server, address, n));
        } else if clients_of(certs, server).dom().contains(address) {
            let i = choose|i: int| #[trigger]
                is_last_for(rest, server, address, i) && clients_of(rest, server)[address]
                    == rest[i];
            assert forall|j: int| i < j < certs.len() implies !is_for(
                #[trigger] certs[j],
                server,
                address,
            ) by {
                if j < n {
                    assert(rest[j] == certs[j]);
                }
            }
            assert(is_last_for(certs, server, address, i));
        } else {
            assert forall|i: int| 0 <= i < certs.len() implies !is_for(
                #[trigger] certs[i],
                server,
                address,
            ) by {
                if i < n {
                    assert(rest[i] == certs[i]);
                }
            }
        }
    }
}

/// A certificate goes with a handle by any of its names: its own fingerprint or key id, or that of
/// one of its keys.
pub proof fn lemma_handles(cert: Seq<char>, ids: Seq<Seq<char>>, i: int)
    requires
        0 <= i < ids.len(),
    ensures
        pgp::cert_fingerprint(cert) matches Some(f) ==> (pgp::handles_alias(ids[i], f)
            ==> has_handle(cert, ids)),
        pgp::cert_keyid(cert) matches Some(k) ==> (pgp::handles_alias(ids[i], k) ==> has_handle(
            cert,
            ids,
        )),
        forall|k: int|
            0 <= k < pgp::key_fingerprints(cert).len() && #[trigger] pgp::handles_alias(
                ids[i],
                pgp::key_fingerprints(cert)[k],
            ) ==> has_handle(cert, ids),
        forall|k: int|
            0 <= k < pgp::key_ids(cert).len() && #[trigger] pgp::handles_alias(
                ids[i],
                pgp::key_ids(cert)[k],
            ) ==> has_handle(cert, ids),
{
    let all = cert_handles(cert);
    let a = listed(pgp::cert_fingerprint(cert));
    let b = listed(pgp::cert_keyid(cert));
    let c = pgp::key_fingerprints(cert);
    let d = pgp::key_ids(cert);
    if pgp::cert_fingerprint(cert) is Some {
        assert(all[0] == a[0]);
    }
    if pgp::cert_keyid(cert) is Some {
        assert(all[a.len() as int] == b[0]);
    }
    assert forall|k: int|
        0 <= k < c.len() && #[trigger] pgp::handles_alias(ids[i], c[k]) implies has_handle(
        cert,
        ids,
    ) by {
        assert(all[a.len() + b.len() + k] == c[k]);
    }
    assert forall|k: int|
        0 <= k < d.len() && #[trigger] pgp::handles_alias(ids[i], d[k]) implies has_handle(
        cert,
        ids,
    ) by {
        assert(all[a.len() + b.len() + c.len() + k] == d[k]);
    }
}

/// A handle that goes with none of its names does not go with a certificate.
pub proof fn lemma_no_other_handles(cert: Seq<char>, ids: Seq<Seq<char>>)
    requires
        forall|i: int, f: Seq<char>|
            0 <= i < ids.len() && #[trigger] pgp::handles_alias(ids[i], f) ==> pgp::cert_fingerprint(
                cert,
            ) != Some(f) && pgp::cert_keyid(cert) != Some(f) && !pgp::key_fingerprints(
                cert,
            ).contains(f) && !pgp::key_ids(cert).contains(f),
    ensures
        !has_handle(cert, ids),
{
    if has_handle(cert, ids) {
        let all = cert_handles(cert);
        let a = listed(pgp::cert_fingerprint(cert));
        let b = listed(pgp::cert_keyid(cert));
        let c = pgp::key_fingerprints(cert);
        let d = pgp::key_ids(cert);
        let (i, k) = choose|i: int, k: int|
            0 <= i < ids.len() && 0 <= k < all.len() && #[trigger] pgp::handles_alias(
                ids[i],
                all[k],
            );
        if k < a.len() {
            assert(all[k] == a[k]);
        } else if k < a.len() + b.len() {
            assert(all[k] == b[k - a.len()]);
        } else if k < a.len() + b.len() + c.len() {
            assert(all[k] == c[k - a.len() - b.len()]);
            assert(c.contains(all[k]));
        } else {
            assert(all[k] == d[k - a.len() - b.len() - c.len()]);
            assert(d.contains(all[k]));
        }
    }
}

/// A key is opened with the password and no other, and only after it was seen to be protected; a
/// packet is tried only with a key that was made ready or that was tried before, and packets and
/// keys are taken one by one.
pub proof fn lemma_search_goes_in_order(
    step: SearchView,
    answer: bool,
    password: Option<Seq<char>>,
    keys: int,
    packets: int,
)
    ensures
        ({
            let next = search_next(step, answer, password, keys, packets);
            &&& next matches SearchView::Unlock(k, p) ==> !is_over(step) && (step
                == SearchView::Look(k) && answer && password == Some(p))
            &&& step matches SearchView::Look(k) ==> (!answer ==> next == SearchView::Prepare(k))
                && (answer && password is None ==> next == if k + 1 < keys {
                    SearchView::Look(k + 1)
                } else {
                    SearchView::NotFound
                })
            &&& step matches SearchView::Unlock(k, _) ==> (answer ==> next == SearchView::Prepare(k))
            &&& step matches SearchView::Prepare(k) ==> (answer && packets > 0 ==> next
                == SearchView::Try(k, 0))
            &&& step matches SearchView::Try(k, p) ==> (!answer && p + 1 < packets ==> next
                == SearchView::Try(k, p + 1)) && (!answer && p + 1 >= packets ==> next == if k + 1
                < keys {
                SearchView::Look(k + 1)
            } else {
                SearchView::NotFound
            })
        }),
        keys > 0 ==> look_at(0, keys) == SearchView::Look(0),
        keys <= 0 ==> look_at(0, keys) is NotFound,
{
}

/// What came of sealing is what was given back.
pub proof fn lemma_outcome(r: Result<Vec<u8>, PgpError>)
    ensures
        match r {
            Ok(v) => outcome(r) == Ok::<Seq<u8>, PgpErrorView>(v@),
            Err(e) => outcome(r) == Err::<Seq<u8>, PgpErrorView>(e@) && match e {
                PgpError::NoServerCert => e@ is NoServerCert,
                PgpError::NoClientCert(a) => e@ == PgpErrorView::NoClientCert(a@),
                PgpError::NoSigningKey => e@ is NoSigningKey,
                PgpError::KeyLocked => e@ is KeyLocked,
                PgpError::Failed(s) => e@ == PgpErrorView::Failed(s@),
                PgpError::NoValidSignature => e@ is NoValidSignature,
                PgpError::NotSigned => e@ is NotSigned,
            },
        },
{
}

} // verus!
