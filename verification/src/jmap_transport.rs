//! How mails are fetched from a mail server and given to it: what it is asked, and what is made of
//! its answers.
use crate::common;
use crate::common::MessageFile;
use crate::jmap_requests;
use crate::json;
use crate::octets;
use crate::text;
use bytes::Bytes;
use serde_json::Value;
use vstd::prelude::*;
use vstd::string::*;

verus! {

/// Why a mail server cannot be used.
#[derive(Debug)]
pub enum JmapError {
    /// The answer that was asked for is missing.
    NoResponse,
    /// No mail can be sent under the address.
    NoIdentity(String),
    /// There is no folder for the purpose.
    NoFolder(String),
    /// There is no account.
    NoAccount,
    /// The address has no domain.
    BadEmail,
}

/// What an error says.
pub open spec fn error_words(e: JmapError) -> Seq<char> {
    match e {
        JmapError::NoResponse => "No response found in JSON"@,
        JmapError::NoIdentity(a) => "No identity found for email: "@ + a@,
        JmapError::NoFolder(f) => "No folder found for role: "@ + f@,
        JmapError::NoAccount => "No aid found"@,
        JmapError::BadEmail => "Email incorrect"@,
    }
}

impl JmapError {
    /// What the error says.
    pub fn message(&self) -> (r: String)
        ensures
            r@ == error_words(*self),
            self matches JmapError::NoIdentity(a) ==> r@ == "No identity found for email: "@ + a@,
            self matches JmapError::NoFolder(f) ==> r@ == "No folder found for role: "@ + f@,
    {
        match self {
            JmapError::NoResponse => "No response found in JSON".to_owned(),
            JmapError::NoIdentity(a) => "No identity found for email: ".to_owned().concat(
                a.as_str(),
            ),
            JmapError::NoFolder(f) => "No folder found for role: ".to_owned().concat(f.as_str()),
            JmapError::NoAccount => "No aid found".to_owned(),
            JmapError::BadEmail => "Email incorrect".to_owned(),
        }
    }
}

/// Where a mail server is reached, and the accounts there are.
#[derive(Debug)]
pub struct JmapSettings {
    pub api_url: String,
    pub upload_url: String,
    pub download_url: String,
    pub event_source_url: String,
    pub accounts: Vec<String>,
}

/// Where a mail server is reached, as a mathematical value.
#[verifier::ext_equal]
pub struct SettingsView {
    pub api_url: Seq<char>,
    pub upload_url: Seq<char>,
    pub download_url: Seq<char>,
    pub event_source_url: Seq<char>,
    pub accounts: Seq<Seq<char>>,
}

impl View for JmapSettings {
    type V = SettingsView;

    open spec fn view(&self) -> SettingsView {
        SettingsView {
            api_url: self.api_url@,
            upload_url: self.upload_url@,
            download_url: self.download_url@,
            event_source_url: self.event_source_url@,
            accounts: text::texts(self.accounts@),
        }
    }
}

/// The settings with their places filled in: which events are wanted, and for which account.
pub open spec fn settings_for(s: SettingsView, aid: Seq<char>) -> SettingsView {
    SettingsView {
        upload_url: text::replace(s.upload_url, "{accountId}"@, aid),
        download_url: text::replace(s.download_url, "{accountId}"@, aid),
        event_source_url: text::replace(
            text::replace(
                text::replace(s.event_source_url, "{types}"@, "*"@),
                "{closeafter}"@,
                "no"@,
            ),
            "{ping}"@,
            "15"@,
        ),
        ..s
    }
}

impl JmapSettings {
    /// The first account.
    pub fn account_id(&self) -> (r: Result<&String, JmapError>)
        ensures
            match r {
                Ok(aid) => self@.accounts.len() > 0 && aid@ == self@.accounts[0],
                Err(e) => self@.accounts.len() == 0 && e is NoAccount,
            },
    {
        if self.accounts.len() == 0 {
            return Err(JmapError::NoAccount);
        }
        assert(self@.accounts[0] == self.accounts@[0]@);
        Ok(&self.accounts[0])
    }
}

/// Where the settings of the mail server of an address are found.
pub open spec fn settings_url(email: Seq<char>) -> Option<Seq<char>> {
    match common::domain_of(email) {
        Some(domain) => Some("https://"@ + domain + "/.well-known/jmap"@),
        None => None,
    }
}

/// Where the settings of the mail server of an address are found.
pub fn well_known(email: &str) -> (r: Result<String, JmapError>)
    ensures
        match r {
            Ok(url) => settings_url(email@) == Some(url@),
            Err(e) => settings_url(email@) is None && e is BadEmail,
        },
{
    match common::domain(email) {
        Some(domain) => {
            let mut url = "https://".to_owned();
            url.append(domain.as_str());
            url.append("/.well-known/jmap");
            Ok(url)
        },
        None => Err(JmapError::BadEmail),
    }
}

/// A name under which mails can be sent.
#[derive(Debug)]
pub struct IdentityResponseItem {
    pub id: String,
    pub email: String,
}

/// The names under which mails can be sent.
#[derive(Debug)]
pub struct IdentityResponse {
    pub list: Vec<IdentityResponseItem>,
}

/// A folder, and what it is for.
#[derive(Debug)]
pub struct FolderResponseItem {
    pub id: String,
    pub role: String,
}

/// The folders.
#[derive(Debug)]
pub struct FolderResponse {
    pub list: Vec<FolderResponseItem>,
}

/// The first of the pairs with that second text: its first text.
pub open spec fn lookup(pairs: Seq<(Seq<char>, Seq<char>)>, key: Seq<char>) -> Option<Seq<char>>
    decreases pairs.len(),
{
    if pairs.len() == 0 {
        None
    } else if pairs[0].1 == key {
        Some(pairs[0].0)
    } else {
        lookup(pairs.skip(1), key)
    }
}

impl View for IdentityResponse {
    type V = Seq<(Seq<char>, Seq<char>)>;

    open spec fn view(&self) -> Seq<(Seq<char>, Seq<char>)> {
        self.list@.map_values(|i: IdentityResponseItem| (i.id@, i.email@))
    }
}

impl View for FolderResponse {
    type V = Seq<(Seq<char>, Seq<char>)>;

    open spec fn view(&self) -> Seq<(Seq<char>, Seq<char>)> {
        self.list@.map_values(|i: FolderResponseItem| (i.id@, i.role@))
    }
}

/// The first name that goes with the address.
pub fn get_identity(answer: &IdentityResponse, email: &str) -> (r: Result<String, JmapError>)
    ensures
        match r {
            Ok(id) => lookup(answer@, email@) == Some(id@),
            Err(e) => lookup(answer@, email@) is None && (e matches JmapError::NoIdentity(a) && a@
                == email@),
        },
{
    let ghost all = answer@;
    assert(all.skip(0) =~= all);
    let mut i: usize = 0;
    while i < answer.list.len()
        invariant
            i <= answer.list@.len(),
            all == answer@,
            lookup(all, email@) == lookup(all.skip(i as int), email@),
        decreases answer.list@.len() - i,
    {
        let item = &answer.list[i];
        assert(all.skip(i as int)[0] == (item.id@, item.email@));
        assert(all.skip(i as int).skip(1) =~= all.skip(i + 1));
        if text::same_text(item.email.as_str(), email) {
            return Ok(item.id.clone());
        }
        i += 1;
    }
    Err(JmapError::NoIdentity(email.to_owned()))
}

/// The first folder for the purpose.
pub fn get_folder(answer: &FolderResponse, role: &str) -> (r: Result<String, JmapError>)
    ensures
        match r {
            Ok(id) => lookup(answer@, role@) == Some(id@),
            Err(e) => lookup(answer@, role@) is None && (e matches JmapError::NoFolder(f) && f@
                == role@),
        },
{
    let ghost all = answer@;
    assert(all.skip(0) =~= all);
    let mut i: usize = 0;
    while i < answer.list.len()
        invariant
            i <= answer.list@.len(),
            all == answer@,
            lookup(all, role@) == lookup(all.skip(i as int), role@),
        decreases answer.list@.len() - i,
    {
        let item = &answer.list[i];
        assert(all.skip(i as int)[0] == (item.id@, item.role@));
        assert(all.skip(i as int).skip(1) =~= all.skip(i + 1));
        if text::same_text(item.role.as_str(), role) {
            return Ok(item.id.clone());
        }
        i += 1;
    }
    Err(JmapError::NoFolder(role.to_owned()))
}

/// Something that the mail server is asked.
#[derive(Debug)]
pub struct Request {
    pub url: String,
    pub body: String,
}

/// Something that the mail server is asked, as a mathematical value.
#[verifier::ext_equal]
pub struct RequestView {
    pub url: Seq<char>,
    pub body: Seq<char>,
}

impl View for Request {
    type V = RequestView;

    open spec fn view(&self) -> RequestView {
        RequestView { url: self.url@, body: self.body@ }
    }
}

/// A sender of a mail.
#[derive(Debug)]
pub struct EmailAddress {
    pub email: String,
}

/// A mail at the mail server: the file it is in, and whom it is from.
#[derive(Debug)]
pub struct EmailGetResponseItem {
    pub blob_id: String,
    pub from: Vec<EmailAddress>,
}

/// Mails at the mail server, and the state it is in.
#[derive(Debug)]
pub struct EmailGetResponse {
    pub state: String,
    pub list: Vec<EmailGetResponseItem>,
}

/// A mail at the mail server, as a mathematical value.
#[verifier::ext_equal]
pub struct ItemView {
    pub blob_id: Seq<char>,
    pub from: Seq<Seq<char>>,
}

impl View for EmailGetResponseItem {
    type V = ItemView;

    open spec fn view(&self) -> ItemView {
        ItemView {
            blob_id: self.blob_id@,
            from: self.from@.map_values(|a: EmailAddress| a.email@),
        }
    }
}

/// Mails at the mail server, as mathematical values.
pub open spec fn items(list: Seq<EmailGetResponseItem>) -> Seq<ItemView> {
    list.map_values(|i: EmailGetResponseItem| i@)
}

/// A mail that is to be fetched.
#[derive(Debug)]
pub struct Download {
    pub url: String,
    pub client: String,
}

/// A mail that is to be fetched, as a mathematical value.
#[verifier::ext_equal]
pub struct DownloadView {
    pub url: Seq<char>,
    pub client: Seq<char>,
}

impl View for Download {
    type V = DownloadView;

    open spec fn view(&self) -> DownloadView {
        DownloadView { url: self.url@, client: self.client@ }
    }
}

/// Mails that are to be fetched, as mathematical values.
pub open spec fn download_views(list: Seq<Download>) -> Seq<DownloadView> {
    list.map_values(|d: Download| d@)
}

/// A mail that is from one sender, who is not this server.
pub open spec fn is_foreign(item: ItemView, email: Seq<char>) -> bool {
    item.from.len() == 1 && item.from[0] != email
}

/// How a mail is fetched.
pub open spec fn download_of(item: ItemView, template: Seq<char>) -> DownloadView {
    DownloadView {
        url: text::replace(template, "{blobId}"@, item.blob_id),
        client: item.from[0],
    }
}

/// The mails that are to be fetched: those from one sender who is not this server.
pub open spec fn downloads(list: Seq<ItemView>, email: Seq<char>, template: Seq<char>) -> Seq<
    DownloadView,
>
    decreases list.len(),
{
    if list.len() == 0 {
        seq![]
    } else {
        let rest = downloads(list.drop_last(), email, template);
        if is_foreign(list.last(), email) {
            rest.push(download_of(list.last(), template))
        } else {
            rest
        }
    }
}

/// An event that the mail server sends.
#[derive(Debug)]
pub enum ServerEvent {
    /// A message with that name.
    Message(String),
    /// What was sent cannot be read.
    Failed,
    /// Anything else.
    Other,
}

/// What is done on an event.
#[derive(Debug, PartialEq, Eq, Structural, Clone, Copy)]
pub enum ServerAction {
    /// Fetch the mails that came.
    Download,
    /// Say that the event cannot be read.
    Warn,
    Ignore,
}

/// What is done on an event: mails are fetched when the server's state changes.
pub fn on_event(event: ServerEvent) -> (r: ServerAction)
    ensures
        r == match event {
            ServerEvent::Message(name) => if name@ == "state"@ {
                ServerAction::Download
            } else {
                ServerAction::Ignore
            },
            ServerEvent::Failed => ServerAction::Warn,
            ServerEvent::Other => ServerAction::Ignore,
        },
{
    match event {
        ServerEvent::Message(name) => if text::same_text(name.as_str(), "state") {
            ServerAction::Download
        } else {
            ServerAction::Ignore
        },
        ServerEvent::Failed => ServerAction::Warn,
        ServerEvent::Other => ServerAction::Ignore,
    }
}

/// What the answer of the mail server says of a mail that was not sent; nothing where it was sent.
pub fn send_outcome(answer: &Value) -> (r: Result<Option<&Value>, JmapError>)
    ensures
        match r {
            Ok(failure) => match jmap_requests::response_in(json::value_tree(*answer)) {
                Some(tree) => json::opt_tree(failure) == json::member(tree, "notCreated"@),
                None => false,
            },
            Err(e) => jmap_requests::response_in(json::value_tree(*answer)) is None
                && e is NoResponse,
        },
{
    match jmap_requests::find_response(answer) {
        Ok(v) => Ok(json::get_member(v, "notCreated")),
        Err(e) => Err(e),
    }
}

/// An account of this server at a mail server.
#[derive(Debug)]
pub struct Account {
    settings: JmapSettings,
    aid: String,
    email: String,
}

/// An account, as a mathematical value.
#[verifier::ext_equal]
pub struct AccountView {
    pub settings: SettingsView,
    pub aid: Seq<char>,
    pub email: Seq<char>,
}

impl View for Account {
    type V = AccountView;

    closed spec fn view(&self) -> AccountView {
        AccountView { settings: self.settings@, aid: self.aid@, email: self.email@ }
    }
}

impl Account {
    /// The first of the accounts in the settings, for the address.
    pub fn new(email: &str, settings: JmapSettings) -> (r: Result<Self, JmapError>)
        ensures
            match r {
                Ok(a) => {
                    &&& settings@.accounts.len() > 0
                    &&& a@.aid == settings@.accounts[0]
                    &&& a@.settings == settings_for(settings@, a@.aid)
                    &&& a@.email == email@
                },
                Err(e) => settings@.accounts.len() == 0 && e is NoAccount,
            },
    {
        proof {
            reveal_strlit("{types}");
            reveal_strlit("{closeafter}");
            reveal_strlit("{ping}");
            reveal_strlit("{accountId}");
        }
        let aid = match settings.account_id() {
            Ok(a) => a.clone(),
            Err(e) => return Err(e),
        };
        let events = text::replace_text(settings.event_source_url.as_str(), "{types}", "*");
        let events = text::replace_text(events.as_str(), "{closeafter}", "no");
        let events = text::replace_text(events.as_str(), "{ping}", "15");
        let download = text::replace_text(
            settings.download_url.as_str(),
            "{accountId}",
            aid.as_str(),
        );
        let upload = text::replace_text(settings.upload_url.as_str(), "{accountId}", aid.as_str());
        let settings = JmapSettings {
            api_url: settings.api_url,
            upload_url: upload,
            download_url: download,
            event_source_url: events,
            accounts: settings.accounts,
        };
        Ok(Account { settings, aid, email: email.to_owned() })
    }

    /// Asks for the state that the mail server is in.
    pub fn state_request(&self) -> (r: Request)
        ensures
            r@ == (RequestView {
                url: self@.settings.api_url,
                body: json::json_text(jmap_requests::last_mes_tree(self@.aid)),
            }),
    {
        Request {
            url: self.settings.api_url.clone(),
            body: jmap_requests::get_last_mes_request(self.aid.as_str()),
        }
    }

    /// Asks under which names mails can be sent.
    pub fn identity_request(&self) -> (r: Request)
        ensures
            r@ == (RequestView {
                url: self@.settings.api_url,
                body: json::json_text(jmap_requests::identity_tree(self@.aid)),
            }),
    {
        Request {
            url: self.settings.api_url.clone(),
            body: jmap_requests::get_identity_id_request(self.aid.as_str()),
        }
    }

    /// The name under which mails are sent: the first that goes with the address.
    pub fn identity(&self, answer: &IdentityResponse) -> (r: Result<String, JmapError>)
        ensures
            match r {
                Ok(id) => lookup(answer@, self@.email) == Some(id@),
                Err(e) => lookup(answer@, self@.email) is None && (e matches JmapError::NoIdentity(a)
                    && a@ == self@.email),
            },
    {
        get_identity(answer, self.email.as_str())
    }

    /// Asks which folders there are.
    pub fn folders_request(&self) -> (r: Request)
        ensures
            r@ == (RequestView {
                url: self@.settings.api_url,
                body: json::json_text(jmap_requests::folders_tree(self@.aid)),
            }),
    {
        Request {
            url: self.settings.api_url.clone(),
            body: jmap_requests::get_folders_request(self.aid.as_str()),
        }
    }
}

/// A mail server in use: the account, the state that its mails are known up to, the name under
/// which mails are sent, and the folder that they go through.
#[derive(Debug)]
pub struct JmapTransport {
    account: Account,
    last_sse_state: String,
    iid: String,
    fid: String,
}

/// A mail server in use, as a mathematical value.
#[verifier::ext_equal]
pub struct TransportView {
    pub account: AccountView,
    pub last_sse_state: Seq<char>,
    pub iid: Seq<char>,
    pub fid: Seq<char>,
}

impl View for JmapTransport {
    type V = TransportView;

    closed spec fn view(&self) -> TransportView {
        TransportView {
            account: self.account@,
            last_sse_state: self.last_sse_state@,
            iid: self.iid@,
            fid: self.fid@,
        }
    }
}

impl JmapTransport {
    /// Begins to use a mail server, in the state that it is in, under that name. Mails go through
    /// the folder for those that were sent.
    pub fn new(
        account: Account,
        state: EmailGetResponse,
        iid: String,
        folders: &FolderResponse,
    ) -> (r: Result<Self, JmapError>)
        ensures
            match r {
                Ok(t) => {
                    &&& lookup(folders@, "sent"@) == Some(t@.fid)
                    &&& t@.account == account@
                    &&& t@.last_sse_state == state.state@
                    &&& t@.iid == iid@
                },
                Err(e) => lookup(folders@, "sent"@) is None && (e matches JmapError::NoFolder(f)
                    && f@ == "sent"@),
            },
    {
        match get_folder(folders, "sent") {
            Ok(fid) => Ok(JmapTransport { account, last_sse_state: state.state, iid, fid }),
            Err(e) => Err(e),
        }
    }

    /// Where the events of the mail server come from.
    pub fn event_source_url(&self) -> (r: &String)
        ensures
            r@ == self@.account.settings.event_source_url,
    {
        &self.account.settings.event_source_url
    }

    /// Where files are given to the mail server.
    pub fn upload_url(&self) -> (r: &String)
        ensures
            r@ == self@.account.settings.upload_url,
    {
        &self.account.settings.upload_url
    }

    /// Asks to send a file that was given to the mail server.
    pub fn send_request(&self, blob_id: &str) -> (r: Request)
        ensures
            r@ == (RequestView {
                url: self@.account.settings.api_url,
                body: json::json_text(
                    jmap_requests::send_tree(self@.account.aid, self@.iid, self@.fid, blob_id@),
                ),
            }),
    {
        Request {
            url: self.account.settings.api_url.clone(),
            body: jmap_requests::get_send_blob_as_email_request(
                self.account.aid.as_str(),
                self.iid.as_str(),
                self.fid.as_str(),
                blob_id,
            ),
        }
    }

    /// Asks for the mails that came since they were last asked for.
    pub fn download_request(&self) -> (r: Request)
        ensures
            r@ == (RequestView {
                url: self@.account.settings.api_url,
                body: json::json_text(
                    jmap_requests::new_mes_tree(self@.account.aid, self@.last_sse_state),
                ),
            }),
    {
        Request {
            url: self.account.settings.api_url.clone(),
            body: jmap_requests::get_new_mes_request(
                self.account.aid.as_str(),
                self.last_sse_state.as_str(),
            ),
        }
    }

    /// Takes note of the state that the mail server is in, and says which mails are to be fetched.
    pub fn download_messages(&mut self, resp: EmailGetResponse) -> (r: Vec<Download>)
        ensures
            final(self)@ == (TransportView { last_sse_state: resp.state@, ..old(self)@ }),
            download_views(r@) == downloads(
                items(resp.list@),
                old(self)@.account.email,
                old(self)@.account.settings.download_url,
            ),
            forall|i: int|
                0 <= i < resp.list@.len() && (#[trigger] resp.list@[i]).from@.len() == 1
                    && resp.list@[i].from@[0].email@ != old(self)@.account.email ==> fetches(
                    r@,
                    resp.list@[i].from@[0].email@,
                    text::replace(
                        old(self)@.account.settings.download_url,
                        "{blobId}"@,
                        resp.list@[i].blob_id@,
                    ),
                ),
            forall|k: int|
                0 <= k < r@.len() ==> (#[trigger] r@[k]).client@ != old(self)@.account.email,
            r@.len() <= resp.list@.len(),
    {
        proof {
            reveal_strlit("{blobId}");
        }
        let ghost all = items(resp.list@);
        let ghost email = self@.account.email;
        let ghost template = self@.account.settings.download_url;
        self.last_sse_state = resp.state;
        let list = resp.list;
        let mut r: Vec<Download> = Vec::new();
        let mut i: usize = 0;
        assert(download_views(r@) =~= downloads(all.take(0), email, template));
        while i < list.len()
            invariant
                i <= list@.len(),
                all == items(list@),
                email == self.account.email@,
                template == self.account.settings.download_url@,
                "{blobId}"@.len() > 0,
                download_views(r@) == downloads(all.take(i as int), email, template),
            decreases list@.len() - i,
        {
            let item = &list[i];
            assert(all[i as int] == item@);
            assert(all.take(i + 1).drop_last() =~= all.take(i as int));
            if item.from.len() == 1 {
                assert(item@.from[0] == item.from@[0].email@);
                let sender = &item.from[0].email;
                if !text::same_text(sender.as_str(), self.account.email.as_str()) {
                    let url = text::replace_text(
                        self.account.settings.download_url.as_str(),
                        "{blobId}",
                        item.blob_id.as_str(),
                    );
                    let ghost before = r@;
                    let next = Download { url, client: sender.clone() };
                    let ghost d = next@;
                    r.push(next);
                    assert(download_views(r@) =~= download_views(before).push(d));
                }
            }
            i += 1;
        }
        assert(all.take(i as int) =~= all);
        proof {
            lemma_downloads(all, email, template);
            lemma_no_more_downloads(all, email, template);
            let views = download_views(r@);
            assert forall|k: int| 0 <= k < r@.len() implies (#[trigger] r@[k]).client@ != email by {
                assert(views[k] == r@[k]@);
                assert(downloads(all, email, template)[k].client != email);
            }
            assert forall|j: int|
                0 <= j < list@.len() && (#[trigger] list@[j]).from@.len() == 1
                    && list@[j].from@[0].email@ != email implies fetches(
                r@,
                list@[j].from@[0].email@,
                text::replace(template, "{blobId}"@, list@[j].blob_id@),
            ) by {
                assert(all[j] == list@[j]@);
                assert(all[j].from[0] == list@[j].from@[0].email@);
                assert(is_foreign(all[j], email));
                let d = download_of(all[j], template);
                assert(views.contains(d));
                let k = choose|k: int| 0 <= k < views.len() && views[k] == d;
                assert(r@[k]@ == d);
            }
        }
        r
    }
}

/// One of the mails that are to be fetched has that client, and is found there.
pub open spec fn fetches(list: Seq<Download>, client: Seq<char>, url: Seq<char>) -> bool {
    exists|k: int|
        0 <= k < list.len() && (#[trigger] list[k]).client@ == client && list[k].url@ == url
}

/// No more mails are fetched than there are.
proof fn lemma_no_more_downloads(list: Seq<ItemView>, email: Seq<char>, template: Seq<char>)
    ensures
        downloads(list, email, template).len() <= list.len(),
    decreases list.len(),
{
    if list.len() > 0 {
        lemma_no_more_downloads(list.drop_last(), email, template);
    }
}

impl Download {
    /// The mail, once it is fetched.
    pub fn message(self, file: Bytes) -> (r: MessageFile)
        ensures
            r.client@ == self@.client,
            r.info is None,
            octets::octets(r.file) == octets::octets(file),
    {
        MessageFile { client: self.client, info: None, file }
    }
}

/// What is fetched is one of those mails from one sender who is not this server.
pub open spec fn is_listed(
    d: DownloadView,
    list: Seq<ItemView>,
    email: Seq<char>,
    template: Seq<char>,
) -> bool {
    exists|i: int|
        0 <= i < list.len() && is_foreign(#[trigger] list[i], email) && d == download_of(
            list[i],
            template,
        )
}

/// What is fetched is from one sender, who is its client and is not this server; and every such
/// mail is fetched.
pub proof fn lemma_downloads(list: Seq<ItemView>, email: Seq<char>, template: Seq<char>)
    ensures
        forall|k: int|
            #![trigger downloads(list, email, template)[k]]
            0 <= k < downloads(list, email, template).len() ==> is_listed(
                downloads(list, email, template)[k],
                list,
                email,
                template,
            ) && downloads(list, email, template)[k].client != email,
        forall|i: int|
            0 <= i < list.len() && is_foreign(#[trigger] list[i], email) ==> downloads(
                list,
                email,
                template,
            ).contains(download_of(list[i], template)),
    decreases list.len(),
{
    if list.len() > 0 {
        let rest = list.drop_last();
        let n = list.len() - 1;
        let fewer = downloads(rest, email, template);
        let all = downloads(list, email, template);
        lemma_downloads(rest, email, template);
        assert forall|k: int| 0 <= k < all.len() implies is_listed(
            #[trigger] all[k],
            list,
            email,
            template,
        ) && all[k].client != email by {
            if k < fewer.len() {
                assert(all[k] == fewer[k]);
                let i = choose|i: int|
                    0 <= i < rest.len() && is_foreign(#[trigger] rest[i], email) && fewer[k]
                        == download_of(rest[i], template);
                assert(list[i] == rest[i]);
            } else {
                assert(list[n] == list.last());
            }
        }
        assert forall|i: int|
            0 <= i < list.len() && is_foreign(#[trigger] list[i], email) implies all.contains(
            download_of(list[i], template),
        ) by {
            if i < n {
                assert(rest[i] == list[i]);
                let k = choose|k: int|
                    0 <= k < fewer.len() && fewer[k] == download_of(rest[i], template);
                assert(all[k] == fewer[k]);
            } else {
                assert(all[all.len() - 1] == download_of(list[i], template));
            }
        }
    }
}

/// Of one mail alone: it is fetched just where it is from one address and that is not the
/// account's own, whatever the two have in common; then its client is that address, and its place
/// is the template with the file's name in each place for it.
pub proof fn lemma_one_download(item: ItemView, email: Seq<char>, template: Seq<char>)
    ensures
        item.from.len() == 1 && item.from[0] != email ==> downloads(seq![item], email, template)
            == seq![
            DownloadView {
                url: text::join(text::split(template, "{blobId}"@), item.blob_id),
                client: item.from[0],
            },
        ],
        item.from.len() != 1 || item.from[0] == email ==> downloads(seq![item], email, template)
            == Seq::<DownloadView>::empty(),
{
    reveal_strlit("{blobId}");
    let one = seq![item];
    assert(one.drop_last() =~= seq![]);
    assert(downloads(one.drop_last(), email, template) =~= seq![]);
    text::lemma_replace_is_join(template, "{blobId}"@, item.blob_id);
    if item.from.len() == 1 && item.from[0] != email {
        assert(downloads(one, email, template) =~= seq![download_of(item, template)]);
    }
}

/// Of mails behind each other those of the first are fetched, and then those of the others: each
/// mail counts for itself, and the order is kept.
pub proof fn lemma_downloads_add_up(
    first: Seq<ItemView>,
    second: Seq<ItemView>,
    email: Seq<char>,
    template: Seq<char>,
)
    ensures
        downloads(first + second, email, template) == downloads(first, email, template)
            + downloads(second, email, template),
    decreases second.len(),
{
    let all = first + second;
    if second.len() == 0 {
        assert(all =~= first);
        assert(downloads(first, email, template) + Seq::<DownloadView>::empty() =~= downloads(
            first,
            email,
            template,
        ));
    } else {
        assert(all.drop_last() =~= first + second.drop_last());
        lemma_downloads_add_up(first, second.drop_last(), email, template);
        assert(downloads(all, email, template) =~= downloads(first, email, template) + downloads(
            second,
            email,
            template,
        ));
    }
}

/// A mail from one address other than the account's own is fetched, and its client is that
/// address, wherever in the list it stands.
pub proof fn lemma_foreign_mail_is_fetched(
    list: Seq<ItemView>,
    email: Seq<char>,
    template: Seq<char>,
    i: int,
)
    requires
        0 <= i < list.len(),
        list[i].from.len() == 1,
        list[i].from[0] != email,
    ensures
        downloads(list, email, template).contains(
            DownloadView {
                url: text::join(text::split(template, "{blobId}"@), list[i].blob_id),
                client: list[i].from[0],
            },
        ),
{
    let item = list[i];
    let a = list.take(i);
    let b = list.skip(i + 1);
    lemma_one_download(item, email, template);
    lemma_downloads_add_up(a, seq![item], email, template);
    lemma_downloads_add_up(a + seq![item], b, email, template);
    assert(list =~= a + seq![item] + b);
    let all = downloads(list, email, template);
    let k = downloads(a, email, template).len() as int;
    assert(all[k] == downloads(seq![item], email, template)[0]);
}

/// Where the place of the file stands in the template, the file's name stands in the address.
pub proof fn lemma_download_url(
    before: Seq<char>,
    behind: Seq<char>,
    item: ItemView,
)
    requires
        text::lacks(before, '{'),
        text::lacks(behind, '{'),
    ensures
        download_of(item, before + "{blobId}"@ + behind).url == before + item.blob_id + behind,
        download_of(item, before + "{blobId}"@ + behind).client == item.from[0],
{
    reveal_strlit("{blobId}");
    lemma_filled(before, "{blobId}"@, behind, item.blob_id);
}

/// A place in a text with no other `{` is filled in.
proof fn lemma_filled(before: Seq<char>, place: Seq<char>, behind: Seq<char>, to: Seq<char>)
    requires
        place.len() > 0,
        place[0] == '{',
        text::lacks(before, '{'),
        text::lacks(behind, '{'),
    ensures
        text::replace(before + place + behind, place, to) == before + to + behind,
{
    let s = before + place + behind;
    text::lemma_find_past(before, place, behind);
    assert(s.take(before.len() as int) =~= before);
    assert(s.skip(before.len() as int + place.len()) =~= behind);
    text::lemma_find_from(behind, place, 0);
    if text::find(behind, place) is Some {
        let k = text::find(behind, place)->0;
        assert(behind.subrange(k, k + place.len())[0] == behind[k]);
    }
    assert(text::replace(behind, place, to) == behind);
    assert(text::find(s, place) == Some(before.len() as int));
    assert(text::replace(s, place, to) == s.take(before.len() as int) + to + text::replace(
        s.skip(before.len() as int + place.len()),
        place,
        to,
    ));
}

/// The settings for an account: the account's name stands in each place for it, the places for
/// events are filled in, and the rest stays.
pub proof fn lemma_settings(s: SettingsView, aid: Seq<char>)
    ensures
        settings_for(s, aid).api_url == s.api_url,
        settings_for(s, aid).accounts == s.accounts,
        settings_for(s, aid).upload_url == text::join(
            text::split(s.upload_url, "{accountId}"@),
            aid,
        ),
        settings_for(s, aid).download_url == text::join(
            text::split(s.download_url, "{accountId}"@),
            aid,
        ),
        ({
            let typed = text::join(text::split(s.event_source_url, "{types}"@), "*"@);
            let open = text::join(text::split(typed, "{closeafter}"@), "no"@);
            settings_for(s, aid).event_source_url == text::join(text::split(open, "{ping}"@), "15"@)
        }),
{
    reveal_strlit("{accountId}");
    reveal_strlit("{types}");
    reveal_strlit("{closeafter}");
    reveal_strlit("{ping}");
    text::lemma_replace_is_join(s.upload_url, "{accountId}"@, aid);
    text::lemma_replace_is_join(s.download_url, "{accountId}"@, aid);
    let url = s.event_source_url;
    text::lemma_replace_is_join(url, "{types}"@, "*"@);
    let typed = text::replace(url, "{types}"@, "*"@);
    text::lemma_replace_is_join(typed, "{closeafter}"@, "no"@);
    let open = text::replace(typed, "{closeafter}"@, "no"@);
    text::lemma_replace_is_join(open, "{ping}"@, "15"@);
}

/// Where the places stand in a text with no other `{`, they are filled in.
pub proof fn lemma_settings_are_filled(s: SettingsView, aid: Seq<char>, a: Seq<char>, b: Seq<char>)
    requires
        text::lacks(a, '{'),
        text::lacks(b, '{'),
    ensures
        s.upload_url == a + "{accountId}"@ + b ==> settings_for(s, aid).upload_url == a + aid + b,
        s.download_url == a + "{accountId}"@ + b ==> settings_for(s, aid).download_url == a + aid
            + b,
{
    reveal_strlit("{accountId}");
    lemma_filled(a, "{accountId}"@, b, aid);
}

/// The settings of a mail server are found at the domain of the address: behind its first `@`.
pub proof fn lemma_settings_url(name: Seq<char>, domain: Seq<char>)
    requires
        text::lacks(name, '@'),
        text::lacks(domain, '@'),
    ensures
        settings_url(name + seq!['@'] + domain) == Some(
            "https://"@ + domain + "/.well-known/jmap"@,
        ),
        settings_url(name) is None,
{
    common::lemma_domain(name, domain, seq![]);
}

/// What is looked up is the first of the pairs that has the key; where none has it, there is
/// nothing.
pub proof fn lemma_lookup(pairs: Seq<(Seq<char>, Seq<char>)>, key: Seq<char>)
    ensures
        match lookup(pairs, key) {
            Some(v) => exists|i: int| #[trigger] is_first_pair(pairs, key, i) && pairs[i].0 == v,
            None => forall|i: int| 0 <= i < pairs.len() ==> (#[trigger] pairs[i]).1 != key,
        },
    decreases pairs.len(),
{
    if pairs.len() > 0 {
        if pairs[0].1 == key {
            assert(is_first_pair(pairs, key, 0));
        } else {
            let rest = pairs.skip(1);
            lemma_lookup(rest, key);
            match lookup(rest, key) {
                Some(v) => {
                    let i = choose|i: int| #[trigger] is_first_pair(rest, key, i) && rest[i].0 == v;
                    assert forall|j: int| 0 <= j < i + 1 implies (#[trigger] pairs[j]).1 != key by {
                        if j > 0 {
                            assert(pairs[j] == rest[j - 1]);
                        }
                    }
                    assert(pairs[i + 1] == rest[i]);
                    assert(is_first_pair(pairs, key, i + 1) && pairs[i + 1].0 == v);
                },
                None => {
                    assert forall|j: int| 0 <= j < pairs.len() implies (#[trigger] pairs[j]).1
                        != key by {
                        if j > 0 {
                            assert(pairs[j] == rest[j - 1]);
                        }
                    }
                },
            }
        }
    }
}

/// The pair has the key, and none before it has.
pub open spec fn is_first_pair(pairs: Seq<(Seq<char>, Seq<char>)>, key: Seq<char>, i: int) -> bool {
    &&& 0 <= i < pairs.len()
    &&& pairs[i].1 == key
    &&& forall|j: int| 0 <= j < i ==> (#[trigger] pairs[j]).1 != key
}

/// Mails at the mail server and those that are to be fetched, field by field.
pub proof fn lemma_item_views(list: Seq<EmailGetResponseItem>, fetched: Seq<Download>)
    ensures
        items(list).len() == list.len(),
        forall|i: int|
            0 <= i < list.len() ==> (#[trigger] items(list)[i]).blob_id == list[i].blob_id@
                && items(list)[i].from.len() == list[i].from@.len(),
        forall|i: int, k: int|
            0 <= i < list.len() && 0 <= k < list[i].from@.len() ==> #[trigger] items(
                list,
            )[i].from[k] == list[i].from@[k].email@,
        download_views(fetched).len() == fetched.len(),
        forall|k: int|
            0 <= k < fetched.len() ==> (#[trigger] download_views(fetched)[k]).url == fetched[k].url@
                && download_views(fetched)[k].client == fetched[k].client@,
{
}

} // verus!
