use bytes::Bytes;
use mssh::jmap_requests::{
    find_response, get_folders_request, get_identity_id_request, get_last_mes_request,
    get_new_mes_request, get_send_blob_as_email_request, last_mes_value, send_value,
};
use mssh::jmap_transport::{
    get_folder, get_identity, on_event, send_outcome, well_known, Account, EmailAddress,
    EmailGetResponse, EmailGetResponseItem, FolderResponse, FolderResponseItem, IdentityResponse,
    IdentityResponseItem, JmapError, JmapSettings, JmapTransport, ServerAction, ServerEvent,
};
use serde_json::Value;

fn json(s: &str) -> Value {
    s.parse().unwrap()
}

fn settings(accounts: &[&str]) -> JmapSettings {
    JmapSettings {
        api_url: "https://x.org/api".to_string(),
        upload_url: "https://x.org/up/{accountId}".to_string(),
        download_url: "https://x.org/down/{accountId}/{blobId}".to_string(),
        event_source_url: "https://x.org/ev?t={types}&c={closeafter}&p={ping}".to_string(),
        accounts: accounts.iter().map(|a| a.to_string()).collect(),
    }
}

fn folders(list: &[(&str, &str)]) -> FolderResponse {
    FolderResponse {
        list: list
            .iter()
            .map(|(id, role)| FolderResponseItem { id: id.to_string(), role: role.to_string() })
            .collect(),
    }
}

fn identities(list: &[(&str, &str)]) -> IdentityResponse {
    IdentityResponse {
        list: list
            .iter()
            .map(|(id, email)| IdentityResponseItem { id: id.to_string(), email: email.to_string() })
            .collect(),
    }
}

fn mails(state: &str, list: &[(&str, &[&str])]) -> EmailGetResponse {
    EmailGetResponse {
        state: state.to_string(),
        list: list
            .iter()
            .map(|(blob, from)| EmailGetResponseItem {
                blob_id: blob.to_string(),
                from: from.iter().map(|a| EmailAddress { email: a.to_string() }).collect(),
            })
            .collect(),
    }
}

fn transport() -> JmapTransport {
    let account = Account::new("me@x.org", settings(&["A1", "A2"])).unwrap();
    let iid = account.identity(&identities(&[("i0", "you@x.org"), ("i1", "me@x.org")])).unwrap();
    let dirs = folders(&[("f0", "inbox"), ("f1", "sent"), ("f2", "sent")]);
    JmapTransport::new(account, mails("s0", &[]), iid, &dirs).unwrap()
}

#[test]
fn request_for_the_last_mail() {
    let expected = json(
        r##"{"@type": "Request",
        "using": ["urn:ietf:params:jmap:core", "urn:ietf:params:jmap:mail"],
        "methodCalls": [
            ["Email/query", {"accountId": "A1", "sort": [{
                "property": "receivedAt", "isAscending": false}], "limit": 1}, "t"],
            ["Email/get", {"accountId": "A1", "#ids": {"resultOf": "t",
                "name": "Email/query", "path": "/ids", "properties": ["from", "blobId"] }}, "a"]
        ]}"##,
    );
    assert_eq!(last_mes_value("A1"), expected);
    assert_eq!(get_last_mes_request("A1"), expected.to_string());
}

#[test]
fn request_for_new_mails() {
    let expected = json(
        r##"{"@type": "Request",
        "using": ["urn:ietf:params:jmap:core", "urn:ietf:params:jmap:mail"],
        "methodCalls": [
            ["Email/changes", {"accountId": "A\"1", "sinceState": "s7"}, "t"],
            ["Email/get", {"accountId": "A\"1", "#ids": {"resultOf": "t",
                "name": "Email/changes", "path": "/created"},
                "properties": ["from", "blobId"]}, "a"]
        ]}"##,
    );
    assert_eq!(get_new_mes_request("A\"1", "s7"), expected.to_string());
}

#[test]
fn request_for_identities() {
    let expected = json(
        r##"{"using": ["urn:ietf:params:jmap:core", "urn:ietf:params:jmap:submission"],
        "methodCalls": [["Identity/get", {"accountId": "A1"}, "a"]]}"##,
    );
    assert_eq!(get_identity_id_request("A1"), expected.to_string());
}

#[test]
fn request_for_folders() {
    let expected = json(
        r##"{"using": ["urn:ietf:params:jmap:core", "urn:ietf:params:jmap:mail"],
        "methodCalls": [["Mailbox/get", {"accountId": "A1"}, "a"]]}"##,
    );
    assert_eq!(get_folders_request("A1"), expected.to_string());
}

#[test]
fn request_to_send() {
    let expected = json(
        r##"{"using": ["urn:ietf:params:jmap:core", "urn:ietf:params:jmap:mail",
            "urn:ietf:params:jmap:submission"],
        "methodCalls": [
            ["Email/import", {"accountId": "A1", "emails": {
                "0": { "blobId": "b9", "mailboxIds": { "f1": true } } }}, "t"],
            ["EmailSubmission/set", {"accountId": "A1", "create": {
                "1": { "identityId": "i1", "emailId": "#0" } }}, "a"],
            ["Email/set", {"accountId": "A1", "destroy": ["#b/created/1/emailId"]}, "b"]
        ]}"##,
    );
    assert_eq!(send_value("A1", "i1", "f1", "b9"), expected);
    assert_eq!(get_send_blob_as_email_request("A1", "i1", "f1", "b9"), expected.to_string());
}

#[test]
fn each_request_asks_once() {
    let requests = [
        get_last_mes_request("A1"),
        get_new_mes_request("A1", "s"),
        get_identity_id_request("A1"),
        get_folders_request("A1"),
        get_send_blob_as_email_request("A1", "i", "f", "b"),
    ];
    for r in requests {
        let v = json(&r);
        let calls = v.get("methodCalls").unwrap().as_array().unwrap();
        let asked = calls.iter().filter(|c| c.get(2).unwrap().as_str() == Some("a")).count();
        assert_eq!(asked, 1);
    }
}

#[test]
fn answer_is_found_by_its_tag() {
    let v = json(r#"{"methodResponses": [["x", {"n": 1}, "t"], ["y", {"n": 2}, "a"], ["z", 3, "a"]]}"#);
    assert_eq!(find_response(&v).unwrap(), &json(r#"{"n": 2}"#));
}

#[test]
fn answer_is_missing() {
    for s in [
        "1",
        "{}",
        r#"{"methodResponses": 1}"#,
        r#"{"methodResponses": []}"#,
        r#"{"methodResponses": [["x", 1, "t"], ["y", 1, 2], 5, ["z"]]}"#,
    ] {
        let v = json(s);
        let e = find_response(&v).err().unwrap();
        assert!(matches!(e, JmapError::NoResponse));
        assert_eq!(e.message(), "No response found in JSON");
    }
}

#[test]
fn identity_of_the_address() {
    let list = identities(&[("i0", "a@x"), ("i1", "b@x"), ("i2", "b@x")]);
    assert_eq!(get_identity(&list, "b@x").unwrap(), "i1");
    let e = get_identity(&list, "c@x").err().unwrap();
    assert_eq!(e.message(), "No identity found for email: c@x");
}

#[test]
fn folder_for_the_purpose() {
    let list = folders(&[("f0", "inbox"), ("f1", "sent")]);
    assert_eq!(get_folder(&list, "sent").unwrap(), "f1");
    let e = get_folder(&list, "trash").err().unwrap();
    assert_eq!(e.message(), "No folder found for role: trash");
}

#[test]
fn settings_are_found_by_domain() {
    assert_eq!(well_known("me@x.org").unwrap(), "https://x.org/.well-known/jmap");
    assert_eq!(well_known("me").err().unwrap().message(), "Email incorrect");
}

#[test]
fn account_is_the_first() {
    let e = Account::new("me@x.org", settings(&[])).err().unwrap();
    assert_eq!(e.message(), "No aid found");
    assert_eq!(settings(&["A1", "A2"]).account_id().unwrap(), "A1");
    let account = Account::new("me@x.org", settings(&["A1", "A2"])).unwrap();
    let r = account.state_request();
    assert_eq!(r.url, "https://x.org/api");
    assert_eq!(r.body, get_last_mes_request("A1"));
    let r = account.identity_request();
    assert_eq!(r.url, "https://x.org/api");
    assert_eq!(r.body, get_identity_id_request("A1"));
    let r = account.folders_request();
    assert_eq!(r.url, "https://x.org/api");
    assert_eq!(r.body, get_folders_request("A1"));
    assert!(account.identity(&identities(&[])).is_err());
}

#[test]
fn transport_needs_a_folder_for_sent_mails() {
    let account = Account::new("me@x.org", settings(&["A1"])).unwrap();
    let e = JmapTransport::new(account, mails("s0", &[]), "i".to_string(), &folders(&[]));
    assert_eq!(e.err().unwrap().message(), "No folder found for role: sent");
}

#[test]
fn transport_fills_in_its_addresses() {
    let t = transport();
    assert_eq!(t.event_source_url(), "https://x.org/ev?t=*&c=no&p=15");
    assert_eq!(t.upload_url(), "https://x.org/up/A1");
    let r = t.send_request("b9");
    assert_eq!(r.url, "https://x.org/api");
    assert_eq!(r.body, get_send_blob_as_email_request("A1", "i1", "f1", "b9"));
    let r = t.download_request();
    assert_eq!(r.url, "https://x.org/api");
    assert_eq!(r.body, get_new_mes_request("A1", "s0"));
}

#[test]
fn mails_from_others_are_fetched() {
    let mut t = transport();
    let list: Vec<(&str, &[&str])> = vec![
        ("b1", &["a@y.org"]),
        ("b2", &["me@x.org"]),
        ("b3", &[]),
        ("b4", &["a@y.org", "b@y.org"]),
        ("b5", &["b@y.org"]),
    ];
    let d = t.download_messages(mails("s1", &list));
    assert_eq!(d.len(), 2);
    assert_eq!(d[0].url, "https://x.org/down/A1/b1");
    assert_eq!(d[0].client, "a@y.org");
    assert_eq!(d[1].url, "https://x.org/down/A1/b5");
    assert_eq!(d[1].client, "b@y.org");
    assert_eq!(t.download_request().body, get_new_mes_request("A1", "s1"));
    for next in d {
        let client = next.client.clone();
        let m = next.message(Bytes::from_static(b"file"));
        assert_eq!(m.client, client);
        assert!(m.info.is_none());
        assert_eq!(m.file.as_ref(), b"file");
    }
}

#[test]
fn mails_are_fetched_when_the_state_changes() {
    assert_eq!(on_event(ServerEvent::Message("state".into())), ServerAction::Download);
    assert_eq!(on_event(ServerEvent::Message("ping".into())), ServerAction::Ignore);
    assert_eq!(on_event(ServerEvent::Failed), ServerAction::Warn);
    assert_eq!(on_event(ServerEvent::Other), ServerAction::Ignore);
}

#[test]
fn mail_was_sent_or_not() {
    let v = json(r#"{"methodResponses": [["x", {"created": {}}, "a"]]}"#);
    assert_eq!(send_outcome(&v).unwrap(), None);
    let v = json(r#"{"methodResponses": [["x", {"notCreated": {"1": 5}}, "a"]]}"#);
    assert_eq!(send_outcome(&v).unwrap(), Some(&json(r#"{"1": 5}"#)));
    assert!(send_outcome(&json("{}")).is_err());
}
