//! What a mail server is asked, and where its answer stands.
use crate::jmap_transport::JmapError;
use crate::json;
use crate::json::Json;
use crate::text;
use serde_json::Value;
use vstd::prelude::*;
use vstd::string::*;

verus! {

/// What a mail server can do that a request makes use of.
pub open spec fn core_capability() -> Seq<char> {
    "urn:ietf:params:jmap:core"@
}

/// Mails.
pub open spec fn mail_capability() -> Seq<char> {
    "urn:ietf:params:jmap:mail"@
}

/// Sending mails.
pub open spec fn submission_capability() -> Seq<char> {
    "urn:ietf:params:jmap:submission"@
}

/// One call of a method, with a tag by which its answer is found.
pub open spec fn call_tree(method: Seq<char>, args: Map<Seq<char>, Json>, tag: Seq<char>) -> Json {
    Json::List(seq![Json::Text(method), Json::Object(args), Json::Text(tag)])
}

/// What a request makes use of, and the calls in it.
pub open spec fn request_members(using: Seq<Seq<char>>, calls: Seq<Json>) -> Map<Seq<char>, Json> {
    json::no_members().insert(
        "using"@,
        Json::List(using.map_values(|s: Seq<char>| Json::Text(s))),
    ).insert("methodCalls"@, Json::List(calls))
}

/// Asks for the mail that came last.
pub open spec fn last_mes_tree(aid: Seq<char>) -> Json {
    let newest_first = json::no_members().insert("property"@, Json::Text("receivedAt"@)).insert(
        "isAscending"@,
        Json::Bool(false),
    );
    let query = json::no_members().insert("accountId"@, Json::Text(aid)).insert(
        "sort"@,
        Json::List(seq![Json::Object(newest_first)]),
    ).insert("limit"@, Json::Whole(1));
    let ids = json::no_members().insert("resultOf"@, Json::Text("t"@)).insert(
        "name"@,
        Json::Text("Email/query"@),
    ).insert("path"@, Json::Text("/ids"@)).insert(
        "properties"@,
        Json::List(seq![Json::Text("from"@), Json::Text("blobId"@)]),
    );
    let get = json::no_members().insert("accountId"@, Json::Text(aid)).insert("#ids"@, Json::Object(ids));
    Json::Object(
        request_members(
            seq![core_capability(), mail_capability()],
            seq![call_tree("Email/query"@, query, "t"@), call_tree("Email/get"@, get, "a"@)],
        ).insert("@type"@, Json::Text("Request"@)),
    )
}

/// Asks for the mails that came since a state.
pub open spec fn new_mes_tree(aid: Seq<char>, last_state: Seq<char>) -> Json {
    let changes = json::no_members().insert("accountId"@, Json::Text(aid)).insert(
        "sinceState"@,
        Json::Text(last_state),
    );
    let ids = json::no_members().insert("resultOf"@, Json::Text("t"@)).insert(
        "name"@,
        Json::Text("Email/changes"@),
    ).insert("path"@, Json::Text("/created"@));
    let get = json::no_members().insert("accountId"@, Json::Text(aid)).insert("#ids"@, Json::Object(ids)).insert(
        "properties"@,
        Json::List(seq![Json::Text("from"@), Json::Text("blobId"@)]),
    );
    Json::Object(
        request_members(
            seq![core_capability(), mail_capability()],
            seq![call_tree("Email/changes"@, changes, "t"@), call_tree("Email/get"@, get, "a"@)],
        ).insert("@type"@, Json::Text("Request"@)),
    )
}

/// Asks under which names mails can be sent.
pub open spec fn identity_tree(aid: Seq<char>) -> Json {
    Json::Object(
        request_members(
            seq![core_capability(), submission_capability()],
            seq![
                call_tree(
                    "Identity/get"@,
                    json::no_members().insert("accountId"@, Json::Text(aid)),
                    "a"@,
                ),
            ],
        ),
    )
}

/// Asks which folders there are.
pub open spec fn folders_tree(aid: Seq<char>) -> Json {
    Json::Object(
        request_members(
            seq![core_capability(), mail_capability()],
            seq![
                call_tree(
                    "Mailbox/get"@,
                    json::no_members().insert("accountId"@, Json::Text(aid)),
                    "a"@,
                ),
            ],
        ),
    )
}

/// Asks to take a file as a mail into a folder, to send that mail, and to take it out again.
pub open spec fn send_tree(aid: Seq<char>, iid: Seq<char>, fid: Seq<char>, bid: Seq<char>) -> Json {
    let file = json::no_members().insert("blobId"@, Json::Text(bid)).insert(
        "mailboxIds"@,
        Json::Object(json::no_members().insert(fid, Json::Bool(true))),
    );
    let import = json::no_members().insert("accountId"@, Json::Text(aid)).insert(
        "emails"@,
        Json::Object(json::no_members().insert("0"@, Json::Object(file))),
    );
    let submission = json::no_members().insert("identityId"@, Json::Text(iid)).insert(
        "emailId"@,
        Json::Text("#0"@),
    );
    let submit = json::no_members().insert("accountId"@, Json::Text(aid)).insert(
        "create"@,
        Json::Object(json::no_members().insert("1"@, Json::Object(submission))),
    );
    let clear = json::no_members().insert("accountId"@, Json::Text(aid)).insert(
        "destroy"@,
        Json::List(seq![Json::Text("#b/created/1/emailId"@)]),
    );
    Json::Object(
        request_members(
            seq![core_capability(), mail_capability(), submission_capability()],
            seq![
                call_tree("Email/import"@, import, "t"@),
                call_tree("EmailSubmission/set"@, submit, "a"@),
                call_tree("Email/set"@, clear, "b"@),
            ],
        ),
    )
}

/// Fields with one more, a text.
fn with_text(fields: serde_json::Map<String, Value>, key: &str, s: &str) -> (r: serde_json::Map<String, Value>)
    ensures
        json::members(r) == json::members(fields).insert(key@, Json::Text(s@)),
{
    json::with_field(fields, key, json::text_value(s))
}

/// Fields with one more, an object.
fn with_object(
    fields: serde_json::Map<String, Value>,
    key: &str,
    object: serde_json::Map<String, Value>,
) -> (r: serde_json::Map<String, Value>)
    ensures
        json::members(r) == json::members(fields).insert(
            key@,
            Json::Object(json::members(object)),
        ),
{
    json::with_field(fields, key, json::object_value(object))
}

/// Two texts.
fn two_texts(a: &str, b: &str) -> (r: Value)
    ensures
        json::value_tree(r) == Json::List(seq![Json::Text(a@), Json::Text(b@)]),
{
    let items = json::with_item(json::no_items(), json::text_value(a));
    let items = json::with_item(items, json::text_value(b));
    assert(json::trees(items@) =~= seq![Json::Text(a@), Json::Text(b@)]);
    json::list_value(items)
}

/// One item.
fn one_item(v: Value) -> (r: Value)
    ensures
        json::value_tree(r) == Json::List(seq![json::value_tree(v)]),
{
    let items = json::with_item(json::no_items(), v);
    assert(json::trees(items@) =~= seq![json::value_tree(v)]);
    json::list_value(items)
}

/// The account, as the first of the arguments of a call.
fn account(aid: &str) -> (r: serde_json::Map<String, Value>)
    ensures
        json::members(r) == json::no_members().insert("accountId"@, Json::Text(aid@)),
{
    with_text(json::no_fields(), "accountId", aid)
}

/// Calls with one more.
fn with_call(calls: Vec<Value>, method: &str, args: serde_json::Map<String, Value>, tag: &str) -> (r: Vec<
    Value,
>)
    ensures
        json::trees(r@) == json::trees(calls@).push(
            call_tree(method@, json::members(args), tag@),
        ),
{
    let items = json::with_item(json::no_items(), json::text_value(method));
    let items = json::with_item(items, json::object_value(args));
    let items = json::with_item(items, json::text_value(tag));
    assert(json::trees(items@) =~= seq![
        Json::Text(method@),
        Json::Object(json::members(args)),
        Json::Text(tag@),
    ]);
    json::with_item(calls, json::list_value(items))
}

/// What a request makes use of.
fn using(mail: bool, submission: bool) -> (r: Vec<Value>)
    ensures
        json::trees(r@) == (seq![core_capability()] + (if mail {
            seq![mail_capability()]
        } else {
            seq![]
        }) + (if submission {
            seq![submission_capability()]
        } else {
            seq![]
        })).map_values(|s: Seq<char>| Json::Text(s)),
{
    let mut items = json::with_item(json::no_items(), json::text_value("urn:ietf:params:jmap:core"));
    if mail {
        items = json::with_item(items, json::text_value("urn:ietf:params:jmap:mail"));
    }
    if submission {
        items = json::with_item(items, json::text_value("urn:ietf:params:jmap:submission"));
    }
    items
}

/// A request.
fn request(using: Vec<Value>, calls: Vec<Value>) -> (r: serde_json::Map<String, Value>)
    ensures
        json::members(r) == json::no_members().insert("using"@, Json::List(json::trees(using@))).insert(
            "methodCalls"@,
            Json::List(json::trees(calls@)),
        ),
{
    let fields = json::with_field(json::no_fields(), "using", json::list_value(using));
    json::with_field(fields, "methodCalls", json::list_value(calls))
}

/// Asks for the mail that came last, as a document.
pub fn last_mes_value(aid: &str) -> (r: Value)
    ensures
        json::value_tree(r) == last_mes_tree(aid@),
{
    let newest = with_text(json::no_fields(), "property", "receivedAt");
    let newest = json::with_field(newest, "isAscending", json::bool_value(false));
    let query = json::with_field(account(aid), "sort", one_item(json::object_value(newest)));
    let query = json::with_field(query, "limit", json::whole_value(1));
    let ids = with_text(json::no_fields(), "resultOf", "t");
    let ids = with_text(ids, "name", "Email/query");
    let ids = with_text(ids, "path", "/ids");
    let ids = json::with_field(ids, "properties", two_texts("from", "blobId"));
    let get = with_object(account(aid), "#ids", ids);
    let calls = with_call(json::no_items(), "Email/query", query, "t");
    let calls = with_call(calls, "Email/get", get, "a");
    let used = using(true, false);
    let ghost ts = json::trees(calls@);
    let ghost us = json::trees(used@);
    let fields = with_text(request(used, calls), "@type", "Request");
    proof {
        assert(us =~= seq![core_capability(), mail_capability()].map_values(
            |s: Seq<char>| Json::Text(s),
        ));
        assert(ts =~= seq![ts[0], ts[1]]);
    }
    json::object_value(fields)
}

/// Asks for the mails that came since a state, as a document.
pub fn new_mes_value(aid: &str, last_state: &str) -> (r: Value)
    ensures
        json::value_tree(r) == new_mes_tree(aid@, last_state@),
{
    let changes = with_text(account(aid), "sinceState", last_state);
    let ids = with_text(json::no_fields(), "resultOf", "t");
    let ids = with_text(ids, "name", "Email/changes");
    let ids = with_text(ids, "path", "/created");
    let get = with_object(account(aid), "#ids", ids);
    let get = json::with_field(get, "properties", two_texts("from", "blobId"));
    let calls = with_call(json::no_items(), "Email/changes", changes, "t");
    let calls = with_call(calls, "Email/get", get, "a");
    let used = using(true, false);
    let ghost ts = json::trees(calls@);
    let ghost us = json::trees(used@);
    let fields = with_text(request(used, calls), "@type", "Request");
    proof {
        assert(us =~= seq![core_capability(), mail_capability()].map_values(
            |s: Seq<char>| Json::Text(s),
        ));
        assert(ts =~= seq![ts[0], ts[1]]);
    }
    json::object_value(fields)
}

/// Asks under which names mails can be sent, as a document.
pub fn identity_value(aid: &str) -> (r: Value)
    ensures
        json::value_tree(r) == identity_tree(aid@),
{
    let calls = with_call(json::no_items(), "Identity/get", account(aid), "a");
    let used = using(false, true);
    let ghost ts = json::trees(calls@);
    let ghost us = json::trees(used@);
    let fields = request(used, calls);
    proof {
        assert(us =~= seq![core_capability(), submission_capability()].map_values(
            |s: Seq<char>| Json::Text(s),
        ));
        assert(ts =~= seq![ts[0]]);
    }
    json::object_value(fields)
}

/// Asks which folders there are, as a document.
pub fn folders_value(aid: &str) -> (r: Value)
    ensures
        json::value_tree(r) == folders_tree(aid@),
{
    let calls = with_call(json::no_items(), "Mailbox/get", account(aid), "a");
    let used = using(true, false);
    let ghost ts = json::trees(calls@);
    let ghost us = json::trees(used@);
    let fields = request(used, calls);
    proof {
        assert(us =~= seq![core_capability(), mail_capability()].map_values(
            |s: Seq<char>| Json::Text(s),
        ));
        assert(ts =~= seq![ts[0]]);
    }
    json::object_value(fields)
}

/// Asks to take a file as a mail into a folder, to send that mail, and to take it out again, as a
/// document.
pub fn send_value(aid: &str, iid: &str, fid: &str, bid: &str) -> (r: Value)
    ensures
        json::value_tree(r) == send_tree(aid@, iid@, fid@, bid@),
{
    let folder = json::with_field(json::no_fields(), fid, json::bool_value(true));
    let file = with_object(with_text(json::no_fields(), "blobId", bid), "mailboxIds", folder);
    let import = with_object(account(aid), "emails", with_object(json::no_fields(), "0", file));
    let submission = with_text(json::no_fields(), "identityId", iid);
    let submission = with_text(submission, "emailId", "#0");
    let create = with_object(json::no_fields(), "1", submission);
    let submit = with_object(account(aid), "create", create);
    let gone = one_item(json::text_value("#b/created/1/emailId"));
    let clear = json::with_field(account(aid), "destroy", gone);
    let calls = with_call(json::no_items(), "Email/import", import, "t");
    let calls = with_call(calls, "EmailSubmission/set", submit, "a");
    let calls = with_call(calls, "Email/set", clear, "b");
    let used = using(true, true);
    let ghost ts = json::trees(calls@);
    let ghost us = json::trees(used@);
    let fields = request(used, calls);
    proof {
        assert(us =~= seq![
            core_capability(),
            mail_capability(),
            submission_capability(),
        ].map_values(|s: Seq<char>| Json::Text(s)));
        assert(ts =~= seq![ts[0], ts[1], ts[2]]);
    }
    json::object_value(fields)
}

/// Asks for the mail that came last.
pub fn get_last_mes_request(aid: &str) -> (r: String)
    ensures
        r@ == json::json_text(last_mes_tree(aid@)),
{
    json::value_text(&last_mes_value(aid))
}

/// Asks for the mails that came since a state.
pub fn get_new_mes_request(aid: &str, last_state: &str) -> (r: String)
    ensures
        r@ == json::json_text(new_mes_tree(aid@, last_state@)),
{
    json::value_text(&new_mes_value(aid, last_state))
}

/// Asks under which names mails can be sent.
pub fn get_identity_id_request(aid: &str) -> (r: String)
    ensures
        r@ == json::json_text(identity_tree(aid@)),
{
    json::value_text(&identity_value(aid))
}

/// Asks which folders there are.
pub fn get_folders_request(aid: &str) -> (r: String)
    ensures
        r@ == json::json_text(folders_tree(aid@)),
{
    json::value_text(&folders_value(aid))
}

/// Asks to take a file as a mail into a folder, to send that mail, and to take it out again.
pub fn get_send_blob_as_email_request(aid: &str, iid: &str, fid: &str, bid: &str) -> (r: String)
    ensures
        r@ == json::json_text(send_tree(aid@, iid@, fid@, bid@)),
{
    json::value_text(&send_value(aid, iid, fid, bid))
}

/// The answer of a call is the one that is asked for.
pub open spec fn is_asked(answer: Json) -> bool {
    json::item(answer, 2) == Some(Json::Text("a"@))
}

/// The first answer that is asked for.
pub open spec fn first_asked(answers: Seq<Json>) -> Option<Json>
    decreases answers.len(),
{
    if answers.len() == 0 {
        None
    } else if is_asked(answers[0]) {
        Some(answers[0])
    } else {
        first_asked(answers.skip(1))
    }
}

/// What the first answer that is asked for says.
pub open spec fn response_in(tree: Json) -> Option<Json> {
    match json::member(tree, "methodResponses"@) {
        Some(Json::List(answers)) => match first_asked(answers) {
            Some(answer) => json::item(answer, 1),
            None => None,
        },
        _ => None,
    }
}

/// Whether the answer of a call is the one that is asked for.
fn is_wanted(answer: &Value) -> (r: bool)
    ensures
        r == is_asked(json::value_tree(*answer)),
{
    match json::get_item(answer, 2) {
        Some(tag) => match tag.as_str() {
            Some(s) => text::same_text(s, "a"),
            None => false,
        },
        None => false,
    }
}

/// What the first answer that is asked for says.
pub fn find_response(json_value: &Value) -> (r: Result<&Value, JmapError>)
    ensures
        match r {
            Ok(v) => response_in(json::value_tree(*json_value)) == Some(json::value_tree(*v)),
            Err(e) => response_in(json::value_tree(*json_value)) is None && e is NoResponse,
        },
{
    let answers = match json::get_member(json_value, "methodResponses") {
        Some(list) => match list.as_array() {
            Some(items) => items,
            None => return Err(JmapError::NoResponse),
        },
        None => return Err(JmapError::NoResponse),
    };
    let ghost all = json::trees(answers@);
    assert(all.skip(0) =~= all);
    let mut i: usize = 0;
    while i < answers.len()
        invariant
            i <= answers@.len(),
            all == json::trees(answers@),
            first_asked(all) == first_asked(all.skip(i as int)),
            json::member(json::value_tree(*json_value), "methodResponses"@) == Some(
                Json::List(all),
            ),
        decreases answers@.len() - i,
    {
        assert(all[i as int] == json::value_tree(answers@[i as int]));
        assert(all.skip(i as int)[0] == all[i as int]);
        assert(all.skip(i as int).skip(1) =~= all.skip(i + 1));
        if is_wanted(&answers[i]) {
            return match json::get_item(&answers[i], 1) {
                Some(v) => Ok(v),
                None => Err(JmapError::NoResponse),
            };
        }
        i += 1;
    }
    Err(JmapError::NoResponse)
}

/// Exactly one call of each request has the tag under which the answer is looked for.
pub proof fn lemma_requests_are_tagged(
    aid: Seq<char>,
    state: Seq<char>,
    iid: Seq<char>,
    fid: Seq<char>,
    bid: Seq<char>,
)
    ensures
        asks_once(last_mes_tree(aid)),
        asks_once(new_mes_tree(aid, state)),
        asks_once(identity_tree(aid)),
        asks_once(folders_tree(aid)),
        asks_once(send_tree(aid, iid, fid, bid)),
{
    reveal_strlit("a");
    reveal_strlit("b");
    reveal_strlit("t");
    assert("a"@[0] == 'a' && "b"@[0] == 'b' && "t"@[0] == 't');
    reveal_strlit("using");
    reveal_strlit("methodCalls");
    reveal_strlit("@type");
    assert("@type"@.len() != "methodCalls"@.len());
    lemma_asks_once(last_mes_tree(aid), 1);
    lemma_asks_once(new_mes_tree(aid, state), 1);
    lemma_asks_once(identity_tree(aid), 0);
    lemma_asks_once(folders_tree(aid), 0);
    lemma_asks_once(send_tree(aid, iid, fid, bid), 1);
}

/// The calls of a request.
pub open spec fn calls_in(request: Json) -> Seq<Json> {
    match json::member(request, "methodCalls"@) {
        Some(Json::List(calls)) => calls,
        _ => seq![],
    }
}

/// Exactly one call of the request has the tag of the answer that is looked for.
pub open spec fn asks_once(request: Json) -> bool {
    exists|i: int| #[trigger] asks_at(request, i)
}

/// The call at that position, and no other, has the tag of the answer that is looked for.
pub open spec fn asks_at(request: Json, i: int) -> bool {
    &&& 0 <= i < calls_in(request).len()
    &&& forall|k: int|
        0 <= k < calls_in(request).len() ==> (is_asked(#[trigger] calls_in(request)[k]) <==> k == i)
}

/// The position is the one.
proof fn lemma_asks_once(request: Json, i: int)
    requires
        asks_at(request, i),
    ensures
        asks_once(request),
{
}

/// The member of that name of what may be an object.
pub open spec fn field(tree: Option<Json>, key: Seq<char>) -> Option<Json> {
    match tree {
        Some(t) => json::member(t, key),
        None => None,
    }
}

/// The call at that position is of the method, and its answer has the tag.
pub open spec fn is_call(request: Json, i: int, method: Seq<char>, tag: Seq<char>) -> bool {
    &&& 0 <= i < calls_in(request).len()
    &&& json::item(calls_in(request)[i], 0) == Some(Json::Text(method))
    &&& json::item(calls_in(request)[i], 2) == Some(Json::Text(tag))
    &&& json::item(calls_in(request)[i], 3) is None
}

/// The argument of that name of the call at that position.
pub open spec fn argument(request: Json, i: int, key: Seq<char>) -> Option<Json> {
    field(json::item(calls_in(request)[i], 1), key)
}

/// The call at that position has those arguments and no others.
pub open spec fn takes_only(request: Json, i: int, a: Seq<char>, b: Seq<char>, c: Seq<char>) -> bool {
    forall|key: Seq<char>| #[trigger]
        argument(request, i, key) is Some ==> key == a || key == b || key == c
}

/// The request makes use of just that, in order.
pub open spec fn uses(request: Json, capabilities: Seq<Seq<char>>) -> bool {
    &&& field(Some(request), "using"@) matches Some(Json::List(l)) && l.len() == capabilities.len()
    &&& field(Some(request), "using"@) matches Some(Json::List(l)) ==> forall|i: int|
        0 <= i < l.len() ==> #[trigger] l[i] == Json::Text(capabilities[i])
}

/// The names in requests differ where they stand together.
proof fn lemma_names_differ()
    ensures
        "using"@ != "methodCalls"@,
        "@type"@ != "methodCalls"@,
        "@type"@ != "using"@,
        "accountId"@ != "sort"@,
        "accountId"@ != "limit"@,
        "sort"@ != "limit"@,
        "accountId"@ != "#ids"@,
        "accountId"@ != "properties"@,
        "#ids"@ != "properties"@,
        "accountId"@ != "sinceState"@,
        "accountId"@ != "emails"@,
        "accountId"@ != "create"@,
        "accountId"@ != "destroy"@,
        "blobId"@ != "mailboxIds"@,
        "identityId"@ != "emailId"@,
        "resultOf"@ != "name"@,
        "resultOf"@ != "path"@,
        "resultOf"@ != "properties"@,
        "name"@ != "path"@,
        "name"@ != "properties"@,
        "path"@ != "properties"@,
        "property"@ != "isAscending"@,
{
    reveal_strlit("using");
    reveal_strlit("methodCalls");
    reveal_strlit("@type");
    reveal_strlit("accountId");
    reveal_strlit("sort");
    reveal_strlit("limit");
    reveal_strlit("#ids");
    reveal_strlit("properties");
    reveal_strlit("sinceState");
    reveal_strlit("emails");
    reveal_strlit("create");
    reveal_strlit("destroy");
    reveal_strlit("blobId");
    reveal_strlit("mailboxIds");
    reveal_strlit("identityId");
    reveal_strlit("emailId");
    reveal_strlit("resultOf");
    reveal_strlit("name");
    reveal_strlit("path");
    reveal_strlit("property");
    reveal_strlit("isAscending");
    assert("@type"@[0] == '@' && "using"@[0] == 'u');
    assert("name"@[0] == 'n' && "path"@[0] == 'p');
    assert("using"@.len() == 5 && "methodCalls"@.len() == 11 && "@type"@.len() == 5);
    assert("accountId"@.len() == 9 && "sort"@.len() == 4 && "limit"@.len() == 5);
    assert("#ids"@.len() == 4 && "properties"@.len() == 10 && "sinceState"@.len() == 10);
    assert("emails"@.len() == 6 && "create"@.len() == 6 && "destroy"@.len() == 7);
    assert("blobId"@.len() == 6 && "mailboxIds"@.len() == 10);
    assert("identityId"@.len() == 10 && "emailId"@.len() == 7);
    assert("resultOf"@.len() == 8 && "name"@.len() == 4 && "path"@.len() == 4);
    assert("property"@.len() == 8 && "isAscending"@.len() == 11);
}

/// The request to send a file: the file is taken under its name into the folder and no other, the
/// mail that comes of it is sent under the identity, and is then taken out again, all for the
/// account.
pub proof fn lemma_send_request(aid: Seq<char>, iid: Seq<char>, fid: Seq<char>, bid: Seq<char>)
    ensures
        ({
            let r = send_tree(aid, iid, fid, bid);
            let file = field(argument(r, 0, "emails"@), "0"@);
            let folders = field(file, "mailboxIds"@);
            let sent = field(argument(r, 1, "create"@), "1"@);
            &&& calls_in(r).len() == 3
            &&& is_call(r, 0, "Email/import"@, "t"@)
            &&& is_call(r, 1, "EmailSubmission/set"@, "a"@)
            &&& is_call(r, 2, "Email/set"@, "b"@)
            &&& forall|i: int|
                0 <= i < 3 ==> #[trigger] argument(r, i, "accountId"@) == Some(Json::Text(aid))
            &&& takes_only(r, 0, "accountId"@, "emails"@, "emails"@)
            &&& takes_only(r, 1, "accountId"@, "create"@, "create"@)
            &&& takes_only(r, 2, "accountId"@, "destroy"@, "destroy"@)
            &&& forall|key: Seq<char>| #[trigger]
                field(argument(r, 0, "emails"@), key) is Some <==> key == "0"@
            &&& field(file, "blobId"@) == Some(Json::Text(bid))
            &&& forall|key: Seq<char>| #[trigger]
                field(file, key) is Some <==> key == "blobId"@ || key == "mailboxIds"@
            &&& forall|key: Seq<char>| #[trigger] field(folders, key) is Some <==> key == fid
            &&& field(folders, fid) == Some(Json::Bool(true))
            &&& forall|key: Seq<char>| #[trigger]
                field(argument(r, 1, "create"@), key) is Some <==> key == "1"@
            &&& field(sent, "identityId"@) == Some(Json::Text(iid))
            &&& field(sent, "emailId"@) == Some(Json::Text("#0"@))
            &&& forall|key: Seq<char>| #[trigger]
                field(sent, key) is Some <==> key == "identityId"@ || key == "emailId"@
            &&& argument(r, 2, "destroy"@) == Some(
                Json::List(seq![Json::Text("#b/created/1/emailId"@)]),
            )
            &&& uses(
                r,
                seq![
                    "urn:ietf:params:jmap:core"@,
                    "urn:ietf:params:jmap:mail"@,
                    "urn:ietf:params:jmap:submission"@,
                ],
            )
            &&& forall|key: Seq<char>| #[trigger]
                field(Some(r), key) is Some ==> key == "using"@ || key == "methodCalls"@
        }),
{
    lemma_names_differ();
    let r = send_tree(aid, iid, fid, bid);
    assert(calls_in(r).len() == 3);
    assert forall|i: int| 0 <= i < 3 implies #[trigger] argument(r, i, "accountId"@) == Some(
        Json::Text(aid),
    ) by {
        assert(i == 0 || i == 1 || i == 2);
    }
}

/// The request for what came since a state: the changes since that state are asked for, and of the
/// mails that were created then, whom each is from and the file it is in, all for the account.
pub proof fn lemma_new_mes_request(aid: Seq<char>, state: Seq<char>)
    ensures
        ({
            let r = new_mes_tree(aid, state);
            let ids = argument(r, 1, "#ids"@);
            &&& calls_in(r).len() == 2
            &&& is_call(r, 0, "Email/changes"@, "t"@)
            &&& is_call(r, 1, "Email/get"@, "a"@)
            &&& argument(r, 0, "accountId"@) == Some(Json::Text(aid))
            &&& argument(r, 1, "accountId"@) == Some(Json::Text(aid))
            &&& argument(r, 0, "sinceState"@) == Some(Json::Text(state))
            &&& takes_only(r, 0, "accountId"@, "sinceState"@, "sinceState"@)
            &&& takes_only(r, 1, "accountId"@, "#ids"@, "properties"@)
            &&& field(ids, "resultOf"@) == Some(Json::Text("t"@))
            &&& field(ids, "name"@) == Some(Json::Text("Email/changes"@))
            &&& field(ids, "path"@) == Some(Json::Text("/created"@))
            &&& forall|key: Seq<char>| #[trigger]
                field(ids, key) is Some ==> key == "resultOf"@ || key == "name"@ || key == "path"@
            &&& argument(r, 1, "properties"@) == Some(
                Json::List(seq![Json::Text("from"@), Json::Text("blobId"@)]),
            )
            &&& uses(r, seq!["urn:ietf:params:jmap:core"@, "urn:ietf:params:jmap:mail"@])
            &&& field(Some(r), "@type"@) == Some(Json::Text("Request"@))
            &&& forall|key: Seq<char>| #[trigger]
                field(Some(r), key) is Some ==> key == "using"@ || key == "methodCalls"@ || key
                    == "@type"@
        }),
{
    lemma_names_differ();
}

/// The request for the mail that came last: one mail, the newest, is asked for, and whom it is from
/// and the file it is in, all for the account.
pub proof fn lemma_last_mes_request(aid: Seq<char>)
    ensures
        ({
            let r = last_mes_tree(aid);
            let ids = argument(r, 1, "#ids"@);
            &&& calls_in(r).len() == 2
            &&& is_call(r, 0, "Email/query"@, "t"@)
            &&& is_call(r, 1, "Email/get"@, "a"@)
            &&& argument(r, 0, "accountId"@) == Some(Json::Text(aid))
            &&& argument(r, 1, "accountId"@) == Some(Json::Text(aid))
            &&& argument(r, 0, "limit"@) == Some(Json::Whole(1))
            &&& argument(r, 0, "sort"@) matches Some(Json::List(l)) && l.len() == 1 && json::member(
                l[0],
                "property"@,
            ) == Some(Json::Text("receivedAt"@)) && json::member(l[0], "isAscending"@) == Some(
                Json::Bool(false),
            ) && (forall|key: Seq<char>| #[trigger]
                json::member(l[0], key) is Some ==> key == "property"@ || key == "isAscending"@)
            &&& takes_only(r, 0, "accountId"@, "sort"@, "limit"@)
            &&& takes_only(r, 1, "accountId"@, "#ids"@, "#ids"@)
            &&& field(ids, "resultOf"@) == Some(Json::Text("t"@))
            &&& field(ids, "name"@) == Some(Json::Text("Email/query"@))
            &&& field(ids, "path"@) == Some(Json::Text("/ids"@))
            &&& field(ids, "properties"@) == Some(
                Json::List(seq![Json::Text("from"@), Json::Text("blobId"@)]),
            )
            &&& forall|key: Seq<char>| #[trigger]
                field(ids, key) is Some ==> key == "resultOf"@ || key == "name"@ || key == "path"@
                    || key == "properties"@
            &&& uses(r, seq!["urn:ietf:params:jmap:core"@, "urn:ietf:params:jmap:mail"@])
            &&& field(Some(r), "@type"@) == Some(Json::Text("Request"@))
            &&& forall|key: Seq<char>| #[trigger]
                field(Some(r), key) is Some ==> key == "using"@ || key == "methodCalls"@ || key
                    == "@type"@
        }),
{
    lemma_names_differ();
}

/// The requests for identities and for folders are one call each, for the account.
pub proof fn lemma_list_requests(aid: Seq<char>)
    ensures
        ({
            let r = identity_tree(aid);
            &&& calls_in(r).len() == 1
            &&& is_call(r, 0, "Identity/get"@, "a"@)
            &&& argument(r, 0, "accountId"@) == Some(Json::Text(aid))
            &&& takes_only(r, 0, "accountId"@, "accountId"@, "accountId"@)
            &&& uses(r, seq!["urn:ietf:params:jmap:core"@, "urn:ietf:params:jmap:submission"@])
            &&& forall|key: Seq<char>| #[trigger]
                field(Some(r), key) is Some ==> key == "using"@ || key == "methodCalls"@
        }),
        ({
            let r = folders_tree(aid);
            &&& calls_in(r).len() == 1
            &&& is_call(r, 0, "Mailbox/get"@, "a"@)
            &&& argument(r, 0, "accountId"@) == Some(Json::Text(aid))
            &&& takes_only(r, 0, "accountId"@, "accountId"@, "accountId"@)
            &&& uses(r, seq!["urn:ietf:params:jmap:core"@, "urn:ietf:params:jmap:mail"@])
            &&& forall|key: Seq<char>| #[trigger]
                field(Some(r), key) is Some ==> key == "using"@ || key == "methodCalls"@
        }),
{
    lemma_names_differ();
}

/// The answer at that position has the tag `a`, and none before it has.
pub open spec fn is_first_asked(answers: Seq<Json>, i: int) -> bool {
    &&& 0 <= i < answers.len()
    &&& json::item(answers[i], 2) == Some(Json::Text("a"@))
    &&& forall|j: int| 0 <= j < i ==> json::item(#[trigger] answers[j], 2) != Some(Json::Text("a"@))
}

/// What is taken of the answers is the second item of the first that has the tag `a`; where none
/// has it, or where there are no answers, there is nothing.
pub proof fn lemma_response(tree: Json)
    ensures
        match json::member(tree, "methodResponses"@) {
            Some(Json::List(answers)) => {
                &&& forall|i: int| #[trigger]
                    is_first_asked(answers, i) ==> response_in(tree) == json::item(answers[i], 1)
                &&& (forall|i: int|
                    0 <= i < answers.len() ==> json::item(#[trigger] answers[i], 2) != Some(
                        Json::Text("a"@),
                    )) ==> response_in(tree) is None
            },
            _ => response_in(tree) is None,
        },
{
    match json::member(tree, "methodResponses"@) {
        Some(Json::List(answers)) => {
            assert forall|i: int| #[trigger] is_first_asked(answers, i) implies first_asked(answers)
                == Some(answers[i]) by {
                lemma_first_asked(answers, i);
            }
            if forall|i: int|
                0 <= i < answers.len() ==> json::item(#[trigger] answers[i], 2) != Some(
                    Json::Text("a"@),
                ) {
                lemma_none_asked(answers);
            }
        },
        _ => {},
    }
}

/// The first answer with the tag is the one that is taken.
proof fn lemma_first_asked(answers: Seq<Json>, i: int)
    requires
        is_first_asked(answers, i),
    ensures
        first_asked(answers) == Some(answers[i]),
    decreases answers.len(),
{
    if i > 0 {
        let rest = answers.skip(1);
        assert(json::item(answers[0], 2) != Some(Json::Text("a"@)));
        assert forall|j: int| 0 <= j < i - 1 implies json::item(#[trigger] rest[j], 2) != Some(
            Json::Text("a"@),
        ) by {
            assert(rest[j] == answers[j + 1]);
        }
        assert(rest[i - 1] == answers[i]);
        lemma_first_asked(rest, i - 1);
    }
}

/// Where no answer has the tag, none is taken.
proof fn lemma_none_asked(answers: Seq<Json>)
    requires
        forall|i: int|
            0 <= i < answers.len() ==> json::item(#[trigger] answers[i], 2) != Some(
                Json::Text("a"@),
            ),
    ensures
        first_asked(answers) is None,
    decreases answers.len(),
{
    if answers.len() > 0 {
        let rest = answers.skip(1);
        assert forall|i: int| 0 <= i < rest.len() implies json::item(#[trigger] rest[i], 2) != Some(
            Json::Text("a"@),
        ) by {
            assert(rest[i] == answers[i + 1]);
        }
        lemma_none_asked(rest);
    }
}

} // verus!
