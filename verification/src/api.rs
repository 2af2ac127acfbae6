//! What is sent to OpenRouter and GitHub, and what comes back.

use crate::codec::{json_text, json_value, read_json, write_json};
use crate::config::{hit_opt, inferred_default, Hit, Scope, Visibility};
use crate::notes::flags_for;
use crate::tags::Channel;
use crate::text::{glue, glue3, trim, trimmed, view_opt};
use crate::tree::{child, items_of, said_opt, table_of, Tree, TreeView};
use vstd::prelude::*;

verus! {

/// Where notes are written.
pub const OPENROUTER_URL: &'static str = "https://openrouter.ai/api/v1/chat/completions";

// Keys.

/// A key for a service, from the settings: one that nobody set is no key.
pub fn secret_or_plain(hit: Option<Hit>, key: &str) -> (r: Result<String, String>)
    ensures
        match hit {
            None => r matches Err(text) && text@ == "set the "@ + key@
                + " secret with so config set "@ + key@ + " --secret --stdin"@,
            Some(hit) => if hit.visibility != Visibility::Secret && hit.scope == Scope::Inferred {
                r matches Err(text) && text@ == key@ + " is not set"@
            } else {
                r matches Ok(text) && text@ == hit.value@
            },
        },
{
    match hit {
        None => {
            let mut text = glue3("set the ", key, " secret with so config set ");
            text.append(key);
            text.append(" --secret --stdin");
            Err(text)
        },
        Some(hit) => {
            if let Visibility::Plain = hit.visibility {
                if let Scope::Inferred = hit.scope {
                    return Err(glue(key, " is not set"));
                }
            }
            Ok(hit.value)
        },
    }
}

/// The model that notes are written with.
pub fn model_for(hit: Option<Hit>) -> (r: String)
    ensures
        r@ == match hit_opt(hit) {
            Some(hit) => hit.value,
            None => "openai/gpt-4o-mini"@,
        },
{
    match hit {
        Some(hit) => hit.value,
        None => match inferred_default("openrouter.model") {
            Some(model) => model,
            None => "openai/gpt-4o-mini".to_string(),
        },
    }
}

/// The header that carries a key.
pub fn bearer(key: &str) -> (r: String)
    ensures
        r@ == "Bearer "@ + key@,
{
    glue("Bearer ", key)
}

// OpenRouter.

/// A table with two names.
pub open spec fn pair_of(
    a: Seq<char>,
    x: TreeView,
    b: Seq<char>,
    y: TreeView,
) -> TreeView {
    TreeView::Table(Map::empty().insert(a, x).insert(b, y))
}

/// What asks for notes.
pub open spec fn request_of(model: Seq<char>, prompt: Seq<char>) -> TreeView {
    pair_of(
        "model"@,
        TreeView::Text(model),
        "messages"@,
        TreeView::Array(
            seq![
                pair_of(
                    "role"@,
                    TreeView::Text("user"@),
                    "content"@,
                    TreeView::Text(prompt),
                ),
            ],
        ),
    )
}

fn pair(a: &str, x: Tree, b: &str, y: Tree) -> (r: Tree)
    ensures
        r@ == pair_of(a@, x@, b@, y@),
{
    let entries = vec![(a.to_string(), x), (b.to_string(), y)];
    proof {
        assert(entries@.drop_last().drop_last() =~= seq![]);
        reveal_with_fuel(table_of, 3);
        assert(table_of(entries@) =~= Map::empty().insert(a@, x@).insert(b@, y@));
    }
    Tree::Table(entries)
}

/// What asks for notes.
pub fn openrouter_request(model: &str, prompt: &str) -> (r: Tree)
    ensures
        r@ == request_of(model@, prompt@),
{
    let message = pair(
        "role",
        Tree::Text("user".to_string()),
        "content",
        Tree::Text(prompt.to_string()),
    );
    let ghost said = message@;
    let messages = vec![message];
    proof {
        assert(messages@.drop_last() =~= seq![]);
        reveal_with_fuel(items_of, 2);
        assert(items_of(messages@) =~= seq![said]);
    }
    pair("model", Tree::Text(model.to_string()), "messages", Tree::Array(messages))
}

/// The text that asks for notes.
pub fn openrouter_body(model: &str, prompt: &str) -> (r: Result<String, serde_json::Error>)
    ensures
        match json_text(request_of(model@, prompt@)) {
            Some(text) => r matches Ok(body) && body@ == text,
            None => r is Err,
        },
{
    write_json(&openrouter_request(model, prompt))
}

/// The first value of a list, or the one named so in a table.
pub open spec fn first_of(value: TreeView) -> Option<TreeView> {
    match value {
        TreeView::Array(items) => if items.len() > 0 {
            Some(items[0])
        } else {
            None
        },
        other => child(other, "0"@),
    }
}

/// The notes in a reply.
pub open spec fn notes_in(reply: TreeView) -> Option<Seq<char>> {
    match child(reply, "choices"@) {
        None => None,
        Some(choices) => match first_of(choices) {
            None => None,
            Some(choice) => match child(choice, "message"@) {
                None => None,
                Some(message) => match child(message, "content"@) {
                    Some(TreeView::Text(text)) => if trimmed(text).len() > 0 {
                        Some(trimmed(text))
                    } else {
                        None
                    },
                    _ => None,
                },
            },
        },
    }
}

proof fn lemma_first_item(items: Seq<Tree>)
    requires
        items.len() > 0,
    ensures
        items_of(items).len() == items.len(),
        items_of(items)[0] == items[0]@,
    decreases items.len(),
{
    if items.len() > 1 {
        lemma_first_item(items.drop_last());
        assert(items.drop_last()[0] == items[0]);
    } else {
        assert(items.drop_last() =~= seq![]);
        assert(items_of(items.drop_last()).len() == 0);
    }
}

fn first(value: &Tree) -> (r: Option<&Tree>)
    ensures
        said_opt(r) == first_of(value@),
{
    match value {
        Tree::Array(items) => {
            if items.len() == 0 {
                assert(items_of(items@).len() == 0);
                return None;
            }
            proof {
                lemma_first_item(items@);
            }
            Some(&items[0])
        },
        other => other.get("0"),
    }
}

/// The notes in a reply.
pub fn reply_notes(reply: &Tree) -> (r: Option<String>)
    ensures
        view_opt(r) == notes_in(reply@),
{
    let choices = match reply.get("choices") {
        Some(choices) => choices,
        None => {
            return None;
        },
    };
    let choice = match first(choices) {
        Some(choice) => choice,
        None => {
            return None;
        },
    };
    let message = match choice.get("message") {
        Some(message) => message,
        None => {
            return None;
        },
    };
    let content = match message.get("content") {
        Some(content) => content,
        None => {
            return None;
        },
    };
    match content.as_text() {
        None => None,
        Some(text) => {
            let note = trim(text.as_str());
            if note.as_str().is_empty() {
                None
            } else {
                Some(note)
            }
        },
    }
}

/// Why a reply holds no notes.
#[derive(Debug)]
pub enum ReplyError {
    Unreadable(serde_json::Error),
    Empty,
}

impl ReplyError {
    /// What is said about the error.
    pub open spec fn says(self) -> Seq<char> {
        match self {
            ReplyError::Unreadable(_) => "could not parse OpenRouter"@,
            ReplyError::Empty => "OpenRouter returned an empty note"@,
        }
    }

    /// What is said about the error.
    pub fn message(&self) -> (r: String)
        ensures
            r@ == self.says(),
    {
        match self {
            ReplyError::Unreadable(_) => "could not parse OpenRouter".to_string(),
            ReplyError::Empty => "OpenRouter returned an empty note".to_string(),
        }
    }
}

/// The notes in the text of a reply.
pub fn openrouter_reply(text: &str) -> (r: Result<String, ReplyError>)
    ensures
        match json_value(text@) {
            None => r matches Err(ReplyError::Unreadable(_)),
            Some(reply) => match notes_in(reply) {
                Some(notes) => r matches Ok(text) && text@ == notes,
                None => r matches Err(ReplyError::Empty),
            },
        },
{
    match read_json(text) {
        Err(error) => Err(ReplyError::Unreadable(error)),
        Ok(reply) => match reply_notes(&reply) {
            Some(notes) => Ok(notes),
            None => Err(ReplyError::Empty),
        },
    }
}

// GitHub.

/// Where the releases of a repository are published.
pub fn publish_url(owner: &str, repo: &str) -> (r: String)
    ensures
        r@ == "https://api.github.com/repos/"@ + owner@ + "/"@ + repo@ + "/releases"@,
{
    let mut url = glue3("https://api.github.com/repos/", owner, "/");
    url.append(repo);
    url.append("/releases");
    url
}

/// What publishes a release.
pub open spec fn release_of(tag: Seq<char>, notes: Seq<char>, channel: Channel) -> TreeView {
    TreeView::Table(
        Map::empty().insert("tag_name"@, TreeView::Text(tag)).insert(
            "name"@,
            TreeView::Text(tag),
        ).insert("body"@, TreeView::Text(notes)).insert(
            "prerelease"@,
            TreeView::Boolean(channel != Channel::Stable),
        ).insert(
            "make_latest"@,
            TreeView::Text(
                if channel == Channel::Stable {
                    "true"@
                } else {
                    "false"@
                },
            ),
        ),
    )
}

/// What publishes a release.
pub fn release_request(tag: &str, notes: &str, channel: Channel) -> (r: Tree)
    ensures
        r@ == release_of(tag@, notes@, channel),
{
    let flags = flags_for(channel);
    let latest = if flags.make_latest {
        "true"
    } else {
        "false"
    };
    let entries = vec![
        ("tag_name".to_string(), Tree::Text(tag.to_string())),
        ("name".to_string(), Tree::Text(tag.to_string())),
        ("body".to_string(), Tree::Text(notes.to_string())),
        ("prerelease".to_string(), Tree::Boolean(flags.prerelease)),
        ("make_latest".to_string(), Tree::Text(latest.to_string())),
    ];
    proof {
        let e = entries@;
        assert(e.drop_last().drop_last().drop_last().drop_last().drop_last() =~= seq![]);
        reveal_with_fuel(table_of, 6);
        assert(TreeView::Table(table_of(e)) == release_of(tag@, notes@, channel));
    }
    Tree::Table(entries)
}

/// The text that publishes a release.
pub fn publish_body(tag: &str, notes: &str, channel: Channel) -> (r: Result<
    String,
    serde_json::Error,
>)
    ensures
        match json_text(release_of(tag@, notes@, channel)) {
            Some(text) => r matches Ok(body) && body@ == text,
            None => r is Err,
        },
{
    write_json(&release_request(tag, notes, channel))
}

// Requests in writing.

/// A key is what the settings hold; one that is missing is asked for, and a mere default is none.
pub proof fn law_keys_are_set_by_someone(
    hit: Option<Hit>,
    key: &str,
    r: Result<String, String>,
    header: String,
)
    requires
        call_ensures(secret_or_plain, (hit, key), r),
        call_ensures(bearer, (key,), header),
    ensures
        hit is None ==> (r matches Err(text) && text@ == "set the "@ + key@
            + " secret with so config set "@ + key@ + " --secret --stdin"@),
        hit matches Some(found) ==> {
            &&& found.visibility == Visibility::Secret ==> (r matches Ok(text) && text@
                == found.value@)
            &&& found.scope != Scope::Inferred ==> (r matches Ok(text) && text@ == found.value@)
            &&& found.visibility == Visibility::Plain && found.scope == Scope::Inferred ==> (
            r matches Err(text) && text@ == key@ + " is not set"@)
        },
        header@ == "Bearer "@ + key@,
{
}

/// Notes are asked for with the model that is set, or else with the usual one; the request has the
/// model and one message of the user with the prompt.
pub proof fn law_notes_are_asked_of_a_model(
    hit: Option<Hit>,
    r: String,
    model: &str,
    prompt: &str,
    request: Tree,
)
    requires
        call_ensures(model_for, (hit,), r),
        call_ensures(openrouter_request, (model, prompt), request),
    ensures
        hit matches Some(found) ==> r@ == found.value@,
        hit is None ==> r@ == "openai/gpt-4o-mini"@,
        child(request@, "model"@) == Some(TreeView::Text(model@)),
        child(request@, "messages"@) matches Some(TreeView::Array(messages)) && messages.len() == 1
            && child(messages[0], "role"@) == Some(TreeView::Text("user"@)) && child(
            messages[0],
            "content"@,
        ) == Some(TreeView::Text(prompt@)),
{
    reveal_strlit("model");
    reveal_strlit("messages");
    reveal_strlit("role");
    reveal_strlit("content");
    assert("model"@.len() == 5 && "messages"@.len() == 8 && "role"@.len() == 4 && "content"@.len()
        == 7);
}

/// A release is published under its tag, with the notes as its text; it is the latest exactly where
/// it is stable, and a pre-release exactly where it is not.
pub proof fn law_releases_are_published_under_their_tag(
    tag: &str,
    notes: &str,
    channel: Channel,
    request: Tree,
    owner: &str,
    repo: &str,
    url: String,
)
    requires
        call_ensures(release_request, (tag, notes, channel), request),
        call_ensures(publish_url, (owner, repo), url),
    ensures
        url@ == "https://api.github.com/repos/"@ + owner@ + "/"@ + repo@ + "/releases"@,
        child(request@, "tag_name"@) == Some(TreeView::Text(tag@)),
        child(request@, "name"@) == Some(TreeView::Text(tag@)),
        child(request@, "body"@) == Some(TreeView::Text(notes@)),
        channel == Channel::Stable ==> child(request@, "prerelease"@) == Some(
            TreeView::Boolean(false),
        ) && child(request@, "make_latest"@) == Some(TreeView::Text("true"@)),
        channel != Channel::Stable ==> child(request@, "prerelease"@) == Some(
            TreeView::Boolean(true),
        ) && child(request@, "make_latest"@) == Some(TreeView::Text("false"@)),
{
    reveal_strlit("tag_name");
    reveal_strlit("name");
    reveal_strlit("body");
    reveal_strlit("prerelease");
    reveal_strlit("make_latest");
    assert("tag_name"@.len() == 8 && "name"@.len() == 4 && "body"@.len() == 4 && "prerelease"@.len()
        == 10 && "make_latest"@.len() == 11);
    assert("name"@[0] == 'n' && "body"@[0] == 'b');
}

/// The notes are the content of the message of the first choice of a reply, without white space
/// around it; without any content there are none.
pub proof fn law_notes_are_the_first_choice(
    reply: &Tree,
    r: Option<String>,
    choices: Seq<TreeView>,
    message: TreeView,
    text: Seq<char>,
)
    requires
        call_ensures(reply_notes, (reply,), r),
        child(reply@, "choices"@) == Some(TreeView::Array(choices)),
    ensures
        choices.len() == 0 ==> r is None,
        choices.len() > 0 && child(choices[0], "message"@) == Some(message) && child(
            message,
            "content"@,
        ) == Some(TreeView::Text(text)) ==> {
            &&& trimmed(text).len() > 0 ==> (r matches Some(notes) && notes@ == trimmed(text))
            &&& trimmed(text).len() == 0 ==> r is None
        },
{
}

/// What is sent is the request in JSON, and what came back is read as JSON.
pub proof fn law_requests_are_sent_as_json(
    model: &str,
    prompt: &str,
    request: Tree,
    body: Result<String, serde_json::Error>,
    tag: &str,
    notes: &str,
    channel: Channel,
    release: Tree,
    sent: Result<String, serde_json::Error>,
    text: &str,
    reply: &Tree,
    found: Option<String>,
    r: Result<String, ReplyError>,
)
    requires
        call_ensures(openrouter_request, (model, prompt), request),
        call_ensures(openrouter_body, (model, prompt), body),
        call_ensures(release_request, (tag, notes, channel), release),
        call_ensures(publish_body, (tag, notes, channel), sent),
        call_ensures(reply_notes, (reply,), found),
        call_ensures(openrouter_reply, (text,), r),
    ensures
        body matches Ok(out) ==> json_text(request@) == Some(out@),
        sent matches Ok(out) ==> json_text(release@) == Some(out@),
        json_value(text@) is None ==> (r matches Err(ReplyError::Unreadable(_))),
        json_value(text@) == Some(reply@) ==> {
            &&& found matches Some(own) ==> (r matches Ok(out) && out@ == own@)
            &&& found is None ==> (r matches Err(ReplyError::Empty))
        },
{
}

/// Errors say what was wrong with a reply.
pub proof fn law_reply_errors_say_what_was_wrong(error: &ReplyError, r: String)
    requires
        call_ensures(ReplyError::message, (error,), r),
    ensures
        error is Unreadable ==> r@ == "could not parse OpenRouter"@,
        error is Empty ==> r@ == "OpenRouter returned an empty note"@,
{
}

} // verus!
