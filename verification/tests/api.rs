use shellops::api::{
    bearer, model_for, openrouter_body, openrouter_reply, publish_body, publish_url, reply_notes,
    secret_or_plain, ReplyError,
};
use shellops::config::{Hit, Scope, Visibility};
use shellops::tags::Channel;
use shellops::tree::{assign, collect_keys, dig, value_string, Tree};

fn hit(value: &str, scope: Scope, visibility: Visibility) -> Option<Hit> {
    Some(Hit {
        value: value.to_string(),
        scope,
        visibility,
    })
}

fn text(value: &str) -> Tree {
    Tree::Text(value.to_string())
}

fn path(parts: &[&str]) -> Vec<String> {
    parts.iter().map(|part| part.to_string()).collect()
}

#[test]
fn keys_are_set_by_the_user() {
    assert_eq!(
        secret_or_plain(hit("k", Scope::Global, Visibility::Secret), "openrouter").unwrap(),
        "k"
    );
    assert_eq!(
        secret_or_plain(hit("k", Scope::Project, Visibility::Plain), "openrouter").unwrap(),
        "k"
    );
    assert_eq!(
        secret_or_plain(hit("k", Scope::Inferred, Visibility::Plain), "openrouter").unwrap_err(),
        "openrouter is not set"
    );
    assert_eq!(
        secret_or_plain(None, "openrouter").unwrap_err(),
        "set the openrouter secret with so config set openrouter --secret --stdin"
    );
    assert_eq!(model_for(hit("m", Scope::Global, Visibility::Plain)), "m");
    assert_eq!(model_for(None), "openai/gpt-4o-mini");
    assert_eq!(bearer("k"), "Bearer k");
}

#[test]
fn requests_are_json_texts() {
    assert_eq!(
        openrouter_body("m", "say \"hi\"\n").unwrap(),
        r#"{"messages":[{"content":"say \"hi\"\n","role":"user"}],"model":"m"}"#
    );
    assert_eq!(
        publish_body("v1", "notes", Channel::Stable).unwrap(),
        r#"{"body":"notes","make_latest":"true","name":"v1","prerelease":false,"tag_name":"v1"}"#
    );
    assert_eq!(
        publish_body("v1", "", Channel::Rc).unwrap(),
        r#"{"body":"","make_latest":"false","name":"v1","prerelease":true,"tag_name":"v1"}"#
    );
    assert_eq!(
        publish_url("a", "b"),
        "https://api.github.com/repos/a/b/releases"
    );
}

#[test]
fn replies_hold_notes() {
    assert_eq!(
        openrouter_reply(r#"{"choices":[{"message":{"content":" notes \n"}}]}"#).unwrap(),
        "notes"
    );
    let error = openrouter_reply("<html>").unwrap_err();
    assert_eq!(error.message(), "could not parse OpenRouter");
    assert!(matches!(error, ReplyError::Unreadable(_)));
    assert_eq!(
        ReplyError::Empty.message(),
        "OpenRouter returned an empty note"
    );
    for empty in [
        r#"{"choices":[{"message":{"content":"  "}}]}"#,
        r#"{"choices":[]}"#,
        r#"{"choices":[{"message":{"content":3}}]}"#,
        "[]",
    ] {
        assert!(matches!(openrouter_reply(empty), Err(ReplyError::Empty)));
    }
    assert_eq!(reply_notes(&Tree::Null), None);
}

#[test]
fn values_are_found_by_their_path() {
    let tree = Tree::Table(vec![(
        "a".to_string(),
        Tree::Table(vec![("b".to_string(), Tree::Integer(7))]),
    )]);
    assert_eq!(dig(&tree, &path(&["a", "b"])), Some(&Tree::Integer(7)));
    assert_eq!(dig(&tree, &path(&["a", "c"])), None);
    assert_eq!(dig(&tree, &path(&["a", "b", "c"])), None);
    assert_eq!(value_string(&Tree::Integer(-7)).as_deref(), Some("-7"));
    assert_eq!(value_string(&Tree::Boolean(false)).as_deref(), Some("false"));
    assert_eq!(value_string(&tree), None);
    assert_eq!(text("x").as_text().as_deref(), Some("x"));
    assert_eq!(Tree::Null.as_text(), None);
}

#[test]
fn assigned_values_replace_what_is_in_the_way() {
    let table = assign(Vec::new(), &path(&["a", "b"]), Some("x".to_string()));
    let table = assign(table, &path(&["c"]), Some("y".to_string()));
    let tree = Tree::Table(table);
    assert_eq!(dig(&tree, &path(&["a", "b"])), Some(&text("x")));
    assert_eq!(dig(&tree, &path(&["c"])), Some(&text("y")));
    assert_eq!(
        collect_keys(&tree, "", true, Vec::new()),
        vec!["a.b", "c"]
    );
    let Tree::Table(table) = tree else {
        panic!("a table stays one");
    };
    let tree = Tree::Table(assign(table, &path(&["a"]), None));
    assert_eq!(dig(&tree, &path(&["a"])), None);
    assert_eq!(dig(&tree, &path(&["c"])), Some(&text("y")));
}
