use shellops::config::{
    display_value, inferred_default, project_key, validate_key, ConfigError, Scope, Store,
    Visibility,
};
use shellops::command::Output;

fn empty() -> Store {
    Store::at("/home/ann/.shellops".to_string(), None, None)
}

fn holding(config: &str, secrets: &str) -> Store {
    Store::at(
        "/s".to_string(),
        Some(config.to_string()),
        Some(secrets.to_string()),
    )
}

#[test]
fn project_beats_global_beats_inferred_and_secrets_stay_hidden() {
    let mut store = empty();
    let project = "/work/auth";
    store
        .set("openrouter.model", "global-model", false, None)
        .unwrap();
    store
        .set("openrouter.model", "project-model", false, Some(project))
        .unwrap();
    store.set("github", "token-value", true, None).unwrap();
    let hit = store
        .lookup("openrouter.model", Some(project))
        .unwrap()
        .unwrap();
    assert_eq!(hit.value, "project-model");
    assert_eq!(hit.scope, Scope::Project);
    let global = store.lookup("openrouter.model", None).unwrap().unwrap();
    assert_eq!(global.value, "global-model");
    store.unset("openrouter.model", None).unwrap();
    store.unset("openrouter.model", Some(project)).unwrap();
    let inferred = store
        .lookup_with("openrouter.model", None, Some("inferred-model".into()))
        .unwrap()
        .unwrap();
    assert_eq!(inferred.scope, Scope::Inferred);
    assert_eq!(inferred.value, "inferred-model");
    let err = store.get("github", None).unwrap_err();
    assert!(err.message().contains("refusing to print secret"));
    let listed = store.list(None).unwrap();
    let github = listed.iter().find(|(key, _)| key == "github").unwrap();
    assert_eq!(display_value(&github.1), "********");
    assert!(store.secrets.is_some());
}

#[test]
fn files_are_written_where_there_is_something_to_write() {
    let mut store = Store::open("/home/ann", None, None);
    assert_eq!(store.dir, "/home/ann/.shellops");
    store.unset("a", None).unwrap();
    assert_eq!(store.config, None);
    assert_eq!(store.secrets, None);
    store.set("a.b", "x", false, None).unwrap();
    assert_eq!(store.config.as_deref(), Some("[a]\nb = \"x\"\n"));
    assert_eq!(store.secrets, None);
    store.set("a.b", "y", true, None).unwrap();
    assert_eq!(store.secrets.as_deref(), Some("[a]\nb = \"y\"\n"));
    assert_eq!(store.config.as_deref(), Some("[a]\n"));
    assert_eq!(store.get("a.b", None).unwrap_err().message(), "refusing to print secret a.b");
    store.set("a.b", "z", false, Some("/work")).unwrap();
    assert_eq!(
        store.config.as_deref(),
        Some("[a]\n\n[project.\"/work\".a]\nb = \"z\"\n")
    );
    assert_eq!(store.get("a.b", Some("/work")).unwrap().value, "z");
}

#[test]
fn a_value_in_the_way_of_a_key_is_replaced() {
    let mut store = holding("a = 1\nother = \"kept\"\n", "");
    store.set("a.b.c", "x", false, None).unwrap();
    assert_eq!(store.get("a.b.c", None).unwrap().value, "x");
    assert_eq!(store.get("other", None).unwrap().value, "kept");
    assert!(matches!(store.get("a", None), Err(ConfigError::NotSet(_))));
}

#[test]
fn every_kind_of_value_is_shown() {
    let store = holding(
        "text = \"t\"\nnumber = -3\nfraction = 1.5\nflag = true\nday = 2026-01-02\nlist = [1]\n[table]\nx = 1\n",
        "",
    );
    let shown = |key: &str| store.get(key, None).map(|hit| hit.value).ok();
    assert_eq!(shown("text").as_deref(), Some("t"));
    assert_eq!(shown("number").as_deref(), Some("-3"));
    assert_eq!(shown("fraction").as_deref(), Some("1.5"));
    assert_eq!(shown("flag").as_deref(), Some("true"));
    assert_eq!(shown("day").as_deref(), Some("2026-01-02"));
    assert_eq!(shown("list"), None);
    assert_eq!(shown("table"), None);
    assert_eq!(shown("table.x").as_deref(), Some("1"));
    let keys: Vec<String> = store.list(None).unwrap().into_iter().map(|row| row.0).collect();
    assert_eq!(keys, vec!["day", "flag", "fraction", "number", "table.x", "text"]);
}

#[test]
fn values_survive_the_writing_of_others() {
    let mut store = holding(
        "fraction = 1.5\nday = 2026-01-02T03:04:05Z\nlist = [1, \"two\", [3.25]]\n",
        "",
    );
    store.set("new", "x", false, None).unwrap();
    assert_eq!(store.get("fraction", None).unwrap().value, "1.5");
    assert_eq!(store.get("day", None).unwrap().value, "2026-01-02T03:04:05Z");
    let text = store.config.clone().unwrap();
    assert!(text.contains("list = [\n    1,\n    \"two\",\n    [3.25],\n]\n"), "{text}");
}

#[test]
fn listed_settings_are_masked_sorted_and_scoped() {
    let store = holding(
        "b = \"1\"\na = \"2\"\n[project.\"/work\"]\nb = \"3\"\n[project.\"/other\"]\nz = \"4\"\n",
        "c = \"5\"\n",
    );
    let rows = store.list(Some("/work")).unwrap();
    let seen: Vec<(&str, Scope, String)> = rows
        .iter()
        .map(|(key, hit)| (key.as_str(), hit.scope, display_value(hit)))
        .collect();
    assert_eq!(
        seen,
        vec![
            ("a", Scope::Global, "2".to_string()),
            ("b", Scope::Project, "3".to_string()),
            ("c", Scope::Global, "********".to_string()),
        ]
    );
    assert_eq!(rows[2].1.visibility, Visibility::Secret);
}

#[test]
fn keys_have_names_between_their_dots() {
    for key in ["", ".", ".a", "a.", "a..b"] {
        let error = validate_key(key).unwrap_err();
        assert_eq!(error.message(), format!("invalid config key {key}"));
    }
    for key in ["project", "project.a"] {
        let error = validate_key(key).unwrap_err();
        assert_eq!(error.message(), "config key project is reserved");
    }
    for key in ["a", "a.b", "projects", "a.project"] {
        assert!(validate_key(key).is_ok());
    }
    let mut store = empty();
    assert!(matches!(
        store.checked_set("a..b", "x", false, None),
        Some(Err(ConfigError::InvalidKey(_)))
    ));
    assert!(matches!(
        store.checked_unset("project", None),
        Some(Err(ConfigError::Reserved))
    ));
}

#[test]
fn files_that_are_no_documents_are_reported() {
    let mut store = holding("a = ", "");
    let error = store.lookup("a", None).unwrap_err();
    assert_eq!(error.message(), "could not parse /s/config.toml");
    assert!(matches!(error, ConfigError::Unreadable { .. }));
    assert!(store.list(None).is_err());
    let error = store.set("b", "x", false, None).unwrap_err();
    assert_eq!(error.message(), "could not parse /s/config.toml");
    let mut store = holding("", "]");
    assert_eq!(
        store.get("a", None).unwrap_err().message(),
        "could not parse /s/secrets.toml"
    );
    let error = store.set("b", "x", false, None).unwrap_err();
    assert_eq!(error.message(), "could not parse /s/secrets.toml");
    assert_eq!(store.config.as_deref(), Some("b = \"x\"\n"));
    assert_eq!(
        empty().get("b", None).unwrap_err().message(),
        "config key b is not set"
    );
}

#[test]
fn a_value_in_the_place_of_projects_is_not_replaced() {
    let mut store = holding("project = 1\n", "");
    assert!(!store.has_room(false, Some("/work")));
    assert!(store.checked_set("a", "x", false, Some("/work")).is_none());
    assert!(store.checked_unset("a", Some("/work")).is_none());
    assert_eq!(store.config.as_deref(), Some("project = 1\n"));
    assert!(store.has_room(false, None));
    assert!(matches!(store.checked_set("a", "x", false, None), Some(Ok(()))));
}

#[test]
fn some_keys_have_defaults() {
    assert_eq!(
        inferred_default("openrouter.model").as_deref(),
        Some("openai/gpt-4o-mini")
    );
    assert_eq!(inferred_default("openrouter"), None);
    let hit = empty().get("openrouter.model", None).unwrap();
    assert_eq!(hit.value, "openai/gpt-4o-mini");
    assert_eq!(hit.scope, Scope::Inferred);
}

#[test]
fn projects_are_known_by_their_root() {
    let answer = Output {
        code: Some(0),
        stdout: "/work\n".to_string(),
        stderr: String::new(),
    };
    assert_eq!(project_key(&answer).unwrap(), "/work");
}

#[test]
fn odd_values_and_names_are_read_back() {
    for value in [
        "",
        "a\nb",
        "\na",
        "a\n",
        "a\r\nb",
        "\r",
        "\u{0}\u{1b}\u{7f}",
        "'''",
        "\"\"\"",
        "''\n\"\"",
        "\\",
        "a\\\n  b",
        "é\u{1f600}",
        "\t tab",
        "'\"",
        "true",
    ] {
        for key in ["a", "a.b", "a b.'.\"", "é.\\", "x.\n.\r"] {
            for secret in [false, true] {
                let mut store = holding("list = [[1.0], { a = 2026-01-02 }]\n", "");
                store.set(key, value, secret, None).unwrap();
                store.set(key, "other", !secret, Some("/w 'x'")).unwrap();
                let hit = store.lookup(key, None).unwrap().unwrap();
                assert_eq!(hit.value, value, "{key} {value:?}");
                assert_eq!(hit.visibility == Visibility::Secret, secret);
                let text = store.config.clone().unwrap();
                assert!(text.contains("[1.0]"), "{text}");
            }
        }
    }
}

#[test]
fn numbers_and_times_survive() {
    let values = [
        ("inf", "inf".to_string()),
        ("-inf", "-inf".to_string()),
        ("nan", "NaN".to_string()),
        ("-0.0", "-0".to_string()),
        ("1e300", format!("1{}", "0".repeat(300))),
        ("1e-7", "0.0000001".to_string()),
        ("5e-324", format!("0.{}5", "0".repeat(323))),
        ("0x1F", "31".to_string()),
        ("-9223372036854775808", "-9223372036854775808".to_string()),
        ("07:32:00", "07:32:00".to_string()),
        ("07:32:00.120000", "07:32:00.12".to_string()),
        (
            "1979-05-27 07:32:00-07:00",
            "1979-05-27T07:32:00-07:00".to_string(),
        ),
        (
            "1979-05-27T00:32:00.999999999",
            "1979-05-27T00:32:00.999999999".to_string(),
        ),
    ];
    for (written, shown) in values {
        let mut store = holding(&format!("a = {written}\n"), "");
        assert_eq!(store.get("a", None).unwrap().value, shown);
        store.set("b", "x", false, None).unwrap();
        assert_eq!(store.get("a", None).unwrap().value, shown, "{written}");
    }
}

#[test]
fn deep_tables_are_read_back() {
    let key = vec!["k"; 81].join(".");
    let mut store = empty();
    store.set(&key, "x", false, None).unwrap();
    assert_eq!(store.get(&key, None).unwrap().value, "x");
}

#[test]
fn deep_lists_are_read_back() {
    let lists = format!("a = {}1{}\n", "[".repeat(80), "]".repeat(80));
    let mixed = format!("a = {}1{}\n", "[{ b = ".repeat(40), " }]".repeat(40));
    let tables = format!("a = {}1{}\n", "{ b = ".repeat(80), " }".repeat(80));
    for text in [lists, mixed, tables] {
        let mut store = holding(&text, "");
        store.set("other", "x", false, None).unwrap();
        store.set("project_name", "y", false, Some("/work")).unwrap();
        assert_eq!(store.get("other", None).unwrap().value, "x", "{text}");
        assert_eq!(store.get("project_name", Some("/work")).unwrap().value, "y");
        store.unset("other", None).unwrap();
        assert!(store.get("other", None).is_err());
        let kept = store.config.clone().unwrap();
        assert_eq!(kept.matches('1').count(), 1, "{kept}");
    }
}

#[test]
fn keys_are_found_up_to_the_depth_of_the_format() {
    let key = |names: usize| vec!["a"; names].join(".");
    let mut store = empty();
    store.set(&key(81), "v", false, None).unwrap();
    assert_eq!(store.lookup(&key(81), None).unwrap().unwrap().value, "v");
    assert_eq!(store.list(None).unwrap().len(), 1);
    store.unset(&key(81), None).unwrap();
    assert_eq!(store.lookup(&key(81), None).unwrap(), None);
    let mut store = empty();
    store.set(&key(79), "v", true, Some("/p")).unwrap();
    assert_eq!(
        store.lookup(&key(79), Some("/p")).unwrap().unwrap().value,
        "v"
    );
    let mut store = empty();
    store.set(&key(82), "v", false, None).unwrap();
    assert!(store
        .lookup(&key(82), None)
        .unwrap_err()
        .message()
        .contains("could not parse"));
}

#[test]
fn a_value_is_in_one_of_the_files() {
    let mut store = empty();
    store.set("a.b", "plain", false, None).unwrap();
    store.set("a.b", "hidden", true, None).unwrap();
    assert!(!store.config.clone().unwrap().contains("plain"));
    assert!(store.secrets.clone().unwrap().contains("hidden"));
    let hit = store.lookup("a.b", None).unwrap().unwrap();
    assert_eq!(hit.value, "hidden");
    assert_eq!(hit.visibility, Visibility::Secret);
    store.set("a.b", "plain", false, Some("/p")).unwrap();
    assert_eq!(store.lookup("a.b", Some("/p")).unwrap().unwrap().value, "plain");
    store.set("a.b", "plain", false, None).unwrap();
    assert!(!store.secrets.clone().unwrap().contains("hidden"));
}

#[test]
fn what_is_listed_is_what_is_found() {
    let mut store = empty();
    let project = Some("/work/a.b");
    store.set("z", "1", false, None).unwrap();
    store.set("a.b.c", "2", true, project).unwrap();
    store.set("a.b.d", "3", false, None).unwrap();
    store.set("m", "4", false, Some("/other")).unwrap();
    store.set("gone", "5", false, None).unwrap();
    store.unset("gone", None).unwrap();
    for place in [None, project] {
        let rows = store.list(place).unwrap();
        assert!(rows.windows(2).all(|pair| pair[0].0 < pair[1].0));
        for (key, hit) in &rows {
            assert_eq!(store.lookup(key, place).unwrap().as_ref(), Some(hit));
        }
        for key in ["z", "a", "a.b", "a.b.c", "a.b.d", "m", "gone", "openrouter.model"] {
            let listed = rows.iter().any(|row| row.0 == key);
            let found = store
                .lookup(key, place)
                .unwrap()
                .is_some_and(|hit| hit.scope != Scope::Inferred);
            assert_eq!(listed, found, "{key}");
        }
    }
}

#[test]
fn documents_at_the_limits_of_the_format_are_read_back() {
    let heading = vec!["h"; 80].join(".");
    let lists = format!("{}1{}", "[".repeat(80), "]".repeat(80));
    let mixed = format!("[1, {}1{}]", "{ b = ".repeat(79), " }".repeat(79));
    let under = vec!["h"; 79].join(".");
    for text in [
        format!("[{heading}]\nk = {lists}\n"),
        format!("[{heading}]\nk = {mixed}\n"),
        format!("[[{heading}]]\nk = {lists}\n[[{heading}]]\nk = []\n"),
        format!("[[{under}]]\n[[{heading}]]\nk = {mixed}\n"),
    ] {
        let mut store = holding(&text, "");
        store.set("other", "x", false, None).unwrap();
        assert_eq!(store.get("other", None).unwrap().value, "x", "{text}");
        let kept = store.config.clone().unwrap();
        store.set("other", "y", false, None).unwrap();
        assert_eq!(
            store.config.clone().unwrap(),
            kept.replace("\"x\"", "\"y\""),
            "{text}"
        );
    }
}

#[test]
fn lists_show_what_is_found_of_names_that_the_format_has() {
    let mut store = empty();
    let own = "$__toml_private_datetime";
    store
        .set(&format!("a.{own}"), "1979-05-27", false, None)
        .unwrap();
    store.set("b", "1", true, None).unwrap();
    let rows = store.list(None).unwrap();
    let keys: Vec<&str> = rows.iter().map(|row| row.0.as_str()).collect();
    assert_eq!(keys, vec!["a", "b"]);
    assert_eq!(store.lookup("a", None).unwrap().unwrap().value, "1979-05-27");
    assert_eq!(store.lookup(&format!("a.{own}"), None).unwrap(), None);
    let mut store = empty();
    store.set(own, "no time", false, None).unwrap();
    assert!(store.list(None).is_err());
    let mut store = empty();
    store.set(own, "1979-05-27", false, None).unwrap();
    assert_eq!(store.list(None).unwrap().len(), 0);
    assert_eq!(store.lookup(own, None).unwrap(), None);
    assert!(matches!(
        store.set("c", "1", false, None),
        Err(ConfigError::NoTable)
    ));
}
