use shellops::build::{BuildPlan, ServicePlan};
use shellops::command::Output;
use shellops::config::{Hit, Scope, Visibility};
use shellops::git::{git_in, git_lines, git_status, git_stdout, git_text};
use shellops::project::Project;
use shellops::tools::{
    config_list, debug, genrsa_args, keypair, keypair_lines, openssl_rand, rand_args,
    random_string, rsa_args, sort_dotenv,
};
use shellops::ui::Theme;

fn output(code: Option<i32>, stdout: &str, stderr: &str) -> Output {
    Output {
        code,
        stdout: stdout.to_string(),
        stderr: stderr.to_string(),
    }
}

fn strings(list: &[&str]) -> Vec<String> {
    list.iter().map(|item| item.to_string()).collect()
}

#[test]
fn dotenv_files_are_sorted_in_place() {
    assert_eq!(
        sort_dotenv(".env", true).unwrap(),
        vec!["-b", "-o", ".env", ".env"]
    );
    assert_eq!(sort_dotenv(".env", false).unwrap_err(), ".env is not a file");
}

#[test]
fn key_pairs_are_named_by_their_suffix() {
    let files = keypair("/keys", Some("dev".to_string()), true).unwrap();
    assert_eq!(files.private, "/keys/private-dev.pem");
    assert_eq!(files.public, "/keys/public-dev.pem");
    let files = keypair("/keys", Some(String::new()), true).unwrap();
    assert_eq!(files.private, "/keys/private.pem");
    assert_eq!(
        keypair("/keys", None, false).unwrap_err(),
        "/keys is not a directory"
    );
    assert_eq!(
        genrsa_args("p", "a.pem"),
        vec!["genrsa", "-aes128", "-passout", "pass:p", "-out", "a.pem", "2048"]
    );
    assert_eq!(
        rsa_args("p", "a.pem", "b.pem"),
        vec!["rsa", "-in", "a.pem", "-passin", "pass:p", "-pubout", "-out", "b.pem"]
    );
    assert_eq!(
        keypair_lines("/keys", "p", "e"),
        vec![
            "Private and public keys generated in /keys",
            "Passphrase used: p",
            "Random string for encryption key: e",
        ]
    );
}

#[test]
fn random_strings_are_letters_and_digits() {
    assert_eq!(rand_args(20).unwrap(), vec!["rand", "-base64", "20"]);
    assert_eq!(rand_args(0).unwrap_err(), "length must be at least 1");
    assert_eq!(
        random_string("a+/b=\n9é8", 4),
        "Generated random string: ab98"
    );
    assert_eq!(random_string("abcdef", 3), "Generated random string: abc");
    assert_eq!(openssl_rand(&output(Some(0), " a b\nc=\n", "")).unwrap(), "abc=");
    assert_eq!(
        openssl_rand(&output(Some(1), "abc", "")).unwrap_err(),
        "openssl rand failed"
    );
    assert_eq!(
        openssl_rand(&output(Some(0), " \n", "")).unwrap_err(),
        "openssl rand returned an empty value"
    );
}

#[test]
fn projects_are_shown_as_a_table() {
    let project = Project {
        root: "/work".to_string(),
        app_env: "dev".to_string(),
        dev: true,
    };
    let service = |name: &str| ServicePlan {
        name: name.to_string(),
        dockerfile: String::new(),
        args: Vec::new(),
        secrets: Vec::new(),
        tag: String::new(),
    };
    let plan = BuildPlan {
        prefix: "login.example".to_string(),
        services: vec![service("bundler"), service("php")],
    };
    let sheet = debug(
        Theme::plain(),
        &project,
        501,
        20,
        None,
        "latest".to_string(),
        Some(plan),
        true,
    );
    let rows: Vec<(&str, &str)> = sheet
        .rows
        .iter()
        .map(|row| (row[0].text.as_str(), row[1].text.as_str()))
        .collect();
    assert_eq!(
        rows,
        vec![
            ("root", "/work"),
            ("APP_ENV", "dev"),
            ("mode", "dev"),
            ("UID", "501"),
            ("GID", "20"),
            ("USER", "-"),
            ("VERSION", "latest"),
            ("image prefix", "login.example"),
            ("build order", "bundler, php"),
            ("docker secrets", "present"),
        ]
    );
}

#[test]
fn secrets_are_masked_in_the_table() {
    let hit = |value: &str, scope, visibility| Hit {
        value: value.to_string(),
        scope,
        visibility,
    };
    let rows = vec![
        ("a".to_string(), hit("1", Scope::Project, Visibility::Plain)),
        ("b".to_string(), hit("2", Scope::Global, Visibility::Secret)),
        ("c".to_string(), hit("3", Scope::Inferred, Visibility::Plain)),
    ];
    let sheet = config_list(Theme::plain(), &rows);
    let texts: Vec<Vec<&str>> = sheet
        .rows
        .iter()
        .map(|row| row.iter().map(|cell| cell.text.as_str()).collect())
        .collect();
    assert_eq!(
        texts,
        vec![
            vec!["a", "project", "1"],
            vec!["b", "global", "********"],
            vec!["c", "default", "3"],
        ]
    );
}

#[test]
fn git_answers_are_texts_and_lines() {
    let args = strings(&["tag", "-l"]);
    let run = git_in("/work", &args);
    assert_eq!(run.program, "git");
    assert_eq!(run.dir, "/work");
    assert_eq!(run.args, args);
    let answer = output(Some(0), " a \n\nb\n", "");
    assert_eq!(git_text(&args, &answer).unwrap(), " a \n\nb\n");
    assert_eq!(git_stdout(&args, &answer).unwrap(), "a \n\nb");
    assert_eq!(git_lines(&args, &answer).unwrap(), vec!["a", "b"]);
    let failed = output(Some(128), "", "fatal\n");
    assert_eq!(
        git_lines(&args, &failed).unwrap_err(),
        "git tag -l failed: fatal"
    );
    assert_eq!(git_status(&args, true), Ok(()));
    assert_eq!(git_status(&args, false).unwrap_err(), "git tag -l failed");
}
