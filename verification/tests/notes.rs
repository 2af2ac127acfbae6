use shellops::command::Output;
use shellops::notes::{
    build_prompt, cap_text, chosen, diff_path_allowed, editor, flags_for, gh_token, github_repo,
    is_env_example, is_migration, log_args, name_args, offered, origin_args, parse_github_remote,
    range, release_prompt, section_args, section_diff, sort_paths, stat_args, Choice, DIFF_CAP,
};
use shellops::tags::Channel;

fn output(code: Option<i32>, stdout: &str, stderr: &str) -> Output {
    Output {
        code,
        stdout: stdout.to_string(),
        stderr: stderr.to_string(),
    }
}

#[test]
fn stable_is_latest_and_prerelease_is_not() {
    assert!(!flags_for(Channel::Stable).prerelease);
    assert!(flags_for(Channel::Stable).make_latest);
    assert!(flags_for(Channel::Rc).prerelease);
    assert!(!flags_for(Channel::Beta).make_latest);
    assert!(flags_for(Channel::Alpha).prerelease);
}

#[test]
fn signals_and_cap() {
    assert!(is_migration("migrations/Version1.php"));
    assert!(is_env_example("app/.env.example"));
    assert!(!diff_path_allowed("app/vendor/autoload.php"));
    assert!(diff_path_allowed("src/Kernel.php"));
    let capped = cap_text(&"a".repeat(20), 8);
    assert!(capped.contains("[diff truncated]"));
    assert!(capped.len() < 40);
}

#[test]
fn github_remote_parses_ssh_and_https() {
    assert_eq!(
        parse_github_remote("git@github.com:SherinBloemendaal/shellops-cli.git").unwrap(),
        ("SherinBloemendaal".to_string(), "shellops-cli".to_string())
    );
    assert_eq!(
        parse_github_remote("https://github.com/SherinBloemendaal/auth").unwrap(),
        ("SherinBloemendaal".to_string(), "auth".to_string())
    );
}

#[test]
fn other_remotes_are_no_github_repositories() {
    assert_eq!(
        parse_github_remote("ssh://git@github.com/a/b.git/"),
        Some(("a".to_string(), "b".to_string()))
    );
    for url in [
        "https://example.com/a/b",
        "https://github.com/a",
        "https://github.com//b",
        "https://github.com/a/b/c",
        "git@github.com:a/.git",
    ] {
        assert_eq!(parse_github_remote(url), None, "{url}");
    }
    let answer = output(Some(0), "git@github.com:a/b.git\n", "");
    assert_eq!(
        github_repo(&answer).unwrap(),
        ("a".to_string(), "b".to_string())
    );
    assert_eq!(
        github_repo(&output(Some(0), "x", "")).unwrap_err(),
        "origin is not a GitHub repository"
    );
    assert_eq!(
        github_repo(&output(Some(2), "", "none\n")).unwrap_err(),
        "git remote get-url origin failed: none"
    );
}

#[test]
fn long_texts_are_cut_between_characters() {
    assert_eq!(cap_text("abc", 3), "abc");
    assert_eq!(cap_text("abcd", 3), "abc\n\n[diff truncated]\n");
    assert_eq!(cap_text("aéb", 2), "a\n\n[diff truncated]\n");
    assert_eq!(cap_text("é", 1), "\n\n[diff truncated]\n");
    assert_eq!(cap_text("é", 2), "é");
}

#[test]
fn paths_are_sorted_into_three_sections() {
    let names = "src/A.php\nmigrations/V1.php\n\n app/.env.example \nCargo.lock\nx/dist/y\napp/migrations/V2.php\n";
    let paths = sort_paths(names);
    assert_eq!(paths.migrations, vec!["migrations/V1.php", "app/migrations/V2.php"]);
    assert_eq!(paths.examples, vec!["app/.env.example"]);
    assert_eq!(paths.others, vec!["src/A.php"]);
}

#[test]
fn the_prompt_shows_every_section() {
    let prompt = release_prompt(
        "abc fix",
        " 1 file",
        None,
        Some("A=1".to_string()),
        Some("+x".to_string()),
    );
    assert_eq!(
        prompt,
        "Write technical developer release notes in Markdown.\nInclude: a short summary, changes grouped by type, breaking changes, migrations, and env/config changes.\nUse only the evidence below. Do not invent changes.\n\n## git log\nabc fix\n\n## diff stat\n 1 file\n\n## migrations signal\nnone\n\n## env example signal\nA=1\n\n## filtered diff\n+x\n"
    );
    assert_eq!(prompt, build_prompt("abc fix", " 1 file", "+x", "none", "A=1"));
    let long = release_prompt(
        "",
        "",
        None,
        None,
        Some("x".repeat(DIFF_CAP + 1)),
    );
    assert!(long.ends_with("x\n\n[diff truncated]\n\n"));
}

#[test]
fn git_is_asked_about_the_range() {
    let range = range(Some("v1".to_string()), "v2");
    assert_eq!(range, "v1..v2");
    assert_eq!(shellops::notes::range(None, "v2"), "v2");
    assert_eq!(
        log_args(&range),
        vec!["log", "--no-merges", "--pretty=format:%h %s", "v1..v2"]
    );
    assert_eq!(stat_args(&range), vec!["diff", "--stat", "v1..v2"]);
    assert_eq!(name_args(&range), vec!["diff", "--name-only", "v1..v2"]);
    assert_eq!(section_args(&range, &[]), None);
    assert_eq!(
        section_args(&range, &["a".to_string()]).unwrap(),
        vec!["diff", "v1..v2", "--", "a"]
    );
    assert_eq!(section_diff(None), "none");
    assert_eq!(origin_args(), vec!["remote", "get-url", "origin"]);
}

#[test]
fn tokens_editors_and_choices() {
    assert_eq!(gh_token(&output(Some(0), " t\n", "")).unwrap(), "t");
    assert_eq!(
        gh_token(&output(Some(0), "\n", "")).unwrap_err(),
        "gh auth token returned an empty token"
    );
    assert_eq!(
        gh_token(&output(None, "t", "")).unwrap_err(),
        "set a github secret or run gh auth login"
    );
    assert_eq!(editor(None), "vi");
    assert_eq!(editor(Some("nano".to_string())), "nano");
    assert_eq!(
        offered(),
        vec!["Publish", "Edit in $EDITOR", "Regenerate", "Cancel"]
    );
    let all: Vec<Choice> = (0..5).map(chosen).collect();
    assert_eq!(
        all,
        vec![
            Choice::Publish,
            Choice::Edit,
            Choice::Regenerate,
            Choice::Cancel,
            Choice::Cancel
        ]
    );
}

#[test]
fn only_some_paths_are_noted() {
    for path in ["a/yarn.lock", "vendor/x", "a/node_modules/b", "dist/x", "target/x"] {
        assert!(!diff_path_allowed(path), "{path}");
    }
    assert!(diff_path_allowed("vendors/x"));
    assert!(is_migration("migrations"));
    assert!(!is_migration("old_migrations/x"));
    assert!(!is_env_example("app/.env.example.bak"));
}

#[test]
fn addresses_name_their_repository() {
    for host in [
        "git@github.com:",
        "https://github.com/",
        "ssh://git@github.com/",
    ] {
        for (owner, repo) in [("a", "b"), ("git@github.com:", "git"), ("x.git", ".gi"), ("é", "r.x")] {
            for end in ["", ".git", "/", ".git/"] {
                assert_eq!(
                    parse_github_remote(&format!("{host}{owner}/{repo}{end}")),
                    Some((owner.to_string(), repo.to_string()))
                );
            }
        }
    }
}
