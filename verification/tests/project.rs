use shellops::command::Output;
use shellops::project::{
    discover, file_name, git_root, home_dir, join_path, read_dotenv, shellops_home, version_value,
    ProjectError,
};
use shellops::vars::Vars;

fn output(code: Option<i32>, stdout: &str, stderr: &str) -> Output {
    Output {
        code,
        stdout: stdout.to_string(),
        stderr: stderr.to_string(),
    }
}

fn some(text: &str) -> Option<String> {
    Some(text.to_string())
}

#[test]
fn the_root_is_what_git_says() {
    assert_eq!(git_root(&output(Some(0), " /work\n", "")).unwrap(), "/work");
    let failed = git_root(&output(Some(128), "", " fatal: no \n")).unwrap_err();
    assert_eq!(failed, ProjectError::NoRepository("fatal: no".to_string()));
    assert_eq!(failed.message(), "not inside a git repository: fatal: no");
    let empty = git_root(&output(Some(0), "\n", "noise")).unwrap_err();
    assert_eq!(empty.message(), "not inside a git repository");
}

#[test]
fn the_environment_comes_from_the_process_first() {
    let dotenv = read_dotenv(vec![("APP_ENV".to_string(), "dev".to_string())]);
    let (project, export) = discover("/work", true, false, None, &dotenv).unwrap();
    assert_eq!(project.app_env, "dev");
    assert!(project.dev);
    assert_eq!(export.as_deref(), Some("dev"));
    let (project, export) = discover("/work", true, true, some("test"), &dotenv).unwrap();
    assert_eq!(project.app_env, "test");
    assert!(!project.dev);
    assert_eq!(export, None);
    let (project, export) = discover("/work", true, true, some(""), &Vars::new()).unwrap();
    assert_eq!(project.app_env, "prod");
    assert_eq!(export, None);
}

#[test]
fn a_project_needs_a_compose_file_and_a_home() {
    let error = discover("/work", false, false, None, &Vars::new()).unwrap_err();
    assert_eq!(error.message(), "/work has no compose.yml");
    assert_eq!(home_dir(some("/a"), some("/b")).unwrap(), "/a");
    assert_eq!(home_dir(None, some("/b")).unwrap(), "/b");
    assert_eq!(
        home_dir(None, None).unwrap_err().message(),
        "could not determine the home directory"
    );
    assert_eq!(shellops_home("/a"), "/a/.shellops");
}

#[test]
fn the_version_has_three_sources() {
    let dotenv = read_dotenv(vec![("VERSION".to_string(), "2".to_string())]);
    assert_eq!(version_value(some("1"), &dotenv, some("3\n")), "1");
    assert_eq!(version_value(some(""), &dotenv, some("3\n")), "2");
    assert_eq!(version_value(None, &Vars::new(), some(" 3\n")), "3");
    assert_eq!(version_value(None, &Vars::new(), some(" \n")), "latest");
    assert_eq!(version_value(None, &Vars::new(), None), "latest");
}

#[test]
fn later_entries_of_a_dotenv_file_count() {
    let dotenv = read_dotenv(vec![
        ("A".to_string(), "1".to_string()),
        ("A".to_string(), "2".to_string()),
    ]);
    assert_eq!(dotenv.get("A").as_deref(), Some("2"));
    assert_eq!(dotenv.get("B"), None);
}

#[test]
fn paths_are_joined_and_named() {
    assert_eq!(join_path("/a", "b"), "/a/b");
    assert_eq!(join_path("/a/", "b"), "/a/b");
    assert_eq!(join_path("", "b"), "b");
    assert_eq!(join_path("/a", "/b"), "/b");
    assert_eq!(file_name("a/b/").as_deref(), Some("b"));
    assert_eq!(file_name("a/.").as_deref(), Some("a"));
    assert_eq!(file_name("a/.."), None);
    assert_eq!(file_name("/"), None);
}
