use shellops::command::Output;
use shellops::php::{
    after_drop, composer_args, console_args, csf_args, exec_php, fixtures_args, force_drop_database,
    insert_www_data, installer, normalize_php_path, phan_args, phpmd_args, phpstan_args,
    phpunit_args, postgres_env, rector_args, reset_database, run_composer, run_console,
    run_fixtures, run_tool, symfony_env, yarn_args, Drop, InstallStep, PhpError,
};
use shellops::project::Project;

fn project(app_env: &str) -> Project {
    Project {
        root: "/work".to_string(),
        app_env: app_env.to_string(),
        dev: app_env == "dev",
    }
}

fn strings(list: &[&str]) -> Vec<String> {
    list.iter().map(|item| item.to_string()).collect()
}

#[test]
fn prod_console_runs_php_before_defines() {
    let args = console_args(false, &["debug:router".into()]);
    assert_eq!(
        args,
        vec![
            "compose",
            "exec",
            "-u",
            "www-data",
            "php",
            "php",
            "-d",
            "opcache.enable_cli=0",
            "-d",
            "memory_limit=8G",
            "bin/console",
            "debug:router",
        ]
    );
}

#[test]
fn dev_console_skips_www_data() {
    let args = console_args(true, &["list".into()]);
    assert!(!args.iter().any(|arg| arg == "-u"));
    let php_at: Vec<_> = args
        .iter()
        .enumerate()
        .filter(|(_, arg)| arg.as_str() == "php")
        .map(|(index, _)| index)
        .collect();
    assert!(php_at.len() >= 2);
    assert_eq!(args[php_at[1] + 1], "-d");
}

#[test]
fn composer_install_keeps_optimizer_flags() {
    let args = composer_args(&["install".into(), "--no-dev".into()]);
    assert!(args
        .windows(2)
        .any(|pair| pair == ["--optimize-autoloader", "--classmap-authoritative"]));
    assert!(args.iter().any(|arg| arg == "--profile"));
    assert_eq!(args.last().map(String::as_str), Some("--no-dev"));
}

#[test]
fn composer_update_does_not_add_install_flags() {
    let args = composer_args(&["update".into()]);
    assert!(!args.iter().any(|arg| arg == "--classmap-authoritative"));
}

#[test]
fn phan_collects_php_paths_into_an_include_list() {
    let run = phan_args(&["app/src/Kernel.php".into(), "./src/User.php".into()]).unwrap();
    assert!(run
        .args
        .iter()
        .any(|arg| arg == "--include-analysis-file-list"));
    assert_eq!(
        run.args.last().map(String::as_str),
        Some("src/Kernel.php,src/User.php")
    );
    let list = run.file_list.unwrap();
    assert!(list.contains("src/Kernel.php"));
}

#[test]
fn prod_console_argument_order() {
    let run = run_console(&project("prod"), &strings(&["debug:router"]));
    assert_eq!(run.program, "docker");
    assert_eq!(run.dir, "/work");
    assert_eq!(
        run.args,
        [
            "compose",
            "exec",
            "-u",
            "www-data",
            "php",
            "php",
            "-d",
            "opcache.enable_cli=0",
            "-d",
            "memory_limit=8G",
            "bin/console",
            "debug:router",
        ]
    );
}

#[test]
fn composer_install_keeps_flags() {
    let args = run_composer(&project("dev"), &strings(&["install"])).args;
    assert!(args
        .windows(2)
        .any(|pair| pair[0] == "--optimize-autoloader" && pair[1] == "--classmap-authoritative"));
    assert_eq!(args.last().map(String::as_str), Some("install"));
}

#[test]
fn phan_passes_on_what_selects_files() {
    let run = phan_args(&strings(&["-f", "list.txt", "src/A.php"])).unwrap();
    assert_eq!(run.file_list, None);
    assert_eq!(
        run.args[run.args.len() - 3..],
        strings(&["-f", "list.txt", "src/A.php"])
    );
    let mixed = phan_args(&strings(&["src/A.php", "README"])).unwrap();
    assert_eq!(mixed.file_list, None);
    assert_eq!(mixed.args.last().map(String::as_str), Some("README"));
}

#[test]
fn phan_options_need_their_arguments() {
    let error = phan_args(&strings(&["-k"])).unwrap_err();
    assert_eq!(error, PhpError::MissingArgument("-k".to_string()));
    assert_eq!(error.message(), "phan: missing argument for -k");
}

#[test]
fn container_paths_lose_the_app_directory() {
    assert_eq!(normalize_php_path("app/src/A.php"), "src/A.php");
    assert_eq!(normalize_php_path("./src/A.php"), "src/A.php");
    assert_eq!(normalize_php_path("src/A.php"), "src/A.php");
}

#[test]
fn tools_run_in_their_services() {
    assert_eq!(
        yarn_args(&strings(&["build"])),
        vec!["compose", "exec", "vue", "yarn", "build"]
    );
    assert_eq!(
        exec_php(&["a=1"], &strings(&["x"])),
        vec!["compose", "exec", "php", "php", "-d", "a=1", "x"]
    );
    assert!(csf_args().ends_with(&strings(&["fix"])));
    assert!(phpstan_args(&strings(&["src"])).ends_with(&strings(&["src"])));
    assert!(phpunit_args(&strings(&["--filter", "A"])).contains(&"pcov.enabled=1".to_string()));
    assert!(rector_args(&[]).ends_with(&strings(&["tools/rector/vendor/bin/rector"])));
    assert!(phpmd_args().contains(&"--baseline-file".to_string()));
    assert_eq!(run_tool(&project("dev"), &strings(&["ps"])).args, vec!["ps"]);
}

#[test]
fn fixtures_run_as_the_web_user_outside_development() {
    assert_eq!(symfony_env(&project("test")), "test");
    let dev = run_fixtures(&project("dev")).args;
    assert_eq!(dev, fixtures_args("dev"));
    assert!(!dev.contains(&"www-data".to_string()));
    let prod = run_fixtures(&project("prod")).args;
    assert_eq!(prod[..5], strings(&["compose", "exec", "-u", "www-data", "php"]));
    assert!(prod.ends_with(&strings(&[
        "d:f:l",
        "--env=prod",
        "--no-interaction",
        "--no-debug"
    ])));
    let mut none = strings(&["compose", "run"]);
    insert_www_data(&mut none);
    assert_eq!(none, vec!["compose", "run"]);
}

fn answer(code: Option<i32>, stdout: &str) -> Output {
    Output {
        code,
        stdout: stdout.to_string(),
        stderr: String::new(),
    }
}

#[test]
fn the_database_is_dropped_by_name() {
    assert_eq!(
        postgres_env(&project("dev")).args,
        vec!["compose", "exec", "postgres", "env"]
    );
    let env = answer(Some(0), "PATH=/bin\nPOSTGRES_DB= app \n");
    match force_drop_database(&project("dev"), &env).unwrap() {
        Drop::Run(run) => assert_eq!(
            run.args,
            vec!["compose", "exec", "postgres", "dropdb", "-f", "app"]
        ),
        Drop::Stop(_) => panic!("the database is known"),
    }
    for code in [0, 1, -1] {
        assert_eq!(after_drop(code), 0);
    }
    match force_drop_database(&project("test"), &env).unwrap() {
        Drop::Run(run) => assert_eq!(run.args.last().map(String::as_str), Some("app_1")),
        Drop::Stop(_) => panic!("the database is known"),
    }
    assert!(matches!(
        force_drop_database(&project("dev"), &answer(Some(5), "")),
        Ok(Drop::Stop(5))
    ));
    assert!(matches!(
        force_drop_database(&project("dev"), &answer(None, "")),
        Ok(Drop::Stop(1))
    ));
    let error = force_drop_database(&project("dev"), &answer(Some(0), "A=1\n")).unwrap_err();
    assert_eq!(error, PhpError::NoDatabase);
    assert_eq!(
        error.message(),
        "POSTGRES_DB is not set in the postgres service"
    );
}

#[test]
fn a_reset_drops_creates_migrates_and_loads() {
    let script = reset_database(&project("dev"));
    let commands: Vec<String> = script.iter().map(|run| run.args.join(" ")).collect();
    assert_eq!(commands.len(), 4);
    assert!(commands[0].ends_with("--env=dev d:d:d --force --if-exists --no-interaction"));
    assert!(commands[1].ends_with("--env=dev d:d:c --no-interaction"));
    assert!(commands[2].ends_with("--env=dev d:m:m --no-interaction"));
    assert!(commands[3].contains("d:f:l"));
}

#[test]
fn the_installer_ends_with_a_fresh_database() {
    let steps = installer(&project("dev"));
    assert_eq!(steps.len(), 8);
    assert!(matches!(&steps[0], InstallStep::Run(run) if run.args == ["compose", "kill"]));
    assert!(matches!(&steps[1], InstallStep::Run(run) if run.args == ["compose", "down"]));
    assert!(matches!(&steps[3], InstallStep::Run(run) if run.args == ["compose", "up", "-d"]));
    assert!(matches!(steps[4], InstallStep::Wait { seconds: 2 }));
    assert!(matches!(steps[5], InstallStep::ClearCache));
    assert!(
        matches!(&steps[6], InstallStep::Run(run) if run.args.ends_with(&strings(&["messenger:stop-workers"])))
    );
    assert!(matches!(steps[7], InstallStep::ResetDatabase));
}
