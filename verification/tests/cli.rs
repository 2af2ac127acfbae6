use shellops::cli::{
    config_message, config_value, dispatch, notifies, project_scope, project_task, stdin_value,
    unknown_command, Action, Cli, ColorMode, Command, ConfigCommand, HelpArgs, Owner, Passthrough,
    SetArgs, Source, Task, UnsetArgs, ValueError,
};
use shellops::project::Project;

fn line(help: bool, command: Option<Command>) -> Cli {
    Cli {
        help,
        color: ColorMode::Auto,
        command,
    }
}

fn project() -> Project {
    Project {
        root: "/work".to_string(),
        app_env: "dev".to_string(),
        dev: true,
    }
}

fn given(args: &[&str]) -> Passthrough {
    Passthrough {
        args: args.iter().map(|arg| arg.to_string()).collect(),
    }
}

#[test]
fn commands_are_sorted_by_what_they_need() {
    assert!(matches!(dispatch(line(false, None)), Action::Overview));
    assert!(matches!(
        dispatch(line(true, Some(Command::Build))),
        Action::Overview
    ));
    assert!(matches!(
        dispatch(line(false, Some(Command::Update))),
        Action::Update
    ));
    assert!(matches!(
        dispatch(line(false, Some(Command::Github))),
        Action::Alone(Command::Github)
    ));
    assert!(matches!(
        dispatch(line(false, Some(Command::Debug))),
        Action::InProject(Command::Debug)
    ));
    assert!(!notifies(&Action::Update));
    assert!(notifies(&Action::Overview));
}

fn run_of(command: Command) -> String {
    match project_task(&project(), command) {
        Task::Run(run) | Task::Compose(run) => run.args.join(" "),
        other => panic!("{other:?}"),
    }
}

#[test]
fn commands_come_to_one_run() {
    assert_eq!(run_of(Command::Compose(given(&["up", "-d"]))), "compose up -d");
    assert!(run_of(Command::Dump).ends_with("composer --profile dump-autoload"));
    assert!(run_of(Command::Console(given(&["list"]))).ends_with("bin/console list"));
    assert!(run_of(Command::Composer(given(&["i"])))
        .ends_with("--optimize-autoloader --classmap-authoritative i"));
    assert!(run_of(Command::Csf).ends_with("php-cs-fixer fix"));
    assert!(run_of(Command::Phpstan(given(&["src"]))).ends_with("phpstan.neon src"));
    assert!(run_of(Command::Phpunit(given(&["a"]))).ends_with("--colors=always a"));
    assert!(run_of(Command::Rector(given(&[]))).ends_with("rector"));
    assert!(run_of(Command::Phpmd).ends_with("phpmd.baseline.xml"));
    assert!(run_of(Command::Fixtures).ends_with("--no-interaction --no-debug"));
    assert_eq!(
        run_of(Command::Yarn(given(&["dev"]))),
        "compose exec vue yarn dev"
    );
}

#[test]
fn other_commands_are_tasks_of_their_own() {
    let task = |command| project_task(&project(), command);
    assert!(matches!(task(Command::Build), Task::Build));
    assert!(matches!(task(Command::Cc), Task::ClearCache));
    assert!(matches!(task(Command::Phan(given(&["-x"]))), Task::Phan(args) if args == ["-x"]));
    assert!(matches!(task(Command::ResetDatabase), Task::ResetDatabase));
    assert!(matches!(
        task(Command::ForceDropDatabase),
        Task::ForceDropDatabase
    ));
    assert!(matches!(task(Command::Installer), Task::Installer));
    assert!(matches!(task(Command::Debug), Task::Debug));
    let help = Command::Help(HelpArgs { command: None });
    assert!(matches!(task(help), Task::Nothing));
}

#[test]
fn unknown_commands_are_hinted_at() {
    assert_eq!(
        unknown_command("x").text(),
        "unknown command: x. Run so help to see every command."
    );
}

#[test]
fn values_are_given_or_read() {
    assert_eq!(
        config_value(Some("x".to_string()), false),
        Ok(Source::Given("x".to_string()))
    );
    assert_eq!(config_value(None, true), Ok(Source::Stdin));
    let both = config_value(Some("x".to_string()), true).unwrap_err();
    assert_eq!(both, ValueError::Both);
    assert_eq!(both.message(), "pass a value or --stdin, not both");
    let neither = config_value(None, false).unwrap_err();
    assert_eq!(neither, ValueError::Neither);
    assert_eq!(neither.message(), "a value or --stdin is required");
    assert_eq!(stdin_value("x\r\n".to_string()), Ok("x".to_string()));
    assert_eq!(stdin_value("x\n\n".to_string()), Ok("x\n".to_string()));
    assert_eq!(stdin_value("x\r".to_string()), Ok("x\r".to_string()));
    let empty = stdin_value("\n".to_string()).unwrap_err();
    assert_eq!(empty, ValueError::Empty);
    assert_eq!(empty.message(), "stdin was empty");
}

#[test]
fn settings_belong_to_everyone_or_to_a_project() {
    let put = |project| {
        ConfigCommand::Put(SetArgs {
            key: "a".to_string(),
            value: None,
            secret: false,
            stdin: false,
            project,
        })
    };
    let unset = ConfigCommand::Unset(UnsetArgs {
        key: "a".to_string(),
        project: true,
    });
    let get = ConfigCommand::Get {
        key: "a".to_string(),
    };
    assert_eq!(project_scope(&put(false)), Owner::Everyone);
    assert_eq!(project_scope(&put(true)), Owner::Project);
    assert_eq!(project_scope(&unset), Owner::Project);
    assert_eq!(project_scope(&get), Owner::AnyProject);
    assert_eq!(project_scope(&ConfigCommand::List), Owner::AnyProject);
    assert_eq!(config_message(&put(false)).as_deref(), Some("set a"));
    assert_eq!(config_message(&unset).as_deref(), Some("unset a"));
    assert_eq!(config_message(&get), None);
}
