//! The command line: what a command asks for, and what it comes to.

use crate::command::Invocation;
use crate::compose::{compose, docker_in};
use crate::php::{
    composer_line, console_line, csf_args, fixtures_line, law_fixtures_run_on_the_console, no_cache,
    no_limit, php_line, phpmd_args, phpmd_command, phpstan_args, phpunit_args, phpunit_defines,
    rector_args, run_composer, run_console, run_fixtures, run_tool, yarn_args,
};
use crate::project::Project;
use crate::text::{glue, strip_suffix, view_opt, views, without_suffix};
use crate::ui::{hinted, Hinted};
use vstd::prelude::*;

verus! {

/// When colors are shown.
#[derive(Debug, Clone, Copy, PartialEq, Eq, Structural)]
pub enum ColorMode {
    Auto,
    Always,
    Never,
}

/// The command line.
#[derive(Debug, Clone)]
pub struct Cli {
    pub help: bool,
    pub color: ColorMode,
    pub command: Option<Command>,
}

/// A command.
#[derive(Debug, Clone)]
pub enum Command {
    /// Run docker compose.
    Compose(Passthrough),
    /// Build local images from *.Dockerfile files.
    Build,
    /// Clear caches in three phases.
    Cc,
    /// Run bin/console.
    Console(Passthrough),
    /// Run Composer.
    Composer(Passthrough),
    /// composer dump-autoload.
    Dump,
    /// PHP CS Fixer.
    Csf,
    /// PHPStan.
    Phpstan(Passthrough),
    /// Phan.
    Phan(Passthrough),
    /// PHPUnit.
    Phpunit(Passthrough),
    /// Rector.
    Rector(Passthrough),
    /// PHPMD.
    Phpmd,
    /// Load fixtures.
    Fixtures,
    /// Drop, migrate, and load fixtures.
    ResetDatabase,
    /// Force-drop the Postgres database.
    ForceDropDatabase,
    /// Install dependencies and rebuild the database.
    Installer,
    /// Yarn in the vue service.
    Yarn(Passthrough),
    /// Show the detected project.
    Debug,
    /// Sort a dotenv file in place.
    SortDotenv { path: String },
    /// Generate an OpenSSL key pair.
    Keypair { path: String, suffix: Option<String> },
    /// Print a random alphanumeric string.
    Randomstr { length: usize },
    /// Read and write settings.
    Config(ConfigArgs),
    /// Bump versions, tag, and push a release.
    Release,
    /// Download and install the latest release.
    Update,
    /// Open the GitHub repository.
    Github,
    /// Show help.
    Help(HelpArgs),
}

/// Arguments that go on as they are.
#[derive(Debug, Clone, PartialEq, Eq)]
pub struct Passthrough {
    pub args: Vec<String>,
}

/// The command that help is wanted on.
#[derive(Debug, Clone, PartialEq, Eq)]
pub struct HelpArgs {
    pub command: Option<String>,
}

#[derive(Debug, Clone, PartialEq, Eq)]
pub struct ConfigArgs {
    pub command: ConfigCommand,
}

/// What to do with the settings.
#[derive(Debug, Clone, PartialEq, Eq)]
pub enum ConfigCommand {
    /// Set a key.
    Put(SetArgs),
    /// Print a plain value.
    Get { key: String },
    /// List keys. Secrets are masked.
    List,
    /// Remove a key.
    Unset(UnsetArgs),
}

#[derive(Debug, Clone, PartialEq, Eq)]
pub struct SetArgs {
    pub key: String,
    pub value: Option<String>,
    pub secret: bool,
    pub stdin: bool,
    pub project: bool,
}

#[derive(Debug, Clone, PartialEq, Eq)]
pub struct UnsetArgs {
    pub key: String,
    pub project: bool,
}

/// What a command line asks for.
#[derive(Debug, Clone)]
pub enum Action {
    /// The page of help.
    Overview,
    /// The update, which looks for the newest version itself.
    Update,
    /// A command that needs no project.
    Alone(Command),
    /// A command that runs in a project.
    InProject(Command),
}

/// Whether a command runs in a project.
pub open spec fn needs_project(command: Command) -> bool {
    !(command is Github || command is Help || command is Update || command is Config
        || command is Release || command is SortDotenv || command is Keypair
        || command is Randomstr)
}

/// What a command line asks for.
pub open spec fn action_of(cli: Cli) -> Action {
    match cli.command {
        Some(command) if !cli.help => if command is Update {
            Action::Update
        } else if needs_project(command) {
            Action::InProject(command)
        } else {
            Action::Alone(command)
        },
        _ => Action::Overview,
    }
}

/// What a command line asks for.
pub fn dispatch(cli: Cli) -> (r: Action)
    ensures
        r == action_of(cli),
{
    match cli.command {
        Some(command) => {
            if cli.help {
                return Action::Overview;
            }
            match command {
                Command::Update => Action::Update,
                Command::Github
                | Command::Help(_)
                | Command::Config(_)
                | Command::Release
                | Command::SortDotenv { .. }
                | Command::Keypair { .. }
                | Command::Randomstr { .. } => Action::Alone(command),
                _ => Action::InProject(command),
            }
        },
        None => Action::Overview,
    }
}

/// Whether to look for a newer version first: everywhere but before the update.
pub fn notifies(action: &Action) -> (r: bool)
    ensures
        r == !(action is Update),
{
    match action {
        Action::Update => false,
        _ => true,
    }
}

/// What a command in a project comes to.
#[derive(Debug, Clone)]
pub enum Task {
    /// One run.
    Run(Invocation),
    /// One run, after the offer to build what is missing.
    Compose(Invocation),
    /// A run of Phan with the given arguments.
    Phan(Vec<String>),
    Build,
    ClearCache,
    ResetDatabase,
    ForceDropDatabase,
    Installer,
    Debug,
    /// Nothing: the command is none of a project.
    Nothing,
}

/// The docker arguments of a command that is one run.
pub open spec fn tool_line(project: Project, command: Command) -> Option<Seq<Seq<char>>> {
    match command {
        Command::Console(given) => Some(console_line(project.dev, views(given.args@))),
        Command::Composer(given) => Some(composer_line(views(given.args@))),
        Command::Dump => Some(composer_line(seq!["dump-autoload"@])),
        Command::Csf => Some(
            php_line(
                no_cache(),
                seq!["tools/php-cs-fixer/vendor/bin/php-cs-fixer"@, "fix"@],
            ),
        ),
        Command::Phpstan(given) => Some(
            php_line(
                no_limit(),
                seq![
                    "tools/phpstan/vendor/bin/phpstan"@,
                    "analyse"@,
                    "-c"@,
                    "./tools/phpstan/phpstan.neon"@,
                ] + views(given.args@),
            ),
        ),
        Command::Phpunit(given) => Some(
            php_line(
                phpunit_defines(),
                seq!["bin/phpunit"@, "--colors=always"@] + views(given.args@),
            ),
        ),
        Command::Rector(given) => Some(
            php_line(
                no_limit(),
                seq!["tools/rector/vendor/bin/rector"@] + views(given.args@),
            ),
        ),
        Command::Phpmd => Some(php_line(no_limit(), phpmd_command())),
        Command::Fixtures => Some(fixtures_line(project)),
        Command::Yarn(given) => Some(
            seq!["compose"@, "exec"@, "vue"@, "yarn"@] + views(given.args@),
        ),
        _ => None,
    }
}

/// Whether a task is what a command comes to.
pub open spec fn is_task_of(task: Task, project: Project, command: Command) -> bool {
    match tool_line(project, command) {
        Some(line) => task matches Task::Run(run) && run@ == docker_in(project, line),
        None => match command {
            Command::Compose(given) => {
                &&& task matches Task::Compose(run)
                &&& run@ == docker_in(project, seq!["compose"@] + views(given.args@))
            },
            Command::Phan(given) => task == Task::Phan(given.args),
            Command::Build => task is Build,
            Command::Cc => task is ClearCache,
            Command::ResetDatabase => task is ResetDatabase,
            Command::ForceDropDatabase => task is ForceDropDatabase,
            Command::Installer => task is Installer,
            Command::Debug => task is Debug,
            _ => task is Nothing,
        },
    }
}

/// What a command in a project comes to.
pub fn project_task(project: &Project, command: Command) -> (r: Task)
    ensures
        is_task_of(r, *project, command),
        needs_project(command) <==> !(r is Nothing),
{
    match command {
        Command::Compose(given) => Task::Compose(compose(project, given.args.as_slice())),
        Command::Build => Task::Build,
        Command::Cc => Task::ClearCache,
        Command::Console(given) => Task::Run(run_console(project, given.args.as_slice())),
        Command::Composer(given) => Task::Run(run_composer(project, given.args.as_slice())),
        Command::Dump => {
            let args = vec!["dump-autoload".to_string()];
            assert(views(args@) =~= seq!["dump-autoload"@]);
            Task::Run(run_composer(project, args.as_slice()))
        },
        Command::Csf => Task::Run(run_tool(project, csf_args().as_slice())),
        Command::Phpstan(given) => Task::Run(
            run_tool(project, phpstan_args(given.args.as_slice()).as_slice()),
        ),
        Command::Phan(given) => Task::Phan(given.args),
        Command::Phpunit(given) => Task::Run(
            run_tool(project, phpunit_args(given.args.as_slice()).as_slice()),
        ),
        Command::Rector(given) => Task::Run(
            run_tool(project, rector_args(given.args.as_slice()).as_slice()),
        ),
        Command::Phpmd => Task::Run(run_tool(project, phpmd_args().as_slice())),
        Command::Fixtures => Task::Run(run_fixtures(project)),
        Command::ResetDatabase => Task::ResetDatabase,
        Command::ForceDropDatabase => Task::ForceDropDatabase,
        Command::Installer => Task::Installer,
        Command::Yarn(given) => Task::Run(
            run_tool(project, yarn_args(given.args.as_slice()).as_slice()),
        ),
        Command::Debug => Task::Debug,
        Command::Config(_)
        | Command::Release
        | Command::Update
        | Command::Github
        | Command::Help(_)
        | Command::SortDotenv { .. }
        | Command::Keypair { .. }
        | Command::Randomstr { .. } => Task::Nothing,
    }
}

/// The error on a command that help does not know.
pub fn unknown_command(name: &str) -> (r: Hinted)
    ensures
        r.message@ == "unknown command: "@ + name@,
        r.hint@ == "Run so help to see every command."@,
{
    hinted(glue("unknown command: ", name).as_str(), "Run so help to see every command.")
}

// The value of a setting.

/// Why there is no value to set.
#[derive(Debug, Clone, Copy, PartialEq, Eq, Structural)]
pub enum ValueError {
    /// A value and standard input both.
    Both,
    /// Standard input held nothing.
    Empty,
    /// Neither a value nor standard input.
    Neither,
}

impl ValueError {
    pub open spec fn says(self) -> Seq<char> {
        match self {
            ValueError::Both => "pass a value or --stdin, not both"@,
            ValueError::Empty => "stdin was empty"@,
            ValueError::Neither => "a value or --stdin is required"@,
        }
    }

    pub fn message(self) -> (r: &'static str)
        ensures
            r@ == self.says(),
    {
        match self {
            ValueError::Both => "pass a value or --stdin, not both",
            ValueError::Empty => "stdin was empty",
            ValueError::Neither => "a value or --stdin is required",
        }
    }
}

/// A text without one line ending at its end.
pub open spec fn without_newline(text: Seq<char>) -> Seq<char> {
    match without_suffix(text, "\n"@) {
        None => text,
        Some(rest) => match without_suffix(rest, "\r"@) {
            None => rest,
            Some(rest) => rest,
        },
    }
}

/// The value in what standard input held: one line ending at its end is none of it.
pub fn stdin_value(text: String) -> (r: Result<String, ValueError>)
    ensures
        match r {
            Ok(value) => value@ == without_newline(text@) && value@.len() > 0,
            Err(error) => error == ValueError::Empty && without_newline(text@).len() == 0,
        },
{
    let value = match strip_suffix(text.as_str(), "\n") {
        None => text,
        Some(rest) => match strip_suffix(rest.as_str(), "\r") {
            None => rest,
            Some(rest) => rest,
        },
    };
    if value.as_str().is_empty() {
        Err(ValueError::Empty)
    } else {
        Ok(value)
    }
}

/// Where the value of a setting comes from.
#[derive(Debug, Clone, PartialEq, Eq)]
pub enum Source {
    Given(String),
    /// What standard input holds: see [`stdin_value`].
    Stdin,
}

/// Where the value to set comes from.
pub fn config_value(value: Option<String>, stdin: bool) -> (r: Result<Source, ValueError>)
    ensures
        match (value, stdin) {
            (Some(_), true) => r == Err::<Source, ValueError>(ValueError::Both),
            (None, true) => r == Ok::<Source, ValueError>(Source::Stdin),
            (Some(given), false) => r == Ok::<Source, ValueError>(Source::Given(given)),
            (None, false) => r == Err::<Source, ValueError>(ValueError::Neither),
        },
{
    match value {
        Some(given) => if stdin {
            Err(ValueError::Both)
        } else {
            Ok(Source::Given(given))
        },
        None => if stdin {
            Ok(Source::Stdin)
        } else {
            Err(ValueError::Neither)
        },
    }
}

// Settings.

/// Whose settings a command is about.
#[derive(Debug, Clone, Copy, PartialEq, Eq, Structural)]
pub enum Owner {
    /// Everybody's.
    Everyone,
    /// Those of the project, which has to be there.
    Project,
    /// Those of the project, where there is one.
    AnyProject,
}

/// Whose settings a command is about.
pub fn project_scope(command: &ConfigCommand) -> (r: Owner)
    ensures
        r == match *command {
            ConfigCommand::Put(args) => if args.project {
                Owner::Project
            } else {
                Owner::Everyone
            },
            ConfigCommand::Unset(args) => if args.project {
                Owner::Project
            } else {
                Owner::Everyone
            },
            ConfigCommand::Get { .. } | ConfigCommand::List => Owner::AnyProject,
        },
{
    let project = match command {
        ConfigCommand::Put(args) => args.project,
        ConfigCommand::Unset(args) => args.project,
        ConfigCommand::Get { .. } | ConfigCommand::List => {
            return Owner::AnyProject;
        },
    };
    if project {
        Owner::Project
    } else {
        Owner::Everyone
    }
}

/// The line after a setting was written.
pub fn config_message(command: &ConfigCommand) -> (r: Option<String>)
    ensures
        view_opt(r) == match *command {
            ConfigCommand::Put(args) => Some("set "@ + args.key@),
            ConfigCommand::Unset(args) => Some("unset "@ + args.key@),
            ConfigCommand::Get { .. } | ConfigCommand::List => None,
        },
{
    match command {
        ConfigCommand::Put(args) => Some(glue("set ", args.key.as_str())),
        ConfigCommand::Unset(args) => Some(glue("unset ", args.key.as_str())),
        ConfigCommand::Get { .. } | ConfigCommand::List => None,
    }
}

// Commands in writing.

/// Help is shown where it is asked for or nothing is; otherwise a command that is about a project
/// runs in one, and the others run alone. A newer version is looked for before all but the update.
pub proof fn law_commands_run_where_they_belong(cli: Cli, r: Action, shows: bool)
    requires
        call_ensures(dispatch, (cli,), r),
        call_ensures(notifies, (&r,), shows),
    ensures
        cli.help || cli.command is None ==> r is Overview,
        !cli.help ==> (cli.command matches Some(command) ==> {
            let alone = command is Github || command is Help || command is Config
                || command is Release || command is SortDotenv || command is Keypair
                || command is Randomstr;
            &&& command is Update <==> r is Update
            &&& alone ==> r == Action::Alone(command)
            &&& !alone && !(command is Update) ==> r == Action::InProject(command)
        }),
        shows <==> !(r is Update),
{
}

/// Each command of a project comes to what its name says: the tools to a run of docker with the
/// arguments that the tool has, the others to tasks of their own.
pub proof fn law_commands_come_to_their_tools(project: &Project, command: Command, r: Task)
    requires
        call_ensures(project_task, (project, command), r),
    ensures
        command matches Command::Compose(given) ==> (r matches Task::Compose(run) && run.program@
            == "docker"@ && run.dir@ == project.root@ && run@.args == seq!["compose"@] + views(
            given.args@,
        )),
        command matches Command::Console(given) ==> (r matches Task::Run(run) && run@.args
            == console_line(project.dev, views(given.args@))),
        command matches Command::Composer(given) ==> (r matches Task::Run(run) && run@.args
            == composer_line(views(given.args@))),
        command is Dump ==> (r matches Task::Run(run) && run@.args.last() == "dump-autoload"@
            && run@.args.contains("/usr/local/bin/composer"@)),
        command is Csf ==> (r matches Task::Run(run) && run@.args.contains(
            "tools/php-cs-fixer/vendor/bin/php-cs-fixer"@,
        ) && run@.args.last() == "fix"@),
        command is Phpstan ==> (r matches Task::Run(run) && run@.args.contains(
            "tools/phpstan/vendor/bin/phpstan"@,
        )),
        command is Phpunit ==> (r matches Task::Run(run) && run@.args.contains("bin/phpunit"@)),
        command is Rector ==> (r matches Task::Run(run) && run@.args.contains(
            "tools/rector/vendor/bin/rector"@,
        )),
        command is Phpmd ==> (r matches Task::Run(run) && run@.args.contains(
            "tools/phpmd/vendor/bin/phpmd"@,
        )),
        command is Fixtures ==> (r matches Task::Run(run) && run@.args.contains("d:f:l"@)
            && run@.args.contains("--env="@ + project.app_env@)),
        command matches Command::Yarn(given) ==> (r matches Task::Run(run) && run@.args == seq![
            "compose"@,
            "exec"@,
            "vue"@,
            "yarn"@,
        ] + views(given.args@)),
        command matches Command::Phan(given) ==> r == Task::Phan(given.args),
        command is Build ==> r is Build,
        command is Cc ==> r is ClearCache,
        command is ResetDatabase ==> r is ResetDatabase,
        command is ForceDropDatabase ==> r is ForceDropDatabase,
        command is Installer ==> r is Installer,
        command is Debug ==> r is Debug,
        r matches Task::Run(run) ==> run.program@ == "docker"@ && run.dir@ == project.root@,
{
    if command is Dump {
        let line = composer_line(seq!["dump-autoload"@]);
        assert(line[7] == "/usr/local/bin/composer"@);
        assert(line.last() == "dump-autoload"@);
    }
    match tool_line(*project, command) {
        Some(line) => {
            if command is Csf {
                let tail = seq!["tools/php-cs-fixer/vendor/bin/php-cs-fixer"@, "fix"@];
                lemma_php_command(no_cache(), tail, 0);
                lemma_php_command(no_cache(), tail, 1);
            }
            if let Command::Phpstan(given) = command {
                lemma_php_command(
                    no_limit(),
                    seq![
                        "tools/phpstan/vendor/bin/phpstan"@,
                        "analyse"@,
                        "-c"@,
                        "./tools/phpstan/phpstan.neon"@,
                    ] + views(given.args@),
                    0,
                );
            }
            if let Command::Phpunit(given) = command {
                lemma_php_command(
                    phpunit_defines(),
                    seq!["bin/phpunit"@, "--colors=always"@] + views(given.args@),
                    0,
                );
            }
            if let Command::Rector(given) = command {
                lemma_php_command(
                    no_limit(),
                    seq!["tools/rector/vendor/bin/rector"@] + views(given.args@),
                    0,
                );
            }
            if command is Phpmd {
                lemma_php_command(no_limit(), phpmd_command(), 0);
            }
            if command is Fixtures {
                law_fixtures_run_on_the_console(*project);
                let n: int = if project.dev {
                    9
                } else {
                    11
                };
                assert(line[n] == "d:f:l"@);
                assert(line[n + 1] == "--env="@ + project.app_env@);
            }
        },
        None => {},
    }
}

proof fn lemma_php_command(defines: Seq<Seq<char>>, command: Seq<Seq<char>>, i: int)
    requires
        0 <= i < command.len(),
    ensures
        php_line(defines, command).contains(command[i]),
        php_line(defines, command).last() == command.last(),
{
    let line = php_line(defines, command);
    let n = line.len() - command.len();
    assert(line[n + i] == command[i]);
    assert(line[n + command.len() - 1] == command[command.len() - 1]);
}

/// The value of a setting is what was given, or standard input where that is asked for; not both,
/// and not neither. Of standard input one line ending is left out, and an empty value is refused.
pub proof fn law_values_are_given_once(
    value: Option<String>,
    stdin: bool,
    r: Result<Source, ValueError>,
    text: String,
    read: Result<String, ValueError>,
    line: Seq<char>,
)
    requires
        call_ensures(config_value, (value, stdin), r),
        call_ensures(stdin_value, (text,), read),
    ensures
        value is Some && stdin ==> (r matches Err(error) && error.says()
            == "pass a value or --stdin, not both"@),
        value is None && !stdin ==> (r matches Err(error) && error.says()
            == "a value or --stdin is required"@),
        value is None && stdin ==> r == Ok::<Source, ValueError>(Source::Stdin),
        !stdin ==> (value matches Some(given) ==> r == Ok::<Source, ValueError>(
            Source::Given(given),
        )),
        text@ == line + "\n"@ && line.len() > 0 && line.last() != '\r' ==> (read matches Ok(kept)
            && kept@ == line),
        text@ == line + "\r\n"@ && line.len() > 0 ==> (read matches Ok(kept) && kept@ == line),
        text@ == line && line.len() > 0 && line.last() != '\n' ==> (read matches Ok(kept) && kept@
            == line),
        text@.len() == 0 ==> (read matches Err(error) && error.says() == "stdin was empty"@),
{
    reveal_strlit("\n");
    reveal_strlit("\r");
    reveal_strlit("\r\n");
    assert("\n"@.len() == 1 && "\r"@.len() == 1 && "\r\n"@.len() == 2);
    assert("\n"@ =~= seq!['\n']);
    assert("\r"@ =~= seq!['\r']);
    assert(seq!['\n'][0] == '\n' && seq!['\r'][0] == '\r');
    if text@ == line + "\n"@ {
        assert(text@.skip(text@.len() - 1) =~= "\n"@);
        assert(text@.take(text@.len() - 1) =~= line);
        if line.len() > 0 && line.last() != '\r' {
            assert(line.skip(line.len() - 1)[0] == line.last());
        }
    }
    if text@ == line + "\r\n"@ {
        let first = line + seq!['\r'];
        assert(text@.skip(text@.len() - 1) =~= "\n"@);
        assert(text@.take(text@.len() - 1) =~= first);
        assert(first.skip(first.len() - 1) =~= "\r"@);
        assert(first.take(first.len() - 1) =~= line);
    }
    if text@ == line && line.len() > 0 && line.last() != '\n' {
        assert(line.skip(line.len() - 1)[0] == line.last());
    }
}

/// Settings are written for everyone unless the project is asked for, and read with those of the
/// project where there is one; a line tells what was written.
pub proof fn law_settings_are_for_everyone_unless_asked(
    command: &ConfigCommand,
    owner: Owner,
    message: Option<String>,
)
    requires
        call_ensures(project_scope, (command,), owner),
        call_ensures(config_message, (command,), message),
    ensures
        *command matches ConfigCommand::Put(args) ==> {
            &&& owner == if args.project {
                Owner::Project
            } else {
                Owner::Everyone
            }
            &&& message matches Some(text) && text@ == "set "@ + args.key@
        },
        *command matches ConfigCommand::Unset(args) ==> {
            &&& owner == if args.project {
                Owner::Project
            } else {
                Owner::Everyone
            }
            &&& message matches Some(text) && text@ == "unset "@ + args.key@
        },
        *command is Get || *command is List ==> owner == Owner::AnyProject && message is None,
{
}

/// What the user gave goes to the tool, all of it and in order.
pub proof fn law_tools_get_what_was_given(
    project: &Project,
    given: Passthrough,
    words: &[String],
    stan: Task,
    unit: Task,
    rector: Task,
    stan_list: Vec<String>,
    unit_list: Vec<String>,
    rector_list: Vec<String>,
)
    requires
        views(words@) == views(given.args@),
        call_ensures(project_task, (project, Command::Phpstan(given)), stan),
        call_ensures(project_task, (project, Command::Phpunit(given)), unit),
        call_ensures(project_task, (project, Command::Rector(given)), rector),
        call_ensures(phpstan_args, (words,), stan_list),
        call_ensures(phpunit_args, (words,), unit_list),
        call_ensures(rector_args, (words,), rector_list),
    ensures
        stan matches Task::Run(run) && run@.args == views(stan_list@),
        unit matches Task::Run(run) && run@.args == views(unit_list@),
        rector matches Task::Run(run) && run@.args == views(rector_list@),
{
}

/// The tools that take no arguments run as they are.
pub proof fn law_fixed_tools_run_as_they_are(
    project: &Project,
    csf: Task,
    phpmd: Task,
    csf_list: Vec<String>,
    phpmd_list: Vec<String>,
    name: &str,
    unknown: Hinted,
)
    requires
        call_ensures(project_task, (project, Command::Csf), csf),
        call_ensures(project_task, (project, Command::Phpmd), phpmd),
        call_ensures(csf_args, (), csf_list),
        call_ensures(phpmd_args, (), phpmd_list),
        call_ensures(unknown_command, (name,), unknown),
    ensures
        csf matches Task::Run(run) && run@.args == views(csf_list@),
        phpmd matches Task::Run(run) && run@.args == views(phpmd_list@),
        unknown.message@ == "unknown command: "@ + name@,
        unknown.hint@ == "Run so help to see every command."@,
{
}

/// Errors say how a value is given.
pub proof fn law_value_errors_say_how_values_are_given(error: ValueError, r: &'static str)
    requires
        call_ensures(ValueError::message, (error,), r),
    ensures
        error is Both ==> r@ == "pass a value or --stdin, not both"@,
        error is Empty ==> r@ == "stdin was empty"@,
        error is Neither ==> r@ == "a value or --stdin is required"@,
{
}

} // verus!
