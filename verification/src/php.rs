//! Commands that run PHP tools in the services of a project.

use crate::command::{exit_code, reported, Invocation, InvocationView, Output};
use crate::compose::{docker_in, run_status};
use crate::project::Project;
use crate::text::{
    ends_with, extend, first_some, glue, has_prefix, has_suffix, join, joined, lemma_first_some,
    lines, lines_of, same, starts_with, strip_prefix, trim, trimmed, view_opt, views,
    without_prefix,
};
use vstd::prelude::*;

verus! {

/// Why a PHP command cannot be made.
#[derive(Debug, Clone, PartialEq, Eq)]
pub enum PhpError {
    /// Phan's last option lacks its argument.
    MissingArgument(String),
    /// The environment of the postgres service has no `POSTGRES_DB`.
    NoDatabase,
}

impl PhpError {
    /// What the error says.
    pub open spec fn says(self) -> Seq<char> {
        match self {
            PhpError::MissingArgument(option) => "phan: missing argument for "@ + option@,
            PhpError::NoDatabase => "POSTGRES_DB is not set in the postgres service"@,
        }
    }

    /// What the error says.
    pub fn message(&self) -> (r: String)
        ensures
            r@ == self.says(),
    {
        match self {
            PhpError::MissingArgument(option) => glue("phan: missing argument for ", option.as_str()),
            PhpError::NoDatabase => "POSTGRES_DB is not set in the postgres service".to_string(),
        }
    }
}

/// The arguments that make a service run as the web server's user.
pub open spec fn as_www_data() -> Seq<Seq<char>> {
    seq!["-u"@, "www-data"@]
}

/// The docker arguments that run the Symfony console.
pub open spec fn console_line(dev: bool, user: Seq<Seq<char>>) -> Seq<Seq<char>> {
    seq!["compose"@, "exec"@] + (if dev {
        seq![]
    } else {
        as_www_data()
    }) + seq![
        "php"@,
        "php"@,
        "-d"@,
        "opcache.enable_cli=0"@,
        "-d"@,
        "memory_limit=8G"@,
        "bin/console"@,
    ] + user
}

/// The docker arguments that run the Symfony console.
pub fn console_args(dev: bool, user: &[String]) -> (r: Vec<String>)
    ensures
        views(r@) == console_line(dev, views(user@)),
{
    let mut args = vec!["compose".to_string(), "exec".to_string()];
    if !dev {
        args.push("-u".to_string());
        args.push("www-data".to_string());
    }
    args.push("php".to_string());
    args.push("php".to_string());
    args.push("-d".to_string());
    args.push("opcache.enable_cli=0".to_string());
    args.push("-d".to_string());
    args.push("memory_limit=8G".to_string());
    args.push("bin/console".to_string());
    assert(views(args@) + views(user@) =~= console_line(dev, views(user@)));
    extend(&mut args, user);
    args
}

/// The docker arguments that run Composer.
pub open spec fn composer_line(user: Seq<Seq<char>>) -> Seq<Seq<char>> {
    seq![
        "compose"@,
        "run"@,
        "--rm"@,
        "php"@,
        "php"@,
        "-d"@,
        "opcache.enable_cli=0"@,
        "/usr/local/bin/composer"@,
        "--profile"@,
    ] + (if user.len() > 0 && (user[0] == "install"@ || user[0] == "i"@) {
        seq!["--optimize-autoloader"@, "--classmap-authoritative"@]
    } else {
        seq![]
    }) + user
}

/// The docker arguments that run Composer; an install gets the optimizer's flags.
pub fn composer_args(user: &[String]) -> (r: Vec<String>)
    ensures
        views(r@) == composer_line(views(user@)),
{
    let mut args = vec![
        "compose".to_string(),
        "run".to_string(),
        "--rm".to_string(),
        "php".to_string(),
        "php".to_string(),
        "-d".to_string(),
        "opcache.enable_cli=0".to_string(),
        "/usr/local/bin/composer".to_string(),
        "--profile".to_string(),
    ];
    if user.len() > 0 && (same(user[0].as_str(), "install") || same(user[0].as_str(), "i")) {
        args.push("--optimize-autoloader".to_string());
        args.push("--classmap-authoritative".to_string());
    }
    assert(views(args@) + views(user@) =~= composer_line(views(user@)));
    extend(&mut args, user);
    args
}

/// The views of a list of string slices.
pub open spec fn str_views(list: Seq<&str>) -> Seq<Seq<char>> {
    list.map_values(|s: &str| s@)
}

/// Each definition behind its flag.
pub open spec fn define_flags(defines: Seq<Seq<char>>) -> Seq<Seq<char>>
    decreases defines.len(),
{
    if defines.len() == 0 {
        seq![]
    } else {
        define_flags(defines.drop_last()) + seq!["-d"@, defines.last()]
    }
}

/// The docker arguments that run a PHP script.
pub open spec fn php_line(
    defines: Seq<Seq<char>>,
    command: Seq<Seq<char>>,
) -> Seq<Seq<char>> {
    seq!["compose"@, "exec"@, "php"@, "php"@] + define_flags(defines) + command
}

/// The docker arguments that run a PHP script with the given definitions.
pub fn exec_php(defines: &[&str], command: &[String]) -> (r: Vec<String>)
    ensures
        views(r@) == php_line(str_views(defines@), views(command@)),
{
    let mut args = vec![
        "compose".to_string(),
        "exec".to_string(),
        "php".to_string(),
        "php".to_string(),
    ];
    let ghost head = seq!["compose"@, "exec"@, "php"@, "php"@];
    let n: usize = defines.len();
    assert(views(args@) =~= head);
    assert(head + define_flags(str_views(defines@.take(0))) =~= head);
    for i in 0..n
        invariant
            n == defines@.len(),
            head == seq!["compose"@, "exec"@, "php"@, "php"@],
            views(args@) == head + define_flags(str_views(defines@.take(i as int))),
    {
        let ghost before = views(args@);
        args.push("-d".to_string());
        args.push(defines[i].to_string());
        proof {
            let now = str_views(defines@.take(i + 1));
            assert(now.drop_last() =~= str_views(defines@.take(i as int)));
            assert(now.last() == defines@[i as int]@);
            assert(views(args@) =~= before + seq!["-d"@, defines@[i as int]@]);
            assert(views(args@) =~= head + define_flags(now));
        }
    }
    assert(defines@.take(n as int) =~= defines@);
    extend(&mut args, command);
    args
}

/// The docker arguments that run Yarn.
pub fn yarn_args(user: &[String]) -> (r: Vec<String>)
    ensures
        views(r@) == seq!["compose"@, "exec"@, "vue"@, "yarn"@] + views(user@),
{
    let mut args = vec![
        "compose".to_string(),
        "exec".to_string(),
        "vue".to_string(),
        "yarn".to_string(),
    ];
    assert(views(args@) =~= seq!["compose"@, "exec"@, "vue"@, "yarn"@]);
    extend(&mut args, user);
    args
}

/// The definitions of the tools that only turn the opcode cache off.
pub open spec fn no_cache() -> Seq<Seq<char>> {
    seq!["opcache.enable_cli=0"@]
}

/// The definitions of the tools that take any amount of memory.
pub open spec fn no_limit() -> Seq<Seq<char>> {
    seq!["opcache.enable_cli=0"@, "memory_limit=-1"@]
}

fn unlimited(command: &[String]) -> (r: Vec<String>)
    ensures
        views(r@) == php_line(no_limit(), views(command@)),
{
    let defines = ["opcache.enable_cli=0", "memory_limit=-1"];
    let r = exec_php(defines.as_slice(), command);
    assert(str_views(defines@) =~= no_limit());
    r
}

/// The docker arguments that run PHP CS Fixer.
pub fn csf_args() -> (r: Vec<String>)
    ensures
        views(r@) == php_line(
            no_cache(),
            seq!["tools/php-cs-fixer/vendor/bin/php-cs-fixer"@, "fix"@],
        ),
{
    let command = vec![
        "tools/php-cs-fixer/vendor/bin/php-cs-fixer".to_string(),
        "fix".to_string(),
    ];
    let defines = ["opcache.enable_cli=0"];
    let r = exec_php(defines.as_slice(), command.as_slice());
    assert(str_views(defines@) =~= no_cache());
    assert(views(command@) =~= seq!["tools/php-cs-fixer/vendor/bin/php-cs-fixer"@, "fix"@]);
    r
}

/// The docker arguments that run PHPStan.
pub fn phpstan_args(user: &[String]) -> (r: Vec<String>)
    ensures
        views(r@) == php_line(
            no_limit(),
            seq![
                "tools/phpstan/vendor/bin/phpstan"@,
                "analyse"@,
                "-c"@,
                "./tools/phpstan/phpstan.neon"@,
            ] + views(user@),
        ),
{
    let mut command = vec![
        "tools/phpstan/vendor/bin/phpstan".to_string(),
        "analyse".to_string(),
        "-c".to_string(),
        "./tools/phpstan/phpstan.neon".to_string(),
    ];
    assert(views(command@) =~= seq![
        "tools/phpstan/vendor/bin/phpstan"@,
        "analyse"@,
        "-c"@,
        "./tools/phpstan/phpstan.neon"@,
    ]);
    extend(&mut command, user);
    unlimited(command.as_slice())
}

/// The definitions that PHPUnit runs with.
pub open spec fn phpunit_defines() -> Seq<Seq<char>> {
    seq![
        "opcache.enable_cli=0"@,
        "memory_limit=-1"@,
        "pcov.enabled=1"@,
        "xdebug.mode=debug,develop,trace"@,
        "xdebug.client_port=9003"@,
        "xdebug.client_host=172.17.0.1"@,
    ]
}

/// The docker arguments that run PHPUnit.
pub fn phpunit_args(user: &[String]) -> (r: Vec<String>)
    ensures
        views(r@) == php_line(
            phpunit_defines(),
            seq!["bin/phpunit"@, "--colors=always"@] + views(user@),
        ),
{
    let mut command = vec!["bin/phpunit".to_string(), "--colors=always".to_string()];
    assert(views(command@) =~= seq!["bin/phpunit"@, "--colors=always"@]);
    extend(&mut command, user);
    let defines = [
        "opcache.enable_cli=0",
        "memory_limit=-1",
        "pcov.enabled=1",
        "xdebug.mode=debug,develop,trace",
        "xdebug.client_port=9003",
        "xdebug.client_host=172.17.0.1",
    ];
    let r = exec_php(defines.as_slice(), command.as_slice());
    assert(str_views(defines@) =~= phpunit_defines());
    r
}

/// The docker arguments that run Rector.
pub fn rector_args(user: &[String]) -> (r: Vec<String>)
    ensures
        views(r@) == php_line(no_limit(), seq!["tools/rector/vendor/bin/rector"@] + views(user@)),
{
    let mut command = vec!["tools/rector/vendor/bin/rector".to_string()];
    assert(views(command@) =~= seq!["tools/rector/vendor/bin/rector"@]);
    extend(&mut command, user);
    unlimited(command.as_slice())
}

/// The command line of PHPMD.
pub open spec fn phpmd_command() -> Seq<Seq<char>> {
    seq![
        "tools/phpmd/vendor/bin/phpmd"@,
        "src/"@,
        "text"@,
        "cleancode,codesize,controversial,design,naming,unusedcode"@,
        "--exclude"@,
        "tests/*,vendor/*,src/enum/*"@,
        "--baseline-file"@,
        "phpmd.baseline.xml"@,
    ]
}

/// The docker arguments that run PHPMD.
pub fn phpmd_args() -> (r: Vec<String>)
    ensures
        views(r@) == php_line(no_limit(), phpmd_command()),
{
    let command = vec![
        "tools/phpmd/vendor/bin/phpmd".to_string(),
        "src/".to_string(),
        "text".to_string(),
        "cleancode,codesize,controversial,design,naming,unusedcode".to_string(),
        "--exclude".to_string(),
        "tests/*,vendor/*,src/enum/*".to_string(),
        "--baseline-file".to_string(),
        "phpmd.baseline.xml".to_string(),
    ];
    assert(views(command@) =~= phpmd_command());
    unlimited(command.as_slice())
}

// Phan.

/// An option that selects the files to analyse.
pub open spec fn selects_files(arg: Seq<char>) -> bool {
    ||| arg == "-r"@
    ||| arg == "--file-list-only"@
    ||| arg == "-I"@
    ||| arg == "--include-analysis-file-list"@
    ||| arg == "-f"@
    ||| arg == "--file-list"@
}

/// An option that the next argument belongs to.
pub open spec fn takes_value(arg: Seq<char>) -> bool {
    ||| arg == "-k"@
    ||| arg == "-f"@
    ||| arg == "-l"@
    ||| arg == "-3"@
    ||| arg == "-I"@
    ||| arg == "-d"@
    ||| arg == "-r"@
    ||| arg == "-o"@
    ||| arg == "-m"@
    ||| arg == "-B"@
    ||| arg == "--config-file"@
    ||| arg == "--file-list"@
    ||| arg == "--directory"@
    ||| arg == "--exclude-directory-list"@
    ||| arg == "--include-analysis-file-list"@
    ||| arg == "--project-root-directory"@
    ||| arg == "--file-list-only"@
    ||| arg == "--output"@
    ||| arg == "--output-mode"@
    ||| arg == "--load-baseline"@
    ||| arg == "--save-baseline"@
    ||| arg == "--processes"@
    ||| arg == "--daemonize-tcp-host"@
    ||| arg == "--daemonize-tcp-port"@
    ||| arg == "--init-level"@
    ||| arg == "--init-analyze-dir"@
    ||| arg == "--init-analyze-file"@
}

/// Whether an option selects the files to analyse.
pub fn explicit_file_selection(arg: &str) -> (r: bool)
    ensures
        r == selects_files(arg@),
{
    same(arg, "-r") || same(arg, "--file-list-only") || same(arg, "-I") || same(
        arg,
        "--include-analysis-file-list",
    ) || same(arg, "-f") || same(arg, "--file-list")
}

/// Whether the next argument belongs to an option.
pub fn option_takes_value(arg: &str) -> (r: bool)
    ensures
        r == takes_value(arg@),
{
    same(arg, "-k") || same(arg, "-f") || same(arg, "-l") || same(arg, "-3") || same(arg, "-I")
        || same(arg, "-d") || same(arg, "-r") || same(arg, "-o") || same(arg, "-m") || same(
        arg,
        "-B",
    ) || same(arg, "--config-file") || same(arg, "--file-list") || same(arg, "--directory")
        || same(arg, "--exclude-directory-list") || same(arg, "--include-analysis-file-list")
        || same(arg, "--project-root-directory") || same(arg, "--file-list-only") || same(
        arg,
        "--output",
    ) || same(arg, "--output-mode") || same(arg, "--load-baseline") || same(
        arg,
        "--save-baseline",
    ) || same(arg, "--processes") || same(arg, "--daemonize-tcp-host") || same(
        arg,
        "--daemonize-tcp-port",
    ) || same(arg, "--init-level") || same(arg, "--init-analyze-dir") || same(
        arg,
        "--init-analyze-file",
    )
}

/// A path as it is inside the container: without a leading `app/`, or without a leading `./`.
pub open spec fn in_container(path: Seq<char>) -> Seq<char> {
    match without_prefix(path, "app/"@) {
        Some(rest) => rest,
        None => match without_prefix(path, "./"@) {
            Some(rest) => rest,
            None => path,
        },
    }
}

/// A path as it is inside the container.
pub fn normalize_php_path(path: &str) -> (r: String)
    ensures
        r@ == in_container(path@),
{
    match strip_prefix(path, "app/") {
        Some(rest) => rest,
        None => match strip_prefix(path, "./") {
            Some(rest) => rest,
            None => path.to_string(),
        },
    }
}

/// What a list of Phan's arguments holds.
pub enum PhanScan {
    /// Options and paths of PHP files only.
    Sorted { options: Seq<Seq<char>>, files: Seq<Seq<char>> },
    /// The last argument is an option that lacks its value.
    Missing(Seq<char>),
    /// Something else too.
    Mixed,
}

/// The arguments read from the front: an option with its value, an option, a PHP file.
pub open spec fn phan_scan(user: Seq<Seq<char>>) -> PhanScan
    decreases user.len(),
{
    if user.len() == 0 {
        PhanScan::Sorted { options: seq![], files: seq![] }
    } else if takes_value(user[0]) {
        if user.len() == 1 {
            PhanScan::Missing(user[0])
        } else {
            with_options(user.take(2), phan_scan(user.skip(2)))
        }
    } else if has_prefix(user[0], "-"@) {
        with_options(user.take(1), phan_scan(user.skip(1)))
    } else if has_suffix(user[0], ".php"@) {
        with_file(in_container(user[0]), phan_scan(user.skip(1)))
    } else {
        PhanScan::Mixed
    }
}

pub open spec fn with_options(options: Seq<Seq<char>>, rest: PhanScan) -> PhanScan {
    match rest {
        PhanScan::Sorted { options: more, files } => PhanScan::Sorted {
            options: options + more,
            files,
        },
        other => other,
    }
}

pub open spec fn with_file(file: Seq<char>, rest: PhanScan) -> PhanScan {
    match rest {
        PhanScan::Sorted { options, files: more } => PhanScan::Sorted {
            options,
            files: seq![file] + more,
        },
        other => other,
    }
}

/// The docker arguments that run Phan on the whole project.
pub open spec fn phan_base() -> Seq<Seq<char>> {
    php_line(
        no_limit(),
        seq!["tools/phan/vendor/bin/phan"@, "--config-file"@, "tools/phan/.phan/config.php"@],
    )
}

/// Some argument selects the files to analyse.
pub open spec fn any_selects_files(user: Seq<Seq<char>>) -> bool {
    exists|i: int| 0 <= i < user.len() && selects_files(#[trigger] user[i])
}

/// A run of Phan: the docker arguments and, where PHP files were named, the text of the list
/// of them that is kept beside the project.
#[derive(Debug, Clone, PartialEq, Eq)]
pub struct PhanCommand {
    pub args: Vec<String>,
    pub file_list: Option<String>,
}

impl PhanCommand {
    /// The arguments go to Phan as they are.
    pub open spec fn passes_on(self, user: Seq<Seq<char>>) -> bool {
        views(self.args@) == phan_base() + user && self.file_list is None
    }

    /// The named files are handed to Phan as a list.
    pub open spec fn lists(self, options: Seq<Seq<char>>, files: Seq<Seq<char>>) -> bool {
        &&& views(self.args@) == phan_base() + options + seq![
            "--include-analysis-file-list"@,
            joined(files, ","@),
        ]
        &&& view_opt(self.file_list) == Some(joined(files, "\n"@) + "\n"@)
    }
}

fn phan_as_is(base: Vec<String>, user: &[String]) -> (r: PhanCommand)
    requires
        views(base@) == phan_base(),
    ensures
        r.passes_on(views(user@)),
{
    let mut args = base;
    extend(&mut args, user);
    PhanCommand { args, file_list: None }
}

/// The run of Phan for the given arguments. Where they are options and PHP files, the files
/// become a list; otherwise the arguments are passed on.
pub fn phan_args(user: &[String]) -> (r: Result<PhanCommand, PhpError>)
    ensures
        ({
            let given = views(user@);
            if given.len() == 0 || any_selects_files(given) {
                r matches Ok(run) && run.passes_on(given)
            } else {
                match phan_scan(given) {
                    PhanScan::Missing(option) => r matches Err(PhpError::MissingArgument(text))
                        && text@ == option,
                    PhanScan::Mixed => r matches Ok(run) && run.passes_on(given),
                    PhanScan::Sorted { options, files } => r matches Ok(run) && if files.len()
                        == 0 {
                        run.passes_on(given)
                    } else {
                        run.lists(options, files)
                    },
                }
            }
        }),
{
    let command = vec![
        "tools/phan/vendor/bin/phan".to_string(),
        "--config-file".to_string(),
        "tools/phan/.phan/config.php".to_string(),
    ];
    assert(views(command@) =~= seq![
        "tools/phan/vendor/bin/phan"@,
        "--config-file"@,
        "tools/phan/.phan/config.php"@,
    ]);
    let base = unlimited(command.as_slice());
    let n: usize = user.len();
    let ghost given = views(user@);
    let mut i: usize = 0;
    while i < n
        invariant
            i <= n == user@.len(),
            given == views(user@),
            views(base@) == phan_base(),
            forall|j: int| 0 <= j < i ==> !selects_files(#[trigger] given[j]),
        decreases n - i,
    {
        assert(given[i as int] == user@[i as int]@);
        if explicit_file_selection(user[i].as_str()) {
            return Ok(phan_as_is(base, user));
        }
        i += 1;
    }
    if n == 0 {
        return Ok(phan_as_is(base, user));
    }
    let mut options: Vec<String> = Vec::new();
    let mut files: Vec<String> = Vec::new();
    let mut index: usize = 0;
    proof {
        assert(given.skip(0) =~= given);
        assert(views(options@) =~= seq![]);
        assert(views(files@) =~= seq![]);
        lemma_nothing_before(phan_scan(given));
    }
    while index < n
        invariant
            index <= n == user@.len(),
            n > 0,
            given == views(user@),
            views(base@) == phan_base(),
            !any_selects_files(given),
            phan_scan(given) == after_some(
                views(options@),
                views(files@),
                phan_scan(given.skip(index as int)),
            ),
        decreases n - index,
    {
        let arg = user[index].as_str();
        let ghost rest = given.skip(index as int);
        let ghost before_options = views(options@);
        let ghost before_files = views(files@);
        proof {
            assert(rest[0] == user@[index as int]@);
        }
        if option_takes_value(arg) {
            if n - index == 1 {
                return Err(PhpError::MissingArgument(arg.to_string()));
            }
            options.push(arg.to_string());
            options.push(user[index + 1].clone());
            proof {
                assert(views(options@) =~= before_options + rest.take(2));
                assert(rest.skip(2) =~= given.skip(index + 2));
                lemma_options_before(
                    before_options,
                    before_files,
                    rest.take(2),
                    phan_scan(rest.skip(2)),
                );
            }
            index += 2;
        } else if starts_with(arg, "-") {
            options.push(arg.to_string());
            proof {
                assert(views(options@) =~= before_options + rest.take(1));
                assert(rest.skip(1) =~= given.skip(index + 1));
                lemma_options_before(
                    before_options,
                    before_files,
                    rest.take(1),
                    phan_scan(rest.skip(1)),
                );
            }
            index += 1;
        } else if ends_with(arg, ".php") {
            let file = normalize_php_path(arg);
            let ghost added = file@;
            files.push(file);
            proof {
                assert(views(files@) =~= before_files.push(added));
                assert(rest.skip(1) =~= given.skip(index + 1));
                lemma_file_before(before_options, before_files, added, phan_scan(rest.skip(1)));
            }
            index += 1;
        } else {
            return Ok(phan_as_is(base, user));
        }
    }
    proof {
        assert(given.skip(n as int).len() == 0);
        assert(views(options@) + seq![] =~= views(options@));
        assert(views(files@) + seq![] =~= views(files@));
        assert(phan_scan(given) == PhanScan::Sorted {
            options: views(options@),
            files: views(files@),
        });
    }
    if files.len() == 0 {
        return Ok(phan_as_is(base, user));
    }
    let mut args = base;
    extend(&mut args, options.as_slice());
    let ghost so_far = views(args@);
    args.push("--include-analysis-file-list".to_string());
    args.push(join(files.as_slice(), ","));
    assert(views(args@) =~= so_far + seq![
        "--include-analysis-file-list"@,
        joined(views(files@), ","@),
    ]);
    let mut list = join(files.as_slice(), "\n");
    list.append("\n");
    Ok(PhanCommand { args, file_list: Some(list) })
}

/// What a scan finds where `options` and `files` stood before it.
spec fn after_some(
    options: Seq<Seq<char>>,
    files: Seq<Seq<char>>,
    rest: PhanScan,
) -> PhanScan {
    match rest {
        PhanScan::Sorted { options: more, files: others } => PhanScan::Sorted {
            options: options + more,
            files: files + others,
        },
        other => other,
    }
}

proof fn lemma_nothing_before(rest: PhanScan)
    ensures
        after_some(seq![], seq![], rest) == rest,
{
    if let PhanScan::Sorted { options, files } = rest {
        assert(Seq::<Seq<char>>::empty() + options =~= options);
        assert(Seq::<Seq<char>>::empty() + files =~= files);
    }
}

proof fn lemma_options_before(
    options: Seq<Seq<char>>,
    files: Seq<Seq<char>>,
    added: Seq<Seq<char>>,
    rest: PhanScan,
)
    ensures
        after_some(options, files, with_options(added, rest)) == after_some(
            options + added,
            files,
            rest,
        ),
{
    if let PhanScan::Sorted { options: more, files: others } = rest {
        assert(options + (added + more) =~= options + added + more);
    }
}

proof fn lemma_file_before(
    options: Seq<Seq<char>>,
    files: Seq<Seq<char>>,
    added: Seq<char>,
    rest: PhanScan,
)
    ensures
        after_some(options, files, with_file(added, rest)) == after_some(
            options,
            files.push(added),
            rest,
        ),
{
    if let PhanScan::Sorted { options: more, files: others } = rest {
        assert(files + (seq![added] + others) =~= files.push(added) + others);
    }
}

// What Phan is given.

/// The arguments that begin with a hyphen, in order.
pub open spec fn hyphened(args: Seq<Seq<char>>) -> Seq<Seq<char>>
    decreases args.len(),
{
    if args.len() == 0 {
        seq![]
    } else if args[0].len() > 0 && args[0][0] == '-' {
        seq![args[0]] + hyphened(args.skip(1))
    } else {
        hyphened(args.skip(1))
    }
}

/// Whether a path of the user names a PHP file, as the container has it.
pub open spec fn names_file(path: Seq<char>, file: Seq<char>) -> bool {
    &&& path.len() >= 4
    &&& path.skip(path.len() - 4) == ".php"@
    &&& path == "app/"@ + file || path == "./"@ + file || path == file
    &&& has_prefix(path, "app/"@) ==> path == "app/"@ + file
    &&& has_prefix(path, "./"@) ==> path == "./"@ + file
}

/// Whether the arguments of the user are all there as options and files: the options have all that
/// begin with a hyphen in the user's order, and the files are PHP files of the user in the user's
/// order, at the given places.
pub open spec fn keeps_all(
    user: Seq<Seq<char>>,
    options: Seq<Seq<char>>,
    files: Seq<Seq<char>>,
    at: Seq<int>,
) -> bool {
    &&& options.len() + files.len() == user.len()
    &&& hyphened(options) == hyphened(user)
    &&& at.len() == files.len()
    &&& forall|k: int| 0 <= k < at.len() ==> 0 <= #[trigger] at[k] < user.len()
    &&& forall|k: int, m: int| 0 <= k < m < at.len() ==> #[trigger] at[k] < #[trigger] at[m]
    &&& forall|k: int| 0 <= k < files.len() ==> names_file(user[at[k]], #[trigger] files[k])
}

proof fn lemma_hyphened_sum(a: Seq<Seq<char>>, b: Seq<Seq<char>>)
    ensures
        hyphened(a + b) == hyphened(a) + hyphened(b),
    decreases a.len(),
{
    if a.len() == 0 {
        assert(a + b =~= b);
        assert(hyphened(a) + hyphened(b) =~= hyphened(b));
    } else {
        lemma_hyphened_sum(a.skip(1), b);
        assert((a + b).skip(1) =~= a.skip(1) + b);
        assert((a + b)[0] == a[0]);
        let tail = hyphened(a.skip(1)) + hyphened(b);
        assert(seq![a[0]] + tail =~= seq![a[0]] + hyphened(a.skip(1)) + hyphened(b));
    }
}

proof fn lemma_in_container(path: Seq<char>)
    requires
        has_suffix(path, ".php"@),
    ensures
        names_file(path, in_container(path)),
{
    reveal_strlit(".php");
    reveal_strlit("app/");
    reveal_strlit("./");
    assert(".php"@.len() == 4);
    assert("app/"@[0] == 'a' && "./"@[0] == '.');
    if has_prefix(path, "app/"@) {
        assert(path =~= "app/"@ + path.skip(4));
        assert(path.take(4)[0] == path[0]);
        if has_prefix(path, "./"@) {
            assert(path.take(2)[0] == path[0]);
        }
    } else if has_prefix(path, "./"@) {
        assert(path =~= "./"@ + path.skip(2));
    }
}

proof fn lemma_scan_keeps_all(user: Seq<Seq<char>>) -> (at: Seq<int>)
    requires
        phan_scan(user) is Sorted,
    ensures
        keeps_all(user, phan_scan(user)->options, phan_scan(user)->files, at),
    decreases user.len(),
{
    reveal_strlit("-");
    let options = phan_scan(user)->options;
    let files = phan_scan(user)->files;
    if user.len() == 0 {
        seq![]
    } else {
        let taken: int = if takes_value(user[0]) {
            2
        } else {
            1
        };
        let rest = user.skip(taken);
        let before = lemma_scan_keeps_all(rest);
        let more = phan_scan(rest)->options;
        let others = phan_scan(rest)->files;
        let moved = before.map_values(|k: int| k + taken);
        assert(user =~= user.take(taken) + rest);
        lemma_hyphened_sum(user.take(taken), rest);
        if takes_value(user[0]) || has_prefix(user[0], "-"@) {
            lemma_hyphened_sum(user.take(taken), more);
            assert forall|k: int| 0 <= k < files.len() implies names_file(
                user[moved[k]],
                #[trigger] files[k],
            ) by {
                assert(files[k] == others[k]);
                assert(rest[before[k]] == user[moved[k]]);
            }
            moved
        } else {
            assert(!(user[0].len() > 0 && user[0][0] == '-')) by {
                if user[0].len() > 0 && user[0][0] == '-' {
                    assert(user[0].take(1) =~= "-"@);
                }
            }
            assert(hyphened(user.take(1)) =~= seq![]) by {
                assert(hyphened(user.take(1).skip(1)) =~= seq![]);
            }
            assert(hyphened(user) =~= hyphened(rest));
            lemma_in_container(user[0]);
            let at = seq![0int] + moved;
            assert forall|k: int| 0 <= k < files.len() implies names_file(
                user[at[k]],
                #[trigger] files[k],
            ) by {
                if k > 0 {
                    assert(files[k] == others[k - 1]);
                    assert(at[k] == before[k - 1] + 1);
                    assert(rest[before[k - 1]] == user[at[k]]);
                }
            }
            at
        }
    }
}

proof fn lemma_phan_base()
    ensures
        phan_base() == seq![
            "compose"@,
            "exec"@,
            "php"@,
            "php"@,
            "-d"@,
            "opcache.enable_cli=0"@,
            "-d"@,
            "memory_limit=-1"@,
            "tools/phan/vendor/bin/phan"@,
            "--config-file"@,
            "tools/phan/.phan/config.php"@,
        ],
{
    let defines = no_limit();
    assert(defines.drop_last() =~= seq!["opcache.enable_cli=0"@]);
    assert(defines.drop_last().drop_last() =~= seq![]);
    reveal_with_fuel(define_flags, 3);
    assert(define_flags(defines) =~= seq![
        "-d"@,
        "opcache.enable_cli=0"@,
        "-d"@,
        "memory_limit=-1"@,
    ]);
    assert(phan_base() =~= seq![
        "compose"@,
        "exec"@,
        "php"@,
        "php"@,
        "-d"@,
        "opcache.enable_cli=0"@,
        "-d"@,
        "memory_limit=-1"@,
        "tools/phan/vendor/bin/phan"@,
        "--config-file"@,
        "tools/phan/.phan/config.php"@,
    ]);
}

/// Nothing that the user gave is lost: all arguments with a hyphen go to Phan in the user's order,
/// and where files go to it as a list, they are PHP files that the user named, in the user's order.
pub proof fn law_phan_keeps_what_the_user_gave(
    user: &[String],
    r: Result<PhanCommand, PhpError>,
    run: PhanCommand,
)
    requires
        call_ensures(phan_args, (user,), r),
        r == Ok::<PhanCommand, PhpError>(run),
    ensures
        exists|options: Seq<Seq<char>>, files: Seq<Seq<char>>, at: Seq<int>|
            {
                &&& #[trigger] keeps_all(views(user@), options, files, at)
                &&& files.len() == 0 ==> options == views(user@) && run.file_list is None
                &&& files.len() > 0 ==> view_opt(run.file_list) == Some(
                    joined(files, "\n"@) + "\n"@,
                )
                &&& views(run.args@) == seq![
                    "compose"@,
                    "exec"@,
                    "php"@,
                    "php"@,
                    "-d"@,
                    "opcache.enable_cli=0"@,
                    "-d"@,
                    "memory_limit=-1"@,
                    "tools/phan/vendor/bin/phan"@,
                    "--config-file"@,
                    "tools/phan/.phan/config.php"@,
                ] + options + (if files.len() == 0 {
                    seq![]
                } else {
                    seq!["--include-analysis-file-list"@, joined(files, ","@)]
                })
            },
{
    lemma_phan_base();
    let given = views(user@);
    if run.file_list is None {
        assert(keeps_all(given, given, seq![], seq![]));
        assert(phan_base() + given + seq![] =~= phan_base() + given);
    } else {
        let at = lemma_scan_keeps_all(given);
        let options = phan_scan(given)->options;
        let files = phan_scan(given)->files;
        assert(keeps_all(given, options, files, at));
    }
}

/// Whether the next argument belongs to an option of Phan.
pub open spec fn has_argument(option: Seq<char>) -> bool {
    ||| option == "--config-file"@
    ||| option == "--daemonize-tcp-host"@
    ||| option == "--daemonize-tcp-port"@
    ||| option == "--directory"@
    ||| option == "--exclude-directory-list"@
    ||| option == "--file-list"@
    ||| option == "--file-list-only"@
    ||| option == "--include-analysis-file-list"@
    ||| option == "--init-analyze-dir"@
    ||| option == "--init-analyze-file"@
    ||| option == "--init-level"@
    ||| option == "--load-baseline"@
    ||| option == "--output"@
    ||| option == "--output-mode"@
    ||| option == "--processes"@
    ||| option == "--project-root-directory"@
    ||| option == "--save-baseline"@
    ||| option == "-3"@
    ||| option == "-B"@
    ||| option == "-I"@
    ||| option == "-d"@
    ||| option == "-f"@
    ||| option == "-k"@
    ||| option == "-l"@
    ||| option == "-m"@
    ||| option == "-o"@
    ||| option == "-r"@
}

/// Whether an option of Phan names the files to look at.
pub open spec fn picks_files(option: Seq<char>) -> bool {
    ||| option == "--file-list"@
    ||| option == "--file-list-only"@
    ||| option == "--include-analysis-file-list"@
    ||| option == "-I"@
    ||| option == "-f"@
    ||| option == "-r"@
}

/// An option of Phan that has an argument goes to it together with its argument, even where that
/// ends like a PHP file; without one it is refused.
pub proof fn law_phan_options_keep_their_arguments(
    user: &[String],
    r: Result<PhanCommand, PhpError>,
)
    requires
        call_ensures(phan_args, (user,), r),
        user@.len() > 0,
        has_argument(user@[0]@),
    ensures
        user@.len() > 1 ==> (r matches Ok(run) ==> {
            &&& views(run.args@).len() > 12
            &&& views(run.args@)[11] == user@[0]@
            &&& views(run.args@)[12] == user@[1]@
        }),
        user@.len() == 1 ==> if picks_files(user@[0]@) {
            r is Ok
        } else {
            r matches Err(error) && error.says() == "phan: missing argument for "@ + user@[0]@
        },
{
    lemma_phan_base();
    let given = views(user@);
    assert(given[0] == user@[0]@);
    if user@.len() > 1 {
        assert(given[1] == user@[1]@);
        assert(given.take(2)[0] == given[0] && given.take(2)[1] == given[1]);
    } else if picks_files(user@[0]@) {
        assert(selects_files(given[0]));
        assert(any_selects_files(given));
    } else {
        assert forall|i: int| 0 <= i < given.len() implies !selects_files(#[trigger] given[i]) by {
            assert(i == 0);
        }
    }
}

/// Where the user selects the files with an option, everything goes to Phan as it is.
pub proof fn law_phan_leaves_selections_alone(
    user: &[String],
    r: Result<PhanCommand, PhpError>,
    i: int,
)
    requires
        call_ensures(phan_args, (user,), r),
        0 <= i < user@.len(),
        picks_files(user@[i]@),
    ensures
        r matches Ok(run) && run.file_list is None && views(run.args@).len() == 11 + user@.len()
            && forall|k: int|
            0 <= k < user@.len() ==> views(run.args@)[11 + k] == #[trigger] user@[k]@,
{
    lemma_phan_base();
    let given = views(user@);
    assert(given[i] == user@[i]@);
    assert(selects_files(given[i]));
    assert(any_selects_files(given));
    let run = r->Ok_0;
    assert forall|k: int| 0 <= k < user@.len() implies views(run.args@)[11 + k]
        == #[trigger] user@[k]@ by {
        assert(given[k] == user@[k]@);
    }
}

// Running the commands.

/// The run of the Symfony console.
pub fn run_console(project: &Project, user: &[String]) -> (r: Invocation)
    ensures
        r@ == docker_in(*project, console_line(project.dev, views(user@))),
{
    run_tool(project, console_args(project.dev, user).as_slice())
}

/// The run of Composer.
pub fn run_composer(project: &Project, user: &[String]) -> (r: Invocation)
    ensures
        r@ == docker_in(*project, composer_line(views(user@))),
{
    run_tool(project, composer_args(user).as_slice())
}

/// The run of a tool whose docker arguments are known.
pub fn run_tool(project: &Project, args: &[String]) -> (r: Invocation)
    ensures
        r@ == docker_in(*project, views(args@)),
{
    run_status(project, args)
}

/// The Symfony environment of a project.
pub fn symfony_env(project: &Project) -> (r: &str)
    ensures
        r@ == project.app_env@,
{
    project.app_env.as_str()
}

/// The option that names the Symfony environment.
pub open spec fn env_option(env: Seq<char>) -> Seq<char> {
    "--env="@ + env
}

/// The option that names the Symfony environment.
pub fn env_arg(env: &str) -> (r: String)
    ensures
        r@ == env_option(env@),
{
    let mut out = "--env=".to_string();
    out.append(env);
    out
}

/// The console arguments that load the fixtures.
pub open spec fn fixtures_command(env: Seq<char>) -> Seq<Seq<char>> {
    seq!["d:f:l"@, env_option(env), "--no-interaction"@, "--no-debug"@]
}

/// The docker arguments that load the fixtures of a development project.
pub fn fixtures_args(env: &str) -> (r: Vec<String>)
    ensures
        views(r@) == console_line(true, fixtures_command(env@)),
{
    let user = vec![
        "d:f:l".to_string(),
        env_arg(env),
        "--no-interaction".to_string(),
        "--no-debug".to_string(),
    ];
    assert(views(user@) =~= fixtures_command(env@));
    console_args(true, user.as_slice())
}

/// The first position of `word` in a list, or the list's length.
pub open spec fn position(list: Seq<Seq<char>>, word: Seq<char>) -> int
    decreases list.len(),
{
    if list.len() == 0 || list[0] == word {
        0
    } else {
        1 + position(list.skip(1), word)
    }
}

/// The arguments with those that select the web server's user behind the first `exec`.
pub open spec fn with_www_data(args: Seq<Seq<char>>) -> Seq<Seq<char>> {
    let at = position(args, "exec"@);
    if at < args.len() {
        args.take(at + 1) + as_www_data() + args.skip(at + 1)
    } else {
        args
    }
}

proof fn lemma_position(list: Seq<Seq<char>>, word: Seq<char>, n: int)
    requires
        0 <= n <= list.len(),
        forall|i: int| 0 <= i < n ==> #[trigger] list[i] != word,
        n == list.len() || list[n] == word,
    ensures
        position(list, word) == n,
    decreases list.len(),
{
    if n > 0 {
        assert(list[0] != word);
        assert forall|i: int| 0 <= i < n - 1 implies #[trigger] list.skip(1)[i] != word by {
            assert(list.skip(1)[i] == list[i + 1]);
        }
        lemma_position(list.skip(1), word, n - 1);
    }
}

/// Puts the arguments that select the web server's user behind the first `exec`.
pub fn insert_www_data(args: &mut Vec<String>)
    ensures
        views(final(args)@) == with_www_data(views(old(args)@)),
{
    let n: usize = args.len();
    let ghost before = views(args@);
    let mut i: usize = 0;
    while i < n && !same(args[i].as_str(), "exec")
        invariant
            i <= n == args@.len(),
            before == views(args@),
            args@ == old(args)@,
            forall|j: int| 0 <= j < i ==> #[trigger] before[j] != "exec"@,
        decreases n - i,
    {
        assert(before[i as int] == args@[i as int]@);
        i += 1;
    }
    proof {
        if i < n {
            assert(before[i as int] == args@[i as int]@);
        }
        lemma_position(before, "exec"@, i as int);
    }
    if i < n {
        args.insert(i + 1, "www-data".to_string());
        args.insert(i + 1, "-u".to_string());
        assert(views(args@) =~= before.take(i + 1) + as_www_data() + before.skip(i + 1));
    }
}

/// The docker arguments that load a project's fixtures.
pub open spec fn fixtures_line(project: Project) -> Seq<Seq<char>> {
    let line = console_line(true, fixtures_command(project.app_env@));
    if project.dev {
        line
    } else {
        with_www_data(line)
    }
}

/// The run that loads the fixtures.
pub fn run_fixtures(project: &Project) -> (r: Invocation)
    ensures
        r@ == docker_in(*project, fixtures_line(*project)),
{
    let mut args = fixtures_args(project.app_env.as_str());
    if !project.dev {
        insert_www_data(&mut args);
    }
    run_tool(project, args.as_slice())
}

/// Outside development the fixtures are loaded by the console as the web server's user.
pub proof fn law_fixtures_run_on_the_console(project: Project)
    ensures
        fixtures_line(project) == console_line(
            project.dev,
            fixtures_command(project.app_env@),
        ),
{
    let line = console_line(true, fixtures_command(project.app_env@));
    assert(line[0] == "compose"@);
    assert(line[1] == "exec"@);
    reveal_strlit("compose");
    reveal_strlit("exec");
    assert("compose"@.len() == 7);
    lemma_position(line, "exec"@, 1);
    if !project.dev {
        assert(with_www_data(line) =~= console_line(false, fixtures_command(project.app_env@)));
    }
}

// The database.

/// The run that shows the environment of the postgres service.
pub fn postgres_env(project: &Project) -> (r: Invocation)
    ensures
        r@ == docker_in(*project, seq!["compose"@, "exec"@, "postgres"@, "env"@]),
{
    let args = vec![
        "compose".to_string(),
        "exec".to_string(),
        "postgres".to_string(),
        "env".to_string(),
    ];
    assert(views(args@) =~= seq!["compose"@, "exec"@, "postgres"@, "env"@]);
    run_tool(project, args.as_slice())
}

/// What each line gives for the name of the database.
pub open spec fn database_lines(lines: Seq<Seq<char>>) -> Seq<Option<Seq<char>>> {
    lines.map_values(|line: Seq<char>| without_prefix(line, "POSTGRES_DB="@))
}

/// The database that an environment names; the test environment has one of its own.
pub open spec fn database_in(app_env: Seq<char>, env: Seq<char>) -> Option<Seq<char>> {
    match first_some(database_lines(lines_of(env))) {
        Some(name) => Some(
            trimmed(name) + if app_env == "test"@ {
                "_1"@
            } else {
                seq![]
            },
        ),
        None => None,
    }
}

/// What follows once the environment of the postgres service is known.
#[derive(Debug, Clone, PartialEq, Eq)]
pub enum Drop {
    /// Report this exit code.
    Stop(i32),
    /// Run this and report what [`after_drop`] says.
    Run(Invocation),
}

/// The exit code to report after the run that drops the database: zero, whatever it ended with.
pub fn after_drop(_code: i32) -> (r: i32)
    ensures
        r == 0,
{
    0
}

/// What to do to drop the database, after the run of [`postgres_env`].
pub fn force_drop_database(project: &Project, env: &Output) -> (r: Result<Drop, PhpError>)
    ensures
        if !env.ok() {
            r matches Ok(Drop::Stop(code)) && code == reported(env.code)
        } else {
            match database_in(project.app_env@, env.stdout@) {
                None => r matches Err(PhpError::NoDatabase),
                Some(name) => r matches Ok(Drop::Run(run)) && run@ == docker_in(
                    *project,
                    seq!["compose"@, "exec"@, "postgres"@, "dropdb"@, "-f"@, name],
                ),
            }
        },
{
    if !env.success() {
        return Ok(Drop::Stop(exit_code(env.code)));
    }
    let all = lines(env.stdout.as_str());
    let n: usize = all.len();
    let ghost found = database_lines(lines_of(env.stdout@));
    let mut i: usize = 0;
    while i < n
        invariant
            i <= n == all@.len(),
            env.ok(),
            views(all@) == lines_of(env.stdout@),
            found == database_lines(lines_of(env.stdout@)),
            forall|j: int| 0 <= j < i ==> (#[trigger] found[j]) is None,
        decreases n - i,
    {
        let value = strip_prefix(all[i].as_str(), "POSTGRES_DB=");
        proof {
            assert(views(all@)[i as int] == all@[i as int]@);
            assert(found[i as int] == view_opt(value));
        }
        if let Some(value) = value {
            proof {
                lemma_first_some(found, i as int);
            }
            let mut name = trim(value.as_str());
            let ghost plain = name@;
            if same(project.app_env.as_str(), "test") {
                name.append("_1");
            }
            assert(project.app_env@ != "test"@ ==> plain + Seq::<char>::empty() =~= plain);
            let ghost database = name@;
            let args = vec![
                "compose".to_string(),
                "exec".to_string(),
                "postgres".to_string(),
                "dropdb".to_string(),
                "-f".to_string(),
                name,
            ];
            assert(views(args@) =~= seq![
                "compose"@,
                "exec"@,
                "postgres"@,
                "dropdb"@,
                "-f"@,
                database,
            ]);
            return Ok(Drop::Run(run_tool(project, args.as_slice())));
        }
        i += 1;
    }
    proof {
        lemma_first_some(found, n as int);
    }
    Err(PhpError::NoDatabase)
}

/// The console arguments of the steps that make the database anew.
pub open spec fn reset_commands(env: Seq<char>) -> Seq<Seq<Seq<char>>> {
    seq![
        seq![env_option(env), "d:d:d"@, "--force"@, "--if-exists"@, "--no-interaction"@],
        seq![env_option(env), "d:d:c"@, "--no-interaction"@],
        seq![env_option(env), "d:m:m"@, "--no-interaction"@],
    ]
}

/// The runs that make the database anew, once it has been dropped by force.
pub open spec fn reset_runs(project: Project) -> Seq<InvocationView> {
    reset_commands(project.app_env@).map_values(
        |user: Seq<Seq<char>>| docker_in(project, console_line(project.dev, user)),
    ).push(docker_in(project, fixtures_line(project)))
}

/// The views of a list of invocations.
pub open spec fn runs(list: Seq<Invocation>) -> Seq<InvocationView> {
    list.map_values(|run: Invocation| run@)
}

/// The script that makes the database anew, once it has been dropped by force: drop, create,
/// migrate, load the fixtures.
pub fn reset_database(project: &Project) -> (r: Vec<Invocation>)
    ensures
        runs(r@) == reset_runs(*project),
{
    let env = project.app_env.as_str();
    let drop = vec![
        env_arg(env),
        "d:d:d".to_string(),
        "--force".to_string(),
        "--if-exists".to_string(),
        "--no-interaction".to_string(),
    ];
    let create = vec![env_arg(env), "d:d:c".to_string(), "--no-interaction".to_string()];
    let migrate = vec![env_arg(env), "d:m:m".to_string(), "--no-interaction".to_string()];
    let script = vec![
        run_console(project, drop.as_slice()),
        run_console(project, create.as_slice()),
        run_console(project, migrate.as_slice()),
        run_fixtures(project),
    ];
    proof {
        let commands = reset_commands(project.app_env@);
        assert(views(drop@) =~= commands[0]);
        assert(views(create@) =~= commands[1]);
        assert(views(migrate@) =~= commands[2]);
        assert(runs(script@) =~= reset_runs(*project));
    }
    script
}

/// A step of the installation.
#[derive(Debug, Clone, PartialEq, Eq)]
pub enum InstallStep {
    Run(Invocation),
    /// Give the services time to come up.
    Wait { seconds: u64 },
    ClearCache,
    ResetDatabase,
}

/// The view of a step of the installation.
pub enum InstallStepView {
    Run(InvocationView),
    Wait { seconds: u64 },
    ClearCache,
    ResetDatabase,
}

impl View for InstallStep {
    type V = InstallStepView;

    open spec fn view(&self) -> InstallStepView {
        match *self {
            InstallStep::Run(run) => InstallStepView::Run(run@),
            InstallStep::Wait { seconds } => InstallStepView::Wait { seconds },
            InstallStep::ClearCache => InstallStepView::ClearCache,
            InstallStep::ResetDatabase => InstallStepView::ResetDatabase,
        }
    }
}

/// The steps of the installation.
pub open spec fn install_steps(project: Project) -> Seq<InstallStepView> {
    seq![
        InstallStepView::Run(docker_in(project, seq!["compose"@, "kill"@])),
        InstallStepView::Run(docker_in(project, seq!["compose"@, "down"@])),
        InstallStepView::Run(docker_in(project, composer_line(seq!["install"@]))),
        InstallStepView::Run(docker_in(project, seq!["compose"@, "up"@, "-d"@])),
        InstallStepView::Wait { seconds: 2 },
        InstallStepView::ClearCache,
        InstallStepView::Run(
            docker_in(project, console_line(project.dev, seq!["messenger:stop-workers"@])),
        ),
        InstallStepView::ResetDatabase,
    ]
}

/// The script that installs the dependencies and makes the database anew.
pub fn installer(project: &Project) -> (r: Vec<InstallStep>)
    ensures
        r@.map_values(|step: InstallStep| step@) == install_steps(*project),
{
    let kill = vec!["compose".to_string(), "kill".to_string()];
    let down = vec!["compose".to_string(), "down".to_string()];
    let install = vec!["install".to_string()];
    let up = vec!["compose".to_string(), "up".to_string(), "-d".to_string()];
    let stop = vec!["messenger:stop-workers".to_string()];
    assert(views(kill@) =~= seq!["compose"@, "kill"@]);
    assert(views(down@) =~= seq!["compose"@, "down"@]);
    assert(views(install@) =~= seq!["install"@]);
    assert(views(up@) =~= seq!["compose"@, "up"@, "-d"@]);
    assert(views(stop@) =~= seq!["messenger:stop-workers"@]);
    let steps = vec![
        InstallStep::Run(run_tool(project, kill.as_slice())),
        InstallStep::Run(run_tool(project, down.as_slice())),
        InstallStep::Run(run_composer(project, install.as_slice())),
        InstallStep::Run(run_tool(project, up.as_slice())),
        InstallStep::Wait { seconds: 2 },
        InstallStep::ClearCache,
        InstallStep::Run(run_console(project, stop.as_slice())),
        InstallStep::ResetDatabase,
    ];
    assert(steps@.map_values(|step: InstallStep| step@) =~= install_steps(*project));
    steps
}

// Commands in writing.

proof fn lemma_define_flags(defines: Seq<Seq<char>>, i: int)
    requires
        0 <= i < defines.len(),
    ensures
        define_flags(defines).len() == 2 * defines.len(),
        define_flags(defines)[2 * i] == "-d"@,
        define_flags(defines)[2 * i + 1] == defines[i],
    decreases defines.len(),
{
    if defines.len() == 1 {
        assert(define_flags(defines.drop_last()) =~= seq![]);
    } else if i < defines.len() - 1 {
        lemma_define_flags(defines.drop_last(), i);
    } else {
        lemma_define_flags(defines.drop_last(), 0);
    }
}

/// A script runs in the service `php` with each definition behind a `-d`, in order, and then with
/// its own arguments, all of them and in order.
pub proof fn law_scripts_run_with_their_definitions(
    defines: &[&str],
    command: &[String],
    r: Vec<String>,
    i: int,
    j: int,
)
    requires
        call_ensures(exec_php, (defines, command), r),
    ensures
        ({
            let line = views(r@);
            let d = defines@.len() as int;
            &&& line.len() == 4 + 2 * d + command@.len()
            &&& line[0] == "compose"@ && line[1] == "exec"@ && line[2] == "php"@ && line[3]
                == "php"@
            &&& 0 <= i < d ==> line[4 + 2 * i] == "-d"@ && line[5 + 2 * i] == defines@[i]@
            &&& 0 <= j < command@.len() ==> line[4 + 2 * d + j] == command@[j]@
        }),
{
    let flags = str_views(defines@);
    if defines@.len() > 0 {
        lemma_define_flags(flags, 0);
    }
    if 0 <= i < defines@.len() {
        lemma_define_flags(flags, i);
    }
    if 0 <= j < command@.len() {
        assert(views(command@)[j] == command@[j]@);
    }
}

proof fn lemma_php_line(defines: Seq<Seq<char>>, command: Seq<Seq<char>>)
    ensures
        defines.len() == 1 ==> php_line(defines, command) == seq![
            "compose"@,
            "exec"@,
            "php"@,
            "php"@,
            "-d"@,
            defines[0],
        ] + command,
        defines.len() == 2 ==> php_line(defines, command) == seq![
            "compose"@,
            "exec"@,
            "php"@,
            "php"@,
            "-d"@,
            defines[0],
            "-d"@,
            defines[1],
        ] + command,
{
    if defines.len() == 1 {
        lemma_define_flags(defines, 0);
        assert(define_flags(defines) =~= seq!["-d"@, defines[0]]);
        assert(php_line(defines, command) =~= seq![
            "compose"@,
            "exec"@,
            "php"@,
            "php"@,
            "-d"@,
            defines[0],
        ] + command);
    }
    if defines.len() == 2 {
        lemma_define_flags(defines, 0);
        lemma_define_flags(defines, 1);
        assert(define_flags(defines) =~= seq!["-d"@, defines[0], "-d"@, defines[1]]);
        assert(php_line(defines, command) =~= seq![
            "compose"@,
            "exec"@,
            "php"@,
            "php"@,
            "-d"@,
            defines[0],
            "-d"@,
            defines[1],
        ] + command);
    }
}

/// The console runs in the service `php`, outside development as the web server's user; what the
/// user gave follows `bin/console`, all of it and in order.
pub proof fn law_consoles_pass_arguments_on(dev: bool, user: &[String], r: Vec<String>)
    requires
        call_ensures(console_args, (dev, user), r),
    ensures
        dev ==> views(r@) == seq![
            "compose"@,
            "exec"@,
            "php"@,
            "php"@,
            "-d"@,
            "opcache.enable_cli=0"@,
            "-d"@,
            "memory_limit=8G"@,
            "bin/console"@,
        ] + views(user@),
        !dev ==> views(r@) == seq![
            "compose"@,
            "exec"@,
            "-u"@,
            "www-data"@,
            "php"@,
            "php"@,
            "-d"@,
            "opcache.enable_cli=0"@,
            "-d"@,
            "memory_limit=8G"@,
            "bin/console"@,
        ] + views(user@),
{
    if dev {
        assert(views(r@) =~= seq![
            "compose"@,
            "exec"@,
            "php"@,
            "php"@,
            "-d"@,
            "opcache.enable_cli=0"@,
            "-d"@,
            "memory_limit=8G"@,
            "bin/console"@,
        ] + views(user@));
    } else {
        assert(views(r@) =~= seq![
            "compose"@,
            "exec"@,
            "-u"@,
            "www-data"@,
            "php"@,
            "php"@,
            "-d"@,
            "opcache.enable_cli=0"@,
            "-d"@,
            "memory_limit=8G"@,
            "bin/console"@,
        ] + views(user@));
    }
}

/// Composer runs in a service `php` of its own that is removed afterwards. An install, also in
/// short, gets an optimized autoloader, and no other command does; what the user gave follows.
pub proof fn law_composer_optimizes_installs(user: &[String], r: Vec<String>)
    requires
        call_ensures(composer_args, (user,), r),
    ensures
        ({
            let installs = user@.len() > 0 && (user@[0]@ == "install"@ || user@[0]@ == "i"@);
            let head = seq![
                "compose"@,
                "run"@,
                "--rm"@,
                "php"@,
                "php"@,
                "-d"@,
                "opcache.enable_cli=0"@,
                "/usr/local/bin/composer"@,
                "--profile"@,
            ];
            &&& !installs ==> views(r@) == head + views(user@)
            &&& installs ==> views(r@) == head + seq![
                "--optimize-autoloader"@,
                "--classmap-authoritative"@,
            ] + views(user@)
        }),
{
    let given = views(user@);
    if user@.len() > 0 {
        assert(given[0] == user@[0]@);
    }
    let head = seq![
        "compose"@,
        "run"@,
        "--rm"@,
        "php"@,
        "php"@,
        "-d"@,
        "opcache.enable_cli=0"@,
        "/usr/local/bin/composer"@,
        "--profile"@,
    ];
    assert(head + seq![] + given =~= head + given);
}

/// Yarn runs in the service `vue`; PHPStan, PHPUnit and Rector run in the service `php`. What the
/// user gave follows, all of it and in order.
pub proof fn law_tools_pass_arguments_on(
    user: &[String],
    yarn: Vec<String>,
    phpstan: Vec<String>,
    phpunit: Vec<String>,
    rector: Vec<String>,
)
    requires
        call_ensures(yarn_args, (user,), yarn),
        call_ensures(phpstan_args, (user,), phpstan),
        call_ensures(phpunit_args, (user,), phpunit),
        call_ensures(rector_args, (user,), rector),
    ensures
        views(yarn@) == seq!["compose"@, "exec"@, "vue"@, "yarn"@] + views(user@),
        views(phpstan@) == seq![
            "compose"@,
            "exec"@,
            "php"@,
            "php"@,
            "-d"@,
            "opcache.enable_cli=0"@,
            "-d"@,
            "memory_limit=-1"@,
            "tools/phpstan/vendor/bin/phpstan"@,
            "analyse"@,
            "-c"@,
            "./tools/phpstan/phpstan.neon"@,
        ] + views(user@),
        views(phpunit@) == seq![
            "compose"@,
            "exec"@,
            "php"@,
            "php"@,
            "-d"@,
            "opcache.enable_cli=0"@,
            "-d"@,
            "memory_limit=-1"@,
            "-d"@,
            "pcov.enabled=1"@,
            "-d"@,
            "xdebug.mode=debug,develop,trace"@,
            "-d"@,
            "xdebug.client_port=9003"@,
            "-d"@,
            "xdebug.client_host=172.17.0.1"@,
            "bin/phpunit"@,
            "--colors=always"@,
        ] + views(user@),
        views(rector@) == seq![
            "compose"@,
            "exec"@,
            "php"@,
            "php"@,
            "-d"@,
            "opcache.enable_cli=0"@,
            "-d"@,
            "memory_limit=-1"@,
            "tools/rector/vendor/bin/rector"@,
        ] + views(user@),
{
    let given = views(user@);
    lemma_php_line(
        no_limit(),
        seq![
            "tools/phpstan/vendor/bin/phpstan"@,
            "analyse"@,
            "-c"@,
            "./tools/phpstan/phpstan.neon"@,
        ] + given,
    );
    lemma_php_line(no_limit(), seq!["tools/rector/vendor/bin/rector"@] + given);
    let defines = phpunit_defines();
    lemma_define_flags(defines, 0);
    lemma_define_flags(defines, 1);
    lemma_define_flags(defines, 2);
    lemma_define_flags(defines, 3);
    lemma_define_flags(defines, 4);
    lemma_define_flags(defines, 5);
    assert(views(phpstan@) =~= seq![
        "compose"@,
        "exec"@,
        "php"@,
        "php"@,
        "-d"@,
        "opcache.enable_cli=0"@,
        "-d"@,
        "memory_limit=-1"@,
        "tools/phpstan/vendor/bin/phpstan"@,
        "analyse"@,
        "-c"@,
        "./tools/phpstan/phpstan.neon"@,
    ] + given);
    assert(views(phpunit@) =~= seq![
        "compose"@,
        "exec"@,
        "php"@,
        "php"@,
        "-d"@,
        "opcache.enable_cli=0"@,
        "-d"@,
        "memory_limit=-1"@,
        "-d"@,
        "pcov.enabled=1"@,
        "-d"@,
        "xdebug.mode=debug,develop,trace"@,
        "-d"@,
        "xdebug.client_port=9003"@,
        "-d"@,
        "xdebug.client_host=172.17.0.1"@,
        "bin/phpunit"@,
        "--colors=always"@,
    ] + given);
    assert(views(rector@) =~= seq![
        "compose"@,
        "exec"@,
        "php"@,
        "php"@,
        "-d"@,
        "opcache.enable_cli=0"@,
        "-d"@,
        "memory_limit=-1"@,
        "tools/rector/vendor/bin/rector"@,
    ] + given);
}

/// The fixer fixes, and PHPMD looks through the sources with all its rules, but for what the
/// baseline and the excluded paths hold.
pub proof fn law_fixed_tools_run_in_php(csf: Vec<String>, phpmd: Vec<String>)
    requires
        call_ensures(csf_args, (), csf),
        call_ensures(phpmd_args, (), phpmd),
    ensures
        views(csf@) == seq![
            "compose"@,
            "exec"@,
            "php"@,
            "php"@,
            "-d"@,
            "opcache.enable_cli=0"@,
            "tools/php-cs-fixer/vendor/bin/php-cs-fixer"@,
            "fix"@,
        ],
        views(phpmd@) == seq![
            "compose"@,
            "exec"@,
            "php"@,
            "php"@,
            "-d"@,
            "opcache.enable_cli=0"@,
            "-d"@,
            "memory_limit=-1"@,
            "tools/phpmd/vendor/bin/phpmd"@,
            "src/"@,
            "text"@,
            "cleancode,codesize,controversial,design,naming,unusedcode"@,
            "--exclude"@,
            "tests/*,vendor/*,src/enum/*"@,
            "--baseline-file"@,
            "phpmd.baseline.xml"@,
        ],
{
    lemma_php_line(
        no_cache(),
        seq!["tools/php-cs-fixer/vendor/bin/php-cs-fixer"@, "fix"@],
    );
    lemma_php_line(no_limit(), phpmd_command());
    assert(views(csf@) =~= seq![
        "compose"@,
        "exec"@,
        "php"@,
        "php"@,
        "-d"@,
        "opcache.enable_cli=0"@,
        "tools/php-cs-fixer/vendor/bin/php-cs-fixer"@,
        "fix"@,
    ]);
    assert(views(phpmd@) =~= seq![
        "compose"@,
        "exec"@,
        "php"@,
        "php"@,
        "-d"@,
        "opcache.enable_cli=0"@,
        "-d"@,
        "memory_limit=-1"@,
        "tools/phpmd/vendor/bin/phpmd"@,
        "src/"@,
        "text"@,
        "cleancode,codesize,controversial,design,naming,unusedcode"@,
        "--exclude"@,
        "tests/*,vendor/*,src/enum/*"@,
        "--baseline-file"@,
        "phpmd.baseline.xml"@,
    ]);
}

/// A path below `app/` is taken there in the container, and a path below the current directory
/// there; any other stays.
pub proof fn law_paths_are_those_of_the_container(path: &str, r: String, rest: Seq<char>)
    requires
        call_ensures(normalize_php_path, (path,), r),
    ensures
        path@ == "app/"@ + rest ==> r@ == rest,
        path@ == "./"@ + rest ==> r@ == rest,
        !has_prefix(path@, "app/"@) && !has_prefix(path@, "./"@) ==> r@ == path@,
{
    reveal_strlit("app/");
    reveal_strlit("./");
    assert("app/"@.len() == 4 && "./"@.len() == 2);
    assert("app/"@[0] == 'a' && "./"@[0] == '.');
    if path@ == "app/"@ + rest {
        assert(path@.take(4) =~= "app/"@);
        assert(path@.skip(4) =~= rest);
    }
    if path@ == "./"@ + rest {
        assert(path@[0] == '.');
        assert(path@.take(2) =~= "./"@);
        assert(path@.skip(2) =~= rest);
        if has_prefix(path@, "app/"@) {
            assert(path@.take(4)[0] == path@[0]);
        }
    }
}

/// The web server's user is named directly behind the first `exec`; everything else stays as it
/// is, and without an `exec` all does.
pub proof fn law_www_data_stands_behind_exec(
    args: &mut Vec<String>,
    before: Seq<Seq<char>>,
    after: Seq<Seq<char>>,
)
    requires
        call_ensures(insert_www_data, (args,), ()),
        !before.contains("exec"@),
    ensures
        views(old(args)@) == before + seq!["exec"@] + after ==> views(final(args)@) == before
            + seq!["exec"@, "-u"@, "www-data"@] + after,
        views(old(args)@) == before ==> views(final(args)@) == before,
{
    let all = before + seq!["exec"@] + after;
    let n = before.len() as int;
    assert forall|i: int| 0 <= i < n implies #[trigger] all[i] != "exec"@ by {
        assert(all[i] == before[i]);
        assert(before.contains(before[i]));
    }
    assert(all[n] == "exec"@);
    lemma_position(all, "exec"@, n);
    assert(with_www_data(all) =~= before + seq!["exec"@, "-u"@, "www-data"@] + after);
    assert forall|i: int| 0 <= i < n implies #[trigger] before[i] != "exec"@ by {
        assert(before.contains(before[i]));
    }
    lemma_position(before, "exec"@, n);
}

proof fn lemma_console_ends(project: Project, user: Seq<Seq<char>>, i: int)
    requires
        0 <= i < user.len(),
    ensures
        ({
            let line = console_line(project.dev, user);
            let n = if project.dev {
                9int
            } else {
                11int
            };
            &&& line.len() == n + user.len()
            &&& line[n - 1] == "bin/console"@
            &&& line[n + i] == user[i]
        }),
{
}

/// A database is made anew by the console in the project's environment: it is dropped where it is
/// there, made, migrated and filled, in this order and without questions.
pub proof fn law_databases_are_made_anew(project: &Project, r: Vec<Invocation>)
    requires
        call_ensures(reset_database, (project,), r),
    ensures
        r@.len() == 4,
        forall|i: int|
            0 <= i < 4 ==> (#[trigger] r@[i]).program@ == "docker"@ && r@[i].dir@ == project.root@
                && r@[i]@.args.contains("--env="@ + project.app_env@) && r@[i]@.args.contains(
                "--no-interaction"@,
            ),
        r@[0]@.args.contains("d:d:d"@) && r@[0]@.args.contains("--force"@) && r@[0]@.args.contains(
            "--if-exists"@,
        ),
        r@[1]@.args.contains("d:d:c"@),
        r@[2]@.args.contains("d:m:m"@),
        r@[3]@.args.contains("d:f:l"@),
        forall|i: int|
            0 <= i < 4 && !project.dev ==> (#[trigger] r@[i])@.args[2] == "-u"@ && r@[i]@.args[3]
                == "www-data"@,
{
    let all = runs(r@);
    let env = "--env="@ + project.app_env@;
    let commands = reset_commands(project.app_env@);
    assert(all == reset_runs(*project));
    assert(all.len() == 4);
    assert(all[0] == r@[0]@ && all[1] == r@[1]@ && all[2] == r@[2]@ && all[3] == r@[3]@);
    law_fixtures_run_on_the_console(*project);
    let n = if project.dev {
        9int
    } else {
        11int
    };
    lemma_console_ends(*project, commands[0], 0);
    lemma_console_ends(*project, commands[0], 1);
    lemma_console_ends(*project, commands[0], 2);
    lemma_console_ends(*project, commands[0], 3);
    lemma_console_ends(*project, commands[0], 4);
    lemma_console_ends(*project, commands[1], 0);
    lemma_console_ends(*project, commands[1], 1);
    lemma_console_ends(*project, commands[1], 2);
    lemma_console_ends(*project, commands[2], 0);
    lemma_console_ends(*project, commands[2], 1);
    lemma_console_ends(*project, commands[2], 2);
    let fixtures = fixtures_command(project.app_env@);
    lemma_console_ends(*project, fixtures, 0);
    lemma_console_ends(*project, fixtures, 1);
    lemma_console_ends(*project, fixtures, 2);
    assert(all[0].args[n] == env && all[0].args[n + 1] == "d:d:d"@ && all[0].args[n + 2]
        == "--force"@ && all[0].args[n + 3] == "--if-exists"@ && all[0].args[n + 4]
        == "--no-interaction"@);
    assert(all[1].args[n] == env && all[1].args[n + 1] == "d:d:c"@ && all[1].args[n + 2]
        == "--no-interaction"@);
    assert(all[2].args[n] == env && all[2].args[n + 1] == "d:m:m"@ && all[2].args[n + 2]
        == "--no-interaction"@);
    assert(all[3].args[n] == "d:f:l"@ && all[3].args[n + 1] == env && all[3].args[n + 2]
        == "--no-interaction"@);
    assert forall|i: int| 0 <= i < 4 implies (#[trigger] r@[i]).program@ == "docker"@ && r@[i].dir@
        == project.root@ && r@[i]@.args.contains(env) && r@[i]@.args.contains(
        "--no-interaction"@,
    ) by {
        assert(i == 0 || i == 1 || i == 2 || i == 3);
        assert(r@[i]@ == all[i]);
    }
    assert forall|i: int| 0 <= i < 4 && !project.dev implies (#[trigger] r@[i])@.args[2] == "-u"@
        && r@[i]@.args[3] == "www-data"@ by {
        assert(i == 0 || i == 1 || i == 2 || i == 3);
        assert(r@[i]@ == all[i]);
    }
}

/// The database that is dropped is the one that the postgres service first names in its
/// environment; the test environment has one of its own.
pub proof fn law_the_named_database_is_dropped(
    project: &Project,
    env: &Output,
    r: Result<Drop, PhpError>,
    i: int,
    name: Seq<char>,
)
    requires
        call_ensures(force_drop_database, (project, env), r),
    ensures
        env.code matches Some(code) ==> (code != 0 ==> r == Ok::<Drop, PhpError>(Drop::Stop(code))),
        env.code is None ==> r == Ok::<Drop, PhpError>(Drop::Stop(1)),
        env.code == Some(0i32) && (forall|j: int|
            0 <= j < lines_of(env.stdout@).len() ==> !has_prefix(
                #[trigger] lines_of(env.stdout@)[j],
                "POSTGRES_DB="@,
            )) ==> (r matches Err(error) && error.says()
            == "POSTGRES_DB is not set in the postgres service"@),
        env.code == Some(0i32) && 0 <= i < lines_of(env.stdout@).len() && lines_of(env.stdout@)[i]
            == "POSTGRES_DB="@ + name && (forall|j: int|
            0 <= j < i ==> !has_prefix(#[trigger] lines_of(env.stdout@)[j], "POSTGRES_DB="@)) ==> (
        r matches Ok(Drop::Run(run)) && run.program@ == "docker"@ && run.dir@ == project.root@ && run@.args == seq![
            "compose"@,
            "exec"@,
            "postgres"@,
            "dropdb"@,
            "-f"@,
            if project.app_env@ == "test"@ {
                trimmed(name) + "_1"@
            } else {
                trimmed(name)
            },
        ]),
{
    reveal_strlit("POSTGRES_DB=");
    assert("POSTGRES_DB="@.len() == 12);
    let all = lines_of(env.stdout@);
    let found = database_lines(all);
    if forall|j: int| 0 <= j < all.len() ==> !has_prefix(#[trigger] all[j], "POSTGRES_DB="@) {
        assert forall|j: int| 0 <= j < found.len() implies (#[trigger] found[j]) is None by {
            assert(!has_prefix(all[j], "POSTGRES_DB="@));
        }
        lemma_first_some(found, found.len() as int);
    }
    if 0 <= i < all.len() && all[i] == "POSTGRES_DB="@ + name && (forall|j: int|
        0 <= j < i ==> !has_prefix(#[trigger] all[j], "POSTGRES_DB="@)) {
        assert(all[i].take(12) =~= "POSTGRES_DB="@);
        assert(all[i].skip(12) =~= name);
        assert(found[i] == Some(name));
        assert forall|j: int| 0 <= j < i implies (#[trigger] found[j]) is None by {
            assert(!has_prefix(all[j], "POSTGRES_DB="@));
        }
        lemma_first_some(found, i);
        assert(trimmed(name) + seq![] =~= trimmed(name));
    }
}

/// An installation takes the services down, installs the dependencies, brings the services up and
/// gives them two seconds, clears the caches, stops the workers and makes the database anew.
pub proof fn law_installations_end_with_the_database(project: &Project, r: Vec<InstallStep>)
    requires
        call_ensures(installer, (project,), r),
    ensures
        r@.len() == 8,
        r@[0] matches InstallStep::Run(run) && run@.args == seq!["compose"@, "kill"@],
        r@[1] matches InstallStep::Run(run) && run@.args == seq!["compose"@, "down"@],
        r@[2] matches InstallStep::Run(run) && run@.args.len() > 7 && run@.args[7]
            == "/usr/local/bin/composer"@ && run@.args.last() == "install"@,
        r@[3] matches InstallStep::Run(run) && run@.args == seq!["compose"@, "up"@, "-d"@],
        r@[4] matches InstallStep::Wait { seconds } && seconds == 2,
        r@[5] is ClearCache,
        r@[6] matches InstallStep::Run(run) && run@.args.last() == "messenger:stop-workers"@
            && run@.args.contains("bin/console"@),
        r@[7] is ResetDatabase,
{
    let all = r@.map_values(|step: InstallStep| step@);
    assert(all == install_steps(*project));
    assert(all.len() == 8);
    assert(all[0] == r@[0]@ && all[1] == r@[1]@ && all[2] == r@[2]@ && all[3] == r@[3]@);
    assert(all[4] == r@[4]@ && all[5] == r@[5]@ && all[6] == r@[6]@ && all[7] == r@[7]@);
    lemma_console_ends(*project, seq!["messenger:stop-workers"@], 0);
    let line = console_line(project.dev, seq!["messenger:stop-workers"@]);
    assert(line[if project.dev {
        8int
    } else {
        10int
    }] == "bin/console"@);
}

/// A run of a tool is one of docker with the tool's arguments in the root of the project.
pub proof fn law_tools_run_in_the_project(
    project: &Project,
    user: &[String],
    tool: Invocation,
    console: Invocation,
    composer: Invocation,
    fixtures: Invocation,
    env: Invocation,
    console_list: Vec<String>,
    composer_list: Vec<String>,
    code: i32,
    dropped: i32,
)
    requires
        call_ensures(run_tool, (project, user), tool),
        call_ensures(run_console, (project, user), console),
        call_ensures(run_composer, (project, user), composer),
        call_ensures(run_fixtures, (project,), fixtures),
        call_ensures(postgres_env, (project,), env),
        call_ensures(console_args, (project.dev, user), console_list),
        call_ensures(composer_args, (user,), composer_list),
        call_ensures(after_drop, (code,), dropped),
    ensures
        tool.program@ == "docker"@ && console.program@ == "docker"@ && composer.program@
            == "docker"@ && fixtures.program@ == "docker"@ && env.program@ == "docker"@,
        tool.dir@ == project.root@ && console.dir@ == project.root@ && composer.dir@
            == project.root@ && fixtures.dir@ == project.root@ && env.dir@ == project.root@,
        tool@.args == views(user@),
        console@.args == views(console_list@),
        composer@.args == views(composer_list@),
        env@.args == seq!["compose"@, "exec"@, "postgres"@, "env"@],
        dropped == 0,
{
}

/// Fixtures are loaded by the console in the project's environment, without questions and without
/// debugging.
pub proof fn law_fixtures_are_loaded_by_the_console(
    project: &Project,
    words: &[String],
    r: Invocation,
    list: Vec<String>,
)
    requires
        call_ensures(run_fixtures, (project,), r),
        views(words@) == seq![
            "d:f:l"@,
            "--env="@ + project.app_env@,
            "--no-interaction"@,
            "--no-debug"@,
        ],
        call_ensures(console_args, (project.dev, words), list),
    ensures
        r@.args == views(list@),
{
    law_fixtures_run_on_the_console(*project);
}

/// Errors name the option or the setting that is missing.
pub proof fn law_php_errors_name_what_is_missing(error: &PhpError, r: String)
    requires
        call_ensures(PhpError::message, (error,), r),
    ensures
        error matches PhpError::MissingArgument(option) ==> r@ == "phan: missing argument for "@
            + option@,
        error is NoDatabase ==> r@ == "POSTGRES_DB is not set in the postgres service"@,
{
}

} // verus!
