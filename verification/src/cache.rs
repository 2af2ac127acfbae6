//! Clearing the caches of a project, in phases that run beside one another.

use crate::command::{Invocation, InvocationView};
use crate::compose::{docker_in, run_status};
use crate::number::{signed, to_signed};
use crate::php::{as_www_data, console_line, env_arg, env_option, run_console, runs};
use crate::project::Project;
use crate::text::{extend, listed, view_opt, views};
use vstd::prelude::*;

verus! {

/// How often a phase is tried.
pub const ATTEMPTS: u32 = 3;

/// A part of clearing the caches.
#[derive(Debug, Clone, Copy, PartialEq, Eq, Structural)]
pub enum Phase {
    Cache,
    Redis,
    Runtime,
}

/// The phases for a project with the given services.
pub fn phases_for(service_names: &[String]) -> (r: Vec<Phase>)
    ensures
        r@ == if views(service_names@).contains("redis"@) {
            seq![Phase::Cache, Phase::Redis, Phase::Runtime]
        } else {
            seq![Phase::Cache, Phase::Runtime]
        },
{
    let mut phases = vec![Phase::Cache];
    if listed(service_names, "redis") {
        phases.push(Phase::Redis);
    }
    phases.push(Phase::Runtime);
    phases
}

/// Whether the project has workers to stop.
pub fn has_workers(service_names: &[String]) -> (r: bool)
    ensures
        r == views(service_names@).contains("messenger_workers"@),
{
    listed(service_names, "messenger_workers")
}

/// The name of a phase.
pub open spec fn label_of(phase: Phase) -> Seq<char> {
    match phase {
        Phase::Cache => "cache"@,
        Phase::Redis => "redis"@,
        Phase::Runtime => "runtime"@,
    }
}

/// The name of a phase.
pub fn phase_label(phase: Phase) -> (r: &'static str)
    ensures
        r@ == label_of(phase),
{
    match phase {
        Phase::Cache => "cache",
        Phase::Redis => "redis",
        Phase::Runtime => "runtime",
    }
}

/// What is shown when a phase has ended, with its error where it failed.
pub fn phase_message(phase: Phase, error: Option<String>) -> (r: String)
    ensures
        r@ == label_of(phase) + (match view_opt(error) {
            None => " done"@,
            Some(text) => " failed: "@ + text,
        }),
{
    let mut out = phase_label(phase).to_string();
    match error {
        None => {
            out.append(" done");
        },
        Some(text) => {
            let ghost start = out@;
            out.append(" failed: ");
            out.append(text.as_str());
            assert(out@ =~= start + (" failed: "@ + text@));
        },
    }
    out
}

// Trying again.

/// Whether an attempt at some work can fail.
pub open spec fn can_fail<E, F: Fn(u32) -> Result<(), E>>(work: F, attempt: u32) -> bool {
    exists|error: E| #[trigger] work.ensures((attempt,), Err::<(), E>(error))
}

/// Whether attempts at some work end with a result: the last one gave it, those before failed,
/// and only the last that is allowed may fail.
pub open spec fn ends<E, F: Fn(u32) -> Result<(), E>>(
    work: F,
    made: u32,
    r: Result<(), E>,
) -> bool {
    &&& 1 <= made <= ATTEMPTS
    &&& work.ensures((made,), r)
    &&& forall|n: u32| 1 <= n < made ==> #[trigger] can_fail(work, n)
    &&& r is Err ==> made == ATTEMPTS
}

/// Tries some work up to three times, and ends with the first success or the last error. The
/// work is told which attempt it is.
pub fn retry<E, F: Fn(u32) -> Result<(), E>>(work: F) -> (r: Result<(), E>)
    requires
        forall|n: u32| 1 <= n <= ATTEMPTS ==> #[trigger] work.requires((n,)),
    ensures
        exists|made: u32| #[trigger] ends(work, made, r),
{
    let mut made: u32 = 1;
    loop
        invariant
            1 <= made <= ATTEMPTS,
            forall|n: u32| 1 <= n <= ATTEMPTS ==> #[trigger] work.requires((n,)),
            forall|n: u32| 1 <= n < made ==> #[trigger] can_fail(work, n),
        decreases ATTEMPTS - made,
    {
        let r = work(made);
        if r.is_ok() || made == ATTEMPTS {
            assert(ends(work, made, r));
            return r;
        }
        assert(can_fail(work, made)) by {
            if let Err(error) = r {
                assert(work.ensures((made,), Err::<(), E>(error)));
            }
        }
        made += 1;
    }
}

// What each phase runs.

/// The docker arguments that run a command in the PHP service.
pub open spec fn in_php(dev: bool, command: Seq<Seq<char>>) -> Seq<Seq<char>> {
    seq!["compose"@, "exec"@] + (if dev {
        seq![]
    } else {
        as_www_data()
    }) + seq!["php"@] + command
}

/// A command of the console with little memory.
pub open spec fn small_console(user: Seq<Seq<char>>) -> Seq<Seq<char>> {
    seq![
        "php"@,
        "-d"@,
        "opcache.enable_cli=0"@,
        "-d"@,
        "memory_limit=256M"@,
        "bin/console"@,
    ] + user
}

fn run_small_console(project: &Project, user: &[String]) -> (r: Invocation)
    ensures
        r@ == docker_in(*project, in_php(project.dev, small_console(views(user@)))),
{
    let mut args = vec!["compose".to_string(), "exec".to_string()];
    if !project.dev {
        args.push("-u".to_string());
        args.push("www-data".to_string());
    }
    args.push("php".to_string());
    args.push("php".to_string());
    args.push("-d".to_string());
    args.push("opcache.enable_cli=0".to_string());
    args.push("-d".to_string());
    args.push("memory_limit=256M".to_string());
    args.push("bin/console".to_string());
    assert(views(args@) + views(user@) =~= in_php(project.dev, small_console(views(user@))));
    extend(&mut args, user);
    run_status(project, args.as_slice())
}

/// The run of a console command in the project's environment.
pub open spec fn clear_run(project: Project, command: Seq<char>) -> InvocationView {
    docker_in(project, console_line(project.dev, seq![command, env_option(project.app_env@)]))
}

/// What a phase runs, in order.
pub open spec fn phase_runs(project: Project, phase: Phase, messenger: bool) -> Seq<
    InvocationView,
> {
    match phase {
        Phase::Cache => seq![
            docker_in(
                project,
                seq!["compose"@, "exec"@, "php"@, "rm"@, "-Rf"@, "var/cache"@],
            ),
            clear_run(project, "doctrine:cache:clear-metadata"@),
            clear_run(project, "doctrine:cache:clear-query"@),
            clear_run(project, "doctrine:cache:clear-result"@),
            docker_in(
                project,
                in_php(
                    project.dev,
                    small_console(seq!["cache:clear"@, env_option(project.app_env@)]),
                ),
            ),
        ],
        Phase::Redis => seq![
            docker_in(
                project,
                seq!["compose"@, "exec"@, "redis"@, "redis-cli"@, "FLUSHALL"@],
            ),
        ],
        Phase::Runtime => seq![
            docker_in(project, seq!["compose"@, "exec"@, "php"@, "kill"@, "-USR2"@, "1"@]),
        ] + if messenger {
            seq![
                docker_in(
                    project,
                    in_php(project.dev, small_console(seq!["messenger:stop-worker"@])),
                ),
            ]
        } else {
            seq![]
        },
    }
}

fn run_clear(project: &Project, command: &str) -> (r: Invocation)
    ensures
        r@ == clear_run(*project, command@),
{
    let user = vec![command.to_string(), env_arg(project.app_env.as_str())];
    assert(views(user@) =~= seq![command@, env_option(project.app_env@)]);
    run_console(project, user.as_slice())
}

fn cache_phase(project: &Project) -> (r: Vec<Invocation>)
    ensures
        runs(r@) == phase_runs(*project, Phase::Cache, false),
{
    let remove = vec![
        "compose".to_string(),
        "exec".to_string(),
        "php".to_string(),
        "rm".to_string(),
        "-Rf".to_string(),
        "var/cache".to_string(),
    ];
    let clear = vec!["cache:clear".to_string(), env_arg(project.app_env.as_str())];
    assert(views(remove@) =~= seq!["compose"@, "exec"@, "php"@, "rm"@, "-Rf"@, "var/cache"@]);
    assert(views(clear@) =~= seq!["cache:clear"@, env_option(project.app_env@)]);
    let out = vec![
        run_status(project, remove.as_slice()),
        run_clear(project, "doctrine:cache:clear-metadata"),
        run_clear(project, "doctrine:cache:clear-query"),
        run_clear(project, "doctrine:cache:clear-result"),
        run_small_console(project, clear.as_slice()),
    ];
    assert(runs(out@) =~= phase_runs(*project, Phase::Cache, false));
    out
}

fn redis_phase(project: &Project) -> (r: Vec<Invocation>)
    ensures
        runs(r@) == phase_runs(*project, Phase::Redis, false),
{
    let flush = vec![
        "compose".to_string(),
        "exec".to_string(),
        "redis".to_string(),
        "redis-cli".to_string(),
        "FLUSHALL".to_string(),
    ];
    assert(views(flush@) =~= seq!["compose"@, "exec"@, "redis"@, "redis-cli"@, "FLUSHALL"@]);
    let out = vec![run_status(project, flush.as_slice())];
    assert(runs(out@) =~= phase_runs(*project, Phase::Redis, false));
    out
}

fn runtime_phase(project: &Project, messenger: bool) -> (r: Vec<Invocation>)
    ensures
        runs(r@) == phase_runs(*project, Phase::Runtime, messenger),
{
    let reload = vec![
        "compose".to_string(),
        "exec".to_string(),
        "php".to_string(),
        "kill".to_string(),
        "-USR2".to_string(),
        "1".to_string(),
    ];
    assert(views(reload@) =~= seq!["compose"@, "exec"@, "php"@, "kill"@, "-USR2"@, "1"@]);
    let mut out = vec![run_status(project, reload.as_slice())];
    if messenger {
        let stop = vec!["messenger:stop-worker".to_string()];
        assert(views(stop@) =~= seq!["messenger:stop-worker"@]);
        out.push(run_small_console(project, stop.as_slice()));
    }
    assert(runs(out@) =~= phase_runs(*project, Phase::Runtime, messenger));
    out
}

/// The script of a phase.
pub fn run_phase(project: &Project, phase: Phase, messenger: bool) -> (r: Vec<Invocation>)
    ensures
        runs(r@) == phase_runs(*project, phase, messenger),
{
    match phase {
        Phase::Cache => cache_phase(project),
        Phase::Redis => redis_phase(project),
        Phase::Runtime => runtime_phase(project, messenger),
    }
}

/// Every run of a phase is a run of docker in the root of the project that goes to a service.
/// Outside development the console of a phase runs as the web server's user, who is named directly
/// behind `exec`; in development no other user is named.
pub proof fn law_console_runs_as_www_data(
    project: &Project,
    phase: Phase,
    messenger: bool,
    r: Vec<Invocation>,
    i: int,
)
    requires
        call_ensures(run_phase, (project, phase, messenger), r),
        0 <= i < r@.len(),
    ensures
        r@[i]@.program == "docker"@,
        r@[i]@.dir == project.root@,
        r@[i]@.args.len() > 3,
        r@[i]@.args[0] == "compose"@,
        r@[i]@.args[1] == "exec"@,
        r@[i]@.args.contains("bin/console"@) ==> if project.dev {
            &&& r@[i]@.args[2] == "php"@
            &&& !r@[i]@.args.contains("-u"@)
            &&& !r@[i]@.args.contains("www-data"@)
        } else {
            &&& r@[i]@.args[2] == "-u"@
            &&& r@[i]@.args[3] == "www-data"@
            &&& r@[i]@.args[4] == "php"@
        },
{
    let all = runs(r@);
    assert(all == phase_runs(*project, phase, messenger));
    assert(all[i] == r@[i]@);
    reveal_strlit("compose");
    reveal_strlit("exec");
    reveal_strlit("php");
    reveal_strlit("rm");
    reveal_strlit("-Rf");
    reveal_strlit("var/cache");
    reveal_strlit("redis");
    reveal_strlit("redis-cli");
    reveal_strlit("FLUSHALL");
    reveal_strlit("kill");
    reveal_strlit("-USR2");
    reveal_strlit("1");
    reveal_strlit("-u");
    reveal_strlit("www-data");
    reveal_strlit("-d");
    reveal_strlit("opcache.enable_cli=0");
    reveal_strlit("memory_limit=256M");
    reveal_strlit("memory_limit=8G");
    reveal_strlit("bin/console");
    reveal_strlit("cache:clear");
    reveal_strlit("messenger:stop-worker");
    reveal_strlit("doctrine:cache:clear-metadata");
    reveal_strlit("doctrine:cache:clear-query");
    reveal_strlit("doctrine:cache:clear-result");
    reveal_strlit("--env=");
    assert(env_option(project.app_env@)[0] == '-' && env_option(project.app_env@)[1] == '-');
    assert("-u"@[1] == 'u' && "-d"@[1] == 'd' && "www-data"@[0] == 'w');
    let args = r@[i]@.args;
    let console = match phase {
        Phase::Cache => i > 0,
        Phase::Redis => false,
        Phase::Runtime => i > 0,
    };
    if console {
        let user = args.skip(if project.dev {
            9
        } else {
            11
        });
        assert(user.len() <= 2);
        if project.dev {
            assert(args =~= seq![
                "compose"@,
                "exec"@,
                "php"@,
                "php"@,
                "-d"@,
                "opcache.enable_cli=0"@,
                "-d"@,
                args[7],
                "bin/console"@,
            ] + user);
            assert forall|k: int| 0 <= k < args.len() implies #[trigger] args[k] != "-u"@
                && args[k] != "www-data"@ by {
                assert(k == 0 || k == 1 || k == 2 || k == 3 || k == 4 || k == 5 || k == 6 || k == 7
                    || k == 8 || args[k] == user[k - 9]);
                if k == 10 {
                    assert(args[k] == user[1]);
                }
            }
        }
    } else {
        assert(args =~= match phase {
            Phase::Cache => seq!["compose"@, "exec"@, "php"@, "rm"@, "-Rf"@, "var/cache"@],
            Phase::Redis => seq!["compose"@, "exec"@, "redis"@, "redis-cli"@, "FLUSHALL"@],
            Phase::Runtime => seq!["compose"@, "exec"@, "php"@, "kill"@, "-USR2"@, "1"@],
        });
        assert forall|k: int| 0 <= k < args.len() implies #[trigger] args[k] != "bin/console"@ by {
            assert(args.len() <= 6);
            assert("compose"@.len() == 7);
            assert("exec"@.len() == 4);
            assert("php"@.len() == 3);
            assert("rm"@.len() == 2);
            assert("-Rf"@.len() == 3);
            assert("var/cache"@.len() == 9);
            assert("redis"@.len() == 5);
            assert("redis-cli"@.len() == 9);
            assert("FLUSHALL"@.len() == 8);
            assert("kill"@.len() == 4);
            assert("-USR2"@.len() == 5);
            assert("1"@.len() == 1);
            assert("bin/console"@.len() == 11);
            assert(k == 0 || k == 1 || k == 2 || k == 3 || k == 4 || k == 5);
        }
    }
}

/// The error of a phase whose script ended with a code, where it failed.
pub fn status_ok(code: i32) -> (r: Result<(), String>)
    ensures
        match r {
            Ok(_) => code == 0,
            Err(text) => code != 0 && text@ == "command exited "@ + signed(code as int),
        },
{
    if code == 0 {
        return Ok(());
    }
    let mut text = "command exited ".to_string();
    text.append(to_signed(code as i64).as_str());
    Err(text)
}

/// The first error in the order of the phases, or none.
pub open spec fn first_error(results: Seq<Result<(), String>>) -> Option<Seq<char>>
    decreases results.len(),
{
    if results.len() == 0 {
        None
    } else {
        match results[0] {
            Err(text) => Some(text@),
            Ok(_) => first_error(results.skip(1)),
        }
    }
}

/// What clearing the caches comes to, from what each phase came to.
pub fn clear(results: &[Result<(), String>]) -> (r: Result<i32, String>)
    ensures
        match first_error(results@) {
            None => r == Ok::<i32, String>(0),
            Some(text) => r matches Err(error) && error@ == text,
        },
{
    let n: usize = results.len();
    assert(results@.skip(0) =~= results@);
    for i in 0..n
        invariant
            n == results@.len(),
            first_error(results@) == first_error(results@.skip(i as int)),
    {
        assert(results@.skip(i as int)[0] == results@[i as int]);
        if let Err(text) = &results[i] {
            return Err(text.clone());
        }
        assert(results@.skip(i as int).skip(1) =~= results@.skip(i + 1));
    }
    Ok(0)
}

// Phases in writing.

/// Caches and the runtime are always cleared, redis only where the project has it; workers are
/// stopped where the project has them.
pub proof fn law_phases_follow_the_services(
    names: &[String],
    phases: Vec<Phase>,
    workers: bool,
)
    requires
        call_ensures(phases_for, (names,), phases),
        call_ensures(has_workers, (names,), workers),
    ensures
        phases@.len() == if views(names@).contains("redis"@) {
            3int
        } else {
            2int
        },
        phases@[0] == Phase::Cache,
        phases@.last() == Phase::Runtime,
        phases@.contains(Phase::Redis) <==> views(names@).contains("redis"@),
        workers <==> views(names@).contains("messenger_workers"@),
{
    if views(names@).contains("redis"@) {
        assert(phases@[1] == Phase::Redis);
    }
}

/// The cache phase removes the cache and then clears the metadata, the queries, the results and
/// the cache itself, each in the project's environment; the redis phase flushes all of redis; the
/// runtime phase reloads the first process of the service, and then stops the workers where there
/// are any.
pub proof fn law_phases_clear_in_order(
    project: &Project,
    phase: Phase,
    messenger: bool,
    r: Vec<Invocation>,
)
    requires
        call_ensures(run_phase, (project, phase, messenger), r),
    ensures
        phase == Phase::Cache ==> {
            let n: int = if project.dev {
                9
            } else {
                11
            };
            &&& r@.len() == 5
            &&& r@[0]@.args == seq!["compose"@, "exec"@, "php"@, "rm"@, "-Rf"@, "var/cache"@]
            &&& r@[1]@.args[n] == "doctrine:cache:clear-metadata"@
            &&& r@[2]@.args[n] == "doctrine:cache:clear-query"@
            &&& r@[3]@.args[n] == "doctrine:cache:clear-result"@
            &&& r@[4]@.args[n] == "cache:clear"@
            &&& forall|i: int|
                1 <= i < 5 ==> (#[trigger] r@[i])@.args.len() == n + 2 && r@[i]@.args[n - 1]
                    == "bin/console"@ && r@[i]@.args[n + 1] == "--env="@ + project.app_env@
                    && r@[i]@.args[n - 2] == if i == 4 {
                    "memory_limit=256M"@
                } else {
                    "memory_limit=8G"@
                }
        },
        phase == Phase::Redis ==> {
            &&& r@.len() == 1
            &&& r@[0]@.args == seq!["compose"@, "exec"@, "redis"@, "redis-cli"@, "FLUSHALL"@]
        },
        phase == Phase::Runtime ==> {
            &&& r@.len() == if messenger {
                2int
            } else {
                1int
            }
            &&& r@[0]@.args == seq!["compose"@, "exec"@, "php"@, "kill"@, "-USR2"@, "1"@]
            &&& messenger ==> r@[1]@.args.last() == "messenger:stop-worker"@
                && r@[1]@.args.contains("bin/console"@) && r@[1]@.args.contains(
                "memory_limit=256M"@,
            )
        },
{
    let all = runs(r@);
    assert(all == phase_runs(*project, phase, messenger));
    assert(all.len() == r@.len());
    assert forall|i: int| 0 <= i < r@.len() implies (#[trigger] r@[i])@ == all[i] by {}
    if phase == Phase::Cache {
        let n: int = if project.dev {
            9
        } else {
            11
        };
        assert(r@[1]@ == all[1] && r@[2]@ == all[2] && r@[3]@ == all[3] && r@[4]@ == all[4]);
        assert forall|i: int| 1 <= i < 5 implies (#[trigger] r@[i])@.args.len() == n + 2
            && r@[i]@.args[n - 1] == "bin/console"@ && r@[i]@.args[n + 1] == "--env="@
            + project.app_env@ && r@[i]@.args[n - 2] == if i == 4 {
            "memory_limit=256M"@
        } else {
            "memory_limit=8G"@
        } by {
            assert(i == 1 || i == 2 || i == 3 || i == 4);
        }
    }
    if phase == Phase::Runtime && messenger {
        assert(r@[1]@ == all[1]);
        let n: int = if project.dev {
            9
        } else {
            11
        };
        assert(all[1].args[n - 1] == "bin/console"@);
        assert(all[1].args[n - 2] == "memory_limit=256M"@);
        assert(all[1].args[n] == "messenger:stop-worker"@);
    }
}

/// Work is tried no more than three times: a failure is that of the third attempt, and a success
/// that of the first attempt that did not fail.
pub proof fn law_work_is_tried_three_times<E, F: Fn(u32) -> Result<(), E>>(
    work: F,
    r: Result<(), E>,
)
    requires
        call_ensures(retry::<E, F>, (work,), r),
    ensures
        r is Err ==> work.ensures((3u32,), r) && can_fail(work, 1) && can_fail(work, 2),
        r is Ok ==> {
            ||| work.ensures((1u32,), r)
            ||| work.ensures((2u32,), r) && can_fail(work, 1)
            ||| work.ensures((3u32,), r) && can_fail(work, 1) && can_fail(work, 2)
        },
{
    let made = choose|made: u32| #[trigger] ends(work, made, r);
    assert(made == 1 || made == 2 || made == 3);
    if made >= 2 {
        assert(can_fail(work, 1));
    }
    if made == 3 {
        assert(can_fail(work, 2));
    }
}

/// A phase is told by its name and by how it ended; clearing ends well only where all phases did,
/// and else with the error of the first that did not.
pub proof fn law_the_first_failed_phase_is_told(
    phase: Phase,
    error: Option<String>,
    message: String,
    code: i32,
    status: Result<(), String>,
    results: &[Result<(), String>],
    r: Result<i32, String>,
    i: int,
)
    requires
        call_ensures(phase_message, (phase, error), message),
        call_ensures(status_ok, (code,), status),
        call_ensures(clear, (results,), r),
        0 <= i < results@.len(),
    ensures
        ({
            let name = match phase {
                Phase::Cache => "cache"@,
                Phase::Redis => "redis"@,
                Phase::Runtime => "runtime"@,
            };
            &&& error is None ==> message@ == name + " done"@
            &&& error matches Some(text) ==> message@ == name + " failed: "@ + text@
        }),
        status is Ok <==> code == 0,
        status matches Err(text) ==> text@ == "command exited "@ + signed(code as int),
        results@[i] is Err && (forall|j: int| 0 <= j < i ==> (#[trigger] results@[j]) is Ok) ==> (
        r matches Err(text) && text@ == results@[i]->Err_0@),
        (forall|j: int| 0 <= j < results@.len() ==> (#[trigger] results@[j]) is Ok) ==> r == Ok::<
            i32,
            String,
        >(0),
{
    if let Some(text) = error {
        let name = label_of(phase);
        assert(name + (" failed: "@ + text@) =~= name + " failed: "@ + text@);
    }
    if results@[i] is Err && (forall|j: int| 0 <= j < i ==> (#[trigger] results@[j]) is Ok) {
        lemma_first_error(results@, i);
    }
    if forall|j: int| 0 <= j < results@.len() ==> (#[trigger] results@[j]) is Ok {
        lemma_no_error(results@);
    }
}

proof fn lemma_first_error(results: Seq<Result<(), String>>, i: int)
    requires
        0 <= i < results.len(),
        results[i] is Err,
        forall|j: int| 0 <= j < i ==> (#[trigger] results[j]) is Ok,
    ensures
        first_error(results) == Some(results[i]->Err_0@),
    decreases results.len(),
{
    if i > 0 {
        assert(results[0] is Ok);
        assert forall|j: int| 0 <= j < i - 1 implies (#[trigger] results.skip(1)[j]) is Ok by {
            assert(results.skip(1)[j] == results[j + 1]);
        }
        lemma_first_error(results.skip(1), i - 1);
    }
}

proof fn lemma_no_error(results: Seq<Result<(), String>>)
    requires
        forall|j: int| 0 <= j < results.len() ==> (#[trigger] results[j]) is Ok,
    ensures
        first_error(results) is None,
    decreases results.len(),
{
    if results.len() > 0 {
        assert(results[0] is Ok);
        assert forall|j: int| 0 <= j < results.skip(1).len() implies (#[trigger] results.skip(
            1,
        )[j]) is Ok by {
            assert(results.skip(1)[j] == results[j + 1]);
        }
        lemma_no_error(results.skip(1));
    }
}

/// A phase is called by what it clears.
pub proof fn law_phases_are_called_by_what_they_clear(phase: Phase, r: &'static str)
    requires
        call_ensures(phase_label, (phase,), r),
    ensures
        phase is Cache ==> r@ == "cache"@,
        phase is Redis ==> r@ == "redis"@,
        phase is Runtime ==> r@ == "runtime"@,
{
}

} // verus!
