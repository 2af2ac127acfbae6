//! Docker compose and the environment that it runs in.

use crate::build::plan::{planned, tag_of, BuildPlan};
use crate::command::{Invocation, InvocationView, Output};
use crate::number::{decimal, to_decimal};
use crate::project::Project;
use crate::text::{
    extend, filled, filled_lines, glue, if_filled, join, joined, trim, trimmed, trimmed_lines,
    view_opt, views,
};
use vstd::prelude::*;

verus! {

/// Why a compose command is not run.
#[derive(Debug, Clone, PartialEq, Eq)]
pub enum ComposeError {
    /// The services could not be listed; what docker said about that.
    NoServices(String),
    /// The images that were missing could not be built.
    BuildFailed,
    /// Images are missing and are not to be built.
    ImageMissing,
}

impl ComposeError {
    /// What the error says.
    pub open spec fn says(self) -> Seq<char> {
        match self {
            ComposeError::NoServices(detail) => "docker compose config --services failed: "@
                + detail@,
            ComposeError::BuildFailed => "build failed"@,
            ComposeError::ImageMissing => "local image is missing"@,
        }
    }

    /// What the error says.
    pub fn message(&self) -> (r: String)
        ensures
            r@ == self.says(),
    {
        match self {
            ComposeError::NoServices(detail) => glue(
                "docker compose config --services failed: ",
                detail.as_str(),
            ),
            ComposeError::BuildFailed => "build failed".to_string(),
            ComposeError::ImageMissing => "local image is missing".to_string(),
        }
    }
}

// The environment.

/// A variable of the environment and its value.
#[derive(Debug, Clone, PartialEq, Eq)]
pub struct EnvBinding {
    pub key: String,
    pub value: String,
}

/// The views of a list of bindings.
pub open spec fn bindings(list: Seq<EnvBinding>) -> Seq<(Seq<char>, Seq<char>)> {
    list.map_values(|b: EnvBinding| (b.key@, b.value@))
}

/// The binding for a variable that is missing and for which there is a value.
pub open spec fn supplied(
    key: Seq<char>,
    current: Option<Seq<char>>,
    value: Option<Seq<char>>,
) -> Seq<(Seq<char>, Seq<char>)> {
    if filled(current) is None && value is Some {
        seq![(key, value->0)]
    } else {
        seq![]
    }
}

/// What is added to the environment of docker: the user's and the group's number and the
/// user's name, each where the environment has no value of its own.
pub open spec fn injected(
    uid_var: Option<Seq<char>>,
    gid_var: Option<Seq<char>>,
    user_var: Option<Seq<char>>,
    uid: u32,
    gid: u32,
    login: Option<Seq<char>>,
) -> Seq<(Seq<char>, Seq<char>)> {
    supplied("UID"@, uid_var, Some(decimal(uid as nat))) + supplied(
        "GID"@,
        gid_var,
        Some(decimal(gid as nat)),
    ) + supplied("USER"@, user_var, login)
}

/// Whether a variable is missing: not set, or empty.
pub fn env_missing(value: &Option<String>) -> (r: bool)
    ensures
        r == (filled(view_opt(*value)) is None),
{
    match value {
        Some(text) => text.as_str().is_empty(),
        None => true,
    }
}

/// What is added to the environment of docker. `uid_var`, `gid_var` and `user_var` are the
/// values of `UID`, `GID` and `USER`; `login` is the user's name as far as it is known.
pub fn injected_env(
    uid_var: Option<String>,
    gid_var: Option<String>,
    user_var: Option<String>,
    uid: u32,
    gid: u32,
    login: Option<String>,
) -> (r: Vec<EnvBinding>)
    ensures
        bindings(r@) == injected(
            view_opt(uid_var),
            view_opt(gid_var),
            view_opt(user_var),
            uid,
            gid,
            view_opt(login),
        ),
{
    let mut out: Vec<EnvBinding> = Vec::new();
    if env_missing(&uid_var) {
        out.push(EnvBinding { key: "UID".to_string(), value: to_decimal(uid as u64) });
    }
    if env_missing(&gid_var) {
        out.push(EnvBinding { key: "GID".to_string(), value: to_decimal(gid as u64) });
    }
    if env_missing(&user_var) {
        if let Some(user) = login {
            out.push(EnvBinding { key: "USER".to_string(), value: user });
        }
    }
    assert(bindings(out@) =~= injected(
        view_opt(uid_var),
        view_opt(gid_var),
        view_opt(user_var),
        uid,
        gid,
        view_opt(login),
    ));
    out
}

/// A variable that already has a value is left alone.
pub proof fn law_set_values_are_kept(
    uid_var: Option<Seq<char>>,
    gid_var: Option<Seq<char>>,
    user_var: Option<Seq<char>>,
    uid: u32,
    gid: u32,
    login: Option<Seq<char>>,
    i: int,
)
    requires
        0 <= i < injected(uid_var, gid_var, user_var, uid, gid, login).len(),
    ensures
        ({
            let key = injected(uid_var, gid_var, user_var, uid, gid, login)[i].0;
            &&& key == "UID"@ || key == "GID"@ || key == "USER"@
            &&& key == "UID"@ ==> filled(uid_var) is None
            &&& key == "GID"@ ==> filled(gid_var) is None
            &&& key == "USER"@ ==> filled(user_var) is None
        }),
{
    reveal_strlit("UID");
    reveal_strlit("GID");
    reveal_strlit("USER");
    assert("UID"@[0] == 'U');
    assert("GID"@[0] == 'G');
    assert("USER"@.len() == 4);
}

/// The user's name as the environment gives it: `USER`, or else `USERNAME`.
pub fn env_login(user: Option<String>, username: Option<String>) -> (r: Option<String>)
    ensures
        view_opt(r) == (match filled(view_opt(user)) {
            Some(name) => Some(name),
            None => filled(view_opt(username)),
        }),
{
    match if_filled(user) {
        Some(name) => Some(name),
        None => if_filled(username),
    }
}

/// The user's name as `id -un` gives it.
pub fn id_login(answer: &Output) -> (r: Option<String>)
    ensures
        view_opt(r) == if answer.ok() {
            filled(Some(trimmed(answer.stdout@)))
        } else {
            None
        },
{
    if !answer.success() {
        return None;
    }
    if_filled(Some(trim(answer.stdout.as_str())))
}

// Running docker.

/// A run of docker in the root of a project.
pub open spec fn docker_in(project: Project, args: Seq<Seq<char>>) -> InvocationView {
    InvocationView { program: "docker"@, args, dir: project.root@ }
}

/// The run of docker with the given arguments.
pub fn run_status(project: &Project, args: &[String]) -> (r: Invocation)
    ensures
        r@ == docker_in(*project, views(args@)),
{
    let mut list: Vec<String> = Vec::new();
    assert(views(list@) =~= seq![]);
    extend(&mut list, args);
    assert(views(list@) =~= views(args@));
    Invocation { program: "docker".to_string(), args: list, dir: project.root.clone() }
}

/// The run of docker compose.
pub fn compose(project: &Project, user_args: &[String]) -> (r: Invocation)
    ensures
        r@ == docker_in(*project, seq!["compose"@] + views(user_args@)),
{
    let mut args = vec!["compose".to_string()];
    assert(views(args@) =~= seq!["compose"@]);
    extend(&mut args, user_args);
    run_status(project, args.as_slice())
}

// Images that are missing.

/// Whether to look for missing images before a compose command: in development, where there
/// is someone to ask.
pub fn offers_build(project: &Project, tty: bool) -> (r: bool)
    ensures
        r == (project.dev && tty),
{
    project.dev && tty
}

/// The tags of the images of a plan, unless it has no prefix.
pub open spec fn local_tags(plan: BuildPlan) -> Seq<Seq<char>> {
    if plan.prefix@.len() == 0 {
        seq![]
    } else {
        planned(plan.services@).map_values(|name: Seq<char>| tag_of(plan.prefix@, name))
    }
}

/// The images that a compose command needs.
pub fn local_images(plan: &BuildPlan) -> (r: Vec<String>)
    ensures
        views(r@) == local_tags(*plan),
{
    let mut out: Vec<String> = Vec::new();
    if plan.prefix.as_str().is_empty() {
        assert(views(out@) =~= seq![]);
        return out;
    }
    let n: usize = plan.services.len();
    let ghost all = local_tags(*plan);
    for i in 0..n
        invariant
            n == plan.services@.len(),
            plan.prefix@.len() > 0,
            all == local_tags(*plan),
            views(out@) == all.take(i as int),
    {
        let mut image = plan.prefix.clone();
        image.append("/");
        image.append(plan.services[i].name.as_str());
        image.append(":latest");
        let ghost before = views(out@);
        let ghost added = image@;
        out.push(image);
        proof {
            assert(planned(plan.services@)[i as int] == plan.services@[i as int].name@);
            assert(all[i as int] =~= added);
            assert(views(out@) =~= before.push(added));
            assert(all.take(i + 1) =~= all.take(i as int).push(added));
        }
    }
    assert(all.take(n as int) =~= all);
    out
}

/// The run that shows whether an image is there.
pub fn inspect(project: &Project, image: &str) -> (r: Invocation)
    ensures
        r@ == docker_in(*project, seq!["image"@, "inspect"@, image@]),
{
    let args = vec!["image".to_string(), "inspect".to_string(), image.to_string()];
    assert(views(args@) =~= seq!["image"@, "inspect"@, image@]);
    run_status(project, args.as_slice())
}

/// The warning that images are missing.
pub fn missing_message(missing: &[String]) -> (r: String)
    ensures
        r@ == "local image missing: "@ + joined(views(missing@), ", "@),
{
    let mut out = "local image missing: ".to_string();
    out.append(join(missing, ", ").as_str());
    out
}

/// What came of the offer to build the missing images.
#[derive(Debug, Clone, Copy, PartialEq, Eq, Structural)]
pub enum Offer {
    Declined,
    /// The exit code of the builds.
    Built(i32),
}

/// Whether the compose command can run after the offer.
pub fn after_offer(offer: Offer) -> (r: Result<(), ComposeError>)
    ensures
        match offer {
            Offer::Declined => r == Err::<(), ComposeError>(ComposeError::ImageMissing),
            Offer::Built(code) => if code == 0 {
                r == Ok::<(), ComposeError>(())
            } else {
                r == Err::<(), ComposeError>(ComposeError::BuildFailed)
            },
        },
{
    match offer {
        Offer::Declined => Err(ComposeError::ImageMissing),
        Offer::Built(code) => if code == 0 {
            Ok(())
        } else {
            Err(ComposeError::BuildFailed)
        },
    }
}

// The services of a project.

/// The run that lists the services.
pub fn list_services(project: &Project) -> (r: Invocation)
    ensures
        r@ == docker_in(*project, seq!["compose"@, "config"@, "--services"@]),
{
    let args = vec!["compose".to_string(), "config".to_string(), "--services".to_string()];
    assert(views(args@) =~= seq!["compose"@, "config"@, "--services"@]);
    run_status(project, args.as_slice())
}

/// The services, from the answer to the run of [`list_services`].
pub fn services(answer: &Output) -> (r: Result<Vec<String>, ComposeError>)
    ensures
        if answer.ok() {
            r matches Ok(names) && views(names@) == filled_lines(answer.stdout@)
        } else {
            r matches Err(ComposeError::NoServices(text)) && text@ == trimmed(answer.stderr@)
        },
{
    if answer.success() {
        Ok(trimmed_lines(answer.stdout.as_str()))
    } else {
        Err(ComposeError::NoServices(trim(answer.stderr.as_str())))
    }
}

// Docker in writing.

/// Docker is told the user's and the group's number and the user's name, in that order, each only
/// where the environment has none.
pub proof fn law_docker_is_told_the_user(
    uid_var: Option<String>,
    gid_var: Option<String>,
    user_var: Option<String>,
    uid: u32,
    gid: u32,
    login: Option<String>,
    r: Vec<EnvBinding>,
)
    requires
        call_ensures(injected_env, (uid_var, gid_var, user_var, uid, gid, login), r),
    ensures
        ({
            let no_uid = uid_var is None || uid_var->0@.len() == 0;
            let no_gid = gid_var is None || gid_var->0@.len() == 0;
            let no_user = (user_var is None || user_var->0@.len() == 0) && login is Some;
            let all = bindings(r@);
            &&& no_uid <==> all.contains(("UID"@, decimal(uid as nat)))
            &&& no_gid <==> all.contains(("GID"@, decimal(gid as nat)))
            &&& no_user ==> all.contains(("USER"@, login->0@))
            &&& no_uid && no_gid && no_user ==> all == seq![
                ("UID"@, decimal(uid as nat)),
                ("GID"@, decimal(gid as nat)),
                ("USER"@, login->0@),
            ]
            &&& !no_uid && !no_gid && !no_user ==> all.len() == 0
        }),
{
    reveal_strlit("UID");
    reveal_strlit("GID");
    reveal_strlit("USER");
    assert("UID"@[0] == 'U' && "GID"@[0] == 'G');
    assert("UID"@.len() == 3 && "GID"@.len() == 3 && "USER"@.len() == 4);
    let all = bindings(r@);
    let a = supplied("UID"@, view_opt(uid_var), Some(decimal(uid as nat)));
    let b = supplied("GID"@, view_opt(gid_var), Some(decimal(gid as nat)));
    let c = supplied("USER"@, view_opt(user_var), view_opt(login));
    assert(all == a + b + c);
    if a.len() > 0 {
        assert(all[0] == a[0]);
    }
    if b.len() > 0 {
        assert(all[a.len() as int] == b[0]);
    }
    if c.len() > 0 {
        assert(all[a.len() as int + b.len()] == c[0]);
    }
    assert forall|i: int| 0 <= i < all.len() implies (#[trigger] all[i] == a[0] && a.len() > 0) || (
    all[i] == b[0] && b.len() > 0) || (all[i] == c[0] && c.len() > 0) by {
        if i < a.len() {
            assert(all[i] == a[i]);
        } else if i < a.len() + b.len() {
            assert(all[i] == b[i - a.len()]);
        } else {
            assert(all[i] == c[i - a.len() - b.len()]);
        }
    }
}

/// The name of the user is that of the environment, `USER` before `USERNAME`, or what `id` writes;
/// an empty one counts as none.
pub proof fn law_users_are_named_by_the_environment(
    user: Option<String>,
    username: Option<String>,
    r: Option<String>,
    answer: &Output,
    id: Option<String>,
)
    requires
        call_ensures(env_login, (user, username), r),
        call_ensures(id_login, (answer,), id),
    ensures
        ({
            let own = user matches Some(name) && name@.len() > 0;
            let other = username matches Some(name) && name@.len() > 0;
            &&& own ==> r is Some && r->0@ == user->0@
            &&& !own && other ==> r is Some && r->0@ == username->0@
            &&& !own && !other ==> r is None
        }),
        id is Some <==> answer.code == Some(0i32) && trimmed(answer.stdout@).len() > 0,
        id matches Some(name) ==> name@ == trimmed(answer.stdout@),
{
}

/// Docker runs in the root of the project, and gets the arguments of the user behind `compose`, all
/// of them and in order.
pub proof fn law_compose_passes_arguments_on(
    project: &Project,
    user_args: &[String],
    r: Invocation,
    i: int,
)
    requires
        call_ensures(compose, (project, user_args), r),
    ensures
        r.program@ == "docker"@,
        r.dir@ == project.root@,
        r.args@.len() == 1 + user_args@.len(),
        r@.args[0] == "compose"@,
        0 <= i < user_args@.len() ==> r@.args[1 + i] == user_args@[i]@,
{
    assert(r@.args.len() == r.args@.len());
    if 0 <= i < user_args@.len() {
        assert(r@.args[1 + i] == views(user_args@)[i]);
    }
}

/// Images that are missing are looked for in development alone, and only where there is someone
/// to ask.
pub proof fn law_images_are_offered_in_development(project: &Project, tty: bool, r: bool)
    requires
        call_ensures(offers_build, (project, tty), r),
    ensures
        r ==> project.dev && tty,
        project.dev && tty ==> r,
{
}

/// The image of each service of a plan has the tag `latest` behind the prefix and the service.
pub proof fn law_local_images_are_the_latest(
    plan: &BuildPlan,
    r: Vec<String>,
    i: int,
    project: &Project,
    image: &str,
    run: Invocation,
)
    requires
        call_ensures(local_images, (plan,), r),
        call_ensures(inspect, (project, image), run),
    ensures
        plan.prefix@.len() == 0 ==> r@.len() == 0,
        plan.prefix@.len() > 0 ==> r@.len() == plan.services@.len(),
        plan.prefix@.len() > 0 && 0 <= i < plan.services@.len() ==> r@[i]@ == plan.prefix@ + "/"@
            + plan.services@[i].name@ + ":latest"@,
        run@.args == seq!["image"@, "inspect"@, image@],
        run.program@ == "docker"@,
        run.dir@ == project.root@,
{
    assert(views(r@).len() == r@.len());
    if plan.prefix@.len() > 0 && 0 <= i < plan.services@.len() {
        assert(views(r@)[i] == r@[i]@);
        assert(planned(plan.services@)[i] == plan.services@[i].name@);
    }
}

/// A command goes on after missing images only where they were built without an error.
pub proof fn law_commands_need_their_images(offer: Offer, r: Result<(), ComposeError>)
    requires
        call_ensures(after_offer, (offer,), r),
    ensures
        r is Ok <==> offer == Offer::Built(0i32),
        offer == Offer::Declined ==> (r matches Err(error) && error.says()
            == "local image is missing"@),
        offer matches Offer::Built(code) ==> (code != 0 ==> (r matches Err(error) && error.says()
            == "build failed"@)),
{
}

/// The services of a project are the lines that docker writes.
pub proof fn law_services_are_what_docker_lists(
    project: &Project,
    run: Invocation,
    answer: &Output,
    r: Result<Vec<String>, ComposeError>,
)
    requires
        call_ensures(list_services, (project,), run),
        call_ensures(services, (answer,), r),
    ensures
        run.program@ == "docker"@,
        run.dir@ == project.root@,
        run@.args == seq!["compose"@, "config"@, "--services"@],
        r is Ok <==> answer.code == Some(0i32),
        r matches Ok(names) ==> views(names@) == filled_lines(answer.stdout@),
        r matches Err(error) ==> error.says() == "docker compose config --services failed: "@
            + trimmed(answer.stderr@),
{
}

/// A value that is missing or empty is missing; docker gets arguments as they are, and the images
/// that are missing are all named.
pub proof fn law_missing_images_are_named(
    value: &Option<String>,
    missing: bool,
    project: &Project,
    args: &[String],
    run: Invocation,
    images: &[String],
    message: String,
)
    requires
        call_ensures(env_missing, (value,), missing),
        call_ensures(run_status, (project, args), run),
        call_ensures(missing_message, (images,), message),
    ensures
        missing <==> (*value is None || (*value)->0@.len() == 0),
        run.program@ == "docker"@,
        run.dir@ == project.root@,
        run@.args == views(args@),
        message@ == "local image missing: "@ + joined(views(images@), ", "@),
{
}

/// Errors say what failed.
pub proof fn law_compose_errors_say_what_failed(error: &ComposeError, r: String)
    requires
        call_ensures(ComposeError::message, (error,), r),
    ensures
        error matches ComposeError::NoServices(detail) ==> r@
            == "docker compose config --services failed: "@ + detail@,
        error is BuildFailed ==> r@ == "build failed"@,
        error is ImageMissing ==> r@ == "local image is missing"@,
{
}

} // verus!
