//! The project that commands run in.

use crate::command::Output;
use crate::text::{
    chars_of, filled, first_filled, first_some, glue, has_prefix, if_filled,
    law_parts_end_at_separators, lemma_first_some, lemma_run_len, only, same, split, split_on,
    starts_with, trim, trimmed, upto, view_opt, views,
};
use crate::vars::{assigned, held, lemma_last_assignment, pairs, Vars};
use vstd::prelude::*;

verus! {

/// A compose project.
#[derive(Debug, Clone, PartialEq, Eq)]
pub struct Project {
    pub root: String,
    pub app_env: String,
    pub dev: bool,
}

/// Why there is no project to work in.
#[derive(Debug, Clone, PartialEq, Eq)]
pub enum ProjectError {
    /// Git found no repository; what it said about that.
    NoRepository(String),
    /// The root of the repository, which has no compose file.
    NoCompose(String),
    /// Neither `HOME` nor `USERPROFILE` is set.
    NoHome,
}

impl ProjectError {
    /// What the error says.
    pub open spec fn says(self) -> Seq<char> {
        match self {
            ProjectError::NoRepository(detail) => if detail@.len() == 0 {
                "not inside a git repository"@
            } else {
                "not inside a git repository: "@ + detail@
            },
            ProjectError::NoCompose(root) => root@ + " has no compose.yml"@,
            ProjectError::NoHome => "could not determine the home directory"@,
        }
    }

    /// What the error says.
    pub fn message(&self) -> (r: String)
        ensures
            r@ == self.says(),
    {
        match self {
            ProjectError::NoRepository(detail) => if detail.as_str().is_empty() {
                "not inside a git repository".to_string()
            } else {
                glue("not inside a git repository: ", detail.as_str())
            },
            ProjectError::NoCompose(root) => glue(root.as_str(), " has no compose.yml"),
            ProjectError::NoHome => "could not determine the home directory".to_string(),
        }
    }
}

// Paths.

/// What `leaf` names in the directory `base`; an absolute path names the same everywhere.
pub open spec fn path_in(base: Seq<char>, leaf: Seq<char>) -> Seq<char> {
    if has_prefix(leaf, "/"@) {
        leaf
    } else if base.len() == 0 || base.last() == '/' {
        base + leaf
    } else {
        base + "/"@ + leaf
    }
}

/// What `leaf` names in the directory `base`.
pub fn join_path(base: &str, leaf: &str) -> (r: String)
    ensures
        r@ == path_in(base@, leaf@),
{
    if starts_with(leaf, "/") {
        return leaf.to_string();
    }
    let cs = chars_of(base);
    let mut out = base.to_string();
    if cs.len() > 0 && cs[cs.len() - 1] != '/' {
        out.append("/");
    }
    out.append(leaf);
    out
}

/// A part of a path that names something: neither empty nor the current directory.
pub open spec fn is_step() -> spec_fn(Seq<char>) -> bool {
    |part: Seq<char>| part.len() > 0 && part != "."@
}

/// The last part of a path, where it names a file: trailing slashes and current-directory
/// parts do not count, and the parent directory is no file.
pub open spec fn file_name_of(path: Seq<char>) -> Option<Seq<char>> {
    let steps = split_on(path, '/').filter(is_step());
    if steps.len() == 0 || steps.last() == ".."@ {
        None
    } else {
        Some(steps.last())
    }
}

/// The last part of a path, where it names a file.
pub fn file_name(path: &str) -> (r: Option<String>)
    ensures
        view_opt(r) == file_name_of(path@),
{
    let parts = split(path, '/');
    let ghost all = split_on(path@, '/');
    let mut i: usize = parts.len();
    assert(all.take(i as int) =~= all);
    while i > 0
        invariant
            i <= parts@.len(),
            views(parts@) == all,
            all == split_on(path@, '/'),
            all.filter(is_step()) == all.take(i as int).filter(is_step()),
        decreases i,
    {
        let part = parts[i - 1].as_str();
        proof {
            reveal(Seq::filter);
            assert(all[i - 1] == parts@[i - 1]@);
            assert(all.take(i as int).drop_last() =~= all.take(i - 1));
            assert(all.take(i as int).last() == all[i - 1]);
        }
        if !part.is_empty() && !same(part, ".") {
            if same(part, "..") {
                return None;
            }
            return Some(parts[i - 1].clone());
        }
        i -= 1;
    }
    proof {
        reveal(Seq::filter);
    }
    None
}

// Finding the project.

/// What git answers about the root of the repository.
pub open spec fn root_in(answer: Output) -> Result<Seq<char>, Seq<char>> {
    if !answer.ok() {
        Err(trimmed(answer.stderr@))
    } else if trimmed(answer.stdout@).len() == 0 {
        Err(seq![])
    } else {
        Ok(trimmed(answer.stdout@))
    }
}

/// The root of the repository, from the answer to `git rev-parse --show-toplevel`.
pub fn git_root(answer: &Output) -> (r: Result<String, ProjectError>)
    ensures
        match root_in(*answer) {
            Ok(root) => r matches Ok(path) && path@ == root,
            Err(detail) => r matches Err(ProjectError::NoRepository(text)) && text@ == detail,
        },
{
    if !answer.success() {
        return Err(ProjectError::NoRepository(trim(answer.stderr.as_str())));
    }
    let root = trim(answer.stdout.as_str());
    if root.as_str().is_empty() {
        let none = String::new();
        assert(none@ =~= seq![]);
        return Err(ProjectError::NoRepository(none));
    }
    Ok(root)
}

/// The entries of a dotenv file; of two for one name the later counts.
pub fn read_dotenv(entries: Vec<(String, String)>) -> (r: Vars)
    ensures
        r@ == assigned(pairs(entries@)),
{
    Vars::from_pairs(entries)
}

/// The Symfony environment: that of the process where it is not empty, else that of the
/// dotenv file, else production.
pub open spec fn app_env_of(
    process: Option<Seq<char>>,
    dotenv: Map<Seq<char>, Seq<char>>,
) -> Seq<char> {
    match filled(process) {
        Some(env) => env,
        None => match held(dotenv, "APP_ENV"@) {
            Some(env) => env,
            None => "prod"@,
        },
    }
}

/// The project at a root, and the value to give `APP_ENV` where the process does not set it.
/// `process` is the process's value of `APP_ENV`, as far as it is text.
pub fn discover(
    root: &str,
    has_compose: bool,
    is_set: bool,
    process: Option<String>,
    dotenv: &Vars,
) -> (r: Result<(Project, Option<String>), ProjectError>)
    ensures
        if !has_compose {
            r matches Err(ProjectError::NoCompose(text)) && text@ == root@
        } else {
            r matches Ok((project, export)) && {
                &&& project.root@ == root@
                &&& project.app_env@ == app_env_of(view_opt(process), dotenv@)
                &&& project.dev == (project.app_env@ == "dev"@)
                &&& view_opt(export) == if is_set {
                    None
                } else {
                    held(dotenv@, "APP_ENV"@)
                }
            }
        },
{
    if !has_compose {
        return Err(ProjectError::NoCompose(root.to_string()));
    }
    let stored = dotenv.get("APP_ENV");
    let export = if is_set {
        None
    } else {
        stored.clone()
    };
    let app_env = match if_filled(process) {
        Some(env) => env,
        None => match stored {
            Some(env) => env,
            None => "prod".to_string(),
        },
    };
    let dev = same(app_env.as_str(), "dev");
    Ok((Project { root: root.to_string(), app_env, dev }, export))
}

/// The version of a project: the first of the process's `VERSION`, the dotenv file's and the
/// trimmed text of the `VERSION` file that is not empty, or `latest`.
pub open spec fn version_of(
    process: Option<Seq<char>>,
    dotenv: Map<Seq<char>, Seq<char>>,
    file: Option<Seq<char>>,
) -> Seq<char> {
    let trimmed_file = match file {
        Some(text) => Some(trimmed(text)),
        None => None,
    };
    match first_some(
        seq![filled(process), filled(held(dotenv, "VERSION"@)), filled(trimmed_file)],
    ) {
        Some(version) => version,
        None => "latest"@,
    }
}

/// The version of a project.
pub fn version_value(process: Option<String>, dotenv: &Vars, file: Option<String>) -> (r: String)
    ensures
        r@ == version_of(view_opt(process), dotenv@, view_opt(file)),
{
    let stored = dotenv.get("VERSION");
    let read = match file {
        Some(text) => Some(trim(text.as_str())),
        None => None,
    };
    let found = first_filled(process, stored, read);
    match found {
        Some(version) => version,
        None => "latest".to_string(),
    }
}

/// The home directory: `HOME`, or else `USERPROFILE`.
pub fn home_dir(home: Option<String>, profile: Option<String>) -> (r: Result<String, ProjectError>)
    ensures
        match home {
            Some(dir) => r matches Ok(path) && path@ == dir@,
            None => match profile {
                Some(dir) => r matches Ok(path) && path@ == dir@,
                None => r matches Err(ProjectError::NoHome),
            },
        },
{
    match home {
        Some(dir) => Ok(dir),
        None => match profile {
            Some(dir) => Ok(dir),
            None => Err(ProjectError::NoHome),
        },
    }
}

/// The directory of the user's settings.
pub fn shellops_home(home: &str) -> (r: String)
    ensures
        r@ == path_in(home@, ".shellops"@),
{
    join_path(home, ".shellops")
}

// Projects in writing.

/// A path is put below a directory with one slash between the two; an absolute path stays.
pub proof fn law_paths_are_put_below_directories(base: &str, leaf: &str, r: String)
    requires
        call_ensures(join_path, (base, leaf), r),
    ensures
        leaf@.len() > 0 && leaf@[0] == '/' ==> r@ == leaf@,
        (leaf@.len() == 0 || leaf@[0] != '/') && base@.len() > 0 && base@.last() != '/' ==> r@
            == base@ + "/"@ + leaf@,
        (leaf@.len() == 0 || leaf@[0] != '/') && base@.len() > 0 && base@.last() == '/' ==> r@
            == base@ + leaf@,
        (leaf@.len() == 0 || leaf@[0] != '/') && base@.len() == 0 ==> r@ == leaf@,
{
    reveal_strlit("/");
    assert("/"@.len() == 1);
    if leaf@.len() > 0 {
        assert(leaf@.take(1) =~= seq![leaf@[0]]);
        assert("/"@ =~= seq!['/']);
        assert(seq![leaf@[0]][0] == leaf@[0]);
        assert(seq!['/'][0] == '/');
    }
}

proof fn lemma_last_step(path: Seq<char>, name: Seq<char>)
    requires
        !name.contains('/'),
        name.len() > 0,
        name != "."@,
    ensures
        split_on(path + "/"@ + name, '/').last() == name,
        split_on(path + "/"@ + name, '/').len() > 1,
        split_on(name, '/') == seq![name],
    decreases path.len(),
{
    reveal_strlit("/");
    assert("/"@ =~= seq!['/']);
    law_parts_end_at_separators(name, '/', seq![]);
    let all = path + "/"@ + name;
    let n = upto(path, '/');
    lemma_run_len(path, only('/'));
    let first = path.take(n);
    assert(!first.contains('/')) by {
        if first.contains('/') {
            let k = choose|k: int| 0 <= k < first.len() && first[k] == '/';
            assert(!only('/')(path[k]));
        }
    }
    if n < path.len() {
        let rest = path.skip(n + 1);
        lemma_last_step(rest, name);
        assert(only('/')(path[n]));
        assert(all =~= first + seq!['/'] + (rest + "/"@ + name));
        law_parts_end_at_separators(first, '/', rest + "/"@ + name);
    } else {
        assert(first =~= path);
        assert(all =~= path + seq!['/'] + name);
        law_parts_end_at_separators(path, '/', name);
    }
}

/// The last part of a path that is made of a directory and a name is the name.
pub proof fn lemma_file_name(path: Seq<char>, dir: Seq<char>, name: Seq<char>)
    requires
        !name.contains('/'),
        name.len() > 0,
        name != "."@,
        name != ".."@,
        path == dir + "/"@ + name || path == name,
    ensures
        file_name_of(path) == Some(name),
{
    lemma_last_step(dir, name);
    let parts = split_on(path, '/');
    reveal(Seq::filter);
    assert(is_step()(parts.last()));
    assert(parts.filter(is_step()).last() == name);
}

/// The name of a file is what stands behind the last slash of its path.
pub proof fn law_files_are_named_behind_the_last_slash(
    path: &str,
    r: Option<String>,
    dir: Seq<char>,
    name: Seq<char>,
)
    requires
        call_ensures(file_name, (path,), r),
        !name.contains('/'),
        name.len() > 0,
        name != "."@,
        name != ".."@,
        path@ == dir + "/"@ + name || path@ == name,
    ensures
        r matches Some(found) && found@ == name,
{
    lemma_file_name(path@, dir, name);
}

/// The root of a project is what git answers, without white space around it; an answer without
/// one is an error.
pub proof fn law_projects_are_where_git_says(answer: &Output, r: Result<String, ProjectError>)
    requires
        call_ensures(git_root, (answer,), r),
    ensures
        r is Ok <==> answer.code == Some(0i32) && trimmed(answer.stdout@).len() > 0,
        r matches Ok(root) ==> root@ == trimmed(answer.stdout@),
        r matches Err(error) ==> has_prefix(error.says(), "not inside a git repository"@),
{
    reveal_strlit("not inside a git repository");
    reveal_strlit("not inside a git repository: ");
    if let Err(error) = r {
        let short = "not inside a git repository"@;
        let text = error.says();
        assert(short.len() == 27 && "not inside a git repository: "@.len() == 29);
        assert(text.take(27) =~= short);
    }
}

/// The environment of a project is that of the process, or else of the dotenv file, or else
/// production; only `dev` is development. A directory without a compose file is no project.
pub proof fn law_projects_are_in_production_unless_told(
    root: &str,
    has_compose: bool,
    is_set: bool,
    process: Option<String>,
    dotenv: &Vars,
    r: Result<(Project, Option<String>), ProjectError>,
)
    requires
        call_ensures(discover, (root, has_compose, is_set, process, dotenv), r),
    ensures
        !has_compose ==> (r matches Err(error) && error.says() == root@ + " has no compose.yml"@),
        has_compose ==> (r matches Ok(found) && {
            let own = process matches Some(env) && env@.len() > 0;
            let kept = dotenv@.dom().contains("APP_ENV"@);
            &&& found.0.root@ == root@
            &&& own ==> found.0.app_env@ == process->0@
            &&& !own && kept ==> found.0.app_env@ == dotenv@["APP_ENV"@]
            &&& !own && !kept ==> found.0.app_env@ == "prod"@
            &&& found.0.dev <==> found.0.app_env@ == "dev"@
            &&& found.1 is Some <==> !is_set && kept
            &&& found.1 matches Some(env) ==> env@ == dotenv@["APP_ENV"@]
        }),
{
}

/// The version of a project is that of the process, or else of the dotenv file, or else of the
/// version file, or else `latest`; an empty one counts as none.
pub proof fn law_versions_come_from_the_process_first(
    process: Option<String>,
    dotenv: &Vars,
    file: Option<String>,
    r: String,
)
    requires
        call_ensures(version_value, (process, dotenv, file), r),
    ensures
        ({
            let own = process matches Some(text) && text@.len() > 0;
            let kept = dotenv@.dom().contains("VERSION"@) && dotenv@["VERSION"@].len() > 0;
            let read = file matches Some(text) && trimmed(text@).len() > 0;
            &&& own ==> r@ == process->0@
            &&& !own && kept ==> r@ == dotenv@["VERSION"@]
            &&& !own && !kept && read ==> r@ == trimmed(file->0@)
            &&& !own && !kept && !read ==> r@ == "latest"@
        }),
{
    let read = match view_opt(file) {
        Some(text) => Some(trimmed(text)),
        None => None,
    };
    let all = seq![
        filled(view_opt(process)),
        filled(held(dotenv@, "VERSION"@)),
        filled(read),
    ];
    if all[0] is Some {
        lemma_first_some(all, 0);
    } else if all[1] is Some {
        lemma_first_some(all, 1);
    } else if all[2] is Some {
        lemma_first_some(all, 2);
    } else {
        lemma_first_some(all, 3);
    }
}

/// The settings of a user are in a hidden directory of the home directory.
pub proof fn law_settings_are_in_the_home_directory(
    home: Option<String>,
    profile: Option<String>,
    r: Result<String, ProjectError>,
    dir: &str,
    settings: String,
)
    requires
        call_ensures(home_dir, (home, profile), r),
        call_ensures(shellops_home, (dir,), settings),
    ensures
        home matches Some(own) ==> (r matches Ok(path) && path@ == own@),
        home is None ==> (profile matches Some(own) ==> (r matches Ok(path) && path@ == own@)),
        home is None && profile is None ==> (r matches Err(error) && error.says()
            == "could not determine the home directory"@),
        dir@.len() > 0 && dir@.last() != '/' ==> settings@ == dir@ + "/.shellops"@,
{
    reveal_strlit("/");
    reveal_strlit(".shellops");
    reveal_strlit("/.shellops");
    assert("/"@.len() == 1 && ".shellops"@.len() == 9);
    if has_prefix(".shellops"@, "/"@) {
        assert(".shellops"@.take(1)[0] == ".shellops"@[0]);
        assert("/"@[0] == '/');
    }
    assert(dir@ + "/"@ + ".shellops"@ =~= dir@ + "/.shellops"@);
}

/// Of several assignments of a dotenv file to one name the last counts.
pub proof fn law_the_last_line_of_a_dotenv_file_counts(
    entries: Vec<(String, String)>,
    vars: Vars,
    name: &str,
    r: Option<String>,
    i: int,
)
    requires
        call_ensures(read_dotenv, (entries,), vars),
        call_ensures(Vars::get, (&vars, name), r),
    ensures
        0 <= i < entries@.len() && entries@[i].0@ == name@ && (forall|j: int|
            i < j < entries@.len() ==> (#[trigger] entries@[j]).0@ != name@) ==> (r matches Some(
            text,
        ) && text@ == entries@[i].1@),
        (forall|j: int| 0 <= j < entries@.len() ==> (#[trigger] entries@[j]).0@ != name@)
            ==> r is None,
{
    lemma_last_assignment(entries@, name@, i);
}

/// Errors say what a project lacks; what git said about it follows where it said anything.
pub proof fn law_project_errors_say_what_is_missing(error: &ProjectError, r: String)
    requires
        call_ensures(ProjectError::message, (error,), r),
    ensures
        error matches ProjectError::NoRepository(detail) ==> r@ == if detail@.len() == 0 {
            "not inside a git repository"@
        } else {
            "not inside a git repository: "@ + detail@
        },
        error matches ProjectError::NoCompose(root) ==> r@ == root@ + " has no compose.yml"@,
        error is NoHome ==> r@ == "could not determine the home directory"@,
{
}

} // verus!
