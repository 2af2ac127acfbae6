//! Runs of git.

use crate::command::{Invocation, InvocationView, Output};
use crate::text::{
    extend, filled_lines, glue, glue3, join, joined, trim, trimmed, trimmed_lines, views,
};
use vstd::prelude::*;

verus! {

/// The run of git with the given arguments in a directory.
pub open spec fn git_run(root: Seq<char>, args: Seq<Seq<char>>) -> InvocationView {
    InvocationView { program: "git"@, args, dir: root }
}

/// The run of git with the given arguments in a directory.
pub fn git_in(root: &str, args: &[String]) -> (r: Invocation)
    ensures
        r@ == git_run(root@, views(args@)),
{
    let mut list: Vec<String> = Vec::new();
    assert(views(list@) =~= seq![]);
    extend(&mut list, args);
    assert(views(list@) =~= views(args@));
    Invocation { program: "git".to_string(), args: list, dir: root.to_string() }
}

/// That git failed, and what it said about it.
pub open spec fn git_failure(args: Seq<Seq<char>>, stderr: Seq<char>) -> Seq<char> {
    "git "@ + joined(args, " "@) + (" failed: "@ + trimmed(stderr))
}

/// What a run of git wrote.
pub fn git_text(args: &[String], answer: &Output) -> (r: Result<String, String>)
    ensures
        if answer.ok() {
            r matches Ok(text) && text@ == answer.stdout@
        } else {
            r matches Err(text) && text@ == git_failure(views(args@), answer.stderr@)
        },
{
    if !answer.success() {
        return Err(
            glue3(
                "git ",
                join(args, " ").as_str(),
                glue(" failed: ", trim(answer.stderr.as_str()).as_str()).as_str(),
            ),
        );
    }
    Ok(answer.stdout.clone())
}

/// What a run of git wrote, without white space around it.
pub fn git_stdout(args: &[String], answer: &Output) -> (r: Result<String, String>)
    ensures
        if answer.ok() {
            r matches Ok(text) && text@ == trimmed(answer.stdout@)
        } else {
            r matches Err(text) && text@ == git_failure(views(args@), answer.stderr@)
        },
{
    match git_text(args, answer) {
        Ok(text) => Ok(trim(text.as_str())),
        Err(error) => Err(error),
    }
}

/// The lines that a run of git wrote, without white space around them and without empty ones.
pub fn git_lines(args: &[String], answer: &Output) -> (r: Result<Vec<String>, String>)
    ensures
        if answer.ok() {
            r matches Ok(lines) && views(lines@) == filled_lines(trimmed(answer.stdout@))
        } else {
            r matches Err(text) && text@ == git_failure(views(args@), answer.stderr@)
        },
{
    match git_stdout(args, answer) {
        Ok(text) => Ok(trimmed_lines(text.as_str())),
        Err(error) => Err(error),
    }
}

/// Whether a run of git succeeded.
pub fn git_status(args: &[String], ok: bool) -> (r: Result<(), String>)
    ensures
        match r {
            Ok(_) => ok,
            Err(text) => !ok && text@ == "git "@ + joined(views(args@), " "@) + " failed"@,
        },
{
    if ok {
        Ok(())
    } else {
        Err(glue3("git ", join(args, " ").as_str(), " failed"))
    }
}

/// Git is run in the directory with the arguments as they are.
pub proof fn law_git_runs_where_told(root: &str, args: &[String], r: Invocation, i: int)
    requires
        call_ensures(git_in, (root, args), r),
    ensures
        r.program@ == "git"@,
        r.dir@ == root@,
        r.args@.len() == args@.len(),
        0 <= i < args@.len() ==> r.args@[i]@ == args@[i]@,
{
    assert(r@.args == views(r.args@));
    if 0 <= i < args@.len() {
        assert(views(r.args@)[i] == views(args@)[i]);
    }
}

/// What git wrote counts only where it ended well; otherwise its arguments are named, with what it
/// said without white space around it.
pub proof fn law_git_failures_are_told(
    args: &[String],
    answer: &Output,
    whole: Result<String, String>,
    text: Result<String, String>,
    lines: Result<Vec<String>, String>,
)
    requires
        call_ensures(git_text, (args, answer), whole),
        call_ensures(git_stdout, (args, answer), text),
        call_ensures(git_lines, (args, answer), lines),
    ensures
        answer.code == Some(0i32) ==> {
            &&& whole matches Ok(out) && out@ == answer.stdout@
            &&& text matches Ok(out) && out@ == trimmed(answer.stdout@)
            &&& lines is Ok
        },
        answer.code != Some(0i32) ==> {
            &&& whole matches Err(said) && said@ == "git "@ + joined(views(args@), " "@)
                + " failed: "@ + trimmed(answer.stderr@)
            &&& text matches Err(said) && said@ == whole->Err_0@
            &&& lines matches Err(said) && said@ == whole->Err_0@
        },
{
    if answer.code != Some(0i32) {
        assert(whole->Err_0@ =~= "git "@ + joined(views(args@), " "@) + " failed: "@ + trimmed(
            answer.stderr@,
        ));
    }
}

/// A run that git shows itself is told only by whether it ended well.
pub proof fn law_git_status_is_told(args: &[String], ok: bool, r: Result<(), String>)
    requires
        call_ensures(git_status, (args, ok), r),
    ensures
        r is Ok <==> ok,
        r matches Err(text) ==> text@ == "git "@ + joined(views(args@), " "@) + " failed"@,
{
}

} // verus!
