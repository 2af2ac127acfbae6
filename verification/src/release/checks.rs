//! What has to hold before a release.

use crate::command::Output;
use crate::git::{git_failure, git_status, git_stdout};
use crate::text::{
    glue, glue3, has_prefix, joined, same, strip_prefixes, trim, trimmed, views, without_prefixes,
};
use vstd::prelude::*;

verus! {

/// What git is asked before a release, in this order.
#[derive(Debug, Clone, PartialEq, Eq)]
pub enum Check {
    /// The default branch of the remote.
    Default,
    /// The current branch.
    Current { branch: String },
    /// Changes that are not committed.
    Changes { branch: String },
    /// What the remote has.
    Fetch { branch: String },
    /// The current commit.
    Head { branch: String },
    /// The remote's commit.
    Remote { branch: String, head: String },
}

/// What git is asked for a check.
pub open spec fn check_line(check: Check) -> Seq<Seq<char>> {
    match check {
        Check::Default => seq!["symbolic-ref"@, "--short"@, "refs/remotes/origin/HEAD"@],
        Check::Current { .. } => seq!["branch"@, "--show-current"@],
        Check::Changes { .. } => seq!["status"@, "--porcelain"@],
        Check::Fetch { .. } => seq!["fetch"@, "--tags"@, "--prune"@, "origin"@],
        Check::Head { .. } => seq!["rev-parse"@, "HEAD"@],
        Check::Remote { branch, .. } => seq!["rev-parse"@, "origin/"@ + branch@],
    }
}

/// What git is asked for a check.
pub fn check_args(check: &Check) -> (r: Vec<String>)
    ensures
        views(r@) == check_line(*check),
{
    let args = match check {
        Check::Default => vec![
            "symbolic-ref".to_string(),
            "--short".to_string(),
            "refs/remotes/origin/HEAD".to_string(),
        ],
        Check::Current { .. } => vec!["branch".to_string(), "--show-current".to_string()],
        Check::Changes { .. } => vec!["status".to_string(), "--porcelain".to_string()],
        Check::Fetch { .. } => vec![
            "fetch".to_string(),
            "--tags".to_string(),
            "--prune".to_string(),
            "origin".to_string(),
        ],
        Check::Head { .. } => vec!["rev-parse".to_string(), "HEAD".to_string()],
        Check::Remote { branch, .. } => vec![
            "rev-parse".to_string(),
            glue("origin/", branch.as_str()),
        ],
    };
    assert(views(args@) =~= check_line(*check));
    args
}

/// Why there is no release.
#[derive(Debug, Clone, PartialEq, Eq)]
pub enum CheckError {
    /// Git failed; what is said about that.
    Git(String),
    WrongBranch { branch: String, current: String },
    NotPushed { branch: String },
}

impl CheckError {
    /// What the error says.
    pub open spec fn says(self) -> Seq<char> {
        match self {
            CheckError::Git(text) => text@,
            CheckError::WrongBranch { branch, current } => "releases are cut from "@ + branch@
                + " (currently on "@ + current@ + ")"@,
            CheckError::NotPushed { branch } => "HEAD does not match origin/"@ + branch@,
        }
    }

    /// What the error says.
    pub fn message(&self) -> (r: String)
        ensures
            r@ == self.says(),
    {
        match self {
            CheckError::Git(text) => text.clone(),
            CheckError::WrongBranch { branch, current } => {
                let mut out = glue3(
                    "releases are cut from ",
                    branch.as_str(),
                    " (currently on ",
                );
                out.append(current.as_str());
                out.append(")");
                out
            },
            CheckError::NotPushed { branch } => {
                glue("HEAD does not match origin/", branch.as_str())
            },
        }
    }
}

/// What follows from git's answer to a check.
#[derive(Debug, Clone, PartialEq, Eq)]
pub enum Verdict {
    /// The next check.
    Next(Check),
    /// The next check, if the user goes on in spite of changes that are not committed.
    Ask(Check),
    /// The release can be cut from the branch.
    Passed { branch: String },
}

/// The default branch that git names, or the usual one.
pub open spec fn branch_in(answer: Output) -> Seq<char> {
    if answer.ok() {
        without_prefixes(trimmed(answer.stdout@), "origin/"@)
    } else {
        "main"@
    }
}

/// The default branch that git names, or the usual one.
pub fn default_branch(answer: &Output) -> (r: String)
    ensures
        r@ == branch_in(*answer),
{
    if answer.success() {
        strip_prefixes(trim(answer.stdout.as_str()).as_str(), "origin/")
    } else {
        "main".to_string()
    }
}

/// Whether a verdict follows from git's answer to a check.
pub open spec fn follows(check: Check, answer: Output, r: Result<Verdict, CheckError>) -> bool {
    let said = trimmed(answer.stdout@);
    if check is Default {
        r matches Ok(Verdict::Next(Check::Current { branch })) && branch@ == branch_in(answer)
    } else if !answer.ok() {
        r matches Err(CheckError::Git(text)) && text@ == if check is Fetch {
            "git "@ + joined(check_line(check), " "@) + " failed"@
        } else {
            git_failure(check_line(check), answer.stderr@)
        }
    } else {
        match check {
            Check::Default => true,
            Check::Current { branch } => if said == branch@ {
                r matches Ok(Verdict::Next(Check::Changes { branch: b })) && b@ == branch@
            } else {
                &&& r matches Err(CheckError::WrongBranch { branch: b, current })
                &&& b@ == branch@ && current@ == said
            },
            Check::Changes { branch } => if said.len() == 0 {
                r matches Ok(Verdict::Next(Check::Fetch { branch: b })) && b@ == branch@
            } else {
                r matches Ok(Verdict::Ask(Check::Fetch { branch: b })) && b@ == branch@
            },
            Check::Fetch { branch } => {
                r matches Ok(Verdict::Next(Check::Head { branch: b })) && b@ == branch@
            },
            Check::Head { branch } => {
                &&& r matches Ok(Verdict::Next(Check::Remote { branch: b, head }))
                &&& b@ == branch@ && head@ == said
            },
            Check::Remote { branch, head } => if head@ == said {
                r matches Ok(Verdict::Passed { branch: b }) && b@ == branch@
            } else {
                r matches Err(CheckError::NotPushed { branch: b }) && b@ == branch@
            },
        }
    }
}

fn answer_text(check: &Check, answer: &Output) -> (r: Result<String, CheckError>)
    ensures
        if answer.ok() {
            r matches Ok(text) && text@ == trimmed(answer.stdout@)
        } else {
            r matches Err(CheckError::Git(text)) && text@ == if check is Fetch {
                "git "@ + joined(check_line(*check), " "@) + " failed"@
            } else {
                git_failure(check_line(*check), answer.stderr@)
            }
        },
{
    let args = check_args(check);
    if let Check::Fetch { .. } = check {
        return match git_status(args.as_slice(), answer.success()) {
            Ok(_) => Ok(trim(answer.stdout.as_str())),
            Err(text) => Err(CheckError::Git(text)),
        };
    }
    match git_stdout(args.as_slice(), answer) {
        Ok(text) => Ok(text),
        Err(text) => Err(CheckError::Git(text)),
    }
}

/// What follows from git's answer to a check.
pub fn after_check(check: Check, answer: &Output) -> (r: Result<Verdict, CheckError>)
    ensures
        follows(check, *answer, r),
{
    if let Check::Default = check {
        return Ok(Verdict::Next(Check::Current { branch: default_branch(answer) }));
    }
    let said = match answer_text(&check, answer) {
        Ok(said) => said,
        Err(error) => {
            return Err(error);
        },
    };
    match check {
        Check::Default => Ok(Verdict::Next(Check::Default)),
        Check::Current { branch } => if same(said.as_str(), branch.as_str()) {
            Ok(Verdict::Next(Check::Changes { branch }))
        } else {
            Err(CheckError::WrongBranch { branch, current: said })
        },
        Check::Changes { branch } => if said.as_str().is_empty() {
            Ok(Verdict::Next(Check::Fetch { branch }))
        } else {
            Ok(Verdict::Ask(Check::Fetch { branch }))
        },
        Check::Fetch { branch } => Ok(Verdict::Next(Check::Head { branch })),
        Check::Head { branch } => Ok(Verdict::Next(Check::Remote { branch, head: said })),
        Check::Remote { branch, head } => if same(head.as_str(), said.as_str()) {
            Ok(Verdict::Passed { branch })
        } else {
            Err(CheckError::NotPushed { branch })
        },
    }
}

/// The checks that follow one another, with git's answers and what follows from each.
pub open spec fn is_run(
    checks: Seq<Check>,
    answers: Seq<Output>,
    verdicts: Seq<Result<Verdict, CheckError>>,
) -> bool {
    &&& checks.len() == answers.len() == verdicts.len()
    &&& checks.len() > 0 && checks[0] is Default
    &&& forall|i: int|
        0 <= i < checks.len() ==> follows(#[trigger] checks[i], answers[i], verdicts[i])
    &&& forall|i: int, j: int|
        #![trigger checks[j], verdicts[i]]
        0 <= i && j == i + 1 && j < checks.len() ==> {
            ||| verdicts[i] == Ok::<Verdict, CheckError>(Verdict::Next(checks[j]))
            ||| verdicts[i] == Ok::<Verdict, CheckError>(Verdict::Ask(checks[j]))
        }
}

/// A release is cut only from the default branch, and only from the commit that the remote has.
pub proof fn law_releases_are_cut_from_the_remote(
    checks: Seq<Check>,
    answers: Seq<Output>,
    verdicts: Seq<Result<Verdict, CheckError>>,
    branch: String,
)
    requires
        is_run(checks, answers, verdicts),
        verdicts.last() == Ok::<Verdict, CheckError>(Verdict::Passed { branch }),
    ensures
        checks.len() == 6,
        branch@ == branch_in(answers[0]),
        trimmed(answers[1].stdout@) == branch@,
        trimmed(answers[4].stdout@) == trimmed(answers[5].stdout@),
{
    let n = checks.len();
    assert(follows(checks[n - 1], answers[n - 1], verdicts[n - 1]));
    assert(follows(checks[0], answers[0], verdicts[0]));
    assert(n > 1);
    assert(checks[1] is Current && verdicts[0] is Ok);
    assert(follows(checks[1], answers[1], verdicts[1]));
    assert(n > 2);
    assert(checks[2] is Changes && verdicts[1] is Ok);
    assert(follows(checks[2], answers[2], verdicts[2]));
    assert(n > 3);
    assert(checks[3] is Fetch && verdicts[2] is Ok);
    assert(follows(checks[3], answers[3], verdicts[3]));
    assert(n > 4);
    assert(checks[4] is Head && verdicts[3] is Ok);
    assert(follows(checks[4], answers[4], verdicts[4]));
    assert(n > 5);
    assert(checks[5] is Remote && verdicts[4] is Ok);
    assert(follows(checks[5], answers[5], verdicts[5]));
    if n > 6 {
        assert(verdicts[5] == Ok::<Verdict, CheckError>(Verdict::Next(checks[6])) || verdicts[5]
            == Ok::<Verdict, CheckError>(Verdict::Ask(checks[6])));
    }
}

// The checks in writing.

/// What git is asked, word for word.
pub proof fn law_checks_ask_git_in_words(check: &Check, r: Vec<String>)
    requires
        call_ensures(check_args, (check,), r),
    ensures
        *check is Default ==> views(r@) == seq![
            "symbolic-ref"@,
            "--short"@,
            "refs/remotes/origin/HEAD"@,
        ],
        *check is Current ==> views(r@) == seq!["branch"@, "--show-current"@],
        *check is Changes ==> views(r@) == seq!["status"@, "--porcelain"@],
        *check is Fetch ==> views(r@) == seq!["fetch"@, "--tags"@, "--prune"@, "origin"@],
        *check is Head ==> views(r@) == seq!["rev-parse"@, "HEAD"@],
        *check matches Check::Remote { branch, .. } ==> views(r@) == seq![
            "rev-parse"@,
            "origin/"@ + branch@,
        ],
{
}

/// The default branch is the one that git names behind `origin/`; where it names none, it is
/// `main`.
pub proof fn law_default_branch_is_named_by_the_remote(
    answer: &Output,
    r: String,
    branch: Seq<char>,
)
    requires
        call_ensures(default_branch, (answer,), r),
    ensures
        answer.code != Some(0i32) ==> r@ == "main"@,
        answer.code == Some(0i32) && trimmed(answer.stdout@) == "origin/"@ + branch && !has_prefix(
            branch,
            "origin/"@,
        ) ==> r@ == branch,
{
    reveal_strlit("origin/");
    let said = trimmed(answer.stdout@);
    if answer.code == Some(0i32) && said == "origin/"@ + branch && !has_prefix(
        branch,
        "origin/"@,
    ) {
        assert(said.take(7) =~= "origin/"@);
        assert(said.skip(7) =~= branch);
        assert(without_prefixes(branch, "origin/"@) == branch);
    }
}

/// A release goes on from check to check: it is refused on another branch than the default one and
/// where the remote has another commit, and the user is asked only where something is not
/// committed. Where git fails, nothing goes on but for the name of the default branch.
pub proof fn law_checks_refuse_other_commits(
    check: Check,
    answer: &Output,
    r: Result<Verdict, CheckError>,
)
    requires
        call_ensures(after_check, (check, answer), r),
    ensures
        ({
            let said = trimmed(answer.stdout@);
            &&& answer.code != Some(0i32) && !(check is Default) ==> r is Err
            &&& answer.code == Some(0i32) ==> (check matches Check::Current { branch } ==> {
                &&& r is Ok <==> said == branch@
                &&& r matches Err(error) ==> error.says() == "releases are cut from "@ + branch@
                    + " (currently on "@ + said + ")"@
            })
            &&& check is Changes && answer.code == Some(0i32) ==> {
                &&& said.len() == 0 ==> (r matches Ok(v) && v is Next)
                &&& said.len() > 0 ==> (r matches Ok(v) && v is Ask)
            }
            &&& answer.code == Some(0i32) ==> (check matches Check::Remote { branch, head } ==> {
                &&& head@ == said ==> (r matches Ok(Verdict::Passed { branch: b }) && b@ == branch@)
                &&& head@ != said ==> (r matches Err(error) && error.says()
                    == "HEAD does not match origin/"@ + branch@)
            })
            &&& r matches Ok(v) ==> (v is Passed ==> check is Remote)
        }),
{
}

/// The checks are made in turn, all for the default branch: the current branch, the changes, what
/// the remote has, the current commit and the remote's commit, which is compared with it.
pub proof fn law_checks_are_made_in_turn(
    check: Check,
    answer: &Output,
    r: Result<Verdict, CheckError>,
    default: String,
    message: String,
)
    requires
        call_ensures(after_check, (check, answer), r),
        call_ensures(default_branch, (answer,), default),
        r matches Err(error) ==> call_ensures(CheckError::message, (&error,), message),
    ensures
        check is Default ==> (r matches Ok(Verdict::Next(Check::Current { branch })) && branch@
            == default@),
        answer.code == Some(0i32) ==> {
            let said = trimmed(answer.stdout@);
            &&& check matches Check::Current { branch } ==> (said == branch@ ==> (r matches Ok(
                Verdict::Next(Check::Changes { branch: b }),
            ) && b@ == branch@))
            &&& check matches Check::Changes { branch } ==> (said.len() == 0 ==> (r matches Ok(
                Verdict::Next(Check::Fetch { branch: b }),
            ) && b@ == branch@))
            &&& check matches Check::Changes { branch } ==> (said.len() > 0 ==> (r matches Ok(
                Verdict::Ask(Check::Fetch { branch: b }),
            ) && b@ == branch@))
            &&& check matches Check::Fetch { branch } ==> (r matches Ok(
                Verdict::Next(Check::Head { branch: b }),
            ) && b@ == branch@)
            &&& check matches Check::Head { branch } ==> (r matches Ok(
                Verdict::Next(Check::Remote { branch: b, head }),
            ) && b@ == branch@ && head@ == said)
        },
        r matches Err(error) ==> message@ == error.says(),
        answer.code != Some(0i32) && check is Fetch ==> (r matches Err(error) && error.says()
            == "git "@ + joined(seq!["fetch"@, "--tags"@, "--prune"@, "origin"@], " "@)
            + " failed"@),
        answer.code != Some(0i32) && check is Head ==> (r matches Err(error) && error.says()
            == "git "@ + joined(seq!["rev-parse"@, "HEAD"@], " "@) + (" failed: "@ + trimmed(
            answer.stderr@,
        ))),
{
}

} // verus!
