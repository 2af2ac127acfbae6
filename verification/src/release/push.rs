//! How a release is committed, tagged and pushed.

use crate::git::git_status;
use crate::release::packages::{package_views, Package, PackageView};
use crate::release::plan::ReleasePlan;
use crate::text::{glue, joined, views};
use vstd::prelude::*;

verus! {

/// What git does for a release.
#[derive(Debug, Clone, Copy, PartialEq, Eq, Structural)]
pub enum Stage {
    /// Nothing is staged.
    Reset,
    /// The manifests are staged.
    Add,
    /// Whether anything is staged.
    Compare,
    Commit,
    /// The tag is made.
    Tag { committed: bool },
    Push { committed: bool },
    /// The tag is taken back after a failed push.
    Untag { committed: bool },
    /// The commit is taken back after a failed tag.
    UndoTag,
    /// The commit is taken back after a failed push.
    UndoPush,
}

/// The manifests of packages.
pub open spec fn manifests(packages: Seq<PackageView>) -> Seq<Seq<char>> {
    packages.map_values(|package: PackageView| package.manifest)
}

/// What git is asked to do at a stage.
pub open spec fn stage_line(stage: Stage, plan: ReleasePlan, branch: Seq<char>) -> Seq<Seq<char>> {
    match stage {
        Stage::Reset => seq!["reset"@, "-q"@, "HEAD"@],
        Stage::Add => seq!["add"@] + manifests(package_views(plan.packages@)),
        Stage::Compare => seq!["diff"@, "--cached"@, "--quiet"@],
        Stage::Commit => seq!["commit"@, "-m"@, plan.commit_text()],
        Stage::Tag { .. } => seq!["tag"@, "-a"@, plan.tag@, "-m"@, plan.tag_text()],
        Stage::Push { .. } => seq![
            "push"@,
            "--atomic"@,
            "origin"@,
            branch,
            "refs/tags/"@ + plan.tag@,
        ],
        Stage::Untag { .. } => seq!["tag"@, "-d"@, plan.tag@],
        Stage::UndoTag | Stage::UndoPush => seq!["reset"@, "--mixed"@, "HEAD~1"@],
    }
}

fn add_args(packages: &[Package]) -> (r: Vec<String>)
    ensures
        views(r@) == seq!["add"@] + manifests(package_views(packages@)),
{
    let mut args = vec!["add".to_string()];
    let n: usize = packages.len();
    let ghost all = manifests(package_views(packages@));
    assert(views(args@) =~= seq!["add"@] + all.take(0));
    for i in 0..n
        invariant
            n == packages@.len() == all.len(),
            all == manifests(package_views(packages@)),
            views(args@) == seq!["add"@] + all.take(i as int),
    {
        let ghost had = views(args@);
        args.push(packages[i].manifest.clone());
        assert(views(args@) =~= had.push(all[i as int]));
        assert(seq!["add"@] + all.take(i + 1) =~= (seq!["add"@] + all.take(i as int)).push(
            all[i as int],
        ));
    }
    assert(all.take(n as int) =~= all);
    args
}

/// What git is asked to do at a stage.
pub fn stage_args(stage: Stage, plan: &ReleasePlan, branch: &str) -> (r: Vec<String>)
    ensures
        views(r@) == stage_line(stage, *plan, branch@),
{
    let args = match stage {
        Stage::Reset => vec!["reset".to_string(), "-q".to_string(), "HEAD".to_string()],
        Stage::Add => add_args(plan.packages.as_slice()),
        Stage::Compare => vec![
            "diff".to_string(),
            "--cached".to_string(),
            "--quiet".to_string(),
        ],
        Stage::Commit => vec!["commit".to_string(), "-m".to_string(), plan.commit_message()],
        Stage::Tag { .. } => vec![
            "tag".to_string(),
            "-a".to_string(),
            plan.tag.clone(),
            "-m".to_string(),
            plan.tag_message(),
        ],
        Stage::Push { .. } => vec![
            "push".to_string(),
            "--atomic".to_string(),
            "origin".to_string(),
            branch.to_string(),
            glue("refs/tags/", plan.tag.as_str()),
        ],
        Stage::Untag { .. } => vec!["tag".to_string(), "-d".to_string(), plan.tag.clone()],
        Stage::UndoTag | Stage::UndoPush => vec![
            "reset".to_string(),
            "--mixed".to_string(),
            "HEAD~1".to_string(),
        ],
    };
    assert(views(args@) =~= stage_line(stage, *plan, branch@));
    args
}

/// The stage whose failure ended a release.
#[derive(Debug, Clone, Copy, PartialEq, Eq, Structural)]
pub enum Failure {
    /// A stage before the push.
    At(Stage),
    /// The push, after which the tag and the commit were taken back.
    Push { committed: bool },
}

/// What follows a stage.
#[derive(Debug, Clone, Copy, PartialEq, Eq, Structural)]
pub enum Turn {
    Next(Stage),
    /// The release is out.
    Done,
    Failed(Failure),
}

/// What follows a stage that succeeded or failed. What is taken back is taken back as far as it
/// can be: whether that succeeded makes no difference.
pub open spec fn turn(stage: Stage, ok: bool) -> Turn {
    match stage {
        Stage::Reset => if ok {
            Turn::Next(Stage::Add)
        } else {
            Turn::Failed(Failure::At(stage))
        },
        Stage::Add => if ok {
            Turn::Next(Stage::Compare)
        } else {
            Turn::Failed(Failure::At(stage))
        },
        Stage::Compare => if ok {
            Turn::Next(Stage::Tag { committed: false })
        } else {
            Turn::Next(Stage::Commit)
        },
        Stage::Commit => if ok {
            Turn::Next(Stage::Tag { committed: true })
        } else {
            Turn::Failed(Failure::At(stage))
        },
        Stage::Tag { committed } => if ok {
            Turn::Next(Stage::Push { committed })
        } else if committed {
            Turn::Next(Stage::UndoTag)
        } else {
            Turn::Failed(Failure::At(stage))
        },
        Stage::Push { committed } => if ok {
            Turn::Done
        } else {
            Turn::Next(Stage::Untag { committed })
        },
        Stage::Untag { committed } => if committed {
            Turn::Next(Stage::UndoPush)
        } else {
            Turn::Failed(Failure::Push { committed })
        },
        Stage::UndoTag => Turn::Failed(Failure::At(Stage::Tag { committed: true })),
        Stage::UndoPush => Turn::Failed(Failure::Push { committed: true }),
    }
}

/// What follows a stage that succeeded or failed.
pub fn after_stage(stage: Stage, ok: bool) -> (r: Turn)
    ensures
        r == turn(stage, ok),
{
    match stage {
        Stage::Reset => if ok {
            Turn::Next(Stage::Add)
        } else {
            Turn::Failed(Failure::At(stage))
        },
        Stage::Add => if ok {
            Turn::Next(Stage::Compare)
        } else {
            Turn::Failed(Failure::At(stage))
        },
        Stage::Compare => if ok {
            Turn::Next(Stage::Tag { committed: false })
        } else {
            Turn::Next(Stage::Commit)
        },
        Stage::Commit => if ok {
            Turn::Next(Stage::Tag { committed: true })
        } else {
            Turn::Failed(Failure::At(stage))
        },
        Stage::Tag { committed } => if ok {
            Turn::Next(Stage::Push { committed })
        } else if committed {
            Turn::Next(Stage::UndoTag)
        } else {
            Turn::Failed(Failure::At(stage))
        },
        Stage::Push { committed } => if ok {
            Turn::Done
        } else {
            Turn::Next(Stage::Untag { committed })
        },
        Stage::Untag { committed } => if committed {
            Turn::Next(Stage::UndoPush)
        } else {
            Turn::Failed(Failure::Push { committed })
        },
        Stage::UndoTag => Turn::Failed(Failure::At(Stage::Tag { committed: true })),
        Stage::UndoPush => Turn::Failed(Failure::Push { committed: true }),
    }
}

impl Failure {
    /// The stage that failed.
    pub open spec fn at(self) -> Stage {
        match self {
            Failure::At(stage) => stage,
            Failure::Push { committed } => Stage::Push { committed },
        }
    }

    /// The stage that failed.
    pub fn stage(self) -> (r: Stage)
        ensures
            r == self.at(),
    {
        match self {
            Failure::At(stage) => stage,
            Failure::Push { committed } => Stage::Push { committed },
        }
    }
}

/// What is said about a failure, where git failed or could not even be started.
pub open spec fn failure_text(
    failure: Failure,
    plan: ReleasePlan,
    branch: Seq<char>,
    started: bool,
) -> Seq<char> {
    let text = if started {
        "git "@ + joined(stage_line(failure.at(), plan, branch), " "@) + " failed"@
    } else {
        "could not run git"@
    };
    match failure {
        Failure::At(_) => text,
        Failure::Push { .. } => "push failed. The local commit and tag were undone. "@ + text,
    }
}

/// What is said about a failure, where git failed or could not even be started.
pub fn failure_message(failure: Failure, plan: &ReleasePlan, branch: &str, started: bool) -> (r:
    String)
    ensures
        r@ == failure_text(failure, *plan, branch@, started),
{
    let text = if started {
        match git_status(stage_args(failure.stage(), plan, branch).as_slice(), false) {
            Ok(_) => String::new(),
            Err(text) => text,
        }
    } else {
        "could not run git".to_string()
    };
    match failure {
        Failure::At(_) => text,
        Failure::Push { .. } => {
            glue("push failed. The local commit and tag were undone. ", text.as_str())
        },
    }
}

/// How far a stage is from the end.
pub open spec fn stages_left(stage: Stage) -> nat {
    match stage {
        Stage::Reset => 7,
        Stage::Add => 6,
        Stage::Compare => 5,
        Stage::Commit => 4,
        Stage::Tag { .. } => 3,
        Stage::Push { .. } => 2,
        Stage::Untag { .. } => 1,
        Stage::UndoTag | Stage::UndoPush => 0,
    }
}

/// The stages that are gone through from a stage on, where each ends as `ends` says.
pub open spec fn passed(stage: Stage, ends: spec_fn(Stage) -> bool) -> Seq<Stage>
    decreases stages_left(stage),
{
    match turn(stage, ends(stage)) {
        Turn::Next(next) => seq![stage] + passed(next, ends),
        _ => seq![stage],
    }
}

/// Where the stages that are gone through lead.
pub open spec fn outcome(stage: Stage, ends: spec_fn(Stage) -> bool) -> Turn
    decreases stages_left(stage),
{
    match turn(stage, ends(stage)) {
        Turn::Next(next) => outcome(next, ends),
        other => other,
    }
}

/// A release that fails once it was committed is taken back: the last thing that git does is to
/// undo the commit, and a tag that was made is taken back before. A release without a commit
/// undoes none.
pub proof fn law_failed_releases_are_undone(ends: spec_fn(Stage) -> bool)
    ensures
        ({
            let stages = passed(Stage::Reset, ends);
            let committed = stages.contains(Stage::Commit) && ends(Stage::Commit);
            let pushed = outcome(Stage::Reset, ends) == Turn::Done;
            &&& committed && !pushed ==> stages.last() == Stage::UndoTag || stages.last()
                == Stage::UndoPush
            &&& !committed ==> !stages.contains(Stage::UndoTag) && !stages.contains(
                Stage::UndoPush,
            )
            &&& forall|c: bool|
                stages.contains(Stage::Push { committed: c }) && !pushed ==> #[trigger]
                    stages.contains(Stage::Untag { committed: c })
            &&& forall|c: bool| #[trigger]
                stages.contains(Stage::Untag { committed: c }) ==> !pushed
        }),
{
    let c = !ends(Stage::Compare);
    let tag = Stage::Tag { committed: c };
    let push = Stage::Push { committed: c };
    let untag = Stage::Untag { committed: c };
    let undo_push = seq![Stage::UndoPush];
    let undo_tag = seq![Stage::UndoTag];
    assert(passed(Stage::UndoPush, ends) == undo_push);
    assert(passed(Stage::UndoTag, ends) == undo_tag);
    let from_untag = if c {
        seq![untag] + undo_push
    } else {
        seq![untag]
    };
    assert(passed(untag, ends) == from_untag);
    let from_push = if ends(push) {
        seq![push]
    } else {
        seq![push] + from_untag
    };
    assert(passed(push, ends) == from_push);
    let from_tag = if ends(tag) {
        seq![tag] + from_push
    } else if c {
        seq![tag] + undo_tag
    } else {
        seq![tag]
    };
    assert(passed(tag, ends) == from_tag);
    let from_commit = if ends(Stage::Commit) {
        seq![Stage::Commit] + from_tag
    } else {
        seq![Stage::Commit]
    };
    let from_compare = if c {
        seq![Stage::Compare] + from_commit
    } else {
        seq![Stage::Compare] + from_tag
    };
    if c {
        assert(passed(Stage::Commit, ends) == from_commit);
    }
    assert(passed(Stage::Compare, ends) == from_compare);
    let from_add = if ends(Stage::Add) {
        seq![Stage::Add] + from_compare
    } else {
        seq![Stage::Add]
    };
    assert(passed(Stage::Add, ends) == from_add);
    let all = if ends(Stage::Reset) {
        seq![Stage::Reset] + from_add
    } else {
        seq![Stage::Reset]
    };
    assert(passed(Stage::Reset, ends) == all);
    reveal_with_fuel(outcome, 9);
    broadcast use vstd::seq_lib::group_seq_properties;
}

// The stages in writing.

/// What git does at each stage, word for word: only the manifests are committed, and the branch and
/// the tag are pushed together or not at all.
pub proof fn law_stages_tell_git_in_words(
    stage: Stage,
    plan: &ReleasePlan,
    branch: &str,
    r: Vec<String>,
    i: int,
)
    requires
        call_ensures(stage_args, (stage, plan, branch), r),
    ensures
        stage == Stage::Reset ==> views(r@) == seq!["reset"@, "-q"@, "HEAD"@],
        stage == Stage::Add ==> {
            &&& r@.len() == 1 + plan.packages@.len()
            &&& views(r@)[0] == "add"@
            &&& 0 <= i < plan.packages@.len() ==> views(r@)[1 + i] == plan.packages@[i].manifest@
        },
        stage == Stage::Compare ==> views(r@) == seq!["diff"@, "--cached"@, "--quiet"@],
        stage == Stage::Commit ==> views(r@) == seq![
            "commit"@,
            "-m"@,
            "chore(release): "@ + plan.subject@,
        ],
        stage is Tag ==> r@.len() == 5 && views(r@)[0] == "tag"@ && views(r@)[1] == "-a"@ && views(
            r@,
        )[2] == plan.tag@ && views(r@)[3] == "-m"@,
        stage is Push ==> views(r@) == seq![
            "push"@,
            "--atomic"@,
            "origin"@,
            branch@,
            "refs/tags/"@ + plan.tag@,
        ],
        stage is Untag ==> views(r@) == seq!["tag"@, "-d"@, plan.tag@],
        stage == Stage::UndoTag || stage == Stage::UndoPush ==> views(r@) == seq![
            "reset"@,
            "--mixed"@,
            "HEAD~1"@,
        ],
{
    assert(views(r@).len() == r@.len());
    let packages = package_views(plan.packages@);
    if 0 <= i < plan.packages@.len() {
        assert(manifests(packages)[i] == packages[i].manifest);
        assert(packages[i] == plan.packages@[i]@);
    }
}

/// Each stage that succeeds leads to the next: reset, add, compare, commit where something is
/// staged, tag, push. A push that succeeds is the end.
pub proof fn law_stages_follow_one_another(stage: Stage, ok: bool, r: Turn)
    requires
        call_ensures(after_stage, (stage, ok), r),
    ensures
        stage == Stage::Reset && ok ==> r == Turn::Next(Stage::Add),
        stage == Stage::Add && ok ==> r == Turn::Next(Stage::Compare),
        stage == Stage::Compare && ok ==> r == Turn::Next(Stage::Tag { committed: false }),
        stage == Stage::Compare && !ok ==> r == Turn::Next(Stage::Commit),
        stage == Stage::Commit && ok ==> r == Turn::Next(Stage::Tag { committed: true }),
        ok ==> (stage matches Stage::Tag { committed } ==> r == Turn::Next(
            Stage::Push { committed },
        )),
        stage is Push && ok <==> r == Turn::Done,
        !ok ==> (stage matches Stage::Push { committed } ==> r == Turn::Next(
            Stage::Untag { committed },
        )),
        (stage == Stage::Reset || stage == Stage::Add || stage == Stage::Commit) && !ok
            ==> r == Turn::Failed(Failure::At(stage)),
{
}

/// A failed push is told as one that was undone, any other stage by what git was asked; where git
/// could not be started that is said instead.
pub proof fn law_failures_name_what_failed(
    failure: Failure,
    plan: &ReleasePlan,
    branch: &str,
    started: bool,
    r: String,
    stage: Stage,
    args: Vec<String>,
)
    requires
        call_ensures(failure_message, (failure, plan, branch, started), r),
        call_ensures(Failure::stage, (failure,), stage),
        call_ensures(stage_args, (stage, plan, branch), args),
    ensures
        failure matches Failure::At(at) ==> stage == at,
        failure matches Failure::Push { committed } ==> stage == (Stage::Push { committed }),
        ({
            let text = if started {
                "git "@ + joined(views(args@), " "@) + " failed"@
            } else {
                "could not run git"@
            };
            r@ == if failure is Push {
                "push failed. The local commit and tag were undone. "@ + text
            } else {
                text
            }
        }),
{
}

/// What was done is taken back after a failure: a commit after a failed tag, a tag and then the
/// commit after a failed push. What there was no commit of is not taken back, and whether taking
/// back succeeds makes no difference.
pub proof fn law_failures_are_taken_back(
    committed: bool,
    ok: bool,
    tag: Turn,
    untag: Turn,
    a: Turn,
    b: Turn,
)
    requires
        call_ensures(after_stage, (Stage::Tag { committed }, false), tag),
        call_ensures(after_stage, (Stage::Untag { committed }, ok), untag),
        call_ensures(after_stage, (Stage::UndoTag, ok), a),
        call_ensures(after_stage, (Stage::UndoPush, ok), b),
    ensures
        committed ==> tag == Turn::Next(Stage::UndoTag) && untag == Turn::Next(Stage::UndoPush),
        !committed ==> tag == Turn::Failed(Failure::At(Stage::Tag { committed: false })) && untag
            == Turn::Failed(Failure::Push { committed: false }),
        a == Turn::Failed(Failure::At(Stage::Tag { committed: true })),
        b == Turn::Failed(Failure::Push { committed: true }),
{
}

} // verus!
