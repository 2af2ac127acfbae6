//! Releases: which packages, under which tag, and what git does for them.

pub mod checks;
pub mod packages;
pub mod plan;
pub mod push;

pub use checks::{after_check, check_args, default_branch, Check, CheckError, Verdict};
pub use packages::{
    bump_line, children, chosen_packages, expand_workspace, package, patterns, put_version,
    repo_name, select_bump, select_channel, select_packages, version_package, workspace_package,
    workspace_packages, workspace_patterns, write_version, Expansion, ManifestError, Package,
};
pub use plan::{bump_packages, plan_bumped, plan_release, PlanError, ReleasePlan};
pub use push::{after_stage, failure_message, stage_args, Failure, Stage, Turn};
