use shellops::command::Output;
use shellops::release::{
    after_check, after_stage, bump_line, bump_packages, check_args, children, chosen_packages,
    default_branch, expand_workspace, failure_message, package, plan_bumped, plan_release,
    put_version, repo_name, select_bump, select_channel, select_packages, stage_args,
    version_package, workspace_package, workspace_packages, workspace_patterns, write_version,
    Check, CheckError, Expansion, Failure, ManifestError, Package, PlanError, ReleasePlan, Stage,
    Turn, Verdict,
};
use shellops::tags::{
    apply_bump, checked_bump, checked_prerelease_number, checked_release_base,
    next_prerelease_number, next_release_base, previous_tag, release_key, release_tag, Bump,
    Channel,
};
use shellops::tree::Tree;
use shellops::version::Version;
use std::cmp::Ordering;

fn strings(list: &[&str]) -> Vec<String> {
    list.iter().map(|item| item.to_string()).collect()
}

fn output(code: Option<i32>, stdout: &str, stderr: &str) -> Output {
    Output {
        code,
        stdout: stdout.to_string(),
        stderr: stderr.to_string(),
    }
}

fn named(name: &str, version: &str) -> Package {
    Package {
        name: name.to_string(),
        version: version.to_string(),
        manifest: format!("/work/{name}/package.json"),
        version_file: false,
    }
}

#[test]
fn bumps_and_prerelease_numbers() {
    assert_eq!(apply_bump("1.2.3", Bump::Patch).unwrap(), "1.2.4");
    assert_eq!(apply_bump("1.2.3", Bump::Minor).unwrap(), "1.3.0");
    assert_eq!(apply_bump("1.2.3", Bump::Major).unwrap(), "2.0.0");
    assert_eq!(apply_bump("1.2.3", Bump::Current).unwrap(), "1.2.3");
    let tags = vec![
        "auth-v1.0.34-rc.1".to_string(),
        "auth-v1.0.34-rc.4".to_string(),
        "auth-v1.0.35-rc.1".to_string(),
    ];
    assert_eq!(next_prerelease_number(&tags, "auth", "1.0.34", "rc"), 5);
    assert_eq!(next_prerelease_number(&tags, "auth", "1.0.36", "beta"), 1);
}

#[test]
fn release_tags_use_the_next_sequence_and_channel() {
    let tags = vec![
        "release-v2026.09.24.1".to_string(),
        "release-v2026.09.24.2-rc.1".to_string(),
        "release-v2026.09.24.10".to_string(),
        "release-v2026.09.23.9".to_string(),
    ];
    let base = next_release_base(&tags, "2026.09.24");
    assert_eq!(base, "release-v2026.09.24.11");
    assert_eq!(release_tag(&base, Channel::Stable, 1), base);
    assert_eq!(
        release_tag(&base, Channel::Rc, 2),
        "release-v2026.09.24.11-rc.2"
    );
    assert_eq!(
        previous_tag(&tags, "release-v2026.09.24.11").as_deref(),
        Some("release-v2026.09.24.10")
    );
    let only_v = vec![
        "v1.0.0".to_string(),
        "v1.2.0".to_string(),
        "auth-v1.0.0".to_string(),
    ];
    assert_eq!(previous_tag(&only_v, "v9.0.0").as_deref(), Some("v1.2.0"));
}

#[test]
fn versions_are_read_and_written() {
    let version = Version::parse("1.2.3-rc.1+build.5").unwrap();
    assert_eq!(version.major, 1);
    assert_eq!(version.minor, 2);
    assert_eq!(version.patch, 3);
    assert_eq!(version.pre, "rc.1");
    assert_eq!(version.build, "build.5");
    assert_eq!(version.text(), "1.2.3-rc.1+build.5");
    for text in ["", "1", "1.2", "01.2.3", "1.2.3-01", "1.2.3-", "v1.2.3", "1.2.3 "] {
        assert!(Version::parse(text).is_err(), "{text}");
    }
    assert!(Version::parse("18446744073709551615.0.0").is_ok());
    assert!(Version::parse("18446744073709551616.0.0").is_err());
}

#[test]
fn versions_have_an_order() {
    let sorted = [
        "1.0.0-1",
        "1.0.0-2",
        "1.0.0-10",
        "1.0.0-alpha",
        "1.0.0-alpha.1",
        "1.0.0-beta",
        "1.0.0",
        "1.0.0+1",
        "1.0.0+a",
        "1.0.1",
        "1.2.0",
        "2.0.0",
    ];
    for (i, left) in sorted.iter().enumerate() {
        for (j, right) in sorted.iter().enumerate() {
            let left = Version::parse(left).unwrap();
            let right = Version::parse(right).unwrap();
            assert_eq!(left.ordering(&right), i.cmp(&j));
            assert_eq!(left.is_older(&right), i.cmp(&j) == Ordering::Less);
        }
    }
}

#[test]
fn a_bump_drops_the_prerelease_and_the_build() {
    assert_eq!(apply_bump("1.2.3-rc.1+5", Bump::Current).unwrap(), "1.2.3");
    let error = apply_bump("nope", Bump::Patch).unwrap_err();
    assert_eq!(error.message, "invalid version nope");
    let full = "1.2.18446744073709551615";
    assert!(matches!(checked_bump(full, Bump::Patch), Ok(None)));
    assert_eq!(
        checked_bump(full, Bump::Minor).unwrap().as_deref(),
        Some("1.3.0")
    );
}

#[test]
fn numbers_of_tags_have_room_or_not() {
    let full = strings(&["a-v1.0.0-rc.4294967295", "release-v2026.01.01.4294967295"]);
    assert_eq!(checked_prerelease_number(&full, "a", "1.0.0", "rc"), None);
    assert_eq!(
        checked_prerelease_number(&full, "a", "1.0.0", "beta"),
        Some(1)
    );
    assert_eq!(checked_release_base(&full, "2026.01.01"), None);
    assert_eq!(
        checked_release_base(&full, "2026.01.02").as_deref(),
        Some("release-v2026.01.02.1")
    );
    let odd = strings(&["a-v1.0.0-rc.x", "a-v1.0.0-rc.+3", "a-v1.0.0-rc.2-x"]);
    assert_eq!(next_prerelease_number(&odd, "a", "1.0.0", "rc"), 4);
}

#[test]
fn release_keys_are_compared_by_number() {
    let key = release_key("release-v2026.09.24.10-rc.1");
    assert_eq!((key.year, key.month, key.day, key.seq), (2026, 9, 24, 10));
    let short = release_key("release-v2026");
    assert_eq!((short.year, short.month, short.day, short.seq), (2026, 0, 0, 0));
    assert!(short.is_before(key));
    assert!(!key.is_before(key));
    assert_eq!(previous_tag(&strings(&["release-v1", "x"]), "release-v1"), None);
    let twins = strings(&["release-v2026.1.1.1", "release-v2026.01.01.1"]);
    assert_eq!(
        previous_tag(&twins, "z").as_deref(),
        Some("release-v2026.01.01.1")
    );
}

#[test]
fn a_plan_names_its_packages() {
    let packages = vec![named("auth", "1.0.0"), named("web", "2.1.0")];
    let tags = strings(&["auth-v1.1.0-rc.2", "release-v2026.09.24.1"]);
    let plan = plan_release(packages, Bump::Minor, Channel::Rc, &tags, "2026.09.24")
        .unwrap()
        .unwrap();
    assert_eq!(plan.tag, "release-v2026.09.24.2-rc.3");
    assert_eq!(plan.suffix, "-rc.3");
    assert_eq!(plan.manifest, "auth@1.1.0 web@2.2.0");
    assert_eq!(plan.subject, "auth 1.1.0, web 2.2.0");
    assert_eq!(
        plan.lines(),
        vec![
            "versions  auth@1.1.0 web@2.2.0-rc.3",
            "tag       release-v2026.09.24.2-rc.3",
            "channel   rc",
        ]
    );
    assert_eq!(
        plan.question("main"),
        "Commit, push main and release-v2026.09.24.2-rc.3?"
    );
    assert_eq!(plan.commit_message(), "chore(release): auth 1.1.0, web 2.2.0");
    assert_eq!(
        plan.tag_message(),
        "release-v2026.09.24.2-rc.3\n\npackages: auth@1.1.0 web@2.2.0\nchannel: rc\n"
    );
    assert!(!tags.contains(&plan.tag));
}

#[test]
fn a_plan_fails_on_markers_and_versions() {
    let used = strings(&["auth-v1.0.1"]);
    match plan_release(
        vec![named("auth", "1.0.0")],
        Bump::Patch,
        Channel::Stable,
        &used,
        "2026.09.24",
    ) {
        Err(error) => {
            assert_eq!(error.message(), "marker tag auth-v1.0.1 already exists");
            assert!(matches!(error, PlanError::MarkerExists(marker) if marker == "auth-v1.0.1"));
        }
        other => panic!("{other:?}"),
    }
    match plan_release(
        vec![named("auth", "one")],
        Bump::Patch,
        Channel::Stable,
        &used,
        "2026.09.24",
    ) {
        Err(error) => {
            assert_eq!(error.message(), "invalid version one");
            assert!(matches!(error, PlanError::Version(_)));
        }
        other => panic!("{other:?}"),
    }
    let full = named("auth", "1.0.18446744073709551615");
    assert!(matches!(
        plan_release(vec![full], Bump::Patch, Channel::Stable, &used, "2026.09.24"),
        Ok(None)
    ));
}

fn plan() -> ReleasePlan {
    plan_release(
        vec![named("auth", "1.0.0")],
        Bump::Patch,
        Channel::Stable,
        &[],
        "2026.09.24",
    )
    .unwrap()
    .unwrap()
}

fn stages(failing: &[Stage]) -> (Vec<Stage>, Turn) {
    let mut stage = Stage::Reset;
    let mut seen = vec![stage];
    loop {
        match after_stage(stage, !failing.contains(&stage)) {
            Turn::Next(next) => {
                stage = next;
                seen.push(stage);
            }
            end => return (seen, end),
        }
    }
}

#[test]
fn a_release_is_committed_tagged_and_pushed() {
    let (seen, end) = stages(&[Stage::Compare]);
    assert_eq!(end, Turn::Done);
    let lines: Vec<String> = seen
        .iter()
        .map(|stage| stage_args(*stage, &plan(), "main").join(" "))
        .collect();
    assert_eq!(
        lines,
        vec![
            "reset -q HEAD",
            "add /work/auth/package.json",
            "diff --cached --quiet",
            "commit -m chore(release): auth 1.0.1",
            "tag -a release-v2026.09.24.1 -m release-v2026.09.24.1\n\npackages: auth@1.0.1\nchannel: stable\n",
            "push --atomic origin main refs/tags/release-v2026.09.24.1",
        ]
    );
}

#[test]
fn a_failed_release_is_taken_back() {
    let committed = true;
    let (seen, end) = stages(&[Stage::Compare, Stage::Push { committed }]);
    assert_eq!(
        seen[seen.len() - 2..],
        [Stage::Untag { committed }, Stage::UndoPush]
    );
    assert_eq!(
        stage_args(Stage::UndoPush, &plan(), "main"),
        vec!["reset", "--mixed", "HEAD~1"]
    );
    assert_eq!(
        stage_args(Stage::Untag { committed }, &plan(), "main"),
        vec!["tag", "-d", "release-v2026.09.24.1"]
    );
    let Turn::Failed(failure) = end else {
        panic!("the push failed");
    };
    assert_eq!(
        failure_message(failure, &plan(), "main", true),
        "push failed. The local commit and tag were undone. git push --atomic origin main refs/tags/release-v2026.09.24.1 failed"
    );
    assert_eq!(
        failure_message(failure, &plan(), "main", false),
        "push failed. The local commit and tag were undone. could not run git"
    );
    assert_eq!(failure.stage(), Stage::Push { committed });
    let (seen, end) = stages(&[Stage::Compare, Stage::Tag { committed }]);
    assert_eq!(seen.last(), Some(&Stage::UndoTag));
    assert_eq!(end, Turn::Failed(Failure::At(Stage::Tag { committed })));
    let (seen, _) = stages(&[Stage::Push { committed: false }]);
    assert!(!seen.contains(&Stage::UndoPush));
    let (seen, end) = stages(&[Stage::Add]);
    assert_eq!(seen.len(), 2);
    assert_eq!(end, Turn::Failed(Failure::At(Stage::Add)));
    let failure = Failure::At(Stage::Add);
    assert_eq!(failure.stage(), Stage::Add);
    assert_eq!(
        failure_message(failure, &plan(), "main", false),
        "could not run git"
    );
}

fn checks(answers: &[Output]) -> Result<Verdict, CheckError> {
    let mut check = Check::Default;
    for answer in answers {
        match after_check(check.clone(), answer)? {
            Verdict::Next(next) | Verdict::Ask(next) => check = next,
            passed => return Ok(passed),
        }
    }
    Ok(Verdict::Next(check))
}

#[test]
fn a_release_is_cut_from_what_the_remote_has() {
    let good = |text: &str| output(Some(0), text, "");
    let passed = checks(&[
        good("origin/trunk\n"),
        good("trunk\n"),
        good(""),
        good(""),
        good("abc\n"),
        good("abc\n"),
    ]);
    assert_eq!(
        passed,
        Ok(Verdict::Passed {
            branch: "trunk".to_string()
        })
    );
    let behind = checks(&[
        output(Some(1), "", ""),
        good("main"),
        good(" M file"),
        good(""),
        good("abc"),
        good("def"),
    ])
    .unwrap_err();
    assert_eq!(behind.message(), "HEAD does not match origin/main");
    let other = checks(&[good("origin/main"), good("work")]).unwrap_err();
    assert_eq!(
        other.message(),
        "releases are cut from main (currently on work)"
    );
    let broken = checks(&[good("origin/main"), output(Some(128), "", " bad \n")]).unwrap_err();
    assert_eq!(broken.message(), "git branch --show-current failed: bad");
    let offline = checks(&[
        good("origin/main"),
        good("main"),
        good(""),
        output(Some(1), "", "no net"),
    ])
    .unwrap_err();
    assert_eq!(
        offline.message(),
        "git fetch --tags --prune origin failed"
    );
    assert_eq!(default_branch(&output(Some(1), "", "")), "main");
    assert_eq!(
        check_args(&Check::Remote {
            branch: "main".to_string(),
            head: String::new()
        }),
        vec!["rev-parse", "origin/main"]
    );
}

#[test]
fn uncommitted_changes_are_asked_about() {
    let verdict = after_check(
        Check::Changes {
            branch: "main".to_string(),
        },
        &output(Some(0), " M file\n", ""),
    );
    assert!(matches!(verdict, Ok(Verdict::Ask(Check::Fetch { .. }))));
}

#[test]
fn workspaces_are_lists_of_patterns() {
    let list = workspace_patterns(r#"{"workspaces": ["packages/*", 3, "app"]}"#).unwrap();
    assert_eq!(list, Some(strings(&["packages/*", "app"])));
    let object = workspace_patterns(r#"{"workspaces": {"packages": ["a"]}}"#).unwrap();
    assert_eq!(object, Some(strings(&["a"])));
    assert_eq!(workspace_patterns(r#"{"workspaces": "a"}"#).unwrap(), Some(vec![]));
    assert_eq!(workspace_patterns(r#"{"name": "a"}"#).unwrap(), None);
    assert!(workspace_patterns("{").is_err());
    assert_eq!(
        expand_workspace("/work", "packages/*"),
        Expansion::Children("/work/packages".to_string())
    );
    assert_eq!(
        expand_workspace("/work", "app"),
        Expansion::One("/work/app".to_string())
    );
    assert_eq!(expand_workspace("/work", "a*/b"), Expansion::Nothing);
    assert_eq!(expand_workspace("/work", "*/*"), Expansion::Nothing);
}

#[test]
fn packages_are_read_from_their_manifests() {
    let found = workspace_package("/work/app", r#"{"version": "1.2.3"}"#).unwrap();
    assert_eq!(found.name, "app");
    assert_eq!(found.version, "1.2.3");
    assert_eq!(found.manifest, "/work/app/package.json");
    assert!(!found.version_file);
    assert_eq!(package("/work/..", &Tree::Null).name, "package");
    assert_eq!(package("/work/app", &Tree::Null).version, "0.0.0");
    assert!(workspace_package("/work/app", "nope").is_err());
    let single = version_package("/work", "auth".to_string(), Some(" 1.0.0\n".to_string()));
    assert_eq!(single.version, "1.0.0");
    assert_eq!(single.manifest, "/work/VERSION");
    assert_eq!(
        version_package("/work", "auth".to_string(), Some(" \n".to_string())).version,
        "0.0.0"
    );
}

#[test]
fn workspaces_have_a_package_in_each_directory_with_a_manifest() {
    assert_eq!(
        children("/work/packages", &strings(&["web", "auth", "Zed"])),
        vec!["/work/packages/Zed", "/work/packages/auth", "/work/packages/web"]
    );
    let dirs = vec![
        ("/work/a".to_string(), Some(r#"{"version": "1.0.0"}"#.to_string())),
        ("/work/b".to_string(), None),
        ("/work/c".to_string(), Some("{}".to_string())),
    ];
    let found = workspace_packages(&dirs).unwrap();
    let seen: Vec<(&str, &str)> = found
        .iter()
        .map(|package| (package.name.as_str(), package.version.as_str()))
        .collect();
    assert_eq!(seen, vec![("a", "1.0.0"), ("c", "0.0.0")]);
    let broken = vec![("/work/a".to_string(), Some("{".to_string()))];
    assert!(workspace_packages(&broken).is_err());
}

#[test]
fn repositories_have_names() {
    let github = output(Some(0), "git@github.com:a/auth.git\n", "");
    assert_eq!(repo_name(&github, "/work").unwrap(), "auth");
    assert_eq!(repo_name(&output(Some(1), "", ""), "/work").unwrap(), "work");
    assert_eq!(
        repo_name(&output(Some(1), "", ""), "/").unwrap_err(),
        "could not determine the repository name"
    );
}

#[test]
fn packages_are_chosen_from_a_list() {
    let packages = vec![named("auth", "1.0.0"), named("web", "2.0.0")];
    assert_eq!(
        select_packages(&packages).unwrap(),
        vec!["auth (1.0.0)", "web (2.0.0)", "all", "quit"]
    );
    assert_eq!(
        select_packages(&[]).unwrap_err(),
        "package.json workspaces did not match any packages"
    );
    assert_eq!(chosen_packages(packages.clone(), 1), vec![named("web", "2.0.0")]);
    assert_eq!(chosen_packages(packages.clone(), 2), packages);
    assert!(chosen_packages(packages, 3).is_empty());
    assert_eq!(select_bump(3), Some(Bump::Current));
    assert_eq!(select_bump(4), None);
    assert_eq!(select_channel(1), Some(Channel::Rc));
    assert_eq!(select_channel(4), None);
    assert_eq!(
        bump_line(&named("auth", "1.2.3")).as_deref(),
        Some("auth 1.2.3 -> patch 1.2.4 / minor 1.3.0 / major 2.0.0")
    );
    assert_eq!(
        bump_line(&named("auth", "x")).as_deref(),
        Some("auth x -> patch  / minor  / major ")
    );
    assert_eq!(bump_line(&named("auth", "1.2.18446744073709551615")), None);
}

#[test]
fn versions_are_put_into_manifests() {
    let file = Package {
        version_file: true,
        ..named("auth", "1.2.3")
    };
    assert_eq!(write_version(&file, "").unwrap(), "1.2.3\n");
    let body = write_version(
        &named("auth", "1.2.3"),
        r#"{"version":"1.0.0","name":"auth","list":[1,2.5,true,null]}"#,
    )
    .unwrap();
    assert_eq!(
        body,
        "{\n  \"list\": [\n    1,\n    2.5,\n    true,\n    null\n  ],\n  \"name\": \"auth\",\n  \"version\": \"1.2.3\"\n}\n"
    );
    assert_eq!(
        workspace_package("/work/auth", &body).unwrap().version,
        "1.2.3"
    );
    assert!(matches!(
        write_version(&named("auth", "1.2.3"), "{"),
        Err(ManifestError::Unreadable(_))
    ));
    assert_eq!(put_version(Tree::Boolean(true), "1"), Tree::Boolean(true));
}

#[test]
fn what_a_release_writes_the_next_one_reads() {
    let file = Package {
        version_file: true,
        ..named("auth", "1.2.3-rc.1+5")
    };
    let body = write_version(&file, "ignored").unwrap();
    let again = version_package("/work", "auth".to_string(), Some(body));
    assert_eq!(again.version, "1.2.3-rc.1+5");
    let deep = format!("{}1{}", "[".repeat(126), "]".repeat(126));
    let manifest = format!(
        r#"{{"a":{deep},"b":-9223372036854775808,"c":18446744073709551615,"d\u0000\n\"é":"\u001b\\","":{{}},"e":[]}}"#
    );
    let body = write_version(&named("auth", "9.9.9"), &manifest).unwrap();
    assert!(body.ends_with("}\n"));
    assert!(body.contains("-9223372036854775808"));
    assert!(body.contains("18446744073709551615"));
    let again = workspace_package("/work/auth", &body).unwrap();
    assert_eq!(again.version, "9.9.9");
    assert_eq!(write_version(&again, &body).unwrap(), body);
}

#[test]
fn fractions_in_manifests_keep_their_digits() {
    let mut seed: u64 = 7;
    for _ in 0..5000 {
        seed = seed.wrapping_mul(6364136223846793005).wrapping_add(1442695040888963407);
        let digits = seed % 10_000_000_000_000_000;
        let power = (seed >> 57) as i64 - 64;
        let manifest = format!(r#"{{"a":0.{digits:016},"b":-{digits}e{power},"version":"1.0.0"}}"#);
        let read = serde_json::from_str::<serde_json::Value>(&manifest).unwrap();
        let expected = serde_json::to_string_pretty(&read).unwrap() + "\n";
        assert_eq!(
            write_version(&named("auth", "1.0.0"), &manifest).unwrap(),
            expected
        );
    }
}

#[test]
fn whole_numbers_beyond_the_machine_become_fractions() {
    let body = write_version(
        &named("auth", "1.0.0"),
        r#"{"big":18446744073709551616,"low":-9223372036854775809,"no":-0,"one":1.0}"#,
    )
    .unwrap();
    assert_eq!(
        body,
        "{\n  \"big\": 1.8446744073709552e+19,\n  \"low\": -9.223372036854776e+18,\n  \"no\": -0.0,\n  \"one\": 1.0,\n  \"version\": \"1.0.0\"\n}\n"
    );
}

#[test]
fn versions_are_bumped_before_tags_are_asked_for() {
    let bumped = bump_packages(vec![named("auth", "1.0.0")], Bump::Minor)
        .unwrap()
        .unwrap();
    assert_eq!(bumped[0].version, "1.1.0");
    let plan = plan_bumped(bumped, Channel::Beta, &[], "2026.09.24")
        .unwrap()
        .unwrap();
    assert_eq!(plan.tag, "release-v2026.09.24.1-beta.1");
    assert_eq!(plan.manifest, "auth@1.1.0");
    let error = bump_packages(vec![named("auth", "1.0")], Bump::Minor).unwrap_err();
    assert_eq!(error.message, "invalid version 1.0");
}

#[test]
fn tags_count_up() {
    let mut tags = strings(&["release-v2026.09.24.7", "auth-v1.0.0-rc.3", "other"]);
    for (number, channel) in [(8, Channel::Stable), (9, Channel::Rc), (10, Channel::Alpha)] {
        let base = next_release_base(&tags, "2026.09.24");
        assert_eq!(base, format!("release-v2026.09.24.{number}"));
        tags.push(release_tag(&base, channel, 1));
    }
    for expected in [4, 5, 6] {
        let number = next_prerelease_number(&tags, "auth", "1.0.0", "rc");
        assert_eq!(number, expected);
        tags.push(format!("auth-v1.0.0-rc.{number}"));
    }
    assert_eq!(next_prerelease_number(&tags, "auth", "1.0.0", "beta"), 1);
}
