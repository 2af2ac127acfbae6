use flate2::write::GzEncoder;
use flate2::Compression;
use shellops::ui::Theme;
use shellops::update::{
    asset_name_for, asset_url, browser_command, cache_entry, cache_is_fresh, cache_path, check_sum,
    compare_versions, display_version, expected_checksum, extract_binary, install_binary_path,
    install_verified_release, is_program, newer_version, open_github, opened, outdated_message,
    parse_version, resolve_fetched, resolve_latest, run_update, sha256_file, to_hex, update_check_suppressed,
    Asset, InstallError, Release, UpdateCache, UpdateError, UpdateStep, CHECK_INTERVAL_SECS,
    REPO_URL,
};
use std::cmp::Ordering;
use std::sync::atomic::{AtomicUsize, Ordering as AtomicOrdering};

fn archive(entries: &[(&str, &[u8])]) -> Vec<u8> {
    let mut builder = tar::Builder::new(GzEncoder::new(Vec::new(), Compression::default()));
    for (path, contents) in entries {
        let mut header = tar::Header::new_gnu();
        header.set_size(contents.len() as u64);
        header.set_mode(0o755);
        builder.append_data(&mut header, path, *contents).unwrap();
    }
    builder.into_inner().unwrap().finish().unwrap()
}

#[test]
fn version_order_ignores_a_v_prefix() {
    assert_eq!(compare_versions("1.0.0", "1.1.0").unwrap(), Ordering::Less);
    assert_eq!(
        compare_versions("v1.2.0", "1.2.0").unwrap(),
        Ordering::Equal
    );
    assert_eq!(
        compare_versions("v1.3.0", "1.2.0").unwrap(),
        Ordering::Greater
    );
}

#[test]
fn suppressed_when_disabled_or_not_a_tty() {
    assert!(update_check_suppressed(true, true));
    assert!(update_check_suppressed(false, false));
    assert!(!update_check_suppressed(false, true));
}

#[test]
fn linux_assets_are_musl() {
    assert_eq!(
        asset_name_for("linux", "x86_64").unwrap(),
        "so-x86_64-unknown-linux-musl.tar.gz"
    );
    assert_eq!(
        asset_name_for("linux", "aarch64").unwrap(),
        "so-aarch64-unknown-linux-musl.tar.gz"
    );
}

#[test]
fn fresh_cache_skips_the_network() {
    let cached = Some(cache_entry(1_700_000_000, "0.9.0"));
    let calls = AtomicUsize::new(0);
    let (found, written) = resolve_latest(cached, 1_700_000_000 + 60, "0.4.0", || {
        calls.fetch_add(1, AtomicOrdering::SeqCst);
        Some("1.0.0".to_string())
    });
    assert_eq!(calls.load(AtomicOrdering::SeqCst), 0);
    assert_eq!(found.as_deref(), Some("0.9.0"));
    assert_eq!(written, None);
}

#[test]
fn stale_cache_uses_the_fetch() {
    let cached = Some(cache_entry(1_700_000_000, "0.9.0"));
    let now = 1_700_000_000 + CHECK_INTERVAL_SECS;
    let (found, written) = resolve_latest(cached, now, "0.4.0", || Some("1.2.0".to_string()));
    assert_eq!(found.as_deref(), Some("1.2.0"));
    assert_eq!(written, Some(cache_entry(now, "1.2.0")));
}

#[test]
fn bad_checksum_leaves_the_binary_in_place() {
    let asset = "so-aarch64-apple-darwin.tar.gz";
    let sums = "aaaaaaaaaaaaaaaaaaaaaaaaaaaaaaaaaaaaaaaaaaaaaaaaaaaaaaaaaaaaaaaa  so-aarch64-apple-darwin.tar.gz\n";
    let err = install_verified_release(b"not-the-archive", sums, asset).unwrap_err();
    assert!(err.message().contains("checksum mismatch"));
}

#[test]
fn verified_archive_replaces_the_destination() {
    let asset = "so-aarch64-apple-darwin.tar.gz";
    let archive = archive(&[("so", b"new-binary")]);
    let sums = format!("{}  {asset}\n", sha256_file(&archive));
    assert_eq!(
        install_verified_release(&archive, &sums, asset).unwrap(),
        b"new-binary"
    );
}

#[test]
fn digests_are_written_in_hexadecimal() {
    assert_eq!(
        sha256_file(b"abc"),
        "ba7816bf8f01cfea414140de5dae2223b00361a396177a9cb410ff61f20015ad"
    );
    assert_eq!(to_hex(&[0, 15, 160, 255]), "000fa0ff");
    assert_eq!(to_hex(&[]), "");
}

#[test]
fn checksums_are_found_by_name() {
    let hash = "AB".repeat(32);
    let sums = format!("# comment\n\n{hash} other\nshort\n  {hash}  *asset extra\n");
    assert_eq!(expected_checksum(&sums, "asset").unwrap(), "ab".repeat(32));
    let none = expected_checksum(&sums, "missing").unwrap_err();
    assert_eq!(none, InstallError::NoEntry("missing".to_string()));
    assert_eq!(none.message(), "SHA256SUMS has no entry for missing");
    for bad in ["ab".repeat(31), "zz".repeat(32)] {
        let error = expected_checksum(&format!("{bad} asset"), "asset").unwrap_err();
        assert_eq!(error, InstallError::InvalidEntry("asset".to_string()));
        assert_eq!(error.message(), "SHA256SUMS has an invalid entry for asset");
    }
    let error = check_sum("a".to_string(), "b".to_string(), "asset").unwrap_err();
    assert_eq!(
        error.message(),
        "checksum mismatch for asset: expected a actual b"
    );
    assert_eq!(check_sum("a".to_string(), "a".to_string(), "asset"), Ok(()));
}

#[test]
fn the_program_is_found_by_its_name() {
    let packed = archive(&[("README", b"read"), ("bin/so", b"first"), ("so", b"second")]);
    assert_eq!(extract_binary(&packed).unwrap(), b"first");
    let error = extract_binary(&archive(&[("sol", b"x")])).unwrap_err();
    assert_eq!(error.message(), "archive does not contain so");
    let error = extract_binary(b"no archive").unwrap_err();
    assert!(matches!(error, InstallError::Entry(_)));
    assert_eq!(error.message(), "could not read tar entry");
    let noise: Vec<u8> = (0..100_000u32)
        .map(|n| (n.wrapping_mul(2_654_435_761) >> 13) as u8)
        .collect();
    let packed = archive(&[("so", &noise)]);
    assert_eq!(extract_binary(&packed).unwrap(), noise);
    let error = extract_binary(&packed[..packed.len() / 2]).unwrap_err();
    assert!(matches!(error, InstallError::Contents(_)));
    assert_eq!(error.message(), "could not extract so");
    assert!(is_program(b"a/so"));
    assert!(is_program(b"so/"));
    assert!(!is_program(b"so/.."));
    assert!(!is_program(b"soo"));
}

#[test]
fn versions_are_shown_without_a_prefix() {
    assert_eq!(display_version(" V1.2.3-rc.1\n").unwrap(), "1.2.3-rc.1");
    assert_eq!(parse_version("v1.2.3").unwrap().minor, 2);
    let error = display_version("vv1.2.3").unwrap_err();
    assert_eq!(error.message, "invalid version: vv1.2.3");
    assert!(compare_versions("1.0.0", "x").is_err());
    assert_eq!(newer_version("v1.1.0", "1.0.0").as_deref(), Some("1.1.0"));
    assert_eq!(newer_version("1.0.0", "1.0.0"), None);
    assert_eq!(newer_version("x", "1.0.0"), None);
    assert_eq!(
        outdated_message("1.0.0", "1.1.0"),
        "so 1.0.0 is outdated. Latest is 1.1.0. Run so update."
    );
}

#[test]
fn the_cache_is_fresh_for_a_day() {
    let entry = UpdateCache {
        checked_at: 1000,
        latest: "1.0.0".to_string(),
    };
    assert!(cache_is_fresh(&entry, 1000));
    assert!(cache_is_fresh(&entry, 1000 + CHECK_INTERVAL_SECS - 1));
    assert!(!cache_is_fresh(&entry, 1000 + CHECK_INTERVAL_SECS));
    assert!(!cache_is_fresh(&entry, 999));
    let old = UpdateCache {
        checked_at: i64::MIN,
        latest: String::new(),
    };
    assert!(!cache_is_fresh(&old, i64::MAX));
    assert_eq!(cache_entry(7, "v1.0.0").latest, "1.0.0");
    assert_eq!(cache_entry(7, "odd").latest, "odd");
    let (answer, written) = resolve_fetched(Some(entry), 5, "0.1.0", None);
    assert_eq!(answer.as_deref(), Some("1.0.0"));
    assert_eq!(written, None);
    assert_eq!(resolve_fetched(None, 5, "0.1.0", None), (None, None));
}

#[test]
fn platforms_have_assets_and_browsers() {
    assert_eq!(
        asset_name_for("macos", "aarch64").unwrap(),
        "so-aarch64-apple-darwin.tar.gz"
    );
    assert_eq!(
        asset_name_for("macos", "x86_64").unwrap(),
        "so-x86_64-apple-darwin.tar.gz"
    );
    assert_eq!(
        asset_name_for("windows", "x86_64").unwrap_err(),
        "unsupported platform: windows x86_64"
    );
    assert_eq!(browser_command("macos"), Some(("open", vec![])));
    assert_eq!(browser_command("linux"), Some(("xdg-open", vec![])));
    assert_eq!(browser_command("windows"), None);
    assert_eq!(
        open_github("linux"),
        Some(("xdg-open", vec![REPO_URL.to_string()]))
    );
    assert_eq!(open_github("windows"), None);
    assert_eq!(
        opened(Theme::plain(), true).unwrap(),
        "Opened https://github.com/SherinBloemendaal/shellops-cli"
    );
    assert_eq!(
        opened(Theme::plain(), false).unwrap_err(),
        "could not open https://github.com/SherinBloemendaal/shellops-cli"
    );
}

#[test]
fn paths_lie_in_the_home_directory() {
    assert_eq!(
        install_binary_path(None, "/home/ann/.shellops"),
        "/home/ann/.shellops/bin/so"
    );
    assert_eq!(
        install_binary_path(Some("/opt".to_string()), "/home/ann/.shellops"),
        "/opt/so"
    );
    assert_eq!(
        cache_path("/home/ann/.shellops"),
        "/home/ann/.shellops/update-check.json"
    );
}

fn release(tag: &str) -> Release {
    let asset = |name: &str| Asset {
        name: name.to_string(),
        browser_download_url: format!("https://example.com/{name}"),
    };
    Release {
        tag_name: tag.to_string(),
        assets: vec![
            asset("so-x86_64-unknown-linux-musl.tar.gz"),
            asset("SHA256SUMS"),
        ],
    }
}

#[test]
fn a_newer_release_is_installed() {
    let step = run_update(Theme::plain(), &release("v1.1.0"), "1.0.0", "linux", "x86_64").unwrap();
    let UpdateStep::Install(plan) = step else {
        panic!("the release is newer");
    };
    assert_eq!(plan.latest, "1.1.0");
    assert_eq!(plan.title, "Updating so 1.0.0 ➜ 1.1.0");
    assert_eq!(plan.asset, "so-x86_64-unknown-linux-musl.tar.gz");
    assert_eq!(
        plan.archive_url,
        "https://example.com/so-x86_64-unknown-linux-musl.tar.gz"
    );
    assert_eq!(plan.sums_url, "https://example.com/SHA256SUMS");
    assert_eq!(plan.done, "Updated so to 1.1.0");
    match run_update(Theme::plain(), &release("v1.0.0"), "1.0.0", "x", "y").unwrap() {
        UpdateStep::UpToDate(line) => assert_eq!(line, "1.0.0 is up to date"),
        UpdateStep::Install(_) => panic!("the release is not newer"),
    }
}

#[test]
fn updates_fail_on_odd_releases() {
    match run_update(Theme::plain(), &release("nope"), "1.0.0", "linux", "x86_64") {
        Err(UpdateError::Version(error)) => assert_eq!(error.message, "invalid version: nope"),
        _ => panic!("the tag is no version"),
    }
    match run_update(Theme::plain(), &release("v2.0.0"), "1.0.0", "linux", "aarch64") {
        Err(UpdateError::Asset(text)) => assert_eq!(
            text,
            "release v2.0.0 has no so-aarch64-unknown-linux-musl.tar.gz"
        ),
        _ => panic!("the asset is missing"),
    }
    assert_eq!(
        asset_url(&release("v2.0.0"), "SHA256SUMS").unwrap(),
        "https://example.com/SHA256SUMS"
    );
}
