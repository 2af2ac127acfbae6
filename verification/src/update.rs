//! Newer versions of the program.

use crate::number::{decimal, lemma_decimal};
use crate::project::{file_name, file_name_of, join_path, lemma_file_name, path_in};
use crate::tags::VersionError;
use crate::text::{
    chars_of, glue, glue3, has_prefix, hex, is_digit, is_hex, is_space,
    law_words_have_no_white_space, lemma_trimmed, lines, lines_of, same, starts_with, strip_prefix,
    trim, trimmed, view_opt, views, without_prefix, words, words_of,
};
use crate::ui::{painted, signs, Style, Theme};
use crate::version::{
    law_reading_gives_back_what_was_written, law_versions_are_totally_ordered,
    law_versions_go_by_their_numbers, lemma_text_chars, parsed, Version, VersionView,
};
use std::cmp::Ordering;
use vstd::prelude::*;

verus! {

/// Where the program is kept.
pub const REPO_URL: &'static str = "https://github.com/SherinBloemendaal/shellops-cli";

/// Where its latest release is described.
pub const LATEST_API: &'static str =
    "https://api.github.com/repos/SherinBloemendaal/shellops-cli/releases/latest";

/// How long an answer about the latest version holds, in seconds.
pub const CHECK_INTERVAL_SECS: i64 = 86_400;

/// Whether nobody is told about newer versions.
pub fn update_check_suppressed(disabled: bool, stdout_tty: bool) -> (r: bool)
    ensures
        r == (disabled || !stdout_tty),
{
    disabled || !stdout_tty
}

// Versions.

/// A version without what people write around it: white space, and one `v` or `V` before it.
pub open spec fn version_text(raw: Seq<char>) -> Seq<char> {
    let text = trimmed(raw);
    match without_prefix(text, "v"@) {
        Some(rest) => rest,
        None => match without_prefix(text, "V"@) {
            Some(rest) => rest,
            None => text,
        },
    }
}

/// The version that a text stands for.
pub open spec fn version_of(raw: Seq<char>) -> Option<VersionView> {
    parsed(version_text(raw))
}

/// The version that a text stands for.
pub fn parse_version(raw: &str) -> (r: Result<Version, VersionError>)
    ensures
        match r {
            Ok(version) => version@.valid() && version_of(raw@) == Some(version@),
            Err(error) => version_of(raw@) is None && error.message@ == "invalid version: "@
                + raw@,
        },
{
    let text = trim(raw);
    let bare = match strip_prefix(text.as_str(), "v") {
        Some(rest) => rest,
        None => match strip_prefix(text.as_str(), "V") {
            Some(rest) => rest,
            None => text,
        },
    };
    match Version::parse(bare.as_str()) {
        Ok(version) => Ok(version),
        Err(cause) => Err(VersionError { message: glue("invalid version: ", raw), cause }),
    }
}

/// The version that a text stands for, in writing.
pub fn display_version(raw: &str) -> (r: Result<String, VersionError>)
    ensures
        match version_of(raw@) {
            Some(version) => r matches Ok(text) && text@ == version.text(),
            None => r matches Err(error) && error.message@ == "invalid version: "@ + raw@,
        },
{
    match parse_version(raw) {
        Ok(version) => Ok(version.text()),
        Err(error) => Err(error),
    }
}

/// The order of the versions that two texts stand for.
pub fn compare_versions(left: &str, right: &str) -> (r: Result<Ordering, VersionError>)
    ensures
        match (version_of(left@), version_of(right@)) {
            (Some(a), Some(b)) => r matches Ok(order) && match order {
                Ordering::Less => a.older(b),
                Ordering::Equal => a == b,
                Ordering::Greater => b.older(a),
            },
            (None, _) => r matches Err(error) && error.message@ == "invalid version: "@ + left@,
            (_, None) => r matches Err(error) && error.message@ == "invalid version: "@ + right@,
        },
{
    match parse_version(left) {
        Err(error) => Err(error),
        Ok(a) => match parse_version(right) {
            Err(error) => Err(error),
            Ok(b) => Ok(a.ordering(&b)),
        },
    }
}

/// A version in writing stands for itself.
pub proof fn law_written_versions_stand_for_themselves(version: VersionView)
    requires
        version.valid(),
    ensures
        version_of(version.text()) == Some(version),
{
    let text = version.text();
    lemma_text_chars(version);
    law_reading_gives_back_what_was_written(version);
    lemma_trimmed(text);
    reveal_strlit("v");
    reveal_strlit("V");
    assert(is_digit(text[0]));
    assert(text.take(1)[0] == text[0]);
}

/// One `v` or `V` before a version makes no difference.
pub proof fn law_a_v_before_a_version_is_ignored(version: VersionView)
    requires
        version.valid(),
    ensures
        version_of("v"@ + version.text()) == Some(version),
        version_of("V"@ + version.text()) == Some(version),
{
    let text = version.text();
    lemma_text_chars(version);
    law_reading_gives_back_what_was_written(version);
    reveal_strlit("v");
    reveal_strlit("V");
    lemma_trimmed("v"@ + text);
    lemma_trimmed("V"@ + text);
    assert(("v"@ + text).skip(1) =~= text);
    assert(("V"@ + text).skip(1) =~= text);
    assert(("v"@ + text).take(1) =~= "v"@);
    assert(("V"@ + text).take(1) =~= "V"@);
    assert(("V"@ + text).take(1)[0] != "v"@[0]);
}

/// The latest version in writing, where it is newer than the current one.
pub open spec fn newer(latest: Seq<char>, current: Seq<char>) -> Option<Seq<char>> {
    match (version_of(latest), version_of(current)) {
        (Some(a), Some(b)) => if b.older(a) {
            Some(a.text())
        } else {
            None
        },
        _ => None,
    }
}

/// The latest version in writing, where it is newer than the current one.
pub fn newer_version(latest: &str, current: &str) -> (r: Option<String>)
    ensures
        view_opt(r) == newer(latest@, current@),
{
    match parse_version(latest) {
        Err(_) => None,
        Ok(a) => match parse_version(current) {
            Err(_) => None,
            Ok(b) => if b.is_older(&a) {
                Some(a.text())
            } else {
                None
            },
        },
    }
}

/// The line about a newer version.
pub fn outdated_message(current: &str, latest: &str) -> (r: String)
    ensures
        r@ == "so "@ + current@ + " is outdated. Latest is "@ + latest@ + ". Run so update."@,
{
    let mut out = glue3("so ", current, " is outdated. Latest is ");
    out.append(latest);
    out.append(". Run so update.");
    out
}

// The answer that is kept.

/// An answer about the latest version, and when it was given.
#[derive(Debug, Clone, PartialEq, Eq)]
pub struct UpdateCache {
    pub checked_at: i64,
    pub latest: String,
}

/// Whether an answer still holds: it is not from the future, and younger than a day.
pub open spec fn fresh(cache: UpdateCache, now: int) -> bool {
    0 <= now - cache.checked_at < CHECK_INTERVAL_SECS
}

/// Whether an answer still holds.
pub fn cache_is_fresh(cache: &UpdateCache, now: i64) -> (r: bool)
    ensures
        r == fresh(*cache, now as int),
{
    if now < cache.checked_at {
        return false;
    }
    if cache.checked_at < 0 && now >= 0 {
        if now > i64::MAX + cache.checked_at {
            return false;
        }
    }
    now - cache.checked_at < CHECK_INTERVAL_SECS
}

/// What is kept of an answer: a version is kept in writing, anything else as it is.
pub open spec fn kept(latest: Seq<char>) -> Seq<char> {
    match version_of(latest) {
        Some(version) => version.text(),
        None => latest,
    }
}

/// What is kept of an answer.
pub fn cache_entry(now: i64, latest: &str) -> (r: UpdateCache)
    ensures
        r.checked_at == now,
        r.latest@ == kept(latest@),
{
    let text = match display_version(latest) {
        Ok(text) => text,
        Err(_) => latest.to_string(),
    };
    UpdateCache { checked_at: now, latest: text }
}

/// What follows from an answer that was fetched, or from the lack of one: the newer version, and
/// the answer to keep. Without a new answer the old one counts, however old.
pub open spec fn resolved(
    cached: Option<UpdateCache>,
    fetched: Option<Seq<char>>,
    current: Seq<char>,
) -> Option<Seq<char>> {
    match fetched {
        Some(latest) => newer(latest, current),
        None => match cached {
            Some(cache) => newer(cache.latest@, current),
            None => None,
        },
    }
}

/// What follows from an answer that was fetched, or from the lack of one.
pub fn resolve_fetched(
    cached: Option<UpdateCache>,
    now: i64,
    current: &str,
    fetched: Option<String>,
) -> (r: (Option<String>, Option<UpdateCache>))
    ensures
        view_opt(r.0) == resolved(cached, view_opt(fetched), current@),
        match fetched {
            Some(latest) => r.1 matches Some(cache) && cache.checked_at == now && cache.latest@
                == kept(latest@),
            None => r.1 is None,
        },
{
    match fetched {
        Some(latest) => (
            newer_version(latest.as_str(), current),
            Some(cache_entry(now, latest.as_str())),
        ),
        None => match cached {
            Some(cache) => (newer_version(cache.latest.as_str(), current), None),
            None => (None, None),
        },
    }
}

/// The newer version, and the answer to keep where one was fetched. An answer that still holds
/// is not asked for again.
pub fn resolve_latest<F: FnOnce() -> Option<String>>(
    cached: Option<UpdateCache>,
    now: i64,
    current: &str,
    fetch: F,
) -> (r: (Option<String>, Option<UpdateCache>))
    requires
        fetch.requires(()),
    ensures
        match cached {
            Some(cache) if fresh(cache, now as int) => view_opt(r.0) == newer(
                cache.latest@,
                current@,
            ) && r.1 is None,
            _ => exists|fetched: Option<String>| #[trigger]
                fetch.ensures((), fetched) && view_opt(r.0) == resolved(
                    cached,
                    view_opt(fetched),
                    current@,
                ) && match fetched {
                    Some(latest) => r.1 matches Some(cache) && cache.checked_at == now
                        && cache.latest@ == kept(latest@),
                    None => r.1 is None,
                },
        },
{
    if let Some(cache) = &cached {
        if cache_is_fresh(cache, now) {
            return (newer_version(cache.latest.as_str(), current), None);
        }
    }
    resolve_fetched(cached, now, current, fetch())
}

/// For a day after an answer was fetched, what is kept of it leads to the same newer version.
pub proof fn law_kept_answers_count_for_a_day(
    cached: Option<UpdateCache>,
    entry: UpdateCache,
    latest: Seq<char>,
    current: Seq<char>,
    now: int,
    later: int,
)
    requires
        entry.checked_at == now,
        entry.latest@ == kept(latest),
        now <= later < now + CHECK_INTERVAL_SECS,
    ensures
        fresh(entry, later),
        newer(entry.latest@, current) == resolved(cached, Some(latest), current),
{
    if let Some(version) = version_of(latest) {
        assert(version.valid());
        law_written_versions_stand_for_themselves(version);
    }
}

// Assets.

/// The name of the archive for a platform.
pub open spec fn asset_of(os: Seq<char>, arch: Seq<char>) -> Option<Seq<char>> {
    if os == "macos"@ && arch == "aarch64"@ {
        Some("so-aarch64-apple-darwin.tar.gz"@)
    } else if os == "macos"@ && arch == "x86_64"@ {
        Some("so-x86_64-apple-darwin.tar.gz"@)
    } else if os == "linux"@ && arch == "x86_64"@ {
        Some("so-x86_64-unknown-linux-musl.tar.gz"@)
    } else if os == "linux"@ && arch == "aarch64"@ {
        Some("so-aarch64-unknown-linux-musl.tar.gz"@)
    } else {
        None
    }
}

/// The name of the archive for a platform.
pub fn asset_name_for(os: &str, arch: &str) -> (r: Result<&'static str, String>)
    ensures
        match asset_of(os@, arch@) {
            Some(name) => r matches Ok(text) && text@ == name,
            None => r matches Err(text) && text@ == "unsupported platform: "@ + os@ + " "@
                + arch@,
        },
{
    if same(os, "macos") && same(arch, "aarch64") {
        Ok("so-aarch64-apple-darwin.tar.gz")
    } else if same(os, "macos") && same(arch, "x86_64") {
        Ok("so-x86_64-apple-darwin.tar.gz")
    } else if same(os, "linux") && same(arch, "x86_64") {
        Ok("so-x86_64-unknown-linux-musl.tar.gz")
    } else if same(os, "linux") && same(arch, "aarch64") {
        Ok("so-aarch64-unknown-linux-musl.tar.gz")
    } else {
        let mut text = glue3("unsupported platform: ", os, " ");
        text.append(arch);
        Err(text)
    }
}

/// The program that opens a web page, and the arguments before the page.
pub fn browser_command(os: &str) -> (r: Option<(&'static str, Vec<String>)>)
    ensures
        match r {
            Some((program, prefix)) => prefix@.len() == 0 && (os@ == "macos"@ && program@
                == "open"@ || os@ == "linux"@ && program@ == "xdg-open"@),
            None => os@ != "macos"@ && os@ != "linux"@,
        },
{
    if same(os, "macos") {
        Some(("open", Vec::new()))
    } else if same(os, "linux") {
        Some(("xdg-open", Vec::new()))
    } else {
        None
    }
}

/// How the repository is opened: the program and its arguments.
pub fn open_github(os: &str) -> (r: Option<(&'static str, Vec<String>)>)
    ensures
        match r {
            Some((program, args)) => views(args@) == seq![REPO_URL@] && (os@ == "macos"@
                && program@ == "open"@ || os@ == "linux"@ && program@ == "xdg-open"@),
            None => os@ != "macos"@ && os@ != "linux"@,
        },
{
    match browser_command(os) {
        Some((program, prefix)) => {
            let mut args = prefix;
            args.push(REPO_URL.to_string());
            assert(views(args@) =~= seq![REPO_URL@]);
            Some((program, args))
        },
        None => None,
    }
}

/// The line about the repository that was opened, or the error where it was not.
pub fn opened(theme: Theme, ok: bool) -> (r: Result<String, String>)
    ensures
        if ok {
            r matches Ok(line) && line@ == "Opened "@ + painted(theme, REPO_URL@, Style::Cyan)
        } else {
            r matches Err(text) && text@ == "could not open "@ + REPO_URL@
        },
{
    if ok {
        Ok(glue("Opened ", theme.path(REPO_URL).as_str()))
    } else {
        Err(glue("could not open ", REPO_URL))
    }
}

/// A file of a release.
#[derive(Debug, Clone, PartialEq, Eq)]
pub struct Asset {
    pub name: String,
    pub browser_download_url: String,
}

/// A release.
#[derive(Debug, Clone, PartialEq, Eq)]
pub struct Release {
    pub tag_name: String,
    pub assets: Vec<Asset>,
}

/// The address of the first of the files that has the name.
pub open spec fn url_of(assets: Seq<Asset>, name: Seq<char>) -> Option<Seq<char>>
    decreases assets.len(),
{
    if assets.len() == 0 {
        None
    } else if assets[0].name@ == name {
        Some(assets[0].browser_download_url@)
    } else {
        url_of(assets.skip(1), name)
    }
}

/// That a release lacks a file.
pub open spec fn lacks(tag: Seq<char>, name: Seq<char>) -> Seq<char> {
    "release "@ + tag + " has no "@ + name
}

/// The address of a file of a release.
pub fn asset_url(release: &Release, name: &str) -> (r: Result<String, String>)
    ensures
        match url_of(release.assets@, name@) {
            Some(url) => r matches Ok(text) && text@ == url,
            None => r matches Err(text) && text@ == lacks(release.tag_name@, name@),
        },
{
    let n: usize = release.assets.len();
    assert(release.assets@.skip(0) =~= release.assets@);
    for i in 0..n
        invariant
            n == release.assets@.len(),
            url_of(release.assets@, name@) == url_of(release.assets@.skip(i as int), name@),
    {
        let ghost rest = release.assets@.skip(i as int);
        assert(rest[0] == release.assets@[i as int]);
        assert(rest.skip(1) =~= release.assets@.skip(i + 1));
        if same(release.assets[i].name.as_str(), name) {
            return Ok(release.assets[i].browser_download_url.clone());
        }
    }
    let mut text = glue3("release ", release.tag_name.as_str(), " has no ");
    text.append(name);
    Err(text)
}

// Checksums.

/// Why an archive is not installed.
#[derive(Debug, Clone, PartialEq, Eq)]
pub enum InstallError {
    /// The list of checksums has no form for the archive.
    InvalidEntry(String),
    /// The list of checksums lacks the archive.
    NoEntry(String),
    /// The archive is another one than the list says.
    Mismatch { asset: String, expected: String, actual: String },
    /// What the archive holds cannot be listed; the cause.
    Entry(String),
    /// The program in the archive cannot be read; the cause.
    Contents(String),
    /// The archive holds no program.
    NoBinary,
}

impl InstallError {
    /// What the error says.
    pub open spec fn says(self) -> Seq<char> {
        match self {
            InstallError::InvalidEntry(asset) => "SHA256SUMS has an invalid entry for "@ + asset@,
            InstallError::NoEntry(asset) => "SHA256SUMS has no entry for "@ + asset@,
            InstallError::Mismatch { asset, expected, actual } => "checksum mismatch for "@
                + asset@ + ": expected "@ + expected@ + " actual "@ + actual@,
            InstallError::Entry(_) => "could not read tar entry"@,
            InstallError::Contents(_) => "could not extract so"@,
            InstallError::NoBinary => "archive does not contain so"@,
        }
    }

    /// What the error says.
    pub fn message(&self) -> (r: String)
        ensures
            r@ == self.says(),
    {
        match self {
            InstallError::InvalidEntry(asset) => glue(
                "SHA256SUMS has an invalid entry for ",
                asset.as_str(),
            ),
            InstallError::NoEntry(asset) => glue("SHA256SUMS has no entry for ", asset.as_str()),
            InstallError::Mismatch { asset, expected, actual } => {
                let mut text = glue3("checksum mismatch for ", asset.as_str(), ": expected ");
                text.append(expected.as_str());
                text.append(" actual ");
                text.append(actual.as_str());
                text
            },
            InstallError::Entry(_) => "could not read tar entry".to_string(),
            InstallError::Contents(_) => "could not extract so".to_string(),
            InstallError::NoBinary => "archive does not contain so".to_string(),
        }
    }
}

/// The checksum that a line of the list has for a file: its first word, where its second word
/// names the file, with or without an asterisk before it. A line that begins with a hash sign
/// has none.
pub open spec fn sum_in(line: Seq<char>, asset: Seq<char>) -> Option<Seq<char>> {
    let text = trimmed(line);
    let parts = words_of(text);
    if has_prefix(text, "#"@) || parts.len() < 2 {
        None
    } else {
        let name = match without_prefix(parts[1], "*"@) {
            Some(rest) => rest,
            None => parts[1],
        };
        if name == asset {
            Some(parts[0])
        } else {
            None
        }
    }
}

/// The checksum of the first line that has one for the file.
pub open spec fn sum_for(lines: Seq<Seq<char>>, asset: Seq<char>) -> Option<Seq<char>>
    decreases lines.len(),
{
    if lines.len() == 0 {
        None
    } else {
        match sum_in(lines[0], asset) {
            Some(sum) => Some(sum),
            None => sum_for(lines.skip(1), asset),
        }
    }
}

/// Sixty-four hexadecimal digits.
pub open spec fn is_sum(text: Seq<char>) -> bool {
    text.len() == 64 && forall|i: int| 0 <= i < text.len() ==> is_hex(#[trigger] text[i])
}

/// A hexadecimal digit in lower case.
pub open spec fn lower(c: char) -> char {
    match c {
        'A' => 'a',
        'B' => 'b',
        'C' => 'c',
        'D' => 'd',
        'E' => 'e',
        'F' => 'f',
        _ => c,
    }
}

/// Hexadecimal digits in lower case.
pub open spec fn lowered(text: Seq<char>) -> Seq<char> {
    text.map_values(|c: char| lower(c))
}

fn line_sum(line: &str, asset: &str) -> (r: Option<String>)
    ensures
        view_opt(r) == sum_in(line@, asset@),
{
    let text = trim(line);
    if starts_with(text.as_str(), "#") {
        return None;
    }
    let parts = words(text.as_str());
    if parts.len() < 2 {
        return None;
    }
    assert(views(parts@)[0] == parts@[0]@ && views(parts@)[1] == parts@[1]@);
    let name = match strip_prefix(parts[1].as_str(), "*") {
        Some(rest) => rest,
        None => parts[1].clone(),
    };
    if same(name.as_str(), asset) {
        Some(parts[0].clone())
    } else {
        None
    }
}

fn lower_hex(text: &str) -> (r: Option<String>)
    ensures
        match r {
            Some(low) => is_sum(text@) && low@ == lowered(text@),
            None => !is_sum(text@),
        },
{
    let cs = chars_of(text);
    let n: usize = cs.len();
    if n != 64 {
        return None;
    }
    let mut out = String::new();
    for i in 0..n
        invariant
            n == cs@.len() == 64,
            cs@ == text@,
            out@ == lowered(text@.take(i as int)),
            forall|j: int| 0 <= j < i ==> is_hex(#[trigger] text@[j]),
    {
        if !hex(cs[i]) {
            return None;
        }
        let c: char = match cs[i] {
            'A' => 'a',
            'B' => 'b',
            'C' => 'c',
            'D' => 'd',
            'E' => 'e',
            'F' => 'f',
            other => other,
        };
        out.push(c);
        assert(out@ =~= lowered(text@.take(i + 1)));
    }
    assert(text@.take(n as int) =~= text@);
    Some(out)
}

/// The checksum that the list has for a file, in lower case.
pub fn expected_checksum(sums: &str, asset: &str) -> (r: Result<String, InstallError>)
    ensures
        match sum_for(lines_of(sums@), asset@) {
            None => r matches Err(InstallError::NoEntry(name)) && name@ == asset@,
            Some(sum) => if is_sum(sum) {
                r matches Ok(text) && text@ == lowered(sum)
            } else {
                r matches Err(InstallError::InvalidEntry(name)) && name@ == asset@
            },
        },
{
    let list = lines(sums);
    let n: usize = list.len();
    let ghost all = views(list@);
    assert(all.skip(0) =~= all);
    for i in 0..n
        invariant
            n == list@.len(),
            all == views(list@),
            all == lines_of(sums@),
            sum_for(all, asset@) == sum_for(all.skip(i as int), asset@),
    {
        assert(all.skip(i as int)[0] == list@[i as int]@);
        assert(all.skip(i as int).skip(1) =~= all.skip(i + 1));
        if let Some(sum) = line_sum(list[i].as_str(), asset) {
            return match lower_hex(sum.as_str()) {
                Some(text) => Ok(text),
                None => Err(InstallError::InvalidEntry(asset.to_string())),
            };
        }
    }
    Err(InstallError::NoEntry(asset.to_string()))
}

/// The SHA-256 digest of bytes.
pub uninterp spec fn sha256(bytes: Seq<u8>) -> Seq<u8>;

/// `sha2::Sha256::digest`: thirty-two bytes that depend on the given ones alone.
#[verifier::external_body]
fn digest(bytes: &[u8]) -> (r: Vec<u8>)
    ensures
        r@ == sha256(bytes@),
        r@.len() == 32,
{
    <sha2::Sha256 as sha2::Digest>::digest(bytes).to_vec()
}

/// A hexadecimal digit.
pub open spec fn hex_digit(n: u8) -> char {
    if n < 10 {
        ('0' as u8 + n) as char
    } else {
        ('a' as u8 + (n - 10)) as char
    }
}

/// Bytes in hexadecimal, two digits each.
pub open spec fn hex_text(bytes: Seq<u8>) -> Seq<char>
    decreases bytes.len(),
{
    if bytes.len() == 0 {
        seq![]
    } else {
        hex_text(bytes.drop_last()) + seq![
            hex_digit(bytes.last() / 16),
            hex_digit(bytes.last() % 16),
        ]
    }
}

fn to_hex_digit(n: u8) -> (r: char)
    requires
        n < 16,
    ensures
        r == hex_digit(n),
{
    if n < 10 {
        (48u8 + n) as char
    } else {
        (97u8 + (n - 10)) as char
    }
}

/// Bytes in hexadecimal, two digits each.
pub fn to_hex(bytes: &[u8]) -> (r: String)
    ensures
        r@ == hex_text(bytes@),
{
    let mut out = String::new();
    let n: usize = bytes.len();
    for i in 0..n
        invariant
            n == bytes@.len(),
            out@ == hex_text(bytes@.take(i as int)),
    {
        let b: u8 = bytes[i];
        out.push(to_hex_digit(b / 16));
        out.push(to_hex_digit(b % 16));
        proof {
            let now = bytes@.take(i + 1);
            assert(now.drop_last() =~= bytes@.take(i as int));
            assert(now.last() == b);
            assert(out@ =~= hex_text(now));
        }
    }
    assert(bytes@.take(n as int) =~= bytes@);
    out
}

/// The checksum of what a file holds.
pub fn sha256_file(content: &[u8]) -> (r: String)
    ensures
        r@ == hex_text(sha256(content@)),
{
    to_hex(digest(content).as_slice())
}

/// Whether the checksum of an archive is the one that the list has for it.
pub fn check_sum(expected: String, actual: String, asset: &str) -> (r: Result<(), InstallError>)
    ensures
        if expected@ == actual@ {
            r is Ok
        } else {
            r matches Err(error) && {
                &&& error matches InstallError::Mismatch { asset: a, expected: e, actual: f }
                &&& a@ == asset@ && e@ == expected@ && f@ == actual@
            }
        },
{
    if same(expected.as_str(), actual.as_str()) {
        Ok(())
    } else {
        Err(InstallError::Mismatch { asset: asset.to_string(), expected, actual })
    }
}

// Archives.

/// The path of the entry at a place of a compressed archive; nothing behind the last one, and
/// no answer where the archive cannot be read so far.
pub uninterp spec fn tar_path(archive: Seq<u8>, index: nat) -> Option<Option<Seq<u8>>>;

/// What the entry at a place of a compressed archive holds.
pub uninterp spec fn tar_contents(archive: Seq<u8>, index: nat) -> Option<Option<Seq<u8>>>;

/// Bytes that may be there.
pub open spec fn bytes_opt(bytes: Option<Vec<u8>>) -> Option<Seq<u8>> {
    match bytes {
        Some(bytes) => Some(bytes@),
        None => None,
    }
}

/// `tar::Archive::entries` over `flate2::read::GzDecoder`, up to the entry at a place, and its
/// `path_bytes`. What an error says is not stated. In a build with overflow checks, a sparse
/// entry whose headers give it a length within a kilobyte of 2^64 makes `tar` panic; no machine
/// holds what such an archive stands for.
#[verifier::external_body]
fn entry_path(archive: &[u8], index: usize) -> (r: Result<Option<Vec<u8>>, String>)
    ensures
        match r {
            Ok(path) => tar_path(archive@, index as nat) == Some(bytes_opt(path)),
            Err(_) => tar_path(archive@, index as nat) is None,
        },
{
    let mut tar = tar::Archive::new(flate2::read::GzDecoder::new(archive));
    let mut entries = tar.entries().map_err(|err| err.to_string())?;
    match entries.nth(index) {
        None => Ok(None),
        Some(Ok(entry)) => Ok(Some(entry.path_bytes().into_owned())),
        Some(Err(err)) => Err(err.to_string()),
    }
}

/// `tar::Archive::entries` over `flate2::read::GzDecoder`, up to the entry at a place, read to
/// its end. What an error says is not stated. What is said above [`entry_path`] about lengths
/// holds here too.
#[verifier::external_body]
fn entry_contents(archive: &[u8], index: usize) -> (r: Result<Option<Vec<u8>>, String>)
    ensures
        match r {
            Ok(contents) => tar_contents(archive@, index as nat) == Some(bytes_opt(contents)),
            Err(_) => tar_contents(archive@, index as nat) is None,
        },
{
    let mut tar = tar::Archive::new(flate2::read::GzDecoder::new(archive));
    let mut entries = tar.entries().map_err(|err| err.to_string())?;
    let mut out = Vec::new();
    match entries.nth(index) {
        None => Ok(None),
        Some(Ok(mut entry)) => std::io::Read::read_to_end(&mut entry, &mut out)
            .map(|_| Some(out))
            .map_err(|err| err.to_string()),
        Some(Err(err)) => Err(err.to_string()),
    }
}

/// Bytes as the characters with the same numbers.
pub open spec fn byte_chars(bytes: Seq<u8>) -> Seq<char> {
    bytes.map_values(|b: u8| b as char)
}

fn chars_of_bytes(bytes: &[u8]) -> (r: String)
    ensures
        r@ == byte_chars(bytes@),
{
    let mut out = String::new();
    let n: usize = bytes.len();
    for i in 0..n
        invariant
            n == bytes@.len(),
            out@ == byte_chars(bytes@.take(i as int)),
    {
        let c: char = bytes[i] as char;
        out.push(c);
        assert(out@ =~= byte_chars(bytes@.take(i + 1)));
    }
    assert(bytes@.take(n as int) =~= bytes@);
    out
}

/// A path that names the program.
pub open spec fn names_program(path: Seq<u8>) -> bool {
    file_name_of(byte_chars(path)) == Some("so"@)
}

/// Whether a path names the program.
pub fn is_program(path: &[u8]) -> (r: bool)
    ensures
        r == names_program(path@),
{
    match file_name(chars_of_bytes(path).as_str()) {
        Some(name) => same(name.as_str(), "so"),
        None => false,
    }
}

/// The entries before a place can be listed, and none of them is the program.
pub open spec fn passes(archive: Seq<u8>, n: nat) -> bool {
    forall|k: nat|
        k < n ==> {
            &&& #[trigger] tar_path(archive, k) matches Some(Some(path))
            &&& !names_program(path)
        }
}

/// What comes of looking for the program in an archive: the contents of the first entry that
/// names it.
pub open spec fn extracts(archive: Seq<u8>, n: nat, r: Result<Vec<u8>, InstallError>) -> bool {
    &&& passes(archive, n)
    &&& match tar_path(archive, n) {
        None => r matches Err(InstallError::Entry(_)),
        Some(None) => r == Err::<Vec<u8>, InstallError>(InstallError::NoBinary),
        Some(Some(path)) => names_program(path) && match tar_contents(archive, n) {
            Some(Some(contents)) => r matches Ok(bytes) && bytes@ == contents,
            _ => r matches Err(InstallError::Contents(_)),
        },
    }
}

/// The program in an archive. The entries beyond the largest index are not looked at.
pub fn extract_binary(archive: &[u8]) -> (r: Result<Vec<u8>, InstallError>)
    ensures
        (exists|n: nat| #[trigger] extracts(archive@, n, r)) || (passes(
            archive@,
            usize::MAX as nat,
        ) && r == Err::<Vec<u8>, InstallError>(InstallError::NoBinary)),
{
    let last: usize = usize::MAX;
    for i in 0..last
        invariant
            last == usize::MAX,
            passes(archive@, i as nat),
    {
        match entry_path(archive, i) {
            Err(cause) => {
                let r: Result<Vec<u8>, InstallError> = Err(InstallError::Entry(cause));
                assert(extracts(archive@, i as nat, r));
                return r;
            },
            Ok(None) => {
                let r: Result<Vec<u8>, InstallError> = Err(InstallError::NoBinary);
                assert(extracts(archive@, i as nat, r));
                return r;
            },
            Ok(Some(path)) => {
                if is_program(path.as_slice()) {
                    let r = match entry_contents(archive, i) {
                        Ok(Some(contents)) => Ok(contents),
                        Ok(None) => Err(InstallError::Contents("no contents".to_string())),
                        Err(cause) => Err(InstallError::Contents(cause)),
                    };
                    assert(extracts(archive@, i as nat, r));
                    return r;
                }
            },
        }
    }
    Err(InstallError::NoBinary)
}

/// The program in an archive whose checksum is the one that the list has for it.
pub fn install_verified_release(archive: &[u8], sums: &str, asset: &str) -> (r: Result<
    Vec<u8>,
    InstallError,
>)
    ensures
        match sum_for(lines_of(sums@), asset@) {
            None => r matches Err(InstallError::NoEntry(name)) && name@ == asset@,
            Some(sum) => if !is_sum(sum) {
                r matches Err(InstallError::InvalidEntry(name)) && name@ == asset@
            } else if lowered(sum) != hex_text(sha256(archive@)) {
                r matches Err(error) && {
                    &&& error matches InstallError::Mismatch { asset: a, expected: e, actual: f }
                    &&& a@ == asset@ && e@ == lowered(sum) && f@ == hex_text(sha256(archive@))
                }
            } else {
                (exists|n: nat| #[trigger] extracts(archive@, n, r)) || (passes(
                    archive@,
                    usize::MAX as nat,
                ) && r == Err::<Vec<u8>, InstallError>(InstallError::NoBinary))
            },
        },
{
    let expected = match expected_checksum(sums, asset) {
        Ok(expected) => expected,
        Err(error) => {
            return Err(error);
        },
    };
    match check_sum(expected, sha256_file(archive), asset) {
        Err(error) => Err(error),
        Ok(_) => extract_binary(archive),
    }
}

/// Where the program is installed.
pub fn install_binary_path(install: Option<String>, home: &str) -> (r: String)
    ensures
        r@ == path_in(
            match view_opt(install) {
                Some(dir) => dir,
                None => path_in(home@, "bin"@),
            },
            "so"@,
        ),
{
    let dir = match install {
        Some(dir) => dir,
        None => join_path(home, "bin"),
    };
    join_path(dir.as_str(), "so")
}

/// The file that keeps the answer about the latest version.
pub fn cache_path(home: &str) -> (r: String)
    ensures
        r@ == path_in(home@, "update-check.json"@),
{
    join_path(home, "update-check.json")
}

// The update.

/// Why there is no update.
#[derive(Debug)]
pub enum UpdateError {
    Version(VersionError),
    /// No archive for this platform, or none in the release.
    Asset(String),
}

/// What an update does.
#[derive(Debug, Clone, PartialEq, Eq)]
pub struct UpdatePlan {
    pub latest: String,
    /// The line above the update.
    pub title: String,
    pub asset: &'static str,
    pub archive_url: String,
    pub sums_url: String,
    /// The line below it.
    pub done: String,
}

/// What the latest release comes to.
#[derive(Debug, Clone, PartialEq, Eq)]
pub enum UpdateStep {
    /// Nothing is newer; the line that says so.
    UpToDate(String),
    Install(UpdatePlan),
}

/// A newer version, as it stands out.
pub open spec fn shown_version(theme: Theme, latest: Seq<char>) -> Seq<char> {
    painted(theme, painted(theme, latest, Style::Bold), Style::Green)
}

/// The line above an update.
pub open spec fn update_title(theme: Theme, current: Seq<char>, latest: Seq<char>) -> Seq<char> {
    "Updating so "@ + painted(theme, current, Style::Dimmed) + " "@ + painted(
        theme,
        signs(theme.unicode).arrow@,
        Style::Dimmed,
    ) + " "@ + shown_version(theme, latest)
}

fn title_of(theme: Theme, current: &str, latest: &str) -> (r: String)
    ensures
        r@ == update_title(theme, current@, latest@),
{
    let mut out = glue3("Updating so ", theme.dim(current).as_str(), " ");
    out.append(theme.arrow().as_str());
    out.append(" ");
    out.append(theme.good(theme.bold(latest).as_str()).as_str());
    out
}

/// What the latest release comes to on this platform.
pub fn run_update(
    theme: Theme,
    release: &Release,
    current: &str,
    os: &str,
    arch: &str,
) -> (r: Result<UpdateStep, UpdateError>)
    ensures
        match version_of(release.tag_name@) {
            None => r matches Err(UpdateError::Version(error)) && error.message@
                == "invalid version: "@ + release.tag_name@,
            Some(latest) => match version_of(current@) {
                None => r matches Err(UpdateError::Version(error)) && error.message@
                    == "invalid version: "@ + current@,
                Some(running) => if !running.older(latest) {
                    r matches Ok(UpdateStep::UpToDate(line)) && line@ == current@
                        + " is up to date"@
                } else {
                    match asset_of(os@, arch@) {
                        None => r matches Err(UpdateError::Asset(text)) && text@
                            == "unsupported platform: "@ + os@ + " "@ + arch@,
                        Some(asset) => match (
                            url_of(release.assets@, asset),
                            url_of(release.assets@, "SHA256SUMS"@),
                        ) {
                            (None, _) => r matches Err(UpdateError::Asset(text)) && text@
                                == lacks(release.tag_name@, asset),
                            (_, None) => r matches Err(UpdateError::Asset(text)) && text@
                                == lacks(release.tag_name@, "SHA256SUMS"@),
                            (Some(archive), Some(sums)) => {
                                &&& r matches Ok(UpdateStep::Install(plan))
                                &&& plan.latest@ == latest.text()
                                &&& plan.title@ == update_title(theme, current@, latest.text())
                                &&& plan.asset@ == asset
                                &&& plan.archive_url@ == archive
                                &&& plan.sums_url@ == sums
                                &&& plan.done@ == "Updated so to "@ + shown_version(
                                    theme,
                                    latest.text(),
                                )
                            },
                        },
                    }
                },
            },
        },
{
    let latest = match display_version(release.tag_name.as_str()) {
        Ok(latest) => latest,
        Err(error) => {
            return Err(UpdateError::Version(error));
        },
    };
    proof {
        law_written_versions_stand_for_themselves(version_of(release.tag_name@)->0);
    }
    let newest = match parse_version(latest.as_str()) {
        Ok(version) => version,
        Err(error) => {
            return Err(UpdateError::Version(error));
        },
    };
    let running = match parse_version(current) {
        Ok(version) => version,
        Err(error) => {
            return Err(UpdateError::Version(error));
        },
    };
    if !running.is_older(&newest) {
        return Ok(UpdateStep::UpToDate(glue(current, " is up to date")));
    }
    let asset = match asset_name_for(os, arch) {
        Ok(asset) => asset,
        Err(text) => {
            return Err(UpdateError::Asset(text));
        },
    };
    let archive_url = match asset_url(release, asset) {
        Ok(url) => url,
        Err(text) => {
            return Err(UpdateError::Asset(text));
        },
    };
    let sums_url = match asset_url(release, "SHA256SUMS") {
        Ok(url) => url,
        Err(text) => {
            return Err(UpdateError::Asset(text));
        },
    };
    let title = title_of(theme, current, latest.as_str());
    let done = glue("Updated so to ", theme.good(theme.bold(latest.as_str()).as_str()).as_str());
    Ok(UpdateStep::Install(UpdatePlan { latest, title, asset, archive_url, sums_url, done }))
}

// Updates in writing.

/// Nobody is told about newer versions where that is turned off or no terminal is there.
pub proof fn law_only_terminals_are_told(disabled: bool, stdout_tty: bool, r: bool)
    requires
        call_ensures(update_check_suppressed, (disabled, stdout_tty), r),
    ensures
        r <==> disabled || !stdout_tty,
{
}

/// A version is newer where the first of its numbers that differs is higher, or where it is what a
/// pre-release led to; the same version and an older one are not, nor is what is no version.
pub proof fn law_newer_versions_have_higher_numbers(
    latest: &str,
    current: &str,
    r: Option<String>,
    a: VersionView,
    b: VersionView,
)
    requires
        call_ensures(newer_version, (latest, current), r),
    ensures
        version_of(latest@) is None || version_of(current@) is None ==> r is None,
        version_of(latest@) == Some(a) && version_of(current@) == Some(b) ==> {
            &&& a == b ==> r is None
            &&& b.major < a.major || b.major == a.major && (b.minor < a.minor || b.minor == a.minor
                && b.patch < a.patch) ==> (r matches Some(text) && text@ == a.text())
            &&& a.major < b.major || a.major == b.major && (a.minor < b.minor || a.minor == b.minor
                && a.patch < b.patch) ==> r is None
            &&& a.major == b.major && a.minor == b.minor && a.patch == b.patch && a.pre.len() == 0
                && b.pre.len() > 0 ==> (r matches Some(text) && text@ == a.text())
            &&& a.major == b.major && a.minor == b.minor && a.patch == b.patch && a.pre.len() > 0
                && b.pre.len() == 0 ==> r is None
        },
{
    law_versions_go_by_their_numbers(a, b);
    law_versions_go_by_their_numbers(b, a);
    if version_of(latest@) == Some(a) && version_of(current@) == Some(b) {
        law_versions_are_totally_ordered(a, b);
    }
}

/// White space around a version and one `v` before it make no difference to what is asked for.
pub proof fn law_versions_are_read_leniently(
    raw: &str,
    r: Result<String, VersionError>,
    major: u64,
    minor: u64,
    patch: u64,
)
    requires
        call_ensures(display_version, (raw,), r),
    ensures
        ({
            let text = decimal(major as nat) + "."@ + decimal(minor as nat) + "."@ + decimal(
                patch as nat,
            );
            &&& trimmed(raw@) == text || trimmed(raw@) == "v"@ + text || trimmed(raw@) == "V"@
                + text ==> (r matches Ok(shown) && shown@ == text)
            &&& trimmed(raw@) == "vv"@ + text || trimmed(raw@) == "vV"@ + text || trimmed(raw@)
                == "Vv"@ + text ==> r is Err
            &&& r matches Err(error) ==> error.message@ == "invalid version: "@ + raw@
        }),
{
    let v = VersionView { major, minor, patch, pre: seq![], build: seq![] };
    let text = decimal(major as nat) + "."@ + decimal(minor as nat) + "."@ + decimal(patch as nat);
    assert(v.text() =~= text);
    law_written_versions_stand_for_themselves(v);
    law_a_v_before_a_version_is_ignored(v);
    lemma_text_chars(v);
    reveal_strlit("v");
    reveal_strlit("V");
    lemma_trimmed(text);
    lemma_trimmed("v"@ + text);
    lemma_trimmed("V"@ + text);
    let given = trimmed(raw@);
    if given == "vv"@ + text || given == "vV"@ + text || given == "Vv"@ + text {
        lemma_two_marks(given, text);
    }
}

/// What has two marks before it is no version.
proof fn lemma_two_marks(raw: Seq<char>, text: Seq<char>)
    requires
        text.len() > 0,
        raw == "vv"@ + text || raw == "vV"@ + text || raw == "Vv"@ + text,
    ensures
        parsed(match without_prefix(raw, "v"@) {
            Some(rest) => rest,
            None => match without_prefix(raw, "V"@) {
                Some(rest) => rest,
                None => raw,
            },
        }) is None,
{
    reveal_strlit("v");
    reveal_strlit("V");
    reveal_strlit("vv");
    reveal_strlit("vV");
    reveal_strlit("Vv");
    let rest = raw.skip(1);
    assert(raw.take(1)[0] == raw[0]);
    assert("v"@[0] == 'v' && "V"@[0] == 'V');
    assert(raw[0] == 'v' || raw[0] == 'V');
    if raw[0] == 'v' {
        assert(raw.take(1) =~= "v"@);
    } else {
        assert(raw.take(1) =~= "V"@);
    }
    assert(rest[0] == raw[1]);
    if let Some(v) = parsed(rest) {
        assert(v.text() == rest);
        lemma_text_chars(v);
        lemma_decimal(v.major as nat);
        assert(v.text()[0] == decimal(v.major as nat)[0]);
        assert(is_digit(decimal(v.major as nat)[0]));
    }
}

/// An answer is kept for a day of 86400 seconds from when it was given, and never counts before.
pub proof fn law_answers_hold_for_a_day(cache: &UpdateCache, now: i64, r: bool)
    requires
        call_ensures(cache_is_fresh, (cache, now), r),
    ensures
        r <==> cache.checked_at <= now < cache.checked_at + 86400,
{
}

/// While an answer holds it is neither asked for again nor kept anew; otherwise what was fetched
/// counts and is kept with the time, and where nothing was fetched the old answer counts.
pub proof fn law_answers_are_asked_for_once_a_day<F: FnOnce() -> Option<String>>(
    cached: Option<UpdateCache>,
    now: i64,
    current: &str,
    fetch: F,
    r: (Option<String>, Option<UpdateCache>),
)
    requires
        call_ensures(resolve_latest::<F>, (cached, now, current, fetch), r),
    ensures
        cached matches Some(cache) ==> (cache.checked_at <= now < cache.checked_at + 86400 ==> {
            &&& r.1 is None
            &&& view_opt(r.0) == newer(cache.latest@, current@)
        }),
        cached is None || !(cached->0.checked_at <= now < cached->0.checked_at + 86400) ==> exists|
            fetched: Option<String>,
        |
            {
                &&& #[trigger] fetch.ensures((), fetched)
                &&& fetched matches Some(latest) ==> {
                    &&& view_opt(r.0) == newer(latest@, current@)
                    &&& r.1 is Some && r.1->0.checked_at == now
                    &&& version_of(latest@) is None ==> r.1->0.latest@ == latest@
                    &&& version_of(latest@) matches Some(version) ==> r.1->0.latest@
                        == version.text()
                }
                &&& fetched is None ==> {
                    &&& r.1 is None
                    &&& cached matches Some(cache) ==> view_opt(r.0) == newer(
                        cache.latest@,
                        current@,
                    )
                    &&& cached is None ==> r.0 is None
                }
            },
{
    if cached is None || !(cached->0.checked_at <= now < cached->0.checked_at + 86400) {
        let fetched = choose|fetched: Option<String>| #[trigger]
            fetch.ensures((), fetched) && view_opt(r.0) == resolved(
                cached,
                view_opt(fetched),
                current@,
            ) && match fetched {
                Some(latest) => r.1 matches Some(cache) && cache.checked_at == now && cache.latest@
                    == kept(latest@),
                None => r.1 is None,
            };
        assert(fetch.ensures((), fetched));
    }
}

/// The archive of a platform has the machine and the system in its name; other platforms have none.
pub proof fn law_archives_name_their_platform(
    os: &str,
    arch: &str,
    r: Result<&'static str, String>,
)
    requires
        call_ensures(asset_name_for, (os, arch), r),
    ensures
        os@ == "macos"@ && arch@ == "aarch64"@ ==> (r matches Ok(name) && name@
            == "so-aarch64-apple-darwin.tar.gz"@),
        os@ == "macos"@ && arch@ == "x86_64"@ ==> (r matches Ok(name) && name@
            == "so-x86_64-apple-darwin.tar.gz"@),
        os@ == "linux"@ && arch@ == "x86_64"@ ==> (r matches Ok(name) && name@
            == "so-x86_64-unknown-linux-musl.tar.gz"@),
        os@ == "linux"@ && arch@ == "aarch64"@ ==> (r matches Ok(name) && name@
            == "so-aarch64-unknown-linux-musl.tar.gz"@),
        os@ != "macos"@ && os@ != "linux"@ || arch@ != "aarch64"@ && arch@ != "x86_64"@ ==> (
        r matches Err(text) && text@ == "unsupported platform: "@ + os@ + " "@ + arch@),
{
    reveal_strlit("macos");
    reveal_strlit("linux");
    reveal_strlit("aarch64");
    reveal_strlit("x86_64");
    assert("macos"@[0] == 'm' && "linux"@[0] == 'l');
    assert("aarch64"@.len() == 7 && "x86_64"@.len() == 6);
}

/// The address of a file of a release is that of the first with its name.
pub proof fn law_files_are_found_by_name(
    release: &Release,
    name: &str,
    r: Result<String, String>,
    i: int,
)
    requires
        call_ensures(asset_url, (release, name), r),
    ensures
        0 <= i < release.assets@.len() && release.assets@[i].name@ == name@ && (forall|j: int|
            0 <= j < i ==> (#[trigger] release.assets@[j]).name@ != name@) ==> (r matches Ok(url)
            && url@ == release.assets@[i].browser_download_url@),
        (forall|j: int|
            0 <= j < release.assets@.len() ==> (#[trigger] release.assets@[j]).name@ != name@) ==> (
        r matches Err(text) && text@ == "release "@ + release.tag_name@ + " has no "@ + name@),
{
    if 0 <= i < release.assets@.len() && release.assets@[i].name@ == name@ && (forall|j: int|
        0 <= j < i ==> (#[trigger] release.assets@[j]).name@ != name@) {
        lemma_url(release.assets@, name@, i);
    }
    if forall|j: int|
        0 <= j < release.assets@.len() ==> (#[trigger] release.assets@[j]).name@ != name@ {
        lemma_no_url(release.assets@, name@);
    }
}

proof fn lemma_url(assets: Seq<Asset>, name: Seq<char>, i: int)
    requires
        0 <= i < assets.len(),
        assets[i].name@ == name,
        forall|j: int| 0 <= j < i ==> (#[trigger] assets[j]).name@ != name,
    ensures
        url_of(assets, name) == Some(assets[i].browser_download_url@),
    decreases assets.len(),
{
    if i > 0 {
        assert(assets[0].name@ != name);
        let rest = assets.skip(1);
        assert forall|j: int| 0 <= j < i - 1 implies (#[trigger] rest[j]).name@ != name by {
            assert(rest[j] == assets[j + 1]);
        }
        lemma_url(rest, name, i - 1);
    }
}

proof fn lemma_no_url(assets: Seq<Asset>, name: Seq<char>)
    requires
        forall|j: int| 0 <= j < assets.len() ==> (#[trigger] assets[j]).name@ != name,
    ensures
        url_of(assets, name) is None,
    decreases assets.len(),
{
    if assets.len() > 0 {
        assert(assets[0].name@ != name);
        let rest = assets.skip(1);
        assert forall|j: int| 0 <= j < rest.len() implies (#[trigger] rest[j]).name@ != name by {
            assert(rest[j] == assets[j + 1]);
        }
        lemma_no_url(rest, name);
    }
}

/// Whether a text is a checksum in lower case.
pub open spec fn is_low_sum(sum: Seq<char>) -> bool {
    sum.len() == 64 && forall|i: int|
        0 <= i < 64 ==> '0' <= #[trigger] sum[i] <= '9' || 'a' <= sum[i] <= 'f'
}

/// Whether a text is a word.
pub open spec fn is_word(text: Seq<char>) -> bool {
    text.len() > 0 && forall|i: int| 0 <= i < text.len() ==> !is_space(#[trigger] text[i])
}

/// The checksum of a file is the one before its name in the list, whether one space, two or a space
/// and an asterisk stand between the two.
pub proof fn law_checksums_stand_before_their_file(
    sums: &str,
    asset: &str,
    r: Result<String, InstallError>,
    sum: Seq<char>,
    between: Seq<char>,
)
    requires
        call_ensures(expected_checksum, (sums, asset), r),
        lines_of(sums@).len() > 0,
        is_low_sum(sum),
        is_word(asset@),
        asset@[0] != '*',
        between == " "@ || between == "  "@ || between == " *"@,
        lines_of(sums@)[0] == sum + between + asset@,
    ensures
        r matches Ok(text) && text@ == sum,
{
    lemma_sum_word(sum);
    assert('0' <= sum[0] <= '9' || 'a' <= sum[0] <= 'f');
    lemma_sum_line(lines_of(sums@)[0], sum, between, asset@);
}

/// A line with a checksum before the name of a file.
#[verifier::spinoff_prover]
proof fn lemma_sum_line(line: Seq<char>, sum: Seq<char>, between: Seq<char>, asset: Seq<char>)
    requires
        is_word(sum),
        sum[0] != '#',
        is_word(asset),
        asset[0] != '*',
        between == " "@ || between == "  "@ || between == " *"@,
        line == sum + between + asset,
    ensures
        sum_in(line, asset) == Some(sum),
{
    lemma_sum_words(sum, between, asset);
    lemma_sum_name(asset);
    assert(trimmed(line) == line) by {
        assert(line[0] == sum[0]);
        assert(line.last() == asset.last());
        lemma_trimmed(line);
    }
    assert(!has_prefix(line, "#"@)) by {
        reveal_strlit("#");
        if has_prefix(line, "#"@) {
            assert(line.take(1)[0] == line[0]);
            assert("#"@[0] == '#');
            assert(line[0] == sum[0]);
        }
    }
}

/// A line that starts with a number sign lists nothing.
pub proof fn law_comments_list_no_checksums(
    sums: &str,
    fewer: &str,
    asset: &str,
    a: Result<String, InstallError>,
    b: Result<String, InstallError>,
    rest: Seq<char>,
)
    requires
        call_ensures(expected_checksum, (sums, asset), a),
        call_ensures(expected_checksum, (fewer, asset), b),
        is_word(rest),
        lines_of(sums@) == seq!["#"@ + rest] + lines_of(fewer@),
    ensures
        a is Ok <==> b is Ok,
        a is Ok ==> a->Ok_0@ == b->Ok_0@,
{
    reveal_strlit("#");
    let line = "#"@ + rest;
    assert(line[0] == '#');
    assert(line.last() == rest.last());
    lemma_trimmed(line);
    assert(line.take(1) =~= "#"@);
    assert(lines_of(sums@)[0] == line);
    assert(lines_of(sums@).skip(1) =~= lines_of(fewer@));
}

/// A checksum is a word of hexadecimal digits.
proof fn lemma_sum_word(sum: Seq<char>)
    requires
        is_low_sum(sum),
    ensures
        is_word(sum),
        forall|i: int| 0 <= i < sum.len() ==> is_hex(#[trigger] sum[i]),
        lowered(sum) == sum,
{
    assert forall|i: int| 0 <= i < sum.len() implies !is_space(#[trigger] sum[i]) && is_hex(
        sum[i],
    ) by {
        assert('0' <= sum[i] <= '9' || 'a' <= sum[i] <= 'f');
    }
    assert forall|i: int| 0 <= i < sum.len() implies #[trigger] lowered(sum)[i] == sum[i] by {
        assert('0' <= sum[i] <= '9' || 'a' <= sum[i] <= 'f');
    }
    assert(lowered(sum) =~= sum);
}

/// The words of a line with a checksum and a name.
proof fn lemma_sum_words(sum: Seq<char>, between: Seq<char>, name: Seq<char>)
    requires
        is_word(sum),
        is_word(name),
        between == " "@ || between == "  "@ || between == " *"@,
    ensures
        words_of(sum + between + name) == if between == " *"@ {
            seq![sum, "*"@ + name]
        } else {
            seq![sum, name]
        },
{
    reveal_strlit(" ");
    reveal_strlit("  ");
    reveal_strlit(" *");
    reveal_strlit("*");
    assert(" "@ =~= seq![' ']);
    assert("  "@ =~= seq![' ', ' ']);
    assert(" *"@ =~= seq![' ', '*']);
    assert("*"@ =~= seq!['*']);
    assert(" *"@[1] == '*' && "  "@[1] == ' ');
    if between == " *"@ {
        let starred = "*"@ + name;
        assert forall|i: int| 0 <= i < starred.len() implies !is_space(#[trigger] starred[i]) by {
            if i > 0 {
                assert(starred[i] == name[i - 1]);
            }
        }
        lemma_two_words(sum, starred);
        assert(sum + between + name =~= sum + seq![' '] + starred);
        assert(seq![sum] + seq![starred] =~= seq![sum, starred]);
    } else if between == "  "@ {
        lemma_two_far_words(sum, name);
        assert(seq![sum] + seq![name] =~= seq![sum, name]);
        assert(sum + between + name =~= sum + seq![' '] + (seq![' '] + name));
    } else {
        lemma_two_words(sum, name);
        assert(seq![sum] + seq![name] =~= seq![sum, name]);
    }
}

/// Two words with a space between them.
#[verifier::spinoff_prover]
proof fn lemma_two_words(a: Seq<char>, b: Seq<char>)
    requires
        is_word(a),
        is_word(b),
    ensures
        words_of(a + seq![' '] + b) == seq![a] + seq![b],
{
    law_words_have_no_white_space(a, ' ', b);
    law_words_have_no_white_space(b, ' ', seq![]);
}

/// Two words with two spaces between them.
#[verifier::spinoff_prover]
proof fn lemma_two_far_words(a: Seq<char>, b: Seq<char>)
    requires
        is_word(a),
        is_word(b),
    ensures
        words_of(a + seq![' '] + (seq![' '] + b)) == seq![a] + seq![b],
{
    law_words_have_no_white_space(a, ' ', seq![' '] + b);
    law_words_have_no_white_space(b, ' ', b);
    law_words_have_no_white_space(b, ' ', seq![]);
}

/// An asterisk before a name is not part of it.
proof fn lemma_sum_name(name: Seq<char>)
    requires
        name.len() > 0,
        name[0] != '*',
    ensures
        !has_prefix(name, "*"@),
        has_prefix("*"@ + name, "*"@),
        ("*"@ + name).skip(1) == name,
{
    reveal_strlit("*");
    assert("*"@.len() == 1 && "*"@[0] == '*');
    if has_prefix(name, "*"@) {
        assert(name.take(1)[0] == name[0]);
    }
    assert(("*"@ + name).take(1) =~= "*"@);
    assert(("*"@ + name).skip(1) =~= name);
}

/// A byte in hexadecimal is two of sixteen digits, the higher four bits before the lower.
pub proof fn law_bytes_are_written_in_two_digits(bytes: &[u8], r: String, i: int)
    requires
        call_ensures(to_hex, (bytes,), r),
        0 <= i < bytes@.len(),
    ensures
        r@.len() == 2 * bytes@.len(),
        r@[2 * i] == "0123456789abcdef"@[bytes@[i] as int / 16],
        r@[2 * i + 1] == "0123456789abcdef"@[bytes@[i] as int % 16],
{
    lemma_hex_text(bytes@, i);
    lemma_hex_digit(bytes@[i] / 16);
    lemma_hex_digit(bytes@[i] % 16);
}

proof fn lemma_hex_text(bytes: Seq<u8>, i: int)
    requires
        0 <= i < bytes.len(),
    ensures
        hex_text(bytes).len() == 2 * bytes.len(),
        hex_text(bytes)[2 * i] == hex_digit(bytes[i] / 16),
        hex_text(bytes)[2 * i + 1] == hex_digit(bytes[i] % 16),
    decreases bytes.len(),
{
    if bytes.len() == 1 {
        assert(hex_text(bytes.drop_last()) =~= seq![]);
    } else if i < bytes.len() - 1 {
        lemma_hex_text(bytes.drop_last(), i);
    } else {
        lemma_hex_text(bytes.drop_last(), 0);
    }
}

proof fn lemma_hex_digit(n: u8)
    requires
        n < 16,
    ensures
        hex_digit(n) == "0123456789abcdef"@[n as int],
{
    reveal_strlit("0123456789abcdef");
    let all = "0123456789abcdef"@;
    assert(all[0] == '0' && all[1] == '1' && all[2] == '2' && all[3] == '3' && all[4] == '4'
        && all[5] == '5' && all[6] == '6' && all[7] == '7' && all[8] == '8' && all[9] == '9'
        && all[10] == 'a' && all[11] == 'b' && all[12] == 'c' && all[13] == 'd' && all[14] == 'e'
        && all[15] == 'f');
}

/// Nothing is installed from an archive unless the list has a checksum for it and the archive has
/// that checksum.
pub proof fn law_only_verified_archives_are_installed(
    archive: &[u8],
    sums: &str,
    asset: &str,
    r: Result<Vec<u8>, InstallError>,
    expected: Result<String, InstallError>,
    actual: String,
)
    requires
        call_ensures(install_verified_release, (archive, sums, asset), r),
        call_ensures(expected_checksum, (sums, asset), expected),
        call_ensures(sha256_file, (archive,), actual),
    ensures
        r is Ok ==> (expected matches Ok(sum) && sum@ == actual@),
        expected matches Ok(sum) ==> (sum@ != actual@ ==> (r matches Err(error) && error.says()
            == "checksum mismatch for "@ + asset@ + ": expected "@ + sum@ + " actual "@ + actual@)),
        expected is Err ==> r is Err,
{
}

/// The program of an archive is its first entry with the name `so` in any directory.
pub proof fn law_the_program_is_named_so(
    archive: &[u8],
    r: Result<Vec<u8>, InstallError>,
    n: nat,
    path: Seq<u8>,
    contents: Seq<u8>,
    dir: Seq<char>,
)
    requires
        call_ensures(extract_binary, (archive,), r),
        passes(archive@, n),
        n < usize::MAX,
        tar_path(archive@, n) == Some(Some(path)),
        byte_chars(path) == "so"@ || byte_chars(path) == dir + "/so"@,
        tar_contents(archive@, n) == Some(Some(contents)),
    ensures
        r matches Ok(bytes) && bytes@ == contents,
{
    reveal_strlit("so");
    reveal_strlit("/");
    reveal_strlit("/so");
    reveal_strlit(".");
    reveal_strlit("..");
    assert("so"@.len() == 2 && "."@.len() == 1 && ".."@.len() == 2);
    assert("so"@[0] == 's' && "so"@[1] == 'o' && ".."@[0] == '.');
    assert(!"so"@.contains('/')) by {
        if "so"@.contains('/') {
            let k = choose|k: int| 0 <= k < "so"@.len() && "so"@[k] == '/';
            assert(k == 0 || k == 1);
        }
    }
    assert(dir + "/so"@ =~= dir + "/"@ + "so"@);
    lemma_file_name(byte_chars(path), dir, "so"@);
    assert(names_program(path));
    if exists|m: nat| #[trigger] extracts(archive@, m, r) {
        let m = choose|m: nat| #[trigger] extracts(archive@, m, r);
        if m < n {
            assert(tar_path(archive@, m) matches Some(Some(p)) && !names_program(p));
        }
        if n < m {
            assert(tar_path(archive@, n) matches Some(Some(p)) && !names_program(p));
        }
    } else {
        assert(tar_path(archive@, n) matches Some(Some(p)) && !names_program(p));
    }
}

/// The program is installed as `so` where the user says, or else in `bin` of the home directory.
pub proof fn law_programs_are_installed_as_so(
    install: Option<String>,
    home: &str,
    r: String,
    cache: String,
)
    requires
        call_ensures(install_binary_path, (install, home), r),
        call_ensures(cache_path, (home,), cache),
    ensures
        install matches Some(dir) ==> r@ == path_in(dir@, "so"@),
        install is None ==> r@ == path_in(path_in(home@, "bin"@), "so"@),
        cache@ == path_in(home@, "update-check.json"@),
{
}

/// An update happens only to a newer release, and takes the archive of the platform and the list
/// of checksums from it; what is up to date is told so.
pub proof fn law_updates_take_the_archive_of_the_platform(
    theme: Theme,
    release: &Release,
    current: &str,
    os: &str,
    arch: &str,
    r: Result<UpdateStep, UpdateError>,
    latest: &str,
    newest: Option<String>,
    asset: Result<&'static str, String>,
    sums: &str,
    sums_url: Result<String, String>,
)
    requires
        call_ensures(run_update, (theme, release, current, os, arch), r),
        latest@ == release.tag_name@,
        call_ensures(newer_version, (latest, current), newest),
        call_ensures(asset_name_for, (os, arch), asset),
        sums@ == "SHA256SUMS"@,
        call_ensures(asset_url, (release, sums), sums_url),
    ensures
        version_of(release.tag_name@) is Some && version_of(current@) is Some && newest is None ==> (
        r matches Ok(UpdateStep::UpToDate(line)) && line@ == current@ + " is up to date"@),
        r matches Ok(UpdateStep::Install(plan)) ==> {
            &&& newest is Some && plan.latest@ == newest->0@
            &&& asset matches Ok(name) && plan.asset@ == name@ && url_of(
                release.assets@,
                name@,
            ) == Some(plan.archive_url@)
            &&& sums_url matches Ok(url) && plan.sums_url@ == url@
        },
        newest is Some && asset is Err ==> r is Err,
        newest is Some && sums_url is Err ==> r is Err,
{
}

/// A web page is opened with the program of the system, and the repository is the page.
pub proof fn law_the_repository_is_opened(
    os: &str,
    r: Option<(&'static str, Vec<String>)>,
    current: &str,
    latest: &str,
    message: String,
)
    requires
        call_ensures(open_github, (os,), r),
        call_ensures(outdated_message, (current, latest), message),
    ensures
        os@ == "macos"@ ==> (r matches Some(run) && run.0@ == "open"@),
        os@ == "linux"@ ==> (r matches Some(run) && run.0@ == "xdg-open"@),
        r matches Some(run) ==> views(run.1@) == seq![
            "https://github.com/SherinBloemendaal/shellops-cli"@,
        ],
        os@ != "macos"@ && os@ != "linux"@ ==> r is None,
        message@ == "so "@ + current@ + " is outdated. Latest is "@ + latest@ + ". Run so update."@,
{
    reveal_strlit("macos");
    reveal_strlit("linux");
    assert("macos"@[0] == 'm' && "linux"@[0] == 'l');
}

/// The program is kept and described in one repository.
pub proof fn law_releases_are_described_where_the_program_is_kept(repo: Seq<char>)
    requires
        repo == "SherinBloemendaal/shellops-cli"@,
    ensures
        REPO_URL@ == "https://github.com/"@ + repo,
        LATEST_API@ == "https://api.github.com/repos/"@ + repo + "/releases/latest"@,
{
    reveal_strlit("SherinBloemendaal/shellops-cli");
    reveal_strlit("https://github.com/");
    reveal_strlit("https://api.github.com/repos/");
    reveal_strlit("/releases/latest");
    reveal_strlit("https://github.com/SherinBloemendaal/shellops-cli");
    reveal_strlit("https://api.github.com/repos/SherinBloemendaal/shellops-cli/releases/latest");
    assert(REPO_URL@ =~= "https://github.com/"@ + repo);
    assert(LATEST_API@ =~= "https://api.github.com/repos/"@ + repo + "/releases/latest"@);
}

/// An answer is kept with its time as the version that it names, or as it is where it names none.
pub proof fn law_answers_are_kept_with_their_time(
    now: i64,
    latest: &str,
    r: UpdateCache,
    shown: Result<String, VersionError>,
)
    requires
        call_ensures(cache_entry, (now, latest), r),
        call_ensures(display_version, (latest,), shown),
    ensures
        r.checked_at == now,
        shown matches Ok(text) ==> r.latest@ == text@,
        shown is Err ==> r.latest@ == latest@,
{
}

/// Only the expected checksum will do, and opening the repository tells its address.
pub proof fn law_only_the_expected_sum_will_do(
    expected: String,
    actual: String,
    asset: &str,
    r: Result<(), InstallError>,
    theme: Theme,
    ok: bool,
    line: Result<String, String>,
)
    requires
        call_ensures(check_sum, (expected, actual, asset), r),
        call_ensures(opened, (theme, ok), line),
    ensures
        r is Ok <==> expected@ == actual@,
        line is Ok <==> ok,
        line matches Ok(text) ==> (!theme.color ==> text@
            == "Opened https://github.com/SherinBloemendaal/shellops-cli"@),
        line matches Err(text) ==> text@
            == "could not open https://github.com/SherinBloemendaal/shellops-cli"@,
{
    reveal_strlit("Opened ");
    reveal_strlit("could not open ");
    reveal_strlit("https://github.com/SherinBloemendaal/shellops-cli");
    reveal_strlit("Opened https://github.com/SherinBloemendaal/shellops-cli");
    reveal_strlit("could not open https://github.com/SherinBloemendaal/shellops-cli");
    if !ok {
        assert(line->Err_0@
            =~= "could not open https://github.com/SherinBloemendaal/shellops-cli"@);
    } else if !theme.color {
        assert(line->Ok_0@ =~= "Opened https://github.com/SherinBloemendaal/shellops-cli"@);
    }
}

/// What is listed for a file has to be a checksum, and there has to be something.
pub proof fn law_listed_sums_are_checked(
    sums: &str,
    asset: &str,
    r: Result<String, InstallError>,
    sum: Seq<char>,
    message: String,
)
    requires
        call_ensures(expected_checksum, (sums, asset), r),
        r matches Err(error) ==> call_ensures(InstallError::message, (&error,), message),
        is_word(sum),
        sum[0] != '#',
        is_word(asset@),
        asset@[0] != '*',
    ensures
        lines_of(sums@).len() == 0 ==> r is Err && message@ == "SHA256SUMS has no entry for "@
            + asset@,
        lines_of(sums@).len() > 0 && lines_of(sums@)[0] == sum + " "@ + asset@ && sum.len() != 64
            ==> r is Err && message@ == "SHA256SUMS has an invalid entry for "@ + asset@,
{
    if lines_of(sums@).len() > 0 && lines_of(sums@)[0] == sum + " "@ + asset@ {
        lemma_sum_line(lines_of(sums@)[0], sum, " "@, asset@);
    }
}

/// Errors of an installation name what is wrong with what.
pub proof fn law_install_errors_name_the_archive(error: &InstallError, r: String)
    requires
        call_ensures(InstallError::message, (error,), r),
    ensures
        error matches InstallError::InvalidEntry(asset) ==> r@
            == "SHA256SUMS has an invalid entry for "@ + asset@,
        error matches InstallError::NoEntry(asset) ==> r@ == "SHA256SUMS has no entry for "@
            + asset@,
        error matches InstallError::Mismatch { asset, expected, actual } ==> r@
            == "checksum mismatch for "@ + asset@ + ": expected "@ + expected@ + " actual "@
            + actual@,
        error is Entry ==> r@ == "could not read tar entry"@,
        error is Contents ==> r@ == "could not extract so"@,
        error is NoBinary ==> r@ == "archive does not contain so"@,
{
}

/// An update is refused for what is no version, for another platform and for a release without the
/// archive or the checksums; it is told from which version to which it goes.
pub proof fn law_updates_need_a_whole_release(
    theme: Theme,
    release: &Release,
    current: &str,
    os: &str,
    arch: &str,
    r: Result<UpdateStep, UpdateError>,
)
    requires
        call_ensures(run_update, (theme, release, current, os, arch), r),
    ensures
        version_of(release.tag_name@) is None ==> (r matches Err(UpdateError::Version(error))
            && error.message@ == "invalid version: "@ + release.tag_name@),
        version_of(release.tag_name@) is Some && version_of(current@) is None ==> (r matches Err(
            UpdateError::Version(error),
        ) && error.message@ == "invalid version: "@ + current@),
        r matches Ok(UpdateStep::Install(plan)) ==> (!theme.color ==> {
            &&& plan.done@ == "Updated so to "@ + plan.latest@
            &&& theme.unicode ==> plan.title@ == "Updating so "@ + current@ + " ➜ "@ + plan.latest@
            &&& !theme.unicode ==> plan.title@ == "Updating so "@ + current@ + " -> "@
                + plan.latest@
        }),
        r matches Err(UpdateError::Asset(text)) ==> has_prefix(text@, "unsupported platform: "@)
            || has_prefix(text@, "release "@ + release.tag_name@ + " has no "@),
{
    reveal_strlit(" ");
    reveal_strlit("➜");
    reveal_strlit("->");
    reveal_strlit(" ➜ ");
    reveal_strlit(" -> ");
    if let Ok(UpdateStep::Install(plan)) = r {
        if !theme.color {
            if theme.unicode {
                assert(plan.title@ =~= "Updating so "@ + current@ + " ➜ "@ + plan.latest@);
            } else {
                assert(plan.title@ =~= "Updating so "@ + current@ + " -> "@ + plan.latest@);
            }
        }
    }
    if let Err(UpdateError::Asset(text)) = r {
        let a = "unsupported platform: "@;
        let b = "release "@ + release.tag_name@ + " has no "@;
        if asset_of(os@, arch@) is None {
            assert(text@ =~= a + (os@ + " "@ + arch@));
            assert(text@.take(a.len() as int) =~= a);
        } else {
            assert(text@.take(b.len() as int) =~= b);
        }
    }
}

} // verus!
