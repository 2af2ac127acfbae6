//! Notes of releases.

use crate::command::Output;
use crate::git::{git_failure, git_text};
use crate::project::{file_name, file_name_of, lemma_file_name};
use crate::tags::Channel;
use crate::text::{
    chars_of, contains, cut_at, ends_with, extend, filled_lines, glue, glue3, has_part, has_prefix,
    has_suffix, law_parts_end_at_separators, lemma_run_len_is, occurs_at, only, piece, same,
    split_once, starts_with, strip_prefix, strip_suffixes, trim, trimmed, trimmed_lines, view_opt,
    views, without_prefix, without_suffixes,
};
use vstd::prelude::*;

verus! {

/// How many bytes of a diff the notes are written from.
pub const DIFF_CAP: usize = 80_000;

/// How a release is shown.
#[derive(Debug, Clone, Copy, PartialEq, Eq, Structural)]
pub struct ReleaseFlags {
    pub prerelease: bool,
    pub make_latest: bool,
}

/// A stable release is the latest; every other one is a pre-release and is not.
pub fn flags_for(channel: Channel) -> (r: ReleaseFlags)
    ensures
        r.prerelease == (channel != Channel::Stable),
        r.make_latest == (channel == Channel::Stable),
{
    match channel {
        Channel::Stable => ReleaseFlags { prerelease: false, make_latest: true },
        Channel::Rc | Channel::Beta | Channel::Alpha => ReleaseFlags {
            prerelease: true,
            make_latest: false,
        },
    }
}

// Paths.

/// A file that records exact versions of dependencies.
pub open spec fn is_lock_file(path: Seq<char>) -> bool {
    ||| has_suffix(path, "Cargo.lock"@)
    ||| has_suffix(path, "package-lock.json"@)
    ||| has_suffix(path, "yarn.lock"@)
    ||| has_suffix(path, "composer.lock"@)
    ||| has_suffix(path, "pnpm-lock.yaml"@)
}

/// A path below a directory of that name.
pub open spec fn is_below(path: Seq<char>, dir: Seq<char>) -> bool {
    has_part(path, "/"@ + dir + "/"@) || has_prefix(path, dir + "/"@)
}

/// A path whose changes are worth a note.
pub open spec fn is_noted(path: Seq<char>) -> bool {
    !is_lock_file(path) && !is_below(path, "vendor"@) && !is_below(path, "node_modules"@)
        && !is_below(path, "target"@) && !is_below(path, "dist"@)
}

fn below(path: &str, dir: &str) -> (r: bool)
    ensures
        r == is_below(path@, dir@),
{
    contains(path, glue3("/", dir, "/").as_str()) || starts_with(path, glue(dir, "/").as_str())
}

/// Whether the changes of a path are worth a note.
pub fn diff_path_allowed(path: &str) -> (r: bool)
    ensures
        r == is_noted(path@),
{
    if ends_with(path, "Cargo.lock") || ends_with(path, "package-lock.json") || ends_with(
        path,
        "yarn.lock",
    ) || ends_with(path, "composer.lock") || ends_with(path, "pnpm-lock.yaml") {
        return false;
    }
    !below(path, "vendor") && !below(path, "node_modules") && !below(path, "target") && !below(
        path,
        "dist",
    )
}

/// A path of database migrations.
pub open spec fn migrates(path: Seq<char>) -> bool {
    path == "migrations"@ || has_prefix(path, "migrations/"@) || has_part(path, "/migrations/"@)
}

/// Whether a path is one of database migrations.
pub fn is_migration(path: &str) -> (r: bool)
    ensures
        r == migrates(path@),
{
    same(path, "migrations") || starts_with(path, "migrations/") || contains(
        path,
        "/migrations/",
    )
}

/// A path of an example of settings.
pub open spec fn exemplifies(path: Seq<char>) -> bool {
    file_name_of(path) == Some(".env.example"@)
}

/// Whether a path is one of an example of settings.
pub fn is_env_example(path: &str) -> (r: bool)
    ensures
        r == exemplifies(path@),
{
    match file_name(path) {
        Some(name) => same(name.as_str(), ".env.example"),
        None => false,
    }
}

/// The changed paths, by what they say in the notes.
#[derive(Debug, Clone, PartialEq, Eq)]
pub struct Paths {
    pub migrations: Vec<String>,
    pub examples: Vec<String>,
    pub others: Vec<String>,
}

/// The paths worth a note.
pub open spec fn noted() -> spec_fn(Seq<char>) -> bool {
    |path: Seq<char>| is_noted(path)
}

/// The migrations.
pub open spec fn migrating() -> spec_fn(Seq<char>) -> bool {
    |path: Seq<char>| migrates(path)
}

/// The examples of settings.
pub open spec fn exemplifying() -> spec_fn(Seq<char>) -> bool {
    |path: Seq<char>| exemplifies(path)
}

/// Neither migrations nor examples.
pub open spec fn ordinary() -> spec_fn(Seq<char>) -> bool {
    |path: Seq<char>| !migrates(path) && !exemplifies(path)
}

/// The paths worth a note among those that git names.
pub open spec fn noted_paths(names: Seq<char>) -> Seq<Seq<char>> {
    filled_lines(names).filter(noted())
}

proof fn lemma_filter_step(
    s: Seq<Seq<char>>,
    keep: spec_fn(Seq<char>) -> bool,
    i: int,
)
    requires
        0 <= i < s.len(),
    ensures
        s.take(i + 1).filter(keep) == if keep(s[i]) {
            s.take(i).filter(keep).push(s[i])
        } else {
            s.take(i).filter(keep)
        },
{
    reveal(Seq::filter);
    assert(s.take(i + 1).drop_last() =~= s.take(i));
}

fn noted_lines(names: &str) -> (r: Vec<String>)
    ensures
        views(r@) == noted_paths(names@),
{
    let lines = trimmed_lines(names);
    let mut out: Vec<String> = Vec::new();
    let n: usize = lines.len();
    let ghost all = views(lines@);
    assert(all.take(0).filter(noted()) =~= seq![]) by {
        reveal(Seq::filter);
    }
    for i in 0..n
        invariant
            n == lines@.len(),
            all == views(lines@),
            views(out@) == all.take(i as int).filter(noted()),
    {
        proof {
            lemma_filter_step(all, noted(), i as int);
            assert(all[i as int] == lines@[i as int]@);
        }
        if diff_path_allowed(lines[i].as_str()) {
            let ghost had = views(out@);
            out.push(lines[i].clone());
            assert(views(out@) =~= had.push(all[i as int]));
        }
    }
    assert(all.take(n as int) =~= all);
    out
}

/// The changed paths that git names, by what they say in the notes.
pub fn sort_paths(names: &str) -> (r: Paths)
    ensures
        views(r.migrations@) == noted_paths(names@).filter(migrating()),
        views(r.examples@) == noted_paths(names@).filter(exemplifying()),
        views(r.others@) == noted_paths(names@).filter(ordinary()),
{
    let paths = noted_lines(names);
    let n: usize = paths.len();
    let ghost all = noted_paths(names@);
    let mut out = Paths { migrations: Vec::new(), examples: Vec::new(), others: Vec::new() };
    proof {
        reveal(Seq::filter);
        assert(all.take(0).filter(migrating()) =~= seq![]);
        assert(all.take(0).filter(exemplifying()) =~= seq![]);
        assert(all.take(0).filter(ordinary()) =~= seq![]);
    }
    for i in 0..n
        invariant
            n == paths@.len(),
            all == views(paths@),
            views(out.migrations@) == all.take(i as int).filter(migrating()),
            views(out.examples@) == all.take(i as int).filter(exemplifying()),
            views(out.others@) == all.take(i as int).filter(ordinary()),
    {
        proof {
            lemma_filter_step(all, migrating(), i as int);
            lemma_filter_step(all, exemplifying(), i as int);
            lemma_filter_step(all, ordinary(), i as int);
            assert(all[i as int] == paths@[i as int]@);
        }
        let ghost had = out;
        let migration = is_migration(paths[i].as_str());
        let example = is_env_example(paths[i].as_str());
        if migration {
            out.migrations.push(paths[i].clone());
            assert(views(out.migrations@) =~= views(had.migrations@).push(all[i as int]));
        }
        if example {
            out.examples.push(paths[i].clone());
            assert(views(out.examples@) =~= views(had.examples@).push(all[i as int]));
        }
        if !migration && !example {
            out.others.push(paths[i].clone());
            assert(views(out.others@) =~= views(had.others@).push(all[i as int]));
        }
    }
    assert(all.take(n as int) =~= all);
    out
}

proof fn lemma_filter_keeps(s: Seq<Seq<char>>, keep: spec_fn(Seq<char>) -> bool, x: Seq<char>)
    ensures
        s.filter(keep).contains(x) <==> s.contains(x) && keep(x),
{
    broadcast use vstd::seq_lib::group_filter_ensures;

    if s.filter(keep).contains(x) {
        s.lemma_filter_contains_rev(keep, x);
    }
    if s.contains(x) && keep(x) {
        let i = choose|i: int| 0 <= i < s.len() && s[i] == x;
        s.lemma_filter_contains(keep, i);
    }
}

/// Every noted path is shown, and no other one is.
pub proof fn law_every_noted_path_is_shown(names: Seq<char>, path: Seq<char>)
    ensures
        noted_paths(names).contains(path) <==> {
            ||| noted_paths(names).filter(migrating()).contains(path)
            ||| noted_paths(names).filter(exemplifying()).contains(path)
            ||| noted_paths(names).filter(ordinary()).contains(path)
        },
{
    let all = noted_paths(names);
    lemma_filter_keeps(all, migrating(), path);
    lemma_filter_keeps(all, exemplifying(), path);
    lemma_filter_keeps(all, ordinary(), path);
}

// Texts.

/// The number of bytes that a character takes in UTF-8.
pub open spec fn width(c: char) -> nat {
    if c as u32 <= 0x7f {
        1
    } else if c as u32 <= 0x7ff {
        2
    } else if c as u32 <= 0xffff {
        3
    } else {
        4
    }
}

/// The number of bytes that a text takes in UTF-8.
pub open spec fn byte_len(s: Seq<char>) -> nat
    decreases s.len(),
{
    if s.len() == 0 {
        0
    } else {
        byte_len(s.drop_last()) + width(s.last())
    }
}

/// Where to cut a text: the most characters whose bytes fit.
pub open spec fn cuts(s: Seq<char>, cap: nat, n: int) -> bool {
    &&& 0 <= n < s.len()
    &&& byte_len(s.take(n)) <= cap
    &&& byte_len(s.take(n + 1)) > cap
}

/// A text, cut where it has too many bytes.
pub open spec fn is_capped(s: Seq<char>, cap: nat, r: Seq<char>) -> bool {
    if byte_len(s) <= cap {
        r == s
    } else {
        exists|n: int| #[trigger]
            cuts(s, cap, n) && r == s.take(n) + "\n\n[diff truncated]\n"@
    }
}

proof fn lemma_byte_len_grows(s: Seq<char>, i: int, j: int)
    requires
        0 <= i <= j <= s.len(),
    ensures
        byte_len(s.take(i)) <= byte_len(s.take(j)),
    decreases j - i,
{
    if i < j {
        lemma_byte_len_grows(s, i, j - 1);
        assert(s.take(j).drop_last() =~= s.take(j - 1));
    }
}

/// There is one place to cut a text.
pub proof fn law_texts_are_cut_in_one_place(s: Seq<char>, cap: nat, a: Seq<char>, b: Seq<char>)
    requires
        is_capped(s, cap, a),
        is_capped(s, cap, b),
    ensures
        a == b,
{
    if byte_len(s) > cap {
        let suffix = "\n\n[diff truncated]\n"@;
        let n = choose|n: int| #[trigger] cuts(s, cap, n) && a == s.take(n) + suffix;
        let m = choose|m: int| #[trigger] cuts(s, cap, m) && b == s.take(m) + suffix;
        if n < m {
            lemma_byte_len_grows(s, n + 1, m);
        }
        if m < n {
            lemma_byte_len_grows(s, m + 1, n);
        }
    }
}

proof fn lemma_byte_len_adds(a: Seq<char>, b: Seq<char>)
    ensures
        byte_len(a + b) == byte_len(a) + byte_len(b),
    decreases b.len(),
{
    if b.len() == 0 {
        assert(a + b =~= a);
    } else {
        lemma_byte_len_adds(a, b.drop_last());
        assert((a + b).drop_last() =~= a + b.drop_last());
    }
}

/// A text that was cut has no more bytes than are allowed, and those of the note about it.
pub proof fn law_cut_texts_are_short(s: Seq<char>, cap: nat, r: Seq<char>)
    requires
        is_capped(s, cap, r),
    ensures
        byte_len(r) <= cap + byte_len("\n\n[diff truncated]\n"@),
        byte_len("\n\n[diff truncated]\n"@) == 19,
{
    let note = "\n\n[diff truncated]\n"@;
    reveal_strlit("\n\n[diff truncated]\n");
    reveal_with_fuel(byte_len, 20);
    if byte_len(s) > cap {
        let n = choose|n: int| #[trigger] cuts(s, cap, n) && r == s.take(n) + note;
        lemma_byte_len_adds(s.take(n), note);
    }
}

/// A text, cut where it has too many bytes.
pub fn cap_text(text: &str, cap: usize) -> (r: String)
    ensures
        is_capped(text@, cap as nat, r@),
{
    let cs = chars_of(text);
    let total: usize = cs.len();
    let mut used: usize = 0;
    assert(cs@.take(0) =~= seq![]);
    for i in 0..total
        invariant
            total == cs@.len(),
            cs@ == text@,
            used == byte_len(cs@.take(i as int)),
            used <= cap,
    {
        let c: char = cs[i];
        let size: usize = if c as u32 <= 0x7f {
            1
        } else if c as u32 <= 0x7ff {
            2
        } else if c as u32 <= 0xffff {
            3
        } else {
            4
        };
        proof {
            assert(cs@.take(i + 1).drop_last() =~= cs@.take(i as int));
            assert(cs@.take(i + 1).last() == c);
        }
        if size > cap - used {
            let kept = piece(cs.as_slice(), 0, i);
            proof {
                lemma_byte_len_grows(cs@, i + 1, total as int);
                assert(cs@.take(total as int) =~= cs@);
                assert(kept@ =~= text@.take(i as int));
                assert(cuts(text@, cap as nat, i as int));
            }
            return glue(kept.as_str(), "\n\n[diff truncated]\n");
        }
        used = used + size;
    }
    assert(cs@.take(total as int) =~= cs@);
    text.to_string()
}

/// What the notes are asked for with.
pub open spec fn prompt_text(
    log: Seq<char>,
    stat: Seq<char>,
    diff: Seq<char>,
    migrations: Seq<char>,
    env_example: Seq<char>,
) -> Seq<char> {
    "Write technical developer release notes in Markdown.\nInclude: a short summary, changes grouped by type, breaking changes, migrations, and env/config changes.\nUse only the evidence below. Do not invent changes.\n\n## git log\n"@
        + log + "\n\n## diff stat\n"@ + stat + "\n\n## migrations signal\n"@ + migrations
        + "\n\n## env example signal\n"@ + env_example + "\n\n## filtered diff\n"@ + diff
        + "\n"@
}

/// What the notes are asked for with.
pub fn build_prompt(
    log: &str,
    stat: &str,
    diff: &str,
    migrations: &str,
    env_example: &str,
) -> (r: String)
    ensures
        r@ == prompt_text(log@, stat@, diff@, migrations@, env_example@),
{
    let mut out =
        "Write technical developer release notes in Markdown.\nInclude: a short summary, changes grouped by type, breaking changes, migrations, and env/config changes.\nUse only the evidence below. Do not invent changes.\n\n## git log\n".to_string();
    out.append(log);
    out.append("\n\n## diff stat\n");
    out.append(stat);
    out.append("\n\n## migrations signal\n");
    out.append(migrations);
    out.append("\n\n## env example signal\n");
    out.append(env_example);
    out.append("\n\n## filtered diff\n");
    out.append(diff);
    out.append("\n");
    out
}

// What git is asked.

/// The commits that a release is made of.
pub open spec fn range_of(base: Option<Seq<char>>, tag: Seq<char>) -> Seq<char> {
    match base {
        Some(base) => base + ".."@ + tag,
        None => tag,
    }
}

/// The commits that a release is made of.
pub fn range(base: Option<String>, tag: &str) -> (r: String)
    ensures
        r@ == range_of(view_opt(base), tag@),
{
    match base {
        Some(base) => glue3(base.as_str(), "..", tag),
        None => tag.to_string(),
    }
}

/// The arguments that list the commits.
pub fn log_args(range: &str) -> (r: Vec<String>)
    ensures
        views(r@) == seq!["log"@, "--no-merges"@, "--pretty=format:%h %s"@, range@],
{
    let args = vec![
        "log".to_string(),
        "--no-merges".to_string(),
        "--pretty=format:%h %s".to_string(),
        range.to_string(),
    ];
    assert(views(args@) =~= seq!["log"@, "--no-merges"@, "--pretty=format:%h %s"@, range@]);
    args
}

/// The arguments that count the changes.
pub fn stat_args(range: &str) -> (r: Vec<String>)
    ensures
        views(r@) == seq!["diff"@, "--stat"@, range@],
{
    let args = vec!["diff".to_string(), "--stat".to_string(), range.to_string()];
    assert(views(args@) =~= seq!["diff"@, "--stat"@, range@]);
    args
}

/// The arguments that name the changed files.
pub fn name_args(range: &str) -> (r: Vec<String>)
    ensures
        views(r@) == seq!["diff"@, "--name-only"@, range@],
{
    let args = vec!["diff".to_string(), "--name-only".to_string(), range.to_string()];
    assert(views(args@) =~= seq!["diff"@, "--name-only"@, range@]);
    args
}

/// The arguments that show the changes of the given files, where there are any.
pub fn section_args(range: &str, paths: &[String]) -> (r: Option<Vec<String>>)
    ensures
        match r {
            None => paths@.len() == 0,
            Some(args) => paths@.len() > 0 && views(args@) == seq!["diff"@, range@, "--"@]
                + views(paths@),
        },
{
    if paths.len() == 0 {
        return None;
    }
    let mut args = vec!["diff".to_string(), range.to_string(), "--".to_string()];
    assert(views(args@) =~= seq!["diff"@, range@, "--"@]);
    extend(&mut args, paths);
    Some(args)
}

/// What a section of the prompt says: the changes of its files, or that there are none.
pub open spec fn section_text(changes: Option<Seq<char>>) -> Seq<char> {
    match changes {
        Some(text) => text,
        None => "none"@,
    }
}

/// What a section of the prompt says.
pub fn section_diff(changes: Option<String>) -> (r: String)
    ensures
        r@ == section_text(view_opt(changes)),
{
    match changes {
        Some(text) => text,
        None => "none".to_string(),
    }
}

/// The prompt from what git answered; the diff of ordinary files is cut where it is long.
pub fn release_prompt(
    log: &str,
    stat: &str,
    migrations: Option<String>,
    examples: Option<String>,
    others: Option<String>,
) -> (r: String)
    ensures
        exists|diff: Seq<char>|
            is_capped(
                section_text(view_opt(others)),
                DIFF_CAP as nat,
                diff,
            ) && r@ == #[trigger] prompt_text(
                log@,
                stat@,
                diff,
                section_text(view_opt(migrations)),
                section_text(view_opt(examples)),
            ),
{
    let diff = cap_text(section_diff(others).as_str(), DIFF_CAP);
    build_prompt(
        log,
        stat,
        diff.as_str(),
        section_diff(migrations).as_str(),
        section_diff(examples).as_str(),
    )
}

// The repository on GitHub.

/// What follows the address of GitHub.
pub open spec fn after_host(url: Seq<char>) -> Option<Seq<char>> {
    match without_prefix(url, "git@github.com:"@) {
        Some(rest) => Some(rest),
        None => match without_prefix(url, "https://github.com/"@) {
            Some(rest) => Some(rest),
            None => without_prefix(url, "ssh://git@github.com/"@),
        },
    }
}

/// The owner and the name of the repository at an address.
pub open spec fn remote_of(url: Seq<char>) -> Option<(Seq<char>, Seq<char>)> {
    match after_host(url) {
        None => None,
        Some(rest) => match cut_at(
            without_suffixes(without_suffixes(rest, "/"@), ".git"@),
            '/',
        ) {
            None => None,
            Some((owner, repo)) => if owner.len() == 0 || repo.len() == 0 || has_part(
                repo,
                "/"@,
            ) {
                None
            } else {
                Some((owner, repo))
            },
        },
    }
}

/// Whether an address may begin so.
pub open spec fn is_host(host: Seq<char>) -> bool {
    host == "git@github.com:"@ || host == "https://github.com/"@ || host
        == "ssh://git@github.com/"@
}

/// An address that is made of an owner and a repository is that of both, with or without `.git`
/// and a slash at its end. A name that itself ends with `.git` is left out: it loses that end.
pub proof fn law_addresses_name_their_repository(
    host: Seq<char>,
    owner: Seq<char>,
    repo: Seq<char>,
    git: bool,
    slash: bool,
)
    requires
        is_host(host),
        owner.len() > 0,
        repo.len() > 0,
        !owner.contains('/'),
        !repo.contains('/'),
        !has_suffix(repo, ".git"@),
    ensures
        ({
            let end = (if git {
                ".git"@
            } else {
                seq![]
            }) + (if slash {
                "/"@
            } else {
                seq![]
            });
            remote_of(host + owner + "/"@ + repo + end) == Some((owner, repo))
        }),
{
    reveal_strlit("git@github.com:");
    reveal_strlit("https://github.com/");
    reveal_strlit("ssh://git@github.com/");
    reveal_strlit(".git");
    reveal_strlit("/");
    let ending = if git {
        ".git"@
    } else {
        seq![]
    };
    let last = if slash {
        "/"@
    } else {
        seq![]
    };
    let bare = owner + "/"@ + repo;
    let named = bare + ending;
    let path = named + last;
    let url = host + owner + "/"@ + repo + (ending + last);
    assert(url.take(host.len() as int) =~= host);
    assert(url.skip(host.len() as int) =~= path);
    assert(url[0] == host[0]);
    assert(after_host(url) == Some(path));
    // The slash at the end.
    assert(named.last() != '/') by {
        if !git {
            assert(named.last() == repo.last());
            assert(repo.contains(repo.last()));
        }
    }
    assert(!has_suffix(named, "/"@)) by {
        assert(named.skip(named.len() - 1)[0] == named.last());
    }
    assert(without_suffixes(named, "/"@) == named);
    if slash {
        assert(path.skip(path.len() - 1) =~= "/"@);
        assert(path.take(path.len() - 1) =~= named);
        reveal_with_fuel(without_suffixes, 2);
    } else {
        assert(path =~= named);
    }
    assert(without_suffixes(path, "/"@) == named);
    // The name of the format.
    assert(!has_suffix(bare, ".git"@)) by {
        if has_suffix(bare, ".git"@) {
            let tail = bare.skip(bare.len() - 4);
            if repo.len() >= 4 {
                assert(repo.skip(repo.len() - 4) =~= tail);
            } else {
                assert(tail[4 - repo.len() - 1] == bare[bare.len() - repo.len() - 1]);
                assert(bare[owner.len() as int] == '/');
            }
        }
    }
    assert(without_suffixes(bare, ".git"@) == bare);
    if git {
        assert(named.skip(named.len() - 4) =~= ".git"@);
        assert(named.take(named.len() - 4) =~= bare);
        reveal_with_fuel(without_suffixes, 2);
    } else {
        assert(named =~= bare);
    }
    assert(without_suffixes(named, ".git"@) == bare);
    // The slash between the two.
    let n = owner.len() as int;
    assert forall|i: int| 0 <= i < n implies !#[trigger] only('/')(bare[i]) by {
        assert(bare[i] == owner[i]);
        assert(owner.contains(owner[i]));
    }
    lemma_run_len_is(bare, only('/'), n);
    assert(bare.take(n) =~= owner);
    assert(bare.skip(n + 1) =~= repo);
    assert(!has_part(repo, "/"@)) by {
        if has_part(repo, "/"@) {
            let at = choose|at: int| #[trigger] occurs_at(repo, "/"@, at);
            assert(repo[at] == repo.subrange(at, at + 1)[0]);
            assert(repo.contains(repo[at]));
        }
    }
}

fn path_on_host(url: &str) -> (r: Option<String>)
    ensures
        view_opt(r) == after_host(url@),
{
    match strip_prefix(url, "git@github.com:") {
        Some(rest) => Some(rest),
        None => match strip_prefix(url, "https://github.com/") {
            Some(rest) => Some(rest),
            None => strip_prefix(url, "ssh://git@github.com/"),
        },
    }
}

/// The owner and the name of the repository at an address.
pub fn parse_github_remote(url: &str) -> (r: Option<(String, String)>)
    ensures
        match r {
            Some((owner, repo)) => remote_of(url@) == Some((owner@, repo@)),
            None => remote_of(url@) is None,
        },
{
    let rest = match path_on_host(url) {
        Some(rest) => rest,
        None => {
            return None;
        },
    };
    let bare = strip_suffixes(strip_suffixes(rest.as_str(), "/").as_str(), ".git");
    match split_once(bare.as_str(), '/') {
        None => None,
        Some((owner, repo)) => if owner.as_str().is_empty() || repo.as_str().is_empty()
            || contains(repo.as_str(), "/") {
            None
        } else {
            Some((owner, repo))
        },
    }
}

/// The arguments that ask for the address of the repository.
pub fn origin_args() -> (r: Vec<String>)
    ensures
        views(r@) == seq!["remote"@, "get-url"@, "origin"@],
{
    let args = vec!["remote".to_string(), "get-url".to_string(), "origin".to_string()];
    assert(views(args@) =~= seq!["remote"@, "get-url"@, "origin"@]);
    args
}

/// The owner and the name of the repository, from git's answer to [`origin_args`].
pub fn github_repo(answer: &Output) -> (r: Result<(String, String), String>)
    ensures
        if !answer.ok() {
            r matches Err(text) && text@ == git_failure(
                seq!["remote"@, "get-url"@, "origin"@],
                answer.stderr@,
            )
        } else {
            match remote_of(trimmed(answer.stdout@)) {
                Some((owner, repo)) => r matches Ok(found) && found.0@ == owner && found.1@
                    == repo,
                None => r matches Err(text) && text@ == "origin is not a GitHub repository"@,
            }
        },
{
    let args = origin_args();
    match git_text(args.as_slice(), answer) {
        Err(error) => Err(error),
        Ok(url) => match parse_github_remote(trim(url.as_str()).as_str()) {
            Some(found) => Ok(found),
            None => Err("origin is not a GitHub repository".to_string()),
        },
    }
}

/// The token that `gh auth token` gives.
pub fn gh_token(answer: &Output) -> (r: Result<String, String>)
    ensures
        if !answer.ok() {
            r matches Err(text) && text@ == "set a github secret or run gh auth login"@
        } else if trimmed(answer.stdout@).len() == 0 {
            r matches Err(text) && text@ == "gh auth token returned an empty token"@
        } else {
            r matches Ok(token) && token@ == trimmed(answer.stdout@)
        },
{
    if !answer.success() {
        return Err("set a github secret or run gh auth login".to_string());
    }
    let token = trim(answer.stdout.as_str());
    if token.as_str().is_empty() {
        return Err("gh auth token returned an empty token".to_string());
    }
    Ok(token)
}

// The offer.

/// What is done with notes.
#[derive(Debug, Clone, Copy, PartialEq, Eq, Structural)]
pub enum Choice {
    Publish,
    Edit,
    Regenerate,
    Cancel,
}

/// The choices, as they are offered.
pub fn offered() -> (r: Vec<&'static str>)
    ensures
        r@.len() == 4,
        r@[0]@ == "Publish"@,
        r@[1]@ == "Edit in $EDITOR"@,
        r@[2]@ == "Regenerate"@,
        r@[3]@ == "Cancel"@,
{
    vec!["Publish", "Edit in $EDITOR", "Regenerate", "Cancel"]
}

/// The choice at a place.
pub fn chosen(at: usize) -> (r: Choice)
    ensures
        r == match at {
            0usize => Choice::Publish,
            1usize => Choice::Edit,
            2usize => Choice::Regenerate,
            _ => Choice::Cancel,
        },
{
    match at {
        0 => Choice::Publish,
        1 => Choice::Edit,
        2 => Choice::Regenerate,
        _ => Choice::Cancel,
    }
}

/// The program that notes are edited with.
pub fn editor(variable: Option<String>) -> (r: String)
    ensures
        r@ == match view_opt(variable) {
            Some(name) => name,
            None => "vi"@,
        },
{
    match variable {
        Some(name) => name,
        None => "vi".to_string(),
    }
}

// What the notes are made from.

/// Changes of lock files, and of what lies in directories that tools fill, are not noted; all
/// others are.
pub proof fn law_generated_paths_are_not_noted(path: &str, r: bool)
    requires
        call_ensures(diff_path_allowed, (path,), r),
    ensures
        r <==> !({
            ||| has_suffix(path@, "Cargo.lock"@)
            ||| has_suffix(path@, "package-lock.json"@)
            ||| has_suffix(path@, "yarn.lock"@)
            ||| has_suffix(path@, "composer.lock"@)
            ||| has_suffix(path@, "pnpm-lock.yaml"@)
            ||| has_prefix(path@, "vendor/"@)
            ||| has_part(path@, "/vendor/"@)
            ||| has_prefix(path@, "node_modules/"@)
            ||| has_part(path@, "/node_modules/"@)
            ||| has_prefix(path@, "target/"@)
            ||| has_part(path@, "/target/"@)
            ||| has_prefix(path@, "dist/"@)
            ||| has_part(path@, "/dist/"@)
        }),
{
    reveal_strlit("/");
    reveal_strlit("vendor");
    reveal_strlit("vendor/");
    reveal_strlit("/vendor/");
    reveal_strlit("node_modules");
    reveal_strlit("node_modules/");
    reveal_strlit("/node_modules/");
    reveal_strlit("target");
    reveal_strlit("target/");
    reveal_strlit("/target/");
    reveal_strlit("dist");
    reveal_strlit("dist/");
    reveal_strlit("/dist/");
    assert("vendor"@ + "/"@ =~= "vendor/"@);
    assert("/"@ + "vendor"@ + "/"@ =~= "/vendor/"@);
    assert("node_modules"@ + "/"@ =~= "node_modules/"@);
    assert("/"@ + "node_modules"@ + "/"@ =~= "/node_modules/"@);
    assert("target"@ + "/"@ =~= "target/"@);
    assert("/"@ + "target"@ + "/"@ =~= "/target/"@);
    assert("dist"@ + "/"@ =~= "dist/"@);
    assert("/"@ + "dist"@ + "/"@ =~= "/dist/"@);
}

/// A changed path that is noted stands among the migrations where it lies in a directory of that
/// name, among the examples where its file is `.env.example`, and among the others where it is
/// neither; and what stands there is a line that git wrote.
pub proof fn law_noted_paths_are_sorted_by_kind(
    names: &str,
    r: Paths,
    path: &str,
    noted: bool,
    example: bool,
)
    requires
        call_ensures(sort_paths, (names,), r),
        call_ensures(diff_path_allowed, (path,), noted),
        call_ensures(is_env_example, (path,), example),
    ensures
        ({
            let written = filled_lines(names@).contains(path@);
            let migration = path@ == "migrations"@ || has_prefix(path@, "migrations/"@) || has_part(
                path@,
                "/migrations/"@,
            );
            &&& views(r.migrations@).contains(path@) <==> written && noted && migration
            &&& views(r.examples@).contains(path@) <==> written && noted && example
            &&& views(r.others@).contains(path@) <==> written && noted && !migration && !example
        }),
{
    let lines = filled_lines(names@);
    let all = noted_paths(names@);
    lemma_filter_keeps(lines, crate::notes::noted(), path@);
    lemma_filter_keeps(all, migrating(), path@);
    lemma_filter_keeps(all, exemplifying(), path@);
    lemma_filter_keeps(all, ordinary(), path@);
}

/// The changes of a release go from the previous tag up to its own, or are all up to its own; git
/// is asked for the commits, the counts, the names and the changes of just that range.
pub proof fn law_git_is_asked_for_the_range(
    base: Option<String>,
    tag: &str,
    range: String,
    words: &str,
    log: Vec<String>,
    stat: Vec<String>,
    names: Vec<String>,
)
    requires
        call_ensures(crate::notes::range, (base, tag), range),
        words@ == range@,
        call_ensures(log_args, (words,), log),
        call_ensures(stat_args, (words,), stat),
        call_ensures(name_args, (words,), names),
    ensures
        base matches Some(base) ==> range@ == base@ + ".."@ + tag@,
        base is None ==> range@ == tag@,
        views(log@) == seq!["log"@, "--no-merges"@, "--pretty=format:%h %s"@, range@],
        views(stat@) == seq!["diff"@, "--stat"@, range@],
        views(names@) == seq!["diff"@, "--name-only"@, range@],
{
}

/// The changes of files are asked for behind a double hyphen, all of them and in order; for no file
/// nothing is asked.
pub proof fn law_sections_show_their_files(
    range: &str,
    paths: &[String],
    r: Option<Vec<String>>,
    i: int,
)
    requires
        call_ensures(section_args, (range, paths), r),
    ensures
        paths@.len() == 0 <==> r is None,
        r matches Some(args) ==> {
            &&& args@.len() == 3 + paths@.len()
            &&& views(args@)[0] == "diff"@
            &&& views(args@)[1] == range@
            &&& views(args@)[2] == "--"@
            &&& 0 <= i < paths@.len() ==> views(args@)[3 + i] == paths@[i]@
        },
{
    if let Some(args) = r {
        assert(views(args@).len() == args@.len());
        if 0 <= i < paths@.len() {
            assert(views(args@)[3 + i] == views(paths@)[i]);
        }
    }
}

/// The prompt has the commits, the counts, the migrations, the examples and the other changes,
/// each under its heading; where there are no such files it says so. The other changes are whole
/// where they have no more than eighty thousand bytes.
pub proof fn law_prompts_have_all_sections(
    log: &str,
    stat: &str,
    migrations: Option<String>,
    examples: Option<String>,
    others: Option<String>,
    r: String,
    m: Seq<char>,
    e: Seq<char>,
)
    requires
        call_ensures(release_prompt, (log, stat, migrations, examples, others), r),
        m == match migrations {
            Some(text) => text@,
            None => "none"@,
        },
        e == match examples {
            Some(text) => text@,
            None => "none"@,
        },
    ensures
        exists|head: Seq<char>, diff: Seq<char>|
            {
                &&& r@ == #[trigger] (head + "\n\n## git log\n"@ + log@ + "\n\n## diff stat\n"@
                    + stat@ + "\n\n## migrations signal\n"@ + m + "\n\n## env example signal\n"@ + e + "\n\n## filtered diff\n"@ + diff + "\n"@)
                &&& head
                    == "Write technical developer release notes in Markdown.\nInclude: a short summary, changes grouped by type, breaking changes, migrations, and env/config changes.\nUse only the evidence below. Do not invent changes."@
                &&& others is None ==> diff == "none"@
                &&& others matches Some(text) ==> {
                    &&& byte_len(text@) <= 80_000 ==> diff == text@
                    &&& byte_len(text@) > 80_000 ==> exists|n: int|
                        0 <= n < text@.len() && byte_len(text@.take(n)) <= 80_000 && byte_len(
                            text@.take(n + 1),
                        ) > 80_000 && diff == #[trigger] text@.take(n)
                            + "\n\n[diff truncated]\n"@
                }
            },
{
    let start =
        "Write technical developer release notes in Markdown.\nInclude: a short summary, changes grouped by type, breaking changes, migrations, and env/config changes.\nUse only the evidence below. Do not invent changes.\n\n## git log\n"@;
    let head =
        "Write technical developer release notes in Markdown.\nInclude: a short summary, changes grouped by type, breaking changes, migrations, and env/config changes.\nUse only the evidence below. Do not invent changes."@;
    reveal_strlit(
        "Write technical developer release notes in Markdown.\nInclude: a short summary, changes grouped by type, breaking changes, migrations, and env/config changes.\nUse only the evidence below. Do not invent changes.\n\n## git log\n",
    );
    reveal_strlit(
        "Write technical developer release notes in Markdown.\nInclude: a short summary, changes grouped by type, breaking changes, migrations, and env/config changes.\nUse only the evidence below. Do not invent changes.",
    );
    reveal_strlit("\n\n## git log\n");
    assert(start =~= head + "\n\n## git log\n"@);
    reveal_strlit("none");
    assert(byte_len("none"@) <= 80_000) by {
        reveal_with_fuel(byte_len, 5);
    }
    assert(m == section_text(view_opt(migrations)));
    assert(e == section_text(view_opt(examples)));
    let diff = choose|diff: Seq<char>|
        is_capped(section_text(view_opt(others)), DIFF_CAP as nat, diff) && r@
            == #[trigger] prompt_text(log@, stat@, diff, m, e);
    if let Some(text) = others {
        if byte_len(text@) > 80_000 {
            let n = choose|n: int| #[trigger]
                cuts(text@, 80_000, n) && diff == text@.take(n) + "\n\n[diff truncated]\n"@;
            assert(diff == text@.take(n) + "\n\n[diff truncated]\n"@);
        }
    }
    assert(r@ == head + "\n\n## git log\n"@ + log@ + "\n\n## diff stat\n"@ + stat@
        + "\n\n## migrations signal\n"@ + m + "\n\n## env example signal\n"@ + e
        + "\n\n## filtered diff\n"@ + diff + "\n"@);
}

/// Only a stable release becomes the latest, and only the others are pre-releases.
pub proof fn law_only_stable_releases_are_latest(channel: Channel, r: ReleaseFlags)
    requires
        call_ensures(flags_for, (channel,), r),
    ensures
        channel == Channel::Stable ==> r.make_latest && !r.prerelease,
        channel == Channel::Rc || channel == Channel::Beta || channel == Channel::Alpha
            ==> !r.make_latest && r.prerelease,
{
}

/// The choice at a place is what is offered there; anything else cancels.
pub proof fn law_choices_are_as_offered(at: usize, list: Vec<&'static str>, r: Choice)
    requires
        call_ensures(offered, (), list),
        call_ensures(chosen, (at,), r),
    ensures
        r == Choice::Publish <==> at < 4 && list@[at as int]@ == "Publish"@,
        r == Choice::Edit <==> at < 4 && list@[at as int]@ == "Edit in $EDITOR"@,
        r == Choice::Regenerate <==> at < 4 && list@[at as int]@ == "Regenerate"@,
        at >= 3 ==> r == Choice::Cancel,
{
    reveal_strlit("Publish");
    reveal_strlit("Edit in $EDITOR");
    reveal_strlit("Regenerate");
    reveal_strlit("Cancel");
    assert("Publish"@.len() == 7 && "Edit in $EDITOR"@.len() == 15 && "Regenerate"@.len() == 10
        && "Cancel"@.len() == 6);
}

/// Notes are edited with the program that the environment names, or else with `vi`.
pub proof fn law_notes_are_edited_as_the_user_likes(variable: Option<String>, r: String)
    requires
        call_ensures(editor, (variable,), r),
    ensures
        variable matches Some(name) ==> r@ == name@,
        variable is None ==> r@ == "vi"@,
{
}

/// A token is what `gh` wrote, without white space around it; a failure and an empty answer are
/// told apart.
pub proof fn law_tokens_are_what_gh_wrote(answer: &Output, r: Result<String, String>)
    requires
        call_ensures(gh_token, (answer,), r),
    ensures
        r matches Ok(token) ==> answer.code == Some(0i32) && token@.len() > 0 && token@ == trimmed(
            answer.stdout@,
        ),
        answer.code != Some(0i32) ==> (r matches Err(text) && text@
            == "set a github secret or run gh auth login"@),
        answer.code == Some(0i32) && trimmed(answer.stdout@).len() == 0 ==> (r matches Err(text)
            && text@ == "gh auth token returned an empty token"@),
{
}

/// Notes go to the repository that the address of the origin names, and to none on another host.
pub proof fn law_notes_go_to_the_origin(
    answer: &Output,
    r: Result<(String, String), String>,
    host: Seq<char>,
    owner: Seq<char>,
    repo: Seq<char>,
    git: bool,
)
    requires
        call_ensures(github_repo, (answer,), r),
        answer.code == Some(0i32),
    ensures
        (host == "git@github.com:"@ || host == "https://github.com/"@ || host
            == "ssh://git@github.com/"@) && owner.len() > 0 && repo.len() > 0 && !owner.contains('/')
            && !repo.contains('/') && !has_suffix(repo, ".git"@) && trimmed(answer.stdout@) == host
            + owner + "/"@ + repo + (if git {
            ".git"@
        } else {
            seq![]
        }) ==> (r matches Ok(found) && found.0@ == owner && found.1@ == repo),
        !has_prefix(trimmed(answer.stdout@), "git@github.com:"@) && !has_prefix(
            trimmed(answer.stdout@),
            "https://github.com/"@,
        ) && !has_prefix(trimmed(answer.stdout@), "ssh://git@github.com/"@) ==> (r matches Err(text)
            && text@ == "origin is not a GitHub repository"@),
{
    let end = if git {
        ".git"@
    } else {
        seq![]
    };
    if is_host(host) && owner.len() > 0 && repo.len() > 0 && !owner.contains('/')
        && !repo.contains('/') && !has_suffix(repo, ".git"@) {
        law_addresses_name_their_repository(host, owner, repo, git, false);
        assert(end + seq![] =~= end);
    }
}

/// An example of settings is a file `.env.example` in any directory, and no other file is.
pub proof fn law_examples_are_named_so(path: &str, r: bool, dir: Seq<char>, name: Seq<char>)
    requires
        call_ensures(is_env_example, (path,), r),
    ensures
        path@ == ".env.example"@ || path@ == dir + "/.env.example"@ ==> r,
        name.len() > 0 && !name.contains('/') && name != "."@ && name != ".."@ && name
            != ".env.example"@ && (path@ == name || path@ == dir + "/"@ + name) ==> !r,
{
    let own = ".env.example"@;
    reveal_strlit(".env.example");
    reveal_strlit("/.env.example");
    reveal_strlit("/");
    reveal_strlit(".");
    reveal_strlit("..");
    assert(own.len() == 12 && "."@.len() == 1 && ".."@.len() == 2);
    assert(dir + "/.env.example"@ =~= dir + "/"@ + own);
    assert(!own.contains('/')) by {
        if own.contains('/') {
            let k = choose|k: int| 0 <= k < own.len() && own[k] == '/';
            assert(own[0] == '.' && own[1] == 'e' && own[2] == 'n' && own[3] == 'v' && own[4] == '.'
                && own[5] == 'e' && own[6] == 'x' && own[7] == 'a' && own[8] == 'm' && own[9] == 'p'
                && own[10] == 'l' && own[11] == 'e');
        }
    }
    if path@ == own || path@ == dir + "/"@ + own {
        lemma_file_name(path@, dir, own);
    }
    if name.len() > 0 && !name.contains('/') && name != "."@ && name != ".."@ && (path@ == name
        || path@ == dir + "/"@ + name) {
        lemma_file_name(path@, dir, name);
    }
}

/// An address without a repository, and one with more than an owner and a repository, names none.
pub proof fn law_addresses_have_two_parts(
    url: &str,
    r: Option<(String, String)>,
    host: Seq<char>,
    owner: Seq<char>,
    rest: Seq<char>,
    more: Seq<char>,
)
    requires
        call_ensures(parse_github_remote, (url,), r),
        host == "git@github.com:"@ || host == "https://github.com/"@ || host
            == "ssh://git@github.com/"@,
        owner.len() > 0,
        !owner.contains('/'),
        more.len() > 0,
        !more.contains('/'),
        !has_suffix(owner, ".git"@),
        more.last() != 't',
    ensures
        url@ == host + owner ==> r is None,
        url@ == host + (owner + "/"@ + rest + "/"@ + more) ==> r is None,
        url@.len() == 0 ==> r is None,
{
    reveal_strlit(".git");
    reveal_strlit("/");
    assert(".git"@.len() == 4 && ".git"@[3] == 't');
    reveal_strlit("git@github.com:");
    reveal_strlit("https://github.com/");
    reveal_strlit("ssh://git@github.com/");
    let path = owner + "/"@ + rest + "/"@ + more;
    if url@ == host + owner {
        lemma_after_host(url@, host, owner);
        assert(owner.contains(owner.last()));
        assert(owner.skip(owner.len() - 1)[0] == owner.last());
        assert(without_suffixes(owner, "/"@) == owner);
        assert(without_suffixes(owner, ".git"@) == owner);
        law_parts_end_at_separators(owner, '/', seq![]);
    }
    if url@ == host + path {
        lemma_after_host(url@, host, path);
        assert(path.last() == more.last());
        assert(more.contains(more.last()));
        assert(path.skip(path.len() - 1)[0] == path.last());
        assert(without_suffixes(path, "/"@) == path);
        assert(path.skip(path.len() - 4)[3] == path.last());
        assert(without_suffixes(path, ".git"@) == path);
        let tail = rest + "/"@ + more;
        assert("/"@ =~= seq!['/']);
        assert(path =~= owner + seq!['/'] + tail);
        law_parts_end_at_separators(owner, '/', tail);
        let at = rest.len() as int;
        assert(tail.subrange(at, at + 1) =~= "/"@);
        assert(occurs_at(tail, "/"@, at));
    }
}

proof fn lemma_after_host(url: Seq<char>, host: Seq<char>, rest: Seq<char>)
    requires
        url == host + rest,
        host == "git@github.com:"@ || host == "https://github.com/"@ || host
            == "ssh://git@github.com/"@,
    ensures
        after_host(url) == Some(rest),
{
    reveal_strlit("git@github.com:");
    reveal_strlit("https://github.com/");
    reveal_strlit("ssh://git@github.com/");
    assert(url.take(host.len() as int) =~= host);
    assert(url.skip(host.len() as int) =~= rest);
    assert(url[0] == host[0]);
    if has_prefix(url, "git@github.com:"@) {
        assert(url.take(15)[0] == url[0]);
        assert("git@github.com:"@[0] == 'g');
    }
    if has_prefix(url, "https://github.com/"@) {
        assert(url.take(19)[0] == url[0]);
        assert("https://github.com/"@[0] == 'h');
    }
    assert("ssh://git@github.com/"@[0] == 's');
}

} // verus!
