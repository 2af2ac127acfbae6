//! The packages of a repository, and their versions.

use crate::build::files::{law_files_are_sorted, place, sort_files, sorted};
use crate::codec::{json_keeps, json_pretty, json_value, read_json, write_json_pretty};
use crate::command::Output;
use crate::notes::{parse_github_remote, remote_of};
use crate::number::decimal;
use crate::project::{file_name, file_name_of, join_path, path_in};
use crate::tags::{bump_fits, bumped, checked_bump, Bump, Channel};
use crate::text::{
    before, contains, drop_end, drop_start, filled, glue, glue3, has_part, has_suffix, is_space,
    lemma_trimmed, occurs_at, strip_suffix, trim, trimmed, view_opt, views, without_suffix,
};
use crate::tree::{assign, child, items_of, said_opt, Tree, TreeView};
use crate::vars::pairs;
use crate::version::{
    law_reading_gives_back_what_was_written, lemma_text_chars, parsed, VersionView,
};
use vstd::prelude::*;

verus! {

/// A package to release.
#[derive(Debug, Clone, PartialEq, Eq)]
pub struct Package {
    pub name: String,
    pub version: String,
    /// The file that the version is kept in.
    pub manifest: String,
    /// The file holds the version alone.
    pub version_file: bool,
}

/// What a package says.
pub struct PackageView {
    pub name: Seq<char>,
    pub version: Seq<char>,
    pub manifest: Seq<char>,
    pub version_file: bool,
}

impl View for Package {
    type V = PackageView;

    open spec fn view(&self) -> PackageView {
        PackageView {
            name: self.name@,
            version: self.version@,
            manifest: self.manifest@,
            version_file: self.version_file,
        }
    }
}

/// What packages say.
pub open spec fn package_views(list: Seq<Package>) -> Seq<PackageView> {
    list.map_values(|package: Package| package@)
}

impl Package {
    /// A package like this one.
    pub fn copy(&self) -> (r: Package)
        ensures
            r@ == self@,
    {
        Package {
            name: self.name.clone(),
            version: self.version.clone(),
            manifest: self.manifest.clone(),
            version_file: self.version_file,
        }
    }
}

// The packages of a workspace.

/// The texts among the values of a list.
pub open spec fn as_text() -> spec_fn(TreeView) -> Option<Seq<char>> {
    |item: TreeView| match item {
        TreeView::Text(text) => Some(text),
        _ => None,
    }
}

/// The texts in a value that is a list; none in any other.
pub open spec fn texts_in(value: Option<TreeView>) -> Seq<Seq<char>> {
    match value {
        Some(TreeView::Array(items)) => items.filter_map(as_text()),
        _ => seq![],
    }
}

/// The patterns of the workspace that a manifest declares.
pub open spec fn patterns_in(manifest: TreeView) -> Option<Seq<Seq<char>>> {
    match child(manifest, "workspaces"@) {
        None => None,
        Some(TreeView::Table(table)) => Some(
            texts_in(child(TreeView::Table(table), "packages"@)),
        ),
        other => Some(texts_in(other)),
    }
}

fn text_items(value: Option<&Tree>) -> (r: Vec<String>)
    ensures
        views(r@) == texts_in(said_opt(value)),
{
    let mut out: Vec<String> = Vec::new();
    assert(views(out@) =~= seq![]);
    if let Some(Tree::Array(items)) = value {
        let n: usize = items.len();
        let ghost all = items_of(items@);
        proof {
            lemma_items(items@);
            reveal(Seq::filter_map);
            assert(all.take(0).filter_map(as_text()) =~= seq![]);
        }
        for i in 0..n
            invariant
                n == items@.len() == all.len(),
                forall|j: int| 0 <= j < n ==> #[trigger] all[j] == items@[j]@,
                views(out@) == all.take(i as int).filter_map(as_text()),
        {
            proof {
                all.lemma_filter_map_take_succ(as_text(), i as int);
                assert(all[i as int] == items@[i as int]@);
            }
            let ghost had = views(out@);
            if let Some(text) = items[i].as_text() {
                out.push(text);
                assert(views(out@) =~= had.push(text@));
            }
        }
        assert(all.take(n as int) =~= all);
    }
    out
}

proof fn lemma_items(items: Seq<Tree>)
    ensures
        items_of(items).len() == items.len(),
        forall|j: int|
            0 <= j < items.len() ==> #[trigger] items_of(items)[j] == items[j]@,
    decreases items.len(),
{
    if items.len() > 0 {
        lemma_items(items.drop_last());
    }
}

/// The patterns of the workspace that a manifest declares.
pub fn patterns(manifest: &Tree) -> (r: Option<Vec<String>>)
    ensures
        match r {
            Some(list) => patterns_in(manifest@) == Some(views(list@)),
            None => patterns_in(manifest@) is None,
        },
{
    match manifest.get("workspaces") {
        None => None,
        Some(workspaces) => {
            if let Tree::Table(_) = workspaces {
                Some(text_items(workspaces.get("packages")))
            } else {
                Some(text_items(Some(workspaces)))
            }
        },
    }
}

/// The patterns of the workspace that the text of a manifest declares.
pub fn workspace_patterns(text: &str) -> (r: Result<Option<Vec<String>>, serde_json::Error>)
    ensures
        match json_value(text@) {
            None => r is Err,
            Some(manifest) => r matches Ok(list) && match list {
                Some(list) => patterns_in(manifest) == Some(views(list@)),
                None => patterns_in(manifest) is None,
            },
        },
{
    match read_json(text) {
        Err(error) => Err(error),
        Ok(manifest) => Ok(patterns(&manifest)),
    }
}

/// The directories that a pattern stands for.
#[derive(Debug, Clone, PartialEq, Eq)]
pub enum Expansion {
    /// All directories in one.
    Children(String),
    /// One directory.
    One(String),
    Nothing,
}

/// The directories that a pattern stands for: an asterisk stands for all in a directory, as the
/// last part of a pattern and nowhere else.
pub fn expand_workspace(root: &str, pattern: &str) -> (r: Expansion)
    ensures
        match without_suffix(pattern@, "/*"@) {
            Some(dir) if !has_part(dir, "*"@) => r matches Expansion::Children(parent)
                && parent@ == path_in(root@, dir),
            _ => if has_part(pattern@, "*"@) {
                r is Nothing
            } else {
                r matches Expansion::One(dir) && dir@ == path_in(root@, pattern@)
            },
        },
{
    if let Some(dir) = strip_suffix(pattern, "/*") {
        if !contains(dir.as_str(), "*") {
            return Expansion::Children(join_path(root, dir.as_str()));
        }
    }
    if contains(pattern, "*") {
        return Expansion::Nothing;
    }
    Expansion::One(join_path(root, pattern))
}

/// Directories in one: their names, and their paths.
pub open spec fn paths_in(parent: Seq<char>, names: Seq<Seq<char>>) -> Seq<
    (Seq<char>, Seq<char>),
> {
    names.map_values(|name: Seq<char>| (name, path_in(parent, name)))
}

/// The paths of the directories in one, in the order of their names.
pub open spec fn children_of(parent: Seq<char>, names: Seq<Seq<char>>) -> Seq<Seq<char>> {
    sorted(paths_in(parent, names)).map_values(|dir: (Seq<char>, Seq<char>)| dir.1)
}

/// The paths of the directories in one, in the order of their names.
pub fn children(parent: &str, names: &[String]) -> (r: Vec<String>)
    ensures
        views(r@) == children_of(parent@, views(names@)),
{
    let mut dirs: Vec<(String, String)> = Vec::new();
    let n: usize = names.len();
    let ghost all = paths_in(parent@, views(names@));
    assert(pairs(dirs@) =~= all.take(0));
    for i in 0..n
        invariant
            n == names@.len() == all.len(),
            all == paths_in(parent@, views(names@)),
            pairs(dirs@) == all.take(i as int),
    {
        let ghost had = pairs(dirs@);
        dirs.push((names[i].clone(), join_path(parent, names[i].as_str())));
        assert(pairs(dirs@) =~= had.push(all[i as int]));
        assert(all.take(i + 1) =~= all.take(i as int).push(all[i as int]));
    }
    assert(all.take(n as int) =~= all);
    let dirs = sort_files(dirs);
    let mut out: Vec<String> = Vec::new();
    let m: usize = dirs.len();
    let ghost paths = children_of(parent@, views(names@));
    assert(views(out@) =~= paths.take(0));
    for i in 0..m
        invariant
            m == dirs@.len() == paths.len(),
            pairs(dirs@) == sorted(paths_in(parent@, views(names@))),
            paths == children_of(parent@, views(names@)),
            views(out@) == paths.take(i as int),
    {
        let ghost had = views(out@);
        assert(pairs(dirs@)[i as int].1 == dirs@[i as int].1@);
        out.push(dirs[i].1.clone());
        assert(views(out@) =~= had.push(paths[i as int]));
        assert(paths.take(i + 1) =~= paths.take(i as int).push(paths[i as int]));
    }
    assert(paths.take(m as int) =~= paths);
    out
}

/// The version that a manifest names.
pub open spec fn version_in(manifest: TreeView) -> Seq<char> {
    match child(manifest, "version"@) {
        Some(TreeView::Text(text)) => text,
        _ => "0.0.0"@,
    }
}

/// The package in a directory of a workspace.
pub open spec fn package_in(dir: Seq<char>, manifest: TreeView) -> PackageView {
    PackageView {
        name: match file_name_of(dir) {
            Some(name) => name,
            None => "package"@,
        },
        version: version_in(manifest),
        manifest: path_in(dir, "package.json"@),
        version_file: false,
    }
}

/// The package in a directory of a workspace, from its manifest.
pub fn package(dir: &str, manifest: &Tree) -> (r: Package)
    ensures
        r@ == package_in(dir@, manifest@),
{
    let name = match file_name(dir) {
        Some(name) => name,
        None => "package".to_string(),
    };
    let version = match manifest.get("version") {
        Some(value) => match value.as_text() {
            Some(text) => text,
            None => "0.0.0".to_string(),
        },
        None => "0.0.0".to_string(),
    };
    Package { name, version, manifest: join_path(dir, "package.json"), version_file: false }
}

/// The package in a directory of a workspace, from the text of its manifest.
pub fn workspace_package(dir: &str, text: &str) -> (r: Result<Package, serde_json::Error>)
    ensures
        match json_value(text@) {
            None => r is Err,
            Some(manifest) => r matches Ok(found) && found@ == package_in(dir@, manifest),
        },
{
    match read_json(text) {
        Err(error) => Err(error),
        Ok(manifest) => Ok(package(dir, &manifest)),
    }
}

/// Directories, with the text of the manifest in each that has one.
pub open spec fn candidates(list: Seq<(String, Option<String>)>) -> Seq<
    (Seq<char>, Option<Seq<char>>),
> {
    list.map_values(|dir: (String, Option<String>)| (dir.0@, view_opt(dir.1)))
}

/// The packages in directories: one in each that has a manifest, where all manifests can be
/// read.
pub open spec fn packages_in(dirs: Seq<(Seq<char>, Option<Seq<char>>)>) -> Option<
    Seq<PackageView>,
>
    decreases dirs.len(),
{
    if dirs.len() == 0 {
        Some(seq![])
    } else {
        match packages_in(dirs.drop_last()) {
            None => None,
            Some(list) => match dirs.last().1 {
                None => Some(list),
                Some(text) => match json_value(text) {
                    None => None,
                    Some(manifest) => Some(list.push(package_in(dirs.last().0, manifest))),
                },
            },
        }
    }
}

proof fn lemma_unreadable(dirs: Seq<(Seq<char>, Option<Seq<char>>)>, n: int)
    requires
        0 <= n <= dirs.len(),
        packages_in(dirs.take(n)) is None,
    ensures
        packages_in(dirs) is None,
    decreases dirs.len() - n,
{
    if n < dirs.len() {
        assert(dirs.take(n + 1).drop_last() =~= dirs.take(n));
        lemma_unreadable(dirs, n + 1);
    } else {
        assert(dirs.take(n) =~= dirs);
    }
}

/// The packages of a workspace, from the manifests in its directories.
pub fn workspace_packages(dirs: &[(String, Option<String>)]) -> (r: Result<
    Vec<Package>,
    serde_json::Error,
>)
    ensures
        match packages_in(candidates(dirs@)) {
            None => r is Err,
            Some(list) => r matches Ok(found) && package_views(found@) == list,
        },
{
    let n: usize = dirs.len();
    let ghost all = candidates(dirs@);
    let mut out: Vec<Package> = Vec::new();
    assert(package_views(out@) =~= seq![]);
    for i in 0..n
        invariant
            n == dirs@.len() == all.len(),
            all == candidates(dirs@),
            packages_in(all.take(i as int)) == Some(package_views(out@)),
    {
        proof {
            assert(all.take(i + 1).drop_last() =~= all.take(i as int));
            assert(all.take(i + 1).last() == all[i as int]);
        }
        if let Some(text) = &dirs[i].1 {
            match workspace_package(dirs[i].0.as_str(), text.as_str()) {
                Err(error) => {
                    proof {
                        lemma_unreadable(all, i + 1);
                    }
                    return Err(error);
                },
                Ok(found) => {
                    let ghost had = package_views(out@);
                    out.push(found);
                    assert(package_views(out@) =~= had.push(found@));
                },
            }
        }
    }
    assert(all.take(n as int) =~= all);
    Ok(out)
}

/// The package of a repository that is no workspace: its version stands in a file of its own.
pub open spec fn single_package(
    root: Seq<char>,
    name: Seq<char>,
    text: Option<Seq<char>>,
) -> PackageView {
    let version = match text {
        Some(text) => filled(Some(trimmed(text))),
        None => None,
    };
    PackageView {
        name,
        version: match version {
            Some(version) => version,
            None => "0.0.0"@,
        },
        manifest: path_in(root, "VERSION"@),
        version_file: true,
    }
}

/// The package of a repository that is no workspace.
pub fn version_package(root: &str, name: String, text: Option<String>) -> (r: Package)
    ensures
        r@ == single_package(root@, name@, view_opt(text)),
{
    let version = match text {
        Some(text) => {
            let text = trim(text.as_str());
            if text.as_str().is_empty() {
                "0.0.0".to_string()
            } else {
                text
            }
        },
        None => "0.0.0".to_string(),
    };
    Package { name, version, manifest: join_path(root, "VERSION"), version_file: true }
}

/// The name of a repository: that on GitHub, or that of its directory.
pub fn repo_name(answer: &Output, root: &str) -> (r: Result<String, String>)
    ensures
        match (if answer.ok() {
            remote_of(trimmed(answer.stdout@))
        } else {
            None
        }) {
            Some((_, repo)) => r matches Ok(text) && text@ == repo,
            None => match file_name_of(root@) {
                Some(name) => r matches Ok(text) && text@ == name,
                None => r matches Err(text) && text@
                    == "could not determine the repository name"@,
            },
        },
{
    if answer.success() {
        let url = trim(answer.stdout.as_str());
        if let Some((_, repo)) = parse_github_remote(url.as_str()) {
            return Ok(repo);
        }
    }
    match file_name(root) {
        Some(name) => Ok(name),
        None => Err("could not determine the repository name".to_string()),
    }
}

// Choices.

/// A package in the list to choose from.
pub open spec fn label_of(package: PackageView) -> Seq<char> {
    package.name + " ("@ + package.version + ")"@
}

/// The list of packages to choose from.
pub open spec fn labels_of(packages: Seq<PackageView>) -> Seq<Seq<char>> {
    packages.map_values(|package: PackageView| label_of(package)) + seq!["all"@, "quit"@]
}

/// The list of packages to choose from.
pub fn select_packages(packages: &[Package]) -> (r: Result<Vec<String>, String>)
    ensures
        if packages@.len() == 0 {
            r matches Err(text) && text@
                == "package.json workspaces did not match any packages"@
        } else {
            r matches Ok(labels) && views(labels@) == labels_of(package_views(packages@))
        },
{
    let n: usize = packages.len();
    if n == 0 {
        return Err("package.json workspaces did not match any packages".to_string());
    }
    let mut labels: Vec<String> = Vec::new();
    let ghost all = package_views(packages@).map_values(
        |package: PackageView| label_of(package),
    );
    for i in 0..n
        invariant
            n == packages@.len() == all.len(),
            all == package_views(packages@).map_values(
                |package: PackageView| label_of(package),
            ),
            views(labels@) == all.take(i as int),
    {
        let mut label = glue3(packages[i].name.as_str(), " (", packages[i].version.as_str());
        label.append(")");
        let ghost had = views(labels@);
        let ghost added = label@;
        labels.push(label);
        assert(all[i as int] == added);
        assert(views(labels@) =~= had.push(added));
        assert(all.take(i + 1) =~= all.take(i as int).push(added));
    }
    let ghost had = views(labels@);
    labels.push("all".to_string());
    labels.push("quit".to_string());
    assert(views(labels@) =~= had + seq!["all"@, "quit"@]);
    assert(all.take(n as int) =~= all);
    Ok(labels)
}

/// The packages that a choice stands for: one, all, or none.
pub fn chosen_packages(packages: Vec<Package>, choice: usize) -> (r: Vec<Package>)
    requires
        choice < packages@.len() + 2,
    ensures
        package_views(r@) == if choice < packages@.len() {
            seq![packages@[choice as int]@]
        } else if choice == packages@.len() {
            package_views(packages@)
        } else {
            seq![]
        },
{
    let n: usize = packages.len();
    if choice < n {
        let one = vec![packages[choice].copy()];
        assert(package_views(one@) =~= seq![packages@[choice as int]@]);
        return one;
    }
    if choice == n {
        return packages;
    }
    let none: Vec<Package> = Vec::new();
    assert(package_views(none@) =~= seq![]);
    none
}

/// The bump that a choice stands for.
pub fn select_bump(choice: usize) -> (r: Option<Bump>)
    ensures
        r == match choice {
            0usize => Some(Bump::Patch),
            1usize => Some(Bump::Minor),
            2usize => Some(Bump::Major),
            3usize => Some(Bump::Current),
            _ => None,
        },
{
    match choice {
        0 => Some(Bump::Patch),
        1 => Some(Bump::Minor),
        2 => Some(Bump::Major),
        3 => Some(Bump::Current),
        _ => None,
    }
}

/// The channel that a choice stands for.
pub fn select_channel(choice: usize) -> (r: Option<Channel>)
    ensures
        r == match choice {
            0usize => Some(Channel::Stable),
            1usize => Some(Channel::Rc),
            2usize => Some(Channel::Beta),
            3usize => Some(Channel::Alpha),
            _ => None,
        },
{
    match choice {
        0 => Some(Channel::Stable),
        1 => Some(Channel::Rc),
        2 => Some(Channel::Beta),
        3 => Some(Channel::Alpha),
        _ => None,
    }
}

/// The next version in writing; nothing for what is no version.
pub open spec fn preview(version: Seq<char>, bump: Bump) -> Seq<char> {
    match parsed(version) {
        Some(v) => bumped(v, bump).text(),
        None => seq![],
    }
}

/// Whether each number of a version can grow.
pub open spec fn can_grow(version: Seq<char>) -> bool {
    parsed(version) matches Some(v) ==> v.major < u64::MAX && v.minor < u64::MAX && v.patch
        < u64::MAX
}

fn preview_of(version: &str, bump: Bump) -> (r: Option<String>)
    ensures
        match r {
            Some(text) => text@ == preview(version@, bump) && (parsed(version@) matches Some(v)
                ==> bump_fits(v, bump)),
            None => parsed(version@) matches Some(v) && !bump_fits(v, bump),
        },
{
    match checked_bump(version, bump) {
        Ok(Some(text)) => Some(text),
        Ok(None) => None,
        Err(_) => {
            let none = String::new();
            assert(none@ =~= seq![]);
            Some(none)
        },
    }
}

/// The line that shows what each bump of a package leads to, where its numbers can grow.
pub fn bump_line(package: &Package) -> (r: Option<String>)
    ensures
        match r {
            Some(line) => can_grow(package.version@) && line@ == package.name@ + " "@
                + package.version@ + " -> patch "@ + preview(package.version@, Bump::Patch)
                + " / minor "@ + preview(package.version@, Bump::Minor) + " / major "@ + preview(
                package.version@,
                Bump::Major,
            ),
            None => !can_grow(package.version@),
        },
{
    let version = package.version.as_str();
    let patch = match preview_of(version, Bump::Patch) {
        Some(text) => text,
        None => {
            return None;
        },
    };
    let minor = match preview_of(version, Bump::Minor) {
        Some(text) => text,
        None => {
            return None;
        },
    };
    let major = match preview_of(version, Bump::Major) {
        Some(text) => text,
        None => {
            return None;
        },
    };
    let mut line = glue3(package.name.as_str(), " ", version);
    line.append(" -> patch ");
    line.append(patch.as_str());
    line.append(" / minor ");
    line.append(minor.as_str());
    line.append(" / major ");
    line.append(major.as_str());
    Some(line)
}

// Writing versions.

/// A manifest with another version; what is no table stays as it is.
pub open spec fn with_version(manifest: TreeView, version: Seq<char>) -> TreeView {
    match manifest {
        TreeView::Table(table) => TreeView::Table(
            table.insert("version"@, TreeView::Text(version)),
        ),
        other => other,
    }
}

/// The version that was written into a manifest is the one that is read.
pub proof fn law_written_version_is_read(manifest: TreeView, version: Seq<char>)
    requires
        manifest is Table,
    ensures
        version_in(with_version(manifest, version)) == version,
{
}

/// The version that was written into a file of its own is the one that is read.
pub proof fn law_version_file_is_read(root: Seq<char>, name: Seq<char>, version: VersionView)
    requires
        version.valid(),
    ensures
        single_package(root, name, Some(version.text() + "\n"@)).version == version.text(),
{
    let text = version.text();
    let line = text + "\n"@;
    let drop = |c: char| is_space(c);
    reveal_strlit("\n");
    lemma_text_chars(version);
    assert(drop_start(line, drop) == line);
    assert(line.drop_last() =~= text);
    assert(drop_end(line, drop) == drop_end(text, drop));
    lemma_trimmed(text);
}

/// A manifest that JSON keeps is also kept with another version in it.
pub proof fn law_manifests_with_versions_are_kept(
    manifest: TreeView,
    version: Seq<char>,
    depth: nat,
)
    requires
        json_keeps(manifest, depth),
    ensures
        json_keeps(with_version(manifest, version), depth),
{
    if let TreeView::Table(table) = manifest {
        let inner = (depth - 1) as nat;
        let new = table.insert("version"@, TreeView::Text(version));
        assert(json_keeps(TreeView::Text(version), inner));
        assert forall|name: Seq<char>| new.dom().contains(name) implies json_keeps(
            #[trigger] new[name],
            inner,
        ) by {
            if name != "version"@ {
                assert(table.dom().contains(name) && new[name] == table[name]);
            }
        }
    }
}

/// A manifest with another version.
pub fn put_version(manifest: Tree, version: &str) -> (r: Tree)
    ensures
        r@ == with_version(manifest@, version@),
{
    match manifest {
        Tree::Table(table) => {
            let path = vec!["version".to_string()];
            assert(views(path@) =~= seq!["version"@]);
            Tree::Table(assign(table, path.as_slice(), Some(version.to_string())))
        },
        other => other,
    }
}

/// Why a version is not written.
#[derive(Debug)]
pub enum ManifestError {
    Unreadable(serde_json::Error),
    Unwritable(serde_json::Error),
}

/// What the manifest of a package says with its version in it, from what it said before.
pub fn write_version(package: &Package, text: &str) -> (r: Result<String, ManifestError>)
    ensures
        if package.version_file {
            r matches Ok(body) && body@ == package.version@ + "\n"@
        } else {
            match json_value(text@) {
                None => r matches Err(ManifestError::Unreadable(_)),
                Some(manifest) => {
                    &&& match json_pretty(with_version(manifest, package.version@)) {
                        None => r matches Err(ManifestError::Unwritable(_)),
                        Some(body) => r matches Ok(text) && text@ == body + "\n"@,
                    }
                    &&& json_keeps(manifest, 127) ==> {
                        &&& r matches Ok(text)
                        &&& json_value(text@) == Some(with_version(manifest, package.version@))
                    }
                },
            }
        },
{
    if package.version_file {
        return Ok(glue(package.version.as_str(), "\n"));
    }
    match read_json(text) {
        Err(error) => Err(ManifestError::Unreadable(error)),
        Ok(manifest) => {
            proof {
                if json_keeps(manifest@, 127) {
                    law_manifests_with_versions_are_kept(manifest@, package.version@, 127);
                }
            }
            match write_json_pretty(&put_version(manifest, package.version.as_str())) {
                Err(error) => Err(ManifestError::Unwritable(error)),
                Ok(body) => Ok(glue(body.as_str(), "\n")),
            }
        },
    }
}

// Packages in writing.

/// A package of a workspace has the name of its directory and the version of its manifest, which
/// is `package.json` in that directory; without a version it is at zero.
pub proof fn law_workspace_packages_are_read_from_manifests(
    dir: &str,
    manifest: &Tree,
    r: Package,
    version: Seq<char>,
)
    requires
        call_ensures(package, (dir, manifest), r),
    ensures
        child(manifest@, "version"@) == Some(TreeView::Text(version)) ==> r.version@ == version,
        child(manifest@, "version"@) is None ==> r.version@ == "0.0.0"@,
        r.manifest@ == path_in(dir@, "package.json"@),
        !r.version_file,
        file_name_of(dir@) matches Some(name) ==> r.name@ == name,
{
}

/// The package of a repository that is no workspace has its version in the file `VERSION`; where
/// that is missing or blank it is at zero.
pub proof fn law_single_packages_are_read_from_a_file(
    root: &str,
    name: String,
    text: Option<String>,
    r: Package,
)
    requires
        call_ensures(version_package, (root, name, text), r),
    ensures
        r.name@ == name@,
        r.manifest@ == path_in(root@, "VERSION"@),
        r.version_file,
        text is None ==> r.version@ == "0.0.0"@,
        text matches Some(text) ==> r.version@ == if trimmed(text@).len() == 0 {
            "0.0.0"@
        } else {
            trimmed(text@)
        },
{
}

/// What is written into a version file is the version on a line; what is written into a manifest
/// changes its version and nothing else.
pub proof fn law_only_versions_change(
    package: &Package,
    text: &str,
    r: Result<String, ManifestError>,
    manifest: TreeView,
    name: Seq<char>,
)
    requires
        call_ensures(write_version, (package, text), r),
    ensures
        package.version_file ==> (r matches Ok(body) && body@ == package.version@ + "\n"@),
        !package.version_file && json_value(text@) is None ==> r is Err,
        !package.version_file && json_value(text@) == Some(manifest) && manifest is Table
            && json_keeps(manifest, 127) ==> {
            &&& r matches Ok(body)
            &&& json_value(body@) matches Some(new)
            &&& child(new, "version"@) == Some(TreeView::Text(package.version@))
            &&& name != "version"@ ==> child(new, name) == child(manifest, name)
        },
{
}

/// A pattern with an asterisk at its end stands for the directories in one, a pattern without for
/// itself, and any other for none.
pub proof fn law_patterns_end_with_an_asterisk(
    root: &str,
    pattern: &str,
    r: Expansion,
    dir: Seq<char>,
)
    requires
        call_ensures(expand_workspace, (root, pattern), r),
        !dir.contains('*'),
    ensures
        pattern@ == dir + "/*"@ ==> (r matches Expansion::Children(parent) && parent@ == path_in(
            root@,
            dir,
        )),
        pattern@ == dir ==> (r matches Expansion::One(one) && one@ == path_in(root@, dir)),
        pattern@ == dir + "*/x"@ ==> r is Nothing,
{
    reveal_strlit("/*");
    reveal_strlit("*");
    reveal_strlit("*/x");
    assert("/*"@.len() == 2 && "*"@.len() == 1 && "*/x"@.len() == 3);
    assert(!has_part(dir, "*"@)) by {
        if has_part(dir, "*"@) {
            let at = choose|at: int| #[trigger] occurs_at(dir, "*"@, at);
            assert(dir.subrange(at, at + 1)[0] == dir[at]);
            assert(dir.contains(dir[at]));
        }
    }
    if pattern@ == dir + "/*"@ {
        assert(pattern@.skip(pattern@.len() - 2) =~= "/*"@);
        assert(pattern@.take(pattern@.len() - 2) =~= dir);
    }
    if pattern@ == dir {
        if has_suffix(dir, "/*"@) {
            assert(dir.skip(dir.len() - 2)[1] == dir[dir.len() - 1]);
            assert(dir.contains(dir[dir.len() - 1]));
        }
    }
    if pattern@ == dir + "*/x"@ {
        let at = dir.len() as int;
        assert(pattern@.subrange(at, at + 1) =~= "*"@);
        assert(occurs_at(pattern@, "*"@, at));
        if has_suffix(pattern@, "/*"@) {
            assert(pattern@.skip(pattern@.len() - 2)[1] == pattern@[pattern@.len() - 1]);
            assert(pattern@[pattern@.len() - 1] == 'x');
        }
    }
}

/// Packages are offered by name and version, then all of them, then none; what is chosen is what
/// was offered at the place.
pub proof fn law_packages_are_chosen_as_offered(
    packages: &[Package],
    list: Vec<Package>,
    labels: Result<Vec<String>, String>,
    choice: usize,
    r: Vec<Package>,
)
    requires
        packages@.len() > 0,
        package_views(list@) == package_views(packages@),
        choice < packages@.len() + 2,
        call_ensures(select_packages, (packages,), labels),
        call_ensures(chosen_packages, (list, choice), r),
    ensures
        labels matches Ok(labels) && {
            &&& labels@.len() == packages@.len() + 2
            &&& choice < packages@.len() ==> {
                &&& views(labels@)[choice as int] == packages@[choice as int].name@ + " ("@
                    + packages@[choice as int].version@ + ")"@
                &&& package_views(r@) == seq![packages@[choice as int]@]
            }
            &&& views(labels@)[packages@.len() as int] == "all"@
            &&& choice == packages@.len() ==> package_views(r@) == package_views(packages@)
            &&& views(labels@)[packages@.len() as int + 1] == "quit"@
            &&& choice == packages@.len() + 1 ==> r@.len() == 0
        },
{
    let all = package_views(packages@);
    assert(package_views(list@).len() == list@.len());
    assert(all.len() == packages@.len());
    let labels = labels->Ok_0;
    assert(views(labels@).len() == labels@.len());
    if choice < packages@.len() {
        assert(all[choice as int] == packages@[choice as int]@);
        assert(package_views(list@)[choice as int] == list@[choice as int]@);
    }
    if choice == packages@.len() + 1 {
        assert(package_views(r@).len() == r@.len());
    }
}

/// Bumps are offered as patch, minor, major and the current version, channels as stable, candidate,
/// beta and alpha; anything further stops.
pub proof fn law_bumps_and_channels_are_chosen_in_order(
    choice: usize,
    bump: Option<Bump>,
    channel: Option<Channel>,
)
    requires
        call_ensures(select_bump, (choice,), bump),
        call_ensures(select_channel, (choice,), channel),
    ensures
        choice == 0 ==> bump == Some(Bump::Patch) && channel == Some(Channel::Stable),
        choice == 1 ==> bump == Some(Bump::Minor) && channel == Some(Channel::Rc),
        choice == 2 ==> bump == Some(Bump::Major) && channel == Some(Channel::Beta),
        choice == 3 ==> bump == Some(Bump::Current) && channel == Some(Channel::Alpha),
        choice > 3 ==> bump is None && channel is None,
{
}

/// The patterns of a workspace are the list under `workspaces`, or the list under `packages` in it.
pub proof fn law_patterns_are_listed_in_the_manifest(
    manifest: &Tree,
    r: Option<Vec<String>>,
    pattern: Seq<char>,
)
    requires
        call_ensures(patterns, (manifest,), r),
    ensures
        child(manifest@, "workspaces"@) is None ==> r is None,
        child(manifest@, "workspaces"@) == Some(
            TreeView::Array(seq![TreeView::Text(pattern)]),
        ) ==> (r matches Some(list) && views(list@) == seq![pattern]),
        (child(manifest@, "workspaces"@) matches Some(inner) && inner is Table && child(
            inner,
            "packages"@,
        ) == Some(TreeView::Array(seq![TreeView::Text(pattern)]))) ==> (r matches Some(list)
            && views(list@) == seq![pattern]),
{
    let items = seq![TreeView::Text(pattern)];
    items.lemma_filter_map_take_succ(as_text(), 0);
    assert(items.take(1) =~= items);
    assert(items.take(0).filter_map(as_text()) =~= seq![]) by {
        reveal(Seq::filter_map);
    }
    assert(items.filter_map(as_text()) =~= seq![pattern]);
}

/// Each further directory of a workspace adds its package at the end where it has a manifest, and
/// nothing where it has none; a manifest that cannot be read is an error.
pub proof fn law_directories_add_their_packages(
    dirs: &[(String, Option<String>)],
    fewer: &[(String, Option<String>)],
    r: Result<Vec<Package>, serde_json::Error>,
    prior: Result<Vec<Package>, serde_json::Error>,
    dir: &str,
    text: &str,
    own: Result<Package, serde_json::Error>,
)
    requires
        call_ensures(workspace_packages, (dirs,), r),
        call_ensures(workspace_packages, (fewer,), prior),
        dirs@.len() > 0,
        fewer@ == dirs@.drop_last(),
        dir@ == dirs@.last().0@,
        dirs@.last().1 matches Some(manifest) ==> text@ == manifest@ && call_ensures(
            workspace_package,
            (dir, text),
            own,
        ),
    ensures
        prior is Err ==> r is Err,
        prior matches Ok(list) ==> (dirs@.last().1 is None ==> (r matches Ok(new) && package_views(
            new@,
        ) == package_views(list@))),
        dirs@.last().1 is Some && own is Err ==> r is Err,
        prior matches Ok(list) ==> (dirs@.last().1 is Some && own is Ok ==> (r matches Ok(new)
            && package_views(new@) == package_views(list@).push(own->Ok_0@))),
{
    assert(candidates(dirs@).drop_last() =~= candidates(fewer@));
    assert(candidates(dirs@).last() == (dirs@.last().0@, view_opt(dirs@.last().1)));
}

/// The text of a manifest says what its value says; one that is no JSON is an error.
pub proof fn law_manifests_are_read_as_values(
    text: &str,
    dir: &str,
    manifest: &Tree,
    own: Result<Package, serde_json::Error>,
    made: Package,
    list: Result<Option<Vec<String>>, serde_json::Error>,
    patterns_there: Option<Vec<String>>,
)
    requires
        call_ensures(workspace_package, (dir, text), own),
        call_ensures(workspace_patterns, (text,), list),
        call_ensures(package, (dir, manifest), made),
        call_ensures(patterns, (manifest,), patterns_there),
    ensures
        json_value(text@) is None ==> own is Err && list is Err,
        json_value(text@) == Some(manifest@) ==> {
            &&& own matches Ok(found) && found@ == made@
            &&& list matches Ok(found) && (found is Some <==> patterns_there is Some)
            &&& list matches Ok(Some(found)) ==> (patterns_there matches Some(own) && views(found@)
                == views(own@))
        },
{
}

/// The directories in one come by name, each as a path below it.
pub proof fn law_directories_come_by_name(parent: &str, names: &[String], r: Vec<String>, i: int)
    requires
        call_ensures(children, (parent, names), r),
    ensures
        r@.len() == names@.len(),
        0 <= i < r@.len() ==> exists|k: int|
            0 <= k < names@.len() && r@[i]@ == path_in(parent@, #[trigger] names@[k]@),
        names@.len() == 2 && before(names@[0]@, names@[1]@) ==> r@[0]@ == path_in(
            parent@,
            names@[0]@,
        ) && r@[1]@ == path_in(parent@, names@[1]@),
        names@.len() == 2 && before(names@[1]@, names@[0]@) ==> r@[0]@ == path_in(
            parent@,
            names@[1]@,
        ) && r@[1]@ == path_in(parent@, names@[0]@),
{
    let all = paths_in(parent@, views(names@));
    let list = sorted(all);
    law_files_are_sorted(all);
    list.to_multiset_ensures();
    all.to_multiset_ensures();
    assert(list.len() == all.len());
    assert(views(r@).len() == r@.len());
    if 0 <= i < r@.len() {
        assert(views(r@)[i] == list[i].1);
        assert(list.contains(list[i]));
        assert(all.to_multiset().count(list[i]) > 0);
        assert(all.contains(list[i]));
        let k = choose|k: int| 0 <= k < all.len() && all[k] == list[i];
        assert(names@[k]@ == views(names@)[k]);
    }
    if names@.len() == 2 {
        lemma_two_sorted(all);
        assert(all[0] == (names@[0]@, path_in(parent@, names@[0]@)));
        assert(all[1] == (names@[1]@, path_in(parent@, names@[1]@)));
        assert(views(r@)[0] == list[0].1);
        assert(views(r@)[1] == list[1].1);
    }
}

/// Two files that are sorted.
proof fn lemma_two_sorted(files: Seq<(Seq<char>, Seq<char>)>)
    requires
        files.len() == 2,
    ensures
        sorted(files) == if before(files[1].0, files[0].0) {
            seq![files[1], files[0]]
        } else {
            files
        },
{
    reveal_with_fuel(sorted, 3);
    reveal_with_fuel(place, 2);
    let first = files.drop_last();
    assert(first.drop_last().len() == 0);
    assert(sorted(first) =~= seq![files[0]]);
    assert(sorted(files) =~= if before(files[1].0, files[0].0) {
        seq![files[1], files[0]]
    } else {
        files
    });
}

/// A repository has its name on GitHub, or else that of its directory.
pub proof fn law_repositories_are_named_on_github(
    answer: &Output,
    root: &str,
    r: Result<String, String>,
    url: &str,
    remote: Option<(String, String)>,
)
    requires
        call_ensures(repo_name, (answer, root), r),
        url@ == trimmed(answer.stdout@),
        call_ensures(parse_github_remote, (url,), remote),
    ensures
        answer.code == Some(0i32) ==> (remote matches Some(found) ==> (r matches Ok(name) && name@
            == found.1@)),
        answer.code != Some(0i32) || remote is None ==> {
            &&& file_name_of(root@) matches Some(own) ==> (r matches Ok(name) && name@ == own)
            &&& file_name_of(root@) is None ==> (r matches Err(text) && text@
                == "could not determine the repository name"@)
        },
{
}

/// The line of a package shows its version and what each bump leads to.
pub proof fn law_bump_lines_show_the_next_versions(
    package: &Package,
    r: Option<String>,
    major: u64,
    minor: u64,
    patch: u64,
)
    requires
        call_ensures(bump_line, (package,), r),
        major < u64::MAX,
        minor < u64::MAX,
        patch < u64::MAX,
        package.version@ == decimal(major as nat) + "."@ + decimal(minor as nat) + "."@ + decimal(
            patch as nat,
        ),
    ensures
        r matches Some(line) && line@ == package.name@ + " "@ + package.version@ + " -> patch "@ + (
        decimal(major as nat) + "."@ + decimal(minor as nat) + "."@ + decimal((patch + 1) as nat))
            + " / minor "@ + (decimal(major as nat) + "."@ + decimal((minor + 1) as nat) + ".0"@)
            + " / major "@ + (decimal((major + 1) as nat) + ".0.0"@),
{
    lemma_next_versions(package.version@, major, minor, patch);
}

/// The versions that the bumps of one with three numbers lead to.
proof fn lemma_next_versions(version: Seq<char>, major: u64, minor: u64, patch: u64)
    requires
        major < u64::MAX,
        minor < u64::MAX,
        patch < u64::MAX,
        version == decimal(major as nat) + "."@ + decimal(minor as nat) + "."@ + decimal(
            patch as nat,
        ),
    ensures
        can_grow(version),
        preview(version, Bump::Patch) == decimal(major as nat) + "."@ + decimal(minor as nat)
            + "."@ + decimal((patch + 1) as nat),
        preview(version, Bump::Minor) == decimal(major as nat) + "."@ + decimal((minor + 1) as nat)
            + ".0"@,
        preview(version, Bump::Major) == decimal((major + 1) as nat) + ".0.0"@,
{
    let v = VersionView { major, minor, patch, pre: seq![], build: seq![] };
    assert(v.text() =~= version);
    law_reading_gives_back_what_was_written(v);
    reveal_strlit(".");
    reveal_strlit(".0");
    reveal_strlit(".0.0");
    assert(decimal(0) =~= seq!['0']);
    assert(bumped(v, Bump::Patch).text() =~= decimal(major as nat) + "."@ + decimal(minor as nat)
        + "."@ + decimal((patch + 1) as nat));
    assert(bumped(v, Bump::Minor).text() =~= decimal(major as nat) + "."@ + decimal(
        (minor + 1) as nat,
    ) + ".0"@);
    assert(bumped(v, Bump::Major).text() =~= decimal((major + 1) as nat) + ".0.0"@);
}

/// Putting a version into a manifest changes the version and nothing else.
pub proof fn law_versions_are_put_into_manifests(
    manifest: Tree,
    version: &str,
    r: Tree,
    name: Seq<char>,
)
    requires
        call_ensures(put_version, (manifest, version), r),
    ensures
        manifest is Table ==> {
            &&& child(r@, "version"@) == Some(TreeView::Text(version@))
            &&& name != "version"@ ==> child(r@, name) == child(manifest@, name)
        },
        !(manifest is Table) ==> r@ == manifest@,
{
}

/// All the texts in the list of a workspace are its patterns, in order.
pub proof fn law_all_listed_patterns_count(
    manifest: &Tree,
    r: Option<Vec<String>>,
    items: Seq<TreeView>,
    i: int,
)
    requires
        call_ensures(patterns, (manifest,), r),
        child(manifest@, "workspaces"@) == Some(TreeView::Array(items)) || (child(
            manifest@,
            "workspaces"@,
        ) matches Some(inner) && inner is Table && child(inner, "packages"@) == Some(
            TreeView::Array(items),
        )),
        forall|k: int| 0 <= k < items.len() ==> (#[trigger] items[k]) is Text,
    ensures
        r matches Some(list) && {
            &&& list@.len() == items.len()
            &&& 0 <= i < items.len() ==> TreeView::Text(list@[i]@) == items[i]
        },
{
    lemma_texts(items, items.len() as int);
    assert(items.take(items.len() as int) =~= items);
    let list = r->0;
    assert(views(list@).len() == list@.len());
    if 0 <= i < items.len() {
        assert(views(list@)[i] == list@[i]@);
    }
}

proof fn lemma_texts(items: Seq<TreeView>, n: int)
    requires
        0 <= n <= items.len(),
        forall|k: int| 0 <= k < items.len() ==> (#[trigger] items[k]) is Text,
    ensures
        items.take(n).filter_map(as_text()).len() == n,
        forall|i: int|
            0 <= i < n ==> TreeView::Text(
                #[trigger] items.take(n).filter_map(as_text())[i],
            ) == items[i],
    decreases n,
{
    if n == 0 {
        reveal(Seq::filter_map);
        assert(items.take(0).filter_map(as_text()) =~= seq![]);
    } else {
        lemma_texts(items, n - 1);
        items.lemma_filter_map_take_succ(as_text(), n - 1);
        assert(items[n - 1] is Text);
    }
}

/// Where a workspace has no packages there is nothing to choose from.
pub proof fn law_empty_workspaces_offer_nothing(
    packages: &[Package],
    labels: Result<Vec<String>, String>,
)
    requires
        call_ensures(select_packages, (packages,), labels),
    ensures
        packages@.len() == 0 ==> (labels matches Err(text) && text@
            == "package.json workspaces did not match any packages"@),
        labels is Ok <==> packages@.len() > 0,
{
}

} // verus!
